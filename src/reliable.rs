//! The reliable system: the acknowledgement system and the per-type ordering put together.
//! It builds outgoing headers, saves reliable messages, takes in received ones and hands
//! them out in the order their guarantees ask for.

use vstd::prelude::*;
use crate::ack_system::{base_of, acked_set, AckState, AckSystem, SavedMsg, SEND_ACK_THRESHOLD};
use crate::message_table::{Guarantees, MsgTableParts};
use crate::messages::AckMsg;
use crate::net::{seq_lt, wrapping_lt, AckNum, MsgHeader, MType, OrderNum};
use crate::ordering::{pushed, OrderingState, OrderingSystem};

verus! {

/// A received message: its header and its body.
pub type Received = (MsgHeader, Vec<u8>);

/// Whether the window of `a` needs advertising in a dedicated acknowledgement message:
/// there are residual acknowledgements, or a bitfield was advertised fewer than
/// [`SEND_ACK_THRESHOLD`] times.
pub open spec fn ack_msg_needed(a: AckState) -> bool {
    a.residual.len() > 0 || exists|k: int|
        0 <= k < a.fields.len() && (#[trigger] a.fields[k]).send_count < SEND_ACK_THRESHOLD
}

/// The effect of routing the received message `(header, payload)` of a type with guarantee
/// `g`, from the ready queue, newest numbers and reorder buffers `ready`, `newest`,
/// `ordering` to `ready2`, `newest2`, `ordering2`: a `ReliableOrdered` message goes to its
/// type's reorder buffer (unless that is full), an `UnreliableNewest` one is made ready only
/// when it is newer than every one before, and any other is made ready.
pub open spec fn routed(
    g: Guarantees,
    ready: Seq<Received>,
    newest: Seq<Option<OrderNum>>,
    ordering: Seq<OrderingState<Received>>,
    header: MsgHeader,
    payload: Vec<u8>,
    ready2: Seq<Received>,
    newest2: Seq<Option<OrderNum>>,
    ordering2: Seq<OrderingState<Received>>,
) -> bool {
    let m = header.m_type as int;
    if g is ReliableOrdered {
        &&& ready2 == ready
        &&& newest2 == newest
        &&& ordering2.len() == ordering.len()
        &&& forall|x: int| 0 <= x < ordering.len() && x != m ==> #[trigger] ordering2[x] == ordering[x]
        &&& (ordering2[m] == ordering[m] || pushed(ordering[m], header.order_num, (header, payload), ordering2[m]))
        &&& ordering[m].ready.len() < 32768 && ordering[m].held.len() < 32767 ==> pushed(
            ordering[m],
            header.order_num,
            (header, payload),
            ordering2[m],
        )
    } else if g is UnreliableNewest {
        &&& ordering2 == ordering
        &&& if newest[m] is None || seq_lt(newest[m]->Some_0, header.order_num) {
            ready2 == ready.push((header, payload)) && newest2 == newest.update(m, Some(header.order_num))
        } else {
            ready2 == ready && newest2 == newest
        }
    } else {
        ready2 == ready.push((header, payload)) && newest2 == newest && ordering2 == ordering
    }
}

/// The released messages of the reorder buffers, by ascending message type.
pub open spec fn released(s: Seq<OrderingState<Received>>) -> Seq<Received>
    decreases s.len(),
{
    if s.len() == 0 {
        Seq::empty()
    } else {
        released(s.drop_last()) + s.last().ready.map_values(|e: (OrderNum, Received)| e.1)
    }
}

/// `b` is the acknowledgement state after the peer's acknowledgement message with offset
/// `offset`, bitfields `bitfields` and residual `residual` was taken in state `a`: bitfield
/// `k` retires the saved messages it acknowledges from base `offset - 32 k`, each residual
/// number retires its own, and nothing else changes.
pub open spec fn ack_msg_applied(a: AckState, offset: AckNum, bitfields: Seq<u32>, residual: Seq<AckNum>, b: AckState) -> bool {
    &&& b == (AckState { saved: b.saved, ..a })
    &&& forall|k: int, n: AckNum|
        0 <= k < bitfields.len() && #[trigger] acked_set(base_of(offset, k), bitfields[k]).contains(n)
            ==> !b.saved.contains_key(n)
    &&& forall|i: int| 0 <= i < residual.len() ==> !b.saved.contains_key(#[trigger] residual[i])
    &&& forall|n: AckNum| #[trigger] b.saved.contains_key(n) ==> a.saved.contains_key(n) && b.saved[n] == a.saved[n]
    &&& forall|n: AckNum| #[trigger] a.saved.contains_key(n) && !b.saved.contains_key(n) ==> (exists|k: int|
        0 <= k < bitfields.len() && #[trigger] acked_set(base_of(offset, k), bitfields[k]).contains(n)) || residual.contains(n)
}

/// `b` is the acknowledgement state after the acknowledgements of a received header `h`
/// were taken in state `a`: the sender's [`AckNum`] is marked received, and the saved
/// messages that the piggybacked bitfield acknowledges are retired.
pub open spec fn acks_taken(a: AckState, h: MsgHeader, b: AckState) -> bool {
    exists|mid: AckState|
        crate::ack_system::received_step(a, mid, h.sender_ack_num) && b == (AckState {
            saved: mid.saved.remove_keys(acked_set(h.receiver_acking_offset, h.ack_bits)),
            ..mid
        })
}

/// The reorder buffers with their released messages taken.
pub open spec fn cleared(s: Seq<OrderingState<Received>>) -> Seq<OrderingState<Received>> {
    s.map_values(|o: OrderingState<Received>| OrderingState { ready: Seq::<(OrderNum, Received)>::empty(), ..o })
}

/// Adds reliability and ordering to the messages of one connection.
pub struct ReliableSystem {
    ack_sys: AckSystem,
    guarantees: Vec<Guarantees>,
    order_counters: Vec<OrderNum>,
    ordering: Vec<OrderingSystem<Received>>,
    newest: Vec<Option<OrderNum>>,
    ready: Vec<Received>,
}

impl ReliableSystem {
    /// The parts agree in length, one entry per message type, and the parts are valid.
    pub closed spec fn wf(&self) -> bool {
        &&& self.ack_sys@.wf()
        &&& self.order_counters@.len() == self.guarantees@.len()
        &&& self.ordering@.len() == self.guarantees@.len()
        &&& self.newest@.len() == self.guarantees@.len()
        &&& forall|m: int| 0 <= m < self.ordering@.len() ==> (#[trigger] self.ordering@[m])@.wf()
    }

    /// The number of message types.
    pub closed spec fn type_count(&self) -> nat {
        self.guarantees@.len()
    }

    /// The [`Guarantees`] of each message type.
    pub closed spec fn guarantees_spec(&self) -> Seq<Guarantees> {
        self.guarantees@
    }

    /// The state of the acknowledgement system.
    pub closed spec fn ack_state(&self) -> AckState {
        self.ack_sys@
    }

    /// The messages ready to be handed out that need no ordering, oldest first.
    pub closed spec fn ready_spec(&self) -> Seq<Received> {
        self.ready@
    }

    /// The newest ordering number handed out for each `UnreliableNewest` type.
    pub closed spec fn newest_spec(&self) -> Seq<Option<OrderNum>> {
        self.newest@
    }

    /// The reorder buffer of each message type.
    pub closed spec fn ordering_spec(&self) -> Seq<OrderingState<Received>> {
        self.ordering@.map_values(|o: OrderingSystem<Received>| o@)
    }

    /// The next ordering number of each message type.
    pub closed spec fn order_counters_spec(&self) -> Seq<OrderNum> {
        self.order_counters@
    }

    /// A valid system has one counter, one newest number and one reorder buffer per type.
    pub proof fn lemma_counts(&self)
        requires
            self.wf(),
        ensures
            self.order_counters_spec().len() == self.type_count(),
            self.newest_spec().len() == self.type_count(),
            self.ordering_spec().len() == self.type_count(),
            forall|m: int| 0 <= m < self.type_count() ==> (#[trigger] self.ordering_spec()[m]).wf(),
    {
        assert forall|m: int| 0 <= m < self.type_count() implies (#[trigger] self.ordering_spec()[m]).wf() by {
            assert(self.ordering@[m]@.wf());
        }
    }

    /// Creates a reliable system for the message types of `table`.
    pub fn new(table: &MsgTableParts) -> (r: Self)
        requires
            table.wf(),
        ensures
            r.wf(),
            r.type_count() == table@.len(),
            r.ready_spec().len() == 0,
            r.ack_state().is_fresh(),
            r.newest_spec().len() == table@.len(),
            forall|m: int| 0 <= m < table@.len() ==> #[trigger] r.newest_spec()[m] is None,
            r.ordering_spec().len() == table@.len(),
            forall|m: int| 0 <= m < table@.len() ==> #[trigger] r.ordering_spec()[m] == (OrderingState::<Received> {
                expected: 0, held: Seq::empty(), ready: Seq::empty() }),
            r.order_counters_spec().len() == table@.len(),
            forall|m: int| 0 <= m < table@.len() ==> #[trigger] r.guarantees_spec()[m] == table@[m].1,
            r.ack_state().outgoing == 0,
            forall|m: int| 0 <= m < table@.len() ==> #[trigger] r.order_counters_spec()[m] == 0,
    {
        let n = table.mid_count();
        let mut guarantees: Vec<Guarantees> = Vec::new();
        let mut order_counters: Vec<OrderNum> = Vec::new();
        let mut ordering: Vec<OrderingSystem<Received>> = Vec::new();
        let mut newest: Vec<Option<OrderNum>> = Vec::new();
        let mut m: usize = 0;
        while m < n
            invariant
                table.wf(),
                n == table@.len(),
                m <= n,
                guarantees@.len() == m,
                order_counters@.len() == m,
                ordering@.len() == m,
                newest@.len() == m,
                forall|x: int| 0 <= x < m ==> #[trigger] guarantees@[x] == table@[x].1,
                forall|x: int| 0 <= x < m ==> #[trigger] order_counters@[x] == 0,
                forall|x: int| 0 <= x < m ==> (#[trigger] ordering@[x])@.wf(),
                forall|x: int| 0 <= x < m ==> #[trigger] newest@[x] is None,
                forall|x: int| 0 <= x < m ==> (#[trigger] ordering@[x])@ == (OrderingState::<Received> {
                    expected: 0, held: Seq::empty(), ready: Seq::empty() }),
            decreases n - m,
        {
            guarantees.push(table.guarantees(m));
            order_counters.push(0);
            ordering.push(OrderingSystem::new());
            newest.push(None);
            m += 1;
        }
        ReliableSystem {
            ack_sys: AckSystem::new(),
            guarantees,
            order_counters,
            ordering,
            newest,
            ready: Vec::new(),
        }
    }

    /// Builds the header of the next outgoing message of type `m_type`: a fresh [`AckNum`],
    /// the type's next ordering number, and the acknowledgement of the next header.
    pub fn get_send_header(&mut self, m_type: MType) -> (r: MsgHeader)
        requires
            old(self).wf(),
            m_type < old(self).type_count(),
        ensures
            final(self).ready_spec() == old(self).ready_spec(),
            final(self).wf(),
            final(self).type_count() == old(self).type_count(),
            final(self).guarantees_spec() == old(self).guarantees_spec(),
            r.m_type == m_type,
            r.sender_ack_num == old(self).ack_state().outgoing,
            r.order_num == old(self).order_counters_spec()[m_type as int],
            final(self).order_counters_spec() == old(self).order_counters_spec().update(
                m_type as int,
                (((r.order_num as int) + 1) % 65536) as OrderNum,
            ),
            r == crate::ack_system::next_send_header(old(self).ack_state(), m_type, old(self).order_counters_spec()[m_type as int]),
            final(self).ack_state() == crate::ack_system::after_send(old(self).ack_state()),
            final(self).newest_spec() == old(self).newest_spec(),
            final(self).ordering_spec() == old(self).ordering_spec(),
    {
        let sender_ack_num = self.ack_sys.outgoing_ack_num();
        let order_num = self.order_counters[m_type];
        self.order_counters.set(m_type, order_num.wrapping_add(1));
        let (offset, bits) = self.ack_sys.next_header();
        MsgHeader::new(m_type, order_num, sender_ack_num, offset, bits)
    }

    /// Saves a sent message (the whole datagram) at time `now`, as its guarantees ask.
    pub fn save(&mut self, header: MsgHeader, guarantees: Guarantees, payload: Vec<u8>, now: u64)
        requires
            old(self).wf(),
        ensures
            final(self).newest_spec() == old(self).newest_spec(),
            final(self).ordering_spec() == old(self).ordering_spec(),
            final(self).order_counters_spec() == old(self).order_counters_spec(),
            final(self).ready_spec() == old(self).ready_spec(),
            final(self).wf(),
            final(self).type_count() == old(self).type_count(),
            final(self).guarantees_spec() == old(self).guarantees_spec(),
            exists|replaced: Option<AckNum>|
                crate::ack_system::valid_replacement(old(self).ack_state().saved, header.m_type, replaced)
                    && final(self).ack_state() == (AckState {
                    saved: crate::ack_system::saved_after(
                        old(self).ack_state().saved,
                        header,
                        guarantees,
                        SavedMsg { sent_at: now, header, payload },
                        replaced,
                    ),
                    ..old(self).ack_state()
                }),
    {
        let ghost a = self.ack_sys@;
        let ghost msg = SavedMsg { sent_at: now, header, payload };
        self.ack_sys.save_msg(header, guarantees, payload, now);
        proof {
            let replaced = choose|replaced: Option<AckNum>|
                crate::ack_system::valid_replacement(a.saved, header.m_type, replaced)
                    && self.ack_sys@ == (AckState {
                    saved: crate::ack_system::saved_after(a.saved, header, guarantees, msg, replaced),
                    ..a
                });
            assert(a == old(self).ack_state());
            assert(crate::ack_system::valid_replacement(old(self).ack_state().saved, header.m_type, replaced));
            assert(self.ack_state() == (AckState {
                saved: crate::ack_system::saved_after(old(self).ack_state().saved, header, guarantees, SavedMsg { sent_at: now, header, payload }, replaced),
                ..old(self).ack_state()
            }));
        }
    }

    /// Takes in the acknowledgements that a received header carries: the sender's
    /// [`AckNum`] is marked received, and the piggybacked bitfield is marked.
    pub fn receive_acks(&mut self, header: MsgHeader)
        requires
            old(self).wf(),
        ensures
            final(self).wf(),
            final(self).type_count() == old(self).type_count(),
            final(self).guarantees_spec() == old(self).guarantees_spec(),
            final(self).ready_spec() == old(self).ready_spec(),
            final(self).newest_spec() == old(self).newest_spec(),
            final(self).ordering_spec() == old(self).ordering_spec(),
            final(self).order_counters_spec() == old(self).order_counters_spec(),
            exists|mid: AckState|
                crate::ack_system::received_step(old(self).ack_state(), mid, header.sender_ack_num)
                    && final(self).ack_state() == (AckState {
                    saved: mid.saved.remove_keys(
                        acked_set(header.receiver_acking_offset, header.ack_bits),
                    ),
                    ..mid
                }),
    {
        self.ack_sys.mark_received(header.sender_ack_num);
        let ghost mid = self.ack_sys@;
        self.ack_sys.mark_bitfield(header.receiver_acking_offset, header.ack_bits);
        proof {
            assert(crate::ack_system::received_step(old(self).ack_state(), mid, header.sender_ack_num));
            assert(self.ack_state() == (AckState {
                saved: mid.saved.remove_keys(acked_set(header.receiver_acking_offset, header.ack_bits)),
                ..mid
            }));
        }
    }

    /// Takes in a received message of a known type: it is held until it is in order
    /// (`ReliableOrdered`), dropped unless it is newer than every one before
    /// (`UnreliableNewest`), or made ready at once (other guarantees).
    pub fn route(&mut self, header: MsgHeader, payload: Vec<u8>)
        requires
            old(self).wf(),
            header.m_type < old(self).type_count(),
        ensures
            final(self).wf(),
            final(self).type_count() == old(self).type_count(),
            final(self).guarantees_spec() == old(self).guarantees_spec(),
            final(self).ack_state() == old(self).ack_state(),
            final(self).order_counters_spec() == old(self).order_counters_spec(),
            routed(old(self).guarantees_spec()[header.m_type as int], old(self).ready_spec(),
                old(self).newest_spec(), old(self).ordering_spec(), header, payload,
                final(self).ready_spec(), final(self).newest_spec(), final(self).ordering_spec()),
    {
        let m = header.m_type;
        match self.guarantees[m] {
            Guarantees::ReliableOrdered => {
                let mut buf = self.ordering.remove(m);
                if buf.ready_len() < 32768 && buf.held_len() < 32767 {
                    buf.push(header.order_num, (header, payload));
                }
                self.ordering.insert(m, buf);
                proof {
                    assert forall|x: int| 0 <= x < self.ordering@.len() implies (#[trigger] self.ordering@[x])@.wf() by {
                        if x != m {
                            assert(self.ordering@[x] == old(self).ordering@[x]);
                        }
                    }
                    assert forall|x: int| 0 <= x < self.ordering@.len() && x != m implies #[trigger] self.ordering_spec()[x]
                        == old(self).ordering_spec()[x] by {
                        assert(self.ordering@[x] == old(self).ordering@[x]);
                    }
                }
            },
            Guarantees::UnreliableNewest => {
                let fresh = match self.newest[m] {
                    None => true,
                    Some(last) => wrapping_lt(last, header.order_num),
                };
                if fresh {
                    self.newest.set(m, Some(header.order_num));
                    self.ready.push((header, payload));
                }
            },
            _ => {
                self.ready.push((header, payload));
            },
        }
    }

    /// Takes in a received message: its acknowledgements, then the message itself.
    pub fn push_received(&mut self, header: MsgHeader, payload: Vec<u8>)
        requires
            old(self).wf(),
            header.m_type < old(self).type_count(),
        ensures
            final(self).wf(),
            final(self).type_count() == old(self).type_count(),
            final(self).guarantees_spec() == old(self).guarantees_spec(),
            exists|mid: AckState|
                crate::ack_system::received_step(old(self).ack_state(), mid, header.sender_ack_num)
                    && final(self).ack_state() == (AckState {
                    saved: mid.saved.remove_keys(
                        acked_set(header.receiver_acking_offset, header.ack_bits),
                    ),
                    ..mid
                }),
            routed(old(self).guarantees_spec()[header.m_type as int], old(self).ready_spec(),
                old(self).newest_spec(), old(self).ordering_spec(), header, payload,
                final(self).ready_spec(), final(self).newest_spec(), final(self).ordering_spec()),
    {
        self.receive_acks(header);
        self.route(header, payload);
    }

    /// Takes every message that is ready: the unordered ones first, then each ordered
    /// type's released messages, by ascending message type.
    pub fn get_received(&mut self) -> (r: Vec<Received>)
        requires
            old(self).wf(),
        ensures
            final(self).wf(),
            final(self).type_count() == old(self).type_count(),
            final(self).guarantees_spec() == old(self).guarantees_spec(),
            final(self).ack_state() == old(self).ack_state(),
            final(self).order_counters_spec() == old(self).order_counters_spec(),
            final(self).newest_spec() == old(self).newest_spec(),
            r@ == old(self).ready_spec() + released(old(self).ordering_spec()),
            final(self).ready_spec().len() == 0,
            final(self).ordering_spec().len() == old(self).ordering_spec().len(),
            forall|x: int|
                0 <= x < old(self).ordering_spec().len() ==> #[trigger] final(self).ordering_spec()[x] == (
                OrderingState { ready: Seq::<(OrderNum, Received)>::empty(), ..old(self).ordering_spec()[x] }),
    {
        let ghost start = self.ordering_spec();
        let mut out = self.ready.split_off(0);
        let mut m: usize = 0;
        proof {
            assert(start.subrange(0, 0) =~= Seq::<OrderingState<Received>>::empty());
            assert(out@ =~= old(self).ready_spec() + released(start.subrange(0, 0)));
        }
        while m < self.ordering.len()
            invariant
                self.wf(),
                self.type_count() == old(self).type_count(),
                self.guarantees_spec() == old(self).guarantees_spec(),
                self.ack_state() == old(self).ack_state(),
                self.order_counters_spec() == old(self).order_counters_spec(),
                self.newest_spec() == old(self).newest_spec(),
                self.ready_spec().len() == 0,
                start == old(self).ordering_spec(),
                self.ordering_spec().len() == start.len(),
                m <= self.ordering@.len(),
                out@ == old(self).ready_spec() + released(start.subrange(0, m as int)),
                forall|x: int| 0 <= x < m ==> #[trigger] self.ordering_spec()[x] == (OrderingState {
                    ready: Seq::<(OrderNum, Received)>::empty(), ..start[x] }),
                forall|x: int| m <= x < start.len() ==> #[trigger] self.ordering_spec()[x] == start[x],
            decreases self.ordering@.len() - m,
        {
            let ghost before = self.ordering@;
            let ghost spec0 = self.ordering_spec();
            let ghost out0 = out@;
            assert(self.ordering_spec()[m as int] == start[m as int]);
            assert(before[m as int]@ == start[m as int]);
            let mut buf = self.ordering.remove(m);
            let mut items = buf.drain_ready();
            self.ordering.insert(m, buf);
            let n_items = items.len();
            proof {
                assert forall|x: int| 0 <= x < self.ordering@.len() implies (#[trigger] self.ordering@[x])@.wf() by {
                    if x != m {
                        assert(self.ordering@[x] == before[x]);
                    }
                }
                assert forall|x: int| 0 <= x < self.ordering@.len() && x != m implies #[trigger] self.ordering_spec()[x]
                    == before[x]@ by {
                    assert(self.ordering@[x] == before[x]);
                }
                assert(items@ == start[m as int].ready);
                assert(self.ordering_spec()[m as int] == (OrderingState {
                    ready: Seq::<(OrderNum, Received)>::empty(), ..start[m as int] }));
                assert forall|x: int| 0 <= x < m + 1 implies #[trigger] self.ordering_spec()[x] == (OrderingState {
                    ready: Seq::<(OrderNum, Received)>::empty(), ..start[x] }) by {
                    if x < m {
                        assert(self.ordering_spec()[x] == before[x]@);
                        assert(spec0[x] == before[x]@);
                    }
                }
                assert forall|x: int| m + 1 <= x < start.len() implies #[trigger] self.ordering_spec()[x] == start[x] by {
                    assert(self.ordering_spec()[x] == before[x]@);
                    assert(spec0[x] == before[x]@);
                }
            }
            let ghost all_items = items@;
            let mut k: usize = 0;
            while items.len() > 0
                invariant
                    items@ == all_items.subrange(k as int, all_items.len() as int),
                    k <= all_items.len(),
                    all_items.len() == n_items,
                    out@ == out0 + all_items.subrange(0, k as int).map_values(|e: (OrderNum, Received)| e.1),
                decreases items@.len(),
            {
                let (_, item) = items.remove(0);
                out.push(item);
                k += 1;
                proof {
                    assert(items@ =~= all_items.subrange(k as int, all_items.len() as int));
                    assert(out@ =~= out0 + all_items.subrange(0, k as int).map_values(|e: (OrderNum, Received)| e.1));
                }
            }
            proof {
                assert(k == all_items.len());
                assert(all_items.subrange(0, k as int) =~= all_items);
                assert(start.subrange(0, m + 1).drop_last() =~= start.subrange(0, m as int));
                assert(start.subrange(0, m + 1).last() == start[m as int]);
                assert(out@ =~= old(self).ready_spec() + released(start.subrange(0, m + 1)));
            }
            m += 1;
        }
        proof {
            assert(start.subrange(0, m as int) =~= start);
        }
        out
    }

    /// The saved messages due to be sent again at time `now`, each with its datagram.
    pub fn get_resend(&mut self, now: u64) -> (r: Vec<Received>)
        requires
            old(self).wf(),
        ensures
            final(self).newest_spec() == old(self).newest_spec(),
            final(self).ordering_spec() == old(self).ordering_spec(),
            final(self).order_counters_spec() == old(self).order_counters_spec(),
            final(self).ready_spec() == old(self).ready_spec(),
            final(self).wf(),
            final(self).type_count() == old(self).type_count(),
            final(self).guarantees_spec() == old(self).guarantees_spec(),
            final(self).ack_state() == (AckState { saved: final(self).ack_state().saved, ..old(self).ack_state() }),
            crate::ack_system::resent(old(self).ack_state().saved, final(self).ack_state().saved, now),
            forall|i: int|
                0 <= i < r@.len() ==> {
                    let k = (#[trigger] r@[i]).0.sender_ack_num;
                    &&& old(self).ack_state().saved.contains_key(k)
                    &&& crate::ack_system::due(old(self).ack_state().saved[k], now)
                    &&& r@[i].0 == old(self).ack_state().saved[k].header
                    &&& r@[i].1@ == old(self).ack_state().saved[k].payload@
                },
            forall|k: AckNum|
                #![trigger old(self).ack_state().saved[k]]
                old(self).ack_state().saved.contains_key(k) && crate::ack_system::due(old(self).ack_state().saved[k], now)
                    ==> exists|i: int| 0 <= i < r@.len() && r@[i].0.sender_ack_num == k,
    {
        self.ack_sys.get_resend(now)
    }

    /// The dedicated acknowledgement message, when the window needs advertising (see
    /// [`ack_msg_needed`]); building it counts as one advertisement of every bitfield.
    pub fn get_ack_msg(&mut self) -> (r: Option<AckMsg>)
        requires
            old(self).wf(),
        ensures
            final(self).newest_spec() == old(self).newest_spec(),
            final(self).ordering_spec() == old(self).ordering_spec(),
            final(self).order_counters_spec() == old(self).order_counters_spec(),
            final(self).ready_spec() == old(self).ready_spec(),
            final(self).wf(),
            final(self).type_count() == old(self).type_count(),
            final(self).guarantees_spec() == old(self).guarantees_spec(),
            !ack_msg_needed(old(self).ack_state()) ==> r is None && final(self).ack_state() == old(self).ack_state(),
            ack_msg_needed(old(self).ack_state()) ==> {
                &&& r is Some
                &&& r->Some_0.ack_offset == old(self).ack_state().offset
                &&& r->Some_0.bitfields@ == old(self).ack_state().fields.map_values(|f: crate::ack_system::AckBitfields| f.bitfield)
                &&& r->Some_0.residual@ == old(self).ack_state().residual
                &&& final(self).ack_state() == (AckState {
                    fields: old(self).ack_state().fields.map_values(|f: crate::ack_system::AckBitfields| crate::ack_system::bump(f)),
                    ..old(self).ack_state()
                })
            },
    {
        if !self.ack_msg_needed() {
            return None;
        }
        let (offset, bits, residual) = self.ack_sys.ack_msg_info();
        Some(AckMsg::new(offset, bits, residual))
    }

    fn ack_msg_needed(&self) -> (r: bool)
        requires
            self.wf(),
        ensures
            r == ack_msg_needed(self.ack_state()),
    {
        if self.ack_sys.residual().len() > 0 {
            return true;
        }
        let n = self.ack_sys.bitfield_count();
        let mut k: usize = 0;
        while k < n
            invariant
                n == self.ack_state().fields.len(),
                k <= n,
                self.ack_state().residual.len() == 0,
                forall|j: int| 0 <= j < k ==> (#[trigger] self.ack_state().fields[j]).send_count >= SEND_ACK_THRESHOLD,
            decreases n - k,
        {
            if self.ack_sys.bitfield(k).send_count < SEND_ACK_THRESHOLD {
                return true;
            }
            k += 1;
        }
        false
    }

    /// Takes in a dedicated acknowledgement message from the peer: bitfield `k` is marked
    /// with base `ack_offset - 32 k`, and each residual number is marked on its own.
    pub fn recv_ack_msg(&mut self, msg: &AckMsg)
        requires
            old(self).wf(),
        ensures
            final(self).newest_spec() == old(self).newest_spec(),
            final(self).ordering_spec() == old(self).ordering_spec(),
            final(self).order_counters_spec() == old(self).order_counters_spec(),
            final(self).ready_spec() == old(self).ready_spec(),
            final(self).wf(),
            final(self).type_count() == old(self).type_count(),
            final(self).guarantees_spec() == old(self).guarantees_spec(),
            ack_msg_applied(old(self).ack_state(), msg.ack_offset, msg.bitfields@, msg.residual@, final(self).ack_state()),
    {
        let mut k: usize = 0;
        while k < msg.bitfields.len()
            invariant
                self.wf(),
                self.type_count() == old(self).type_count(),
                self.guarantees_spec() == old(self).guarantees_spec(),
                self.ready_spec() == old(self).ready_spec(),
                self.newest_spec() == old(self).newest_spec(),
                self.ordering_spec() == old(self).ordering_spec(),
                self.order_counters_spec() == old(self).order_counters_spec(),
                self.ack_state() == (AckState { saved: self.ack_state().saved, ..old(self).ack_state() }),
                k <= msg.bitfields@.len(),
                forall|kk: int, n: AckNum|
                    0 <= kk < k && #[trigger] acked_set(base_of(msg.ack_offset, kk), msg.bitfields@[kk]).contains(n)
                        ==> !self.ack_state().saved.contains_key(n),
                forall|n: AckNum| #[trigger] self.ack_state().saved.contains_key(n) ==> old(self).ack_state().saved.contains_key(n)
                    && self.ack_state().saved[n] == old(self).ack_state().saved[n],
                forall|n: AckNum| #[trigger] old(self).ack_state().saved.contains_key(n) && !self.ack_state().saved.contains_key(n)
                    ==> exists|kk: int| 0 <= kk < k && #[trigger] acked_set(base_of(msg.ack_offset, kk), msg.bitfields@[kk]).contains(n),
            decreases msg.bitfields@.len() - k,
        {
            let base = msg.ack_offset.wrapping_sub((32 * (k % 2048)) as u16);
            proof {
                assert((msg.ack_offset as int - 32 * k) % 65536 == (msg.ack_offset as int - 32 * (k % 2048)) % 65536) by (nonlinear_arith);
                assert(base == base_of(msg.ack_offset, k as int));
            }
            let ghost before = self.ack_state();
            self.ack_sys.mark_bitfield(base, msg.bitfields[k]);
            proof {
                assert forall|n: AckNum| #[trigger] old(self).ack_state().saved.contains_key(n) && !self.ack_state().saved.contains_key(n)
                    implies exists|kk: int| 0 <= kk < k + 1 && #[trigger] acked_set(base_of(msg.ack_offset, kk), msg.bitfields@[kk]).contains(n) by {
                    if before.saved.contains_key(n) {
                        assert(acked_set(base_of(msg.ack_offset, k as int), msg.bitfields@[k as int]).contains(n));
                    } else {
                        let kk = choose|kk: int| 0 <= kk < k && #[trigger] acked_set(base_of(msg.ack_offset, kk), msg.bitfields@[kk]).contains(n);
                    }
                }
            }
            k += 1;
        }
        let mut i: usize = 0;
        while i < msg.residual.len()
            invariant
                self.wf(),
                self.type_count() == old(self).type_count(),
                self.guarantees_spec() == old(self).guarantees_spec(),
                self.ready_spec() == old(self).ready_spec(),
                self.newest_spec() == old(self).newest_spec(),
                self.ordering_spec() == old(self).ordering_spec(),
                self.order_counters_spec() == old(self).order_counters_spec(),
                self.ack_state() == (AckState { saved: self.ack_state().saved, ..old(self).ack_state() }),
                i <= msg.residual@.len(),
                forall|kk: int, n: AckNum|
                    0 <= kk < msg.bitfields@.len() && #[trigger] acked_set(base_of(msg.ack_offset, kk), msg.bitfields@[kk]).contains(n)
                        ==> !self.ack_state().saved.contains_key(n),
                forall|j: int| 0 <= j < i ==> !self.ack_state().saved.contains_key(#[trigger] msg.residual@[j]),
                forall|n: AckNum| #[trigger] self.ack_state().saved.contains_key(n) ==> old(self).ack_state().saved.contains_key(n)
                    && self.ack_state().saved[n] == old(self).ack_state().saved[n],
                forall|n: AckNum| #[trigger] old(self).ack_state().saved.contains_key(n) && !self.ack_state().saved.contains_key(n)
                    ==> (exists|kk: int| 0 <= kk < msg.bitfields@.len() && #[trigger] acked_set(base_of(msg.ack_offset, kk), msg.bitfields@[kk]).contains(n))
                    || msg.residual@.subrange(0, i as int).contains(n),
            decreases msg.residual@.len() - i,
        {
            let ghost before = self.ack_state();
            self.ack_sys.mark_outgoing(msg.residual[i]);
            proof {
                assert forall|n: AckNum| #[trigger] old(self).ack_state().saved.contains_key(n) && !self.ack_state().saved.contains_key(n)
                    implies (exists|kk: int| 0 <= kk < msg.bitfields@.len() && #[trigger] acked_set(base_of(msg.ack_offset, kk), msg.bitfields@[kk]).contains(n))
                    || msg.residual@.subrange(0, i + 1).contains(n) by {
                    if before.saved.contains_key(n) {
                        assert(msg.residual@.subrange(0, i + 1)[i as int] == n);
                    } else if !(exists|kk: int| 0 <= kk < msg.bitfields@.len() && #[trigger] acked_set(base_of(msg.ack_offset, kk), msg.bitfields@[kk]).contains(n)) {
                        let x = choose|x: int| 0 <= x < i && msg.residual@.subrange(0, i as int)[x] == n;
                        assert(msg.residual@.subrange(0, i + 1)[x] == n);
                    }
                }
            }
            i += 1;
        }
        proof {
            assert(msg.residual@.subrange(0, i as int) =~= msg.residual@);
        }
    }

    /// Whether a message with the [`AckNum`] `num` is still saved, waiting for its ack.
    pub fn is_saved(&self, num: AckNum) -> (r: bool)
        requires
            self.wf(),
        ensures
            r == self.ack_state().saved.contains_key(num),
    {
        self.ack_sys.is_saved(num)
    }
}

} // verus!
