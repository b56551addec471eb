//! The acknowledgement system: allocates outgoing [`AckNum`]s, records received ones in a
//! sliding window of bitfields so that they can be advertised to the peer, and keeps the
//! reliable messages that were sent until the peer acknowledges them.

use vstd::prelude::*;
use crate::message_table::Guarantees;
use crate::net::{AckNum, MsgHeader, MType};

verus! {

/// How many times a bitfield must be advertised before it may leave the window.
pub const SEND_ACK_THRESHOLD: u32 = 2;

/// The number of [`AckNum`]s that one bitfield covers.
pub const BITFIELD_WIDTH: u32 = 32;

/// How long, in milliseconds, a saved message waits before it is sent again.
pub const RESEND_INTERVAL_MS: u64 = 1000;

/// A bitfield of received [`AckNum`]s, with how many times it was advertised.
#[derive(Copy, Clone, PartialEq, Eq, Structural, Debug, Hash)]
pub struct AckBitfields {
    /// Bit `i` marks the [`AckNum`] `base + i` as received.
    pub bitfield: u32,
    /// How many times this bitfield was sent to the peer.
    pub send_count: u32,
}

/// A reliable message kept until the peer acknowledges it.
#[derive(Clone, Debug)]
pub struct SavedMsg {
    /// When the message was last sent, in milliseconds.
    pub sent_at: u64,
    /// The header the message was sent with.
    pub header: MsgHeader,
    /// The whole datagram: header bytes and body.
    pub payload: Vec<u8>,
}

/// The saved messages by [`AckNum`], held in a `hashbrown` map.
#[verifier::external_body]
pub struct SavedMsgs {
    map: hashbrown::HashMap<AckNum, SavedMsg>,
}

/// What a [`SavedMsgs`] holds.
pub uninterp spec fn saved_map(m: SavedMsgs) -> Map<AckNum, SavedMsg>;

/// Relies on `hashbrown::HashMap::new`: the new map is empty.
#[verifier::external_body]
fn saved_new() -> (r: SavedMsgs)
    ensures
        saved_map(r).dom() == Set::<AckNum>::empty(),
{
    SavedMsgs { map: hashbrown::HashMap::new() }
}

/// Relies on `hashbrown::HashMap::len`: the number of entries.
#[verifier::external_body]
fn saved_len(m: &SavedMsgs) -> (r: usize)
    ensures
        r == saved_map(*m).dom().len(),
{
    m.map.len()
}

/// Relies on `hashbrown::HashMap::get`: the entry of `k`, if there is one.
#[verifier::external_body]
fn saved_get(m: &SavedMsgs, k: AckNum) -> (r: Option<&SavedMsg>)
    ensures
        r == (if saved_map(*m).contains_key(k) {
            Some(&saved_map(*m)[k])
        } else {
            None::<&SavedMsg>
        }),
{
    m.map.get(&k)
}

/// Relies on `hashbrown::HashMap::insert`: afterwards `k` maps to `v`, other keys unchanged.
#[verifier::external_body]
fn saved_insert(m: &mut SavedMsgs, k: AckNum, v: SavedMsg) -> (r: Option<SavedMsg>)
    ensures
        saved_map(*final(m)) == saved_map(*old(m)).insert(k, v),
        r == (if saved_map(*old(m)).contains_key(k) {
            Some(saved_map(*old(m))[k])
        } else {
            None::<SavedMsg>
        }),
{
    m.map.insert(k, v)
}

/// Relies on `hashbrown::HashMap::remove`: afterwards `k` has no entry, other keys unchanged.
#[verifier::external_body]
fn saved_remove(m: &mut SavedMsgs, k: AckNum) -> (r: Option<SavedMsg>)
    ensures
        saved_map(*final(m)) == saved_map(*old(m)).remove(k),
        r == (if saved_map(*old(m)).contains_key(k) {
            Some(saved_map(*old(m))[k])
        } else {
            None::<SavedMsg>
        }),
{
    m.map.remove(&k)
}

/// Relies on `hashbrown::HashMap::keys`: every key once, in an order that the map decides.
#[verifier::external_body]
fn saved_keys(m: &SavedMsgs) -> (r: Vec<AckNum>)
    ensures
        r@.no_duplicates(),
        r@.to_set() == saved_map(*m).dom(),
{
    m.map.keys().copied().collect()
}

/// Whether bit `i` of `bits` is set.
pub open spec fn has_bit(bits: u32, i: u32) -> bool {
    bits & (1u32 << i) != 0u32
}

/// The position of `n` in a bitfield whose base is `base`, modulo 2^16.
pub open spec fn pos_in(n: AckNum, base: AckNum) -> int {
    ((n as int) - (base as int)) % 65536
}

/// The base of the `k`-th bitfield of a window whose front bitfield starts at `offset`.
pub open spec fn base_of(offset: AckNum, k: int) -> AckNum {
    (((offset as int) - 32 * k) % 65536) as AckNum
}

/// The abstract state of an [`AckSystem`].
pub ghost struct AckState {
    /// The next outgoing [`AckNum`].
    pub outgoing: AckNum,
    /// The base of the front bitfield.
    pub offset: AckNum,
    /// The bitfield that the next header advertises.
    pub idx: int,
    /// The window: index 0 starts at `offset`, index `k` at `offset - 32 k`.
    pub fields: Seq<AckBitfields>,
    /// Received [`AckNum`]s too old for the window.
    pub residual: Seq<AckNum>,
    /// The saved reliable messages.
    pub saved: Map<AckNum, SavedMsg>,
}

impl AckState {
    /// Whether this is the state of a new acknowledgement system: nothing sent, received
    /// or saved, one empty bitfield based at 0.
    pub open spec fn is_fresh(self) -> bool {
        &&& self.outgoing == 0
        &&& self.offset == 0
        &&& self.idx == 0
        &&& self.fields == seq![AckBitfields { bitfield: 0, send_count: 0 }]
        &&& self.residual.len() == 0
        &&& self.saved.dom() == Set::<AckNum>::empty()
    }

    /// Whether the `k`-th bitfield marks `n` as received.
    pub open spec fn field_holds(self, k: int, n: AckNum) -> bool {
        &&& 0 <= k < self.fields.len()
        &&& pos_in(n, base_of(self.offset, k)) < 32
        &&& has_bit(self.fields[k].bitfield, pos_in(n, base_of(self.offset, k)) as u32)
    }

    /// Whether `n` is recorded as received: in a bitfield of the window, or in the residual.
    pub open spec fn acked(self, n: AckNum) -> bool {
        (exists|k: int| self.field_holds(k, n)) || self.residual.contains(n)
    }
}

/// How many bitfields `mark_received(n)` pushes onto a window whose front starts at `offset`.
pub open spec fn slides(offset: AckNum, n: AckNum) -> int {
    let d = pos_in(n, offset);
    if 32 <= d < 32768 {
        d / 32
    } else {
        0
    }
}

/// Field `b` is field `a` with at most the bit of `n` added, for a field based at `base`.
pub open spec fn grows_by(a: AckBitfields, b: AckBitfields, base: AckNum, n: AckNum) -> bool {
    &&& b.send_count == a.send_count
    &&& (b.bitfield == a.bitfield || (pos_in(n, base) < 32 && b.bitfield == a.bitfield | (1u32
        << pos_in(n, base) as u32)))
}

/// `b` is the state that `mark_received(n)` leaves behind in state `a`, having evicted
/// the `p` oldest bitfields.
pub open spec fn received_step_by(a: AckState, b: AckState, n: AckNum, p: int) -> bool {
    let s = slides(a.offset, n);
    &&& 0 <= p <= a.fields.len()
    &&& p <= s
    &&& b.outgoing == a.outgoing
    &&& b.idx == a.idx
    &&& b.saved == a.saved
    &&& b.offset == ((a.offset as int) + 32 * s) % 65536
    &&& b.fields.len() == s + a.fields.len() - p
    &&& forall|j: int|
        0 <= j < s ==> grows_by(
            AckBitfields { bitfield: 0, send_count: 0 },
            #[trigger] b.fields[j],
            base_of(b.offset, j),
            n,
        )
    &&& forall|i: int|
        0 <= i < a.fields.len() - p ==> grows_by(
            #[trigger] a.fields[i],
            b.fields[i + s],
            base_of(a.offset, i),
            n,
        )
    &&& forall|i: int|
        a.fields.len() - p <= i < a.fields.len() ==> #[trigger] a.fields[i].send_count
            >= SEND_ACK_THRESHOLD
    &&& (b.residual == a.residual || (b.residual == a.residual.push(n) && forall|k: int|
        0 <= k < b.fields.len() ==> pos_in(n, #[trigger] base_of(b.offset, k)) >= 32))
    &&& b.acked(n)
}

/// `b` is the state that `mark_received(n)` leaves behind in state `a`.
pub open spec fn received_step(a: AckState, b: AckState, n: AckNum) -> bool {
    exists|p: int| received_step_by(a, b, n, p)
}

/// The [`AckNum`]s that a bitfield `bits` based at `offset` acknowledges.
pub open spec fn acked_set(offset: AckNum, bits: u32) -> Set<AckNum> {
    Set::new(|k: AckNum| pos_in(k, offset) < 32 && has_bit(bits, pos_in(k, offset) as u32))
}

/// Whether a saved message is due to be sent again at time `now`.
pub open spec fn due(m: SavedMsg, now: u64) -> bool {
    now > m.sent_at && now - m.sent_at > RESEND_INTERVAL_MS
}

/// Whether two saved messages agree but for the time they were sent.
pub open spec fn same_msg(a: SavedMsg, b: SavedMsg) -> bool {
    a.header == b.header && a.payload@ == b.payload@
}

/// The saved messages after `save_msg(header, guarantees, payload)` at time `now`, where
/// `replaced` is the entry (if any) that a `ReliableNewest` save drops.
pub open spec fn saved_after(
    saved: Map<AckNum, SavedMsg>,
    header: MsgHeader,
    guarantees: Guarantees,
    msg: SavedMsg,
    replaced: Option<AckNum>,
) -> Map<AckNum, SavedMsg> {
    if !guarantees.is_reliable() {
        saved
    } else if guarantees is ReliableNewest {
        match replaced {
            Some(k) => saved.remove(k).insert(header.sender_ack_num, msg),
            None => saved.insert(header.sender_ack_num, msg),
        }
    } else {
        saved.insert(header.sender_ack_num, msg)
    }
}

/// Whether `replaced` is a valid choice of the entry that a save of `header` drops:
/// some entry of the same message type, or none when there is no such entry.
pub open spec fn valid_replacement(
    saved: Map<AckNum, SavedMsg>,
    m_type: MType,
    replaced: Option<AckNum>,
) -> bool {
    match replaced {
        Some(k) => saved.contains_key(k) && saved[k].header.m_type == m_type,
        None => forall|k: AckNum| saved.contains_key(k) ==> saved[k].header.m_type != m_type,
    }
}

/// The Acknowledgement System.
///
/// Generates the acknowledgement part of outgoing headers, the contents of the dedicated
/// acknowledgement message, and the outgoing [`AckNum`]s; keeps reliable messages until
/// they are acknowledged.
pub struct AckSystem {
    outgoing_counter: AckNum,
    ack_offset: AckNum,
    current_idx: usize,
    ack_bitfields: Vec<AckBitfields>,
    residual: Vec<AckNum>,
    saved_msgs: SavedMsgs,
}

impl View for AckSystem {
    type V = AckState;

    closed spec fn view(&self) -> AckState {
        AckState {
            outgoing: self.outgoing_counter,
            offset: self.ack_offset,
            idx: self.current_idx as int,
            fields: self.ack_bitfields@,
            residual: self.residual@,
            saved: saved_map(self.saved_msgs),
        }
    }
}

impl AckState {
    /// The window is never empty, the round-robin index points into it, the saved map is
    /// finite and each saved message sits under its own [`AckNum`].
    pub open spec fn wf(self) -> bool {
        &&& self.fields.len() >= 1
        &&& 0 <= self.idx < self.fields.len()
        &&& self.saved.dom().finite()
        &&& forall|k: AckNum| #[trigger]
            self.saved.contains_key(k) ==> self.saved[k].header.sender_ack_num == k
    }
}

proof fn lemma_set_bit(x: u32, i: u32)
    requires
        i < 32,
    ensures
        has_bit(x | (1u32 << i), i),
        forall|j: u32| j < 32 && has_bit(x, j) ==> has_bit(x | (1u32 << i), j),
{
    assert(has_bit(x | (1u32 << i), i)) by (bit_vector)
        requires
            i < 32,
    ;
    assert forall|j: u32| j < 32 && has_bit(x, j) implies has_bit(x | (1u32 << i), j) by {
        assert(x & (1u32 << j) != 0u32 ==> (x | (1u32 << i)) & (1u32 << j) != 0u32)
            by (bit_vector);
    }
}

proof fn lemma_grows_keeps(a: AckBitfields, b: AckBitfields, base: AckNum, n: AckNum, m: AckNum)
    requires
        grows_by(a, b, base, n),
        pos_in(m, base) < 32,
        has_bit(a.bitfield, pos_in(m, base) as u32),
    ensures
        has_bit(b.bitfield, pos_in(m, base) as u32),
{
    if b.bitfield != a.bitfield {
        lemma_set_bit(a.bitfield, pos_in(n, base) as u32);
    }
}

/// `b` is `a` after `s` slides of the window that evicted the `p` oldest bitfields.
pub open spec fn slid(a: AckState, b: AckState, s: int, p: int) -> bool {
    &&& 0 <= p <= s
    &&& p <= a.fields.len()
    &&& b.outgoing == a.outgoing
    &&& b.idx == a.idx
    &&& b.saved == a.saved
    &&& b.residual == a.residual
    &&& b.offset == ((a.offset as int) + 32 * s) % 65536
    &&& b.fields == Seq::new(s as nat, |j: int| AckBitfields { bitfield: 0, send_count: 0 })
        + a.fields.subrange(0, a.fields.len() - p)
    &&& forall|i: int|
        a.fields.len() - p <= i < a.fields.len() ==> #[trigger] a.fields[i].send_count
            >= SEND_ACK_THRESHOLD
}

proof fn lemma_back_pos(off: AckNum, num: AckNum, back: int, k: int)
    requires
        back == ((off as int) - (num as int)) % 65536,
        1 <= back <= 32768,
        k == (back + 31) / 32,
    ensures
        pos_in(num, base_of(off, k)) == 32 * k - back,
        0 <= 32 * k - back < 32,
        forall|kk: int| 0 <= kk < k ==> pos_in(num, #[trigger] base_of(off, kk)) >= 32,
{
    assert(0 <= 32 * k - back < 32);
    assert forall|kk: int| 0 <= kk < k implies pos_in(num, #[trigger] base_of(off, kk)) >= 32 by {
        assert(32 * kk <= 32 * k - 32);
    }
}

proof fn lemma_base_shift(off: AckNum, s: int, i: int)
    ensures
        base_of(off, i) == base_of((((off as int) + 32 * s) % 65536) as AckNum, i + s),
{
}

/// A bitfield after one more advertisement.
pub open spec fn bump(f: AckBitfields) -> AckBitfields {
    AckBitfields {
        bitfield: f.bitfield,
        send_count: if f.send_count < u32::MAX {
            (f.send_count + 1) as u32
        } else {
            f.send_count
        },
    }
}

fn bump_count(f: AckBitfields) -> (r: AckBitfields)
    ensures
        r == bump(f),
{
    AckBitfields {
        bitfield: f.bitfield,
        send_count: if f.send_count < u32::MAX {
            f.send_count + 1
        } else {
            f.send_count
        },
    }
}

/// Recording `n` as received records `n`, and keeps every earlier acknowledgement but those
/// held in bitfields that left the window, each of which had been advertised at least
/// [`SEND_ACK_THRESHOLD`] times.
pub proof fn lemma_received_coverage(a: AckState, b: AckState, n: AckNum, m: AckNum)
    requires
        a.wf(),
        received_step(a, b, n),
    ensures
        b.acked(n),
        a.acked(m) ==> b.acked(m) || exists|k: int|
            a.field_holds(k, m) && a.fields[k].send_count >= SEND_ACK_THRESHOLD,
{
    let p = choose|p: int| received_step_by(a, b, n, p);
    let s = slides(a.offset, n);
    if a.acked(m) && !b.acked(m) {
        if a.residual.contains(m) {
            let i = choose|i: int| 0 <= i < a.residual.len() && a.residual[i] == m;
            if b.residual != a.residual {
                assert(b.residual[i] == m);
            }
            assert(b.residual.contains(m));
        } else {
            let k = choose|k: int| a.field_holds(k, m);
            if k < a.fields.len() - p {
                lemma_base_shift(a.offset, s, k);
                lemma_grows_keeps(
                    a.fields[k],
                    b.fields[k + s],
                    base_of(a.offset, k),
                    n,
                    m,
                );
                assert(b.field_holds(k + s, m));
            }
        }
    }
}

/// A bitfield leaves the window only after it was advertised at least
/// [`SEND_ACK_THRESHOLD`] times: every other bitfield stays, with its base and send count.
pub proof fn lemma_eviction_threshold(a: AckState, b: AckState, n: AckNum, i: int)
    requires
        a.wf(),
        received_step(a, b, n),
        0 <= i < a.fields.len(),
        a.fields[i].send_count < SEND_ACK_THRESHOLD,
    ensures
        i + slides(a.offset, n) < b.fields.len(),
        b.fields[i + slides(a.offset, n)].send_count == a.fields[i].send_count,
        base_of(b.offset, i + slides(a.offset, n)) == base_of(a.offset, i),
{
    let p = choose|p: int| received_step_by(a, b, n, p);
    let s = slides(a.offset, n);
    assert(i < a.fields.len() - p);
    assert(grows_by(a.fields[i], b.fields[i + s], base_of(a.offset, i), n));
    lemma_base_shift(a.offset, s, i);
}

/// Marking the same acknowledgement bitfield twice leaves the saved messages as marking it
/// once does.
pub proof fn lemma_mark_bitfield_idempotent(saved: Map<AckNum, SavedMsg>, offset: AckNum, bits: u32)
    ensures
        saved.remove_keys(acked_set(offset, bits)).remove_keys(acked_set(offset, bits))
            == saved.remove_keys(acked_set(offset, bits)),
{
    assert(saved.remove_keys(acked_set(offset, bits)).remove_keys(acked_set(offset, bits))
        =~= saved.remove_keys(acked_set(offset, bits)));
}

/// Some valid choice of the entry that a save of a message of type `m_type` drops.
pub open spec fn some_replacement(saved: Map<AckNum, SavedMsg>, m_type: MType) -> Option<AckNum> {
    if exists|k: AckNum| saved.contains_key(k) && saved[k].header.m_type == m_type {
        Some(choose|k: AckNum| saved.contains_key(k) && saved[k].header.m_type == m_type)
    } else {
        None
    }
}

/// `b` is the saved map `a` after a resend at time `now`: the due messages have `now` as
/// their send time, everything else is unchanged.
pub open spec fn resent(a: Map<AckNum, SavedMsg>, b: Map<AckNum, SavedMsg>, now: u64) -> bool {
    &&& b.dom() == a.dom()
    &&& forall|k: AckNum|
        #![trigger b[k]]
        a.contains_key(k) ==> if due(a[k], now) {
            b[k] == SavedMsg { sent_at: now, ..a[k] }
        } else {
            b[k] == a[k]
        }
}

/// Whether at most one saved message has the type `m_type`.
pub open spec fn at_most_one_of_type(saved: Map<AckNum, SavedMsg>, m_type: MType) -> bool {
    forall|k1: AckNum, k2: AckNum|
        saved.contains_key(k1) && saved.contains_key(k2) && saved[k1].header.m_type == m_type
            && saved[k2].header.m_type == m_type ==> k1 == k2
}

/// After two saves of `ReliableNewest` messages of one message type, exactly one saved
/// message has that type: the second one. This holds from any saved set with at most one
/// message of that type.
pub proof fn lemma_newest_retention(
    saved: Map<AckNum, SavedMsg>,
    first: SavedMsg,
    r1: Option<AckNum>,
    second: SavedMsg,
    r2: Option<AckNum>,
)
    requires
        first.header.m_type == second.header.m_type,
        at_most_one_of_type(saved, first.header.m_type),
        valid_replacement(saved, first.header.m_type, r1),
        valid_replacement(
            saved_after(saved, first.header, Guarantees::ReliableNewest, first, r1),
            second.header.m_type,
            r2,
        ),
    ensures
        ({
            let s1 = saved_after(saved, first.header, Guarantees::ReliableNewest, first, r1);
            let s2 = saved_after(s1, second.header, Guarantees::ReliableNewest, second, r2);
            &&& s2.contains_key(second.header.sender_ack_num)
            &&& s2[second.header.sender_ack_num] == second
            &&& forall|k: AckNum|
                s2.contains_key(k) && s2[k].header.m_type == second.header.m_type ==> k
                    == second.header.sender_ack_num
        }),
{
    let m = first.header.m_type;
    let s1 = saved_after(saved, first.header, Guarantees::ReliableNewest, first, r1);
    assert forall|k: AckNum| s1.contains_key(k) && s1[k].header.m_type == m implies k
        == first.header.sender_ack_num by {
        if k != first.header.sender_ack_num {
            if let Some(x) = r1 {
                assert(k != x);
            }
        }
    }
    assert(s1.contains_key(first.header.sender_ack_num));
    assert(r2 == Some(first.header.sender_ack_num));
}

/// Whether `k` is among the first `i` elements of `keys`.
pub open spec fn in_prefix(keys: Seq<AckNum>, i: int, k: AckNum) -> bool {
    exists|x: int| 0 <= x < i && #[trigger] keys[x] == k
}

/// An acknowledgement that a receiver has recorded in one of its bitfields retires the saved
/// message on the sender once that bitfield, with its base, is marked there; one recorded in
/// the residual retires it once marked on its own.
pub proof fn lemma_advertised_ack_retires(
    receiver: AckState,
    k: int,
    n: AckNum,
    sender_saved: Map<AckNum, SavedMsg>,
)
    requires
        receiver.field_holds(k, n) || receiver.residual.contains(n),
    ensures
        receiver.field_holds(k, n) ==> !sender_saved.remove_keys(
            acked_set(base_of(receiver.offset, k), receiver.fields[k].bitfield),
        ).contains_key(n),
        !sender_saved.remove(n).contains_key(n),
{
    if receiver.field_holds(k, n) {
        assert(acked_set(base_of(receiver.offset, k), receiver.fields[k].bitfield).contains(n));
    }
}

/// The state after one acknowledgement was taken for an outgoing header.
pub open spec fn after_header(a: AckState) -> AckState {
    AckState {
        idx: (a.idx + 1) % (a.fields.len() as int),
        fields: a.fields.update(a.idx, bump(a.fields[a.idx])),
        ..a
    }
}

/// The state after an outgoing header took its [`AckNum`] and its acknowledgement.
pub open spec fn after_send(a: AckState) -> AckState {
    AckState { outgoing: (((a.outgoing as int) + 1) % 65536) as AckNum, ..after_header(a) }
}

/// The header that the next message of type `m_type`, with ordering number `order_num`,
/// is sent with from state `a`.
pub open spec fn next_send_header(a: AckState, m_type: MType, order_num: u16) -> MsgHeader {
    MsgHeader {
        m_type,
        order_num,
        sender_ack_num: a.outgoing,
        receiver_acking_offset: base_of(a.offset, a.idx),
        ack_bits: a.fields[a.idx].bitfield,
    }
}

/// The state after `j` acknowledgements were taken for outgoing headers.
pub open spec fn after_headers(a: AckState, j: nat) -> AckState
    decreases j,
{
    if j == 0 {
        a
    } else {
        after_header(after_headers(a, (j - 1) as nat))
    }
}

proof fn lemma_after_headers(a: AckState, j: nat)
    requires
        a.wf(),
    ensures
        after_headers(a, j).wf(),
        after_headers(a, j).offset == a.offset,
        after_headers(a, j).fields.len() == a.fields.len(),
        after_headers(a, j).idx == (a.idx + j) % (a.fields.len() as int),
        forall|k: int| 0 <= k < a.fields.len() ==> #[trigger] after_headers(a, j).fields[k].bitfield
            == a.fields[k].bitfield,
    decreases j,
{
    let n = a.fields.len() as int;
    if j > 0 {
        lemma_after_headers(a, (j - 1) as nat);
        let p = after_headers(a, (j - 1) as nat);
        assert((p.idx + 1) % n == (a.idx + j) % n) by {
            vstd::arithmetic::div_mod::lemma_add_mod_noop_right(1, a.idx + j - 1, n);
        }
    } else {
        vstd::arithmetic::div_mod::lemma_small_mod(a.idx as nat, n as nat);
    }
}

/// Every acknowledgement that a receiver holds in its window goes out with one of its next
/// headers: fewer than the window's length of them, counting from now, carry the bitfield
/// that holds it, with that bitfield's base; and marking that header's acknowledgement on
/// the sender retires the saved message.
pub proof fn lemma_ack_reaches_peer(receiver: AckState, k: int, n: AckNum, sender_saved: Map<AckNum, SavedMsg>)
    requires
        receiver.wf(),
        receiver.field_holds(k, n),
    ensures
        ({
            let len = receiver.fields.len() as int;
            let j = ((k - receiver.idx) % len) as nat;
            let s = after_headers(receiver, j);
            &&& j < len
            &&& s.idx == k
            &&& !sender_saved.remove_keys(
                acked_set(base_of(s.offset, s.idx), s.fields[s.idx].bitfield),
            ).contains_key(n)
        }),
{
    let len = receiver.fields.len() as int;
    let j = ((k - receiver.idx) % len) as nat;
    lemma_after_headers(receiver, j);
    assert((receiver.idx + j) % len == k) by {
        vstd::arithmetic::div_mod::lemma_add_mod_noop_right(receiver.idx, k - receiver.idx, len);
        vstd::arithmetic::div_mod::lemma_small_mod(k as nat, len as nat);
    }
    lemma_advertised_ack_retires(receiver, k, n, sender_saved);
}

impl AckSystem {
    /// Creates an [`AckSystem`] with one empty bitfield based at 0 and nothing saved.
    pub fn new() -> (r: Self)
        ensures
            r@.wf(),
            r@.is_fresh(),
            r@.outgoing == 0,
            r@.offset == 0,
            r@.idx == 0,
            r@.fields == seq![AckBitfields { bitfield: 0, send_count: 0 }],
            r@.residual == Seq::<AckNum>::empty(),
            r@.saved.dom() == Set::<AckNum>::empty(),
    {
        let r = AckSystem {
            outgoing_counter: 0,
            ack_offset: 0,
            current_idx: 0,
            ack_bitfields: vec![AckBitfields { bitfield: 0, send_count: 0 }],
            residual: Vec::new(),
            saved_msgs: saved_new(),
        };
        assert(r@.fields =~= seq![AckBitfields { bitfield: 0, send_count: 0 }]);
        assert(r@.saved.dom() =~= Set::<AckNum>::empty());
        r
    }

    /// The base of the front bitfield.
    pub fn ack_offset(&self) -> (r: AckNum)
        ensures
            r == self@.offset,
    {
        self.ack_offset
    }

    /// The number of bitfields in the window.
    pub fn bitfield_count(&self) -> (r: usize)
        ensures
            r == self@.fields.len(),
    {
        self.ack_bitfields.len()
    }

    /// The `k`-th bitfield of the window; index 0 is the front.
    pub fn bitfield(&self, k: usize) -> (r: AckBitfields)
        requires
            k < self@.fields.len(),
        ensures
            r == self@.fields[k as int],
    {
        self.ack_bitfields[k]
    }

    /// The received [`AckNum`]s that were too old for the window.
    pub fn residual(&self) -> (r: &Vec<AckNum>)
        ensures
            r@ == self@.residual,
    {
        &self.residual
    }

    /// The number of saved messages.
    pub fn saved_count(&self) -> (r: usize)
        ensures
            r == self@.saved.dom().len(),
    {
        saved_len(&self.saved_msgs)
    }

    /// Whether a message with the [`AckNum`] `num` is saved.
    pub fn is_saved(&self, num: AckNum) -> (r: bool)
        ensures
            r == self@.saved.contains_key(num),
    {
        saved_get(&self.saved_msgs, num).is_some()
    }
    fn slide_window(&mut self, num: AckNum) -> (d: u16)
        requires
            old(self)@.wf(),
        ensures
            final(self)@.fields.len() >= 1,
            final(self)@.idx < final(self)@.fields.len(),
            exists|p: int| slid(old(self)@, final(self)@, slides(old(self)@.offset, num), p),
            d as int == pos_in(num, final(self)@.offset),
            d < 32 || d >= 32768,
    {
        let ghost a = self@;
        let ghost d0 = pos_in(num, a.offset);
        let ghost mut s: int = 0;
        let ghost mut p: int = 0;
        let mut d: u16 = num.wrapping_sub(self.ack_offset);
        assert(self@.fields =~= Seq::new(0, |j: int| AckBitfields { bitfield: 0, send_count: 0 })
            + a.fields.subrange(0, a.fields.len() as int));
        while d >= 32 && d < 32768
            invariant
                a.wf(),
                d0 == pos_in(num, a.offset),
                slid(a, self@, s, p),
                d as int == pos_in(num, self@.offset),
                (32 <= d0 < 32768) ==> d0 == d + 32 * s,
                !(32 <= d0 < 32768) ==> s == 0 && d == d0,
                self@.fields.len() >= 1,
                self@.idx < self@.fields.len(),
            decreases d,
        {
            let last = self.ack_bitfields.len() - 1;
            if self.ack_bitfields[last].send_count >= SEND_ACK_THRESHOLD {
                self.ack_bitfields.pop();
                proof {
                    if last >= s {
                        p = p + 1;
                    }
                }
            }
            self.ack_bitfields.insert(0, AckBitfields { bitfield: 0, send_count: 0 });
            self.ack_offset = self.ack_offset.wrapping_add(32);
            d = d - 32;
            proof {
                s = s + 1;
                assert(self@.fields =~= Seq::new(s as nat, |j: int| AckBitfields { bitfield: 0, send_count: 0 })
                    + a.fields.subrange(0, a.fields.len() - p));
            }
        }
        assert(s == slides(a.offset, num));
        d
    }

    /// Marks the incoming [`AckNum`] `num` as received, so that it is acknowledged to the peer.
    ///
    /// While `num` lies 32 or more ahead of the front bitfield (wrap-aware), the window
    /// slides: the back bitfield leaves if it was advertised [`SEND_ACK_THRESHOLD`] times,
    /// and an empty bitfield is pushed at the front, 32 further on. Then the bit of `num` is
    /// set in the bitfield that covers it, or, when `num` is older than the whole window,
    /// `num` joins the residual.
    #[verifier::rlimit(40)]
    pub fn mark_received(&mut self, num: AckNum)
        requires
            old(self)@.wf(),
        ensures
            final(self)@.wf(),
            received_step(old(self)@, final(self)@, num),
    {
        let ghost a = self@;
        let d = self.slide_window(num);
        let ghost mid = self@;
        let ghost s = slides(a.offset, num);
        let ghost p = choose|p: int| slid(a, mid, s, p);
        if d < 32 {
            let old_bits = self.ack_bitfields[0].bitfield;
            let f = AckBitfields { bitfield: old_bits | (1u32 << d), send_count: self.ack_bitfields[0].send_count };
            self.ack_bitfields.set(0, f);
            proof {
                assert(base_of(self@.offset, 0) == self@.offset);
                lemma_set_bit(old_bits, d as u32);
                assert(self@.field_holds(0, num));
            }
        } else {
            let back: u16 = self.ack_offset.wrapping_sub(num);
            let k: usize = ((back as usize) + 31) / 32;
            proof {
                lemma_back_pos(self.ack_offset, num, back as int, k as int);
            }
            if k < self.ack_bitfields.len() {
                let bit: u32 = (32 * k - back as usize) as u32;
                let old_bits = self.ack_bitfields[k].bitfield;
                let f = AckBitfields { bitfield: old_bits | (1u32 << bit), send_count: self.ack_bitfields[k].send_count };
                self.ack_bitfields.set(k, f);
                proof {
                    lemma_set_bit(old_bits, bit);
                    assert(self@.field_holds(k as int, num));
                }
            } else {
                self.residual.push(num);
                proof {
                    assert(self@.residual[self@.residual.len() - 1] == num);
                }
            }
        }
        proof {
            let b = self@;
            assert forall|j: int| 0 <= j < s implies grows_by(
                AckBitfields { bitfield: 0, send_count: 0 },
                #[trigger] b.fields[j],
                base_of(b.offset, j),
                num,
            ) by {
                assert(mid.fields[j] == AckBitfields { bitfield: 0, send_count: 0 });
            }
            assert forall|i: int| 0 <= i < a.fields.len() - p implies grows_by(
                #[trigger] a.fields[i],
                b.fields[i + s],
                base_of(a.offset, i),
                num,
            ) by {
                assert(mid.fields[i + s] == a.fields[i]);
                lemma_base_shift(a.offset, s, i);
            }
            assert(received_step_by(a, b, num, p));
        }
    }
    /// Marks the outgoing message `num` as acknowledged by the peer: it is no longer saved.
    pub fn mark_outgoing(&mut self, num: AckNum)
        requires
            old(self)@.wf(),
        ensures
            final(self)@.wf(),
            final(self)@ == (AckState { saved: old(self)@.saved.remove(num), ..old(self)@ }),
    {
        saved_remove(&mut self.saved_msgs, num);
    }

    /// Marks every outgoing message that the peer's bitfield `bitfield`, based at `offset`,
    /// acknowledges: bit `i` acknowledges `offset + i` (mod 2^16).
    pub fn mark_bitfield(&mut self, offset: AckNum, bitfield: u32)
        requires
            old(self)@.wf(),
        ensures
            final(self)@.wf(),
            final(self)@ == (AckState {
                saved: old(self)@.saved.remove_keys(acked_set(offset, bitfield)),
                ..old(self)@
            }),
    {
        let ghost a = self@;
        let mut i: u32 = 0;
        assert(a.saved.remove_keys(
            Set::new(
                |k: AckNum| pos_in(k, offset) < 0 && has_bit(bitfield, pos_in(k, offset) as u32),
            ),
        ) =~= a.saved);
        while i < 32
            invariant
                a.wf(),
                i <= 32,
                self@.wf(),
                self@ == (AckState {
                    saved: a.saved.remove_keys(
                        Set::new(
                            |k: AckNum|
                                pos_in(k, offset) < i && has_bit(bitfield, pos_in(k, offset) as u32),
                        ),
                    ),
                    ..a
                }),
            decreases 32 - i,
        {
            let key = offset.wrapping_add(i as u16);
            if bitfield & (1u32 << i) != 0 {
                saved_remove(&mut self.saved_msgs, key);
            }
            proof {
                assert(pos_in(key, offset) == i);
            }
            i += 1;
            proof {
                let want = a.saved.remove_keys(
                    Set::new(
                        |k: AckNum|
                            pos_in(k, offset) < i && has_bit(bitfield, pos_in(k, offset) as u32),
                    ),
                );
                assert(self@.saved =~= want);
            }
        }
        assert(Set::new(
            |k: AckNum| pos_in(k, offset) < 32 && has_bit(bitfield, pos_in(k, offset) as u32),
        ) =~= acked_set(offset, bitfield));
    }

    /// The acknowledgement to carry in the next outgoing header: the bitfield at the
    /// round-robin index, with its base (the front offset for index 0). That bitfield's send
    /// count goes up by one (saturating) and the index moves on, wrapping.
    pub fn next_header(&mut self) -> (r: (AckNum, u32))
        requires
            old(self)@.wf(),
        ensures
            final(self)@.wf(),
            r == (base_of(old(self)@.offset, old(self)@.idx), old(self)@.fields[old(self)@.idx].bitfield),
            final(self)@ == after_header(old(self)@),
    {
        let idx = self.current_idx;
        let field = self.ack_bitfields[idx];
        self.ack_bitfields.set(idx, bump_count(field));
        assert(idx < self.ack_bitfields.len());
        self.current_idx = (idx + 1) % self.ack_bitfields.len();
        let base = self.ack_offset.wrapping_sub((32 * (idx % 2048)) as u16);
        proof {
            assert(base_of(self.ack_offset, idx as int) == base_of(self.ack_offset, (idx % 2048) as int)) by {
                assert((self.ack_offset as int - 32 * idx) % 65536 == (self.ack_offset as int - 32 * (idx % 2048)) % 65536) by (nonlinear_arith);
            }
        }
        (base, field.bitfield)
    }

    /// Everything the dedicated acknowledgement message carries: the front offset, the
    /// bitfields front first, and the residual. Every bitfield's send count goes up by one
    /// (saturating).
    pub fn ack_msg_info(&mut self) -> (r: (AckNum, Vec<u32>, Vec<AckNum>))
        requires
            old(self)@.wf(),
        ensures
            final(self)@.wf(),
            r.0 == old(self)@.offset,
            r.1@ == old(self)@.fields.map_values(|f: AckBitfields| f.bitfield),
            r.2@ == old(self)@.residual,
            final(self)@ == (AckState {
                fields: old(self)@.fields.map_values(|f: AckBitfields| bump(f)),
                ..old(self)@
            }),
    {
        let ghost a = self@;
        let mut bits: Vec<u32> = Vec::new();
        let mut i: usize = 0;
        while i < self.ack_bitfields.len()
            invariant
                a.wf(),
                i <= self@.fields.len(),
                self@.fields.len() == a.fields.len(),
                self@ == (AckState { fields: self@.fields, ..a }),
                bits@.len() == i,
                forall|j: int| 0 <= j < i ==> bits@[j] == a.fields[j].bitfield,
                forall|j: int| 0 <= j < i ==> self@.fields[j] == bump(a.fields[j]),
                forall|j: int| i <= j < a.fields.len() ==> self@.fields[j] == a.fields[j],
            decreases self@.fields.len() - i,
        {
            let f = self.ack_bitfields[i];
            bits.push(f.bitfield);
            self.ack_bitfields.set(i, bump_count(f));
            i += 1;
        }
        assert(bits@ =~= a.fields.map_values(|f: AckBitfields| f.bitfield));
        assert(self@.fields =~= a.fields.map_values(|f: AckBitfields| bump(f)));
        (self.ack_offset, bits, self.residual.clone())
    }

    /// The next outgoing [`AckNum`]; the counter moves on, wrapping.
    pub fn outgoing_ack_num(&mut self) -> (r: AckNum)
        requires
            old(self)@.wf(),
        ensures
            final(self)@.wf(),
            r == old(self)@.outgoing,
            final(self)@ == (AckState {
                outgoing: (((old(self)@.outgoing as int) + 1) % 65536) as AckNum,
                ..old(self)@
            }),
    {
        let ack = self.outgoing_counter;
        self.outgoing_counter = self.outgoing_counter.wrapping_add(1);
        ack
    }
    fn find_same_type(&self, m_type: MType) -> (r: Option<AckNum>)
        requires
            self@.wf(),
        ensures
            valid_replacement(self@.saved, m_type, r),
    {
        let keys = saved_keys(&self.saved_msgs);
        let mut i: usize = 0;
        while i < keys.len()
            invariant
                i <= keys@.len(),
                keys@.to_set() == self@.saved.dom(),
                forall|j: int|
                    0 <= j < i ==> self@.saved[#[trigger] keys@[j]].header.m_type != m_type,
            decreases keys@.len() - i,
        {
            let k = keys[i];
            assert(keys@.to_set().contains(k));
            match saved_get(&self.saved_msgs, k) {
                Some(msg) => {
                    if msg.header.m_type == m_type {
                        return Some(k);
                    }
                },
                None => {},
            }
            i += 1;
        }
        proof {
            assert forall|k: AckNum| self@.saved.contains_key(k) implies self@.saved[k].header.m_type
                != m_type by {
                assert(keys@.to_set().contains(k));
                let j = choose|j: int| 0 <= j < keys@.len() && keys@[j] == k;
            }
        }
        None
    }

    /// Saves a message sent at time `now` (milliseconds) so that it can be sent again if it
    /// gets lost. Unreliable messages are not saved. A `ReliableNewest` message first drops
    /// a saved message of the same message type, if there is one. The message is kept under
    /// `header.sender_ack_num`.
    pub fn save_msg(&mut self, header: MsgHeader, guarantees: Guarantees, payload: Vec<u8>, now: u64)
        requires
            old(self)@.wf(),
        ensures
            final(self)@.wf(),
            exists|replaced: Option<AckNum>|
                valid_replacement(old(self)@.saved, header.m_type, replaced) && final(self)@ == (
                AckState {
                    saved: saved_after(
                        old(self)@.saved,
                        header,
                        guarantees,
                        SavedMsg { sent_at: now, header, payload },
                        replaced,
                    ),
                    ..old(self)@
                }),
    {
        let ghost msg = SavedMsg { sent_at: now, header, payload };
        let ghost a = self@;
        let ghost any = some_replacement(a.saved, header.m_type);
        assert(valid_replacement(a.saved, header.m_type, any));
        if guarantees.unreliable() {
            assert(self@ == (AckState { saved: saved_after(a.saved, header, guarantees, msg, any), ..a }));
            return;
        }
        if guarantees == Guarantees::ReliableNewest {
            let replaced = self.find_same_type(header.m_type);
            if let Some(ack) = replaced {
                saved_remove(&mut self.saved_msgs, ack);
            }
            saved_insert(&mut self.saved_msgs, header.sender_ack_num, SavedMsg { sent_at: now, header, payload });
            assert(self@ == (AckState { saved: saved_after(a.saved, header, guarantees, msg, replaced), ..a }));
        } else {
            saved_insert(&mut self.saved_msgs, header.sender_ack_num, SavedMsg { sent_at: now, header, payload });
            assert(self@ == (AckState { saved: saved_after(a.saved, header, guarantees, msg, any), ..a }));
        }
    }
    /// The saved messages that are due to be sent again at time `now` (milliseconds): those
    /// last sent more than [`RESEND_INTERVAL_MS`] before. Each one's send time becomes `now`.
    pub fn get_resend(&mut self, now: u64) -> (r: Vec<(MsgHeader, Vec<u8>)>)
        requires
            old(self)@.wf(),
        ensures
            final(self)@.wf(),
            final(self)@ == (AckState { saved: final(self)@.saved, ..old(self)@ }),
            resent(old(self)@.saved, final(self)@.saved, now),
            forall|i: int|
                0 <= i < r@.len() ==> {
                    let k = (#[trigger] r@[i]).0.sender_ack_num;
                    &&& old(self)@.saved.contains_key(k)
                    &&& due(old(self)@.saved[k], now)
                    &&& r@[i].0 == old(self)@.saved[k].header
                    &&& r@[i].1@ == old(self)@.saved[k].payload@
                },
            forall|k: AckNum|
                #![trigger old(self)@.saved[k]]
                old(self)@.saved.contains_key(k) && due(old(self)@.saved[k], now) ==> exists|i: int|
                    0 <= i < r@.len() && r@[i].0.sender_ack_num == k,
            forall|i: int, j: int|
                0 <= i < j < r@.len() ==> r@[i].0.sender_ack_num != r@[j].0.sender_ack_num,
    {
        let ghost a = self@;
        let keys = saved_keys(&self.saved_msgs);
        let mut out: Vec<(MsgHeader, Vec<u8>)> = Vec::new();
        let mut i: usize = 0;
        while i < keys.len()
            invariant
                a.wf(),
                self@.wf(),
                i <= keys@.len(),
                keys@.no_duplicates(),
                keys@.to_set() == a.saved.dom(),
                self@ == (AckState { saved: self@.saved, ..a }),
                self@.saved.dom() == a.saved.dom(),
                forall|k: AckNum|
                    #![trigger self@.saved[k]]
                    a.saved.contains_key(k) ==> if in_prefix(keys@, i as int, k) && due(a.saved[k], now) {
                        self@.saved[k] == SavedMsg { sent_at: now, ..a.saved[k] }
                    } else {
                        self@.saved[k] == a.saved[k]
                    },
                forall|j: int|
                    0 <= j < out@.len() ==> {
                        let k = (#[trigger] out@[j]).0.sender_ack_num;
                        &&& in_prefix(keys@, i as int, k)
                        &&& a.saved.contains_key(k)
                        &&& due(a.saved[k], now)
                        &&& out@[j].0 == a.saved[k].header
                        &&& out@[j].1@ == a.saved[k].payload@
                    },
                forall|k: AckNum|
                    #![trigger a.saved[k]]
                    in_prefix(keys@, i as int, k) && a.saved.contains_key(k) && due(a.saved[k], now) ==> exists|j: int|
                        0 <= j < out@.len() && out@[j].0.sender_ack_num == k,
                forall|x: int, y: int|
                    0 <= x < y < out@.len() ==> out@[x].0.sender_ack_num != out@[y].0.sender_ack_num,
            decreases keys@.len() - i,
        {
            let k = keys[i];
            assert(keys@.to_set().contains(k));
            assert(!in_prefix(keys@, i as int, k)) by {
                if in_prefix(keys@, i as int, k) {
                    let x = choose|x: int| 0 <= x < i && keys@[x] == k;
                    assert(keys@[x] == keys@[i as int]);
                }
            }
            let ghost before = self@.saved;
            let ghost out_before = out@;
            assert(before[k] == a.saved[k]);
            let entry = saved_remove(&mut self.saved_msgs, k);
            match entry {
                Some(m) => {
                    if now > m.sent_at && now - m.sent_at > RESEND_INTERVAL_MS {
                        let payload = m.payload.clone();
                        assert(payload@ =~= m.payload@);
                        out.push((m.header, payload));
                        saved_insert(&mut self.saved_msgs, k, SavedMsg { sent_at: now, header: m.header, payload: m.payload });
                    } else {
                        saved_insert(&mut self.saved_msgs, k, m);
                    }
                },
                None => {},
            }
            proof {
                assert(self@.saved =~= before.insert(k, self@.saved[k]));
                assert(self@.saved.dom() =~= a.saved.dom());
                assert(keys@[i as int] == k);
                assert forall|kk: AckNum| #![trigger a.saved[kk]] in_prefix(keys@, i + 1, kk)
                    && a.saved.contains_key(kk) && due(a.saved[kk], now) implies exists|j: int|
                    0 <= j < out@.len() && out@[j].0.sender_ack_num == kk by {
                    if kk == k {
                        assert(out@[out@.len() - 1].0.sender_ack_num == kk);
                    } else {
                        let x = choose|x: int| 0 <= x < i + 1 && keys@[x] == kk;
                        assert(in_prefix(keys@, i as int, kk));
                        let j = choose|j: int| 0 <= j < out_before.len() && out_before[j].0.sender_ack_num == kk;
                        assert(out@[j] == out_before[j]);
                    }
                }
                assert forall|kk: AckNum| in_prefix(keys@, i as int, kk) implies in_prefix(keys@, i + 1, kk) by {
                    let x = choose|x: int| 0 <= x < i && keys@[x] == kk;
                }
                assert forall|kk: AckNum| in_prefix(keys@, i + 1, kk) && kk != k implies in_prefix(keys@, i as int, kk) by {
                    let x = choose|x: int| 0 <= x < i + 1 && keys@[x] == kk;
                }
            }
            i += 1;
        }
        proof {
            assert forall|k: AckNum| a.saved.contains_key(k) implies in_prefix(keys@, keys@.len() as int, k) by {
                assert(keys@.to_set().contains(k));
            }
        }
        out
    }
}

} // verus!
