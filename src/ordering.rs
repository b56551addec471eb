//! Per-message-type ordering: reorder buffers that release messages in [`OrderNum`]
//! sequence, and the keep-the-newest buffer of `UnreliableNewest` types.

use vstd::prelude::*;
use crate::net::{seq_lt, wrapping_lt, OrderNum};

verus! {

/// `n` steps after `start`, modulo 2^16.
pub open spec fn seq_add(start: OrderNum, n: int) -> OrderNum {
    (((start as int) + n) % 65536) as OrderNum
}

/// Whether the ordering numbers of `items` are `start`, `start + 1`, ... (mod 2^16).
pub open spec fn consecutive_from<T>(items: Seq<(OrderNum, T)>, start: OrderNum) -> bool {
    forall|i: int| 0 <= i < items.len() ==> (#[trigger] items[i]).0 == seq_add(start, i)
}

/// Whether `a` is a prefix of `b`.
pub open spec fn is_prefix<T>(a: Seq<T>, b: Seq<T>) -> bool {
    a.len() <= b.len() && forall|x: int| 0 <= x < a.len() ==> #[trigger] b[x] == a[x]
}

/// Whether `n` is `e` or ahead of it (wrap-aware).
pub open spec fn not_behind(e: OrderNum, n: OrderNum) -> bool {
    ((n as int) - (e as int)) % 65536 <= 32768
}

/// The abstract state of an [`OrderingSystem`].
pub ghost struct OrderingState<T> {
    /// The [`OrderNum`] that is to be released next.
    pub expected: OrderNum,
    /// Messages that arrived ahead of `expected`.
    pub held: Seq<(OrderNum, T)>,
    /// Messages released in order and not yet drained.
    pub ready: Seq<(OrderNum, T)>,
}

impl<T> OrderingState<T> {
    /// The [`OrderNum`] of the first message that the next drain returns.
    pub open spec fn drain_start(self) -> OrderNum {
        seq_add(self.expected, -(self.ready.len() as int))
    }

    /// Whether a held message has the ordering number `n`.
    pub open spec fn holds(self, n: OrderNum) -> bool {
        exists|i: int| 0 <= i < self.held.len() && (#[trigger] self.held[i]).0 == n
    }

    /// Held messages are ahead of `expected` and distinct, and the ready ones lead up to it.
    pub open spec fn wf(self) -> bool {
        &&& self.wf_inner()
        &&& !self.holds(self.expected)
    }

    /// Held messages are not behind `expected` and distinct, and the ready ones lead up to it.
    pub open spec fn wf_inner(self) -> bool {
        &&& forall|i: int| 0 <= i < self.held.len() ==> not_behind(self.expected, (#[trigger] self.held[i]).0)
        &&& forall|i: int, j: int|
            0 <= i < j < self.held.len() ==> (#[trigger] self.held[i]).0 != (#[trigger] self.held[j]).0
        &&& self.ready.len() < 65536
        &&& consecutive_from(self.ready, self.drain_start())
    }
}

/// Whether every message of `h` is one of `g`.
pub open spec fn held_within<T>(h: Seq<(OrderNum, T)>, g: Seq<(OrderNum, T)>) -> bool {
    forall|i: int| 0 <= i < h.len() ==> g.contains(#[trigger] h[i])
}

/// `b` is what [`OrderingSystem::push`] of `item` with ordering number `order_num` leaves
/// behind in `a`.
pub open spec fn pushed<T>(a: OrderingState<T>, order_num: OrderNum, item: T, b: OrderingState<T>) -> bool {
    &&& b.wf()
    &&& b.drain_start() == a.drain_start()
    &&& is_prefix(a.ready, b.ready)
    &&& order_num == a.expected ==> b.ready.len() > a.ready.len() && b.ready[a.ready.len() as int]
        == (order_num, item)
    &&& order_num == a.expected ==> b.ready.len() + b.held.len() == a.ready.len() + a.held.len() + 1
        && held_within(b.held, a.held)
    &&& seq_lt(a.expected, order_num) ==> b == (if a.holds(order_num) {
        a
    } else {
        OrderingState { held: a.held.push((order_num, item)), ..a }
    })
    &&& (order_num != a.expected && !seq_lt(a.expected, order_num)) ==> b == a
    &&& b.ready.len() + b.held.len() <= a.ready.len() + a.held.len() + 1
}

/// A reorder buffer for one message type: releases messages in [`OrderNum`] sequence.
pub struct OrderingSystem<T> {
    expected: OrderNum,
    held: Vec<(OrderNum, T)>,
    ready: Vec<(OrderNum, T)>,
}

impl<T> View for OrderingSystem<T> {
    type V = OrderingState<T>;

    closed spec fn view(&self) -> OrderingState<T> {
        OrderingState { expected: self.expected, held: self.held@, ready: self.ready@ }
    }
}

/// Two drains, with any pushes between them, return consecutive ordering numbers: the
/// messages drained over time rise one by one (wrap-aware), without gaps.
pub proof fn lemma_ordered_delivery<T>(
    start: OrderNum,
    first: Seq<(OrderNum, T)>,
    second: Seq<(OrderNum, T)>,
)
    requires
        consecutive_from(first, start),
        consecutive_from(second, seq_add(start, first.len() as int)),
    ensures
        consecutive_from(first + second, start),
        forall|i: int|
            0 <= i < first.len() + second.len() - 1 ==> seq_lt(
                #[trigger] (first + second)[i].0,
                (first + second)[i + 1].0,
            ),
{
    assert forall|i: int| 0 <= i < first.len() + second.len() implies (#[trigger] (first + second)[i]).0
        == seq_add(start, i) by {
        if i >= first.len() {
            assert(second[i - first.len()].0 == seq_add(seq_add(start, first.len() as int), i - first.len()));
        }
    }
}

impl<T> OrderingSystem<T> {
    /// Creates an empty buffer that expects [`OrderNum`] 0 first.
    pub fn new() -> (r: Self)
        ensures
            r@.wf(),
            r@.expected == 0,
            r@.held == Seq::<(OrderNum, T)>::empty(),
            r@.ready == Seq::<(OrderNum, T)>::empty(),
    {
        OrderingSystem { expected: 0, held: Vec::new(), ready: Vec::new() }
    }

    /// The [`OrderNum`] to be released next.
    pub fn expected(&self) -> (r: OrderNum)
        ensures
            r == self@.expected,
    {
        self.expected
    }

    /// The number of released messages not yet drained.
    pub fn ready_len(&self) -> (r: usize)
        ensures
            r == self@.ready.len(),
    {
        self.ready.len()
    }

    /// The number of messages held ahead of the expected one.
    pub fn held_len(&self) -> (r: usize)
        ensures
            r == self@.held.len(),
    {
        self.held.len()
    }

    fn find_held(&self, n: OrderNum) -> (r: Option<usize>)
        ensures
            r is Some ==> r->Some_0 < self@.held.len() && self@.held[r->Some_0 as int].0 == n,
            r is None ==> !self@.holds(n),
    {
        let mut i: usize = 0;
        while i < self.held.len()
            invariant
                i <= self.held@.len(),
                forall|j: int| 0 <= j < i ==> (#[trigger] self.held@[j]).0 != n,
            decreases self.held@.len() - i,
        {
            if self.held[i].0 == n {
                return Some(i);
            }
            i += 1;
        }
        None
    }

    /// Takes in the message with ordering number `order_num`. If it is the expected one, it
    /// is released, followed by every held message that continues the sequence; if it is
    /// ahead of the expected one it is held (once); if it is behind, it is dropped.
    pub fn push(&mut self, order_num: OrderNum, item: T)
        requires
            old(self)@.wf(),
            old(self)@.ready.len() + old(self)@.held.len() < 65535,
        ensures
            pushed(old(self)@, order_num, item, final(self)@),
    {
        if order_num == self.expected {
            let ghost a = self@;
            self.release(item);
            let ghost b = self@;
            self.release_held();
            proof {
                assert forall|x: int| 0 <= x < a.ready.len() implies #[trigger] self@.ready[x] == a.ready[x] by {
                    assert(b.ready[x] == a.ready[x]);
                }
                assert(self@.ready[a.ready.len() as int] == b.ready[a.ready.len() as int]);
            }
        } else if wrapping_lt(self.expected, order_num) {
            if self.find_held(order_num).is_none() {
                self.held.push((order_num, item));
                proof {
                    assert forall|i: int, j: int|
                        0 <= i < j < self.held@.len() implies (#[trigger] self.held@[i]).0 != (#[trigger] self.held@[j]).0 by {
                        if j == self.held@.len() - 1 {
                            assert(old(self)@.held[i] == self.held@[i]);
                        }
                    }
                }
            }
            proof {
                assert(!self@.holds(self@.expected)) by {
                    if self@.holds(self@.expected) {
                        let i = choose|i: int| 0 <= i < self@.held.len() && (#[trigger] self@.held[i]).0 == self@.expected;
                    }
                }
            }
        } else {
            assert(!self@.holds(self@.expected)) by {
                if self@.holds(self@.expected) {
                    let i = choose|i: int| 0 <= i < self@.held.len() && (#[trigger] self@.held[i]).0 == self@.expected;
                }
            }
        }
    }

    fn release(&mut self, item: T)
        requires
            old(self)@.wf_inner(),
            old(self)@.ready.len() + old(self)@.held.len() < 65535,
            !old(self)@.holds(old(self)@.expected),
        ensures
            final(self)@.wf_inner(),
            final(self)@ == (OrderingState {
                expected: seq_add(old(self)@.expected, 1),
                ready: old(self)@.ready.push((old(self)@.expected, item)),
                ..old(self)@
            }),
    {
        let ghost a = self@;
        let n = self.expected;
        self.ready.push((n, item));
        self.expected = n.wrapping_add(1);
        proof {
            assert forall|i: int| 0 <= i < self@.held.len() implies not_behind(self@.expected, (#[trigger] self@.held[i]).0) by {
                assert(a.held[i].0 != a.expected);
            }
            assert(self@.drain_start() == a.drain_start());
            assert forall|i: int| 0 <= i < self@.ready.len() implies (#[trigger] self@.ready[i]).0
                == seq_add(self@.drain_start(), i) by {
                if i < a.ready.len() {
                    assert(self@.ready[i] == a.ready[i]);
                }
            }
        }
    }

    fn release_held(&mut self)
        requires
            old(self)@.wf_inner(),
            old(self)@.ready.len() + old(self)@.held.len() < 65536,
        ensures
            final(self)@.wf(),
            final(self)@.drain_start() == old(self)@.drain_start(),
            is_prefix(old(self)@.ready, final(self)@.ready),
            final(self)@.ready.len() + final(self)@.held.len() == old(self)@.ready.len()
                + old(self)@.held.len(),
            !final(self)@.holds(final(self)@.expected),
            held_within(final(self)@.held, old(self)@.held),
    {
        let ghost a = self@;
        assert forall|i: int| 0 <= i < a.held.len() implies a.held.contains(#[trigger] a.held[i]) by {
            assert(a.held[i] == a.held[i]);
        }
        assert(held_within(self@.held, a.held));
        loop
            invariant
                self@.wf_inner(),
                self@.drain_start() == a.drain_start(),
                is_prefix(a.ready, self@.ready),
                a.ready.len() + a.held.len() < 65536,
                self@.ready.len() + self@.held.len() == a.ready.len() + a.held.len(),
                held_within(self@.held, a.held),
            ensures
                !self@.holds(self@.expected),
            decreases self@.held.len(),
        {
            match self.find_held(self.expected) {
                Some(i) => {
                    let ghost b = self@;
                    let (_, item) = self.held.remove(i);
                    proof {
                        assert forall|x: int| 0 <= x < self@.held.len() implies not_behind(self@.expected, (#[trigger] self@.held[x]).0) by {
                            if x < i {
                                assert(self@.held[x] == b.held[x]);
                            } else {
                                assert(self@.held[x] == b.held[x + 1]);
                            }
                        }
                        assert forall|x: int, y: int|
                            0 <= x < y < self@.held.len() implies (#[trigger] self@.held[x]).0 != (#[trigger] self@.held[y]).0 by {
                            let xx = if x < i { x } else { x + 1 };
                            let yy = if y < i { y } else { y + 1 };
                            assert(self@.held[x] == b.held[xx]);
                            assert(self@.held[y] == b.held[yy]);
                        }
                        assert(!self@.holds(self@.expected)) by {
                            if self@.holds(self@.expected) {
                                let x = choose|x: int| 0 <= x < self@.held.len() && (#[trigger] self@.held[x]).0 == self@.expected;
                                let xx = if x < i { x } else { x + 1 };
                                assert(self@.held[x] == b.held[xx]);
                            }
                        }
                        assert forall|x: int| 0 <= x < self@.held.len() implies a.held.contains(#[trigger] self@.held[x]) by {
                            let xx = if x < i { x } else { x + 1 };
                            assert(self@.held[x] == b.held[xx]);
                            assert(a.held.contains(b.held[xx]));
                        }
                    }
                    self.release(item);
                    proof {
                        assert forall|x: int| 0 <= x < a.ready.len() implies #[trigger] self@.ready[x] == a.ready[x] by {
                            assert(b.ready[x] == a.ready[x]);
                        }
                    }
                },
                None => {
                    break;
                },
            }
        }
    }

    /// Takes every message released so far, in [`OrderNum`] sequence.
    pub fn drain_ready(&mut self) -> (r: Vec<(OrderNum, T)>)
        requires
            old(self)@.wf(),
        ensures
            final(self)@.wf(),
            r@ == old(self)@.ready,
            consecutive_from(r@, old(self)@.drain_start()),
            final(self)@ == (OrderingState { ready: Seq::<(OrderNum, T)>::empty(), ..old(self)@ }),
            final(self)@.drain_start() == seq_add(old(self)@.drain_start(), r@.len() as int),
    {
        let r = self.ready.split_off(0);
        proof {
            assert(self@.ready =~= Seq::<(OrderNum, T)>::empty());
        }
        r
    }
}

} // verus!
