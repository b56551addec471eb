//! Round-trip-time estimation: pings are sent at a fixed interval, and the time until each
//! response arrives is folded into a moving average.

use vstd::prelude::*;
use crate::messages::{PingMsg, PingType};

verus! {

/// Milliseconds between two pings.
pub const PING_INTERVAL_MS: u64 = 100;

/// Responses that arrive later than this many milliseconds after their request are ignored.
pub const PING_MAX_AGE_MS: u64 = 2000;

/// The most pings that wait for a response at once; the oldest is forgotten beyond that.
pub const MAX_PENDING_PINGS: usize = 64;

/// The moving average after a new sample: `(7 rtt + sample) / 8`.
pub open spec fn smoothed(rtt: u32, sample: u32) -> u32 {
    ((7 * (rtt as int) + (sample as int)) / 8) as u32
}

/// The abstract state of a [`ClientPingSystem`].
pub ghost struct PingState {
    /// The number of the next ping.
    pub next_num: u32,
    /// When the last ping was sent, if one was.
    pub last_sent: Option<u64>,
    /// The pings that wait for a response, with the time each was sent.
    pub pending: Seq<(u32, u64)>,
    /// The current estimate in milliseconds, if a sample was taken.
    pub rtt: Option<u32>,
}

/// Whether a new ping is due at time `now`.
pub open spec fn ping_due(last_sent: Option<u64>, now: u64) -> bool {
    match last_sent {
        None => true,
        Some(t) => now >= t && now - t >= PING_INTERVAL_MS,
    }
}

/// `b` is the state after the response to ping `ping_num` arrived in state `a` at time
/// `now`: a pending ping of that number (the first) stops being pending, and if it was sent
/// no more than [`PING_MAX_AGE_MS`] before, the time since then is a sample: the first
/// becomes the estimate, later ones are folded in as `(7 rtt + sample) / 8`.
pub open spec fn ping_received(a: PingState, ping_num: u32, now: u64, b: PingState) -> bool {
    &&& b.next_num == a.next_num
    &&& b.last_sent == a.last_sent
    &&& (forall|i: int| 0 <= i < a.pending.len() ==> (#[trigger] a.pending[i]).0 != ping_num) ==> b == a
    &&& forall|i: int|
        0 <= i < a.pending.len() && (#[trigger] a.pending[i]).0 == ping_num && (forall|j: int|
            0 <= j < i ==> a.pending[j].0 != ping_num) ==> {
            let sent = a.pending[i].1;
            let fresh = now >= sent && now - sent <= PING_MAX_AGE_MS;
            &&& b.pending == a.pending.remove(i)
            &&& b.rtt == if !fresh {
                a.rtt
            } else {
                match a.rtt {
                    None => Some((now - sent) as u32),
                    Some(r) => Some(smoothed(r, (now - sent) as u32)),
                }
            }
        }
}

/// `b` is the state after a ping was taken at time `now` from state `a`, if one was due:
/// the request numbered `a.next_num` is remembered as pending.
pub open spec fn ping_taken(a: PingState, now: u64, b: PingState) -> bool {
    &&& !ping_due(a.last_sent, now) ==> b == a
    &&& ping_due(a.last_sent, now) ==> {
        &&& b.next_num == (((a.next_num as int) + 1) % 0x1_0000_0000) as u32
        &&& b.last_sent == Some(now)
        &&& b.rtt == a.rtt
        &&& b.pending == (if a.pending.len() >= MAX_PENDING_PINGS {
            a.pending.drop_first()
        } else {
            a.pending
        }).push((a.next_num, now))
    }
}

/// Sends pings and estimates the round-trip time of a connection.
pub struct ClientPingSystem {
    next_num: u32,
    last_sent: Option<u64>,
    pending: Vec<(u32, u64)>,
    rtt: Option<u32>,
}

impl View for ClientPingSystem {
    type V = PingState;

    closed spec fn view(&self) -> PingState {
        PingState {
            next_num: self.next_num,
            last_sent: self.last_sent,
            pending: self.pending@,
            rtt: self.rtt,
        }
    }
}

impl ClientPingSystem {
    /// Creates a ping system that has sent nothing.
    pub fn new() -> (r: Self)
        ensures
            r@ == (PingState {
                next_num: 0,
                last_sent: None,
                pending: Seq::<(u32, u64)>::empty(),
                rtt: None,
            }),
    {
        ClientPingSystem { next_num: 0, last_sent: None, pending: Vec::new(), rtt: None }
    }

    /// The ping request to send at time `now` (milliseconds), if one is due: the first
    /// call, then one every [`PING_INTERVAL_MS`]. The request is remembered as pending.
    pub fn get_ping_msg(&mut self, now: u64) -> (r: Option<PingMsg>)
        ensures
            ping_taken(old(self)@, now, final(self)@),
            !ping_due(old(self)@.last_sent, now) ==> r is None && final(self)@ == old(self)@,
            ping_due(old(self)@.last_sent, now) ==> {
                &&& r == Some(PingMsg { ping_type: PingType::Req, ping_num: old(self)@.next_num })
                &&& final(self)@.next_num == (((old(self)@.next_num as int) + 1) % 0x1_0000_0000) as u32
                &&& final(self)@.last_sent == Some(now)
                &&& final(self)@.rtt == old(self)@.rtt
                &&& final(self)@.pending == (if old(self)@.pending.len() >= MAX_PENDING_PINGS {
                    old(self)@.pending.drop_first()
                } else {
                    old(self)@.pending
                }).push((old(self)@.next_num, now))
            },
    {
        let due = match self.last_sent {
            None => true,
            Some(t) => now >= t && now - t >= PING_INTERVAL_MS,
        };
        if !due {
            return None;
        }
        if self.pending.len() >= MAX_PENDING_PINGS {
            self.pending.remove(0);
        }
        let num = self.next_num;
        self.pending.push((num, now));
        self.next_num = num.wrapping_add(1);
        self.last_sent = Some(now);
        proof {
            assert(self@.pending =~= (if old(self)@.pending.len() >= MAX_PENDING_PINGS {
                old(self)@.pending.drop_first()
            } else {
                old(self)@.pending
            }).push((old(self)@.next_num, now)));
        }
        Some(PingMsg { ping_type: PingType::Req, ping_num: num })
    }

    /// Takes the response to ping `ping_num`, arrived at time `now`. If that ping is pending
    /// it stops being pending; if it was sent no more than [`PING_MAX_AGE_MS`] before, the
    /// time since then is a sample: the first sample becomes the estimate, later ones are
    /// folded in as `(7 rtt + sample) / 8`.
    pub fn recv_ping_msg(&mut self, ping_num: u32, now: u64)
        ensures
            ping_received(old(self)@, ping_num, now, final(self)@),
    {
        let mut i: usize = 0;
        while i < self.pending.len()
            invariant
                self@ == old(self)@,
                i <= self@.pending.len(),
                forall|j: int| 0 <= j < i ==> (#[trigger] self@.pending[j]).0 != ping_num,
            decreases self@.pending.len() - i,
        {
            if self.pending[i].0 == ping_num {
                let (_, sent) = self.pending.remove(i);
                if now >= sent && now - sent <= PING_MAX_AGE_MS {
                    let sample = (now - sent) as u32;
                    self.rtt = match self.rtt {
                        None => Some(sample),
                        Some(r) => Some(((7 * (r as u64) + (sample as u64)) / 8) as u32),
                    };
                }
                return;
            }
            i += 1;
        }
    }

    /// The estimated round-trip time in milliseconds; 0 before the first sample.
    pub fn rtt(&self) -> (r: u32)
        ensures
            r == match self@.rtt {
                None => 0,
                Some(r) => r,
            },
    {
        match self.rtt {
            None => 0,
            Some(r) => r,
        }
    }
}

} // verus!
