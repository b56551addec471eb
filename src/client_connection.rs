//! The client side of a connection: one peer, the status state machine, and the tick that
//! drives acknowledgements, pings, resends and receiving.

use vstd::prelude::*;
use crate::message_table::{
    MsgTableParts, FIRST_USER_M_TYPE, ACCEPT_M_TYPE, ACK_M_TYPE, CONNECTION_M_TYPE, DISCONNECT_M_TYPE, PING_M_TYPE,
    REJECT_M_TYPE,
};
use crate::messages::{AckMsg, PingMsg, PingType};
use crate::net::{
    may_become, rolled, status_after_error, status_step_ok, AckNum, ClientConfig, ErasedNetMsg,
    MType, MsgHeader, NetError, Status, TransportError, TransportErrorKind, HEADER_SIZE,
};
use crate::ack_system::{bump, AckBitfields, after_send, next_send_header, saved_after, valid_replacement, AckState, SavedMsg};
use crate::message_table::Guarantees;
use crate::ping_system::{ClientPingSystem, PingState};
use crate::reliable::{acks_taken, ack_msg_applied, cleared, released, routed, Received, ReliableSystem};
use crate::ordering::OrderingState;
use crate::messages::{ack_msg_bytes, ping_bytes};
use crate::ping_system::{ping_due, ping_received, ping_taken};
use crate::reliable::ack_msg_needed;
use crate::net::header_of;

verus! {

/// The most datagrams that one call of `get_msgs` takes in; the rest wait for the next one.
pub const MAX_DATAGRAMS_PER_TICK: usize = 65536;

/// A datagram transport to one peer, supplied by the user of a [`ClientConnection`].
pub trait ClientTransport {
    /// Sends one datagram, holding a message of type `m_type`.
    fn send(&self, m_type: MType, payload: &Vec<u8>) -> Result<(), TransportError>;

    /// Receives one datagram without blocking; fails with kind `WouldBlock` when none is
    /// queued.
    fn recv(&mut self) -> Result<Vec<u8>, TransportError>;
}

/// The client side of a connection: adds reliability and ordering to a [`ClientTransport`].
pub struct ClientConnection<T: ClientTransport> {
    config: ClientConfig,
    msg_table: MsgTableParts,
    status: Status,
    transport: Option<T>,
    ping_sys: ClientPingSystem,
    reliable_sys: ReliableSystem,
    msg_buf: Vec<Vec<ErasedNetMsg>>,
    now: u64,
}

/// The whole datagram of a message: the header's bytes, then the body.
pub open spec fn datagram(header: MsgHeader, body: Seq<u8>) -> Seq<u8> {
    crate::net::header_bytes(header) + body
}

fn build_datagram(header: &MsgHeader, body: &Vec<u8>) -> (r: Vec<u8>)
    ensures
        r@ == datagram(*header, body@),
{
    let h = header.to_be_bytes();
    let mut out: Vec<u8> = Vec::new();
    let mut i: usize = 0;
    while i < HEADER_SIZE
        invariant
            i <= HEADER_SIZE,
            h@ == crate::net::header_bytes(*header),
            out@ == h@.subrange(0, i as int),
        decreases HEADER_SIZE - i,
    {
        out.push(h[i]);
        i += 1;
        assert(out@ =~= h@.subrange(0, i as int));
    }
    let mut j: usize = 0;
    while j < body.len()
        invariant
            j <= body@.len(),
            out@ == h@ + body@.subrange(0, j as int),
        decreases body@.len() - j,
    {
        out.push(body[j]);
        j += 1;
        assert(out@ =~= h@ + body@.subrange(0, j as int));
    }
    assert(body@.subrange(0, j as int) =~= body@);
    out
}

/// Whether `b` is the acknowledgement state after a message of type `m`, with guarantee `g`
/// and body `body`, was sent from state `a` at time `now` as ordering number `order_num`:
/// its header takes the next [`AckNum`] and the next header acknowledgement, and a reliable
/// message is saved, at `now`, with its whole datagram.
pub open spec fn sent(a: AckState, m: MType, order_num: u16, g: Guarantees, body: Seq<u8>, now: u64, b: AckState) -> bool {
    let h = next_send_header(a, m, order_num);
    exists|msg: SavedMsg, replaced: Option<AckNum>|
        msg.sent_at == now && msg.header == h && msg.payload@ == datagram(h, body) && valid_replacement(
            a.saved,
            m,
            replaced,
        ) && b == (AckState { saved: saved_after(a.saved, h, g, msg, replaced), ..after_send(a) })
}

/// The state of a ping system that has sent nothing.
pub open spec fn fresh_pings() -> PingState {
    PingState { next_num: 0, last_sent: None, pending: Seq::empty(), rtt: None }
}

/// Whether status `b` is status `a` or what a transport error makes of it.
pub open spec fn same_or_failed(a: Status, b: Status) -> bool {
    b == a || exists|e: TransportError| b == status_after_error(a, e)
}

/// Whether a connection in status `s` has its transport open.
pub open spec fn live(s: Status) -> bool {
    s is Connecting || s is Accepted || s is Rejected || s is Connected || s is Disconnecting
}

/// The buffers `bufs` after the received messages `items` were added, in order, each to
/// the buffer of its message type.
pub open spec fn deliver(bufs: Seq<Seq<ErasedNetMsg>>, items: Seq<Received>) -> Seq<Seq<ErasedNetMsg>>
    decreases items.len(),
{
    if items.len() == 0 {
        bufs
    } else {
        let prev = deliver(bufs, items.drop_last());
        let h = items.last().0;
        if h.m_type < prev.len() {
            prev.update(
                h.m_type as int,
                prev[h.m_type as int].push(
                    ErasedNetMsg { cid: 0, ack_num: h.sender_ack_num, order_num: h.order_num, msg: items.last().1 },
                ),
            )
        } else {
            prev
        }
    }
}

/// Whether `body` is the encoding of some acknowledgement message.
pub open spec fn is_ack_body(body: Seq<u8>) -> bool {
    exists|o: AckNum, f: Seq<u32>, r: Seq<AckNum>|
        f.len() <= u16::MAX && r.len() <= u16::MAX && #[trigger] ack_msg_bytes(o, f, r) == body
}

/// Whether `body` is the encoding of some ping.
pub open spec fn is_ping_body(body: Seq<u8>) -> bool {
    exists|p: PingMsg| #[trigger] ping_bytes(p) == body
}

/// The body of a datagram: what follows the header.
pub open spec fn body_of(buf: Seq<u8>) -> Seq<u8> {
    buf.subrange(HEADER_SIZE as int, buf.len() as int)
}

impl<T: ClientTransport> ClientConnection<T> {
    /// The parts agree: the reliable system and the message buffers cover the table.
    pub closed spec fn wf(&self) -> bool {
        &&& self.msg_table.wf()
        &&& self.reliable_sys.wf()
        &&& self.reliable_sys.type_count() == self.msg_table@.len()
        &&& self.msg_buf@.len() == self.msg_table@.len()
        &&& self.reliable_sys.ready_spec().len() == 0
        &&& forall|m: int| 0 <= m < self.msg_table@.len() ==> #[trigger] self.reliable_sys.guarantees_spec()[m]
            == self.msg_table@[m].1
        &&& live(self.status) ==> self.transport is Some
    }

    /// A valid connection has one buffer and one ordering counter per message type, and
    /// the table's fixed slots.
    pub proof fn lemma_wf(&self)
        requires
            self.wf(),
        ensures
            self.buffers().len() == self.table().len(),
            self.counters().len() == self.table().len(),
            self.table().len() >= FIRST_USER_M_TYPE,
            forall|m: int| 0 <= m < FIRST_USER_M_TYPE ==> #[trigger] self.table()[m].1
                == crate::message_table::control_guarantees(m),
            live(self.status_spec()) ==> self.is_open(),
    {
        self.msg_table.lemma_wf_len();
        self.reliable_sys.lemma_counts();
    }

    /// The next ordering number of each message type.
    pub closed spec fn counters(&self) -> Seq<u16> {
        self.reliable_sys.order_counters_spec()
    }

    /// The time of the current tick, in milliseconds.
    pub closed spec fn clock(&self) -> u64 {
        self.now
    }

    /// The reorder buffer of each message type.
    pub closed spec fn ordering(&self) -> Seq<crate::ordering::OrderingState<crate::reliable::Received>> {
        self.reliable_sys.ordering_spec()
    }

    /// The newest ordering number handed out for each `UnreliableNewest` type.
    pub closed spec fn newest(&self) -> Seq<Option<u16>> {
        self.reliable_sys.newest_spec()
    }

    /// The status of the connection.
    pub closed spec fn status_spec(&self) -> Status {
        self.status
    }

    /// Whether a transport is open.
    pub closed spec fn is_open(&self) -> bool {
        self.transport is Some
    }

    /// The state of the connection's acknowledgement system.
    pub closed spec fn acks(&self) -> crate::ack_system::AckState {
        self.reliable_sys.ack_state()
    }

    /// The state of the connection's ping system.
    pub closed spec fn pings(&self) -> crate::ping_system::PingState {
        self.ping_sys@
    }

    /// The message table.
    pub closed spec fn table(&self) -> Seq<(Option<u64>, crate::message_table::Guarantees)> {
        self.msg_table@
    }

    /// The messages received this tick, by message type.
    pub closed spec fn buffers(&self) -> Seq<Seq<ErasedNetMsg>> {
        self.msg_buf@.map_values(|v: Vec<ErasedNetMsg>| v@)
    }

    /// Creates a client that is not connected.
    pub fn new(config: ClientConfig, msg_table: MsgTableParts) -> (r: Self)
        requires
            msg_table.wf(),
        ensures
            r.wf(),
            r.status_spec() is NotConnected,
            !r.is_open(),
            r.table() == msg_table@,
            r.buffers().len() == msg_table@.len(),
            forall|m: int| 0 <= m < r.buffers().len() ==> (#[trigger] r.buffers()[m]).len() == 0,
            r.acks().is_fresh(),
            r.pings() == fresh_pings(),
            r.clock() == 0,
            r.counters().len() == msg_table@.len(),
            forall|m: int| 0 <= m < msg_table@.len() ==> #[trigger] r.counters()[m] == 0,
    {
        let reliable_sys = ReliableSystem::new(&msg_table);
        let msg_buf = Self::empty_buffers(msg_table.mid_count());
        ClientConnection {
            config,
            msg_table,
            status: Status::NotConnected,
            transport: None,
            ping_sys: ClientPingSystem::new(),
            reliable_sys,
            msg_buf,
            now: 0,
        }
    }

    fn empty_buffers(n: usize) -> (r: Vec<Vec<ErasedNetMsg>>)
        ensures
            r@.len() == n,
            forall|m: int| 0 <= m < n ==> (#[trigger] r@[m])@.len() == 0,
    {
        let mut bufs: Vec<Vec<ErasedNetMsg>> = Vec::new();
        let mut i: usize = 0;
        while i < n
            invariant
                i <= n,
                bufs@.len() == i,
                forall|m: int| 0 <= m < i ==> (#[trigger] bufs@[m])@.len() == 0,
            decreases n - i,
        {
            bufs.push(Vec::new());
            i += 1;
        }
        bufs
    }

    /// Updates the status after the transport error `err`, and closes the transport:
    /// `Connected` becomes `Dropped`, `Connecting`, `Accepted` and `Rejected` become
    /// `ConnectionFailed`, `Disconnecting` becomes `NotConnected`.
    fn status_err(&mut self, err: TransportError)
        ensures
            final(self).status_spec() == status_after_error(old(self).status_spec(), err),
            !final(self).is_open(),
            old(self).wf() ==> final(self).wf(),
            final(self).table() == old(self).table(),
            final(self).buffers() == old(self).buffers(),
            final(self).reliable_sys == old(self).reliable_sys,
            final(self).now == old(self).now,
            final(self).ping_sys == old(self).ping_sys,
    {
        match &self.status {
            Status::Connected => self.status = Status::Dropped(err),
            Status::Connecting | Status::Accepted(_) | Status::Rejected(_) => {
                self.status = Status::ConnectionFailed(err)
            },
            Status::Disconnecting(_) => self.status = Status::NotConnected,
            _ => {},
        }
        self.transport = None;
    }

    /// Updates the status after `result`, when it is a transport error.
    fn status_result(&mut self, result: Result<(), TransportError>)
        ensures
            result is Ok ==> *final(self) == *old(self),
            result is Err ==> final(self).status_spec() == status_after_error(old(self).status_spec(), result->Err_0)
                && !final(self).is_open(),
            old(self).wf() ==> final(self).wf(),
            final(self).table() == old(self).table(),
            final(self).buffers() == old(self).buffers(),
            final(self).reliable_sys == old(self).reliable_sys,
            final(self).now == old(self).now,
            final(self).ping_sys == old(self).ping_sys,
    {
        match result {
            Ok(()) => {},
            Err(err) => self.status_err(err),
        }
    }

    /// Sends the message body `body` of type `m_type` and returns the [`AckNum`] it was
    /// given. The message is saved first when its type is reliable. A transport failure is
    /// not an error of this call: it moves the status (see `status_after_error`).
    /// Fails with `InvalidState` when no transport is open, and with `UnregisteredType`
    /// when `m_type` is not a registered type.
    pub fn send(&mut self, m_type: MType, body: &Vec<u8>) -> (r: Result<AckNum, NetError>)
        requires
            old(self).wf(),
        ensures
            final(self).wf(),
            !old(self).is_open() ==> r == Err::<AckNum, NetError>(NetError::InvalidState)
                && *final(self) == *old(self),
            old(self).is_open() && !(1 <= m_type < old(self).table().len()) ==> r == Err::<
                AckNum,
                NetError,
            >(NetError::UnregisteredType) && *final(self) == *old(self),
            old(self).is_open() && 1 <= m_type < old(self).table().len() ==> {
                &&& r == Ok::<AckNum, NetError>(old(self).acks().outgoing)
                &&& sent(old(self).acks(), m_type, old(self).counters()[m_type as int],
                    old(self).table()[m_type as int].1, body@, old(self).clock(), final(self).acks())
                &&& final(self).counters() == old(self).counters().update(
                    m_type as int,
                    (((old(self).counters()[m_type as int] as int) + 1) % 65536) as u16,
                )
                &&& final(self).table() == old(self).table()
                &&& final(self).buffers() == old(self).buffers()
                &&& final(self).pings() == old(self).pings()
                &&& final(self).clock() == old(self).clock()
                &&& final(self).ordering() == old(self).ordering()
                &&& final(self).newest() == old(self).newest()
                &&& (final(self).status_spec() == old(self).status_spec() && final(self).is_open()
                    || exists|e: TransportError| final(self).status_spec() == status_after_error(old(self).status_spec(), e)
                        && !final(self).is_open())
            },
            may_become(old(self).status_spec(), final(self).status_spec()),
    {
        if self.transport.is_none() {
            return Err(NetError::InvalidState);
        }
        if !self.msg_table.valid_mid(m_type) {
            return Err(NetError::UnregisteredType);
        }
        let header = self.reliable_sys.get_send_header(m_type);
        let payload = build_datagram(&header, body);
        let guarantees = self.msg_table.guarantees(m_type);
        let result = match &self.transport {
            Some(t) => t.send(m_type, &payload),
            None => Ok(()),
        };
        let ghost before = self.reliable_sys.ack_state();
        let ghost msg = crate::ack_system::SavedMsg { sent_at: self.now, header, payload };
        self.reliable_sys.save(header, guarantees, payload, self.now);
        proof {
            let replaced = choose|replaced: Option<AckNum>|
                crate::ack_system::valid_replacement(before.saved, header.m_type, replaced)
                    && self.reliable_sys.ack_state() == (crate::ack_system::AckState {
                    saved: crate::ack_system::saved_after(before.saved, header, guarantees, msg, replaced),
                    ..before
                });
            assert(self.reliable_sys.ack_state().saved == crate::ack_system::saved_after(before.saved, header, guarantees, msg, replaced));
            assert(msg.payload@ == datagram(header, body@));
            assert(msg.sent_at == old(self).clock() && msg.header == next_send_header(old(self).acks(), m_type, old(self).counters()[m_type as int])
                && valid_replacement(old(self).acks().saved, m_type, replaced)
                && self.reliable_sys.ack_state() == (AckState { saved: saved_after(old(self).acks().saved, msg.header, guarantees, msg, replaced), ..after_send(old(self).acks()) }));
        }
        let ghost st = self.status;
        self.status_result(result);
        proof {
            crate::net::lemma_may_become(st, st, st, arbitrary());
            if result is Err {
                crate::net::lemma_may_become(st, st, st, result->Err_0);
            }
        }
        Ok(header.sender_ack_num)
    }
    /// Opens the connection over `transport`, which the caller has opened towards the peer:
    /// everything from an earlier connection is reset (acknowledgements, ordering, pings and
    /// buffers), the status becomes `Connecting`, and the connection message `con_msg` is
    /// sent reliably as [`AckNum`] 0. Fails with `InvalidState`, changing nothing, unless the
    /// status is `NotConnected`.
    pub fn connect(&mut self, transport: T, con_msg: &Vec<u8>) -> (r: Result<AckNum, NetError>)
        requires
            old(self).wf(),
        ensures
            final(self).wf(),
            final(self).table() == old(self).table(),
            !(old(self).status_spec() is NotConnected) ==> r == Err::<AckNum, NetError>(
                NetError::InvalidState,
            ) && *final(self) == *old(self),
            old(self).status_spec() is NotConnected ==> {
                &&& r == Ok::<AckNum, NetError>(0)
                &&& final(self).status_spec() is Connecting && final(self).is_open()
                    || final(self).status_spec() is ConnectionFailed && !final(self).is_open()
                &&& exists|a: AckState| a.is_fresh() && sent(a, CONNECTION_M_TYPE, 0,
                    Guarantees::Reliable, con_msg@, old(self).clock(), final(self).acks())
                &&& final(self).buffers().len() == old(self).table().len()
                &&& forall|m: int| 0 <= m < final(self).buffers().len() ==> (#[trigger] final(self).buffers()[m]).len() == 0
                &&& final(self).pings() == fresh_pings()
                &&& final(self).clock() == old(self).clock()
                &&& forall|m: int| 0 <= m < final(self).counters().len() ==> #[trigger] final(self).counters()[m]
                    == if m == CONNECTION_M_TYPE { 1u16 } else { 0u16 }
                &&& forall|m: int| 0 <= m < final(self).ordering().len() ==> #[trigger] final(self).ordering()[m]
                    == (crate::ordering::OrderingState::<crate::reliable::Received> {
                    expected: 0, held: Seq::empty(), ready: Seq::empty() })
            },
            status_step_ok(old(self).status_spec(), final(self).status_spec()),
    {
        if !self.status.is_not_connected() {
            return Err(NetError::InvalidState);
        }
        proof {
            self.msg_table.lemma_wf_len();
        }
        self.ping_sys = ClientPingSystem::new();
        self.reliable_sys = ReliableSystem::new(&self.msg_table);
        self.clear_msgs();
        self.status = Status::Connecting;
        self.transport = Some(transport);
        let ghost fresh = self.acks();
        let ghost counters0 = self.counters();
        let r = self.send(CONNECTION_M_TYPE, con_msg);
        proof {
            assert(counters0[CONNECTION_M_TYPE as int] == 0);
            assert(self.counters() =~= counters0.update(CONNECTION_M_TYPE as int, 1u16));
            assert forall|m: int| 0 <= m < self.counters().len() implies #[trigger] self.counters()[m]
                == if m == CONNECTION_M_TYPE { 1u16 } else { 0u16 } by {
                assert(self.counters()[m] == counters0.update(CONNECTION_M_TYPE as int, 1u16)[m]);
            }
        }
        r
    }

    /// Disconnects from the peer: the disconnection message `discon_msg` is sent reliably and
    /// the status becomes `Disconnecting` with its [`AckNum`], unless sending it dropped the
    /// connection. Fails with `InvalidState`, changing nothing, unless the status is
    /// `Connected`.
    pub fn disconnect(&mut self, discon_msg: &Vec<u8>) -> (r: Result<(), NetError>)
        requires
            old(self).wf(),
        ensures
            final(self).wf(),
            !(old(self).status_spec() is Connected) ==> r == Err::<(), NetError>(NetError::InvalidState)
                && *final(self) == *old(self),
            old(self).status_spec() is Connected ==> {
                &&& r is Ok
                &&& sent(old(self).acks(), DISCONNECT_M_TYPE, old(self).counters()[DISCONNECT_M_TYPE as int],
                    Guarantees::Reliable, discon_msg@, old(self).clock(), final(self).acks())
                &&& final(self).status_spec() == Status::Disconnecting(old(self).acks().outgoing)
                    || final(self).status_spec() is Dropped
                &&& final(self).table() == old(self).table()
                &&& final(self).buffers() == old(self).buffers()
                &&& final(self).pings() == old(self).pings()
            },
            status_step_ok(old(self).status_spec(), final(self).status_spec()),
    {
        if !self.status.is_connected() {
            return Err(NetError::InvalidState);
        }
        proof {
            self.lemma_wf();
        }
        match self.send(DISCONNECT_M_TYPE, discon_msg) {
            Ok(ack_num) => {
                if self.status.is_connected() {
                    self.status = Status::Disconnecting(ack_num);
                }
            },
            Err(_) => {},
        }
        Ok(())
    }

    /// Sends the dedicated acknowledgement message, when the window needs advertising.
    pub fn send_ack_msg(&mut self)
        requires
            old(self).wf(),
        ensures
            final(self).wf(),
            final(self).table() == old(self).table(),
            final(self).buffers() == old(self).buffers(),
            final(self).pings() == old(self).pings(),
            final(self).clock() == old(self).clock(),
            final(self).ordering() == old(self).ordering(),
            final(self).newest() == old(self).newest(),
            may_become(old(self).status_spec(), final(self).status_spec()),
            !ack_msg_needed(old(self).acks()) ==> final(self).acks() == old(self).acks() && final(self).pings() == old(self).pings()
                && final(self).counters() == old(self).counters() && final(self).status_spec() == old(self).status_spec()
                && final(self).is_open() == old(self).is_open(),
            ack_msg_needed(old(self).acks()) ==> {
                let a = old(self).acks();
                let bumped = AckState { fields: a.fields.map_values(|f: AckBitfields| bump(f)), ..a };
                let fits = a.fields.len() <= u16::MAX && a.residual.len() <= u16::MAX;
                &&& fits && old(self).is_open() ==> sent(bumped, ACK_M_TYPE, old(self).counters()[ACK_M_TYPE as int],
                    Guarantees::Unreliable, ack_msg_bytes(a.offset, a.fields.map_values(|f: AckBitfields| f.bitfield), a.residual),
                    old(self).clock(), final(self).acks())
                &&& !(fits && old(self).is_open()) ==> final(self).acks() == bumped
                    && final(self).status_spec() == old(self).status_spec()
            },
    {
        proof {
            self.lemma_wf();
        }
        match self.reliable_sys.get_ack_msg() {
            Some(ack_msg) => {
                match ack_msg.ser() {
                    Some(bytes) => {
                        let _ = self.send(ACK_M_TYPE, &bytes);
                    },
                    None => {},
                }
            },
            None => {},
        }
    }

    /// Sends a ping request, when one is due.
    pub fn send_ping(&mut self)
        requires
            old(self).wf(),
        ensures
            final(self).wf(),
            final(self).table() == old(self).table(),
            final(self).buffers() == old(self).buffers(),
            final(self).clock() == old(self).clock(),
            final(self).ordering() == old(self).ordering(),
            final(self).newest() == old(self).newest(),
            may_become(old(self).status_spec(), final(self).status_spec()),
            ping_taken(old(self).pings(), old(self).clock(), final(self).pings()),
            !ping_due(old(self).pings().last_sent, old(self).clock()) ==> final(self).acks() == old(self).acks() && final(self).pings() == old(self).pings()
                && final(self).counters() == old(self).counters() && final(self).status_spec() == old(self).status_spec()
                && final(self).is_open() == old(self).is_open(),
            ping_due(old(self).pings().last_sent, old(self).clock()) && old(self).is_open() ==> sent(
                old(self).acks(),
                PING_M_TYPE,
                old(self).counters()[PING_M_TYPE as int],
                Guarantees::Unreliable,
                ping_bytes(PingMsg { ping_type: PingType::Req, ping_num: old(self).pings().next_num }),
                old(self).clock(),
                final(self).acks(),
            ),
            ping_due(old(self).pings().last_sent, old(self).clock()) && !old(self).is_open() ==> final(self).acks()
                == old(self).acks() && final(self).status_spec() == old(self).status_spec(),
    {
        proof {
            self.lemma_wf();
        }
        match self.ping_sys.get_ping_msg(self.now) {
            Some(msg) => {
                let bytes = msg.ser();
                let _ = self.send(PING_M_TYPE, &bytes);
            },
            None => {},
        }
    }

    /// The messages of type `m_type` received in this tick.
    pub fn recv(&self, m_type: MType) -> (r: &Vec<ErasedNetMsg>)
        requires
            self.wf(),
            1 <= m_type < self.table().len(),
        ensures
            r@ == self.buffers()[m_type as int],
    {
        &self.msg_buf[m_type]
    }

    /// The messages of type `m_type` received in this tick, or `None` when `m_type` is not a
    /// registered type.
    pub fn try_recv(&self, m_type: MType) -> (r: Option<&Vec<ErasedNetMsg>>)
        requires
            self.wf(),
        ensures
            (1 <= m_type < self.table().len()) ==> r is Some && r->Some_0@ == self.buffers()[m_type as int],
            !(1 <= m_type < self.table().len()) ==> r is None,
    {
        if self.msg_table.valid_mid(m_type) {
            Some(&self.msg_buf[m_type])
        } else {
            None
        }
    }

    fn push_msg(&mut self, header: MsgHeader, body: Vec<u8>)
        requires
            old(self).wf(),
        ensures
            final(self).wf(),
            final(self).table() == old(self).table(),
            final(self).status_spec() == old(self).status_spec(),
            final(self).is_open() == old(self).is_open(),
            final(self).acks() == old(self).acks(),
            final(self).reliable_sys == old(self).reliable_sys,
            final(self).ping_sys == old(self).ping_sys,
            final(self).now == old(self).now,
            header.m_type < old(self).buffers().len() ==> final(self).buffers() == old(self).buffers().update(
                header.m_type as int,
                old(self).buffers()[header.m_type as int].push(
                    ErasedNetMsg { cid: 0, ack_num: header.sender_ack_num, order_num: header.order_num, msg: body },
                ),
            ),
            !(header.m_type < old(self).buffers().len()) ==> final(self).buffers() == old(self).buffers(),
    {
        let m = header.m_type;
        if m < self.msg_buf.len() {
            let mut b = self.msg_buf.remove(m);
            b.push(ErasedNetMsg::new(0, header.sender_ack_num, header.order_num, body));
            self.msg_buf.insert(m, b);
        }
    }

    /// Takes in one received datagram. A datagram shorter than a header, of an unregistered
    /// type, or a ping or acknowledgement message whose body does not decode, is dropped and
    /// changes nothing. Otherwise the acknowledgements of its header are taken in, and then:
    /// a ping request is answered and a ping response is timed; an acknowledgement message
    /// retires what it acknowledges; a disconnection moves `Connected` to `Disconnected`; an
    /// acceptance or a rejection moves `Connecting` to `Accepted` or `Rejected`; a user
    /// message goes through the reliable system, and what it releases joins the buffers.
    #[verifier::rlimit(40)]
    pub fn handle_datagram(&mut self, buf: Vec<u8>)
        requires
            old(self).wf(),
        ensures
            final(self).wf(),
            final(self).table() == old(self).table(),
            final(self).clock() == old(self).clock(),
            may_become(old(self).status_spec(), final(self).status_spec()),
            ({
                let h = header_of(buf@);
                let m = h.m_type;
                let body = body_of(buf@);
                let registered = buf@.len() >= HEADER_SIZE && 1 <= m < old(self).table().len();
                &&& !registered ==> *final(self) == *old(self)
                &&& registered && m == PING_M_TYPE && !is_ping_body(body) ==> *final(self) == *old(self)
                &&& registered && m == ACK_M_TYPE && !is_ack_body(body) ==> *final(self) == *old(self)
                &&& registered && m != PING_M_TYPE ==> {
                    &&& final(self).pings() == old(self).pings()
                    &&& final(self).counters() == old(self).counters()
                    &&& final(self).is_open() == old(self).is_open()
                }
                &&& registered && m != PING_M_TYPE && m != ACK_M_TYPE ==> acks_taken(old(self).acks(), h, final(self).acks())
                &&& registered && m == ACK_M_TYPE ==> forall|o: AckNum, f: Seq<u32>, r: Seq<AckNum>|
                    f.len() <= u16::MAX && r.len() <= u16::MAX && #[trigger] ack_msg_bytes(o, f, r) == body
                        ==> exists|mid: AckState| acks_taken(old(self).acks(), h, mid)
                            && ack_msg_applied(mid, o, f, r, final(self).acks())
                &&& registered && m == PING_M_TYPE ==> forall|p: PingMsg| #[trigger] ping_bytes(p) == body ==> {
                    &&& p.ping_type is Res ==> acks_taken(old(self).acks(), h, final(self).acks())
                        && ping_received(old(self).pings(), p.ping_num, old(self).clock(), final(self).pings())
                        && final(self).status_spec() == old(self).status_spec()
                    &&& p.ping_type is Req ==> final(self).pings() == old(self).pings()
                        && same_or_failed(old(self).status_spec(), final(self).status_spec())
                        && (old(self).is_open() ==> exists|mid: AckState| acks_taken(old(self).acks(), h, mid)
                            && sent(mid, PING_M_TYPE, old(self).counters()[PING_M_TYPE as int],
                                Guarantees::Unreliable, ping_bytes(p.response_spec()), old(self).clock(), final(self).acks()))
                }
                &&& registered && m == ACCEPT_M_TYPE ==> if old(self).status_spec() is Connecting {
                    final(self).status_spec() is Accepted && final(self).status_spec()->Accepted_0@ == body
                } else {
                    final(self).status_spec() == old(self).status_spec()
                }
                &&& registered && m == REJECT_M_TYPE ==> if old(self).status_spec() is Connecting {
                    final(self).status_spec() is Rejected && final(self).status_spec()->Rejected_0@ == body
                } else {
                    final(self).status_spec() == old(self).status_spec()
                }
                &&& registered && m == DISCONNECT_M_TYPE ==> if old(self).status_spec() is Connected {
                    final(self).status_spec() is Disconnected && final(self).status_spec()->Disconnected_0@ == body
                } else {
                    final(self).status_spec() == old(self).status_spec()
                }
                &&& registered && m != PING_M_TYPE && m != ACCEPT_M_TYPE && m != REJECT_M_TYPE
                    && m != DISCONNECT_M_TYPE ==> final(self).status_spec() == old(self).status_spec()
                &&& registered && m < FIRST_USER_M_TYPE ==> final(self).buffers() == old(self).buffers()
                    && final(self).ordering() == old(self).ordering() && final(self).newest() == old(self).newest()
                &&& registered && m >= FIRST_USER_M_TYPE ==> exists|pv: Vec<u8>, ready2: Seq<Received>,
                    newest2: Seq<Option<u16>>, ordering2: Seq<OrderingState<Received>>|
                    pv@ == body && routed(old(self).table()[m as int].1, Seq::empty(), old(self).newest(),
                        old(self).ordering(), h, pv, ready2, newest2, ordering2)
                    && final(self).buffers() == deliver(old(self).buffers(), ready2 + released(ordering2))
                    && final(self).newest() == newest2 && final(self).ordering() == cleared(ordering2)
            }),
    {
        let header = match MsgHeader::from_be_bytes(buf.as_slice()) {
            Ok(h) => h,
            Err(_) => {
                return;
            },
        };
        proof {
            self.lemma_wf();
        }
        if !self.msg_table.valid_mid(header.m_type) {
            return;
        }
        let mut buf = buf;
        let ghost full = buf@;
        let body = buf.split_off(HEADER_SIZE);
        assert(body@ == body_of(full));
        let m = header.m_type;
        if m == PING_M_TYPE {
            self.take_ping(header, body);
        } else if m == ACK_M_TYPE {
            self.take_ack(header, body);
        } else if m < FIRST_USER_M_TYPE {
            self.take_control(header, body);
        } else {
            self.take_user(header, body);
        }
    }

    fn take_ping(&mut self, header: MsgHeader, body: Vec<u8>)
        requires
            old(self).wf(),
            header.m_type == PING_M_TYPE,
        ensures
            final(self).wf(),
            final(self).table() == old(self).table(),
            final(self).clock() == old(self).clock(),
            final(self).buffers() == old(self).buffers(),
            final(self).ordering() == old(self).ordering(),
            final(self).newest() == old(self).newest(),
            may_become(old(self).status_spec(), final(self).status_spec()),
            !is_ping_body(body@) ==> *final(self) == *old(self),
            forall|p: PingMsg| #[trigger] ping_bytes(p) == body@ ==> {
                &&& p.ping_type is Res ==> acks_taken(old(self).acks(), header, final(self).acks())
                    && ping_received(old(self).pings(), p.ping_num, old(self).clock(), final(self).pings())
                    && final(self).status_spec() == old(self).status_spec()
                &&& p.ping_type is Req ==> final(self).pings() == old(self).pings()
                    && same_or_failed(old(self).status_spec(), final(self).status_spec())
                    && (old(self).is_open() ==> exists|mid: AckState| acks_taken(old(self).acks(), header, mid)
                        && sent(mid, PING_M_TYPE, old(self).counters()[PING_M_TYPE as int],
                            Guarantees::Unreliable, ping_bytes(p.response_spec()), old(self).clock(), final(self).acks()))
            },
    {
        let ping = match PingMsg::deser(body.as_slice()) {
            Ok(p) => p,
            Err(_) => {
                return;
            },
        };
        self.reliable_sys.receive_acks(header);
        let ghost mid = self.acks();
        proof {
            self.lemma_wf();
            crate::net::lemma_may_become(old(self).status_spec(), old(self).status_spec(), old(self).status_spec(), arbitrary());
        }
        match ping.ping_type {
            PingType::Req => {
                let bytes = ping.response().ser();
                let _ = self.send(PING_M_TYPE, &bytes);
                proof {
                    if old(self).is_open() {
                        assert(acks_taken(old(self).acks(), header, mid));
                    }
                }
            },
            PingType::Res => {
                self.ping_sys.recv_ping_msg(ping.ping_num, self.now);
            },
        }
    }

    fn take_ack(&mut self, header: MsgHeader, body: Vec<u8>)
        requires
            old(self).wf(),
            header.m_type == ACK_M_TYPE,
        ensures
            final(self).wf(),
            final(self).table() == old(self).table(),
            final(self).clock() == old(self).clock(),
            final(self).buffers() == old(self).buffers(),
            final(self).ordering() == old(self).ordering(),
            final(self).newest() == old(self).newest(),
            final(self).pings() == old(self).pings(),
            final(self).counters() == old(self).counters(),
            final(self).is_open() == old(self).is_open(),
            final(self).status_spec() == old(self).status_spec(),
            !is_ack_body(body@) ==> *final(self) == *old(self),
            forall|o: AckNum, f: Seq<u32>, r: Seq<AckNum>|
                f.len() <= u16::MAX && r.len() <= u16::MAX && #[trigger] ack_msg_bytes(o, f, r) == body@
                    ==> exists|mid: AckState| acks_taken(old(self).acks(), header, mid)
                        && ack_msg_applied(mid, o, f, r, final(self).acks()),
    {
        let ack_msg = match AckMsg::deser(body.as_slice()) {
            Ok(a) => a,
            Err(_) => {
                return;
            },
        };
        self.reliable_sys.receive_acks(header);
        let ghost mid = self.acks();
        self.reliable_sys.recv_ack_msg(&ack_msg);
        proof {
            assert forall|o: AckNum, f: Seq<u32>, r: Seq<AckNum>|
                f.len() <= u16::MAX && r.len() <= u16::MAX && #[trigger] ack_msg_bytes(o, f, r) == body@
                    implies exists|mid2: AckState| acks_taken(old(self).acks(), header, mid2)
                        && ack_msg_applied(mid2, o, f, r, self.acks()) by {
                assert(acks_taken(old(self).acks(), header, mid) && ack_msg_applied(mid, o, f, r, self.acks()));
            }
        }
    }

    fn take_control(&mut self, header: MsgHeader, body: Vec<u8>)
        requires
            old(self).wf(),
            1 <= header.m_type <= DISCONNECT_M_TYPE,
        ensures
            final(self).wf(),
            final(self).table() == old(self).table(),
            final(self).clock() == old(self).clock(),
            final(self).buffers() == old(self).buffers(),
            final(self).ordering() == old(self).ordering(),
            final(self).newest() == old(self).newest(),
            final(self).pings() == old(self).pings(),
            final(self).counters() == old(self).counters(),
            final(self).is_open() == old(self).is_open(),
            acks_taken(old(self).acks(), header, final(self).acks()),
            may_become(old(self).status_spec(), final(self).status_spec()),
            header.m_type == ACCEPT_M_TYPE ==> if old(self).status_spec() is Connecting {
                final(self).status_spec() is Accepted && final(self).status_spec()->Accepted_0@ == body@
            } else {
                final(self).status_spec() == old(self).status_spec()
            },
            header.m_type == REJECT_M_TYPE ==> if old(self).status_spec() is Connecting {
                final(self).status_spec() is Rejected && final(self).status_spec()->Rejected_0@ == body@
            } else {
                final(self).status_spec() == old(self).status_spec()
            },
            header.m_type == DISCONNECT_M_TYPE ==> if old(self).status_spec() is Connected {
                final(self).status_spec() is Disconnected && final(self).status_spec()->Disconnected_0@ == body@
            } else {
                final(self).status_spec() == old(self).status_spec()
            },
            header.m_type == CONNECTION_M_TYPE ==> final(self).status_spec() == old(self).status_spec(),
    {
        self.reliable_sys.receive_acks(header);
        let m = header.m_type;
        if m == DISCONNECT_M_TYPE {
            if self.status.is_connected() {
                self.status = Status::Disconnected(body);
            }
        } else if m == ACCEPT_M_TYPE {
            if self.status.is_connecting() {
                self.status = Status::Accepted(body);
            }
        } else if m == REJECT_M_TYPE {
            if self.status.is_connecting() {
                self.status = Status::Rejected(body);
            }
        }
    }

    fn take_user(&mut self, header: MsgHeader, body: Vec<u8>)
        requires
            old(self).wf(),
            FIRST_USER_M_TYPE <= header.m_type < old(self).table().len(),
        ensures
            final(self).wf(),
            final(self).table() == old(self).table(),
            final(self).clock() == old(self).clock(),
            final(self).pings() == old(self).pings(),
            final(self).counters() == old(self).counters(),
            final(self).is_open() == old(self).is_open(),
            final(self).status_spec() == old(self).status_spec(),
            acks_taken(old(self).acks(), header, final(self).acks()),
            exists|pv: Vec<u8>, ready2: Seq<Received>, newest2: Seq<Option<u16>>, ordering2: Seq<OrderingState<Received>>|
                pv@ == body@ && routed(old(self).table()[header.m_type as int].1, Seq::empty(), old(self).newest(),
                    old(self).ordering(), header, pv, ready2, newest2, ordering2)
                && final(self).buffers() == deliver(old(self).buffers(), ready2 + released(ordering2))
                && final(self).newest() == newest2 && final(self).ordering() == cleared(ordering2),
    {
        proof {
            self.lemma_wf();
        }
        let m = header.m_type;
        self.reliable_sys.receive_acks(header);
        let ghost b0 = self.buffers();
        let ghost pv = body;
        assert(self.reliable_sys.ready_spec() =~= Seq::<Received>::empty());
        assert(self.reliable_sys.guarantees_spec()[m as int] == self.table()[m as int].1);
        self.reliable_sys.route(header, body);
        let ghost ready2 = self.reliable_sys.ready_spec();
        let ghost newest2 = self.reliable_sys.newest_spec();
        let ghost ordering2 = self.reliable_sys.ordering_spec();
        let mut ready = self.reliable_sys.get_received();
        let ghost acks1 = self.acks();
        let ghost newest3 = self.newest();
        let ghost ordering3 = self.ordering();
        let ghost all = ready@;
        let n_all = ready.len();
        let mut k: usize = 0;
        assert(all.subrange(0, 0) =~= Seq::<Received>::empty());
        while ready.len() > 0
            invariant
                self.wf(),
                self.table() == old(self).table(),
                self.status_spec() == old(self).status_spec(),
                self.is_open() == old(self).is_open(),
                self.acks() == acks1,
                self.clock() == old(self).clock(),
                self.pings() == old(self).pings(),
                self.counters() == old(self).counters(),
                self.newest() == newest3,
                self.ordering() == ordering3,
                ready@ == all.subrange(k as int, all.len() as int),
                k <= all.len(),
                all.len() == n_all,
                self.buffers() == deliver(b0, all.subrange(0, k as int)),
            decreases ready@.len(),
        {
            let (h, b) = ready.remove(0);
            self.push_msg(h, b);
            k += 1;
            proof {
                assert(all.subrange(0, k as int).drop_last() =~= all.subrange(0, k - 1));
                assert(ready@ =~= all.subrange(k as int, all.len() as int));
            }
        }
        assert(all.subrange(0, k as int) =~= all);
        assert(ordering3 =~= cleared(ordering2));
        assert(pv@ == body@ && routed(old(self).table()[m as int].1, Seq::empty(), old(self).newest(),
            old(self).ordering(), header, pv, ready2, newest2, ordering2)
            && self.buffers() == deliver(old(self).buffers(), ready2 + released(ordering2))
            && self.newest() == newest2 && self.ordering() == cleared(ordering2));
    }

    /// Takes in the datagrams that the transport holds, until it has none (or until
    /// [`MAX_DATAGRAMS_PER_TICK`] were taken). A transport error other than `WouldBlock`
    /// moves the status (see `status_after_error`) and closes the transport.
    pub fn get_msgs(&mut self)
        requires
            old(self).wf(),
        ensures
            final(self).wf(),
            final(self).table() == old(self).table(),
            final(self).clock() == old(self).clock(),
            may_become(old(self).status_spec(), final(self).status_spec()),
            !old(self).is_open() ==> *final(self) == *old(self),
    {
        match self.get_msgs_err() {
            Ok(()) => {},
            Err(err) => {
                if err.kind != TransportErrorKind::WouldBlock {
                    self.status_err(err);
                }
            },
        }
    }

    fn get_msgs_err(&mut self) -> (r: Result<(), TransportError>)
        requires
            old(self).wf(),
        ensures
            final(self).wf(),
            final(self).table() == old(self).table(),
            final(self).clock() == old(self).clock(),
            may_become(old(self).status_spec(), final(self).status_spec()),
            !old(self).is_open() ==> *final(self) == *old(self) && r is Ok,
    {
        let mut budget: usize = MAX_DATAGRAMS_PER_TICK;
        while budget > 0
            invariant
                self.wf(),
                self.table() == old(self).table(),
                self.clock() == old(self).clock(),
                !old(self).is_open() ==> *self == *old(self),
                may_become(old(self).status_spec(), self.status_spec()),
            decreases budget,
        {
            budget -= 1;
            let received = match &mut self.transport {
                None => {
                    return Ok(());
                },
                Some(t) => t.recv(),
            };
            match received {
                Ok(buf) => {
                    let ghost before = self.status_spec();
                    self.handle_datagram(buf);
                    proof {
                        crate::net::lemma_may_become(old(self).status_spec(), before, self.status_spec(), arbitrary());
                    }
                },
                Err(e) => {
                    return Err(e);
                },
            }
        }
        Ok(())
    }

    /// Does everything the client needs each frame, at time `now` (milliseconds): rolls the
    /// status over from the last frame (see `handle_status`), clears the last frame's
    /// messages, sends the acknowledgement message and a ping when due, resends the saved
    /// messages that are due, takes in the received datagrams, and completes a disconnection
    /// whose message was acknowledged.
    pub fn tick(&mut self, now: u64)
        requires
            old(self).wf(),
        ensures
            final(self).wf(),
            final(self).table() == old(self).table(),
            final(self).clock() == now,
            status_step_ok(old(self).status_spec(), final(self).status_spec()),
            exists|s: Status| may_become(rolled(old(self).status_spec()), s) && (final(self).status_spec() == s
                || (s is Disconnecting && final(self).status_spec() is NotConnected
                    && !final(self).acks().saved.contains_key(s->Disconnecting_0))),
            final(self).status_spec() is Disconnecting ==> final(self).acks().saved.contains_key(
                final(self).status_spec()->Disconnecting_0,
            ),
            old(self).status_spec() is Accepted ==> final(self).status_spec() is Connected
                || final(self).status_spec() is Disconnected || final(self).status_spec() is Dropped,
            old(self).status_spec() is NotConnected || old(self).status_spec() is Rejected
                || old(self).status_spec() is ConnectionFailed || old(self).status_spec() is Disconnected
                || old(self).status_spec() is Dropped ==> final(self).status_spec() is NotConnected,
    {
        self.now = now;
        let _ = self.handle_status();
        let ghost s1 = self.status_spec();
        self.clear_msgs();
        self.send_ack_msg();
        let ghost s2 = self.status_spec();
        self.send_ping();
        let ghost s3 = self.status_spec();
        self.resend_reliable();
        let ghost s4 = self.status_spec();
        self.get_msgs();
        let ghost s5 = self.status_spec();
        proof {
            crate::net::lemma_may_become(s1, s2, s3, arbitrary());
            crate::net::lemma_may_become(s1, s3, s4, arbitrary());
            crate::net::lemma_may_become(s1, s4, s5, arbitrary());
            crate::net::lemma_may_become(s1, s1, s1, arbitrary());
        }
        self.update_status();
        proof {
            assert(may_become(rolled(old(self).status_spec()), s5));
        }
    }

    /// Resends the saved messages that are due.
    pub fn resend_reliable(&mut self)
        requires
            old(self).wf(),
        ensures
            final(self).wf(),
            final(self).table() == old(self).table(),
            final(self).buffers() == old(self).buffers(),
            final(self).pings() == old(self).pings(),
            final(self).counters() == old(self).counters(),
            final(self).clock() == old(self).clock(),
            final(self).ordering() == old(self).ordering(),
            final(self).newest() == old(self).newest(),
            final(self).acks() == (AckState { saved: final(self).acks().saved, ..old(self).acks() }),
            crate::ack_system::resent(old(self).acks().saved, final(self).acks().saved, old(self).clock()),
            may_become(old(self).status_spec(), final(self).status_spec()),
    {
        let resend = self.reliable_sys.get_resend(self.now);
        let ghost acks1 = self.acks();
        let ghost pings1 = self.pings();
        let ghost counters1 = self.counters();
        let ghost ordering1 = self.ordering();
        let ghost newest1 = self.newest();
        let mut i: usize = 0;
        while i < resend.len()
            invariant
                self.wf(),
                self.table() == old(self).table(),
                self.buffers() == old(self).buffers(),
                self.acks() == acks1,
                self.pings() == pings1,
                self.counters() == counters1,
                self.ordering() == ordering1,
                self.newest() == newest1,
                self.clock() == old(self).clock(),
                may_become(old(self).status_spec(), self.status_spec()),
                i <= resend@.len(),
            decreases resend@.len() - i,
        {
            let result = match &self.transport {
                Some(t) => t.send(resend[i].0.m_type, &resend[i].1),
                None => Ok(()),
            };
            let ghost before = self.status_spec();
            self.status_result(result);
            proof {
                crate::net::lemma_may_become(old(self).status_spec(), before, self.status_spec(), arbitrary());
            }
            i += 1;
        }
    }

    /// Rolls the status over and returns the status it had: `Accepted` becomes `Connected`;
    /// `Rejected`, `ConnectionFailed`, `Disconnected` and `Dropped` become `NotConnected`;
    /// other statuses stay.
    pub fn handle_status(&mut self) -> (r: Status)
        requires
            old(self).wf(),
        ensures
            final(self).wf(),
            final(self).table() == old(self).table(),
            final(self).buffers() == old(self).buffers(),
            final(self).is_open() == old(self).is_open(),
            final(self).acks() == old(self).acks(),
            final(self).pings() == old(self).pings(),
            final(self).clock() == old(self).clock(),
            r == old(self).status_spec(),
            final(self).status_spec() == rolled(old(self).status_spec()),
            status_step_ok(old(self).status_spec(), final(self).status_spec()),
    {
        let mut new_status = match &self.status {
            Status::NotConnected => Status::NotConnected,
            Status::Connecting => Status::Connecting,
            Status::Accepted(_) => Status::Connected,
            Status::Rejected(_) => Status::NotConnected,
            Status::ConnectionFailed(_) => Status::NotConnected,
            Status::Connected => Status::Connected,
            Status::Disconnected(_) => Status::NotConnected,
            Status::Dropped(_) => Status::NotConnected,
            Status::Disconnecting(ack_num) => Status::Disconnecting(*ack_num),
        };
        core::mem::swap(&mut self.status, &mut new_status);
        new_status
    }

    /// The status of the connection.
    pub fn get_status(&self) -> (r: &Status)
        ensures
            *r == self.status_spec(),
    {
        &self.status
    }

    /// Completes a disconnection: `Disconnecting` becomes `NotConnected`, and the transport
    /// is closed, once the disconnection message is no longer saved, that is, acknowledged.
    fn update_status(&mut self)
        requires
            old(self).wf(),
        ensures
            final(self).wf(),
            final(self).table() == old(self).table(),
            final(self).acks() == old(self).acks(),
            final(self).clock() == old(self).clock(),
            old(self).status_spec() is Disconnecting && !old(self).acks().saved.contains_key(
                old(self).status_spec()->Disconnecting_0,
            ) ==> final(self).status_spec() is NotConnected,
            !(old(self).status_spec() is Disconnecting && !old(self).acks().saved.contains_key(
                old(self).status_spec()->Disconnecting_0,
            )) ==> final(self).status_spec() == old(self).status_spec(),
    {
        match self.status {
            Status::Disconnecting(ack_num) => {
                if !self.reliable_sys.is_saved(ack_num) {
                    self.status = Status::NotConnected;
                    self.transport = None;
                }
            },
            _ => {},
        }
    }

    /// The configuration of the client.
    pub fn config(&self) -> (r: &ClientConfig)
        ensures
            *r == (ClientConfig {}),
    {
        &self.config
    }

    /// The message table of the client.
    pub fn msg_table(&self) -> (r: &MsgTableParts)
        ensures
            r@ == self.table(),
    {
        &self.msg_table
    }

    /// Empties the buffers of received messages.
    fn clear_msgs(&mut self)
        requires
            old(self).wf(),
        ensures
            final(self).wf(),
            final(self).table() == old(self).table(),
            final(self).status_spec() == old(self).status_spec(),
            final(self).is_open() == old(self).is_open(),
            forall|m: int| 0 <= m < final(self).buffers().len() ==> (#[trigger] final(self).buffers()[m]).len() == 0,
            final(self).reliable_sys == old(self).reliable_sys,
            final(self).ping_sys == old(self).ping_sys,
            final(self).now == old(self).now,
            final(self).buffers().len() == old(self).buffers().len(),
    {
        self.msg_buf = Self::empty_buffers(self.msg_buf.len());
    }

    /// The estimated round-trip time to the peer, in milliseconds.
    pub fn rtt(&self) -> (r: u32)
        ensures
            r == match self.pings().rtt {
                None => 0,
                Some(x) => x,
            },
    {
        self.ping_sys.rtt()
    }
}

} // verus!
