//! Networking items shared by every transport: the wire header, sequence numbers,
//! connection status and connection-id patterns.

use vstd::prelude::*;

verus! {

/// The largest payload that is safe to send on udp after transport overheads.
pub const MAX_SAFE_MESSAGE_SIZE: usize = 508;

/// The absolute largest payload that udp supports.
pub const MAX_MESSAGE_SIZE: usize = 65507;

/// The size of the wire header in bytes.
pub const HEADER_SIZE: usize = 12;

/// Message type: an integer unique to each type of message.
pub type MType = usize;

/// Connection id, assigned by the server to each connection.
pub type CId = u32;

/// Acknowledgement number: incremented for every message sent on a connection.
pub type AckNum = u16;

/// Ordering number: incremented for every message of one [`MType`].
pub type OrderNum = u16;

/// Wrap-aware "comes before" on 16-bit sequence numbers:
/// `a` precedes `b` when `a - b` (mod 2^16) has its high bit set.
pub open spec fn seq_lt(a: u16, b: u16) -> bool {
    ((a as int - b as int) % 65536) >= 32768
}

/// Wrap-aware comparison of two sequence numbers.
pub fn wrapping_lt(a: u16, b: u16) -> (r: bool)
    ensures
        r == seq_lt(a, b),
{
    let d: u16 = a.wrapping_sub(b);
    d >= 32768
}

/// The big-endian bytes of a 16-bit value.
pub open spec fn be16(v: u16) -> Seq<u8> {
    seq![(v / 256) as u8, (v % 256) as u8]
}

/// The big-endian bytes of a 32-bit value.
pub open spec fn be32(v: u32) -> Seq<u8> {
    seq![
        (v / 16777216) as u8,
        ((v / 65536) % 256) as u8,
        ((v / 256) % 256) as u8,
        (v % 256) as u8,
    ]
}

/// The 16-bit value read big-endian from `b[i]`, `b[i + 1]`.
pub open spec fn read_be16(b: Seq<u8>, i: int) -> u16 {
    (b[i] as int * 256 + b[i + 1] as int) as u16
}

/// The 32-bit value read big-endian from `b[i..i + 4]`.
pub open spec fn read_be32(b: Seq<u8>, i: int) -> u32 {
    (b[i] as int * 16777216 + b[i + 1] as int * 65536 + b[i + 2] as int * 256
        + b[i + 3] as int) as u32
}

/// A header sent before the contents of every message.
#[derive(Debug, PartialEq, Eq, Structural, Copy, Clone, Hash)]
pub struct MsgHeader {
    /// The message type of this message.
    pub m_type: MType,
    /// An incrementing integer specific to this `m_type`, used to order messages on arrival.
    pub order_num: OrderNum,
    /// The [`AckNum`] of this outgoing message.
    pub sender_ack_num: AckNum,
    /// The base of the acknowledgement bitfield carried in `ack_bits`.
    pub receiver_acking_offset: AckNum,
    /// Bit `i` acknowledges message `receiver_acking_offset + i`.
    pub ack_bits: u32,
}

/// The 12 wire bytes of a header.
pub open spec fn header_bytes(h: MsgHeader) -> Seq<u8> {
    be16((h.m_type % 65536) as u16) + be16(h.order_num) + be16(h.sender_ack_num) + be16(
        h.receiver_acking_offset,
    ) + be32(h.ack_bits)
}

/// The header that the first 12 bytes of `b` encode.
pub open spec fn header_of(b: Seq<u8>) -> MsgHeader {
    MsgHeader {
        m_type: read_be16(b, 0) as usize,
        order_num: read_be16(b, 2),
        sender_ack_num: read_be16(b, 4),
        receiver_acking_offset: read_be16(b, 6),
        ack_bits: read_be32(b, 8),
    }
}

/// Why a datagram could not be decoded.
#[derive(Debug, PartialEq, Eq, Structural, Copy, Clone, Hash)]
pub enum DecodeError {
    /// The datagram is shorter than a header.
    ShortPacket,
    /// The datagram's header is not valid.
    MalformedHeader,
    /// The datagram's body does not decode as its message type.
    DeserializationError,
}

fn u16_be_split(v: u16) -> (r: (u8, u8))
    ensures
        seq![r.0, r.1] == be16(v),
{
    ((v / 256) as u8, (v % 256) as u8)
}

fn u32_be_split(v: u32) -> (r: (u8, u8, u8, u8))
    ensures
        seq![r.0, r.1, r.2, r.3] == be32(v),
{
    ((v / 16777216) as u8, ((v / 65536) % 256) as u8, ((v / 256) % 256) as u8, (v % 256) as u8)
}

fn u16_from_be(a: u8, b: u8) -> (r: u16)
    ensures
        r == read_be16(seq![a, b], 0),
{
    (a as u16) * 256 + (b as u16)
}

fn u32_from_be(a: u8, b: u8, c: u8, d: u8) -> (r: u32)
    ensures
        r == read_be32(seq![a, b, c, d], 0),
{
    (a as u32) * 16777216 + (b as u32) * 65536 + (c as u32) * 256 + (d as u32)
}

impl MsgHeader {
    /// Creates a [`MsgHeader`] from its fields.
    pub fn new(
        m_type: MType,
        order_num: OrderNum,
        sender_ack_num: AckNum,
        receiver_acking_num: AckNum,
        ack_bits: u32,
    ) -> (r: Self)
        ensures
            r == (MsgHeader {
                m_type,
                order_num,
                sender_ack_num,
                receiver_acking_offset: receiver_acking_num,
                ack_bits,
            }),
    {
        MsgHeader {
            m_type,
            order_num,
            sender_ack_num,
            receiver_acking_offset: receiver_acking_num,
            ack_bits,
        }
    }

    /// Converts the header to its 12 big-endian wire bytes.
    /// The message type is written as 16 bits.
    pub fn to_be_bytes(&self) -> (r: [u8; HEADER_SIZE])
        ensures
            r@ == header_bytes(*self),
    {
        let m = u16_be_split((self.m_type % 65536) as u16);
        let o = u16_be_split(self.order_num);
        let s = u16_be_split(self.sender_ack_num);
        let a = u16_be_split(self.receiver_acking_offset);
        let b = u32_be_split(self.ack_bits);
        let r = [m.0, m.1, o.0, o.1, s.0, s.1, a.0, a.1, b.0, b.1, b.2, b.3];
        assert(r@ =~= header_bytes(*self));
        r
    }

    /// Decodes the header from the first 12 big-endian bytes of a datagram.
    /// Fails with `ShortPacket` when the datagram is shorter than a header.
    pub fn from_be_bytes(bytes: &[u8]) -> (r: Result<Self, DecodeError>)
        ensures
            bytes@.len() < HEADER_SIZE ==> r == Err::<Self, DecodeError>(DecodeError::ShortPacket),
            bytes@.len() >= HEADER_SIZE ==> r == Ok::<Self, DecodeError>(header_of(bytes@)),
    {
        if bytes.len() < HEADER_SIZE {
            return Err(DecodeError::ShortPacket);
        }
        let m_type = u16_from_be(bytes[0], bytes[1]);
        let order_num = u16_from_be(bytes[2], bytes[3]);
        let sender_ack_num = u16_from_be(bytes[4], bytes[5]);
        let receiver_acking_num = u16_from_be(bytes[6], bytes[7]);
        let ack_bits = u32_from_be(bytes[8], bytes[9], bytes[10], bytes[11]);
        Ok(
            MsgHeader {
                m_type: m_type as usize,
                order_num,
                sender_ack_num,
                receiver_acking_offset: receiver_acking_num,
                ack_bits,
            },
        )
    }
}

/// Decoding the encoding of a header gives the header back, for every header whose
/// message type fits the 16 bits that the wire gives it.
pub proof fn lemma_header_round_trip(h: MsgHeader)
    requires
        h.m_type < 65536,
    ensures
        header_of(header_bytes(h)) == h,
{
    let b = header_bytes(h);
    assert(b.len() == 12);
    assert(read_be16(b, 0) as int == h.m_type);
    assert(read_be16(b, 2) == h.order_num);
    assert(read_be16(b, 4) == h.sender_ack_num);
    assert(read_be16(b, 6) == h.receiver_acking_offset);
    assert(read_be32(b, 8) == h.ack_bits);
}

/// What kind of failure a transport reported.
#[derive(Debug, PartialEq, Eq, Structural, Copy, Clone, Hash)]
pub enum TransportErrorKind {
    /// Nothing is queued right now; not a failure of the connection.
    WouldBlock,
    /// The transport is not connected to a peer.
    NotConnected,
    /// Data could not be encoded or decoded.
    InvalidData,
    /// Any other failure of the underlying socket.
    Other,
}

/// A failure reported by a transport, with its description.
#[derive(Debug, Clone, PartialEq, Eq)]
pub struct TransportError {
    /// The kind of failure.
    pub kind: TransportErrorKind,
    /// A human readable description.
    pub message: String,
}

/// The possible states of a connection.
///
/// `NotConnected` → `Connecting` → `Accepted` / `Rejected` / `ConnectionFailed`;
/// `Accepted` → `Connected`; `Connected` → `Disconnecting` / `Disconnected` / `Dropped`;
/// the terminal states fall back to `NotConnected`.
/// Message payloads are the serialized message bodies.
#[derive(Debug)]
pub enum Status {
    /// Not connected to any peer.
    NotConnected,
    /// A connection message was sent and no response has been heard yet.
    Connecting,
    /// The peer accepted the connection, with this response body.
    Accepted(Vec<u8>),
    /// The peer rejected the connection, with this response body.
    Rejected(Vec<u8>),
    /// The connection failed.
    ConnectionFailed(TransportError),
    /// The connection is established.
    Connected,
    /// The peer disconnected by sending this disconnection body.
    Disconnected(Vec<u8>),
    /// The connection was dropped without a disconnection message.
    Dropped(TransportError),
    /// Disconnecting: waiting for the disconnection message with this [`AckNum`] to be acked.
    Disconnecting(AckNum),
}

impl Status {
    /// Whether this status is `NotConnected`.
    pub fn is_not_connected(&self) -> (r: bool)
        ensures
            r == (*self is NotConnected),
    {
        matches!(self, Status::NotConnected)
    }

    /// Whether this status is `Connecting`.
    pub fn is_connecting(&self) -> (r: bool)
        ensures
            r == (*self is Connecting),
    {
        matches!(self, Status::Connecting)
    }

    /// Whether this status is `Accepted`.
    pub fn is_accepted(&self) -> (r: bool)
        ensures
            r == (*self is Accepted),
    {
        matches!(self, Status::Accepted(_))
    }

    /// Whether this status is `Rejected`.
    pub fn is_rejected(&self) -> (r: bool)
        ensures
            r == (*self is Rejected),
    {
        matches!(self, Status::Rejected(_))
    }

    /// Whether this status is `Connected`.
    pub fn is_connected(&self) -> (r: bool)
        ensures
            r == (*self is Connected),
    {
        matches!(self, Status::Connected)
    }

    /// Whether this status is `Disconnected`.
    pub fn is_disconnected(&self) -> (r: bool)
        ensures
            r == (*self is Disconnected),
    {
        matches!(self, Status::Disconnected(_))
    }

    /// Whether this status is `Dropped`.
    pub fn is_dropped(&self) -> (r: bool)
        ensures
            r == (*self is Dropped),
    {
        matches!(self, Status::Dropped(_))
    }

    /// Whether this status is `Disconnecting`.
    pub fn is_disconnecting(&self) -> (r: bool)
        ensures
            r == (*self is Disconnecting),
    {
        matches!(self, Status::Disconnecting(_))
    }

    /// The response body of `Accepted`, or `None` for every other status.
    pub fn unwrap_accepted_dyn(self) -> (r: Option<Vec<u8>>)
        ensures
            r == (match self {
                Status::Accepted(m) => Some(m),
                _ => None::<Vec<u8>>,
            }),
    {
        match self {
            Status::Accepted(msg) => Some(msg),
            _ => None,
        }
    }

    /// The response body of `Rejected`, or `None` for every other status.
    pub fn unwrap_rejected_dyn(self) -> (r: Option<Vec<u8>>)
        ensures
            r == (match self {
                Status::Rejected(m) => Some(m),
                _ => None::<Vec<u8>>,
            }),
    {
        match self {
            Status::Rejected(msg) => Some(msg),
            _ => None,
        }
    }

    /// The disconnection body of `Disconnected`, or `None` for every other status.
    pub fn unwrap_disconnected_dyn(self) -> (r: Option<Vec<u8>>)
        ensures
            r == (match self {
                Status::Disconnected(m) => Some(m),
                _ => None::<Vec<u8>>,
            }),
    {
        match self {
            Status::Disconnected(msg) => Some(msg),
            _ => None,
        }
    }

    /// The error of `Dropped`, or `None` for every other status.
    pub fn unwrap_dropped(self) -> (r: Option<TransportError>)
        ensures
            r == (match self {
                Status::Dropped(e) => Some(e),
                _ => None::<TransportError>,
            }),
    {
        match self {
            Status::Dropped(err) => Some(err),
            _ => None,
        }
    }

    /// A short description of the status.
    pub fn describe(&self) -> (r: &'static str)
        ensures
            *self is NotConnected ==> r@ == "Not connected"@,
            *self is Connected ==> r@ == "Connected"@,
    {
        match self {
            Status::NotConnected => "Not connected",
            Status::Connecting => "Connecting...",
            Status::Accepted(_) => "Accepted",
            Status::Rejected(_) => "Rejected",
            Status::ConnectionFailed(_) => "Connection failed",
            Status::Connected => "Connected",
            Status::Disconnected(_) => "Disconnected gracefully",
            Status::Dropped(_) => "Dropped",
            Status::Disconnecting(_) => "Disconnecting...",
        }
    }

    /// A reference to the disconnection body of `Disconnected`, if this is that status.
    pub fn disconnected_dyn(&self) -> (r: Option<&Vec<u8>>)
        ensures
            r == (match *self {
                Status::Disconnected(m) => Some(&m),
                _ => None::<&Vec<u8>>,
            }),
    {
        match self {
            Status::Disconnected(d) => Some(d),
            _ => None,
        }
    }

    /// A reference to the error of `Dropped`, if this is that status.
    pub fn dropped(&self) -> (r: Option<&TransportError>)
        ensures
            r == (match *self {
                Status::Dropped(e) => Some(&e),
                _ => None::<&TransportError>,
            }),
    {
        match self {
            Status::Dropped(e) => Some(e),
            _ => None,
        }
    }
}

/// Why a connection refused an operation.
#[derive(Debug, PartialEq, Eq, Structural, Copy, Clone, Hash)]
pub enum NetError {
    /// The operation is not valid in the connection's current status.
    InvalidState,
    /// The message type is not registered.
    UnregisteredType,
}

/// The status after a transport error in status `s`.
pub open spec fn status_after_error(s: Status, e: TransportError) -> Status {
    match s {
        Status::Connected => Status::Dropped(e),
        Status::Connecting => Status::ConnectionFailed(e),
        Status::Accepted(_) => Status::ConnectionFailed(e),
        Status::Rejected(_) => Status::ConnectionFailed(e),
        Status::Disconnecting(_) => Status::NotConnected,
        _ => s,
    }
}

/// The status that a status rolls over to at the start of the next tick.
pub open spec fn rolled(s: Status) -> Status {
    match s {
        Status::Accepted(_) => Status::Connected,
        Status::Rejected(_) => Status::NotConnected,
        Status::ConnectionFailed(_) => Status::NotConnected,
        Status::Disconnected(_) => Status::NotConnected,
        Status::Dropped(_) => Status::NotConnected,
        _ => s,
    }
}

/// Whether `s` ends a connection attempt or a connection.
pub open spec fn is_terminal(s: Status) -> bool {
    s is Rejected || s is ConnectionFailed || s is Disconnected || s is Dropped || s is Disconnecting
}

/// A transition from `a` to `b` obeys the status rules: `Connected` is entered only from
/// `Accepted`, and `NotConnected` only from a terminal status.
pub open spec fn status_step_ok(a: Status, b: Status) -> bool {
    &&& (b is Connected ==> a is Connected || a is Accepted)
    &&& (b is NotConnected ==> a is NotConnected || is_terminal(a))
}

/// Whether a connection in status `a` may reach status `b` by transport errors, responses
/// and the peer's disconnection alone: `Connecting` becomes `Accepted`, `Rejected` or
/// `ConnectionFailed`; `Accepted` and `Rejected` may fail; `Connected` may become
/// `Disconnected` or `Dropped`; `Disconnecting` may end in `NotConnected`; nothing else moves.
pub open spec fn may_become(a: Status, b: Status) -> bool {
    match a {
        Status::NotConnected => b is NotConnected,
        Status::Connecting => b is Connecting || b is Accepted || b is Rejected || b is ConnectionFailed,
        Status::Accepted(_) => b == a || b is ConnectionFailed,
        Status::Rejected(_) => b == a || b is ConnectionFailed,
        Status::Connected => b is Connected || b is Disconnected || b is Dropped,
        Status::Disconnecting(n) => b == Status::Disconnecting(n) || b is NotConnected,
        _ => b == a,
    }
}

/// `may_become` is reflexive and transitive, admits every transport error, and obeys the
/// status rules.
pub proof fn lemma_may_become(a: Status, b: Status, c: Status, e: TransportError)
    ensures
        may_become(a, a),
        may_become(a, status_after_error(a, e)),
        may_become(a, b) ==> status_step_ok(a, b),
        may_become(a, b) && may_become(b, c) ==> may_become(a, c),
{
}

/// A way to specify the valid [`CId`]s for an operation.
#[derive(Copy, Clone, PartialEq, Eq, Structural, Debug, Hash)]
pub enum CIdSpec {
    /// Matches every [`CId`].
    All,
    /// Matches no [`CId`].
    Nothing,
    /// Matches every [`CId`] but the inner one.
    Except(CId),
    /// Matches only the inner [`CId`].
    Only(CId),
}

/// Whether `spec` matches `cid`.
pub open spec fn cid_spec_matches(spec: CIdSpec, cid: CId) -> bool {
    match spec {
        CIdSpec::All => true,
        CIdSpec::Nothing => false,
        CIdSpec::Except(o) => cid != o,
        CIdSpec::Only(o) => cid == o,
    }
}

impl CIdSpec {
    /// Whether the given cid matches the pattern.
    pub fn matches(&self, cid: CId) -> (r: bool)
        ensures
            r == cid_spec_matches(*self, cid),
    {
        match self {
            CIdSpec::All => true,
            CIdSpec::Nothing => false,
            CIdSpec::Except(o) => cid != *o,
            CIdSpec::Only(o) => cid == *o,
        }
    }

    /// Whether the two patterns share at least one [`CId`].
    pub fn overlaps(&self, other: CIdSpec) -> (r: bool)
        ensures
            r == exists|c: CId| cid_spec_matches(*self, c) && cid_spec_matches(other, c),
    {
        match (*self, other) {
            (CIdSpec::Nothing, _) => false,
            (_, CIdSpec::Nothing) => false,
            (CIdSpec::All, o) => {
                let c: CId = match o {
                    CIdSpec::Except(e) => if e == 0 { 1 } else { 0 },
                    CIdSpec::Only(x) => x,
                    _ => 0,
                };
                assert(cid_spec_matches(*self, c) && cid_spec_matches(other, c));
                true
            },
            (s, CIdSpec::All) => {
                let c: CId = match s {
                    CIdSpec::Except(e) => if e == 0 { 1 } else { 0 },
                    CIdSpec::Only(x) => x,
                    _ => 0,
                };
                assert(cid_spec_matches(*self, c) && cid_spec_matches(other, c));
                true
            },
            (CIdSpec::Except(a), CIdSpec::Except(b)) => {
                let c: CId = if a != 0 && b != 0 { 0 } else if a != 1 && b != 1 { 1 } else { 2 };
                assert(cid_spec_matches(*self, c) && cid_spec_matches(other, c));
                true
            },
            (CIdSpec::Only(o1), CIdSpec::Only(o2)) => {
                if o1 == o2 {
                    assert(cid_spec_matches(*self, o1) && cid_spec_matches(other, o1));
                }
                o1 == o2
            },
            (CIdSpec::Only(only), CIdSpec::Except(except)) => {
                if only != except {
                    assert(cid_spec_matches(*self, only) && cid_spec_matches(other, only));
                }
                only != except
            },
            (CIdSpec::Except(except), CIdSpec::Only(only)) => {
                if only != except {
                    assert(cid_spec_matches(*self, only) && cid_spec_matches(other, only));
                }
                only != except
            },
        }
    }
}

/// Configuration for a client.
#[derive(Copy, Clone, PartialEq, Eq, Structural, Debug)]
pub struct ClientConfig {}

impl ClientConfig {
    /// Creates a new client configuration.
    pub fn new() -> (r: Self)
        ensures
            r == (ClientConfig {}),
    {
        ClientConfig {}
    }
}

/// Configuration for a server.
#[derive(Copy, Clone, PartialEq, Eq, Structural, Debug)]
pub struct ServerConfig {}

impl ServerConfig {
    /// Creates a new server configuration.
    pub fn new() -> (r: Self)
        ensures
            r == (ServerConfig {}),
    {
        ServerConfig {}
    }
}

/// A received message with its metadata; the message is its serialized body.
#[derive(Debug, Clone, PartialEq, Eq)]
pub struct ErasedNetMsg {
    /// The [`CId`] that the message was sent from.
    pub cid: CId,
    /// The sender's acknowledgement number of the message.
    pub ack_num: AckNum,
    /// The sender's ordering number of the message, per [`MType`].
    pub order_num: OrderNum,
    /// The serialized message body.
    pub msg: Vec<u8>,
}

impl ErasedNetMsg {
    /// Creates a received message from its parts.
    pub fn new(cid: CId, ack_num: AckNum, order_num: OrderNum, msg: Vec<u8>) -> (r: Self)
        ensures
            r == (ErasedNetMsg { cid, ack_num, order_num, msg }),
    {
        ErasedNetMsg { cid, ack_num, order_num, msg }
    }
}

/// A received message with its metadata, holding the message as a value of type `T`.
#[derive(Debug, Clone, Copy, PartialEq, Eq)]
pub struct NetMsg<T> {
    /// The [`CId`] that the message was sent from.
    pub cid: CId,
    /// The sender's acknowledgement number of the message.
    pub ack_num: AckNum,
    /// The sender's ordering number of the message, per [`MType`].
    pub order_num: OrderNum,
    /// The message.
    pub m: T,
}

} // verus!
