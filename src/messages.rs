//! The bodies of the built-in control messages: the dedicated acknowledgement message and
//! the ping message, with their wire formats (big-endian).
//!
//! Acknowledgement body: `ack_offset: u16`, `bitfields_len: u16`, `bitfields: [u32]`,
//! `residual_len: u16`, `residual: [u16]`. Ping body: `type: u8` (0 request, 1 response),
//! `ping_num: u32`.

use vstd::prelude::*;
use crate::net::{be16, be32, read_be16, read_be32, AckNum, DecodeError};

verus! {

/// The big-endian bytes of each value of `s`, in order.
pub open spec fn be32_all(s: Seq<u32>) -> Seq<u8> {
    Seq::new(4 * s.len(), |k: int| be32(s[k / 4])[k % 4])
}

/// The big-endian bytes of each value of `s`, in order.
pub open spec fn be16_all(s: Seq<u16>) -> Seq<u8> {
    Seq::new(2 * s.len(), |k: int| be16(s[k / 2])[k % 2])
}

/// A message acknowledging every received message of the window, and the residual ones.
#[derive(Clone, Debug, PartialEq, Eq)]
pub struct AckMsg {
    /// The base of the first bitfield.
    pub ack_offset: AckNum,
    /// The bitfields, front first: bitfield `k` is based at `ack_offset - 32 k`.
    pub bitfields: Vec<u32>,
    /// Acknowledged numbers that lie outside the bitfields.
    pub residual: Vec<AckNum>,
}

/// The wire bytes of an acknowledgement body.
pub open spec fn ack_msg_bytes(offset: AckNum, bitfields: Seq<u32>, residual: Seq<AckNum>) -> Seq<u8> {
    be16(offset) + be16(bitfields.len() as u16) + be32_all(bitfields) + be16(residual.len() as u16)
        + be16_all(residual)
}

proof fn lemma_be16_round(v: u16)
    ensures
        read_be16(be16(v), 0) == v,
{
}

proof fn lemma_be32_round(v: u32)
    ensures
        read_be32(be32(v), 0) == v,
{
}

fn push_be16(out: &mut Vec<u8>, v: u16)
    ensures
        final(out)@ == old(out)@ + be16(v),
{
    out.push((v / 256) as u8);
    out.push((v % 256) as u8);
    assert(final(out)@ =~= old(out)@ + be16(v));
}

fn push_be32(out: &mut Vec<u8>, v: u32)
    ensures
        final(out)@ == old(out)@ + be32(v),
{
    out.push((v / 16777216) as u8);
    out.push(((v / 65536) % 256) as u8);
    out.push(((v / 256) % 256) as u8);
    out.push((v % 256) as u8);
    assert(final(out)@ =~= old(out)@ + be32(v));
}

fn get_be16(b: &[u8], i: usize) -> (r: u16)
    requires
        i + 2 <= b@.len(),
    ensures
        r == read_be16(b@, i as int),
{
    (b[i] as u16) * 256 + (b[i + 1] as u16)
}

fn get_be32(b: &[u8], i: usize) -> (r: u32)
    requires
        i + 4 <= b@.len(),
    ensures
        r == read_be32(b@, i as int),
{
    (b[i] as u32) * 16777216 + (b[i + 1] as u32) * 65536 + (b[i + 2] as u32) * 256 + (b[i
        + 3] as u32)
}

impl AckMsg {
    /// Creates an acknowledgement message.
    pub fn new(ack_offset: AckNum, bitfields: Vec<u32>, residual: Vec<AckNum>) -> (r: Self)
        ensures
            r.ack_offset == ack_offset,
            r.bitfields@ == bitfields@,
            r.residual@ == residual@,
    {
        AckMsg { ack_offset, bitfields, residual }
    }

    /// The wire bytes of this message, or `None` when a list is longer than its 16-bit
    /// length field can count.
    pub fn ser(&self) -> (r: Option<Vec<u8>>)
        ensures
            (self.bitfields@.len() <= u16::MAX && self.residual@.len() <= u16::MAX) ==> r is Some
                && r->Some_0@ == ack_msg_bytes(self.ack_offset, self.bitfields@, self.residual@),
            !(self.bitfields@.len() <= u16::MAX && self.residual@.len() <= u16::MAX) ==> r is None,
    {
        if self.bitfields.len() > 65535 || self.residual.len() > 65535 {
            return None;
        }
        let mut out: Vec<u8> = Vec::new();
        push_be16(&mut out, self.ack_offset);
        push_be16(&mut out, self.bitfields.len() as u16);
        let ghost head = out@;
        let mut i: usize = 0;
        while i < self.bitfields.len()
            invariant
                i <= self.bitfields@.len(),
                out@ == head + be32_all(self.bitfields@.subrange(0, i as int)),
            decreases self.bitfields@.len() - i,
        {
            push_be32(&mut out, self.bitfields[i]);
            i += 1;
            assert(be32_all(self.bitfields@.subrange(0, i as int)) =~= be32_all(
                self.bitfields@.subrange(0, i - 1),
            ) + be32(self.bitfields@[i - 1]));
        }
        assert(self.bitfields@.subrange(0, i as int) =~= self.bitfields@);
        push_be16(&mut out, self.residual.len() as u16);
        let ghost mid = out@;
        let mut j: usize = 0;
        while j < self.residual.len()
            invariant
                j <= self.residual@.len(),
                out@ == mid + be16_all(self.residual@.subrange(0, j as int)),
            decreases self.residual@.len() - j,
        {
            push_be16(&mut out, self.residual[j]);
            j += 1;
            assert(be16_all(self.residual@.subrange(0, j as int)) =~= be16_all(
                self.residual@.subrange(0, j - 1),
            ) + be16(self.residual@[j - 1]));
        }
        assert(self.residual@.subrange(0, j as int) =~= self.residual@);
        assert(out@ =~= ack_msg_bytes(self.ack_offset, self.bitfields@, self.residual@));
        Some(out)
    }

    /// Decodes an acknowledgement body. It succeeds exactly on the encodings of messages,
    /// and gives back the encoded message.
    pub fn deser(bytes: &[u8]) -> (r: Result<AckMsg, DecodeError>)
        ensures
            r is Ok ==> ack_msg_bytes(r->Ok_0.ack_offset, r->Ok_0.bitfields@, r->Ok_0.residual@)
                == bytes@ && r->Ok_0.bitfields@.len() <= u16::MAX && r->Ok_0.residual@.len()
                <= u16::MAX,
            r is Err ==> r == Err::<AckMsg, DecodeError>(DecodeError::DeserializationError),
            forall|o: AckNum, f: Seq<u32>, s: Seq<AckNum>|
                f.len() <= u16::MAX && s.len() <= u16::MAX && #[trigger] ack_msg_bytes(o, f, s)
                    == bytes@ ==> r is Ok && r->Ok_0.ack_offset == o && r->Ok_0.bitfields@ == f
                    && r->Ok_0.residual@ == s,
    {
        if bytes.len() < 4 {
            return Err(DecodeError::DeserializationError);
        }
        let ack_offset = get_be16(bytes, 0);
        let n = get_be16(bytes, 2) as usize;
        if bytes.len() < 6 + 4 * n {
            return Err(DecodeError::DeserializationError);
        }
        let mut bitfields: Vec<u32> = Vec::new();
        let mut i: usize = 0;
        while i < n
            invariant
                i <= n,
                n <= 65535,
                6 + 4 * n <= bytes@.len(),
                bitfields@.len() == i,
                forall|x: int| 0 <= x < i ==> #[trigger] bitfields@[x] == read_be32(bytes@, 4 + 4 * x),
            decreases n - i,
        {
            bitfields.push(get_be32(bytes, 4 + 4 * i));
            i += 1;
        }
        let at = 4 + 4 * n;
        let m = get_be16(bytes, at) as usize;
        if bytes.len() != at + 2 + 2 * m {
            return Err(DecodeError::DeserializationError);
        }
        let mut residual: Vec<AckNum> = Vec::new();
        let mut j: usize = 0;
        while j < m
            invariant
                j <= m,
                m <= 65535,
                n <= 65535,
                at + 2 + 2 * m == bytes@.len(),
                at == 4 + 4 * n,
                residual@.len() == j,
                forall|x: int| 0 <= x < j ==> #[trigger] residual@[x] == read_be16(bytes@, at + 2 + 2 * x),
            decreases m - j,
        {
            residual.push(get_be16(bytes, at + 2 + 2 * j));
            j += 1;
        }
        let msg = AckMsg { ack_offset, bitfields, residual };
        proof {
            lemma_ack_bytes_decode(bytes@, msg.ack_offset, msg.bitfields@, msg.residual@);
        }
        Ok(msg)
    }
}

/// Whether a ping is a request or a response.
#[derive(Copy, Clone, PartialEq, Eq, Structural, Debug, Hash)]
pub enum PingType {
    /// A request, to be answered.
    Req,
    /// A response to a request.
    Res,
}

/// A message for estimating the round-trip time of a connection.
#[derive(Copy, Clone, PartialEq, Eq, Structural, Debug, Hash)]
pub struct PingMsg {
    /// The type of ping.
    pub ping_type: PingType,
    /// The ping number that identifies the request.
    pub ping_num: u32,
}

/// The wire bytes of a ping body.
pub open spec fn ping_bytes(m: PingMsg) -> Seq<u8> {
    seq![if m.ping_type is Req { 0u8 } else { 1u8 }] + be32(m.ping_num)
}

impl PingMsg {
    /// The wire bytes of this ping.
    pub fn ser(&self) -> (r: Vec<u8>)
        ensures
            r@ == ping_bytes(*self),
    {
        let mut out: Vec<u8> = Vec::new();
        out.push(
            match self.ping_type {
                PingType::Req => 0u8,
                PingType::Res => 1u8,
            },
        );
        push_be32(&mut out, self.ping_num);
        assert(out@ =~= ping_bytes(*self));
        out
    }

    /// Decodes a ping body; succeeds exactly on the encodings of pings.
    pub fn deser(bytes: &[u8]) -> (r: Result<PingMsg, DecodeError>)
        ensures
            r is Ok ==> ping_bytes(r->Ok_0) == bytes@,
            r is Err ==> r == Err::<PingMsg, DecodeError>(DecodeError::DeserializationError),
            forall|m: PingMsg| #[trigger] ping_bytes(m) == bytes@ ==> r == Ok::<PingMsg, DecodeError>(m),
    {
        if bytes.len() != 5 || bytes[0] > 1 {
            proof {
                assert forall|m: PingMsg| #[trigger] ping_bytes(m) != bytes@ by {
                    if ping_bytes(m) == bytes@ {
                        assert(ping_bytes(m)[0] == bytes@[0]);
                    }
                }
            }
            return Err(DecodeError::DeserializationError);
        }
        let ping_type = if bytes[0] == 0 { PingType::Req } else { PingType::Res };
        let msg = PingMsg { ping_type, ping_num: get_be32(bytes, 1) };
        proof {
            lemma_read_be32_inv(bytes@, 1);
            assert(ping_bytes(msg) =~= bytes@);
            assert forall|m: PingMsg| #[trigger] ping_bytes(m) == bytes@ implies m == msg by {
                lemma_be32_round(m.ping_num);
                assert(ping_bytes(m).subrange(1, 5) =~= be32(m.ping_num));
                assert(read_be32(bytes@, 1) == read_be32(be32(m.ping_num), 0));
                assert(ping_bytes(m)[0] == bytes@[0]);
            }
        }
        Ok(msg)
    }

    /// The response to this ping: the same number, with type `Res`.
    pub open spec fn response_spec(self) -> PingMsg {
        PingMsg { ping_type: PingType::Res, ping_num: self.ping_num }
    }

    /// The response to this ping: the same number, with type `Res`.
    pub fn response(&self) -> (r: Self)
        ensures
            r == (PingMsg { ping_type: PingType::Res, ping_num: self.ping_num }),
    {
        PingMsg { ping_type: PingType::Res, ping_num: self.ping_num }
    }
}

proof fn lemma_read_be16_inv(b: Seq<u8>, i: int)
    requires
        0 <= i,
        i + 2 <= b.len(),
    ensures
        be16(read_be16(b, i)) == b.subrange(i, i + 2),
{
    assert(be16(read_be16(b, i)) =~= b.subrange(i, i + 2));
}

proof fn lemma_read_be32_inv(b: Seq<u8>, i: int)
    requires
        0 <= i,
        i + 4 <= b.len(),
    ensures
        be32(read_be32(b, i)) == b.subrange(i, i + 4),
{
    let (b0, b1, b2, b3) = (b[i] as int, b[i + 1] as int, b[i + 2] as int, b[i + 3] as int);
    let v = b0 * 16777216 + b1 * 65536 + b2 * 256 + b3;
    assert(v / 16777216 == b0 && (v / 65536) % 256 == b1 && (v / 256) % 256 == b2 && v % 256 == b3)
        by (nonlinear_arith)
        requires
            0 <= b0 < 256,
            0 <= b1 < 256,
            0 <= b2 < 256,
            0 <= b3 < 256,
            v == b0 * 16777216 + b1 * 65536 + b2 * 256 + b3,
    ;
    assert(be32(read_be32(b, i)) =~= b.subrange(i, i + 4));
}

proof fn lemma_ack_bytes_decode(b: Seq<u8>, o: AckNum, f: Seq<u32>, s: Seq<AckNum>)
    requires
        b.len() == 4 + 4 * f.len() + 2 + 2 * s.len(),
        o == read_be16(b, 0),
        f.len() == read_be16(b, 2),
        s.len() == read_be16(b, 4 + 4 * (f.len() as int)),
        forall|x: int| 0 <= x < f.len() ==> #[trigger] f[x] == read_be32(b, 4 + 4 * x),
        forall|x: int| 0 <= x < s.len() ==> #[trigger] s[x] == read_be16(b, 4 + 4 * f.len() + 2 + 2 * x),
    ensures
        ack_msg_bytes(o, f, s) == b,
        forall|o2: AckNum, f2: Seq<u32>, s2: Seq<AckNum>|
            f2.len() <= u16::MAX && s2.len() <= u16::MAX && #[trigger] ack_msg_bytes(o2, f2, s2)
                == b ==> o2 == o && f2 == f && s2 == s,
{
    lemma_ack_bytes_match(b, o, f, s);
    assert forall|o2: AckNum, f2: Seq<u32>, s2: Seq<AckNum>|
        f2.len() <= u16::MAX && s2.len() <= u16::MAX && #[trigger] ack_msg_bytes(o2, f2, s2)
            == b implies o2 == o && f2 == f && s2 == s by {
        lemma_ack_bytes_unique(b, o, f, s, o2, f2, s2);
    }
}

#[verifier::rlimit(30)]
proof fn lemma_ack_bytes_match(b: Seq<u8>, o: AckNum, f: Seq<u32>, s: Seq<AckNum>)
    requires
        b.len() == 4 + 4 * f.len() + 2 + 2 * s.len(),
        o == read_be16(b, 0),
        f.len() == read_be16(b, 2),
        s.len() == read_be16(b, 4 + 4 * (f.len() as int)),
        forall|x: int| 0 <= x < f.len() ==> #[trigger] f[x] == read_be32(b, 4 + 4 * x),
        forall|x: int| 0 <= x < s.len() ==> #[trigger] s[x] == read_be16(b, 4 + 4 * f.len() + 2 + 2 * x),
    ensures
        ack_msg_bytes(o, f, s) == b,
{
    let n = f.len() as int;
    let at = 4 + 4 * n;
    lemma_read_be16_inv(b, 0);
    lemma_read_be16_inv(b, 2);
    lemma_read_be16_inv(b, at);
    assert(be32_all(f) =~= b.subrange(4, at)) by {
        assert forall|k: int| 0 <= k < 4 * n implies #[trigger] be32_all(f)[k] == b[4 + k] by {
            let x = k / 4;
            lemma_read_be32_inv(b, 4 + 4 * x);
            assert(b.subrange(4 + 4 * x, 4 + 4 * x + 4)[k % 4] == b[4 + k]);
        }
    }
    assert(be16_all(s) =~= b.subrange(at + 2, b.len() as int)) by {
        assert forall|k: int| 0 <= k < 2 * s.len() implies #[trigger] be16_all(s)[k] == b[at + 2 + k] by {
            let x = k / 2;
            lemma_read_be16_inv(b, at + 2 + 2 * x);
            assert(b.subrange(at + 2 + 2 * x, at + 2 + 2 * x + 2)[k % 2] == b[at + 2 + k]);
        }
    }
    assert(ack_msg_bytes(o, f, s) =~= b);
}

#[verifier::rlimit(30)]
proof fn lemma_ack_bytes_unique(
    b: Seq<u8>,
    o: AckNum,
    f: Seq<u32>,
    s: Seq<AckNum>,
    o2: AckNum,
    f2: Seq<u32>,
    s2: Seq<AckNum>,
)
    requires
        b.len() == 4 + 4 * f.len() + 2 + 2 * s.len(),
        o == read_be16(b, 0),
        f.len() == read_be16(b, 2),
        s.len() == read_be16(b, 4 + 4 * (f.len() as int)),
        forall|x: int| 0 <= x < f.len() ==> #[trigger] f[x] == read_be32(b, 4 + 4 * x),
        forall|x: int| 0 <= x < s.len() ==> #[trigger] s[x] == read_be16(b, 4 + 4 * f.len() + 2 + 2 * x),
        f2.len() <= u16::MAX,
        s2.len() <= u16::MAX,
        ack_msg_bytes(o2, f2, s2) == b,
    ensures
        o2 == o && f2 == f && s2 == s,
{
    let n = f.len() as int;
    let at = 4 + 4 * n;
    let e = ack_msg_bytes(o2, f2, s2);
    assert(e.subrange(0, 2) =~= be16(o2));
    assert(e.subrange(2, 4) =~= be16(f2.len() as u16));
    lemma_be16_round(o2);
    lemma_be16_round(f2.len() as u16);
    assert(read_be16(b, 0) == read_be16(be16(o2), 0));
    assert(read_be16(b, 2) == read_be16(be16(f2.len() as u16), 0));
    assert(f2.len() == n);
    assert forall|x: int| 0 <= x < n implies f2[x] == f[x] by {
        lemma_be32_round(f2[x]);
        assert(e.subrange(4 + 4 * x, 4 + 4 * x + 4) =~= be32(f2[x]));
        assert(read_be32(b, 4 + 4 * x) == read_be32(be32(f2[x]), 0));
    }
    assert(f2 =~= f);
    assert(e.subrange(at, at + 2) =~= be16(s2.len() as u16));
    lemma_be16_round(s2.len() as u16);
    assert(read_be16(b, at) == read_be16(be16(s2.len() as u16), 0));
    assert forall|x: int| 0 <= x < s.len() implies s2[x] == s[x] by {
        lemma_be16_round(s2[x]);
        assert(e.subrange(at + 2 + 2 * x, at + 2 + 2 * x + 2) =~= be16(s2[x]));
        assert(read_be16(b, at + 2 + 2 * x) == read_be16(be16(s2[x]), 0));
    }
    assert(s2 =~= s);
}

} // verus!
