//! The server's connection directory: which [`CId`] belongs to which peer address, and
//! the queue of peers whose connection message arrived but was not yet answered.

use vstd::prelude::*;
use crate::net::CId;

verus! {

/// A peer's socket address: an IPv6 address (IPv4 ones mapped into it) and a port.
#[derive(Copy, Clone, PartialEq, Eq, Structural, Debug, Hash)]
pub struct PeerAddr {
    /// The address, as the 128-bit number of its IPv6 form.
    pub ip: u128,
    /// The port.
    pub port: u16,
}

/// Why the directory refused an operation.
#[derive(Copy, Clone, PartialEq, Eq, Structural, Debug, Hash)]
pub enum ConnectionListError {
    /// The address or the [`CId`] was already connected.
    AlreadyConnected,
    /// The [`CId`] was not connected.
    NotConnected,
    /// Every [`CId`] was handed out.
    CIdsExhausted,
}

/// A peer address as a key of plain integers.
pub type AddrKey = (u128, u16);

/// The key of an address.
pub open spec fn key_of(a: PeerAddr) -> AddrKey {
    (a.ip, a.port)
}

/// The connections by [`CId`], held in a `hashbrown` map.
#[verifier::external_body]
pub struct CidMap {
    map: hashbrown::HashMap<CId, PeerAddr>,
}

/// What a [`CidMap`] holds.
pub uninterp spec fn cid_map(m: CidMap) -> Map<CId, PeerAddr>;

/// The connections by address key, held in a `hashbrown` map.
#[verifier::external_body]
pub struct AddrMap {
    map: hashbrown::HashMap<AddrKey, CId>,
}

/// What an [`AddrMap`] holds.
pub uninterp spec fn addr_map(m: AddrMap) -> Map<AddrKey, CId>;

/// Relies on `hashbrown::HashMap::new`: the new map is empty.
#[verifier::external_body]
fn cid_map_new() -> (r: CidMap)
    ensures
        cid_map(r).dom() == Set::<CId>::empty(),
{
    CidMap { map: hashbrown::HashMap::new() }
}

/// Relies on `hashbrown::HashMap::new`: the new map is empty.
#[verifier::external_body]
fn addr_map_new() -> (r: AddrMap)
    ensures
        addr_map(r).dom() == Set::<AddrKey>::empty(),
{
    AddrMap { map: hashbrown::HashMap::new() }
}

/// Relies on `hashbrown::HashMap::insert`: afterwards `k` maps to `v`, other keys unchanged.
#[verifier::external_body]
fn cid_map_insert(m: &mut CidMap, k: CId, v: PeerAddr) -> (r: Option<PeerAddr>)
    ensures
        cid_map(*final(m)) == cid_map(*old(m)).insert(k, v),
        r == (if cid_map(*old(m)).contains_key(k) { Some(cid_map(*old(m))[k]) } else { None::<PeerAddr> }),
{
    m.map.insert(k, v)
}

/// Relies on `hashbrown::HashMap::insert`: afterwards `k` maps to `v`, other keys unchanged.
#[verifier::external_body]
fn addr_map_insert(m: &mut AddrMap, k: AddrKey, v: CId) -> (r: Option<CId>)
    ensures
        addr_map(*final(m)) == addr_map(*old(m)).insert(k, v),
        r == (if addr_map(*old(m)).contains_key(k) { Some(addr_map(*old(m))[k]) } else { None::<CId> }),
{
    m.map.insert(k, v)
}

/// Relies on `hashbrown::HashMap::remove`: afterwards `k` has no entry, other keys unchanged.
#[verifier::external_body]
fn cid_map_remove(m: &mut CidMap, k: CId) -> (r: Option<PeerAddr>)
    ensures
        cid_map(*final(m)) == cid_map(*old(m)).remove(k),
        r == (if cid_map(*old(m)).contains_key(k) { Some(cid_map(*old(m))[k]) } else { None::<PeerAddr> }),
{
    m.map.remove(&k)
}

/// Relies on `hashbrown::HashMap::remove`: afterwards `k` has no entry, other keys unchanged.
#[verifier::external_body]
fn addr_map_remove(m: &mut AddrMap, k: AddrKey) -> (r: Option<CId>)
    ensures
        addr_map(*final(m)) == addr_map(*old(m)).remove(k),
        r == (if addr_map(*old(m)).contains_key(k) { Some(addr_map(*old(m))[k]) } else { None::<CId> }),
{
    m.map.remove(&k)
}

/// Relies on `hashbrown::HashMap::get`: the value of `k`, if `k` is a key.
#[verifier::external_body]
fn cid_map_get(m: &CidMap, k: CId) -> (r: Option<PeerAddr>)
    ensures
        r == (if cid_map(*m).contains_key(k) { Some(cid_map(*m)[k]) } else { None::<PeerAddr> }),
{
    m.map.get(&k).copied()
}

/// Relies on `hashbrown::HashMap::get`: the value of `k`, if `k` is a key.
#[verifier::external_body]
fn addr_map_get(m: &AddrMap, k: AddrKey) -> (r: Option<CId>)
    ensures
        r == (if addr_map(*m).contains_key(k) { Some(addr_map(*m)[k]) } else { None::<CId> }),
{
    m.map.get(&k).copied()
}

/// Relies on `hashbrown::HashMap::len`: the number of entries.
#[verifier::external_body]
fn cid_map_len(m: &CidMap) -> (r: usize)
    ensures
        r == cid_map(*m).dom().len(),
{
    m.map.len()
}

/// Relies on `hashbrown::HashMap::keys`: every key once, in an order that the map decides.
#[verifier::external_body]
fn cid_map_keys(m: &CidMap) -> (r: Vec<CId>)
    ensures
        r@.no_duplicates(),
        r@.to_set() == cid_map(*m).dom(),
{
    m.map.keys().copied().collect()
}

/// The connection ids of a list of connections.
pub open spec fn cids_of(s: Seq<(CId, PeerAddr)>) -> Seq<CId> {
    s.map_values(|p: (CId, PeerAddr)| p.0)
}

/// The abstract state of a [`ConnectionList`].
pub ghost struct ConnectionListState {
    /// The next [`CId`] to hand out.
    pub current_cid: CId,
    /// The live connections: the address of each connected [`CId`].
    pub conns: Map<CId, PeerAddr>,
    /// The connections waiting for an answer, oldest first, with their connection message.
    pub pending: Seq<(CId, PeerAddr, Vec<u8>)>,
}

impl ConnectionListState {
    /// Whether `cid` is connected.
    pub open spec fn has_cid(self, cid: CId) -> bool {
        self.conns.contains_key(cid)
    }

    /// Whether `addr` is connected.
    pub open spec fn has_addr(self, addr: PeerAddr) -> bool {
        exists|c: CId| #[trigger] self.conns.contains_key(c) && self.conns[c] == addr
    }

    /// Each address appears in at most one connection, and every [`CId`] handed out is
    /// below `current_cid`.
    pub open spec fn wf(self) -> bool {
        &&& self.conns.dom().finite()
        &&& forall|c1: CId, c2: CId|
            self.conns.contains_key(c1) && self.conns.contains_key(c2) && self.conns[c1] == self.conns[c2] ==> c1 == c2
        &&& forall|c: CId| #[trigger] self.conns.contains_key(c) ==> c < self.current_cid
        &&& forall|i: int| 0 <= i < self.pending.len() ==> (#[trigger] self.pending[i]).0 < self.current_cid
        &&& self.current_cid >= 1
    }
}

/// Maps connection ids to peer addresses and back, and queues pending connections.
/// Both directions are hash maps, kept inverse to each other.
pub struct ConnectionList {
    current_cid: CId,
    cid_addr: CidMap,
    addr_cid: AddrMap,
    pending_connections: Vec<(CId, PeerAddr, Vec<u8>)>,
}

impl View for ConnectionList {
    type V = ConnectionListState;

    closed spec fn view(&self) -> ConnectionListState {
        ConnectionListState {
            current_cid: self.current_cid,
            conns: cid_map(self.cid_addr),
            pending: self.pending_connections@,
        }
    }
}

impl ConnectionList {
    /// The two maps are inverse to each other.
    pub closed spec fn inv(&self) -> bool {
        &&& self@.wf()
        &&& addr_map(self.addr_cid).dom().finite()
        &&& forall|c: CId| #[trigger] cid_map(self.cid_addr).contains_key(c) ==> addr_map(self.addr_cid).contains_key(
            key_of(cid_map(self.cid_addr)[c]),
        ) && addr_map(self.addr_cid)[key_of(cid_map(self.cid_addr)[c])] == c
        &&& forall|k: AddrKey| #[trigger] addr_map(self.addr_cid).contains_key(k) ==> cid_map(self.cid_addr).contains_key(
            addr_map(self.addr_cid)[k],
        ) && key_of(cid_map(self.cid_addr)[addr_map(self.addr_cid)[k]]) == k
    }

    /// A valid directory's state is valid.
    pub proof fn lemma_inv(&self)
        requires
            self.inv(),
        ensures
            self@.wf(),
    {
    }

    /// Creates an empty directory; the first [`CId`] handed out is 1.
    pub fn new() -> (r: Self)
        ensures
            r.inv(),
            r@.current_cid == 1,
            r@.conns.dom() == Set::<CId>::empty(),
            r@.pending.len() == 0,
    {
        let r = ConnectionList {
            current_cid: 1,
            cid_addr: cid_map_new(),
            addr_cid: addr_map_new(),
            pending_connections: Vec::new(),
        };
        r
    }

    /// The [`CId`] connected at `addr`, if any.
    fn lookup_addr(&self, addr: PeerAddr) -> (r: Option<CId>)
        requires
            self.inv(),
        ensures
            r is None <==> !self@.has_addr(addr),
            r is Some ==> self@.conns.contains_key(r->Some_0) && self@.conns[r->Some_0] == addr,
    {
        let r = addr_map_get(&self.addr_cid, (addr.ip, addr.port));
        proof {
            if self@.has_addr(addr) {
                let c = choose|c: CId| #[trigger] self@.conns.contains_key(c) && self@.conns[c] == addr;
                assert(addr_map(self.addr_cid).contains_key(key_of(cid_map(self.cid_addr)[c])));
            }
            if r is Some {
                let k = (addr.ip, addr.port);
                assert(addr_map(self.addr_cid).contains_key(k));
                let c = addr_map(self.addr_cid)[k];
                assert(key_of(cid_map(self.cid_addr)[c]) == k);
                assert(cid_map(self.cid_addr)[c] == addr);
            }
        }
        r
    }

    /// Queues a new pending connection from `addr` with its connection message, and returns
    /// the fresh [`CId`] it was given. A pending connection is not connected yet.
    /// Fails with `AlreadyConnected` when `addr` is connected, and with `CIdsExhausted` when
    /// every [`CId`] was handed out.
    pub fn new_pending(&mut self, addr: PeerAddr, connection_msg: Vec<u8>) -> (r: Result<CId, ConnectionListError>)
        requires
            old(self).inv(),
        ensures
            final(self).inv(),
            old(self)@.has_addr(addr) ==> r == Err::<CId, ConnectionListError>(ConnectionListError::AlreadyConnected)
                && final(self)@ == old(self)@,
            !old(self)@.has_addr(addr) && old(self)@.current_cid == u32::MAX ==> r == Err::<CId, ConnectionListError>(
                ConnectionListError::CIdsExhausted,
            ) && final(self)@ == old(self)@,
            !old(self)@.has_addr(addr) && old(self)@.current_cid < u32::MAX ==> r == Ok::<CId, ConnectionListError>(
                old(self)@.current_cid,
            ) && final(self)@ == (ConnectionListState {
                current_cid: (old(self)@.current_cid + 1) as CId,
                pending: old(self)@.pending.push((old(self)@.current_cid, addr, connection_msg)),
                ..old(self)@
            }),
    {
        if self.lookup_addr(addr).is_some() {
            return Err(ConnectionListError::AlreadyConnected);
        }
        if self.current_cid == u32::MAX {
            return Err(ConnectionListError::CIdsExhausted);
        }
        let cid = self.current_cid;
        self.current_cid = cid + 1;
        self.pending_connections.push((cid, addr, connection_msg));
        Ok(cid)
    }

    /// Takes the oldest pending connection, if there is one.
    pub fn get_pending(&mut self) -> (r: Option<(CId, PeerAddr, Vec<u8>)>)
        requires
            old(self).inv(),
        ensures
            final(self).inv(),
            old(self)@.pending.len() == 0 ==> r is None && final(self)@ == old(self)@,
            old(self)@.pending.len() > 0 ==> r == Some(old(self)@.pending[0]) && final(self)@ == (
            ConnectionListState { pending: old(self)@.pending.drop_first(), ..old(self)@ }),
    {
        if self.pending_connections.len() == 0 {
            return None;
        }
        let p = self.pending_connections.remove(0);
        proof {
            assert(self@.pending =~= old(self)@.pending.drop_first());
        }
        Some(p)
    }

    /// Adds the connection of `cid` to `addr`. Fails with `AlreadyConnected` when either
    /// is connected.
    pub fn new_connection(&mut self, cid: CId, addr: PeerAddr) -> (r: Result<(), ConnectionListError>)
        requires
            old(self).inv(),
            cid < old(self)@.current_cid,
        ensures
            final(self).inv(),
            old(self)@.has_cid(cid) || old(self)@.has_addr(addr) ==> r == Err::<(), ConnectionListError>(
                ConnectionListError::AlreadyConnected,
            ) && final(self)@ == old(self)@,
            !old(self)@.has_cid(cid) && !old(self)@.has_addr(addr) ==> r is Ok && final(self)@ == (
            ConnectionListState { conns: old(self)@.conns.insert(cid, addr), ..old(self)@ }),
    {
        if cid_map_get(&self.cid_addr, cid).is_some() || self.lookup_addr(addr).is_some() {
            return Err(ConnectionListError::AlreadyConnected);
        }
        proof {
            assert(!addr_map(self.addr_cid).contains_key(key_of(addr))) by {
                if addr_map(self.addr_cid).contains_key(key_of(addr)) {
                    let c = addr_map(self.addr_cid)[key_of(addr)];
                    assert(key_of(cid_map(self.cid_addr)[c]) == key_of(addr));
                    assert(self@.conns[c] == addr);
                }
            }
        }
        cid_map_insert(&mut self.cid_addr, cid, addr);
        addr_map_insert(&mut self.addr_cid, (addr.ip, addr.port), cid);
        proof {
            let f = cid_map(self.cid_addr);
            let b = addr_map(self.addr_cid);
            assert forall|c: CId| #[trigger] f.contains_key(c) implies b.contains_key(key_of(f[c])) && b[key_of(f[c])] == c by {
                if c != cid {
                    assert(key_of(f[c]) != key_of(addr));
                }
            }
            assert forall|k: AddrKey| #[trigger] b.contains_key(k) implies f.contains_key(b[k]) && key_of(f[b[k]]) == k by {
                if k != key_of(addr) {
                    assert(b[k] != cid);
                }
            }
            assert(self@.wf());
        }
        Ok(())
    }

    /// Removes the connection of `cid` and returns its address, if it had one.
    fn remove_cid(&mut self, cid: CId) -> (r: Option<PeerAddr>)
        requires
            old(self).inv(),
        ensures
            final(self).inv(),
            final(self)@ == (ConnectionListState { conns: old(self)@.conns.remove(cid), ..old(self)@ }),
            r == (if old(self)@.has_cid(cid) { Some(old(self)@.conns[cid]) } else { None::<PeerAddr> }),
    {
        let r = cid_map_remove(&mut self.cid_addr, cid);
        match r {
            Some(addr) => {
                addr_map_remove(&mut self.addr_cid, (addr.ip, addr.port));
                proof {
                    let f = cid_map(self.cid_addr);
                    let b = addr_map(self.addr_cid);
                    let f0 = cid_map(old(self).cid_addr);
                    assert forall|c: CId| #[trigger] f.contains_key(c) implies b.contains_key(key_of(f[c])) && b[key_of(f[c])] == c by {
                        assert(f0[c] != addr);
                        assert(f0.contains_key(c));
                    }
                    assert(self@.wf());
                }
            },
            None => {},
        }
        r
    }

    /// Removes the connection of `cid`. Fails with `NotConnected` when `cid` is not connected.
    pub fn remove_connection(&mut self, cid: CId) -> (r: Result<(), ConnectionListError>)
        requires
            old(self).inv(),
        ensures
            final(self).inv(),
            !old(self)@.has_cid(cid) ==> r == Err::<(), ConnectionListError>(ConnectionListError::NotConnected)
                && final(self)@ == old(self)@,
            old(self)@.has_cid(cid) ==> r is Ok && final(self)@ == (ConnectionListState {
                conns: old(self)@.conns.remove(cid), ..old(self)@ }),
    {
        if cid_map_get(&self.cid_addr, cid).is_none() {
            return Err(ConnectionListError::NotConnected);
        }
        self.remove_cid(cid);
        Ok(())
    }

    /// Removes the connection of `cid`, and says whether there was one.
    pub fn disconnect(&mut self, cid: CId) -> (r: bool)
        requires
            old(self).inv(),
        ensures
            final(self).inv(),
            r == old(self)@.has_cid(cid),
            final(self)@ == (ConnectionListState { conns: old(self)@.conns.remove(cid), ..old(self)@ }),
    {
        self.remove_cid(cid).is_some()
    }

    /// The number of live connections.
    pub fn connection_count(&self) -> (r: usize)
        ensures
            r == self@.conns.dom().len(),
    {
        cid_map_len(&self.cid_addr)
    }

    /// Whether `cid` is connected.
    pub fn cid_connected(&self, cid: CId) -> (r: bool)
        ensures
            r == self@.has_cid(cid),
    {
        cid_map_get(&self.cid_addr, cid).is_some()
    }

    /// Whether `addr` is connected.
    pub fn addr_connected(&self, addr: PeerAddr) -> (r: bool)
        requires
            self.inv(),
        ensures
            r == self@.has_addr(addr),
    {
        self.lookup_addr(addr).is_some()
    }

    /// The address of `cid`, if it is connected.
    pub fn addr_of(&self, cid: CId) -> (r: Option<PeerAddr>)
        ensures
            r == (if self@.has_cid(cid) { Some(self@.conns[cid]) } else { None::<PeerAddr> }),
    {
        cid_map_get(&self.cid_addr, cid)
    }

    /// The [`CId`] of `addr`, if it is connected.
    pub fn cid_of(&self, addr: PeerAddr) -> (r: Option<CId>)
        requires
            self.inv(),
        ensures
            r is None <==> !self@.has_addr(addr),
            r is Some ==> self@.conns.contains_key(r->Some_0) && self@.conns[r->Some_0] == addr,
    {
        self.lookup_addr(addr)
    }

    /// The connected [`CId`]s, each once, in no particular order.
    pub fn cids(&self) -> (r: Vec<CId>)
        ensures
            r@.no_duplicates(),
            r@.to_set() == self@.conns.dom(),
    {
        cid_map_keys(&self.cid_addr)
    }

    /// The live connections, each once, in no particular order.
    pub fn pairs(&self) -> (r: Vec<(CId, PeerAddr)>)
        ensures
            cids_of(r@).no_duplicates(),
            cids_of(r@).to_set() == self@.conns.dom(),
            forall|i: int| 0 <= i < r@.len() ==> self@.conns[(#[trigger] r@[i]).0] == r@[i].1,
    {
        let keys = cid_map_keys(&self.cid_addr);
        let mut out: Vec<(CId, PeerAddr)> = Vec::new();
        let mut i: usize = 0;
        while i < keys.len()
            invariant
                i <= keys@.len(),
                keys@.to_set() == self@.conns.dom(),
                cids_of(out@) == keys@.subrange(0, i as int),
                forall|j: int| 0 <= j < out@.len() ==> self@.conns[(#[trigger] out@[j]).0] == out@[j].1,
            decreases keys@.len() - i,
        {
            let c = keys[i];
            assert(keys@.to_set().contains(c));
            let a = match cid_map_get(&self.cid_addr, c) {
                Some(a) => a,
                None => PeerAddr { ip: 0, port: 0 },
            };
            let ghost before = out@;
            let ghost i0 = i;
            out.push((c, a));
            i += 1;
            proof {
                assert(cids_of(out@) =~= cids_of(before).push(c));
                assert(keys@.subrange(0, i as int) =~= keys@.subrange(0, i0 as int).push(c));
            }
        }
        assert(keys@.subrange(0, i as int) =~= keys@);
        out
    }

    /// The connected addresses, in the order of [`pairs`](Self::pairs).
    pub fn addrs(&self) -> (r: Vec<PeerAddr>)
        ensures
            forall|a: PeerAddr| r@.contains(a) <==> self@.has_addr(a),
    {
        let pairs = self.pairs();
        let mut out: Vec<PeerAddr> = Vec::new();
        let mut i: usize = 0;
        while i < pairs.len()
            invariant
                i <= pairs@.len(),
                out@ == pairs@.subrange(0, i as int).map_values(|p: (CId, PeerAddr)| p.1),
            decreases pairs@.len() - i,
        {
            out.push(pairs[i].1);
            i += 1;
            assert(out@ =~= pairs@.subrange(0, i as int).map_values(|p: (CId, PeerAddr)| p.1));
        }
        proof {
            assert(pairs@.subrange(0, i as int) =~= pairs@);
            assert forall|a: PeerAddr| out@.contains(a) <==> self@.has_addr(a) by {
                if out@.contains(a) {
                    let j = choose|j: int| 0 <= j < out@.len() && out@[j] == a;
                    let c = pairs@[j].0;
                    assert(cids_of(pairs@)[j] == c);
                    assert(cids_of(pairs@).to_set().contains(c));
                    assert(self@.conns.contains_key(c) && self@.conns[c] == a);
                }
                if self@.has_addr(a) {
                    let c = choose|c: CId| #[trigger] self@.conns.contains_key(c) && self@.conns[c] == a;
                    assert(cids_of(pairs@).to_set().contains(c));
                    let ks = cids_of(pairs@);
                    assert(ks.contains(c));
                    let j = choose|j: int| 0 <= j < ks.len() && #[trigger] ks[j] == c;
                    assert(pairs@[j].0 == c);
                    assert(out@[j] == a);
                }
            }
        }
        out
    }
}

} // verus!
