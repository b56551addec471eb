use carrier_pigeon::connection_list::{ConnectionList, ConnectionListError, PeerAddr};

fn addr(port: u16) -> PeerAddr {
    PeerAddr { ip: 0xffff_7f00_0001, port }
}

#[test]
fn directory_maps_both_ways() {
    let mut l = ConnectionList::new();
    let c1 = l.new_pending(addr(1), vec![1]).unwrap();
    let c2 = l.new_pending(addr(2), vec![2]).unwrap();
    assert_eq!((c1, c2), (1, 2));
    assert!(!l.cid_connected(c1));
    assert_eq!(l.get_pending(), Some((1, addr(1), vec![1])));
    l.new_connection(c1, addr(1)).unwrap();
    assert!(l.cid_connected(1));
    assert!(l.addr_connected(addr(1)));
    assert_eq!(l.addr_of(1), Some(addr(1)));
    assert_eq!(l.cid_of(addr(1)), Some(1));
    assert_eq!(l.connection_count(), 1);
    assert_eq!(l.new_connection(c2, addr(1)), Err(ConnectionListError::AlreadyConnected));
    assert_eq!(l.new_pending(addr(1), vec![]), Err(ConnectionListError::AlreadyConnected));
    l.new_connection(c2, addr(2)).unwrap();
    let mut cids = l.cids();
    cids.sort();
    assert_eq!(cids, vec![1, 2]);
    let mut addrs = l.addrs();
    addrs.sort_by_key(|a| a.port);
    assert_eq!(addrs, vec![addr(1), addr(2)]);
    let mut pairs = l.pairs();
    pairs.sort_by_key(|p| p.0);
    assert_eq!(pairs, vec![(1, addr(1)), (2, addr(2))]);
    assert_eq!(l.remove_connection(1), Ok(()));
    assert_eq!(l.remove_connection(1), Err(ConnectionListError::NotConnected));
    assert!(l.disconnect(2));
    assert!(!l.disconnect(2));
    assert_eq!(l.connection_count(), 0);
    // ids are never handed out twice
    assert_eq!(l.new_pending(addr(1), vec![]), Ok(3));
}
