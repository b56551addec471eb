use carrier_pigeon::net::{CIdSpec, Status, TransportError, TransportErrorKind};

#[test]
fn status_predicates() {
    assert!(Status::NotConnected.is_not_connected());
    assert!(Status::Connecting.is_connecting());
    assert!(Status::Accepted(vec![]).is_accepted());
    assert!(Status::Rejected(vec![]).is_rejected());
    assert!(Status::Connected.is_connected());
    assert!(Status::Disconnected(vec![]).is_disconnected());
    assert!(Status::Disconnecting(3).is_disconnecting());
    let e = TransportError { kind: TransportErrorKind::Other, message: "x".to_string() };
    assert!(Status::Dropped(e.clone()).is_dropped());
    assert_eq!(Status::Dropped(e.clone()).unwrap_dropped(), Some(e.clone()));
    assert_eq!(Status::Connected.unwrap_dropped(), None);
    assert_eq!(Status::Accepted(vec![1]).unwrap_accepted_dyn(), Some(vec![1]));
    assert_eq!(Status::Connected.unwrap_accepted_dyn(), None);
    assert_eq!(Status::Disconnected(vec![2]).unwrap_disconnected_dyn(), Some(vec![2]));
    assert_eq!(Status::Disconnected(vec![2]).disconnected_dyn(), Some(&vec![2]));
    assert_eq!(Status::Connected.disconnected_dyn(), None);
}

#[test]
fn cid_spec_matching() {
    assert!(CIdSpec::All.matches(4));
    assert!(!CIdSpec::Nothing.matches(4));
    assert!(CIdSpec::Except(3).matches(4));
    assert!(!CIdSpec::Except(4).matches(4));
    assert!(CIdSpec::Only(4).matches(4));
    assert!(CIdSpec::Only(1).overlaps(CIdSpec::Except(2)));
    assert!(!CIdSpec::Only(2).overlaps(CIdSpec::Except(2)));
    assert!(CIdSpec::Except(0).overlaps(CIdSpec::Except(1)));
    assert!(!CIdSpec::Only(1).overlaps(CIdSpec::Only(2)));
    assert!(!CIdSpec::All.overlaps(CIdSpec::Nothing));
    assert!(CIdSpec::All.overlaps(CIdSpec::Only(9)));
}
