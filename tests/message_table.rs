use carrier_pigeon::message_table::{
    Guarantees, MsgRegError, MsgTable, SortedMsgTable, ACCEPT_M_TYPE, CONNECTION_M_TYPE,
    DISCONNECT_M_TYPE, FIRST_USER_M_TYPE, REJECT_M_TYPE,
};

#[test]
fn build_assigns_fixed_slots() {
    let mut t = MsgTable::new();
    t.register_custom(100, Guarantees::ReliableOrdered).unwrap();
    t.register_custom(101, Guarantees::Unreliable).unwrap();
    let parts = t.build(1, 2, 3, 4).unwrap();
    assert_eq!(parts.mid_count(), 9);
    assert_eq!(parts.mtype_of(1), Some(CONNECTION_M_TYPE));
    assert_eq!(parts.mtype_of(2), Some(ACCEPT_M_TYPE));
    assert_eq!(parts.mtype_of(3), Some(REJECT_M_TYPE));
    assert_eq!(parts.mtype_of(4), Some(DISCONNECT_M_TYPE));
    assert_eq!(parts.mtype_of(100), Some(FIRST_USER_M_TYPE));
    assert_eq!(parts.mtype_of(101), Some(8));
    assert_eq!(parts.mtype_of(5), None);
    assert!(parts.valid_tid(101));
    assert!(!parts.valid_tid(102));
    assert_eq!(parts.guarantees(7), Guarantees::ReliableOrdered);
    assert_eq!(parts.guarantees(8), Guarantees::Unreliable);
    assert_eq!(parts.type_key(7), Some(100));
    assert_eq!(parts.type_key(5), None);
    assert!(parts.valid_mid(8));
    assert!(!parts.valid_mid(9));
    assert!(!parts.valid_mid(0));
}

#[test]
fn duplicate_type_is_refused() {
    let mut t = MsgTable::new();
    t.register_custom(100, Guarantees::Reliable).unwrap();
    assert_eq!(
        t.register_custom(100, Guarantees::Unreliable),
        Err(MsgRegError::TypeAlreadyRegistered)
    );
    assert!(t.clone().build(100, 2, 3, 4).is_err());
    assert!(t.clone().build(1, 1, 3, 4).is_err());
    assert!(t.build(1, 2, 3, 4).is_ok());
}

#[test]
fn sorted_table_orders_by_identifier() {
    let mut a = SortedMsgTable::new();
    a.register_custom("zeta", 30, Guarantees::Reliable).unwrap();
    a.register_custom("alpha", 10, Guarantees::Unreliable).unwrap();
    a.register_custom("mid", 20, Guarantees::ReliableNewest).unwrap();
    let mut b = SortedMsgTable::new();
    b.register_custom("mid", 20, Guarantees::ReliableNewest).unwrap();
    b.register_custom("alpha", 10, Guarantees::Unreliable).unwrap();
    b.register_custom("zeta", 30, Guarantees::Reliable).unwrap();
    let pa = a.build(1, 2, 3, 4).unwrap();
    let pb = b.build(1, 2, 3, 4).unwrap();
    for (key, m) in [(10, 7), (20, 8), (30, 9)] {
        assert_eq!(pa.mtype_of(key), Some(m));
        assert_eq!(pb.mtype_of(key), Some(m));
    }
    assert_eq!(pa.guarantees(8), Guarantees::ReliableNewest);
}

#[test]
fn sorted_table_refuses_duplicates() {
    let mut t = SortedMsgTable::new();
    t.register_custom("a", 1, Guarantees::Reliable).unwrap();
    assert_eq!(
        t.register_custom("a", 2, Guarantees::Reliable),
        Err(MsgRegError::NonUniqueIdentifier)
    );
    assert_eq!(
        t.register_custom("b", 1, Guarantees::Reliable),
        Err(MsgRegError::TypeAlreadyRegistered)
    );
    assert!(t.build(1, 5, 6, 7).is_err());
}

#[test]
fn guarantees_reliability() {
    assert!(Guarantees::Reliable.reliable());
    assert!(Guarantees::ReliableOrdered.reliable());
    assert!(Guarantees::ReliableNewest.reliable());
    assert!(Guarantees::Unreliable.unreliable());
    assert!(Guarantees::UnreliableNewest.unreliable());
}
