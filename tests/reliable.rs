use carrier_pigeon::message_table::{Guarantees, MsgTable};
use carrier_pigeon::net::MsgHeader;
use carrier_pigeon::reliable::ReliableSystem;

fn system() -> ReliableSystem {
    let mut t = MsgTable::new();
    t.register_custom(100, Guarantees::ReliableOrdered).unwrap();
    t.register_custom(101, Guarantees::UnreliableNewest).unwrap();
    t.register_custom(102, Guarantees::Unreliable).unwrap();
    ReliableSystem::new(&t.build(1, 2, 3, 4).unwrap())
}

#[test]
fn unreliable_newest_drops_stale_messages() {
    let mut r = system();
    r.push_received(MsgHeader::new(8, 5, 0, 0, 0), vec![5]);
    r.push_received(MsgHeader::new(8, 3, 1, 0, 0), vec![3]);
    r.push_received(MsgHeader::new(8, 6, 2, 0, 0), vec![6]);
    let got: Vec<Vec<u8>> = r.get_received().into_iter().map(|(_, b)| b).collect();
    assert_eq!(got, vec![vec![5], vec![6]]);
}

#[test]
fn unordered_first_then_ordered_by_type() {
    let mut r = system();
    r.push_received(MsgHeader::new(7, 1, 0, 0, 0), vec![1]);
    r.push_received(MsgHeader::new(9, 0, 1, 0, 0), vec![9]);
    r.push_received(MsgHeader::new(7, 0, 2, 0, 0), vec![0]);
    let got: Vec<(usize, u16)> = r.get_received().iter().map(|(h, _)| (h.m_type, h.order_num)).collect();
    assert_eq!(got, vec![(9, 0), (7, 0), (7, 1)]);
    assert!(r.get_received().is_empty());
}

#[test]
fn send_headers_count_per_type() {
    let mut r = system();
    let a = r.get_send_header(7);
    let b = r.get_send_header(9);
    let c = r.get_send_header(7);
    assert_eq!((a.sender_ack_num, a.order_num), (0, 0));
    assert_eq!((b.sender_ack_num, b.order_num), (1, 0));
    assert_eq!((c.sender_ack_num, c.order_num), (2, 1));
}

#[test]
fn received_numbers_are_acknowledged_in_headers() {
    let mut r = system();
    r.push_received(MsgHeader::new(9, 0, 4, 0, 0), vec![]);
    let h = r.get_send_header(9);
    assert_eq!((h.receiver_acking_offset, h.ack_bits), (0, 1 << 4));
    let ack = r.get_ack_msg().unwrap();
    assert_eq!(ack.ack_offset, 0);
    assert_eq!(ack.bitfields, vec![1 << 4]);
    // advertised twice now: no dedicated message is needed
    assert!(r.get_ack_msg().is_none());
}

#[test]
fn saved_messages_are_retired_by_acks() {
    let mut r = system();
    let h = r.get_send_header(7);
    r.save(h, Guarantees::ReliableOrdered, vec![1], 0);
    assert!(r.is_saved(h.sender_ack_num));
    r.push_received(MsgHeader::new(9, 0, 0, h.sender_ack_num, 1), vec![]);
    assert!(!r.is_saved(h.sender_ack_num));
    assert!(r.get_resend(10_000).is_empty());
}
