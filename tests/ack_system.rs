use carrier_pigeon::ack_system::AckSystem;
use carrier_pigeon::message_table::Guarantees::{Reliable, ReliableNewest, Unreliable};
use carrier_pigeon::net::{AckNum, MsgHeader};

#[test]
fn test_mark_received() {
    let mut ack_system = AckSystem::new();

    ack_system.mark_received(0);
    assert_eq!(ack_system.bitfield_count(), 1);
    assert_eq!(ack_system.bitfield(0).send_count, 0);
    assert_eq!(ack_system.ack_offset(), 0); // default
    assert_eq!(ack_system.bitfield(0).bitfield, 1 << 0);

    ack_system.mark_received(8);
    assert_eq!(ack_system.bitfield_count(), 1);
    assert_eq!(ack_system.bitfield(0).send_count, 0);
    assert_eq!(ack_system.ack_offset(), 0); // default
    assert_eq!(ack_system.bitfield(0).bitfield, 1 << 8 | 1 << 0);
    assert_eq!(ack_system.next_header(), (0, 1 << 8 | 1 << 0));
    assert_eq!(ack_system.bitfield(0).send_count, 1);

    ack_system.mark_received(32 + 6);
    assert_eq!(ack_system.bitfield_count(), 2);
    assert_eq!(ack_system.ack_offset(), 32);
    assert_eq!(ack_system.bitfield(0).bitfield, 1 << 6);
    assert_eq!(ack_system.bitfield(0).send_count, 0);
    assert_eq!(ack_system.next_header(), (32, 1 << 6));
    assert_eq!(ack_system.bitfield(0).send_count, 1);
}

#[test]
fn test_save_ack() {
    let mut ack_system = AckSystem::new();

    ack_system.save_msg(MsgHeader::new(1, 0, 10, 0, 0), Reliable, vec![], 0);
    assert_eq!(ack_system.saved_count(), 1);
    ack_system.save_msg(MsgHeader::new(1, 0, 11, 0, 0), Reliable, vec![], 0);
    assert_eq!(ack_system.saved_count(), 2);
    ack_system.mark_outgoing(10);
    assert_eq!(ack_system.saved_count(), 1);
    ack_system.mark_outgoing(11);
    assert_eq!(ack_system.saved_count(), 0);

    // check out of order ack
    ack_system.save_msg(MsgHeader::new(1, 0, 20, 0, 0), Reliable, vec![], 0);
    ack_system.save_msg(MsgHeader::new(1, 0, 21, 0, 0), Reliable, vec![], 0);
    ack_system.save_msg(MsgHeader::new(1, 0, 22, 0, 0), Reliable, vec![], 0);
    assert_eq!(ack_system.saved_count(), 3);
    ack_system.mark_outgoing(22);
    assert_eq!(ack_system.saved_count(), 2);
    ack_system.mark_outgoing(21);
    assert_eq!(ack_system.saved_count(), 1);
    ack_system.mark_outgoing(20);
    assert_eq!(ack_system.saved_count(), 0);

    // check mark_bitfield
    ack_system.save_msg(MsgHeader::new(1, 0, 32, 0, 0), Reliable, vec![], 0);
    ack_system.save_msg(MsgHeader::new(1, 0, 33, 0, 0), Reliable, vec![], 0);
    ack_system.save_msg(MsgHeader::new(1, 0, 34, 0, 0), Reliable, vec![], 0);
    ack_system.save_msg(MsgHeader::new(1, 0, 63, 0, 0), Reliable, vec![], 0);
    assert_eq!(ack_system.saved_count(), 4);
    ack_system.mark_bitfield(32, 1 << 0 | 1 << 1 | 1 << 2 | 1 << 31);
    assert_eq!(ack_system.saved_count(), 0);
}

#[test]
fn newest() {
    let mut ack_system = AckSystem::new();

    ack_system.save_msg(MsgHeader::new(1, 0, 10, 0, 0), ReliableNewest, vec![], 0);
    assert_eq!(ack_system.saved_count(), 1);
    ack_system.save_msg(MsgHeader::new(1, 0, 11, 0, 0), ReliableNewest, vec![], 0);
    assert_eq!(ack_system.saved_count(), 1);
    ack_system.save_msg(MsgHeader::new(1, 0, 12, 0, 0), ReliableNewest, vec![], 0);
    assert_eq!(ack_system.saved_count(), 1);
    ack_system.mark_outgoing(12);
    assert_eq!(ack_system.saved_count(), 0);
}

#[test]
fn header_ack_after_two_receipts() {
    let mut a = AckSystem::new();
    a.mark_received(0);
    a.mark_received(8);
    assert_eq!(a.next_header(), (0, 0x0000_0101));
}

#[test]
fn window_slides_forward() {
    let mut a = AckSystem::new();
    a.mark_received(0);
    a.mark_received(8);
    a.mark_received(38);
    assert_eq!(a.ack_offset(), 32);
    assert_eq!(a.bitfield(0).bitfield, 1 << 6);
    // the older bitfield stays behind the front one
    assert_eq!(a.bitfield(1).bitfield, 0x0000_0101);
}

#[test]
fn acks_retire_saved_messages() {
    let mut a = AckSystem::new();
    a.save_msg(MsgHeader::new(7, 0, 10, 0, 0), Reliable, vec![1], 0);
    a.save_msg(MsgHeader::new(7, 1, 11, 0, 0), Reliable, vec![2], 0);
    a.mark_outgoing(10);
    assert!(!a.is_saved(10));
    assert!(a.is_saved(11));
    assert_eq!(a.saved_count(), 1);
    a.mark_bitfield(0, 1 << 11);
    assert_eq!(a.saved_count(), 0);
    assert!(!a.is_saved(11));
}

#[test]
fn newest_replaces_saved() {
    let mut a = AckSystem::new();
    a.save_msg(MsgHeader::new(7, 0, 10, 0, 0), ReliableNewest, vec![], 0);
    a.save_msg(MsgHeader::new(7, 1, 11, 0, 0), ReliableNewest, vec![], 0);
    assert_eq!(a.saved_count(), 1);
    assert!(a.is_saved(11));
    assert!(!a.is_saved(10));
}

#[test]
fn newest_keeps_other_types() {
    let mut a = AckSystem::new();
    a.save_msg(MsgHeader::new(8, 0, 9, 0, 0), ReliableNewest, vec![], 0);
    a.save_msg(MsgHeader::new(7, 0, 10, 0, 0), ReliableNewest, vec![], 0);
    a.save_msg(MsgHeader::new(7, 1, 11, 0, 0), ReliableNewest, vec![], 0);
    assert_eq!(a.saved_count(), 2);
    assert!(a.is_saved(9));
    assert!(a.is_saved(11));
}

#[test]
fn unreliable_is_not_saved() {
    let mut a = AckSystem::new();
    a.save_msg(MsgHeader::new(7, 0, 10, 0, 0), Unreliable, vec![], 0);
    assert_eq!(a.saved_count(), 0);
}

#[test]
fn resends_once_per_interval() {
    let mut a = AckSystem::new();
    a.save_msg(MsgHeader::new(7, 0, 3, 0, 0), Reliable, vec![9, 8, 7], 0);
    let first = a.get_resend(1001);
    assert_eq!(first.len(), 1);
    assert_eq!(first[0].0, MsgHeader::new(7, 0, 3, 0, 0));
    assert_eq!(first[0].1, vec![9, 8, 7]);
    assert_eq!(a.get_resend(1002).len(), 0);
    assert_eq!(a.get_resend(2002).len(), 1);
}

#[test]
fn resend_waits_for_the_interval() {
    let mut a = AckSystem::new();
    a.save_msg(MsgHeader::new(7, 0, 3, 0, 0), Reliable, vec![], 500);
    assert_eq!(a.get_resend(1500).len(), 0);
    assert_eq!(a.get_resend(1501).len(), 1);
}

#[test]
fn mark_bitfield_twice_is_once() {
    let mut once = AckSystem::new();
    let mut twice = AckSystem::new();
    for n in [5u16, 6, 40, 70] {
        once.save_msg(MsgHeader::new(7, 0, n, 0, 0), Reliable, vec![], 0);
        twice.save_msg(MsgHeader::new(7, 0, n, 0, 0), Reliable, vec![], 0);
    }
    once.mark_bitfield(4, 0b11 | 1 << 31);
    twice.mark_bitfield(4, 0b11 | 1 << 31);
    twice.mark_bitfield(4, 0b11 | 1 << 31);
    assert_eq!(once.saved_count(), twice.saved_count());
    for n in [5u16, 6, 35, 40, 70] {
        assert_eq!(once.is_saved(n), twice.is_saved(n));
    }
    // bits 0 and 1 acknowledge 4 and 5, bit 31 acknowledges 35
    assert_eq!(once.saved_count(), 3);
    assert!(!once.is_saved(5));
    assert!(once.is_saved(6) && once.is_saved(40) && once.is_saved(70));
}

#[test]
fn mark_bitfield_wraps() {
    let mut a = AckSystem::new();
    a.save_msg(MsgHeader::new(7, 0, 65535, 0, 0), Reliable, vec![], 0);
    a.save_msg(MsgHeader::new(7, 0, 1, 0, 0), Reliable, vec![], 0);
    a.mark_bitfield(65534, 1 << 1 | 1 << 3);
    assert_eq!(a.saved_count(), 0);
}

fn acked(a: &AckSystem, n: AckNum) -> bool {
    if a.residual().contains(&n) {
        return true;
    }
    (0..a.bitfield_count()).any(|k| {
        let base = a.ack_offset().wrapping_sub((32 * k) as u16);
        let pos = n.wrapping_sub(base);
        pos < 32 && a.bitfield(k).bitfield & (1 << pos) != 0
    })
}

#[test]
fn window_covers_every_received_number() {
    let mut a = AckSystem::new();
    let nums: [AckNum; 8] = [40, 3, 100, 65, 1, 99, 7, 64];
    for n in nums {
        a.mark_received(n);
    }
    for n in nums {
        assert!(acked(&a, n), "{} is not acknowledged", n);
    }
    assert!(!acked(&a, 2));
}

#[test]
fn old_numbers_go_to_the_residual() {
    let mut a = AckSystem::new();
    a.mark_received(0);
    // advertise the only bitfield twice, so that it may leave the window
    a.next_header();
    a.next_header();
    a.mark_received(40);
    assert_eq!(a.bitfield_count(), 1);
    assert_eq!(a.ack_offset(), 32);
    a.mark_received(5);
    assert_eq!(a.residual(), &vec![5]);
}

#[test]
fn bitfields_leave_only_after_two_sends() {
    let mut a = AckSystem::new();
    a.mark_received(0);
    a.next_header();
    a.mark_received(33);
    // advertised once: it stays
    assert_eq!(a.bitfield_count(), 2);
    assert_eq!(a.bitfield(1).bitfield, 1);
    let (offset, fields, residual) = a.ack_msg_info();
    assert_eq!(offset, 32);
    assert_eq!(fields, vec![1 << 1, 1]);
    assert!(residual.is_empty());
    assert_eq!(a.bitfield(1).send_count, 2);
    a.mark_received(70);
    // the back bitfield reached two sends and left
    assert_eq!(a.bitfield_count(), 2);
    assert_eq!(a.ack_offset(), 64);
    assert_eq!(a.bitfield(1).bitfield, 1 << 1);
}

#[test]
fn header_ack_rotates_with_bases() {
    let mut a = AckSystem::new();
    a.mark_received(1);
    a.mark_received(34);
    assert_eq!(a.next_header(), (32, 1 << 2));
    assert_eq!(a.next_header(), (0, 1 << 1));
    assert_eq!(a.next_header(), (32, 1 << 2));
}

#[test]
fn outgoing_numbers_wrap() {
    let mut a = AckSystem::new();
    assert_eq!(a.outgoing_ack_num(), 0);
    assert_eq!(a.outgoing_ack_num(), 1);
    for _ in 2..65536u32 {
        a.outgoing_ack_num();
    }
    assert_eq!(a.outgoing_ack_num(), 0);
}
