use carrier_pigeon::messages::PingType;
use carrier_pigeon::ping_system::ClientPingSystem;

#[test]
fn pings_at_the_interval() {
    let mut p = ClientPingSystem::new();
    let first = p.get_ping_msg(0).unwrap();
    assert_eq!(first.ping_type, PingType::Req);
    assert_eq!(first.ping_num, 0);
    assert!(p.get_ping_msg(99).is_none());
    assert_eq!(p.get_ping_msg(100).unwrap().ping_num, 1);
}

#[test]
fn rtt_is_a_moving_average() {
    let mut p = ClientPingSystem::new();
    assert_eq!(p.rtt(), 0);
    p.get_ping_msg(0);
    p.recv_ping_msg(0, 80);
    assert_eq!(p.rtt(), 80);
    p.get_ping_msg(100);
    p.recv_ping_msg(1, 260);
    // (7 * 80 + 160) / 8
    assert_eq!(p.rtt(), 90);
    // a response to no pending ping changes nothing
    p.recv_ping_msg(1, 300);
    assert_eq!(p.rtt(), 90);
}

#[test]
fn late_responses_are_ignored() {
    let mut p = ClientPingSystem::new();
    p.get_ping_msg(0);
    p.recv_ping_msg(0, 2001);
    assert_eq!(p.rtt(), 0);
}
