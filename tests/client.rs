use carrier_pigeon::client_connection::{ClientConnection, ClientTransport};
use carrier_pigeon::message_table::{
    Guarantees, MsgTable, ACCEPT_M_TYPE, ACK_M_TYPE, CONNECTION_M_TYPE, DISCONNECT_M_TYPE,
    PING_M_TYPE, REJECT_M_TYPE,
};
use carrier_pigeon::messages::AckMsg;
use carrier_pigeon::net::{
    ClientConfig, MType, MsgHeader, NetError, Status, TransportError, TransportErrorKind,
};
use std::cell::RefCell;
use std::rc::Rc;

#[derive(Default)]
struct Wire {
    sent: Vec<(MType, Vec<u8>)>,
    inbox: Vec<Vec<u8>>,
    fail_sends: bool,
}

struct MockTransport {
    wire: Rc<RefCell<Wire>>,
}

impl ClientTransport for MockTransport {
    fn send(&self, m_type: MType, payload: &Vec<u8>) -> Result<(), TransportError> {
        let mut w = self.wire.borrow_mut();
        if w.fail_sends {
            return Err(TransportError { kind: TransportErrorKind::Other, message: "down".to_string() });
        }
        w.sent.push((m_type, payload.clone()));
        Ok(())
    }

    fn recv(&mut self) -> Result<Vec<u8>, TransportError> {
        let mut w = self.wire.borrow_mut();
        if w.inbox.is_empty() {
            Err(TransportError { kind: TransportErrorKind::WouldBlock, message: String::new() })
        } else {
            Ok(w.inbox.remove(0))
        }
    }
}

const USER_ORDERED: MType = 7;
const USER_RELIABLE: MType = 8;

fn client() -> (ClientConnection<MockTransport>, Rc<RefCell<Wire>>) {
    let mut t = MsgTable::new();
    t.register_custom(100, Guarantees::ReliableOrdered).unwrap();
    t.register_custom(101, Guarantees::Reliable).unwrap();
    let parts = t.build(1, 2, 3, 4).unwrap();
    let wire = Rc::new(RefCell::new(Wire::default()));
    (ClientConnection::new(ClientConfig::new(), parts), wire)
}

fn datagram(h: MsgHeader, body: &[u8]) -> Vec<u8> {
    let mut d = h.to_be_bytes().to_vec();
    d.extend_from_slice(body);
    d
}

fn connected() -> (ClientConnection<MockTransport>, Rc<RefCell<Wire>>) {
    let (mut c, wire) = client();
    c.connect(MockTransport { wire: wire.clone() }, &vec![]).unwrap();
    wire.borrow_mut().inbox.push(datagram(MsgHeader::new(ACCEPT_M_TYPE, 0, 0, 0, 0), &[]));
    c.tick(0);
    c.tick(1);
    assert!(c.get_status().is_connected());
    (c, wire)
}

#[test]
fn handshake_reaches_connected() {
    let (mut c, wire) = client();
    assert!(c.get_status().is_not_connected());
    assert_eq!(c.connect(MockTransport { wire: wire.clone() }, &vec![5, 5]), Ok(0));
    assert!(c.get_status().is_connecting());
    {
        let w = wire.borrow();
        assert_eq!(w.sent.len(), 1);
        assert_eq!(w.sent[0].0, CONNECTION_M_TYPE);
        assert_eq!(&w.sent[0].1[12..], &[5, 5]);
    }
    wire.borrow_mut().inbox.push(datagram(MsgHeader::new(ACCEPT_M_TYPE, 0, 0, 0, 1), &[9]));
    c.tick(10);
    match c.get_status() {
        Status::Accepted(body) => assert_eq!(body, &vec![9]),
        other => panic!("unexpected status {:?}", other),
    }
    c.tick(20);
    assert!(c.get_status().is_connected());
}

#[test]
fn rejection_returns_to_not_connected() {
    let (mut c, wire) = client();
    c.connect(MockTransport { wire: wire.clone() }, &vec![]).unwrap();
    wire.borrow_mut().inbox.push(datagram(MsgHeader::new(REJECT_M_TYPE, 0, 0, 0, 0), &[3]));
    c.tick(0);
    assert!(c.get_status().is_rejected());
    let old = c.handle_status();
    assert_eq!(old.unwrap_rejected_dyn(), Some(vec![3]));
    assert!(c.get_status().is_not_connected());
}

#[test]
fn connect_twice_is_invalid() {
    let (mut c, wire) = client();
    c.connect(MockTransport { wire: wire.clone() }, &vec![]).unwrap();
    assert_eq!(
        c.connect(MockTransport { wire: wire.clone() }, &vec![]),
        Err(NetError::InvalidState)
    );
}

#[test]
fn send_needs_a_transport_and_a_registered_type() {
    let (mut c, wire) = client();
    assert_eq!(c.send(USER_RELIABLE, &vec![1]), Err(NetError::InvalidState));
    assert_eq!(c.disconnect(&vec![]), Err(NetError::InvalidState));
    c.connect(MockTransport { wire: wire.clone() }, &vec![]).unwrap();
    assert_eq!(c.send(9, &vec![1]), Err(NetError::UnregisteredType));
    assert_eq!(c.send(0, &vec![1]), Err(NetError::UnregisteredType));
    assert_eq!(c.send(USER_RELIABLE, &vec![1]), Ok(1));
    assert_eq!(c.send(USER_RELIABLE, &vec![2]), Ok(2));
}

#[test]
fn sent_headers_number_messages() {
    let (mut c, wire) = connected();
    wire.borrow_mut().sent.clear();
    let a = c.send(USER_ORDERED, &vec![1]).unwrap();
    let b = c.send(USER_ORDERED, &vec![2]).unwrap();
    assert_eq!(b, a.wrapping_add(1));
    let w = wire.borrow();
    let h0 = MsgHeader::from_be_bytes(&w.sent[0].1).unwrap();
    let h1 = MsgHeader::from_be_bytes(&w.sent[1].1).unwrap();
    assert_eq!((h0.m_type, h0.order_num, h0.sender_ack_num), (USER_ORDERED, 0, a));
    assert_eq!((h1.m_type, h1.order_num, h1.sender_ack_num), (USER_ORDERED, 1, b));
}

#[test]
fn received_messages_are_delivered_in_order() {
    let (mut c, wire) = connected();
    {
        let mut w = wire.borrow_mut();
        w.inbox.push(datagram(MsgHeader::new(USER_ORDERED, 1, 11, 0, 0), &[b'b']));
        w.inbox.push(datagram(MsgHeader::new(USER_ORDERED, 0, 10, 0, 0), &[b'a']));
        w.inbox.push(datagram(MsgHeader::new(USER_RELIABLE, 0, 12, 0, 0), &[b'x']));
        w.inbox.push(vec![1, 2, 3]);
    }
    c.tick(2);
    let got: Vec<u16> = c.recv(USER_ORDERED).iter().map(|m| m.order_num).collect();
    assert_eq!(got, vec![0, 1]);
    assert_eq!(c.recv(USER_ORDERED)[0].msg, vec![b'a']);
    assert_eq!(c.recv(USER_RELIABLE).len(), 1);
    assert!(c.try_recv(99).is_none());
    c.tick(3);
    assert_eq!(c.recv(USER_ORDERED).len(), 0);
}

#[test]
fn piggybacked_ack_retires_saved_message() {
    let (mut c, wire) = connected();
    let ack = c.send(USER_RELIABLE, &vec![1]).unwrap();
    wire.borrow_mut().inbox.push(datagram(MsgHeader::new(USER_RELIABLE, 0, 0, ack, 1), &[]));
    c.get_msgs();
    wire.borrow_mut().sent.clear();
    c.tick(5000);
    // the acknowledged message is not resent
    assert!(wire.borrow().sent.iter().all(|(m, _)| *m != USER_RELIABLE));
}

#[test]
fn unacked_message_is_resent() {
    let (mut c, wire) = connected();
    c.send(USER_RELIABLE, &vec![1]).unwrap();
    wire.borrow_mut().sent.clear();
    c.tick(5000);
    assert_eq!(wire.borrow().sent.iter().filter(|(m, _)| *m == USER_RELIABLE).count(), 1);
}

#[test]
fn ack_message_retires_saved_messages() {
    let (mut c, wire) = connected();
    let a = c.send(USER_RELIABLE, &vec![1]).unwrap();
    let b = c.send(USER_RELIABLE, &vec![2]).unwrap();
    let body = AckMsg::new(a, vec![1], vec![b]).ser().unwrap();
    wire.borrow_mut().inbox.push(datagram(MsgHeader::new(ACK_M_TYPE, 0, 50, 0, 0), &body));
    c.tick(6);
    wire.borrow_mut().sent.clear();
    c.tick(5000);
    assert!(wire.borrow().sent.iter().all(|(m, _)| *m != USER_RELIABLE));
}

#[test]
fn tick_sends_acks_and_pings() {
    let (mut c, wire) = connected();
    wire.borrow_mut().sent.clear();
    // a number 32 or more ahead opens a fresh bitfield, not yet advertised
    wire.borrow_mut().inbox.push(datagram(MsgHeader::new(USER_RELIABLE, 0, 40, 0, 0), &[]));
    c.tick(500);
    c.tick(700);
    let w = wire.borrow();
    assert!(w.sent.iter().any(|(m, _)| *m == ACK_M_TYPE));
    assert!(w.sent.iter().any(|(m, _)| *m == PING_M_TYPE));
}

#[test]
fn ping_request_is_answered() {
    let (mut c, wire) = connected();
    wire.borrow_mut().sent.clear();
    wire.borrow_mut().inbox.push(datagram(MsgHeader::new(PING_M_TYPE, 0, 40, 0, 0), &[0, 0, 0, 0, 9]));
    c.get_msgs();
    let w = wire.borrow();
    assert_eq!(w.sent.len(), 1);
    assert_eq!(w.sent[0].0, PING_M_TYPE);
    assert_eq!(&w.sent[0].1[12..], &[1, 0, 0, 0, 9]);
}

#[test]
fn peer_disconnect_is_seen() {
    let (mut c, wire) = connected();
    wire.borrow_mut().inbox.push(datagram(MsgHeader::new(DISCONNECT_M_TYPE, 0, 60, 0, 0), &[4]));
    c.tick(10);
    assert_eq!(c.get_status().disconnected_dyn(), Some(&vec![4]));
    c.tick(11);
    assert!(c.get_status().is_not_connected());
}

#[test]
fn disconnect_completes_when_acknowledged() {
    let (mut c, wire) = connected();
    c.disconnect(&vec![]).unwrap();
    let ack = match c.get_status() {
        Status::Disconnecting(a) => *a,
        other => panic!("unexpected status {:?}", other),
    };
    c.tick(10);
    assert!(c.get_status().is_disconnecting());
    wire.borrow_mut().inbox.push(datagram(MsgHeader::new(USER_RELIABLE, 0, 61, ack, 1), &[]));
    c.tick(11);
    assert!(c.get_status().is_not_connected());
}

#[test]
fn transport_failure_drops_the_connection() {
    let (mut c, wire) = connected();
    wire.borrow_mut().fail_sends = true;
    assert!(c.send(USER_RELIABLE, &vec![1]).is_ok());
    assert!(c.get_status().is_dropped());
    assert_eq!(c.get_status().dropped().unwrap().kind, TransportErrorKind::Other);
    c.tick(10);
    assert!(c.get_status().is_not_connected());
}

#[test]
fn transport_failure_while_connecting_fails_the_connection() {
    let (mut c, wire) = client();
    wire.borrow_mut().fail_sends = true;
    assert!(c.connect(MockTransport { wire: wire.clone() }, &vec![]).is_ok());
    match c.get_status() {
        Status::ConnectionFailed(e) => assert_eq!(e.message, "down"),
        other => panic!("unexpected status {:?}", other),
    }
}

#[test]
fn malformed_ack_message_is_dropped_with_its_acks() {
    let (mut c, wire) = connected();
    let ack = c.send(USER_RELIABLE, &vec![1]).unwrap();
    // the header acknowledges the message, but the body is not an acknowledgement message
    wire.borrow_mut().inbox.push(datagram(MsgHeader::new(ACK_M_TYPE, 0, 70, ack, 1), &[1, 2, 3]));
    c.get_msgs();
    wire.borrow_mut().sent.clear();
    c.tick(5000);
    assert_eq!(wire.borrow().sent.iter().filter(|(m, _)| *m == USER_RELIABLE).count(), 1);
}

#[test]
fn response_outside_connecting_changes_nothing() {
    let (mut c, wire) = connected();
    wire.borrow_mut().inbox.push(datagram(MsgHeader::new(REJECT_M_TYPE, 0, 71, 0, 0), &[1]));
    c.get_msgs();
    assert!(c.get_status().is_connected());
}

#[test]
fn get_msgs_without_transport_changes_nothing() {
    let (mut c, _wire) = client();
    c.get_msgs();
    assert!(c.get_status().is_not_connected());
    assert_eq!(c.try_recv(USER_RELIABLE).map(|v| v.len()), Some(0));
}

#[test]
fn ordered_type_releases_in_sequence_across_calls() {
    let (mut c, wire) = connected();
    let mut seen = vec![];
    for (n, ack) in [(2u16, 20u16), (0, 21), (1, 22)] {
        wire.borrow_mut().inbox.push(datagram(MsgHeader::new(USER_ORDERED, n, ack, 0, 0), &[n as u8]));
        c.tick(10 + ack as u64);
        seen.push(c.recv(USER_ORDERED).iter().map(|m| m.order_num).collect::<Vec<u16>>());
    }
    assert_eq!(seen, vec![vec![], vec![0], vec![1, 2]]);
}
