use carrier_pigeon::messages::{AckMsg, PingMsg, PingType};
use carrier_pigeon::net::{wrapping_lt, DecodeError, MsgHeader, HEADER_SIZE};

#[test]
fn header_bytes_are_big_endian() {
    let h = MsgHeader::new(7, 0x0102, 0x0304, 0x0506, 0x0708_090a);
    assert_eq!(h.to_be_bytes(), [0, 7, 1, 2, 3, 4, 5, 6, 7, 8, 9, 10]);
    assert_eq!(h.to_be_bytes().len(), HEADER_SIZE);
}

#[test]
fn header_round_trip() {
    for h in [
        MsgHeader::new(0, 0, 0, 0, 0),
        MsgHeader::new(65535, 65535, 65535, 65535, u32::MAX),
        MsgHeader::new(9, 300, 12345, 54321, 0xdead_beef),
    ] {
        assert_eq!(MsgHeader::from_be_bytes(&h.to_be_bytes()), Ok(h));
    }
}

#[test]
fn short_packet_is_refused() {
    assert_eq!(MsgHeader::from_be_bytes(&[0u8; 11]), Err(DecodeError::ShortPacket));
    assert_eq!(MsgHeader::from_be_bytes(&[]), Err(DecodeError::ShortPacket));
    let mut long = MsgHeader::new(8, 1, 2, 3, 4).to_be_bytes().to_vec();
    long.extend([1, 2, 3]);
    assert_eq!(MsgHeader::from_be_bytes(&long), Ok(MsgHeader::new(8, 1, 2, 3, 4)));
}

#[test]
fn message_type_is_sent_as_16_bits() {
    let h = MsgHeader::new(65536 + 5, 0, 0, 0, 0);
    assert_eq!(MsgHeader::from_be_bytes(&h.to_be_bytes()).unwrap().m_type, 5);
}

#[test]
fn wrap_aware_comparison() {
    assert!(wrapping_lt(1, 2));
    assert!(!wrapping_lt(2, 1));
    assert!(wrapping_lt(65535, 0));
    assert!(!wrapping_lt(0, 65535));
    assert!(!wrapping_lt(5, 5));
}

#[test]
fn ack_msg_bytes() {
    let m = AckMsg::new(0x0102, vec![0x0a0b_0c0d], vec![7, 0x0100]);
    let bytes = m.ser().unwrap();
    assert_eq!(bytes, vec![1, 2, 0, 1, 10, 11, 12, 13, 0, 2, 0, 7, 1, 0]);
    assert_eq!(AckMsg::deser(&bytes), Ok(m));
}

#[test]
fn ack_msg_rejects_bad_lengths() {
    assert_eq!(AckMsg::deser(&[0, 0, 0]), Err(DecodeError::DeserializationError));
    assert_eq!(AckMsg::deser(&[0, 0, 0, 1, 0, 0, 0, 0]), Err(DecodeError::DeserializationError));
    assert_eq!(AckMsg::deser(&[0, 0, 0, 0, 0, 0, 9]), Err(DecodeError::DeserializationError));
    assert_eq!(
        AckMsg::deser(&[0, 5, 0, 0, 0, 0]),
        Ok(AckMsg::new(5, vec![], vec![]))
    );
}

#[test]
fn ping_bytes() {
    let req = PingMsg { ping_type: PingType::Req, ping_num: 0x0102_0304 };
    assert_eq!(req.ser(), vec![0, 1, 2, 3, 4]);
    assert_eq!(PingMsg::deser(&req.ser()), Ok(req));
    let res = req.response();
    assert_eq!(res, PingMsg { ping_type: PingType::Res, ping_num: 0x0102_0304 });
    assert_eq!(res.ser(), vec![1, 1, 2, 3, 4]);
    assert_eq!(PingMsg::deser(&[2, 0, 0, 0, 0]), Err(DecodeError::DeserializationError));
    assert_eq!(PingMsg::deser(&[0, 0, 0, 0]), Err(DecodeError::DeserializationError));
}
