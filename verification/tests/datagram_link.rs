use aggligator_transport::error::TransportError;
use aggligator_transport::io::{DatagramRx, DatagramTx, DecodedDatagram, LinkSeq, MsgKind, RxPacket};
use aggligator_transport::udp::frame::{decode_udp_datagram, encode_udp_frame};

#[test]
fn datagram_control_frame_roundtrips() {
    let msg = vec![7u8, 8, 9];
    let datagram = DatagramTx::encode_control(&msg);

    match DatagramRx::decode(&datagram).unwrap() {
        DecodedDatagram::Control(decoded) => assert_eq!(decoded, msg),
        DecodedDatagram::Data { .. } => panic!("expected control datagram"),
    }
}

#[test]
fn datagram_data_frame_roundtrips() {
    let payload = b"hello over udp".to_vec();
    let datagram = DatagramTx::encode_data(LinkSeq::from(42), &payload);

    match DatagramRx::decode(&datagram).unwrap() {
        DecodedDatagram::Data { seq, payload: decoded } => {
            assert_eq!(seq, LinkSeq::from(42));
            assert_eq!(decoded, payload);
        }
        DecodedDatagram::Control(_) => panic!("expected data datagram"),
    }
}

#[test]
fn frame_bytes_are_exact() {
    assert_eq!(DatagramTx::encode_control(b"m"), b"AGD1\x00m".to_vec());
    assert_eq!(
        DatagramTx::encode_data(LinkSeq::from(0x0102_0304), b"p"),
        b"AGD1\x01\x01\x02\x03\x04p".to_vec()
    );
}

#[test]
fn invalid_frames_are_refused() {
    assert!(matches!(DatagramRx::decode(b"AGD1"), Err(TransportError::InvalidFrame)));
    assert!(matches!(DatagramRx::decode(b"AGX1\x00"), Err(TransportError::InvalidFrame)));
    assert!(matches!(DatagramRx::decode(b"AGD1\x01abc"), Err(TransportError::FrameTooShort)));
    assert!(matches!(DatagramRx::decode(b"AGD1\x07"), Err(TransportError::InvalidFrameKind(7))));
}

#[test]
fn a_data_message_travels_as_one_datagram() {
    let mut tx = DatagramTx::new();
    assert!(!tx.expects_payload());
    assert!(tx.start_send(b"header", MsgKind::Data(LinkSeq(3))).is_none());
    assert!(tx.expects_payload());
    assert!(matches!(tx.check_complete(), Err(TransportError::MissingPayload)));
    // What the payload looks like does not count.
    let datagram = tx.start_send(b"payload", MsgKind::Control).unwrap();
    assert!(tx.check_complete().is_ok());

    let mut rx = DatagramRx::new();
    match rx.on_datagram(&datagram) {
        Ok(RxPacket::DataHeader(seq)) => assert_eq!(seq, LinkSeq(3)),
        _ => panic!("expected a data header"),
    }
    assert_eq!(rx.take_payload(), Some(b"payload".to_vec()));
    assert!(rx.take_payload().is_none());
}

#[test]
fn a_control_message_travels_alone() {
    let mut tx = DatagramTx::new();
    let datagram = tx.start_send(b"ping", MsgKind::Control).unwrap();
    let mut rx = DatagramRx::new();
    match rx.on_datagram(&datagram) {
        Ok(RxPacket::Message(msg)) => assert_eq!(msg, b"ping".to_vec()),
        _ => panic!("expected a message"),
    }
    assert!(rx.take_payload().is_none());
    assert!(matches!(rx.on_datagram(b"junk!"), Err(TransportError::InvalidFrame)));
}

#[test]
fn link_frames_travel_without_a_session() {
    let datagram = DatagramTx::encode_control(b"ping");
    let sent = encode_udp_frame(None, datagram.clone());
    assert_eq!(decode_udp_datagram(&sent).unwrap().payload, Some(datagram));
}
