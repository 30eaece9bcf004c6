use snarkos_network::{FramingError, Message, MessageKind, MAX_PAYLOAD_LEN};

#[test]
fn round_trip_transaction() {
    let m = Message::new(MessageKind::Transaction, vec![1, 2, 3]);
    let bytes = m.serialize();
    let back = Message::deserialize(&bytes).unwrap();
    assert_eq!(back, m);
}

#[test]
fn round_trip_empty_payload() {
    let m = Message::new(MessageKind::Block, Vec::new());
    let bytes = m.serialize();
    assert_eq!(bytes, vec![2, 0, 0, 0, 0]);
    let back = Message::deserialize(&bytes).unwrap();
    assert_eq!(back, m);
}

#[test]
fn round_trip_version() {
    let m = Message::new(MessageKind::Version, vec![0xFF, 0x00, 0x7F]);
    let back = Message::deserialize(&m.serialize()).unwrap();
    assert_eq!(back, m);
}

#[test]
fn serialize_exact_bytes() {
    let m = Message::new(MessageKind::Transaction, vec![0xAA, 0xBB]);
    assert_eq!(m.serialize(), vec![1, 0, 0, 0, 2, 0xAA, 0xBB]);
}

#[test]
fn serialize_length_big_endian() {
    // 258 = 0x0102 lands in the two low length bytes.
    let m = Message::new(MessageKind::Block, vec![7u8; 258]);
    let bytes = m.serialize();
    assert_eq!(&bytes[..5], &[2, 0, 0, 1, 2]);
    assert_eq!(bytes.len(), 5 + 258);
}

#[test]
fn round_trip_largest_payload() {
    let m = Message::new(MessageKind::Transaction, vec![0x5Au8; MAX_PAYLOAD_LEN]);
    let back = Message::deserialize(&m.serialize()).unwrap();
    assert_eq!(back, m);
}

#[test]
fn deserialize_truncated_header() {
    assert_eq!(
        Message::deserialize(&vec![1, 0, 0]),
        Err(FramingError::Truncated)
    );
    assert_eq!(Message::deserialize(&Vec::new()), Err(FramingError::Truncated));
}

#[test]
fn deserialize_unknown_tag() {
    assert_eq!(
        Message::deserialize(&vec![9, 0, 0, 0, 0]),
        Err(FramingError::UnknownTag)
    );
    assert_eq!(
        Message::deserialize(&vec![0, 0, 0, 0, 0]),
        Err(FramingError::UnknownTag)
    );
}

#[test]
fn deserialize_oversized_payload() {
    // MAX_PAYLOAD_LEN is 0x100000; declare one byte more.
    let bytes = vec![1, 0x00, 0x10, 0x00, 0x01];
    assert_eq!(Message::deserialize(&bytes), Err(FramingError::OversizedPayload));
}

#[test]
fn deserialize_length_mismatch() {
    // Declares two bytes of payload, carries one.
    assert_eq!(
        Message::deserialize(&vec![1, 0, 0, 0, 2, 0xAA]),
        Err(FramingError::LengthMismatch)
    );
    // Declares one byte of payload, carries two.
    assert_eq!(
        Message::deserialize(&vec![1, 0, 0, 0, 1, 0xAA, 0xBB]),
        Err(FramingError::LengthMismatch)
    );
}
