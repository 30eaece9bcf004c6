use snarkos_network::{
    Channel, FramingError, Message, MessageKind, PeerAddress, ReceiveError, SendError,
};

fn addr(n: u32) -> PeerAddress {
    PeerAddress::new(n, 4130)
}

#[test]
fn write_appends_frame() {
    let mut ch = Channel::new(addr(1));
    let m = Message::new(MessageKind::Transaction, vec![10, 20]);
    assert_eq!(ch.write(&m), Ok(()));
    assert_eq!(ch.outbox, m.serialize());
}

#[test]
fn write_two_messages_concatenates_frames() {
    let mut ch = Channel::new(addr(1));
    let m1 = Message::new(MessageKind::Transaction, vec![1]);
    let m2 = Message::new(MessageKind::Block, vec![2, 3]);
    assert_eq!(ch.write(&m1), Ok(()));
    assert_eq!(ch.write(&m2), Ok(()));
    let mut expected = m1.serialize();
    expected.extend_from_slice(&m2.serialize());
    assert_eq!(ch.outbox, expected);
}

#[test]
fn write_on_closed_channel_fails() {
    let mut ch = Channel::new(addr(2));
    ch.close();
    let m = Message::new(MessageKind::Block, vec![9]);
    assert_eq!(ch.write(&m), Err(SendError::TransportClosed));
    assert!(ch.outbox.is_empty());
}

#[test]
fn read_recovers_messages_from_stream() {
    let mut ch = Channel::new(addr(3));
    let m1 = Message::new(MessageKind::Transaction, vec![5, 6, 7]);
    let m2 = Message::new(MessageKind::Version, vec![8]);
    let mut stream = m1.serialize();
    stream.extend_from_slice(&m2.serialize());
    ch.inbox = stream;
    assert_eq!(ch.read(), Ok(m1));
    assert_eq!(ch.read(), Ok(m2));
    assert_eq!(
        ch.read(),
        Err(ReceiveError::Invalid(FramingError::Truncated))
    );
}

#[test]
fn read_waits_for_a_whole_frame() {
    let mut ch = Channel::new(addr(4));
    let m = Message::new(MessageKind::Block, vec![1, 2, 3, 4]);
    let bytes = m.serialize();
    ch.inbox = bytes[..6].to_vec();
    assert_eq!(
        ch.read(),
        Err(ReceiveError::Invalid(FramingError::Truncated))
    );
    // The partial frame is left in place; once the rest arrives it parses.
    ch.inbox.extend_from_slice(&bytes[6..]);
    assert_eq!(ch.read(), Ok(m));
}

#[test]
fn read_on_closed_channel_fails() {
    let mut ch = Channel::new(addr(5));
    ch.close();
    assert_eq!(ch.read(), Err(ReceiveError::Disconnected));
}

#[test]
fn read_rejects_unknown_tag() {
    let mut ch = Channel::new(addr(6));
    ch.inbox = vec![42, 0, 0, 0, 0];
    assert_eq!(
        ch.read(),
        Err(ReceiveError::Invalid(FramingError::UnknownTag))
    );
}

#[test]
fn read_rejects_oversized_declared_length() {
    let mut ch = Channel::new(addr(7));
    ch.inbox = vec![1, 0xFF, 0xFF, 0xFF, 0xFF];
    assert_eq!(
        ch.read(),
        Err(ReceiveError::Invalid(FramingError::OversizedPayload))
    );
}
