use ockam_transport_udp::{
    RoutingNumber, TransportError, TransportMessagesIterator, MAX_MESSAGE_SIZE, MAX_PAYLOAD_SIZE,
};

fn bytes(len: usize) -> Vec<u8> {
    (0..len).map(|i| (i % 251) as u8).collect()
}

#[test]
fn exact_multiple_gets_empty_last_fragment() {
    let data = bytes(2048);
    let mut it = TransportMessagesIterator::with_payload_size(RoutingNumber(7), data.clone(), 1024)
        .unwrap();
    assert_eq!(it.total(), 3);
    let fragments = it.collect_remaining();
    assert_eq!(fragments.len(), 3);
    assert_eq!(fragments[0].payload, data[..1024].to_vec());
    assert_eq!(fragments[1].payload, data[1024..].to_vec());
    assert_eq!(fragments[2].payload.len(), 0);
    for (i, f) in fragments.iter().enumerate() {
        assert_eq!(f.offset as usize, i);
        assert_eq!(f.total, 3);
        assert_eq!(f.routing_number, RoutingNumber(7));
    }
}

#[test]
fn one_byte_over_gives_short_last_fragment() {
    let data = bytes(2049);
    let mut it = TransportMessagesIterator::with_payload_size(RoutingNumber(1), data.clone(), 1024)
        .unwrap();
    assert_eq!(it.total(), 3);
    let fragments = it.collect_remaining();
    assert_eq!(fragments[2].payload, vec![data[2048]]);
}

#[test]
fn single_byte_is_one_fragment() {
    let mut it = TransportMessagesIterator::with_payload_size(RoutingNumber(1), vec![42], 1024)
        .unwrap();
    assert_eq!(it.total(), 1);
    let first = it.next().unwrap();
    assert_eq!(first.payload, vec![42]);
    assert_eq!(first.offset, 0);
    assert!(it.next().is_none());
    assert!(it.next().is_none());
}

#[test]
fn empty_message_is_one_empty_fragment() {
    let mut it = TransportMessagesIterator::new(RoutingNumber(3), Vec::new()).unwrap();
    assert_eq!(it.total(), 1);
    assert_eq!(it.next().unwrap().payload.len(), 0);
    assert!(it.next().is_none());
}

#[test]
fn default_payload_size_is_used() {
    let data = bytes(MAX_PAYLOAD_SIZE * 2 + 5);
    let mut it = TransportMessagesIterator::new(RoutingNumber(3), data).unwrap();
    assert_eq!(it.total(), 3);
    let fragments = it.collect_remaining();
    assert_eq!(fragments[0].payload.len(), MAX_PAYLOAD_SIZE);
    assert_eq!(fragments[2].payload.len(), 5);
}

#[test]
fn too_large_message_is_refused() {
    let data = vec![0u8; MAX_MESSAGE_SIZE + 1];
    let r = TransportMessagesIterator::new(RoutingNumber(3), data);
    assert_eq!(r.err(), Some(TransportError::MessageLengthExceeded));
}

#[test]
fn largest_message_is_accepted() {
    let data = vec![0u8; MAX_MESSAGE_SIZE];
    let it = TransportMessagesIterator::new(RoutingNumber(3), data).unwrap();
    assert_eq!(it.total() as usize, MAX_MESSAGE_SIZE / MAX_PAYLOAD_SIZE + 1);
}

#[test]
fn too_many_fragments_are_refused() {
    let r = TransportMessagesIterator::with_payload_size(RoutingNumber(3), vec![0u8; 65535], 1);
    assert_eq!(r.err(), Some(TransportError::MessageLengthExceeded));
    let r = TransportMessagesIterator::with_payload_size(RoutingNumber(3), vec![0u8; 65534], 1);
    assert_eq!(r.unwrap().total(), 65535);
}
