use ockam_transport_udp::{
    PendingMessage, RoutingNumber, TransportMessagesIterator, UdpTransportMessage,
};

fn bytes(len: usize) -> Vec<u8> {
    (0..len).map(|i| (i * 7 % 256) as u8).collect()
}

fn fragments(data: &[u8], payload_size: usize) -> Vec<UdpTransportMessage> {
    TransportMessagesIterator::with_payload_size(RoutingNumber(9), data.to_vec(), payload_size)
        .unwrap()
        .collect_remaining()
}

fn feed(order: &[usize], fs: &[UdpTransportMessage]) -> Vec<Option<Vec<u8>>> {
    let mut m = PendingMessage::new(RoutingNumber(9), fs[0].total, Vec::new());
    order
        .iter()
        .map(|i| m.add_transport_message_and_try_assemble(fs[*i].clone()))
        .collect()
}

#[test]
fn round_trip_in_order() {
    let data = bytes(2500);
    let fs = fragments(&data, 1024);
    let out = feed(&[0, 1, 2], &fs);
    assert_eq!(out, vec![None, None, Some(data)]);
}

#[test]
fn round_trip_in_reverse_order() {
    let data = bytes(2500);
    let fs = fragments(&data, 1024);
    let out = feed(&[2, 1, 0], &fs);
    assert_eq!(out, vec![None, None, Some(data)]);
}

#[test]
fn round_trip_shuffled_small_payloads() {
    let data = bytes(20);
    let fs = fragments(&data, 3);
    assert_eq!(fs.len(), 7);
    let out = feed(&[3, 6, 0, 5, 1, 4, 2], &fs);
    assert_eq!(out[6], Some(data));
    assert!(out[..6].iter().all(|o| o.is_none()));
}

#[test]
fn round_trip_with_empty_last_fragment() {
    let data = bytes(12);
    let fs = fragments(&data, 4);
    assert_eq!(fs.len(), 4);
    let out = feed(&[3, 1, 2, 0], &fs);
    assert_eq!(out[3], Some(data));
}

#[test]
fn duplicate_fragment_counts_once() {
    let data = bytes(10);
    let fs = fragments(&data, 4);
    let mut m = PendingMessage::new(RoutingNumber(9), 3, Vec::new());
    assert_eq!(m.add_transport_message_and_try_assemble(fs[1].clone()), None);
    assert_eq!(m.missing_count(), 2);
    assert_eq!(m.add_transport_message_and_try_assemble(fs[1].clone()), None);
    assert_eq!(m.missing_count(), 2);
    assert_eq!(m.add_transport_message_and_try_assemble(fs[2].clone()), None);
    assert_eq!(m.add_transport_message_and_try_assemble(fs[2].clone()), None);
    assert_eq!(m.missing_count(), 1);
    assert_eq!(m.add_transport_message_and_try_assemble(fs[0].clone()), Some(data));
    assert_eq!(m.add_transport_message_and_try_assemble(fs[0].clone()), None);
}

#[test]
fn fragment_with_other_total_is_ignored() {
    let mut m = PendingMessage::new(RoutingNumber(9), 2, Vec::new());
    let wrong = UdpTransportMessage::new(1, RoutingNumber(9), 0, 3, vec![1, 2]);
    assert_eq!(m.add_transport_message_and_try_assemble(wrong), None);
    assert_eq!(m.missing_count(), 2);
}

#[test]
fn fragment_with_offset_out_of_range_is_ignored() {
    let mut m = PendingMessage::new(RoutingNumber(9), 2, Vec::new());
    let wrong = UdpTransportMessage::new(1, RoutingNumber(9), 2, 2, vec![1, 2]);
    assert_eq!(m.add_transport_message_and_try_assemble(wrong), None);
    assert_eq!(m.missing_count(), 2);
}

#[test]
fn dropped_message_hands_back_empty_buffer() {
    let mut m = PendingMessage::new(RoutingNumber(9), 2, Vec::new());
    let part = UdpTransportMessage::new(1, RoutingNumber(9), 0, 2, vec![1, 2, 3]);
    assert_eq!(m.add_transport_message_and_try_assemble(part), None);
    assert!(m.drop_message().is_empty());
}
