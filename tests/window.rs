use ockam_transport_udp::{
    PeerPendingRoutingMessageStorage, PendingMessageState, RoutingNumber, UdpTransportMessage,
};

fn part(number: u16, offset: u16, total: u16, payload: Vec<u8>) -> UdpTransportMessage {
    UdpTransportMessage::new(1, RoutingNumber(number), offset, total, payload)
}

fn all_empty(w: &PeerPendingRoutingMessageStorage) -> bool {
    (0..5).all(|i| matches!(w.slot(i), PendingMessageState::NotReceived))
}

#[test]
fn newer_message_evicts_incomplete_one() {
    let mut w = PeerPendingRoutingMessageStorage::new(RoutingNumber(100));
    assert_eq!(w.add_transport_message_and_try_assemble(part(100, 0, 2, vec![1, 2])), None);
    assert!(matches!(w.slot(0), PendingMessageState::InProgress(_)));
    let r = w.add_transport_message_and_try_assemble(part(106, 0, 1, vec![7, 8, 9]));
    assert_eq!(r, Some(vec![7, 8, 9]));
    assert_eq!(w.oldest_routing_number(), RoutingNumber(102));
    assert!(matches!(w.slot(4), PendingMessageState::FullyHandled));
    for i in 0..4 {
        assert!(matches!(w.slot(i), PendingMessageState::NotReceived));
    }
    assert_eq!(w.add_transport_message_and_try_assemble(part(100, 1, 2, vec![3])), None);
    assert_eq!(w.oldest_routing_number(), RoutingNumber(102));
}

#[test]
fn evicted_buffer_goes_to_pool() {
    let mut w = PeerPendingRoutingMessageStorage::new(RoutingNumber(100));
    assert_eq!(w.add_transport_message_and_try_assemble(part(100, 0, 2, vec![1, 2])), None);
    assert_eq!(w.add_transport_message_and_try_assemble(part(101, 0, 2, vec![1, 2])), None);
    assert_eq!(w.pooled_buffers(), 0);
    // Fully handled: the slot of 106 is a tombstone, and the buffer of 100 was reused for it.
    assert_eq!(w.add_transport_message_and_try_assemble(part(106, 0, 1, vec![5])), Some(vec![5]));
    assert_eq!(w.pooled_buffers(), 1);
    assert_eq!(w.oldest_routing_number(), RoutingNumber(102));
}

#[test]
fn far_newer_message_clears_whole_window() {
    let mut w = PeerPendingRoutingMessageStorage::new(RoutingNumber(10));
    assert_eq!(w.add_transport_message_and_try_assemble(part(11, 0, 3, vec![1])), None);
    assert_eq!(w.add_transport_message_and_try_assemble(part(1000, 0, 2, vec![4, 4])), None);
    assert_eq!(w.oldest_routing_number(), RoutingNumber(996));
    assert!(matches!(w.slot(4), PendingMessageState::InProgress(_)));
    for i in 0..4 {
        assert!(matches!(w.slot(i), PendingMessageState::NotReceived));
    }
    assert_eq!(w.add_transport_message_and_try_assemble(part(1000, 1, 2, vec![6])), Some(vec![4, 4, 6]));
}

#[test]
fn late_fragment_is_dropped() {
    let mut w = PeerPendingRoutingMessageStorage::new(RoutingNumber(200));
    assert_eq!(w.add_transport_message_and_try_assemble(part(150, 0, 1, vec![1])), None);
    assert_eq!(w.oldest_routing_number(), RoutingNumber(200));
    assert!(all_empty(&w));
    assert_eq!(w.pooled_buffers(), 0);
}

#[test]
fn delivered_message_is_not_delivered_again() {
    let mut w = PeerPendingRoutingMessageStorage::new(RoutingNumber(300));
    assert_eq!(w.add_transport_message_and_try_assemble(part(300, 0, 1, vec![3])), Some(vec![3]));
    assert!(matches!(w.slot(0), PendingMessageState::FullyHandled));
    assert_eq!(w.add_transport_message_and_try_assemble(part(300, 0, 1, vec![3])), None);
    assert!(matches!(w.slot(0), PendingMessageState::FullyHandled));
    assert_eq!(w.add_transport_message_and_try_assemble(part(300, 0, 1, vec![3])), None);
    assert_eq!(w.oldest_routing_number(), RoutingNumber(300));
}

#[test]
fn window_moves_across_wraparound() {
    let mut w = PeerPendingRoutingMessageStorage::new(RoutingNumber(65534));
    assert_eq!(w.add_transport_message_and_try_assemble(part(3, 0, 1, vec![1])), Some(vec![1]));
    assert_eq!(w.oldest_routing_number(), RoutingNumber(65535));
    assert!(matches!(w.slot(4), PendingMessageState::FullyHandled));
    assert_eq!(w.add_transport_message_and_try_assemble(part(65534, 0, 1, vec![1])), None);
}

#[test]
fn messages_interleave_within_window() {
    let mut w = PeerPendingRoutingMessageStorage::new(RoutingNumber(0));
    assert_eq!(w.add_transport_message_and_try_assemble(part(1, 1, 2, vec![2])), None);
    assert_eq!(w.add_transport_message_and_try_assemble(part(0, 0, 2, vec![7, 7])), None);
    assert_eq!(w.add_transport_message_and_try_assemble(part(1, 0, 2, vec![1])), Some(vec![1, 2]));
    assert_eq!(w.add_transport_message_and_try_assemble(part(0, 1, 2, vec![8])), Some(vec![7, 7, 8]));
}
