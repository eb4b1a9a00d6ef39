use ockam_transport_udp::RoutingNumber;
use std::cmp::Ordering;

#[test]
fn default_is_random() {
    assert_ne!(RoutingNumber::default(), RoutingNumber::default());
}

#[test]
fn increment() {
    let mut number = RoutingNumber::default();
    let n1 = number.0;
    number.increment();
    assert_eq!(number.0, n1 + 1);
}

#[test]
fn increment_overflow() {
    let mut number = RoutingNumber(u16::MAX);
    number.increment();
    assert_eq!(number.0, 0);
}

#[test]
fn comparison() {
    assert!(RoutingNumber(5) < RoutingNumber(6));
    assert!(RoutingNumber(6) > RoutingNumber(5));
    assert_eq!(RoutingNumber(5), RoutingNumber(5));
}

#[test]
fn comparison_overflow() {
    assert!(RoutingNumber(u16::MAX) < RoutingNumber(0));
    assert!(RoutingNumber(u16::MAX) > RoutingNumber(u16::MAX - 1));
    assert!(RoutingNumber(0) > RoutingNumber(u16::MAX));
}

#[test]
fn compare_gives_wraparound_order() {
    assert_eq!(RoutingNumber(5).compare(&RoutingNumber(5)), Ordering::Equal);
    assert_eq!(RoutingNumber(5).compare(&RoutingNumber(6)), Ordering::Less);
    assert_eq!(RoutingNumber(6).compare(&RoutingNumber(5)), Ordering::Greater);
    assert_eq!(RoutingNumber(65535).compare(&RoutingNumber(0)), Ordering::Less);
    assert_eq!(RoutingNumber(0).compare(&RoutingNumber(65535)), Ordering::Greater);
}

#[test]
fn compare_at_half_distance() {
    assert_eq!(RoutingNumber(0).compare(&RoutingNumber(32767)), Ordering::Less);
    assert_eq!(RoutingNumber(32767).compare(&RoutingNumber(0)), Ordering::Greater);
    assert_eq!(RoutingNumber(0).compare(&RoutingNumber(32769)), Ordering::Greater);
    assert_eq!(RoutingNumber(40000).compare(&RoutingNumber(7000)), Ordering::Less);
    assert_eq!(RoutingNumber(7000).compare(&RoutingNumber(40000)), Ordering::Greater);
}

#[test]
fn add_and_sub_wrap_around() {
    assert_eq!(RoutingNumber::new(65534).add(3), 1);
    assert_eq!(RoutingNumber::new(1).sub(RoutingNumber::new(65534)), 3);
    assert_eq!(RoutingNumber::new(10).sub(RoutingNumber::new(4)), 6);
    let mut n = RoutingNumber::new(65530);
    n.add_assign(10);
    assert_eq!(n, RoutingNumber(4));
}
