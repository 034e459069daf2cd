use contime::{ContimeKey, Event, Snapshot, TestEvent, TestSnapshot};

#[test]
fn key_orders_by_time_then_id() {
    let a = ContimeKey { time: 1, id: 9 };
    let b = ContimeKey { time: 2, id: 0 };
    let c = ContimeKey { time: 2, id: 3 };
    assert!(a < b);
    assert!(b < c);
    assert!(a < c);
    assert!(!(c < b));
    assert!(b <= b.clone());
    assert!(c > a);
    assert_eq!(b.partial_cmp(&c), Some(std::cmp::Ordering::Less));
    assert_eq!(c.partial_cmp(&c), Some(std::cmp::Ordering::Equal));
    assert_eq!(c.partial_cmp(&a), Some(std::cmp::Ordering::Greater));
}

#[test]
fn key_default_is_zero() {
    let k = ContimeKey::default();
    assert_eq!(k, ContimeKey { time: 0, id: 0 });
}

#[test]
fn key_from_event_uses_event_id_and_time() {
    let e = TestEvent::Negative(7, -3, 2, 5);
    assert_eq!(ContimeKey::from_event(&e), ContimeKey { time: -3, id: 7 });
    assert_eq!(e.id(), 7);
    assert_eq!(e.time(), -3);
}

#[test]
fn key_from_snapshot_uses_identity_and_time() {
    let s = TestSnapshot { id: 4, time: 12, items: vec![], sum: 0 };
    assert_eq!(ContimeKey::from_snapshot(&s), ContimeKey { time: 12, id: 4 });
    assert_eq!(s.id(), 4);
    assert_eq!(s.time(), 12);
}
