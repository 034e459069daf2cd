use contime::{ApplyEvent, Snapshot, TestEvent, TestSnapshot, TestSnapshotLanes};

#[test]
fn positive_adds_and_negative_subtracts() {
    let mut s = TestSnapshot { id: 2, ..TestSnapshot::default() };
    TestEvent::Positive(1, 0, 2, 7).apply_to(&mut s);
    TestEvent::Negative(2, 0, 2, 3).apply_to(&mut s);
    assert_eq!(s.sum, 4);
    assert_eq!(s.items, vec![7, -3]);
}

#[test]
fn event_for_another_snapshot_is_ignored() {
    let mut s = TestSnapshot { id: 2, ..TestSnapshot::default() };
    TestEvent::Positive(1, 0, 3, 7).apply_to(&mut s);
    assert_eq!(s, TestSnapshot { id: 2, ..TestSnapshot::default() });
    assert_eq!(TestEvent::Positive(1, 0, 3, 7).snapshot_id(), 3);
}

#[test]
fn sum_wraps_instead_of_overflowing() {
    let mut s = TestSnapshot { id: 0, time: 0, items: vec![], sum: i32::MAX };
    TestEvent::Positive(1, 0, 0, 1).apply_to(&mut s);
    assert_eq!(s.sum, i32::MIN);
}

#[test]
fn set_time_and_duplicate() {
    let mut s = TestSnapshot { id: 1, time: 0, items: vec![4, 5], sum: 9 };
    s.set_time(42);
    assert_eq!(s.time, 42);
    let d = s.duplicate();
    assert_eq!(d, s);
}

#[test]
fn default_state_is_the_empty_counter() {
    assert_eq!(TestSnapshot::default_state(), TestSnapshot::default());
    assert_eq!(TestSnapshotLanes::default_state(), TestSnapshotLanes::TestSnapshot(TestSnapshot::default()));
}
