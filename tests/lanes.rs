use contime::{
    ApplyEvent, Event, Snapshot, SnapshotHistory, TestEvent, TestEventLanes, TestSnapshot, TestSnapshotLanes,
};

#[test]
fn lanes_delegate_to_the_wrapped_types() {
    let e = TestEventLanes::from(TestEvent::Negative(3, 8, 5, 2));
    assert_eq!(e.id(), 3);
    assert_eq!(e.time(), 8);
    assert_eq!(e.snapshot_id(), 5);
    let mut s = TestSnapshotLanes::from(TestSnapshot { id: 5, time: 0, items: vec![], sum: 10 });
    e.apply_to(&mut s);
    s.set_time(8);
    assert_eq!(s.id(), 5);
    assert_eq!(s.time(), 8);
    let back: TestSnapshot = s.duplicate().into();
    assert_eq!(back, TestSnapshot { id: 5, time: 8, items: vec![-2], sum: 8 });
}

#[test]
fn lane_snapshot_from_event_is_empty_at_event_time() {
    let e = TestEventLanes::TestEvent(TestEvent::Positive(1, 6, 9, 4));
    let s: TestSnapshot = TestSnapshotLanes::from_event(&e).into();
    assert_eq!(s, TestSnapshot { id: 9, time: 6, items: vec![], sum: 0 });
    let targets = e.snapshots();
    assert_eq!(targets.len(), 1);
    assert_eq!(targets[0], TestSnapshotLanes::TestSnapshot(TestSnapshot { id: 9, time: 0, items: vec![], sum: 0 }));
}

#[test]
fn conservative_sizes() {
    let e = TestEvent::Positive(1, 6, 9, 4);
    assert_eq!(e.conservative_size(), 42);
    assert_eq!(e.conservative_apply_size_delta(), 2);
    let l = TestEventLanes::TestEvent(e);
    assert_eq!(l.conservative_size(), 42);
    assert_eq!(l.conservative_apply_size_delta(), 2);
    let s = TestSnapshot { id: 0, time: 0, items: vec![1, 2, 3], sum: 6 };
    assert_eq!(s.conservative_size(), 34);
    assert_eq!(TestSnapshotLanes::TestSnapshot(s).conservative_size(), 34);
    assert_eq!(TestSnapshotLanes::default().conservative_size(), 28);
}

#[test]
fn snapshot_from_event_targets_its_identity() {
    let e = TestEvent::Positive(1, 6, 9, 4);
    assert_eq!(TestSnapshot::from(e), TestSnapshot { id: 9, time: 0, items: vec![], sum: 0 });
    assert_eq!(TestSnapshot::from_event(&e), TestSnapshot { id: 9, time: 0, items: vec![], sum: 0 });
}

#[test]
fn history_over_lanes() {
    let first = TestEventLanes::TestEvent(TestEvent::Positive(1, 6, 9, 4));
    let mut h = SnapshotHistory::<TestSnapshotLanes>::new(TestSnapshotLanes::from_event(&first));
    assert_eq!(h.snapshot_id, 9);
    h.apply_event(first);
    h.apply_event(TestEventLanes::TestEvent(TestEvent::Negative(2, 3, 9, 1)));
    h.apply_event(TestEventLanes::TestEvent(TestEvent::Positive(3, 3, 8, 100)));
    let (s, rx) = h.snapshot_at(6);
    let s: TestSnapshot = s.into();
    assert_eq!(s, TestSnapshot { id: 9, time: 6, items: vec![-1, 4], sum: 3 });
    assert!(rx.is_empty());
    assert_eq!(h.ordered_events.len(), 2);
}
