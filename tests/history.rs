use contime::{Event, Snapshot, SnapshotHistory, TestEvent, TestSnapshot};

fn history() -> SnapshotHistory<TestSnapshot> {
    SnapshotHistory::<TestSnapshot>::with_checkpoint_interval(TestSnapshot::default(), 2)
}

fn sum_at(h: &SnapshotHistory<TestSnapshot>, time: i64) -> i32 {
    h.snapshot_at(time).0.sum
}

#[test]
fn new_history_has_origin_and_tail() {
    let h = SnapshotHistory::<TestSnapshot>::new(TestSnapshot { id: 5, time: 9, items: vec![], sum: 0 });
    assert_eq!(h.snapshot_id, 5);
    assert_eq!(h.checkpoint_interval, 100);
    assert_eq!(h.ordered_checkpoints.len(), 2);
    assert_eq!(h.ordered_checkpoints[0].event_count, 100);
    assert_eq!(h.ordered_checkpoints[0].snapshot.time, 0);
    assert_eq!(h.ordered_checkpoints[0].snapshot.id, 5);
    assert_eq!(h.ordered_checkpoints[1].snapshot, TestSnapshot { id: 5, time: 9, items: vec![], sum: 0 });
    assert_eq!(h.ordered_checkpoints[1].event_count, 0);
    assert_eq!(h.ordered_checkpoints[1].next_event_index, 0);
    assert_eq!(h.ordered_events.len(), 0);
    assert!(h.event_ids.is_empty());
    assert_eq!(h.advance(3), 0);
    assert_eq!(h.snapshot_at(20).0, TestSnapshot { id: 5, time: 0, items: vec![], sum: 0 });
}

#[test]
fn history_for_identity_starts_from_default_state() {
    let mut h = SnapshotHistory::<TestSnapshot>::for_identity(0);
    assert_eq!(h.snapshot_id, 0);
    assert_eq!(h.checkpoint_interval, 100);
    assert_eq!(h.ordered_checkpoints.len(), 2);
    assert_eq!(h.ordered_checkpoints[0].event_count, 100);
    assert_eq!(h.ordered_checkpoints[0].snapshot, TestSnapshot::default());
    assert_eq!(h.ordered_checkpoints[1].snapshot, TestSnapshot::default());
    assert_eq!(h.ordered_checkpoints[1].next_event_index, 0);
    assert_eq!(h.ordered_checkpoints[1].event_count, 0);
    assert_eq!(h.apply_event(TestEvent::Positive(1, 3, 0, 4)), 0);
    assert_eq!(sum_at(&h, 3), 4);
    let mut other = SnapshotHistory::<TestSnapshot>::for_identity(7);
    assert_eq!(other.snapshot_id, 7);
    other.apply_event(TestEvent::Positive(1, 3, 0, 4));
    assert_eq!(other.ordered_events.len(), 0);
}

#[test]
fn first_event_on_a_tail_with_its_own_time() {
    let mut h = SnapshotHistory::<TestSnapshot>::with_checkpoint_interval(
        TestSnapshot { id: 0, time: 9, items: vec![], sum: 0 },
        2,
    );
    assert_eq!(h.apply_event(TestEvent::Positive(1, 1, 0, 1)), 0);
    assert_eq!(h.ordered_checkpoints.len(), 2);
    assert_eq!(h.ordered_checkpoints[1].snapshot, TestSnapshot { id: 0, time: 1, items: vec![1], sum: 1 });
    assert_eq!(h.snapshot_at(0).0, TestSnapshot { id: 0, time: 0, items: vec![], sum: 0 });
}

#[test]
fn chain_length_follows_the_log() {
    let mut h = history();
    for i in 0..9u128 {
        h.apply_event(TestEvent::Positive(i, (9 - i) as i64, 0, 1));
        let n = h.ordered_events.len();
        assert_eq!(h.ordered_checkpoints.len(), 2 + (n - 1) / 2);
        let last = h.ordered_checkpoints.len() - 1;
        assert!(h.ordered_checkpoints[last].event_count >= 1);
    }
}

#[test]
fn repeated_offer_returns_zero_and_changes_nothing() {
    let mut h = history();
    let e = TestEvent::Positive(1, 1, 0, 1);
    assert_eq!(h.apply_event(e), 0);
    let before: Vec<(usize, usize, i32)> =
        h.ordered_checkpoints.iter().map(|c| (c.next_event_index, c.event_count, c.snapshot.sum)).collect();
    assert_eq!(h.apply_event(e), 0);
    assert_eq!(h.apply_event(TestEvent::Negative(1, 7, 0, 3)), 0);
    let after: Vec<(usize, usize, i32)> =
        h.ordered_checkpoints.iter().map(|c| (c.next_event_index, c.event_count, c.snapshot.sum)).collect();
    assert_eq!(before, after);
    assert_eq!(h.ordered_events.len(), 1);
    assert_eq!(h.event_ids.len(), 1);
}

#[test]
fn empty_start() {
    let mut h = history();
    assert_eq!(h.apply_event(TestEvent::Positive(1, 1, 0, 1)), 0);
    assert_eq!(sum_at(&h, 1), 1);
    assert_eq!(h.ordered_events.len(), 1);
    assert_eq!(h.ordered_checkpoints.len(), 2);
    assert_eq!(h.ordered_checkpoints[1].next_event_index, 1);
    assert_eq!(h.ordered_checkpoints[1].event_count, 1);
}

#[test]
fn in_order_two_events() {
    let mut h = history();
    h.apply_event(TestEvent::Positive(1, 1, 0, 1));
    h.apply_event(TestEvent::Positive(2, 2, 0, 2));
    assert_eq!(sum_at(&h, 2), 3);
    assert_eq!(h.ordered_checkpoints[1].event_count, 2);
    assert_eq!(h.ordered_checkpoints.len(), 2);
}

#[test]
fn out_of_order_early_insert() {
    let mut h = history();
    h.apply_event(TestEvent::Positive(2, 2, 0, 2));
    h.apply_event(TestEvent::Positive(1, 1, 0, 1));
    let times: Vec<i64> = h.ordered_events.iter().map(|e| e.time()).collect();
    assert_eq!(times, vec![1, 2]);
    assert_eq!(sum_at(&h, 1), 1);
    assert_eq!(sum_at(&h, 2), 3);
}

#[test]
fn duplicate_id() {
    let mut h = history();
    h.apply_event(TestEvent::Positive(1, 1, 0, 1));
    h.apply_event(TestEvent::Positive(1, 1, 0, 1));
    assert_eq!(h.ordered_events.len(), 1);
    for t in [1, 2, 50, i64::MAX] {
        assert_eq!(sum_at(&h, t), 1);
    }
}

#[test]
fn wrong_identity() {
    let mut h = history();
    assert_eq!(h.apply_event(TestEvent::Positive(1, 1, 99, 1)), 0);
    assert_eq!(h.ordered_events.len(), 0);
    for t in [i64::MIN, -1, 0, 1, 2, i64::MAX] {
        assert_eq!(sum_at(&h, t), 0);
    }
}

#[test]
fn checkpoint_fork() {
    let mut h = history();
    h.apply_event(TestEvent::Positive(1, 1, 0, 1));
    h.apply_event(TestEvent::Positive(2, 2, 0, 2));
    h.apply_event(TestEvent::Positive(3, 3, 0, 3));
    assert_eq!(h.ordered_checkpoints.len(), 3);
    assert_eq!(h.ordered_checkpoints[1].next_event_index, 2);
    assert_eq!(h.ordered_checkpoints[1].snapshot.sum, 3);
    assert_eq!(h.ordered_checkpoints[2].next_event_index, 3);
    assert_eq!(h.ordered_checkpoints[2].snapshot.sum, 6);
    assert_eq!(h.ordered_checkpoints[2].event_count, 1);
}

#[test]
fn query_includes_every_event_at_the_time() {
    let mut h = history();
    h.apply_event(TestEvent::Positive(9, 5, 0, 1));
    h.apply_event(TestEvent::Positive(3, 5, 0, 2));
    h.apply_event(TestEvent::Negative(u128::MAX, 5, 0, 4));
    h.apply_event(TestEvent::Positive(1, 6, 0, 8));
    assert_eq!(sum_at(&h, 4), 0);
    assert_eq!(sum_at(&h, 5), -1);
    assert_eq!(sum_at(&h, 6), 7);
    let s = h.snapshot_at(5).0;
    assert_eq!(s.items, vec![2, 1, -4]);
    assert_eq!(s.time, 5);
}

#[test]
fn query_before_every_event_gives_initial_state() {
    let mut h = history();
    h.apply_event(TestEvent::Positive(1, 10, 0, 1));
    let s = h.snapshot_at(9).0;
    assert_eq!(s.sum, 0);
    assert_eq!(s.time, 0);
    assert!(s.items.is_empty());
}

#[test]
fn negative_times_are_ordered() {
    let mut h = history();
    h.apply_event(TestEvent::Positive(1, 3, 0, 1));
    h.apply_event(TestEvent::Positive(2, -7, 0, 2));
    h.apply_event(TestEvent::Positive(3, -2, 0, 4));
    assert_eq!(sum_at(&h, -8), 0);
    assert_eq!(sum_at(&h, -7), 2);
    assert_eq!(sum_at(&h, -2), 6);
    assert_eq!(sum_at(&h, 3), 7);
}

#[test]
fn order_of_arrival_does_not_matter() {
    let events = vec![
        TestEvent::Positive(1, 4, 0, 1),
        TestEvent::Negative(2, 1, 0, 2),
        TestEvent::Positive(3, 9, 0, 4),
        TestEvent::Positive(4, 4, 0, 8),
        TestEvent::Negative(5, 2, 0, 16),
        TestEvent::Positive(6, 7, 0, 32),
        TestEvent::Positive(7, 3, 0, 64),
    ];
    let mut forward = history();
    for e in events.iter() {
        forward.apply_event(*e);
    }
    let mut backward = history();
    for e in events.iter().rev() {
        backward.apply_event(*e);
    }
    let mut shuffled = history();
    for i in [3usize, 0, 6, 2, 5, 1, 4] {
        shuffled.apply_event(events[i]);
    }
    for t in -1..11 {
        let f = forward.snapshot_at(t).0;
        assert_eq!(f, backward.snapshot_at(t).0);
        assert_eq!(f, shuffled.snapshot_at(t).0);
    }
    assert_eq!(sum_at(&forward, 10), 1 - 2 + 4 + 8 - 16 + 32 + 64);
}

#[test]
fn applying_twice_is_applying_once() {
    let mut once = history();
    let mut twice = history();
    let e = TestEvent::Positive(4, 2, 0, 3);
    once.apply_event(TestEvent::Positive(1, 1, 0, 1));
    twice.apply_event(TestEvent::Positive(1, 1, 0, 1));
    once.apply_event(e);
    twice.apply_event(e);
    twice.apply_event(e);
    assert_eq!(once.ordered_events, twice.ordered_events);
    for t in 0..4 {
        assert_eq!(once.snapshot_at(t).0, twice.snapshot_at(t).0);
    }
}

#[test]
fn checkpoints_replay_their_prefix() {
    let mut h = history();
    for (i, t) in [5i64, 1, 8, 3, 2, 9, 4].iter().enumerate() {
        h.apply_event(TestEvent::Positive(i as u128, *t, 0, (*t as u16) * 10));
        let last = h.ordered_checkpoints.len() - 1;
        assert_eq!(h.ordered_checkpoints[last].next_event_index, h.ordered_events.len());
        for k in 2..h.ordered_checkpoints.len() {
            let (a, b) = (&h.ordered_checkpoints[k - 1], &h.ordered_checkpoints[k]);
            assert!(a.next_event_index <= b.next_event_index);
            if a.next_event_index > 0 {
                assert!((a.snapshot.time, a.snapshot.id) <= (b.snapshot.time, b.snapshot.id));
            }
        }
        for c in h.ordered_checkpoints.iter() {
            let mut s = h.ordered_checkpoints[0].snapshot.clone();
            for e in h.ordered_events.iter().take(c.next_event_index) {
                contime::ApplyEvent::apply_to(e, &mut s);
                s.set_time(e.time());
            }
            assert_eq!(s, c.snapshot);
        }
    }
}

#[test]
fn query_equals_full_replay() {
    let mut h = history();
    let events = [(1u128, 6i64, 3u16), (2, 2, 5), (3, 6, 7), (4, -1, 11), (5, 4, 13)];
    for (id, t, v) in events {
        h.apply_event(TestEvent::Negative(id, t, 0, v));
    }
    for q in -2..8 {
        let mut expected = TestSnapshot::default();
        for e in h.ordered_events.iter().filter(|e| e.time() <= q) {
            contime::ApplyEvent::apply_to(e, &mut expected);
            expected.set_time(e.time());
        }
        assert_eq!(h.snapshot_at(q).0, expected);
    }
}
