use std::sync::Arc;

use contime::worker::{observe_memory, worker_step};
use contime::{TestEvent, TestEventLanes, TestSnapshotLanes, WorkerAction, WorkerInbound, WorkerState};

fn state(budget: usize, usage: usize) -> WorkerState {
    WorkerState { memory_budget: budget, current_memory_usage: usage }
}

#[test]
fn worker_applies_an_event_within_budget() {
    let msg: WorkerInbound<TestSnapshotLanes> =
        WorkerInbound::Event((4, Arc::new(TestEventLanes::TestEvent(TestEvent::Positive(1, 2, 4, 3)))));
    assert_eq!(worker_step(state(1_000, 0), &msg, 42, 2), (state(1_000, 0), WorkerAction::Apply(4)));
}

#[test]
fn worker_skips_an_event_over_budget() {
    let msg: WorkerInbound<TestSnapshotLanes> =
        WorkerInbound::Event((4, Arc::new(TestEventLanes::TestEvent(TestEvent::Positive(1, 2, 4, 3)))));
    assert_eq!(worker_step(state(1_000, 956), &msg, 42, 2), (state(1_000, 956), WorkerAction::Skip));
    assert_eq!(worker_step(state(1_000, 955), &msg, 42, 2), (state(1_000, 955), WorkerAction::Apply(4)));
}

#[test]
fn worker_handles_control_messages() {
    let s = state(10, 3);
    let set: WorkerInbound<TestSnapshotLanes> = WorkerInbound::SetMemoryBudget(77);
    assert_eq!(worker_step(s, &set, 0, 0), (state(77, 3), WorkerAction::Ignore));
    let at: WorkerInbound<TestSnapshotLanes> = WorkerInbound::SnapshotAt(9, -4);
    assert_eq!(worker_step(s, &at, 0, 0), (s, WorkerAction::Answer(9, -4)));
    let adv: WorkerInbound<TestSnapshotLanes> = WorkerInbound::AdvanceTime(12);
    assert_eq!(worker_step(s, &adv, 0, 0), (s, WorkerAction::AdvanceAll(12)));
    let stop: WorkerInbound<TestSnapshotLanes> = WorkerInbound::Shutdown;
    assert_eq!(worker_step(s, &stop, 0, 0), (s, WorkerAction::Stop));
    let snap: WorkerInbound<TestSnapshotLanes> = WorkerInbound::Snapshot(TestSnapshotLanes::default());
    assert_eq!(worker_step(s, &snap, 0, 0), (s, WorkerAction::Ignore));
}

#[test]
fn worker_observes_measured_memory() {
    assert_eq!(observe_memory(state(10, 3), 8), state(10, 8));
}
