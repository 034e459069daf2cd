use vstd::prelude::*;

use crate::messages::WorkerInbound;
use crate::router::{admits_event, conservative_delta_bytes, saturate};
use crate::traits::Snapshot;

verus! {

/// A worker's memory accounting.
#[derive(Clone, Copy, Debug, PartialEq, Eq, Structural)]
pub struct WorkerState {
    pub memory_budget: usize,
    pub current_memory_usage: usize,
}

/// What a worker does with one inbound message.
#[derive(Clone, Copy, Debug, PartialEq, Eq, Structural)]
pub enum WorkerAction {
    /// Advance every history to this time.
    AdvanceAll(i64),
    /// Apply the event to the history of this identity, creating it if need be.
    Apply(u128),
    /// Report the event as skipped: it would exceed the memory budget.
    Skip,
    /// Answer with the snapshot of this identity at this time, if it has a history.
    Answer(u128, i64),
    /// Do nothing.
    Ignore,
    /// Stop the worker.
    Stop,
}

/// The worker's decision on `msg`, from `state`. For an event, `event_size`
/// and `apply_size_delta` are its conservative size and the change it is
/// expected to make to a snapshot; they are read for no other message.
pub fn worker_step<S: Snapshot>(
    state: WorkerState,
    msg: &WorkerInbound<S>,
    event_size: usize,
    apply_size_delta: isize,
) -> (r: (WorkerState, WorkerAction))
    ensures
        match *msg {
            WorkerInbound::SetMemoryBudget(b) => r == (
            WorkerState { memory_budget: b, ..state },
            WorkerAction::Ignore,
            ),
            WorkerInbound::SnapshotAt(id, t) => r == (state, WorkerAction::Answer(id, t)),
            WorkerInbound::AdvanceTime(t) => r == (state, WorkerAction::AdvanceAll(t)),
            WorkerInbound::Snapshot(_) => r == (state, WorkerAction::Ignore),
            WorkerInbound::Event((id, _)) => r == (state, if state.current_memory_usage
                + saturate(event_size + apply_size_delta) < state.memory_budget {
                WorkerAction::Apply(id)
            } else {
                WorkerAction::Skip
            }),
            WorkerInbound::Shutdown => r == (state, WorkerAction::Stop),
        },
{
    match msg {
        WorkerInbound::SetMemoryBudget(b) => (
            WorkerState { memory_budget: *b, current_memory_usage: state.current_memory_usage },
            WorkerAction::Ignore,
        ),
        WorkerInbound::SnapshotAt(id, t) => (state, WorkerAction::Answer(*id, *t)),
        WorkerInbound::AdvanceTime(t) => (state, WorkerAction::AdvanceAll(*t)),
        WorkerInbound::Snapshot(_) => (state, WorkerAction::Ignore),
        WorkerInbound::Event((id, _)) => {
            let delta = conservative_delta_bytes(event_size, apply_size_delta);
            if admits_event(state.current_memory_usage, delta, state.memory_budget) {
                (state, WorkerAction::Apply(*id))
            } else {
                (state, WorkerAction::Skip)
            }
        },
        WorkerInbound::Shutdown => (state, WorkerAction::Stop),
    }
}

/// The worker's state once the process's measured memory is `physical_mem`.
pub fn observe_memory(state: WorkerState, physical_mem: usize) -> (r: WorkerState)
    ensures
        r == (WorkerState { current_memory_usage: physical_mem, ..state }),
{
    WorkerState { memory_budget: state.memory_budget, current_memory_usage: physical_mem }
}

} // verus!
