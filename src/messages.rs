use std::sync::Arc;
use vstd::prelude::*;

use flume::Receiver;

use crate::traits::Snapshot;

verus! {

/// What a worker is asked to do.
#[verifier::reject_recursive_types(S)]
pub enum WorkerInbound<S: Snapshot> {
    SetMemoryBudget(usize),
    SnapshotAt(u128, i64),
    AdvanceTime(i64),
    Snapshot(S),
    Event((u128, Arc<S::Event>)),
    Shutdown,
}

/// What a worker reports.
#[verifier::reject_recursive_types(S)]
pub enum WorkerOutbound<S: Snapshot> {
    SnapshotAt(S, Receiver<S>),
    EventSkipped(Arc<S::Event>),
    NotifyMemoryUsage(usize),
    Error,
}

/// What the router is handed.
#[verifier::reject_recursive_types(S)]
pub enum RouterInbound<S: Snapshot> {
    Snapshot(S),
    Event(S::Event),
}

/// What the router reports.
#[verifier::reject_recursive_types(S)]
pub enum RouterOutbound<S: Snapshot> {
    Reconciliate(S, i64, i64),
    RejectedEvent(S::Event, u128),
}

} // verus!
