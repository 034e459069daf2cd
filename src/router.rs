use vstd::prelude::*;

verus! {

/// The worker that owns the histories of a snapshot identity whose hash is
/// `hash`, among `worker_count` workers.
pub fn worker_index(hash: u64, worker_count: usize) -> (r: usize)
    requires
        worker_count > 0,
    ensures
        r == (hash as usize) % worker_count,
        r < worker_count,
{
    hash as usize % worker_count
}

/// The memory budget of each of `worker_count` workers sharing
/// `memory_budget_bytes`.
pub fn worker_memory_budget(memory_budget_bytes: usize, worker_count: usize) -> (r: usize)
    requires
        worker_count > 0,
    ensures
        r == memory_budget_bytes / worker_count,
{
    memory_budget_bytes / worker_count
}

/// `value + delta`, held within `0..=usize::MAX`.
pub open spec fn saturate(value: int) -> usize {
    if value < 0 {
        0
    } else if value > usize::MAX {
        usize::MAX
    } else {
        value as usize
    }
}

/// The bytes that an event is expected to add once applied: its own size
/// plus the change it makes to a snapshot, held within the range of `usize`.
pub fn conservative_delta_bytes(event_size: usize, apply_size_delta: isize) -> (r: usize)
    ensures
        r == saturate(event_size + apply_size_delta),
{
    if apply_size_delta >= 0 {
        let d = apply_size_delta as usize;
        if event_size > usize::MAX - d {
            usize::MAX
        } else {
            event_size + d
        }
    } else {
        let d = (-(apply_size_delta as i128)) as usize;
        if event_size < d {
            0
        } else {
            event_size - d
        }
    }
}

/// Whether a worker that holds `current_usage` bytes of its `memory_budget`
/// takes an event expected to add `delta_bytes`: only while the sum stays
/// strictly under the budget.
pub fn admits_event(current_usage: usize, delta_bytes: usize, memory_budget: usize) -> (r: bool)
    ensures
        r == (current_usage + delta_bytes < memory_budget),
{
    current_usage < memory_budget && delta_bytes < memory_budget - current_usage
}

/// The memory usage after a change of `delta` bytes, held within the range
/// of `usize`.
pub fn usage_after(current_usage: usize, delta: isize) -> (r: usize)
    ensures
        r == saturate(current_usage + delta),
{
    conservative_delta_bytes(current_usage, delta)
}

} // verus!
