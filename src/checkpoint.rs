use vstd::prelude::*;

use crate::key::{event_key, ContimeKey};
use crate::traits::{ApplyEvent, Event, Snapshot};

verus! {

/// A materialized snapshot, pinned to the position of the event log at which
/// it is valid.
pub struct Checkpoint<S: Snapshot> {
    pub snapshot: S,
    /// Index in the log of the next event not yet applied to `snapshot`.
    pub next_event_index: usize,
    /// Number of events applied to `snapshot` since the previous checkpoint.
    pub event_count: usize,
}

impl<S: Snapshot> Checkpoint<S> {
    pub fn new(snapshot: S) -> (c: Self)
        ensures
            c.snapshot == snapshot,
            c.next_event_index == 0,
            c.event_count == 0,
    {
        Self { snapshot, next_event_index: 0, event_count: 0 }
    }

    /// A deep copy of this checkpoint.
    pub fn duplicate(&self) -> (c: Self)
        ensures
            c.snapshot@ == self.snapshot@,
            c.next_event_index == self.next_event_index,
            c.event_count == self.event_count,
    {
        Checkpoint {
            snapshot: self.snapshot.duplicate(),
            next_event_index: self.next_event_index,
            event_count: self.event_count,
        }
    }
}

/// One replay step: apply `e`, then stamp the state with the event's time.
pub open spec fn step<S: Snapshot>(state: S::V, e: S::Event) -> S::V {
    S::spec_with_time(e.spec_apply(state), e.spec_time())
}

/// The state reached from `state` by replaying `events` in order.
pub open spec fn replay<S: Snapshot>(state: S::V, events: Seq<S::Event>) -> S::V
    decreases events.len(),
{
    if events.len() == 0 {
        state
    } else {
        step::<S>(replay::<S>(state, events.drop_last()), events.last())
    }
}

/// The keys of `log` are strictly increasing.
pub open spec fn strictly_sorted<E: Event>(log: Seq<E>) -> bool {
    forall|i: int, j: int|
        0 <= i < j < log.len() ==> #[trigger] event_key(log[i]).spec_lt(#[trigger] event_key(log[j]))
}

/// No two events of `log` share an id.
pub open spec fn unique_ids<E: Event>(log: Seq<E>) -> bool {
    forall|i: int, j: int|
        0 <= i < log.len() && 0 <= j < log.len() && i != j ==> #[trigger] log[i].spec_id()
            != #[trigger] log[j].spec_id()
}

/// Some event of `log` has the id `id`.
pub open spec fn has_id<E: Event>(log: Seq<E>, id: u128) -> bool {
    exists|i: int| 0 <= i < log.len() && #[trigger] log[i].spec_id() == id
}

/// A well-formed event log: ordered by key, ids unique.
pub open spec fn log_wf<E: Event>(log: Seq<E>) -> bool {
    strictly_sorted(log) && unique_ids(log)
}

/// `c` holds the state reached from `origin` by the first
/// `c.next_event_index` events of `log`; when that is no event, it may differ
/// from `origin` in time alone.
pub open spec fn holds_prefix<S: Snapshot>(c: Checkpoint<S>, origin: S::V, log: Seq<S::Event>) -> bool {
    if c.next_event_index == 0 {
        S::spec_with_time(c.snapshot@, 0) == origin
    } else {
        c.snapshot@ == replay::<S>(origin, log.take(c.next_event_index as int))
    }
}

/// The checkpoint chain `cps` is consistent with the first `n` events of `log`:
/// - the first checkpoint is the origin, before any event, at time 0;
/// - a checkpoint that holds no event differs from the origin in time alone;
/// - every other checkpoint holds the replay of the first `next_event_index`
///   events onto the origin's state;
/// - each later checkpoint starts where its predecessor stops, after
///   `event_count` events, never more than `interval`, and exactly `interval`
///   for every one but the last;
/// - the last one has consumed the first `n` events.
pub open spec fn chain_upto<S: Snapshot>(
    cps: Seq<Checkpoint<S>>,
    log: Seq<S::Event>,
    interval: usize,
    n: int,
) -> bool {
    &&& log_wf(log)
    &&& interval > 0
    &&& 0 <= n <= log.len()
    &&& cps.len() >= 2
    &&& cps[0].next_event_index == 0
    &&& forall|k: int|
        0 <= k < cps.len() ==> {
            &&& #[trigger] cps[k].next_event_index <= n
            &&& holds_prefix(cps[k], cps[0].snapshot@, log)
        }
    &&& forall|k: int|
        1 <= k < cps.len() ==> {
            &&& #[trigger] cps[k].event_count <= interval
            &&& cps[k].next_event_index == cps[k - 1].next_event_index + cps[k].event_count
            &&& k < cps.len() - 1 ==> cps[k].event_count == interval
        }
    &&& cps.last().next_event_index == n
}

/// The checkpoint chain `cps` is consistent with the whole log `log`
/// (see [`chain_upto`]), and its last checkpoint holds at least one event
/// unless the log is empty: a checkpoint is forked only for an event.
pub open spec fn chain_wf<S: Snapshot>(
    cps: Seq<Checkpoint<S>>,
    log: Seq<S::Event>,
    interval: usize,
) -> bool {
    &&& chain_upto(cps, log, interval, log.len() as int)
    &&& log.len() > 0 ==> cps.last().event_count >= 1
}

/// The length of a consistent chain over a log of `n` events: the origin,
/// then one checkpoint per started run of `interval` events (at least one).
pub open spec fn chain_len_for(n: nat, interval: usize) -> nat {
    if n == 0 {
        2
    } else {
        (2 + (n - 1) / (interval as int)) as nat
    }
}

/// The checkpoints of `old_cps` that come before the last one starting at or
/// before position `p` are kept in `new_cps`.
pub open spec fn keeps_before<S: Snapshot>(
    old_cps: Seq<Checkpoint<S>>,
    new_cps: Seq<Checkpoint<S>>,
    p: int,
) -> bool {
    forall|k: int|
        0 <= k && k + 1 < old_cps.len() && #[trigger] old_cps[k + 1].next_event_index <= p ==> k
            < new_cps.len() && new_cps[k] == old_cps[k]
}

/// The number of events of `log` whose key lies strictly below `k`.
pub open spec fn count_below<E: Event>(log: Seq<E>, k: ContimeKey) -> nat
    decreases log.len(),
{
    if log.len() == 0 {
        0
    } else {
        count_below(log.drop_last(), k) + if event_key(log.last()).spec_lt(k) {
            1nat
        } else {
            0nat
        }
    }
}

/// At most every event of `log` lies below `k`.
pub proof fn lemma_count_below_bound<E: Event>(log: Seq<E>, k: ContimeKey)
    ensures
        count_below(log, k) <= log.len(),
    decreases log.len(),
{
    if log.len() > 0 {
        lemma_count_below_bound(log.drop_last(), k);
    }
}

/// The log after `e` is offered to it: unchanged when an event with the same
/// id is already there, else `e` inserted at its place in key order.
pub open spec fn log_after<E: Event>(log: Seq<E>, e: E) -> Seq<E> {
    if has_id(log, e.spec_id()) {
        log
    } else {
        log.insert(count_below(log, event_key(e)) as int, e)
    }
}

} // verus!
