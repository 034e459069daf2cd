use std::collections::HashSet;
use std::collections::VecDeque;
use vstd::prelude::*;

use flume::{Receiver, Sender};

use crate::apply::{
    count_keys_below, insert_new_event_in_place, lemma_chain_len, lemma_prefix_state_step,
    resume_index,
};
use crate::checkpoint::{
    chain_len_for, chain_wf, count_below, has_id, holds_prefix, keeps_before, lemma_count_below_bound,
    log_after, replay, Checkpoint,
};
use crate::laws::lemma_log_after_ids;
use crate::key::{event_key, ContimeKey};
use crate::traits::{ApplyEvent, Event, Snapshot};

verus! {

broadcast use vstd::std_specs::hash::group_hash_axioms;

/// flume's sending end of a channel, carried as an opaque value.
#[verifier::external_type_specification]
#[verifier::external_body]
#[verifier::reject_recursive_types(T)]
pub struct ExSender<T>(Sender<T>);

/// flume's receiving end of a channel, carried as an opaque value.
#[verifier::external_type_specification]
#[verifier::external_body]
#[verifier::reject_recursive_types(T)]
pub struct ExReceiver<T>(Receiver<T>);

/// Relies on flume::bounded: a new channel of capacity `cap`; it does not panic.
pub assume_specification<T>[ flume::bounded::<T> ](cap: usize) -> (Sender<T>, Receiver<T>);

/// Relies on flume's `Clone` for `Receiver`: another handle on the same channel.
pub assume_specification<T>[ <Receiver<T> as Clone>::clone ](r: &Receiver<T>) -> Receiver<T>;

/// The default number of events between two checkpoints.
pub const CHECKPOINT_INTERVAL: usize = 100;

/// Capacity of the channel on which snapshot subscribers listen.
pub const SNAPSHOT_CHANNEL_CAPACITY: usize = 1000;

/// How a history applies a new event to its log and checkpoint chain; the
/// default is [`insert_new_event_in_place`].
pub trait Deps: Sized + Default {
    /// Whether the delta returned counts bytes; when it does not, it is zero.
    spec fn accounts_bytes() -> bool;

    /// Inserts `new_event`, whose id is not yet in the log, as
    /// [`insert_new_event_in_place`] does, and returns the change in bytes
    /// held.
    fn apply_event_in_place<S: Snapshot>(
        &self,
        new_event: S::Event,
        ordered_checkpoints: &mut VecDeque<Checkpoint<S>>,
        ordered_events: &mut VecDeque<S::Event>,
        checkpoint_interval: usize,
    ) -> (r: isize)
        requires
            chain_wf(old(ordered_checkpoints)@, old(ordered_events)@, checkpoint_interval),
            !has_id(old(ordered_events)@, new_event.spec_id()),
        ensures
            final(ordered_events)@ == log_after(old(ordered_events)@, new_event),
            chain_wf(final(ordered_checkpoints)@, final(ordered_events)@, checkpoint_interval),
            final(ordered_checkpoints)@[0] == old(ordered_checkpoints)@[0],
            keeps_before(
                old(ordered_checkpoints)@,
                final(ordered_checkpoints)@,
                count_below(old(ordered_events)@, event_key(new_event)) as int,
            ),
            !Self::accounts_bytes() ==> r == 0,
    ;
}

/// The engine of this crate, [`insert_new_event_in_place`]; it does not
/// account for bytes.
pub struct DefDeps;

impl Default for DefDeps {
    fn default() -> (d: DefDeps)
        ensures
            d == DefDeps,
    {
        DefDeps
    }
}

impl Deps for DefDeps {
    open spec fn accounts_bytes() -> bool {
        false
    }

    fn apply_event_in_place<S: Snapshot>(
        &self,
        new_event: S::Event,
        ordered_checkpoints: &mut VecDeque<Checkpoint<S>>,
        ordered_events: &mut VecDeque<S::Event>,
        checkpoint_interval: usize,
    ) -> (r: isize) {
        insert_new_event_in_place(new_event, ordered_checkpoints, ordered_events, checkpoint_interval);
        0
    }
}

/// The events of `log` at or before time `t`.
pub open spec fn events_until<E: Event>(log: Seq<E>, t: i64) -> Seq<E> {
    log.filter(|e: E| e.spec_time() <= t)
}

/// When `pred` holds exactly on the first `p` elements, filtering keeps them.
proof fn lemma_filter_is_prefix<E>(log: Seq<E>, pred: spec_fn(E) -> bool, p: int)
    requires
        0 <= p <= log.len(),
        forall|i: int| 0 <= i < p ==> pred(#[trigger] log[i]),
        forall|i: int| p <= i < log.len() ==> !pred(#[trigger] log[i]),
    ensures
        log.filter(pred) == log.take(p),
    decreases log.len(),
{
    reveal_with_fuel(Seq::filter, 1);
    if log.len() > 0 {
        let init = log.drop_last();
        if p == log.len() {
            assert forall|i: int| 0 <= i < p - 1 implies pred(#[trigger] init[i]) by {
                assert(init[i] == log[i]);
            }
            lemma_filter_is_prefix(init, pred, p - 1);
            assert(log.take(p) =~= init.take(p - 1).push(log.last()));
        } else {
            assert forall|i: int| 0 <= i < p implies pred(#[trigger] init[i]) by {
                assert(init[i] == log[i]);
            }
            assert forall|i: int| p <= i < init.len() implies !pred(#[trigger] init[i]) by {
                assert(init[i] == log[i]);
            }
            lemma_filter_is_prefix(init, pred, p);
            assert(log.take(p) =~= init.take(p));
        }
    } else {
        assert(log.take(p) =~= log);
    }
}

/// The history of one snapshot identity: its ordered event log, the ids
/// in it, and the chain of checkpoints materialized along it.
#[verifier::reject_recursive_types(S)]
pub struct LocalSnapshotHistory<S: Snapshot, D: Deps> {
    pub snapshot_id: u128,
    pub ordered_checkpoints: VecDeque<Checkpoint<S>>,
    pub ordered_events: VecDeque<S::Event>,
    pub event_ids: HashSet<u128>,
    pub checkpoint_interval: usize,
    pub snapshot_tx: Sender<S>,
    pub snapshot_rx: Receiver<S>,
    pub deps: D,
}

/// A history that applies events with this crate's engine.
pub type SnapshotHistory<S> = LocalSnapshotHistory<S, DefDeps>;

impl<S: Snapshot, D: Deps> LocalSnapshotHistory<S, D> {
    /// The event log.
    pub open spec fn log(&self) -> Seq<S::Event> {
        self.ordered_events@
    }

    /// The state before any event, at time 0: the origin checkpoint's.
    pub open spec fn initial(&self) -> S::V {
        self.ordered_checkpoints@[0].snapshot@
    }

    /// The history's invariant: the chain is consistent with the log, the
    /// origin is pre-filled so that it is never resumed in place, the id
    /// index holds exactly the ids of the log, and every event of the log
    /// targets this history's identity.
    pub open spec fn wf(&self) -> bool {
        &&& chain_wf(self.ordered_checkpoints@, self.ordered_events@, self.checkpoint_interval)
        &&& self.ordered_checkpoints@[0].event_count >= self.checkpoint_interval
        &&& forall|id: u128| #[trigger] self.event_ids@.contains(id) <==> has_id(self.ordered_events@, id)
        &&& forall|i: int|
            0 <= i < self.ordered_events@.len() ==> #[trigger] self.ordered_events@[i].spec_snapshot_id()
                == self.snapshot_id
    }

    /// A fresh history whose tail checkpoint is `state` as given and whose
    /// origin is `state` at time 0, pre-filled with `interval` events.
    pub open spec fn starts_from(&self, state: S::V, interval: usize) -> bool {
        &&& self.wf()
        &&& self.log() == Seq::<S::Event>::empty()
        &&& self.checkpoint_interval == interval
        &&& self.ordered_checkpoints@.len() == 2
        &&& self.initial() == S::spec_with_time(state, 0)
        &&& self.ordered_checkpoints@[0].next_event_index == 0
        &&& self.ordered_checkpoints@[0].event_count == interval
        &&& self.ordered_checkpoints@[1].snapshot@ == state
        &&& self.ordered_checkpoints@[1].next_event_index == 0
        &&& self.ordered_checkpoints@[1].event_count == 0
    }

    /// A history for the identity of `snapshot`, starting from `snapshot`,
    /// with the default checkpoint interval.
    pub fn new(snapshot: S) -> (h: Self)
        ensures
            h.starts_from(snapshot@, CHECKPOINT_INTERVAL),
            h.snapshot_id == S::view_id(snapshot@),
    {
        Self::with_checkpoint_interval(snapshot, CHECKPOINT_INTERVAL)
    }

    /// A history for `snapshot_id`, starting from the default state, with
    /// the default checkpoint interval.
    pub fn for_identity(snapshot_id: u128) -> (h: Self)
        ensures
            h.starts_from(S::spec_default(), CHECKPOINT_INTERVAL),
            h.snapshot_id == snapshot_id,
    {
        let mut h = Self::with_checkpoint_interval(S::default_state(), CHECKPOINT_INTERVAL);
        h.snapshot_id = snapshot_id;
        h
    }

    /// As [`LocalSnapshotHistory::new`], with `checkpoint_interval` events
    /// between two checkpoints.
    pub fn with_checkpoint_interval(snapshot: S, checkpoint_interval: usize) -> (h: Self)
        requires
            checkpoint_interval > 0,
        ensures
            h.starts_from(snapshot@, checkpoint_interval),
            h.snapshot_id == S::view_id(snapshot@),
    {
        let (snapshot_tx, snapshot_rx) = flume::bounded(SNAPSHOT_CHANNEL_CAPACITY);
        let snapshot_id = snapshot.id();
        let mut origin = snapshot.duplicate();
        origin.set_time(0);
        let mut ordered_checkpoints = VecDeque::new();
        ordered_checkpoints.push_back(
            Checkpoint { snapshot: origin, next_event_index: 0, event_count: checkpoint_interval },
        );
        ordered_checkpoints.push_back(Checkpoint::new(snapshot));
        let ordered_events = VecDeque::new();
        let h = Self {
            snapshot_id,
            ordered_checkpoints,
            ordered_events,
            event_ids: HashSet::new(),
            checkpoint_interval,
            snapshot_tx,
            snapshot_rx,
            deps: D::default(),
        };
        proof {
            S::lemma_with_time_twice(h.ordered_checkpoints@[1].snapshot@, 0, 0);
            assert(h.ordered_checkpoints@[0].snapshot@ == S::spec_with_time(
                h.ordered_checkpoints@[1].snapshot@,
                0,
            ));
            assert(holds_prefix(h.ordered_checkpoints@[0], h.initial(), h.log()));
            assert(holds_prefix(h.ordered_checkpoints@[1], h.initial(), h.log()));
        }
        h
    }

    /// Meant to prune what lies before `time`; prunes nothing yet.
    pub fn advance(&self, _time: i64) -> (r: isize)
        ensures
            r == 0,
    {
        0
    }

    /// Offers `event` to this history. An event for another identity, or one
    /// whose id is already in the log, changes nothing and returns 0; any
    /// other is inserted at its place in key order. Returns the change in
    /// bytes held that the engine reports.
    pub fn apply_event(&mut self, event: S::Event) -> (r: isize)
        requires
            old(self).wf(),
        ensures
            final(self).wf(),
            final(self).snapshot_id == old(self).snapshot_id,
            final(self).checkpoint_interval == old(self).checkpoint_interval,
            final(self).initial() == old(self).initial(),
            final(self).ordered_checkpoints@[0] == old(self).ordered_checkpoints@[0],
            event.spec_snapshot_id() != old(self).snapshot_id || has_id(
                old(self).log(),
                event.spec_id(),
            ) ==> *final(self) == *old(self) && r == 0,
            event.spec_snapshot_id() == old(self).snapshot_id ==> final(self).log() == log_after(
                old(self).log(),
                event,
            ),
            final(self).ordered_checkpoints@.len() == chain_len_for(
                final(self).log().len(),
                final(self).checkpoint_interval,
            ),
            keeps_before(
                old(self).ordered_checkpoints@,
                final(self).ordered_checkpoints@,
                count_below(old(self).log(), event_key(event)) as int,
            ),
            !D::accounts_bytes() ==> r == 0,
    {
        proof {
            lemma_chain_len(self.ordered_checkpoints@, self.ordered_events@, self.checkpoint_interval);
        }
        if event.snapshot_id() != self.snapshot_id {
            return 0;
        }
        let id = event.id();
        if self.event_ids.contains(&id) {
            return 0;
        }
        let ghost old_log = self.ordered_events@;
        let ghost e = event;
        let r = self.deps.apply_event_in_place(
            event,
            &mut self.ordered_checkpoints,
            &mut self.ordered_events,
            self.checkpoint_interval,
        );
        self.event_ids.insert(id);
        proof {
            let log = self.ordered_events@;
            lemma_chain_len(self.ordered_checkpoints@, log, self.checkpoint_interval);
            lemma_log_after_ids(old_log, e);
            let p = count_below(old_log, event_key(e)) as int;
            lemma_count_below_bound(old_log, event_key(e));
            assert forall|i: int| 0 <= i < log.len() implies #[trigger] log[i].spec_snapshot_id()
                == self.snapshot_id by {
                if i < p {
                    assert(log[i] == old_log[i]);
                } else if i > p {
                    assert(log[i] == old_log[i - 1]);
                }
            }
        }
        r
    }

    /// The state of this identity after every event at or before `time`, in
    /// key order, onto the initial state, each event stamping its time; with
    /// a handle on the channel of snapshot subscribers. The history is not
    /// changed.
    pub fn snapshot_at(&self, time: i64) -> (r: (S, Receiver<S>))
        requires
            self.wf(),
        ensures
            r.0@ == replay::<S>(self.initial(), events_until(self.log(), time)),
    {
        let ghost log = self.ordered_events@;
        let ghost init = self.initial();
        let end: usize = if time == i64::MAX {
            self.ordered_events.len()
        } else {
            count_keys_below(&self.ordered_events, ContimeKey { time: time + 1, id: 0 })
        };
        proof {
            let pred = |e: S::Event| e.spec_time() <= time;
            if time < i64::MAX {
                let bound = ContimeKey { time: (time + 1) as i64, id: 0 };
                assert forall|i: int| 0 <= i < end implies pred(#[trigger] log[i]) by {
                    assert(event_key(log[i]).spec_lt(bound));
                }
                assert forall|i: int| end <= i < log.len() implies !pred(#[trigger] log[i]) by {
                    assert(!event_key(log[i]).spec_lt(bound));
                }
            }
            lemma_filter_is_prefix(log, pred, end as int);
            assert(log.take(0) =~= Seq::<S::Event>::empty());
        }
        if end == 0 {
            return (self.ordered_checkpoints[0].snapshot.duplicate(), self.snapshot_rx.clone());
        }
        let j = resume_index(&self.ordered_checkpoints, Ghost(log), self.checkpoint_interval, end);
        let mut snapshot = self.ordered_checkpoints[j].snapshot.duplicate();
        let mut n: usize = self.ordered_checkpoints[j].next_event_index;
        proof {
            assert(holds_prefix(self.ordered_checkpoints@[j as int], init, log));
        }
        while n < end
            invariant
                self.wf(),
                log == self.ordered_events@,
                init == self.initial(),
                n <= end <= log.len(),
                0 < end,
                n == 0 ==> S::spec_with_time(snapshot@, 0) == init,
                n > 0 ==> snapshot@ == replay::<S>(init, log.take(n as int)),
            decreases end - n,
        {
            let ghost before = snapshot@;
            let event = &self.ordered_events[n];
            event.apply_to(&mut snapshot);
            snapshot.set_time(event.time());
            proof {
                lemma_prefix_state_step::<S>(before, n as int, init, log);
            }
            n = n + 1;
        }
        (snapshot, self.snapshot_rx.clone())
    }
}

} // verus!
