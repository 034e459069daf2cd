use std::collections::VecDeque;
use vstd::prelude::*;

use crate::checkpoint::{
    chain_len_for, chain_upto, chain_wf, count_below, has_id, holds_prefix, keeps_before,
    log_after, log_wf, replay, step, Checkpoint,
};
use crate::index::{index_before, is_partition_point, seen_at_or_above, seen_below};
use crate::key::{event_key, ContimeKey};
use crate::laws::lemma_log_after_wf;
use crate::traits::{ApplyEvent, Event, Snapshot};

verus! {

/// Replaying one more event of the log is one more step.
pub(crate) proof fn lemma_replay_take_step<S: Snapshot>(init: S::V, log: Seq<S::Event>, n: int)
    requires
        0 <= n < log.len(),
    ensures
        replay::<S>(init, log.take(n + 1)) == step::<S>(replay::<S>(init, log.take(n)), log[n]),
{
    assert(log.take(n + 1).drop_last() =~= log.take(n));
}

/// In a sorted log, the number of events below `k` is the partition point of `k`.
proof fn lemma_count_below_partition<E: Event>(log: Seq<E>, k: ContimeKey, p: int)
    requires
        0 <= p <= log.len(),
        forall|i: int| 0 <= i < p ==> #[trigger] event_key(log[i]).spec_lt(k),
        forall|i: int| p <= i < log.len() ==> !#[trigger] event_key(log[i]).spec_lt(k),
    ensures
        count_below(log, k) == p,
    decreases log.len(),
{
    if log.len() > 0 {
        let init = log.drop_last();
        if p == log.len() {
            assert forall|i: int| 0 <= i < p - 1 implies #[trigger] event_key(init[i]).spec_lt(k) by {
                assert(init[i] == log[i]);
            }
            lemma_count_below_partition(init, k, p - 1);
        } else {
            assert forall|i: int| 0 <= i < p implies #[trigger] event_key(init[i]).spec_lt(k) by {
                assert(init[i] == log[i]);
            }
            assert forall|i: int| p <= i < init.len() implies !#[trigger] event_key(init[i]).spec_lt(
                k,
            ) by {
                assert(init[i] == log[i]);
            }
            lemma_count_below_partition(init, k, p);
        }
    }
}

/// The checkpoint indexes from 1 on have non-decreasing `next_event_index`.
pub(crate) proof fn lemma_next_index_monotone<S: Snapshot>(
    cps: Seq<Checkpoint<S>>,
    log: Seq<S::Event>,
    interval: usize,
    n: int,
    a: int,
    b: int,
)
    requires
        chain_upto(cps, log, interval, n),
        0 <= a <= b < cps.len(),
    ensures
        cps[a].next_event_index <= cps[b].next_event_index,
    decreases b - a,
{
    if a < b {
        lemma_next_index_monotone(cps, log, interval, n, a, b - 1);
        assert(cps[b].next_event_index == cps[b - 1].next_event_index + cps[b].event_count);
    }
}

/// Whether some event of `events` has the id `id`.
fn contains_id<E: Event>(events: &VecDeque<E>, id: u128) -> (r: bool)
    ensures
        r == has_id(events@, id),
{
    let mut i: usize = 0;
    while i < events.len()
        invariant
            0 <= i <= events@.len(),
            forall|j: int| 0 <= j < i ==> #[trigger] events@[j].spec_id() != id,
        decreases events@.len() - i,
    {
        if events[i].id() == id {
            return true;
        }
        i += 1;
    }
    false
}

/// The last checkpoint whose state does not include the event at `position`
/// or any later one (binary search on `next_event_index`); the origin when no
/// other qualifies.
pub(crate) fn resume_index<S: Snapshot>(
    checkpoints: &VecDeque<Checkpoint<S>>,
    Ghost(log): Ghost<Seq<S::Event>>,
    interval: usize,
    position: usize,
) -> (j: usize)
    requires
        chain_wf(checkpoints@, log, interval),
    ensures
        j < checkpoints@.len(),
        checkpoints@[j as int].next_event_index <= position,
        j + 1 < checkpoints@.len() ==> checkpoints@[j + 1].next_event_index > position,
{
    let ghost cps = checkpoints@;
    let mut lo: usize = 0;
    let mut hi: usize = checkpoints.len();
    while lo + 1 < hi
        invariant
            chain_wf(cps, log, interval),
            cps == checkpoints@,
            0 <= lo < hi <= cps.len(),
            cps[lo as int].next_event_index <= position,
            hi < cps.len() ==> cps[hi as int].next_event_index > position,
        decreases hi - lo,
    {
        let mid = lo + (hi - lo) / 2;
        if checkpoints[mid].next_event_index <= position {
            lo = mid;
        } else {
            hi = mid;
        }
    }
    proof {
        if hi < cps.len() {
            assert(hi == lo + 1);
        }
    }
    lo
}

/// The number of events of the sorted log `events` whose key lies strictly
/// below `key`: the place at which an event of key `key` belongs.
pub(crate) fn count_keys_below<E: Event>(events: &VecDeque<E>, key: ContimeKey) -> (p: usize)
    requires
        log_wf(events@),
    ensures
        p <= events@.len(),
        forall|i: int| 0 <= i < p ==> #[trigger] event_key(events@[i]).spec_lt(key),
        forall|i: int| p <= i < events@.len() ==> !#[trigger] event_key(events@[i]).spec_lt(key),
{
    let ghost log = events@;
    let key_of = |e: &E| -> (k: ContimeKey)
        ensures
            k == event_key(*e),
        { ContimeKey::from_event(e) };
    proof {
        assert forall|i: int, j: int, ki: ContimeKey, kj: ContimeKey|
            0 <= i <= j < log.len() && #[trigger] key_of.ensures((&log[i],), ki)
                && #[trigger] key_of.ensures((&log[j],), kj) implies ki.spec_le(kj) by {
            if i < j {
                assert(event_key(log[i]).spec_lt(event_key(log[j])));
            }
        }
    }
    let len = events.len();
    let found = index_before(events, key, key_of);
    let position: usize = match found {
        None => 0,
        Some(i) => i + 1,
    };
    proof {
        let p = position as int;
        assert(is_partition_point(log, key_of, key, p));
        if p > 0 {
            assert(seen_below(log, key_of, p - 1, key));
            assert(event_key(log[p - 1]).spec_lt(key));
        }
        if p < log.len() {
            assert(seen_at_or_above(log, key_of, p, key));
            assert(!event_key(log[p]).spec_lt(key));
        }
        assert forall|i: int| 0 <= i < p implies #[trigger] event_key(log[i]).spec_lt(key) by {
            if i < p - 1 {
                assert(event_key(log[i]).spec_lt(event_key(log[p - 1])));
            }
        }
        assert forall|i: int| p <= i < log.len() implies !#[trigger] event_key(log[i]).spec_lt(
            key,
        ) by {
            if i > p {
                assert(event_key(log[p]).spec_lt(event_key(log[i])));
            }
        }
    }
    position
}

/// Inserting after position `p` leaves the first `m <= p` events alone.
proof fn lemma_insert_keeps_prefix<E>(log: Seq<E>, p: int, e: E, m: int)
    requires
        0 <= m <= p <= log.len(),
    ensures
        log.insert(p, e).take(m) == log.take(m),
{
    assert(log.insert(p, e).take(m) =~= log.take(m));
}

/// One replay step from a checkpoint that holds the first `n` events gives
/// one that holds the first `n + 1`.
proof fn lemma_holds_prefix_step<S: Snapshot>(
    c: Checkpoint<S>,
    next: Checkpoint<S>,
    origin: S::V,
    log: Seq<S::Event>,
)
    requires
        holds_prefix(c, origin, log),
        c.next_event_index < log.len(),
        next.next_event_index == c.next_event_index + 1,
        next.snapshot@ == step::<S>(c.snapshot@, log[c.next_event_index as int]),
    ensures
        holds_prefix(next, origin, log),
{
    lemma_prefix_state_step::<S>(c.snapshot@, c.next_event_index as int, origin, log);
}

/// One replay step from the state of the first `n` events (for `n == 0`, the
/// origin up to its time) gives the state of the first `n + 1`.
pub(crate) proof fn lemma_prefix_state_step<S: Snapshot>(
    state: S::V,
    n: int,
    origin: S::V,
    log: Seq<S::Event>,
)
    requires
        0 <= n < log.len(),
        n == 0 ==> S::spec_with_time(state, 0) == origin,
        n > 0 ==> state == replay::<S>(origin, log.take(n)),
    ensures
        step::<S>(state, log[n]) == replay::<S>(origin, log.take(n + 1)),
{
    lemma_replay_take_step::<S>(origin, log, n);
    if n == 0 {
        assert(log.take(0) =~= Seq::<S::Event>::empty());
        S::lemma_step_ignores_time(state, 0, log[0]);
    }
}

/// Inserts `new_event`, whose id is not yet in the log, at its place in key
/// order, and brings the checkpoint chain up to date with it.
///
/// Replay resumes from the last checkpoint that the new event does not
/// invalidate; checkpoints before it are kept, those after it are rebuilt
/// forward, a new one being forked each time the current one holds
/// `checkpoint_interval` events. The first checkpoint, the origin, is never
/// changed.
pub fn insert_new_event_in_place<S: Snapshot>(
    new_event: S::Event,
    ordered_checkpoints: &mut VecDeque<Checkpoint<S>>,
    ordered_events: &mut VecDeque<S::Event>,
    checkpoint_interval: usize,
)
    requires
        chain_wf(old(ordered_checkpoints)@, old(ordered_events)@, checkpoint_interval),
        !has_id(old(ordered_events)@, new_event.spec_id()),
    ensures
        final(ordered_events)@ == log_after(old(ordered_events)@, new_event),
        final(ordered_events)@ == old(ordered_events)@.insert(
            count_below(old(ordered_events)@, event_key(new_event)) as int,
            new_event,
        ),
        chain_wf(final(ordered_checkpoints)@, final(ordered_events)@, checkpoint_interval),
        final(ordered_checkpoints)@[0] == old(ordered_checkpoints)@[0],
        keeps_before(
            old(ordered_checkpoints)@,
            final(ordered_checkpoints)@,
            count_below(old(ordered_events)@, event_key(new_event)) as int,
        ),
        final(ordered_checkpoints)@.len() == chain_len_for(
            final(ordered_events)@.len(),
            checkpoint_interval,
        ),
        old(ordered_checkpoints)@.len() <= final(ordered_checkpoints)@.len() <= old(
            ordered_checkpoints,
        )@.len() + 1,
{
    let ghost old_log = ordered_events@;
    let ghost old_cps = ordered_checkpoints@;
    let ghost init = old_cps[0].snapshot@;
    let key = ContimeKey::from_event(&new_event);
    let position = count_keys_below(ordered_events, key);
    proof {
        lemma_count_below_partition(old_log, key, position as int);
    }
    let j = resume_index(ordered_checkpoints, Ghost(old_log), checkpoint_interval, position);
    proof {
        assert forall|k: int|
            0 <= k && k + 1 < old_cps.len() && #[trigger] old_cps[k + 1].next_event_index
                <= position implies k < j by {
            if k + 1 > j {
                lemma_next_index_monotone(
                    old_cps,
                    old_log,
                    checkpoint_interval,
                    old_log.len() as int,
                    j + 1,
                    k + 1,
                );
            }
        }
    }
    ordered_events.insert(position, new_event);
    let ghost log = ordered_events@;
    proof {
        assert(log == log_after(old_log, new_event));
        lemma_log_after_wf(old_log, new_event);
    }
    // every checkpoint after `j` is rebuilt by the replay below
    let chain_len = ordered_checkpoints.len();
    assert(j < chain_len);
    ordered_checkpoints.truncate(j + 1);
    let mut cur: Checkpoint<S>;
    if j == 0 {
        // resuming from the origin: fork a copy of it, leave it untouched
        cur = ordered_checkpoints[0].duplicate();
        cur.event_count = 0;
    } else {
        cur = ordered_checkpoints.pop_back().unwrap();
    }
    let mut n: usize = cur.next_event_index;
    proof {
        let full = ordered_checkpoints@.push(cur);
        assert forall|k: int| 0 <= k <= j implies #[trigger] old_cps[k].next_event_index <= n by {
            lemma_next_index_monotone(old_cps, old_log, checkpoint_interval, old_log.len() as int, k, j as int);
        }
        assert forall|k: int| 0 <= k < full.len() implies {
            &&& #[trigger] full[k].next_event_index <= n
            &&& holds_prefix(full[k], full[0].snapshot@, log)
        } by {
            if j > 0 || k == 0 {
                assert(full[k] == old_cps[k]);
                assert(holds_prefix(old_cps[k], init, old_log));
            } else {
                assert(holds_prefix(old_cps[0], init, old_log));
            }
            lemma_insert_keeps_prefix(old_log, position as int, new_event, full[k].next_event_index as int);
        }
        assert forall|k: int| 1 <= k < full.len() implies {
            &&& #[trigger] full[k].event_count <= checkpoint_interval
            &&& full[k].next_event_index == full[k - 1].next_event_index + full[k].event_count
            &&& k < full.len() - 1 ==> full[k].event_count == checkpoint_interval
        } by {
            if j > 0 {
                assert(full[k] == old_cps[k]);
                assert(full[k - 1] == old_cps[k - 1]);
            }
        }
        assert(chain_upto(full, log, checkpoint_interval, n as int));
        if n > 0 {
            if j + 1 < old_cps.len() {
                assert(old_cps[j as int].event_count == checkpoint_interval);
            } else {
                assert(old_log.len() > 0);
            }
        }
    }
    while n < ordered_events.len()
        invariant
            log == ordered_events@,
            chain_upto(ordered_checkpoints@.push(cur), log, checkpoint_interval, n as int),
            n > 0 ==> cur.event_count >= 1,
            ordered_checkpoints@.len() >= 1,
            old_cps.len() >= 2,
            ordered_checkpoints@[0] == old_cps[0],
            init == old_cps[0].snapshot@,
            j <= ordered_checkpoints@.len(),
            forall|k: int| 0 <= k < j ==> #[trigger] ordered_checkpoints@[k] == old_cps[k],
        decreases log.len() - n,
    {
        let ghost full0 = ordered_checkpoints@.push(cur);
        if cur.event_count >= checkpoint_interval {
            ordered_checkpoints.push_back(cur.duplicate());
            cur.event_count = 0;
            proof {
                let full = ordered_checkpoints@.push(cur);
                assert forall|k: int| 0 <= k < full.len() implies {
                    &&& #[trigger] full[k].next_event_index <= n
                    &&& holds_prefix(full[k], full[0].snapshot@, log)
                } by {
                    if k < full.len() - 1 {
                        assert(full[k].snapshot@ == full0[k].snapshot@);
                        assert(full[k].next_event_index == full0[k].next_event_index);
                        assert(holds_prefix(full0[k], init, log));
                    } else {
                        assert(full[k].snapshot@ == full0[k - 1].snapshot@);
                        assert(holds_prefix(full0[k - 1], init, log));
                    }
                }
                assert forall|k: int| 1 <= k < full.len() implies {
                    &&& #[trigger] full[k].event_count <= checkpoint_interval
                    &&& full[k].next_event_index == full[k - 1].next_event_index
                        + full[k].event_count
                    &&& k < full.len() - 1 ==> full[k].event_count == checkpoint_interval
                } by {
                    if k < full.len() - 1 {
                        assert(full[k].event_count == full0[k].event_count);
                        assert(full[k].next_event_index == full0[k].next_event_index);
                        assert(full[k - 1].next_event_index == full0[k - 1].next_event_index);
                    } else {
                        assert(full[k - 1].next_event_index == full0[k - 1].next_event_index);
                    }
                }
                assert(chain_upto(full, log, checkpoint_interval, n as int));
            }
        }
        let ghost full1 = ordered_checkpoints@.push(cur);
        let ghost before = cur;
        let event = &ordered_events[n];
        event.apply_to(&mut cur.snapshot);
        cur.snapshot.set_time(event.time());
        cur.event_count = cur.event_count + 1;
        cur.next_event_index = cur.next_event_index + 1;
        n = n + 1;
        proof {
            assert(holds_prefix(before, init, log)) by {
                assert(full1[full1.len() - 1] == before);
            }
            lemma_holds_prefix_step(before, cur, init, log);
            let full = ordered_checkpoints@.push(cur);
            assert forall|k: int| 0 <= k < full.len() implies {
                &&& #[trigger] full[k].next_event_index <= n
                &&& holds_prefix(full[k], full[0].snapshot@, log)
            } by {
                if k < full.len() - 1 {
                    assert(full[k] == full1[k]);
                }
            }
            assert forall|k: int| 1 <= k < full.len() implies {
                &&& #[trigger] full[k].event_count <= checkpoint_interval
                &&& full[k].next_event_index == full[k - 1].next_event_index + full[k].event_count
                &&& k < full.len() - 1 ==> full[k].event_count == checkpoint_interval
            } by {
                if k < full.len() - 1 {
                    assert(full[k] == full1[k]);
                }
                assert(full[k - 1].next_event_index == full1[k - 1].next_event_index);
            }
            assert(chain_upto(full, log, checkpoint_interval, n as int));
        }
    }
    ordered_checkpoints.push_back(cur);
    proof {
        let cps = ordered_checkpoints@;
        assert(chain_wf(cps, log, checkpoint_interval));
        assert forall|k: int|
            0 <= k && k + 1 < old_cps.len() && #[trigger] old_cps[k + 1].next_event_index
                <= position implies k < cps.len() && cps[k] == old_cps[k] by {
            assert(k < j);
        }
        lemma_chain_len(cps, log, checkpoint_interval);
        lemma_chain_len(old_cps, old_log, checkpoint_interval);
        lemma_chain_len_step(old_log.len(), checkpoint_interval);
    }
}

/// Inserts `new_event` into the log at its place in key order and brings the
/// checkpoint chain up to date with it (see [`insert_new_event_in_place`]).
/// An event whose id is already in the log is ignored; finding it takes a
/// pass over the log, which a caller that keeps its own index of ids can
/// spare by calling [`insert_new_event_in_place`]. Returns the change in
/// bytes held, which this engine does not account for: always zero.
pub fn apply_event_in_place<S: Snapshot>(
    new_event: S::Event,
    ordered_checkpoints: &mut VecDeque<Checkpoint<S>>,
    ordered_events: &mut VecDeque<S::Event>,
    checkpoint_interval: usize,
) -> (r: isize)
    requires
        chain_wf(old(ordered_checkpoints)@, old(ordered_events)@, checkpoint_interval),
    ensures
        r == 0,
        final(ordered_events)@ == log_after(old(ordered_events)@, new_event),
        chain_wf(final(ordered_checkpoints)@, final(ordered_events)@, checkpoint_interval),
        final(ordered_checkpoints)@[0] == old(ordered_checkpoints)@[0],
        final(ordered_checkpoints)@.len() == chain_len_for(
            final(ordered_events)@.len(),
            checkpoint_interval,
        ),
        old(ordered_checkpoints)@.len() <= final(ordered_checkpoints)@.len() <= old(
            ordered_checkpoints,
        )@.len() + 1,
        keeps_before(
            old(ordered_checkpoints)@,
            final(ordered_checkpoints)@,
            count_below(old(ordered_events)@, event_key(new_event)) as int,
        ),
        has_id(old(ordered_events)@, new_event.spec_id()) ==> final(ordered_checkpoints)@ == old(
            ordered_checkpoints,
        )@,
{
    // the first event with a given id wins, whatever its time
    if contains_id(ordered_events, new_event.id()) {
        proof {
            lemma_chain_len(ordered_checkpoints@, ordered_events@, checkpoint_interval);
        }
        return 0;
    }
    insert_new_event_in_place(new_event, ordered_checkpoints, ordered_events, checkpoint_interval);
    0
}

/// Along a consistent chain, each checkpoint after the origin starts
/// `interval` events after its predecessor.
proof fn lemma_chain_next_index<S: Snapshot>(
    cps: Seq<Checkpoint<S>>,
    log: Seq<S::Event>,
    interval: usize,
    k: int,
)
    requires
        chain_wf(cps, log, interval),
        1 <= k < cps.len(),
    ensures
        cps[k].next_event_index == (k - 1) * interval + cps[k].event_count,
    decreases k,
{
    assert(cps[k].next_event_index == cps[k - 1].next_event_index + cps[k].event_count);
    if k > 1 {
        lemma_chain_next_index(cps, log, interval, k - 1);
        assert(cps[k - 1].event_count == interval);
        assert((k - 2) * interval + interval == (k - 1) * interval) by (nonlinear_arith);
    } else {
        assert((k - 1) * interval == 0) by (nonlinear_arith)
            requires
                k == 1,
        ;
    }
}

/// A consistent chain's length is fixed by the log's length.
pub proof fn lemma_chain_len<S: Snapshot>(cps: Seq<Checkpoint<S>>, log: Seq<S::Event>, interval: usize)
    requires
        chain_wf(cps, log, interval),
    ensures
        cps.len() == chain_len_for(log.len(), interval),
{
    let l = cps.len() as int;
    let iv = interval as int;
    lemma_chain_next_index(cps, log, interval, l - 1);
    let c = cps[l - 1].event_count as int;
    if log.len() == 0 {
        if l > 2 {
            lemma_chain_next_index(cps, log, interval, 1);
            lemma_next_index_monotone(cps, log, interval, 0, 1, l - 1);
        }
    } else {
        assert((l - 2) * iv == iv * (l - 2)) by (nonlinear_arith);
        assert(log.len() - 1 == iv * (l - 2) + (c - 1));
        vstd::arithmetic::div_mod::lemma_div_multiples_vanish_fancy(l - 2, c - 1, iv);
    }
}

/// One more event lengthens a chain by at most one checkpoint.
proof fn lemma_chain_len_step(n: nat, interval: usize)
    requires
        interval > 0,
    ensures
        chain_len_for(n, interval) <= chain_len_for(n + 1, interval) <= chain_len_for(n, interval)
            + 1,
{
    if n > 0 {
        let iv = interval as int;
        vstd::arithmetic::div_mod::lemma_div_is_ordered(n - 1, n as int, iv);
        vstd::arithmetic::div_mod::lemma_div_is_ordered(n as int, iv + (n - 1), iv);
        vstd::arithmetic::div_mod::lemma_div_plus_one(n - 1, iv);
    } else {
        assert(0int / (interval as int) == 0);
    }
}

} // verus!
