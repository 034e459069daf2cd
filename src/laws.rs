use vstd::prelude::*;

use crate::apply::lemma_next_index_monotone;
use crate::checkpoint::{
    chain_wf, count_below, has_id, log_after, log_wf, replay, strictly_sorted, Checkpoint,
};
use crate::key::{event_key, ContimeKey};
use crate::history::{events_until, Deps, LocalSnapshotHistory};
use crate::traits::{ApplyEvent, Event, Snapshot};

verus! {

/// In a sorted log, `count_below` is the partition point of `k`.
pub proof fn lemma_count_below_splits<E: Event>(log: Seq<E>, k: ContimeKey)
    requires
        strictly_sorted(log),
    ensures
        count_below(log, k) <= log.len(),
        forall|i: int|
            0 <= i < count_below(log, k) ==> #[trigger] event_key(log[i]).spec_lt(k),
        forall|i: int|
            count_below(log, k) <= i < log.len() ==> !#[trigger] event_key(log[i]).spec_lt(k),
    decreases log.len(),
{
    if log.len() > 0 {
        let init = log.drop_last();
        assert forall|i: int, j: int| 0 <= i < j < init.len() implies #[trigger] event_key(
            init[i],
        ).spec_lt(#[trigger] event_key(init[j])) by {
            assert(init[i] == log[i] && init[j] == log[j]);
        }
        lemma_count_below_splits(init, k);
        let last = log.len() - 1;
        if event_key(log.last()).spec_lt(k) {
            assert forall|i: int| 0 <= i < log.len() implies #[trigger] event_key(log[i]).spec_lt(
                k,
            ) by {
                if i < last {
                    assert(event_key(log[i]).spec_lt(event_key(log[last])));
                }
            }
        } else {
            assert forall|i: int| 0 <= i < count_below(log, k) implies #[trigger] event_key(
                log[i],
            ).spec_lt(k) by {
                assert(init[i] == log[i]);
            }
            assert forall|i: int| count_below(log, k) <= i < log.len() implies !#[trigger] event_key(
                log[i],
            ).spec_lt(k) by {
                if i < last {
                    assert(init[i] == log[i]);
                }
            }
        }
    }
}

/// Offering an event to a well-formed log leaves it well-formed; the log then
/// holds the event's id, and exactly the events it held before plus, when its
/// id was new, the event.
pub proof fn lemma_log_after_wf<E: Event>(log: Seq<E>, e: E)
    requires
        log_wf(log),
    ensures
        log_wf(log_after(log, e)),
        has_id(log_after(log, e), e.spec_id()),
        forall|x: E|
            #[trigger] log_after(log, e).contains(x) <==> (log.contains(x) || (x == e && !has_id(
                log,
                e.spec_id(),
            ))),
{
    if !has_id(log, e.spec_id()) {
        let key = event_key(e);
        let p = count_below(log, key) as int;
        lemma_count_below_splits(log, key);
        let new = log.insert(p, e);
        assert(new[p] == e);
        assert forall|a: int, b: int| 0 <= a < b < new.len() implies #[trigger] event_key(
            new[a],
        ).spec_lt(#[trigger] event_key(new[b])) by {
            if b < p {
            } else if b == p {
            } else if a < p {
                assert(new[b] == log[b - 1]);
            } else if a == p {
                assert(new[b] == log[b - 1]);
                if b - 1 > p {
                    assert(event_key(log[p]).spec_lt(event_key(log[b - 1])));
                }
                assert(!event_key(log[b - 1]).spec_lt(key));
                assert(log[b - 1].spec_id() != e.spec_id());
            } else {
                assert(new[a] == log[a - 1]);
                assert(new[b] == log[b - 1]);
            }
        }
        assert forall|a: int, b: int|
            0 <= a < new.len() && 0 <= b < new.len() && a != b implies #[trigger] new[a].spec_id()
            != #[trigger] new[b].spec_id() by {
            if a != p && b != p {
                let a0 = if a < p { a } else { a - 1 };
                let b0 = if b < p { b } else { b - 1 };
                assert(new[a] == log[a0]);
                assert(new[b] == log[b0]);
            } else if a == p {
                let b0 = if b < p { b } else { b - 1 };
                assert(new[b] == log[b0]);
            } else {
                let a0 = if a < p { a } else { a - 1 };
                assert(new[a] == log[a0]);
            }
        }
        assert forall|x: E| #[trigger] new.contains(x) <==> (log.contains(x) || x == e) by {
            if new.contains(x) {
                let i = choose|i: int| 0 <= i < new.len() && new[i] == x;
                if i < p {
                    assert(log[i] == x);
                } else if i > p {
                    assert(log[i - 1] == x);
                }
            }
            if log.contains(x) {
                let i = choose|i: int| 0 <= i < log.len() && log[i] == x;
                if i < p {
                    assert(new[i] == x);
                } else {
                    assert(new[i + 1] == x);
                }
            }
        }
    }
}

/// The ids of the log after a new event is offered are those before, and
/// the event's.
pub proof fn lemma_log_after_ids<E: Event>(log: Seq<E>, e: E)
    requires
        log_wf(log),
    ensures
        forall|id: u128|
            #[trigger] has_id(log_after(log, e), id) <==> (has_id(log, id) || id == e.spec_id()),
{
    lemma_log_after_wf(log, e);
    let new = log_after(log, e);
    assert forall|id: u128| #[trigger] has_id(new, id) <==> (has_id(log, id) || id == e.spec_id()) by {
        if has_id(new, id) {
            let i = choose|i: int| 0 <= i < new.len() && #[trigger] new[i].spec_id() == id;
            assert(new.contains(new[i]));
            if log.contains(new[i]) {
                let k = choose|k: int| 0 <= k < log.len() && log[k] == new[i];
                assert(log[k].spec_id() == id);
            }
        }
        if has_id(log, id) {
            let i = choose|i: int| 0 <= i < log.len() && #[trigger] log[i].spec_id() == id;
            assert(log.contains(log[i]));
            assert(new.contains(log[i]));
            let k = choose|k: int| 0 <= k < new.len() && new[k] == log[i];
            assert(new[k].spec_id() == id);
        }
    }
}

/// Offering the same event twice changes the log no more than offering it once.
pub proof fn lemma_apply_twice<E: Event>(log: Seq<E>, e: E)
    requires
        log_wf(log),
    ensures
        log_after(log_after(log, e), e) == log_after(log, e),
{
    lemma_log_after_wf(log, e);
}

/// Two well-formed logs that hold the same events are the same log.
pub proof fn lemma_log_determined_by_events<E: Event>(a: Seq<E>, b: Seq<E>)
    requires
        log_wf(a),
        log_wf(b),
        forall|x: E| a.contains(x) <==> b.contains(x),
    ensures
        a == b,
    decreases a.len(),
{
    if a.len() == 0 {
        if b.len() > 0 {
            assert(b.contains(b[0]));
        }
        assert(a =~= b);
    } else {
        assert(a.contains(a.last()));
        let m = choose|m: int| 0 <= m < b.len() && b[m] == a.last();
        assert(b.contains(b.last()));
        let n = choose|n: int| 0 <= n < a.len() && a[n] == b.last();
        let la = a.len() - 1;
        let lb = b.len() - 1;
        if m < lb {
            assert(event_key(b[m]).spec_lt(event_key(b[lb])));
            if n < la {
                assert(event_key(a[n]).spec_lt(event_key(a[la])));
            }
            assert(false);
        }
        let a2 = a.drop_last();
        let b2 = b.drop_last();
        assert forall|i: int, j: int| 0 <= i < j < a2.len() implies #[trigger] event_key(
            a2[i],
        ).spec_lt(#[trigger] event_key(a2[j])) by {
            assert(a2[i] == a[i] && a2[j] == a[j]);
        }
        assert forall|i: int, j: int| 0 <= i < j < b2.len() implies #[trigger] event_key(
            b2[i],
        ).spec_lt(#[trigger] event_key(b2[j])) by {
            assert(b2[i] == b[i] && b2[j] == b[j]);
        }
        assert forall|i: int, j: int|
            0 <= i < a2.len() && 0 <= j < a2.len() && i != j implies #[trigger] a2[i].spec_id()
            != #[trigger] a2[j].spec_id() by {
            assert(a2[i] == a[i] && a2[j] == a[j]);
        }
        assert forall|i: int, j: int|
            0 <= i < b2.len() && 0 <= j < b2.len() && i != j implies #[trigger] b2[i].spec_id()
            != #[trigger] b2[j].spec_id() by {
            assert(b2[i] == b[i] && b2[j] == b[j]);
        }
        assert forall|x: E| a2.contains(x) <==> b2.contains(x) by {
            if a2.contains(x) {
                let i = choose|i: int| 0 <= i < a2.len() && a2[i] == x;
                assert(a.contains(x));
                let j = choose|j: int| 0 <= j < b.len() && b[j] == x;
                if j == lb {
                    assert(a[i] == a[la]);
                    assert(event_key(a[i]).spec_lt(event_key(a[la])));
                }
                assert(b2[j] == x);
            }
            if b2.contains(x) {
                let j = choose|j: int| 0 <= j < b2.len() && b2[j] == x;
                assert(b.contains(x));
                let i = choose|i: int| 0 <= i < a.len() && a[i] == x;
                if i == la {
                    assert(b[j] == b[lb]);
                    assert(event_key(b[j]).spec_lt(event_key(b[lb])));
                }
                assert(a2[i] == x);
            }
        }
        lemma_log_determined_by_events(a2, b2);
        assert(a =~= a2.push(a.last()));
        assert(b =~= b2.push(b.last()));
    }
}

/// Two events with distinct ids may be offered in either order: the log comes
/// out the same.
pub proof fn lemma_apply_commutes<E: Event>(log: Seq<E>, e1: E, e2: E)
    requires
        log_wf(log),
        e1.spec_id() != e2.spec_id(),
    ensures
        log_after(log_after(log, e1), e2) == log_after(log_after(log, e2), e1),
{
    let l1 = log_after(log, e1);
    let l2 = log_after(log, e2);
    lemma_log_after_wf(log, e1);
    lemma_log_after_wf(log, e2);
    lemma_log_after_wf(l1, e2);
    lemma_log_after_wf(l2, e1);
    let a = log_after(l1, e2);
    let b = log_after(l2, e1);
    assert(has_id(l1, e2.spec_id()) <==> has_id(log, e2.spec_id())) by {
        if has_id(l1, e2.spec_id()) {
            let i = choose|i: int| 0 <= i < l1.len() && #[trigger] l1[i].spec_id() == e2.spec_id();
            assert(l1.contains(l1[i]));
            assert(log.contains(l1[i]));
        }
        if has_id(log, e2.spec_id()) {
            let i = choose|i: int| 0 <= i < log.len() && #[trigger] log[i].spec_id() == e2.spec_id();
            assert(log.contains(log[i]));
            assert(l1.contains(log[i]));
        }
    }
    assert(has_id(l2, e1.spec_id()) <==> has_id(log, e1.spec_id())) by {
        if has_id(l2, e1.spec_id()) {
            let i = choose|i: int| 0 <= i < l2.len() && #[trigger] l2[i].spec_id() == e1.spec_id();
            assert(l2.contains(l2[i]));
            assert(log.contains(l2[i]));
        }
        if has_id(log, e1.spec_id()) {
            let i = choose|i: int| 0 <= i < log.len() && #[trigger] log[i].spec_id() == e1.spec_id();
            assert(log.contains(log[i]));
            assert(l2.contains(log[i]));
        }
    }
    assert forall|x: E| a.contains(x) <==> b.contains(x) by {
        assert(a.contains(x) == l1.contains(x) || (x == e2 && !has_id(l1, e2.spec_id())));
        assert(b.contains(x) == l2.contains(x) || (x == e1 && !has_id(l2, e1.spec_id())));
    }
    lemma_log_determined_by_events(a, b);
}

/// A state replayed from at least one event carries the time of the last one.
proof fn lemma_replay_time<S: Snapshot>(init: S::V, log: Seq<S::Event>, m: int)
    requires
        0 < m <= log.len(),
    ensures
        S::view_time(replay::<S>(init, log.take(m))) == log[m - 1].spec_time(),
{
    let pre = log.take(m);
    assert(pre.last() == log[m - 1]);
    S::lemma_with_time(pre.last().spec_apply(replay::<S>(init, pre.drop_last())), pre.last().spec_time());
}

/// Along a consistent chain, the checkpoints after the origin that hold at
/// least one event are ordered by time. (Their identities are not compared:
/// an event may change a state's identity. The origin and a checkpoint that
/// holds no event carry time 0, which events may precede.)
pub proof fn lemma_chain_times_ordered<S: Snapshot>(
    cps: Seq<Checkpoint<S>>,
    log: Seq<S::Event>,
    interval: usize,
    a: int,
    b: int,
)
    requires
        chain_wf(cps, log, interval),
        1 <= a <= b < cps.len(),
        cps[a].next_event_index > 0,
    ensures
        S::view_time(cps[a].snapshot@) <= S::view_time(cps[b].snapshot@),
{
    lemma_next_index_monotone(cps, log, interval, log.len() as int, a, b);
    let ma = cps[a].next_event_index as int;
    let mb = cps[b].next_event_index as int;
    lemma_replay_time::<S>(cps[0].snapshot@, log, ma);
    lemma_replay_time::<S>(cps[0].snapshot@, log, mb);
    if ma < mb {
        assert(event_key(log[ma - 1]).spec_lt(event_key(log[mb - 1])));
    }
}

/// Two well-formed histories with the same initial state whose logs hold the
/// same events answer every query alike, whatever order the events came in.
pub proof fn lemma_histories_agree<S: Snapshot, D: Deps>(
    h1: LocalSnapshotHistory<S, D>,
    h2: LocalSnapshotHistory<S, D>,
    time: i64,
)
    requires
        h1.wf(),
        h2.wf(),
        h1.initial() == h2.initial(),
        forall|x: S::Event| h1.log().contains(x) <==> h2.log().contains(x),
    ensures
        replay::<S>(h1.initial(), events_until(h1.log(), time)) == replay::<S>(
            h2.initial(),
            events_until(h2.log(), time),
        ),
{
    lemma_log_determined_by_events(h1.log(), h2.log());
}

} // verus!
