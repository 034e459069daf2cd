use std::collections::VecDeque;
use vstd::prelude::*;

use crate::key::ContimeKey;

verus! {

/// `f` can be called on every element of `items`.
pub open spec fn callable_on<T, F: Fn(&T) -> ContimeKey>(items: Seq<T>, f: F) -> bool {
    forall|i: int| 0 <= i < items.len() ==> #[trigger] f.requires((&items[i],))
}

/// The keys that `f` gives to the elements of `items` never decrease.
pub open spec fn sorted_by_key<T, F: Fn(&T) -> ContimeKey>(items: Seq<T>, f: F) -> bool {
    forall|i: int, j: int, ki: ContimeKey, kj: ContimeKey|
        0 <= i <= j < items.len() && #[trigger] f.ensures((&items[i],), ki) && #[trigger] f.ensures(
            (&items[j],),
            kj,
        ) ==> ki.spec_le(kj)
}

/// Every key that `f` gives to `items[i]` is strictly below `key`.
pub open spec fn below<T, F: Fn(&T) -> ContimeKey>(items: Seq<T>, f: F, i: int, key: ContimeKey) -> bool {
    forall|k: ContimeKey| #[trigger] f.ensures((&items[i],), k) ==> k.spec_lt(key)
}

/// Every key that `f` gives to `items[i]` is at or above `key`.
pub open spec fn at_or_above<T, F: Fn(&T) -> ContimeKey>(
    items: Seq<T>,
    f: F,
    i: int,
    key: ContimeKey,
) -> bool {
    forall|k: ContimeKey| #[trigger] f.ensures((&items[i],), k) ==> !k.spec_lt(key)
}

/// `f` has been seen to give `items[i]` a key strictly below `key`.
pub open spec fn seen_below<T, F: Fn(&T) -> ContimeKey>(items: Seq<T>, f: F, i: int, key: ContimeKey) -> bool {
    exists|k: ContimeKey| #[trigger] f.ensures((&items[i],), k) && k.spec_lt(key)
}

/// `f` has been seen to give `items[i]` a key at or above `key`.
pub open spec fn seen_at_or_above<T, F: Fn(&T) -> ContimeKey>(
    items: Seq<T>,
    f: F,
    i: int,
    key: ContimeKey,
) -> bool {
    exists|k: ContimeKey| #[trigger] f.ensures((&items[i],), k) && !k.spec_lt(key)
}

/// The number of leading elements of `items` whose keys lie strictly below `key`
/// (the partition point): every element before `p` is below, every one from `p`
/// on is not.
pub open spec fn is_partition_point<T, F: Fn(&T) -> ContimeKey>(
    items: Seq<T>,
    f: F,
    key: ContimeKey,
    p: int,
) -> bool {
    &&& 0 <= p <= items.len()
    &&& forall|i: int| 0 <= i < p ==> below(items, f, i, key)
    &&& forall|i: int| p <= i < items.len() ==> at_or_above(items, f, i, key)
    &&& p > 0 ==> seen_below(items, f, p - 1, key)
    &&& p < items.len() ==> seen_at_or_above(items, f, p, key)
}

/// Binary search for the partition point of `key` in `items`.
fn partition_point<T, F: Fn(&T) -> ContimeKey>(items: &VecDeque<T>, key: &ContimeKey, key_func: &F) -> (p: usize)
    requires
        callable_on(items@, *key_func),
    ensures
        p <= items@.len(),
        sorted_by_key(items@, *key_func) ==> is_partition_point(items@, *key_func, *key, p as int),
{
    let ghost sorted = sorted_by_key(items@, *key_func);
    let mut lo: usize = 0;
    let mut hi: usize = items.len();
    while lo < hi
        invariant
            0 <= lo <= hi <= items@.len(),
            callable_on(items@, *key_func),
            sorted == sorted_by_key(items@, *key_func),
            sorted ==> forall|i: int| 0 <= i < lo ==> below(items@, *key_func, i, *key),
            sorted ==> forall|i: int| hi <= i < items@.len() ==> at_or_above(items@, *key_func, i, *key),
            lo > 0 ==> seen_below(items@, *key_func, lo - 1, *key),
            hi < items@.len() ==> seen_at_or_above(items@, *key_func, hi as int, *key),
        decreases hi - lo,
    {
        let mid = lo + (hi - lo) / 2;
        let k = key_func(&items[mid]);
        if k < *key {
            proof {
                if sorted {
                    assert forall|i: int| 0 <= i <= mid implies below(items@, *key_func, i, *key) by {
                        assert forall|ki: ContimeKey| #[trigger] key_func.ensures((&items@[i],), ki) implies ki.spec_lt(*key) by {
                            assert(ki.spec_le(k));
                        }
                    }
                }
            }
            lo = mid + 1;
        } else {
            proof {
                if sorted {
                    assert forall|i: int| mid <= i < items@.len() implies at_or_above(items@, *key_func, i, *key) by {
                        assert forall|ki: ContimeKey| #[trigger] key_func.ensures((&items@[i],), ki) implies !ki.spec_lt(*key) by {
                            assert(k.spec_le(ki));
                        }
                    }
                }
            }
            hi = mid;
        }
    }
    lo
}

/// The index of the last element whose key is strictly below `key`, or `None`
/// when there is none (empty input, or `key` at or below the first key).
/// On input that is not sorted by key it still returns, with `None` or an
/// index in range.
pub fn index_before<T, F>(items: &VecDeque<T>, key: ContimeKey, key_func: F) -> (r: Option<usize>)
    where
        F: Fn(&T) -> ContimeKey,
    requires
        callable_on(items@, key_func),
    ensures
        items@.len() == 0 ==> r is None,
        match r {
            None => true,
            Some(i) => i < items@.len(),
        },
        sorted_by_key(items@, key_func) ==> match r {
            None => is_partition_point(items@, key_func, key, 0),
            Some(i) => is_partition_point(items@, key_func, key, i + 1),
        },
{
    let p = partition_point(items, &key, &key_func);
    if p == 0 {
        None
    } else {
        Some(p - 1)
    }
}

/// The half-open range `(start, end)` of the elements whose keys `k` satisfy
/// `start_key <= k < end_key`; `(0, 0)` when the input is empty or
/// `start_key >= end_key`. On input that is not sorted by key it still
/// returns, with both ends in range.
pub fn indexes_between<T, F>(
    items: &VecDeque<T>,
    start_key: ContimeKey,
    end_key: ContimeKey,
    key: F,
) -> (r: (usize, usize))
    where
        F: Fn(&T) -> ContimeKey,
    requires
        callable_on(items@, key),
    ensures
        r.0 <= items@.len(),
        r.1 <= items@.len(),
        items@.len() == 0 || !start_key.spec_lt(end_key) ==> r == (0usize, 0usize),
        items@.len() > 0 && start_key.spec_lt(end_key) && sorted_by_key(items@, key) ==> {
            &&& is_partition_point(items@, key, start_key, r.0 as int)
            &&& is_partition_point(items@, key, end_key, r.1 as int)
        },
{
    if items.len() == 0 || !(start_key < end_key) {
        return (0, 0);
    }
    let start_index = partition_point(items, &start_key, &key);
    let end_index = partition_point(items, &end_key, &key);
    (start_index, end_index)
}

} // verus!
