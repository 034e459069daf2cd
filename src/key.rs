use vstd::prelude::*;

use crate::traits::{Event, Snapshot};

verus! {

/// The composite ordering key of events and checkpoint states: ordered by
/// `time` first, ties broken by `id`.
#[derive(Clone, Copy, Debug, PartialEq, Eq, Structural)]
pub struct ContimeKey {
    pub time: i64,
    pub id: u128,
}

impl ContimeKey {
    /// Strict lexicographic order on `(time, id)`.
    pub open spec fn spec_lt(self, other: ContimeKey) -> bool {
        self.time < other.time || (self.time == other.time && self.id < other.id)
    }

    /// Non-strict lexicographic order on `(time, id)`.
    pub open spec fn spec_le(self, other: ContimeKey) -> bool {
        self.spec_lt(other) || self == other
    }

    pub open spec fn spec_cmp(self, other: ContimeKey) -> core::cmp::Ordering {
        if self.spec_lt(other) {
            core::cmp::Ordering::Less
        } else if self == other {
            core::cmp::Ordering::Equal
        } else {
            core::cmp::Ordering::Greater
        }
    }

    /// The key of an event: its time and its own id.
    pub fn from_event<E: Event>(event: &E) -> (k: ContimeKey)
        ensures
            k == event_key(*event),
    {
        ContimeKey { id: event.id(), time: event.time() }
    }

    /// The key of a snapshot: its time and its identity.
    pub fn from_snapshot<S: Snapshot>(snapshot: &S) -> (k: ContimeKey)
        ensures
            k == (ContimeKey { time: S::view_time(snapshot@), id: S::view_id(snapshot@) }),
    {
        ContimeKey { id: snapshot.id(), time: snapshot.time() }
    }
}

/// The key under which an event is ordered in a log.
pub open spec fn event_key<E: Event>(e: E) -> ContimeKey {
    ContimeKey { time: e.spec_time(), id: e.spec_id() }
}

impl Default for ContimeKey {
    fn default() -> (k: ContimeKey)
        ensures
            k == (ContimeKey { time: 0, id: 0 }),
    {
        ContimeKey { id: 0, time: 0 }
    }
}

impl PartialOrd for ContimeKey {
    fn partial_cmp(&self, other: &ContimeKey) -> (r: Option<core::cmp::Ordering>)
        ensures
            r == Some(self.spec_cmp(*other)),
    {
        if self.time < other.time || (self.time == other.time && self.id < other.id) {
            Some(core::cmp::Ordering::Less)
        } else if self.time == other.time && self.id == other.id {
            Some(core::cmp::Ordering::Equal)
        } else {
            Some(core::cmp::Ordering::Greater)
        }
    }
}

impl vstd::std_specs::cmp::PartialOrdSpecImpl for ContimeKey {
    open spec fn obeys_partial_cmp_spec() -> bool {
        true
    }

    open spec fn partial_cmp_spec(&self, other: &ContimeKey) -> Option<core::cmp::Ordering> {
        Some(self.spec_cmp(*other))
    }
}

} // verus!
