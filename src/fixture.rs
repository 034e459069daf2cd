use vstd::prelude::*;

use crate::traits::{ApplyEvent, Event, Snapshot};

verus! {

pub type EventId = u128;

pub type SnapshotId = u128;

pub type Time = i64;

/// A counter snapshot: the values applied so far, in order, and their sum.
#[derive(Clone, Default, Debug, PartialEq, Eq)]
pub struct TestSnapshot {
    pub id: u128,
    pub time: i64,
    pub items: Vec<i16>,
    pub sum: i32,
}

/// The model of a [`TestSnapshot`].
pub struct TestSnapshotView {
    pub id: u128,
    pub time: i64,
    pub items: Seq<i16>,
    pub sum: i32,
}

impl View for TestSnapshot {
    type V = TestSnapshotView;

    open spec fn view(&self) -> TestSnapshotView {
        TestSnapshotView { id: self.id, time: self.time, items: self.items@, sum: self.sum }
    }
}

/// An event on a counter: `Positive` adds its value, `Negative` subtracts it.
/// Fields: event id, time, target snapshot id, value.
#[derive(Clone, Copy, Debug, PartialEq, Eq, Structural)]
pub enum TestEvent {
    Positive(EventId, Time, SnapshotId, u16),
    Negative(EventId, Time, SnapshotId, u16),
}

impl TestEvent {
    /// The value that this event appends to a counter's items.
    pub open spec fn spec_item(self) -> i16 {
        match self {
            TestEvent::Positive(_, _, _, v) => v as i16,
            TestEvent::Negative(_, _, _, v) => (0i16).wrapping_sub(v as i16),
        }
    }

    /// The counter's sum after this event, from `sum`.
    pub open spec fn spec_sum_after(self, sum: i32) -> i32 {
        match self {
            TestEvent::Positive(_, _, _, v) => sum.wrapping_add(v as i32),
            TestEvent::Negative(_, _, _, v) => sum.wrapping_sub(v as i32),
        }
    }
}

impl Event for TestEvent {
    open spec fn spec_id(&self) -> u128 {
        match *self {
            TestEvent::Positive(id, _, _, _) => id,
            TestEvent::Negative(id, _, _, _) => id,
        }
    }

    open spec fn spec_time(&self) -> i64 {
        match *self {
            TestEvent::Positive(_, t, _, _) => t,
            TestEvent::Negative(_, t, _, _) => t,
        }
    }

    fn id(&self) -> (r: u128) {
        match self {
            TestEvent::Positive(id, _, _, _) => *id,
            TestEvent::Negative(id, _, _, _) => *id,
        }
    }

    fn time(&self) -> (r: i64) {
        match self {
            TestEvent::Positive(_, t, _, _) => *t,
            TestEvent::Negative(_, t, _, _) => *t,
        }
    }
}

impl ApplyEvent<TestSnapshot> for TestEvent {
    open spec fn spec_snapshot_id(&self) -> u128 {
        match *self {
            TestEvent::Positive(_, _, s, _) => s,
            TestEvent::Negative(_, _, s, _) => s,
        }
    }

    /// A counter of another identity is left as it is.
    open spec fn spec_apply(&self, state: TestSnapshotView) -> TestSnapshotView {
        if self.spec_snapshot_id() != state.id {
            state
        } else {
            TestSnapshotView {
                items: state.items.push(self.spec_item()),
                sum: self.spec_sum_after(state.sum),
                ..state
            }
        }
    }

    fn snapshot_id(&self) -> (r: u128) {
        match self {
            TestEvent::Positive(_, _, s, _) => *s,
            TestEvent::Negative(_, _, s, _) => *s,
        }
    }

    fn apply_to(&self, snapshot: &mut TestSnapshot) {
        if self.snapshot_id() != snapshot.id {
            return;
        }
        match self {
            TestEvent::Positive(_, _, _, value) => {
                snapshot.items.push(*value as i16);
                snapshot.sum = snapshot.sum.wrapping_add(*value as i32);
            },
            TestEvent::Negative(_, _, _, value) => {
                snapshot.items.push((0i16).wrapping_sub(*value as i16));
                snapshot.sum = snapshot.sum.wrapping_sub(*value as i32);
            },
        }
    }
}

impl Snapshot for TestSnapshot {
    type Event = TestEvent;

    open spec fn spec_default() -> TestSnapshotView {
        TestSnapshotView { id: 0, time: 0, items: Seq::empty(), sum: 0 }
    }

    fn default_state() -> (r: TestSnapshot) {
        TestSnapshot { id: 0, time: 0, items: Vec::new(), sum: 0 }
    }

    open spec fn view_id(state: TestSnapshotView) -> u128 {
        state.id
    }

    open spec fn view_time(state: TestSnapshotView) -> i64 {
        state.time
    }

    open spec fn spec_with_time(state: TestSnapshotView, time: i64) -> TestSnapshotView {
        TestSnapshotView { time, ..state }
    }

    proof fn lemma_with_time(state: TestSnapshotView, time: i64) {
    }

    proof fn lemma_with_time_twice(state: TestSnapshotView, first: i64, second: i64) {
    }

    proof fn lemma_step_ignores_time(state: TestSnapshotView, time: i64, event: Self::Event) {
    }

    fn id(&self) -> (r: u128) {
        self.id
    }

    fn time(&self) -> (r: i64) {
        self.time
    }

    fn set_time(&mut self, time: i64) {
        self.time = time;
    }

    fn duplicate(&self) -> (r: TestSnapshot) {
        TestSnapshot { id: self.id, time: self.time, items: self.items.clone(), sum: self.sum }
    }
}

impl TestSnapshot {
    /// The bytes a counter holding `n` items is taken to occupy.
    pub open spec fn spec_conservative_size(n: nat) -> usize {
        crate::router::saturate(16 + 8 + 4 + 2 * n as int)
    }

    /// The empty counter that an event targets.
    pub fn from_event(event: &TestEvent) -> (r: TestSnapshot)
        ensures
            r@ == (TestSnapshotView { id: event.spec_snapshot_id(), time: 0, items: Seq::empty(), sum: 0 }),
    {
        TestSnapshot { id: event.snapshot_id(), time: 0, items: Vec::new(), sum: 0 }
    }

    /// An upper bound on the bytes this counter holds.
    pub fn conservative_size(&self) -> (r: usize)
        ensures
            r == Self::spec_conservative_size(self@.items.len()),
    {
        let n = self.items.len();
        if n > (usize::MAX - 28) / 2 {
            usize::MAX
        } else {
            28 + 2 * n
        }
    }
}

impl TestEvent {
    /// An upper bound on the bytes an event holds: two ids, a time, a value.
    pub fn conservative_size(&self) -> (r: usize)
        ensures
            r == 42,
    {
        16 + 8 + 16 + 2
    }

    /// An upper bound on the bytes that applying this event adds to a counter:
    /// one item.
    pub fn conservative_apply_size_delta(&self) -> (r: isize)
        ensures
            r == 2,
    {
        2
    }
}

impl From<TestEvent> for TestSnapshot {
    fn from(event: TestEvent) -> (r: TestSnapshot)
        ensures
            r@ == (TestSnapshotView { id: event.spec_snapshot_id(), time: 0, items: Seq::empty(), sum: 0 }),
    {
        TestSnapshot { id: event.snapshot_id(), time: 0, items: Vec::new(), sum: 0 }
    }
}

impl vstd::std_specs::convert::FromSpecImpl<TestEvent> for TestSnapshot {
    /// A counter's items cannot be built in a specification; the conversion
    /// is described by its own `ensures` instead.
    open spec fn obeys_from_spec() -> bool {
        false
    }

    open spec fn from_spec(event: TestEvent) -> TestSnapshot {
        arbitrary()
    }
}

} // verus!
