use vstd::prelude::*;

use crate::fixture::{TestEvent, TestSnapshot, TestSnapshotView};
use crate::traits::{ApplyEvent, Event, Snapshot};

verus! {

/// The snapshot kinds that one store serves, as one type.
#[derive(Clone, Debug, PartialEq, Eq)]
pub enum TestSnapshotLanes {
    TestSnapshot(TestSnapshot),
}

/// The event kinds that one store serves, as one type.
#[derive(Clone, Copy, Debug, PartialEq, Eq, Structural)]
pub enum TestEventLanes {
    TestEvent(TestEvent),
}

impl View for TestSnapshotLanes {
    type V = TestSnapshotView;

    open spec fn view(&self) -> TestSnapshotView {
        match self {
            TestSnapshotLanes::TestSnapshot(s) => s@,
        }
    }
}

impl Default for TestSnapshotLanes {
    fn default() -> (r: TestSnapshotLanes)
        ensures
            r@ == (TestSnapshotView { id: 0, time: 0, items: Seq::empty(), sum: 0 }),
    {
        TestSnapshotLanes::TestSnapshot(TestSnapshot { id: 0, time: 0, items: Vec::new(), sum: 0 })
    }
}

impl Event for TestEventLanes {
    open spec fn spec_id(&self) -> u128 {
        match *self {
            TestEventLanes::TestEvent(e) => e.spec_id(),
        }
    }

    open spec fn spec_time(&self) -> i64 {
        match *self {
            TestEventLanes::TestEvent(e) => e.spec_time(),
        }
    }

    fn id(&self) -> (r: u128) {
        match self {
            TestEventLanes::TestEvent(e) => e.id(),
        }
    }

    fn time(&self) -> (r: i64) {
        match self {
            TestEventLanes::TestEvent(e) => e.time(),
        }
    }
}

impl ApplyEvent<TestSnapshotLanes> for TestEventLanes {
    open spec fn spec_snapshot_id(&self) -> u128 {
        match *self {
            TestEventLanes::TestEvent(e) => e.spec_snapshot_id(),
        }
    }

    open spec fn spec_apply(&self, state: TestSnapshotView) -> TestSnapshotView {
        match *self {
            TestEventLanes::TestEvent(e) => e.spec_apply(state),
        }
    }

    fn snapshot_id(&self) -> (r: u128) {
        match self {
            TestEventLanes::TestEvent(e) => e.snapshot_id(),
        }
    }

    fn apply_to(&self, snapshot: &mut TestSnapshotLanes) {
        match self {
            TestEventLanes::TestEvent(e) => match snapshot {
                TestSnapshotLanes::TestSnapshot(s) => e.apply_to(s),
            },
        }
    }
}

impl Snapshot for TestSnapshotLanes {
    type Event = TestEventLanes;

    open spec fn spec_default() -> TestSnapshotView {
        TestSnapshotView { id: 0, time: 0, items: Seq::empty(), sum: 0 }
    }

    fn default_state() -> (r: TestSnapshotLanes) {
        TestSnapshotLanes::TestSnapshot(TestSnapshot::default_state())
    }

    open spec fn view_id(state: TestSnapshotView) -> u128 {
        state.id
    }

    open spec fn view_time(state: TestSnapshotView) -> i64 {
        state.time
    }

    open spec fn spec_with_time(state: TestSnapshotView, time: i64) -> TestSnapshotView {
        TestSnapshotView { time, ..state }
    }

    proof fn lemma_with_time(state: TestSnapshotView, time: i64) {
    }

    proof fn lemma_with_time_twice(state: TestSnapshotView, first: i64, second: i64) {
    }

    proof fn lemma_step_ignores_time(state: TestSnapshotView, time: i64, event: Self::Event) {
    }

    fn id(&self) -> (r: u128) {
        match self {
            TestSnapshotLanes::TestSnapshot(s) => s.id(),
        }
    }

    fn time(&self) -> (r: i64) {
        match self {
            TestSnapshotLanes::TestSnapshot(s) => s.time(),
        }
    }

    fn set_time(&mut self, time: i64) {
        match self {
            TestSnapshotLanes::TestSnapshot(s) => s.set_time(time),
        }
    }

    fn duplicate(&self) -> (r: TestSnapshotLanes) {
        match self {
            TestSnapshotLanes::TestSnapshot(s) => TestSnapshotLanes::TestSnapshot(s.duplicate()),
        }
    }
}

impl TestSnapshotLanes {
    /// The empty snapshot that an event targets, at the event's time.
    pub fn from_event(event: &TestEventLanes) -> (r: TestSnapshotLanes)
        ensures
            r@ == (TestSnapshotView {
                id: event.spec_snapshot_id(),
                time: event.spec_time(),
                items: Seq::empty(),
                sum: 0,
            }),
    {
        match event {
            TestEventLanes::TestEvent(e) => TestSnapshotLanes::TestSnapshot(
                TestSnapshot { id: e.snapshot_id(), time: e.time(), items: Vec::new(), sum: 0 },
            ),
        }
    }

    /// An upper bound on the bytes this snapshot holds.
    pub fn conservative_size(&self) -> (r: usize)
        ensures
            r == TestSnapshot::spec_conservative_size(self@.items.len()),
    {
        match self {
            TestSnapshotLanes::TestSnapshot(s) => s.conservative_size(),
        }
    }
}

impl TestEventLanes {
    /// An upper bound on the bytes this event holds.
    pub fn conservative_size(&self) -> (r: usize)
        ensures
            r == 42,
    {
        match self {
            TestEventLanes::TestEvent(e) => e.conservative_size(),
        }
    }

    /// An upper bound on the bytes that applying this event adds to a snapshot.
    pub fn conservative_apply_size_delta(&self) -> (r: isize)
        ensures
            r == 2,
    {
        match self {
            TestEventLanes::TestEvent(e) => e.conservative_apply_size_delta(),
        }
    }

    /// The snapshots this event targets, each empty.
    pub fn snapshots(&self) -> (r: Vec<TestSnapshotLanes>)
        ensures
            r@.len() == 1,
            r@[0]@ == (TestSnapshotView {
                id: self.spec_snapshot_id(),
                time: 0,
                items: Seq::empty(),
                sum: 0,
            }),
    {
        match self {
            TestEventLanes::TestEvent(e) => {
                let s = TestSnapshotLanes::TestSnapshot(TestSnapshot::from_event(e));
                let mut v = Vec::new();
                v.push(s);
                v
            },
        }
    }
}

impl From<TestSnapshot> for TestSnapshotLanes {
    fn from(snapshot: TestSnapshot) -> (r: TestSnapshotLanes)
        ensures
            r == TestSnapshotLanes::TestSnapshot(snapshot),
    {
        TestSnapshotLanes::TestSnapshot(snapshot)
    }
}

impl vstd::std_specs::convert::FromSpecImpl<TestSnapshot> for TestSnapshotLanes {
    open spec fn obeys_from_spec() -> bool {
        true
    }

    open spec fn from_spec(snapshot: TestSnapshot) -> TestSnapshotLanes {
        TestSnapshotLanes::TestSnapshot(snapshot)
    }
}

impl From<TestSnapshotLanes> for TestSnapshot {
    fn from(snapshot_lane: TestSnapshotLanes) -> (r: TestSnapshot)
        ensures
            snapshot_lane == TestSnapshotLanes::TestSnapshot(r),
    {
        match snapshot_lane {
            TestSnapshotLanes::TestSnapshot(snapshot) => snapshot,
        }
    }
}

impl vstd::std_specs::convert::FromSpecImpl<TestSnapshotLanes> for TestSnapshot {
    open spec fn obeys_from_spec() -> bool {
        true
    }

    open spec fn from_spec(snapshot_lane: TestSnapshotLanes) -> TestSnapshot {
        match snapshot_lane {
            TestSnapshotLanes::TestSnapshot(snapshot) => snapshot,
        }
    }
}

impl From<TestEvent> for TestEventLanes {
    fn from(event: TestEvent) -> (r: TestEventLanes)
        ensures
            r == TestEventLanes::TestEvent(event),
    {
        TestEventLanes::TestEvent(event)
    }
}

impl vstd::std_specs::convert::FromSpecImpl<TestEvent> for TestEventLanes {
    open spec fn obeys_from_spec() -> bool {
        true
    }

    open spec fn from_spec(event: TestEvent) -> TestEventLanes {
        TestEventLanes::TestEvent(event)
    }
}

} // verus!
