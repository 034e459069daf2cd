use vstd::prelude::*;

verus! {

/// Something that can be placed in an event log: it has a unique id and a
/// logical time.
pub trait Event: Sized {
    spec fn spec_id(&self) -> u128;

    spec fn spec_time(&self) -> i64;

    fn id(&self) -> (r: u128)
        ensures
            r == self.spec_id(),
    ;

    fn time(&self) -> (r: i64)
        ensures
            r == self.spec_time(),
    ;
}

/// An event that targets one snapshot identity and knows how to change a
/// snapshot of type `S` (a [`Snapshot`] whose event type it is).
pub trait ApplyEvent<S: View>: Event {
    spec fn spec_snapshot_id(&self) -> u128;

    /// The model of a snapshot after this event has been applied to it.
    spec fn spec_apply(&self, state: S::V) -> S::V;

    fn snapshot_id(&self) -> (r: u128)
        ensures
            r == self.spec_snapshot_id(),
    ;

    /// Changes `snapshot` as the domain dictates; deterministic.
    fn apply_to(&self, snapshot: &mut S)
        ensures
            final(snapshot)@ == self.spec_apply(old(snapshot)@),
    ;
}

/// The state of one snapshot identity at some logical time. Its model is its
/// view; its identity and time are read off that model.
pub trait Snapshot: Sized + View + Default {
    type Event: ApplyEvent<Self>;

    spec fn view_id(state: Self::V) -> u128;

    spec fn view_time(state: Self::V) -> i64;

    /// The model of the default state, from which a history of a bare
    /// identity starts.
    spec fn spec_default() -> Self::V;

    /// The model of a snapshot whose time has been set to `time`.
    spec fn spec_with_time(state: Self::V, time: i64) -> Self::V;

    /// Setting the time sets the time and keeps the identity.
    proof fn lemma_with_time(state: Self::V, time: i64)
        ensures
            Self::view_time(Self::spec_with_time(state, time)) == time,
            Self::view_id(Self::spec_with_time(state, time)) == Self::view_id(state),
    ;

    /// Setting the time twice is setting it once, to the second value.
    proof fn lemma_with_time_twice(state: Self::V, first: i64, second: i64)
        ensures
            Self::spec_with_time(Self::spec_with_time(state, first), second) == Self::spec_with_time(
                state,
                second,
            ),
    ;

    /// A state's time is the engine's bookkeeping: one replay step (apply an
    /// event, then stamp its time) does not depend on it.
    proof fn lemma_step_ignores_time(state: Self::V, time: i64, event: Self::Event)
        ensures
            Self::spec_with_time(event.spec_apply(Self::spec_with_time(state, time)), event.spec_time())
                == Self::spec_with_time(event.spec_apply(state), event.spec_time()),
    ;

    fn id(&self) -> (r: u128)
        ensures
            r == Self::view_id(self@),
    ;

    fn time(&self) -> (r: i64)
        ensures
            r == Self::view_time(self@),
    ;

    fn set_time(&mut self, time: i64)
        ensures
            final(self)@ == Self::spec_with_time(old(self)@, time),
    ;

    /// The default state.
    fn default_state() -> (r: Self)
        ensures
            r@ == Self::spec_default(),
    ;

    /// A deep copy with the same model.
    fn duplicate(&self) -> (r: Self)
        ensures
            r@ == self@,
    ;
}

} // verus!
