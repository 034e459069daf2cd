use vstd::prelude::*;

verus! {

/// Why the router could not answer.
#[derive(Debug, Clone, Copy, PartialEq, Eq, Structural)]
pub enum RouterError {
    Timeout,
}

/// The errors of the public surface.
#[derive(Debug, Clone, Copy, PartialEq, Eq, Structural)]
pub enum ContimeError {
    RouterError(RouterError),
}

impl From<RouterError> for ContimeError {
    fn from(err: RouterError) -> (r: ContimeError)
        ensures
            r == ContimeError::RouterError(err),
    {
        ContimeError::RouterError(err)
    }
}

impl vstd::std_specs::convert::FromSpecImpl<RouterError> for ContimeError {
    open spec fn obeys_from_spec() -> bool {
        true
    }

    open spec fn from_spec(err: RouterError) -> ContimeError {
        ContimeError::RouterError(err)
    }
}

} // verus!
