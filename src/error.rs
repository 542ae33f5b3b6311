use vstd::prelude::*;

verus! {

/// What a resolution can fail with.
#[derive(Debug, PartialEq, Eq)]
pub enum Error<E> {
    /// Nothing was ever bound under the requested key.
    NoBinding,
    /// The bound recipe ran and failed; its own error is kept as it was.
    InstanceCreationFailed(E),
}

/// The error type of recipes that cannot fail.
#[derive(Debug, Clone, Copy, PartialEq, Eq)]
pub struct Infallible;

impl<E> From<E> for Error<E> {
    fn from(e: E) -> (r: Error<E>)
        ensures
            r == Error::InstanceCreationFailed(e),
    {
        Error::InstanceCreationFailed(e)
    }
}

impl<E> vstd::std_specs::convert::FromSpecImpl<E> for Error<E> {
    open spec fn obeys_from_spec() -> bool {
        true
    }

    open spec fn from_spec(e: E) -> Error<E> {
        Error::InstanceCreationFailed(e)
    }
}

/// The outcome of a recipe as the caller of a resolution sees it: a success is
/// passed on, a failure becomes `InstanceCreationFailed` around the very same
/// error value.
pub open spec fn creation_result<V, E>(outcome: Result<V, E>) -> Result<V, Error<E>> {
    match outcome {
        Ok(v) => Ok(v),
        Err(e) => Err(Error::InstanceCreationFailed(e)),
    }
}

/// Maps the outcome of a recipe to the outcome of the resolution that ran it.
pub fn creation_outcome<V, E>(outcome: Result<V, E>) -> (r: Result<V, Error<E>>)
    ensures
        r == creation_result(outcome),
{
    match outcome {
        Ok(v) => Ok(v),
        Err(e) => Err(Error::InstanceCreationFailed(e)),
    }
}

} // verus!
