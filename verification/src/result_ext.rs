//! Turning a failed result into the termination of the whole scope.

use vstd::prelude::*;
use crate::scope::Scope;
use crate::spawned::Spawned;

verus! {

/// A value that is either a success to go on with or a failure that ends the
/// scope.
pub trait UnwrapOrCancel: Sized {
    type Ok;

    type Err;

    /// The result that this value stands for.
    spec fn outcome(self) -> Result<Self::Ok, Self::Err>;

    /// Hands out the success value, or cancels the scope.
    ///
    /// On success the scope is left as it is. On failure termination of the
    /// scope is requested with the failure, and the caller gets a handle
    /// that never resolves: the task that waits for it goes no further.
    fn unwrap_or_cancel<A, T>(self, scope: &mut Scope<Result<A, Self::Err>, T>) -> (value: Result<
        Self::Ok,
        Spawned,
    >)
        ensures
            match self.outcome() {
                Ok(success) => value == Ok::<Self::Ok, Spawned>(success) && final(scope)@ == old(
                    scope,
                )@,
                Err(failure) => {
                    &&& value matches Err(handle) && handle@ is None
                    &&& final(scope)@ == old(scope)@.terminate(Err(failure))
                },
            },
            old(scope).wf() ==> final(scope).wf(),
    ;
}

impl<O, E> UnwrapOrCancel for Result<O, E> {
    type Ok = O;

    type Err = E;

    open spec fn outcome(self) -> Result<O, E> {
        self
    }

    fn unwrap_or_cancel<A, T>(self, scope: &mut Scope<Result<A, E>, T>) -> (value: Result<
        O,
        Spawned,
    >) {
        match self {
            Ok(success) => Ok(success),
            Err(failure) => Err(scope.terminate(Err(failure))),
        }
    }
}

} // verus!
