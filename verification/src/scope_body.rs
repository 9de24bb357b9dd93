//! The scope as its owner sees it: a thin wrapper around the join driver.

use vstd::prelude::*;
use crate::body::{Body, BodyView, JoinStep};

verus! {

/// The answer of a scope that cannot fail, without the `Result` around its
/// value.
pub open spec fn stripped<A, E>(step: JoinStep<Result<A, E>>) -> JoinStep<A> {
    match step {
        JoinStep::ResumeBody => JoinStep::ResumeBody,
        JoinStep::ResumeTask(task) => JoinStep::ResumeTask(task),
        JoinStep::Pending => JoinStep::Pending,
        JoinStep::Ready(result) => JoinStep::Ready(result->Ok_0),
    }
}

/// A scope in progress, as handed to the caller that opened it.
///
/// Its view is the view of the join driver inside.
pub struct ScopeBody<R, T> {
    body: Body<R, T>,
}

impl<R, T> View for ScopeBody<R, T> {
    type V = BodyView<R, T>;

    closed spec fn view(&self) -> BodyView<R, T> {
        self.body@
    }
}

impl<R, T> ScopeBody<R, T> {
    /// Whether the join driver inside satisfies its invariant.
    pub open spec fn wf(&self) -> bool {
        self@.wf()
    }

    /// Wraps a join driver.
    pub fn new(body: Body<R, T>) -> (scope_body: Self)
        ensures
            scope_body@ == body@,
    {
        ScopeBody { body }
    }

    /// The join driver inside.
    pub fn body(&self) -> (body: &Body<R, T>)
        ensures
            body@ == self@,
    {
        &self.body
    }

    /// The join driver inside, to report to and to reach the scope through.
    pub fn body_mut(&mut self) -> (body: &mut Body<R, T>)
        ensures
            body@ == old(self)@,
            final(self)@ == final(body)@,
    {
        &mut self.body
    }

    /// One poll of the scope: see [`Body::poll`].
    pub fn poll(&mut self) -> (step: JoinStep<R>)
        requires
            old(self).wf(),
        ensures
            (final(self)@, step) == old(self)@.poll(),
            final(self).wf(),
    {
        self.body.poll()
    }
}

impl<A, E, T> ScopeBody<Result<A, E>, T> {
    /// Takes the `Result` off the answer of a scope in which nothing ever
    /// requests termination with an error and whose body cannot fail. Such
    /// a scope never resolves with `Err`, so that case is left out.
    pub fn infallible(step: JoinStep<Result<A, E>>) -> (plain: JoinStep<A>)
        requires
            step matches JoinStep::Ready(result) ==> result is Ok,
        ensures
            plain == stripped(step),
    {
        match step {
            JoinStep::ResumeBody => JoinStep::ResumeBody,
            JoinStep::ResumeTask(task) => JoinStep::ResumeTask(task),
            JoinStep::Pending => JoinStep::Pending,
            JoinStep::Ready(result) => match result {
                Ok(value) => JoinStep::Ready(value),
                Err(_) => vstd::pervasive::unreached(),
            },
        }
    }
}

} // verus!
