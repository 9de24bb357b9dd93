//! A structured-concurrency scope engine, modelled as verified state machines.
//!
//! A scope owns a set of tasks and is not over before each of them is: the
//! body of the scope spawns tasks, the join driver advances the body and the
//! tasks, and the scope resolves once the body has completed and no task is
//! outstanding, or as soon as someone asks for its termination.
//!
//! Nothing here runs a task. The engine decides what is resumed next and what
//! the outcome means; the caller resumes and reports back.

use vstd::prelude::*;
use crate::body::{Body, BodyView};
use crate::scope::{Scope, ScopeView};
use crate::scope_body::ScopeBody;

pub mod body;
pub mod channel;
pub mod guarantees;
pub mod result_ext;
pub mod scope;
pub mod scope_body;
pub mod spawned;
pub mod task_set;
pub mod termination;

verus! {

/// Opens a scope: nothing is spawned, the body has not run, and nothing asks
/// for termination.
pub fn scope_fn<R, T>() -> (scope_body: ScopeBody<R, T>)
    ensures
        scope_body@ == BodyView::fresh(ScopeView::<R, T>::empty()),
        scope_body.wf(),
{
    ScopeBody::new(Body::new(Scope::new()))
}

} // verus!
