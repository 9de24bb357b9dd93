//! The spawn handle: what the spawner of a task holds to receive the task's
//! result.

use vstd::prelude::*;
use crate::channel::Delivery;
use crate::scope::Scope;
use crate::task_set::TaskId;

verus! {

/// The receiving end of one task's result channel.
///
/// The view of a handle is the number of the task whose result it receives,
/// or `None` for a handle that never resolves.
#[derive(Debug, PartialEq, Eq)]
pub struct Spawned {
    task: Option<TaskId>,
}

impl View for Spawned {
    type V = Option<TaskId>;

    closed spec fn view(&self) -> Option<TaskId> {
        self.task
    }
}

impl Spawned {
    /// The handle for the result of `task`.
    pub fn new(task: TaskId) -> (handle: Self)
        ensures
            handle@ == Some(task),
    {
        Spawned { task: Some(task) }
    }

    /// A handle that never resolves.
    pub fn never() -> (handle: Self)
        ensures
            handle@ is None,
    {
        Spawned { task: None }
    }

    /// The task whose result this handle receives, if it has one.
    pub fn task(&self) -> (task: Option<TaskId>)
        ensures
            task == self@,
    {
        self.task
    }

    /// One attempt to receive the result from `scope`. A handle that never
    /// resolves is always pending and leaves the scope as it is. Any other
    /// handle gets the task's value from the first attempt that finds it.
    pub fn poll<R, T>(&self, scope: &mut Scope<R, T>) -> (delivery: Delivery<T>)
        ensures
            self@ matches Some(task) ==> (final(scope)@, delivery) == old(scope)@.receive(task),
            self@ is None ==> final(scope)@ == old(scope)@ && delivery == Delivery::<T>::Pending,
            old(scope).wf() ==> final(scope).wf(),
    {
        match self.task {
            Some(task) => scope.receive(task),
            None => Delivery::Pending,
        }
    }
}

} // verus!
