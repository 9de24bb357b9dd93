//! The scope: the one object that the body of a scope and all its tasks
//! share. It holds the task set, the termination slot and one result channel
//! per task.

use vstd::prelude::*;
use crate::channel::{ChannelState, Delivery, ResultChannel};
use crate::spawned::Spawned;
use crate::task_set::{DriveStep, TaskId, TaskSet, TaskSetView};
use crate::termination::{store_if_empty, TerminationSlot};

verus! {

/// The mathematical model of a [`Scope`].
pub struct ScopeView<R, T> {
    pub tasks: TaskSetView,
    /// The value that will end the scope early, once the driver sees it.
    pub termination: Option<R>,
    /// The result channel of every task ever spawned, by task number.
    pub channels: Seq<ChannelState<T>>,
}

impl<R, T> ScopeView<R, T> {
    /// A scope in which nothing has happened yet.
    pub open spec fn empty() -> Self {
        ScopeView { tasks: TaskSetView::empty(), termination: None, channels: Seq::empty() }
    }

    /// The invariant of a scope: every task ever spawned has a channel, and
    /// the tasks whose channel still waits for a value are exactly the
    /// outstanding ones. So a task that was spawned and has not completed is
    /// in the task set, and a task in the task set has not completed.
    pub open spec fn wf(self) -> bool {
        &&& self.tasks.wf()
        &&& self.channels.len() == self.tasks.spawned
        &&& forall|id: TaskId|
            0 <= id < self.channels.len() ==> ((#[trigger] self.channels[id as int]) is Waiting
                <==> self.tasks.outstanding().contains(id))
    }

    /// The scope after a task is spawned: the task is queued and gets a
    /// fresh channel.
    pub open spec fn spawn(self) -> Self {
        ScopeView {
            tasks: self.tasks.spawn(),
            channels: self.channels.push(ChannelState::Waiting),
            ..self
        }
    }

    /// The scope after termination is requested with `value`: the first
    /// request stays, later ones change nothing.
    pub open spec fn terminate(self, value: R) -> Self {
        ScopeView { termination: store_if_empty(self.termination, value), ..self }
    }

    /// One request to the driver: the scope afterwards and what the caller is
    /// asked to do.
    pub open spec fn drive(self) -> (Self, DriveStep<R>) {
        let (tasks, termination, step) = self.tasks.drive(self.termination);
        (ScopeView { tasks, termination, ..self }, step)
    }

    /// The scope after the task being resumed reports that it suspended.
    pub open spec fn task_yielded(self) -> Self {
        ScopeView { tasks: self.tasks.task_yielded(), ..self }
    }

    /// The scope after the task being resumed reports that it completed with
    /// `value`: the task leaves the task set and its channel holds the value.
    /// Without a task being resumed the report changes nothing.
    pub open spec fn task_completed(self, value: T) -> Self {
        match self.tasks.current() {
            Some(id) => ScopeView {
                tasks: self.tasks.task_completed(),
                channels: self.channels.update(id as int, self.channels[id as int].send(value)),
                ..self
            },
            None => self,
        }
    }

    /// The scope after one attempt to receive the result of `task`, and what
    /// the attempt gives. A number under which no task was spawned has no
    /// channel: the attempt finds it closed.
    pub open spec fn receive(self, task: TaskId) -> (Self, Delivery<T>) {
        if task < self.channels.len() {
            let (channel, delivery) = self.channels[task as int].receive();
            (ScopeView { channels: self.channels.update(task as int, channel), ..self }, delivery)
        } else {
            (self, Delivery::Closed)
        }
    }

    /// The scope after teardown: every outstanding task is discarded and its
    /// channel closed. Results that were sent and not yet received stay.
    pub open spec fn clear(self) -> Self {
        ScopeView {
            tasks: self.tasks.clear(),
            channels: Seq::new(self.channels.len(), |i: int| self.channels[i].close()),
            ..self
        }
    }
}

impl<A, E, T> ScopeView<Result<A, E>, T> {
    /// The scope after the task being resumed, spawned as a cancelling task,
    /// reports its outcome. Success completes the task with the value. A
    /// failure requests termination of the whole scope with that failure; the
    /// task itself never completes and stays where it suspended. Without a
    /// task being resumed the report changes nothing.
    pub open spec fn task_finished(self, outcome: Result<T, E>) -> Self {
        match outcome {
            Ok(value) => self.task_completed(value),
            Err(error) => if self.tasks.current() is Some {
                self.terminate(Err(error)).task_yielded()
            } else {
                self
            },
        }
    }
}

/// The views of a sequence of channels.
pub open spec fn channel_states<T>(channels: Seq<ResultChannel<T>>) -> Seq<ChannelState<T>> {
    Seq::new(channels.len(), |i: int| channels[i]@)
}

/// The shared state of one scope.
///
/// `R` is the type of the scope's result, `T` the type of the values that
/// its tasks produce.
pub struct Scope<R, T> {
    tasks: TaskSet,
    termination: TerminationSlot<R>,
    channels: Vec<ResultChannel<T>>,
}

impl<R, T> View for Scope<R, T> {
    type V = ScopeView<R, T>;

    closed spec fn view(&self) -> ScopeView<R, T> {
        ScopeView {
            tasks: self.tasks@,
            termination: self.termination@,
            channels: channel_states(self.channels@),
        }
    }
}

impl<R, T> Scope<R, T> {
    /// Whether the scope satisfies its invariant.
    pub open spec fn wf(&self) -> bool {
        self@.wf()
    }

    /// A scope in which nothing has happened yet.
    pub fn new() -> (scope: Self)
        ensures
            scope@ == ScopeView::<R, T>::empty(),
            scope.wf(),
    {
        let scope = Scope {
            tasks: TaskSet::new(),
            termination: TerminationSlot::new(),
            channels: Vec::new(),
        };
        assert(scope@.channels =~= Seq::<ChannelState<T>>::empty());
        assert(scope@.tasks.outstanding() =~= Seq::<TaskId>::empty());
        scope
    }

    /// Spawns a task. It is queued until the driver admits it; the handle
    /// returned receives its result.
    pub fn spawn(&mut self) -> (handle: Spawned)
        requires
            old(self).wf(),
        ensures
            handle@ == Some(old(self)@.tasks.spawned as TaskId),
            final(self)@ == old(self)@.spawn(),
            final(self).wf(),
    {
        self.channels.push(ResultChannel::new());
        assert(self.channels@.len() == self.channels.len());
        let id = self.tasks.spawn();
        proof {
            assert(self@.channels =~= old(self)@.channels.push(ChannelState::Waiting));
            lemma_spawn_preserves_wf(old(self)@);
        }
        Spawned::new(id)
    }

    /// Requests that the scope end with `value`. The first request wins:
    /// while a value waits in the slot, further requests change nothing. The
    /// request takes effect when the driver next starts a drive call.
    ///
    /// The handle returned never resolves: a task that waits for it stays
    /// suspended at that point for good.
    pub fn terminate(&mut self, value: R) -> (handle: Spawned)
        ensures
            handle@ is None,
            final(self)@ == old(self)@.terminate(value),
            old(self).wf() ==> final(self).wf(),
    {
        self.termination.terminate(value);
        Spawned::never()
    }

    /// Whether a termination request waits to be seen by the driver.
    pub fn termination_pending(&self) -> (pending: bool)
        ensures
            pending == (self@.termination is Some),
    {
        self.termination.is_set()
    }

    /// How many tasks are outstanding: spawned and not completed.
    pub fn outstanding(&self) -> (count: usize)
        requires
            self.wf(),
        ensures
            count == self@.tasks.outstanding().len(),
    {
        self.tasks.len()
    }

    /// The task that is being resumed, if one is.
    pub fn current(&self) -> (task: Option<TaskId>)
        requires
            self.wf(),
        ensures
            task == self@.tasks.current(),
    {
        self.tasks.current()
    }

    /// One request to the driver. The caller resumes the task that the
    /// result names, reports with `task_yielded` or `task_completed`, and
    /// asks again, until the result ends the drive call.
    pub fn drive(&mut self) -> (step: DriveStep<R>)
        requires
            old(self).wf(),
        ensures
            (final(self)@, step) == old(self)@.drive(),
            final(self).wf(),
    {
        proof {
            lemma_drive_preserves_wf(old(self)@);
        }
        self.tasks.drive(&mut self.termination)
    }

    /// Reports that the task being resumed suspended again. The result is
    /// that task, or `None` if no task was being resumed.
    pub fn task_yielded(&mut self) -> (task: Option<TaskId>)
        requires
            old(self).wf(),
        ensures
            task == old(self)@.tasks.current(),
            final(self)@ == old(self)@.task_yielded(),
            final(self).wf(),
    {
        proof {
            lemma_yield_preserves_wf(old(self)@);
        }
        self.tasks.task_yielded()
    }

    /// Reports that the task being resumed completed with `value`, which
    /// goes to the task's handle. The result is that task, or `None` if no
    /// task was being resumed; the value is then dropped.
    pub fn task_completed(&mut self, value: T) -> (task: Option<TaskId>)
        requires
            old(self).wf(),
        ensures
            task == old(self)@.tasks.current(),
            final(self)@ == old(self)@.task_completed(value),
            final(self).wf(),
    {
        proof {
            lemma_completion_preserves_wf(old(self)@, value);
        }
        match self.tasks.task_completed() {
            Some(id) => {
                assert(old(self)@.tasks.outstanding().contains(id)) by {
                    let set = old(self)@.tasks;
                    assert(set.outstanding()[set.cursor] == id);
                }
                let _ = self.channels[id].send(value);
                assert(self@.channels =~= old(self)@.task_completed(value).channels);
                Some(id)
            },
            None => None,
        }
    }

    /// One attempt to receive the result of `task`.
    pub fn receive(&mut self, task: TaskId) -> (delivery: Delivery<T>)
        ensures
            (final(self)@, delivery) == old(self)@.receive(task),
            old(self).wf() ==> final(self).wf(),
    {
        if task < self.channels.len() {
            let delivery = self.channels[task].receive();
            assert(self@.channels =~= old(self)@.receive(task).0.channels);
            proof {
                if old(self).wf() {
                    lemma_receive_preserves_wf(old(self)@, task);
                }
            }
            delivery
        } else {
            Delivery::Closed
        }
    }

    /// Tears the scope down: every outstanding task is discarded, and a
    /// handle that still waits for one of them finds its channel closed.
    pub fn clear(&mut self)
        ensures
            final(self)@ == old(self)@.clear(),
            old(self).wf() ==> final(self).wf(),
    {
        self.tasks.clear();
        let mut i: usize = 0;
        while i < self.channels.len()
            invariant
                i <= self.channels.len(),
                self.channels.len() == old(self).channels.len(),
                self.tasks@ == old(self)@.tasks.clear(),
                self.termination@ == old(self)@.termination,
                forall|j: int| 0 <= j < i ==> self.channels[j]@ == old(self).channels[j]@.close(),
                forall|j: int|
                    i <= j < self.channels.len() ==> self.channels[j]@ == old(self).channels[j]@,
            decreases self.channels.len() - i,
        {
            self.channels[i].close();
            i = i + 1;
        }
        assert(self@.channels =~= old(self)@.clear().channels);
        proof {
            if old(self).wf() {
                lemma_clear_preserves_wf(old(self)@);
            }
        }
    }
}

impl<A, E, T> Scope<Result<A, E>, T> {
    /// Spawns a cancelling task: one whose failure ends the whole scope. In
    /// the task set it is a task like any other; its outcome is reported with
    /// `task_finished`.
    pub fn spawn_cancelling(&mut self) -> (handle: Spawned)
        requires
            old(self).wf(),
        ensures
            handle@ == Some(old(self)@.tasks.spawned as TaskId),
            final(self)@ == old(self)@.spawn(),
            final(self).wf(),
    {
        self.spawn()
    }

    /// Reports the outcome of the cancelling task being resumed. `Ok` sends
    /// the value to the task's handle. `Err` requests termination of the
    /// scope with that error, and the task counts as suspended for good. The
    /// result is that task, or `None` if no task was being resumed.
    pub fn task_finished(&mut self, outcome: Result<T, E>) -> (task: Option<TaskId>)
        requires
            old(self).wf(),
        ensures
            task == old(self)@.tasks.current(),
            final(self)@ == old(self)@.task_finished(outcome),
            final(self).wf(),
    {
        match outcome {
            Ok(value) => self.task_completed(value),
            Err(error) => {
                if self.tasks.current().is_some() {
                    let _ = self.terminate(Err(error));
                    self.task_yielded()
                } else {
                    None
                }
            },
        }
    }
}

/// Spawning keeps the invariant.
pub proof fn lemma_spawn_preserves_wf<R, T>(scope: ScopeView<R, T>)
    requires
        scope.wf(),
        scope.tasks.spawned < usize::MAX,
    ensures
        scope.spawn().wf(),
{
    crate::task_set::lemma_spawn_preserves_wf(scope.tasks);
    let id = scope.tasks.spawned as TaskId;
    let before = scope.tasks.outstanding();
    let after = scope.spawn().tasks.outstanding();
    assert(after == before.push(id));
    assert forall|other: TaskId| 0 <= other < scope.spawn().channels.len() implies ((
    #[trigger] scope.spawn().channels[other as int]) is Waiting <==> after.contains(other)) by {
        if other == id {
            assert(after[before.len() as int] == id);
        } else {
            assert(scope.spawn().channels[other as int] == scope.channels[other as int]);
            if before.contains(other) {
                let i = choose|i: int| 0 <= i < before.len() && before[i] == other;
                assert(after[i] == other);
            }
            if after.contains(other) {
                let i = choose|i: int| 0 <= i < after.len() && after[i] == other;
                assert(before[i] == other);
            }
        }
    }
}

/// Driving keeps the invariant, the outstanding tasks and the channels.
pub proof fn lemma_drive_preserves_wf<R, T>(scope: ScopeView<R, T>)
    requires
        scope.wf(),
    ensures
        scope.drive().0.wf(),
        scope.drive().0.tasks.outstanding() == scope.tasks.outstanding(),
        scope.drive().0.channels == scope.channels,
{
    crate::task_set::lemma_drive_preserves_wf(scope.tasks, scope.termination);
}

/// A task that suspends keeps the invariant, the outstanding tasks and the
/// channels.
pub proof fn lemma_yield_preserves_wf<R, T>(scope: ScopeView<R, T>)
    requires
        scope.wf(),
    ensures
        scope.task_yielded().wf(),
        scope.task_yielded().tasks.outstanding() == scope.tasks.outstanding(),
{
}

/// A task that completes keeps the invariant.
pub proof fn lemma_completion_preserves_wf<R, T>(scope: ScopeView<R, T>, value: T)
    requires
        scope.wf(),
    ensures
        scope.task_completed(value).wf(),
{
    crate::task_set::lemma_completion_preserves_wf(scope.tasks);
    if scope.tasks.current() is Some {
        let id = scope.tasks.current().unwrap();
        let after = scope.task_completed(value);
        assert(scope.tasks.outstanding()[scope.tasks.cursor] == id);
        assert forall|other: TaskId| 0 <= other < after.channels.len() implies ((
        #[trigger] after.channels[other as int]) is Waiting <==> after.tasks.outstanding().contains(
            other,
        )) by {
            if other != id {
                assert(after.channels[other as int] == scope.channels[other as int]);
                assert(after.tasks.outstanding().contains(other)
                    <==> scope.tasks.outstanding().contains(other));
            }
        }
    }
}

/// Receiving keeps the invariant and the task set.
pub proof fn lemma_receive_preserves_wf<R, T>(scope: ScopeView<R, T>, task: TaskId)
    requires
        scope.wf(),
    ensures
        scope.receive(task).0.wf(),
        scope.receive(task).0.tasks == scope.tasks,
{
    let after = scope.receive(task).0;
    assert forall|other: TaskId| 0 <= other < after.channels.len() implies ((
    #[trigger] after.channels[other as int]) is Waiting <==> after.tasks.outstanding().contains(
        other,
    )) by {
        assert(after.channels[other as int] is Waiting <==> scope.channels[other as int] is Waiting);
    }
}

/// Teardown keeps the invariant and leaves nothing outstanding.
pub proof fn lemma_clear_preserves_wf<R, T>(scope: ScopeView<R, T>)
    requires
        scope.wf(),
    ensures
        scope.clear().wf(),
        scope.clear().tasks.outstanding().len() == 0,
{
    assert(scope.clear().tasks.outstanding() =~= Seq::<TaskId>::empty());
}

} // verus!
