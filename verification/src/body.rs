//! The join driver: it advances the body of a scope and the tasks spawned in
//! it, and decides when the scope is over and with which result.
//!
//! The driver does not run anything itself. Each `poll` names the next thing
//! to resume, the body or one task; the caller resumes it, reports how that
//! went, and polls again until the answer is `Pending` or `Ready`.

use vstd::prelude::*;
use crate::scope::{Scope, ScopeView};
use crate::task_set::{DriveResult, DriveStep, TaskId};

verus! {

/// What the join driver asks of its caller, or tells it.
#[derive(Debug, PartialEq, Eq)]
pub enum JoinStep<R> {
    /// Resume the body up to its next suspension point, report with
    /// `body_yielded` or `body_completed`, and poll again.
    ResumeBody,
    /// Resume the task of this number up to its next suspension point,
    /// report with `task_yielded` or `task_completed`, and poll again.
    ResumeTask(TaskId),
    /// Nothing more can be done now: wait until something is woken.
    Pending,
    /// The scope is over, with this result.
    Ready(R),
}

/// Where the join driver stands within one resume cycle.
#[derive(Debug, PartialEq, Eq, Clone, Copy)]
pub enum Stage {
    /// No cycle is under way.
    Idle,
    /// The body was handed out and its outcome is awaited.
    BodyRunning,
    /// The body had its turn in this cycle; the tasks are being driven.
    Driving,
}

/// The mathematical model of a [`Body`].
pub struct BodyView<R, T> {
    /// Whether the body has not completed yet.
    pub body_pending: bool,
    /// The result of the body, from its completion until the scope resolves.
    pub result: Option<R>,
    pub scope: ScopeView<R, T>,
    pub stage: Stage,
    /// Whether the scope's result was handed out.
    pub resolved: bool,
}

impl<R, T> BodyView<R, T> {
    /// The driver of `scope` before the body ran.
    pub open spec fn fresh(scope: ScopeView<R, T>) -> Self {
        BodyView { body_pending: true, result: None, scope, stage: Stage::Idle, resolved: false }
    }

    /// The invariant of a join driver.
    pub open spec fn wf(self) -> bool {
        &&& self.scope.wf()
        &&& (self.body_pending ==> self.result is None)
        &&& (self.stage is BodyRunning ==> self.body_pending)
        &&& (self.resolved ==> self.result is None && self.stage is Idle)
    }

    /// The driver once the scope's result is handed out: the cycle is over
    /// and no result is kept.
    pub open spec fn resolve(self) -> Self {
        BodyView { result: None, stage: Stage::Idle, resolved: true, ..self }
    }

    /// The driver's answer to the end of a drive call, and the driver
    /// afterwards.
    ///
    /// Termination resolves the scope at once with the termination value and
    /// discards a result that the body may have left. A drained task set
    /// resolves the scope with the body's result if the body has completed.
    /// In every other case the scope stays unresolved.
    pub open spec fn settle(self, outcome: DriveResult<R>) -> (Self, Option<R>) {
        match outcome {
            DriveResult::Terminated(value) => (self.resolve(), Some(value)),
            DriveResult::Drained => match self.result {
                Some(value) => (self.resolve(), Some(value)),
                None => (self, None),
            },
            DriveResult::Suspended => (self, None),
        }
    }

    /// One request to the task driver on behalf of the join driver.
    pub open spec fn drive_tasks(self) -> (Self, JoinStep<R>) {
        let (scope, step) = self.scope.drive();
        match step {
            DriveStep::Resume(task) => (
                BodyView { scope, stage: Stage::Driving, ..self },
                JoinStep::ResumeTask(task),
            ),
            DriveStep::Done(outcome) => {
                let (next, result) = BodyView { scope, stage: Stage::Idle, ..self }.settle(outcome);
                match result {
                    Some(value) => (next, JoinStep::Ready(value)),
                    None => (next, JoinStep::Pending),
                }
            },
        }
    }

    /// One poll: the driver afterwards and its answer.
    ///
    /// A resolved driver stays silent. Otherwise a cycle begins with the
    /// body, if it has not completed, and goes on with the tasks whether or
    /// not the body is done.
    pub open spec fn poll(self) -> (Self, JoinStep<R>) {
        if self.resolved {
            (self, JoinStep::Pending)
        } else {
            match self.stage {
                Stage::BodyRunning => (self, JoinStep::ResumeBody),
                Stage::Idle => if self.body_pending {
                    (BodyView { stage: Stage::BodyRunning, ..self }, JoinStep::ResumeBody)
                } else {
                    self.drive_tasks()
                },
                Stage::Driving => self.drive_tasks(),
            }
        }
    }

    /// The driver after the body reports that it suspended. Without the body
    /// being resumed the report changes nothing.
    pub open spec fn body_yielded(self) -> Self {
        if self.stage is BodyRunning {
            BodyView { stage: Stage::Driving, ..self }
        } else {
            self
        }
    }

    /// The driver after the body reports that it completed with `value`: the
    /// value is kept until the tasks are done. Without the body being resumed
    /// the report changes nothing.
    pub open spec fn body_completed(self, value: R) -> Self {
        if self.stage is BodyRunning {
            BodyView { body_pending: false, result: Some(value), stage: Stage::Driving, ..self }
        } else {
            self
        }
    }

    /// The driver after the task being resumed reports that it suspended.
    pub open spec fn task_yielded(self) -> Self {
        BodyView { scope: self.scope.task_yielded(), ..self }
    }

    /// The driver after the task being resumed reports that it completed.
    pub open spec fn task_completed(self, value: T) -> Self {
        BodyView { scope: self.scope.task_completed(value), ..self }
    }

    /// The driver after teardown: the body and its result are discarded, then
    /// the tasks of the scope.
    pub open spec fn clear(self) -> Self {
        BodyView {
            body_pending: false,
            result: None,
            scope: self.scope.clear(),
            stage: Stage::Idle,
            ..self
        }
    }
}

/// The join driver of one scope. It owns the scope's shared state.
pub struct Body<R, T> {
    body_pending: bool,
    result: Option<R>,
    scope: Scope<R, T>,
    stage: Stage,
    resolved: bool,
}

impl<R, T> View for Body<R, T> {
    type V = BodyView<R, T>;

    closed spec fn view(&self) -> BodyView<R, T> {
        BodyView {
            body_pending: self.body_pending,
            result: self.result,
            scope: self.scope@,
            stage: self.stage,
            resolved: self.resolved,
        }
    }
}

impl<R, T> Body<R, T> {
    /// Whether the driver satisfies its invariant.
    pub open spec fn wf(&self) -> bool {
        self@.wf()
    }

    /// The driver of `scope`, with a body that has not run yet.
    pub fn new(scope: Scope<R, T>) -> (body: Self)
        ensures
            body@ == BodyView::fresh(scope@),
            scope.wf() ==> body.wf(),
    {
        Body { body_pending: true, result: None, scope, stage: Stage::Idle, resolved: false }
    }

    /// The scope that this driver owns.
    pub fn scope(&self) -> (scope: &Scope<R, T>)
        ensures
            scope@ == self@.scope,
    {
        &self.scope
    }

    /// The scope that this driver owns, for the body and the tasks to spawn
    /// into and to request termination.
    pub fn scope_mut(&mut self) -> (scope: &mut Scope<R, T>)
        ensures
            scope@ == old(self)@.scope,
            final(self)@ == (BodyView { scope: final(scope)@, ..old(self)@ }),
    {
        &mut self.scope
    }

    /// Whether the scope's result was handed out.
    pub fn is_resolved(&self) -> (resolved: bool)
        ensures
            resolved == self@.resolved,
    {
        self.resolved
    }

    /// Whether the body has not completed yet.
    pub fn body_pending(&self) -> (pending: bool)
        ensures
            pending == self@.body_pending,
    {
        self.body_pending
    }

    /// Answers the end of a drive call: `Some` with the scope's result if the
    /// scope is over, `None` if it is not.
    fn settle(&mut self, outcome: DriveResult<R>) -> (result: Option<R>)
        ensures
            (final(self)@, result) == old(self)@.settle(outcome),
            old(self).wf() ==> final(self).wf(),
    {
        match outcome {
            DriveResult::Terminated(value) => {
                self.result = None;
                self.stage = Stage::Idle;
                self.resolved = true;
                Some(value)
            },
            DriveResult::Drained => {
                let result = self.result.take();
                if result.is_some() {
                    self.stage = Stage::Idle;
                    self.resolved = true;
                }
                result
            },
            DriveResult::Suspended => None,
        }
    }

    fn drive_tasks(&mut self) -> (step: JoinStep<R>)
        requires
            old(self).wf(),
            !old(self)@.resolved,
        ensures
            (final(self)@, step) == old(self)@.drive_tasks(),
            final(self).wf(),
    {
        match self.scope.drive() {
            DriveStep::Resume(task) => {
                self.stage = Stage::Driving;
                JoinStep::ResumeTask(task)
            },
            DriveStep::Done(outcome) => {
                self.stage = Stage::Idle;
                match self.settle(outcome) {
                    Some(value) => JoinStep::Ready(value),
                    None => JoinStep::Pending,
                }
            },
        }
    }

    /// One poll of the scope.
    pub fn poll(&mut self) -> (step: JoinStep<R>)
        requires
            old(self).wf(),
        ensures
            (final(self)@, step) == old(self)@.poll(),
            final(self).wf(),
    {
        if self.resolved {
            JoinStep::Pending
        } else {
            match self.stage {
                Stage::BodyRunning => JoinStep::ResumeBody,
                Stage::Idle => {
                    if self.body_pending {
                        self.stage = Stage::BodyRunning;
                        JoinStep::ResumeBody
                    } else {
                        self.drive_tasks()
                    }
                },
                Stage::Driving => self.drive_tasks(),
            }
        }
    }

    /// Reports that the body suspended. The result says whether the body was
    /// being resumed.
    pub fn body_yielded(&mut self) -> (accepted: bool)
        ensures
            accepted == (old(self)@.stage is BodyRunning),
            final(self)@ == old(self)@.body_yielded(),
            old(self).wf() ==> final(self).wf(),
    {
        match self.stage {
            Stage::BodyRunning => {
                self.stage = Stage::Driving;
                true
            },
            _ => false,
        }
    }

    /// Reports that the body completed with `value`. The result says whether
    /// the body was being resumed; if not, the value is dropped.
    pub fn body_completed(&mut self, value: R) -> (accepted: bool)
        ensures
            accepted == (old(self)@.stage is BodyRunning),
            final(self)@ == old(self)@.body_completed(value),
            old(self).wf() ==> final(self).wf(),
    {
        match self.stage {
            Stage::BodyRunning => {
                self.body_pending = false;
                self.result = Some(value);
                self.stage = Stage::Driving;
                true
            },
            _ => false,
        }
    }

    /// Reports that the task being resumed suspended again. The result is
    /// that task, or `None` if no task was being resumed.
    pub fn task_yielded(&mut self) -> (task: Option<TaskId>)
        requires
            old(self).wf(),
        ensures
            task == old(self)@.scope.tasks.current(),
            final(self)@ == old(self)@.task_yielded(),
            final(self).wf(),
    {
        self.scope.task_yielded()
    }

    /// Reports that the task being resumed completed with `value`. The
    /// result is that task, or `None` if no task was being resumed.
    pub fn task_completed(&mut self, value: T) -> (task: Option<TaskId>)
        requires
            old(self).wf(),
        ensures
            task == old(self)@.scope.tasks.current(),
            final(self)@ == old(self)@.task_completed(value),
            final(self).wf(),
    {
        self.scope.task_completed(value)
    }

    /// Tears the driver down. The body and its result go first, the tasks of
    /// the scope after them, so that nothing that may refer to the scope is
    /// left when the scope itself goes.
    pub fn clear(&mut self)
        ensures
            final(self)@ == old(self)@.clear(),
            old(self).wf() ==> final(self).wf(),
    {
        self.body_pending = false;
        self.result = None;
        self.stage = Stage::Idle;
        self.scope.clear();
    }
}

} // verus!
