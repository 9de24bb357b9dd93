//! The task set: which tasks of a scope are outstanding, and which of them
//! is resumed next.
//!
//! Tasks are known by number. A task enters the `incoming` queue when it is
//! spawned, moves into `active` when a drive call admits it, and leaves
//! `active` when it completes. Running a task is the caller's work: `drive`
//! names the task to resume, the caller resumes it and reports whether it
//! suspended again or completed.

use vstd::prelude::*;
use crate::termination::TerminationSlot;

verus! {

/// The number under which a scope knows a task: tasks are numbered in the
/// order in which they are spawned, from zero.
pub type TaskId = usize;

/// How a drive call ended.
#[derive(Debug, PartialEq, Eq)]
pub enum DriveResult<R> {
    /// Nothing can be resumed now and the scope is not over. Either tasks
    /// remain and each of them has run up to its next suspension point; or
    /// termination was requested while tasks were resumed, and the next call
    /// will report it; or termination was reported before, and the tasks
    /// that were left are abandoned.
    Suspended,
    /// No task is outstanding and nothing asked for termination.
    Drained,
    /// Termination was requested with this value. The outstanding tasks are
    /// abandoned where they stand.
    Terminated(R),
}

/// What the driver asks of its caller.
#[derive(Debug, PartialEq, Eq)]
pub enum DriveStep<R> {
    /// Resume the task of this number up to its next suspension point,
    /// report the outcome, and ask again.
    Resume(TaskId),
    /// The drive call is over.
    Done(DriveResult<R>),
}

/// Where the driver stands between two requests.
#[derive(Debug, PartialEq, Eq, Clone, Copy)]
pub enum Phase {
    /// No drive call is under way.
    Idle,
    /// A drive call is under way and no task is being resumed.
    Driving,
    /// The task at the cursor was handed out and its outcome is awaited.
    Resuming,
    /// Termination was reported. The tasks that were outstanding then, and
    /// any spawned since, are never resumed again.
    Abandoned,
}

/// The mathematical model of a [`TaskSet`].
pub struct TaskSetView {
    /// Tasks spawned since the last admission, oldest first.
    pub incoming: Seq<TaskId>,
    /// Tasks that are eligible to be resumed.
    pub active: Seq<TaskId>,
    /// During a drive call, the tasks of `active` before this position have
    /// been resumed by this call and suspended again.
    pub cursor: int,
    pub phase: Phase,
    /// How many tasks were ever spawned: the number of the next task.
    pub spawned: nat,
}

/// Each element is smaller than every later one.
pub open spec fn strictly_increasing(ids: Seq<TaskId>) -> bool {
    forall|i: int, j: int| 0 <= i < j < ids.len() ==> ids[i] < ids[j]
}

impl TaskSetView {
    /// The set of a scope in which nothing was spawned yet.
    pub open spec fn empty() -> Self {
        TaskSetView {
            incoming: Seq::empty(),
            active: Seq::empty(),
            cursor: 0,
            phase: Phase::Idle,
            spawned: 0,
        }
    }

    /// Every task that was spawned and has not completed, oldest first.
    pub open spec fn outstanding(self) -> Seq<TaskId> {
        self.active + self.incoming
    }

    /// The invariant of a task set. Since tasks are numbered as they are
    /// spawned and admitted in that order, the outstanding tasks are in
    /// increasing order: none occurs twice, and none is both active and
    /// incoming.
    pub open spec fn wf(self) -> bool {
        &&& 0 <= self.cursor <= self.active.len()
        &&& (self.phase is Resuming ==> self.cursor < self.active.len())
        &&& strictly_increasing(self.outstanding())
        &&& forall|i: int|
            0 <= i < self.outstanding().len() ==> (#[trigger] self.outstanding()[i]) < self.spawned
        &&& self.spawned <= usize::MAX
    }

    /// The task that is being resumed, if one is.
    pub open spec fn current(self) -> Option<TaskId> {
        if self.phase is Resuming {
            Some(self.active[self.cursor])
        } else {
            None
        }
    }

    /// The set after one more task is spawned: it joins the end of the
    /// incoming queue under the next free number.
    pub open spec fn spawn(self) -> Self {
        TaskSetView {
            incoming: self.incoming.push(self.spawned as TaskId),
            spawned: self.spawned + 1,
            ..self
        }
    }

    /// The set after the incoming tasks are admitted: they join the end of
    /// the active tasks, in the order in which they were spawned.
    pub open spec fn merge(self) -> Self {
        TaskSetView { active: self.active + self.incoming, incoming: Seq::empty(), ..self }
    }

    /// The driver's decision when no task is being resumed and nothing asked
    /// for termination. The next task not yet resumed by this call is handed
    /// out. When the active tasks are used up, tasks spawned meanwhile are
    /// admitted and the call goes on with them. When none is left to resume,
    /// the call ends: drained if nothing is outstanding, suspended otherwise.
    pub open spec fn advance<R>(self) -> (Self, DriveStep<R>) {
        let merged = if self.cursor >= self.active.len() && self.incoming.len() > 0 {
            self.merge()
        } else {
            self
        };
        if merged.cursor < merged.active.len() {
            (
                TaskSetView { phase: Phase::Resuming, ..merged },
                DriveStep::Resume(merged.active[merged.cursor]),
            )
        } else if merged.active.len() == 0 {
            (TaskSetView { phase: Phase::Idle, ..merged }, DriveStep::Done(DriveResult::Drained))
        } else {
            (TaskSetView { phase: Phase::Idle, ..merged }, DriveStep::Done(DriveResult::Suspended))
        }
    }

    /// One request to the driver: the set and the termination slot
    /// afterwards, and what the caller is asked to do.
    ///
    /// A call that starts while the slot holds a value takes the value and
    /// ends with it, resuming nothing; from then on the tasks are abandoned
    /// and no call resumes anything. Otherwise the call admits the incoming
    /// tasks and hands out the active tasks one by one. A value that arrives
    /// in the slot while the call is under way ends the call as suspended and
    /// stays in the slot for the next call to report.
    pub open spec fn drive<R>(self, termination: Option<R>) -> (Self, Option<R>, DriveStep<R>) {
        match self.phase {
            Phase::Resuming => (self, termination, DriveStep::Resume(self.active[self.cursor])),
            Phase::Abandoned => (self, termination, DriveStep::Done(DriveResult::Suspended)),
            Phase::Idle => match termination {
                Some(value) => (
                    TaskSetView { phase: Phase::Abandoned, ..self },
                    None,
                    DriveStep::Done(DriveResult::Terminated(value)),
                ),
                None => {
                    let (next, step) = TaskSetView { cursor: 0, ..self }.merge().advance::<R>();
                    (next, None, step)
                },
            },
            Phase::Driving => match termination {
                Some(_) => (
                    TaskSetView { phase: Phase::Idle, ..self },
                    termination,
                    DriveStep::Done(DriveResult::Suspended),
                ),
                None => {
                    let (next, step) = self.advance::<R>();
                    (next, None, step)
                },
            },
        }
    }

    /// The set after the task being resumed reports that it suspended: it
    /// stays active and the cursor moves past it. Without a task being
    /// resumed the report changes nothing.
    pub open spec fn task_yielded(self) -> Self {
        if self.phase is Resuming {
            TaskSetView { cursor: self.cursor + 1, phase: Phase::Driving, ..self }
        } else {
            self
        }
    }

    /// The set after the task being resumed reports that it completed: it
    /// leaves the set. Without a task being resumed the report changes
    /// nothing.
    pub open spec fn task_completed(self) -> Self {
        if self.phase is Resuming {
            TaskSetView { active: self.active.remove(self.cursor), phase: Phase::Driving, ..self }
        } else {
            self
        }
    }

    /// The set after every outstanding task is discarded. Numbers are not
    /// reused, and a set whose tasks were abandoned stays so.
    pub open spec fn clear(self) -> Self {
        TaskSetView {
            incoming: Seq::empty(),
            active: Seq::empty(),
            cursor: 0,
            phase: if self.phase is Abandoned {
                Phase::Abandoned
            } else {
                Phase::Idle
            },
            ..self
        }
    }
}

/// The tasks of a scope that are outstanding, with the driver's position
/// among them.
pub struct TaskSet {
    incoming: Vec<TaskId>,
    active: Vec<TaskId>,
    cursor: usize,
    phase: Phase,
    spawned: usize,
}

impl View for TaskSet {
    type V = TaskSetView;

    closed spec fn view(&self) -> TaskSetView {
        TaskSetView {
            incoming: self.incoming@,
            active: self.active@,
            cursor: self.cursor as int,
            phase: self.phase,
            spawned: self.spawned as nat,
        }
    }
}

impl TaskSet {
    /// Whether the set satisfies its invariant.
    pub open spec fn wf(&self) -> bool {
        self@.wf()
    }

    /// A set in which nothing was spawned yet.
    pub fn new() -> (set: Self)
        ensures
            set@ == TaskSetView::empty(),
            set.wf(),
    {
        let set = TaskSet {
            incoming: Vec::new(),
            active: Vec::new(),
            cursor: 0,
            phase: Phase::Idle,
            spawned: 0,
        };
        assert(set@.outstanding() =~= Seq::<TaskId>::empty());
        set
    }

    /// How many tasks were ever spawned.
    pub fn spawned(&self) -> (count: usize)
        ensures
            count == self@.spawned,
    {
        self.spawned
    }

    /// How many tasks are outstanding.
    pub fn len(&self) -> (count: usize)
        requires
            self.wf(),
        ensures
            count == self@.outstanding().len(),
    {
        proof {
            lemma_increasing_below_bound(self@.outstanding(), self@.spawned);
        }
        self.active.len() + self.incoming.len()
    }

    /// Whether no task is outstanding.
    pub fn is_empty(&self) -> (empty: bool)
        ensures
            empty == (self@.outstanding().len() == 0),
    {
        self.active.len() == 0 && self.incoming.len() == 0
    }

    /// The task that is being resumed, if one is.
    pub fn current(&self) -> (task: Option<TaskId>)
        requires
            self.wf(),
        ensures
            task == self@.current(),
    {
        match self.phase {
            Phase::Resuming => Some(self.active[self.cursor]),
            _ => None,
        }
    }

    /// Spawns a task: it joins the incoming queue and is known by the number
    /// returned. Numbers run up to `usize::MAX`.
    pub fn spawn(&mut self) -> (id: TaskId)
        requires
            old(self).wf(),
            old(self)@.spawned < usize::MAX,
        ensures
            id == old(self)@.spawned,
            final(self)@ == old(self)@.spawn(),
            final(self).wf(),
    {
        let id = self.spawned;
        self.incoming.push(id);
        self.spawned = id + 1;
        proof {
            lemma_spawn_preserves_wf(old(self)@);
        }
        id
    }

    /// One request to the driver. The result names the task to resume next,
    /// or ends the drive call.
    pub fn drive<R>(&mut self, termination: &mut TerminationSlot<R>) -> (step: DriveStep<R>)
        requires
            old(self).wf(),
        ensures
            (final(self)@, final(termination)@, step) == old(self)@.drive(old(termination)@),
            final(self).wf(),
    {
        proof {
            lemma_drive_preserves_wf(old(self)@, old(termination)@);
        }
        match self.phase {
            Phase::Resuming => DriveStep::Resume(self.active[self.cursor]),
            Phase::Abandoned => DriveStep::Done(DriveResult::Suspended),
            Phase::Idle => {
                match termination.take() {
                    Some(value) => {
                        self.phase = Phase::Abandoned;
                        DriveStep::Done(DriveResult::Terminated(value))
                    },
                    None => {
                        self.cursor = 0;
                        self.active.append(&mut self.incoming);
                        self.advance()
                    },
                }
            },
            Phase::Driving => {
                if termination.is_set() {
                    self.phase = Phase::Idle;
                    DriveStep::Done(DriveResult::Suspended)
                } else {
                    self.advance()
                }
            },
        }
    }

    fn advance<R>(&mut self) -> (step: DriveStep<R>)
        requires
            old(self)@.cursor <= old(self)@.active.len(),
        ensures
            (final(self)@, step) == old(self)@.advance::<R>(),
    {
        if self.cursor >= self.active.len() && self.incoming.len() > 0 {
            self.active.append(&mut self.incoming);
        }
        if self.cursor < self.active.len() {
            self.phase = Phase::Resuming;
            DriveStep::Resume(self.active[self.cursor])
        } else if self.active.len() == 0 {
            self.phase = Phase::Idle;
            DriveStep::Done(DriveResult::Drained)
        } else {
            self.phase = Phase::Idle;
            DriveStep::Done(DriveResult::Suspended)
        }
    }

    /// Reports that the task being resumed suspended again. The result is
    /// that task, or `None` if no task was being resumed.
    pub fn task_yielded(&mut self) -> (task: Option<TaskId>)
        requires
            old(self).wf(),
        ensures
            task == old(self)@.current(),
            final(self)@ == old(self)@.task_yielded(),
            final(self).wf(),
    {
        match self.phase {
            Phase::Resuming => {
                let id = self.active[self.cursor];
                assert(self.cursor < self.active.len());
                self.cursor = self.cursor + 1;
                self.phase = Phase::Driving;
                Some(id)
            },
            _ => None,
        }
    }

    /// Reports that the task being resumed completed. The result is that
    /// task, or `None` if no task was being resumed.
    pub fn task_completed(&mut self) -> (task: Option<TaskId>)
        requires
            old(self).wf(),
        ensures
            task == old(self)@.current(),
            final(self)@ == old(self)@.task_completed(),
            final(self).wf(),
    {
        match self.phase {
            Phase::Resuming => {
                let id = self.active.remove(self.cursor);
                self.phase = Phase::Driving;
                proof {
                    lemma_completion_preserves_wf(old(self)@);
                }
                Some(id)
            },
            _ => None,
        }
    }

    /// Discards every outstanding task.
    pub fn clear(&mut self)
        ensures
            final(self)@ == old(self)@.clear(),
            old(self).wf() ==> final(self).wf(),
    {
        self.incoming.clear();
        self.active.clear();
        self.cursor = 0;
        match self.phase {
            Phase::Abandoned => {},
            _ => {
                self.phase = Phase::Idle;
            },
        }
        assert(self@.outstanding() =~= Seq::<TaskId>::empty());
    }
}

/// A strictly increasing sequence of numbers below a bound is no longer than
/// the bound.
pub proof fn lemma_increasing_below_bound(ids: Seq<TaskId>, bound: nat)
    requires
        strictly_increasing(ids),
        forall|i: int| 0 <= i < ids.len() ==> (#[trigger] ids[i]) < bound,
    ensures
        ids.len() <= bound,
    decreases ids.len(),
{
    if ids.len() > 0 {
        let last = ids.last();
        let front = ids.drop_last();
        assert forall|i: int| 0 <= i < front.len() implies (#[trigger] front[i]) < last by {
            assert(front[i] == ids[i]);
        }
        lemma_increasing_below_bound(front, last as nat);
    }
}

/// Spawning keeps the invariant, and the new task is the youngest of the
/// outstanding ones.
pub proof fn lemma_spawn_preserves_wf(set: TaskSetView)
    requires
        set.wf(),
        set.spawned < usize::MAX,
    ensures
        set.spawn().wf(),
        set.spawn().outstanding() == set.outstanding().push(set.spawned as TaskId),
{
    assert(set.spawn().outstanding() =~= set.outstanding().push(set.spawned as TaskId));
}

/// Admission keeps the invariant and the outstanding tasks.
pub proof fn lemma_merge_preserves_wf(set: TaskSetView)
    requires
        set.wf(),
    ensures
        set.merge().wf(),
        set.merge().outstanding() == set.outstanding(),
{
    assert(set.merge().outstanding() =~= set.outstanding());
}

/// A completion keeps the invariant, and removes the completed task and no
/// other from the outstanding ones.
pub proof fn lemma_completion_preserves_wf(set: TaskSetView)
    requires
        set.wf(),
    ensures
        set.task_completed().wf(),
        set.phase is Resuming ==> set.task_completed().outstanding() == set.outstanding().remove(
            set.cursor,
        ),
        set.phase is Resuming ==> !set.task_completed().outstanding().contains(
            set.active[set.cursor],
        ),
        forall|id: TaskId|
            set.current() != Some(id) ==> (#[trigger] set.task_completed().outstanding().contains(id)
                <==> set.outstanding().contains(id)),
{
    if set.phase is Resuming {
        let before = set.outstanding();
        let after = set.task_completed().outstanding();
        let gone = set.active[set.cursor];
        assert(after =~= before.remove(set.cursor));
        assert(before[set.cursor] == gone);
        assert forall|i: int, j: int| 0 <= i < j < after.len() implies after[i] < after[j] by {
            let bi = if i < set.cursor { i } else { i + 1 };
            let bj = if j < set.cursor { j } else { j + 1 };
            assert(after[i] == before[bi] && after[j] == before[bj]);
        }
        assert forall|i: int| 0 <= i < after.len() implies (#[trigger] after[i]) < set.spawned by {
            let bi = if i < set.cursor { i } else { i + 1 };
            assert(after[i] == before[bi]);
        }
        assert forall|i: int| 0 <= i < after.len() implies (#[trigger] after[i]) != gone by {
            let bi = if i < set.cursor { i } else { i + 1 };
            assert(after[i] == before[bi]);
            if bi < set.cursor {
                assert(before[bi] < before[set.cursor]);
            } else {
                assert(before[set.cursor] < before[bi]);
            }
        }
        assert forall|id: TaskId| id != gone implies (#[trigger] after.contains(id)
            <==> before.contains(id)) by {
            if after.contains(id) {
                let i = choose|i: int| 0 <= i < after.len() && after[i] == id;
                let bi = if i < set.cursor { i } else { i + 1 };
                assert(before[bi] == id);
            }
            if before.contains(id) {
                let bi = choose|bi: int| 0 <= bi < before.len() && before[bi] == id;
                let i = if bi < set.cursor { bi } else { bi - 1 };
                assert(after[i] == id);
            }
        }
    }
}

/// Every request to the driver keeps the invariant and the outstanding
/// tasks: driving itself neither adds nor removes a task.
pub proof fn lemma_drive_preserves_wf<R>(set: TaskSetView, termination: Option<R>)
    requires
        set.wf(),
    ensures
        set.drive(termination).0.wf(),
        set.drive(termination).0.outstanding() == set.outstanding(),
        set.drive(termination).0.spawned == set.spawned,
{
    let next = set.drive(termination).0;
    let restarted = TaskSetView { cursor: 0, ..set };
    lemma_merge_preserves_wf(set);
    assert(restarted.merge().outstanding() =~= set.outstanding());
    assert(restarted.merge().merge().outstanding() =~= set.outstanding());
    assert(next.outstanding() =~= set.outstanding());
}

} // verus!
