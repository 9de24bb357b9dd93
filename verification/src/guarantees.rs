//! What the engine guarantees, proved over the models of its parts.
//!
//! Every operation of the library is specified as a transition of a model
//! (`ScopeView`, `BodyView`), so a statement proved here for every model
//! that satisfies the invariant holds in every state that a scope can reach.

use vstd::prelude::*;
use crate::body::{BodyView, JoinStep, Stage};
use crate::channel::{ChannelState, Delivery};
use crate::scope::ScopeView;
use crate::task_set::{DriveResult, DriveStep, Phase, TaskId};
use crate::termination::store_if_empty;

verus! {

/// First write wins: of two termination requests made before the driver
/// looks, the first is the one that the slot keeps.
pub proof fn lemma_first_write_wins<R>(first: R, second: R)
    ensures
        store_if_empty(store_if_empty(None, first), second) == Some(first),
{
}

/// A termination request changes nothing while an earlier one waits in the
/// slot.
pub proof fn lemma_later_write_is_dropped<R>(slot: Option<R>, value: R)
    requires
        slot is Some,
    ensures
        store_if_empty(slot, value) == slot,
{
}

/// First write wins, seen from the driver: after two termination requests on
/// a scope that had none, the next drive call that starts reports the first
/// value.
pub proof fn lemma_first_termination_is_reported<R, T>(scope: ScopeView<R, T>, first: R, second: R)
    requires
        scope.termination is None,
        scope.tasks.phase is Idle,
    ensures
        scope.terminate(first).terminate(second) == scope.terminate(first),
        scope.terminate(first).terminate(second).drive().1 == DriveStep::Done(
            DriveResult::Terminated(first),
        ),
{
}

/// No task is left behind: a drive call reports `Drained` only when no task
/// is outstanding, neither active nor incoming, and every task ever spawned
/// has delivered its value to its channel.
pub proof fn lemma_drained_means_all_done<R, T>(scope: ScopeView<R, T>)
    requires
        scope.wf(),
        scope.drive().1 == DriveStep::Done(DriveResult::<R>::Drained),
    ensures
        scope.termination is None,
        scope.tasks.outstanding().len() == 0,
        scope.drive().0.tasks.active.len() == 0,
        scope.drive().0.tasks.incoming.len() == 0,
        forall|id: TaskId|
            0 <= id < scope.channels.len() ==> !((#[trigger] scope.channels[id as int]) is Waiting),
{
    crate::scope::lemma_drive_preserves_wf(scope);
    let after = scope.drive().0;
    assert(after.tasks.outstanding() =~= Seq::<TaskId>::empty());
    assert forall|id: TaskId| 0 <= id < scope.channels.len() implies !((
    #[trigger] scope.channels[id as int]) is Waiting) by {
        assert(!scope.tasks.outstanding().contains(id));
    }
}

/// While a task that was spawned has not completed, no drive call reports
/// `Drained`.
pub proof fn lemma_waiting_task_blocks_drain<R, T>(scope: ScopeView<R, T>, task: TaskId)
    requires
        scope.wf(),
        task < scope.channels.len(),
        scope.channels[task as int] is Waiting,
    ensures
        scope.tasks.outstanding().contains(task),
        scope.drive().1 != DriveStep::Done(DriveResult::<R>::Drained),
{
    if scope.drive().1 == DriveStep::Done(DriveResult::<R>::Drained) {
        lemma_drained_means_all_done(scope);
    }
}

/// Late spawn admission: when the task being resumed spawns a sibling and
/// then completes, the sibling is outstanding and the drive call in progress
/// goes on to resume a task instead of ending. Whatever happens next, the
/// call cannot report `Drained` before the sibling has completed.
pub proof fn lemma_late_spawn_is_admitted<R, T>(scope: ScopeView<R, T>, value: T)
    requires
        scope.wf(),
        scope.tasks.phase is Resuming,
        scope.termination is None,
        scope.tasks.spawned < usize::MAX,
    ensures
        ({
            let sibling = scope.tasks.spawned as TaskId;
            let after = scope.spawn().task_completed(value);
            &&& after.wf()
            &&& after.tasks.outstanding().contains(sibling)
            &&& after.channels[sibling as int] is Waiting
            &&& after.drive().1 is Resume
            &&& after.drive().0.tasks.outstanding().contains(sibling)
        }),
{
    let sibling = scope.tasks.spawned as TaskId;
    let spawned = scope.spawn();
    let after = spawned.task_completed(value);
    crate::scope::lemma_spawn_preserves_wf(scope);
    crate::scope::lemma_completion_preserves_wf(spawned, value);
    crate::scope::lemma_drive_preserves_wf(after);
    let finished = spawned.tasks.current().unwrap();
    assert(scope.tasks.outstanding()[scope.tasks.cursor] == finished);
    assert(spawned.tasks.outstanding()[spawned.tasks.cursor] == finished);
    assert(spawned.channels[sibling as int] is Waiting);
    assert(after.channels[sibling as int] is Waiting);
    assert(after.tasks.incoming.len() > 0);
}

/// Once termination was reported, nothing is resumed again: every later
/// drive call ends at once as suspended and leaves the scope as it is.
pub proof fn lemma_abandoned_tasks_never_run<R, T>(scope: ScopeView<R, T>)
    requires
        scope.tasks.phase is Abandoned,
    ensures
        scope.drive() == (scope, DriveStep::Done(DriveResult::<R>::Suspended)),
        scope.spawn().tasks.phase is Abandoned,
        scope.task_yielded() == scope,
        scope.clear().tasks.phase is Abandoned,
        forall|value: T| #[trigger] scope.task_completed(value) == scope,
        forall|value: R| (#[trigger] scope.terminate(value)).tasks.phase is Abandoned,
{
    let (tasks, termination, step) = scope.tasks.drive(scope.termination);
    assert(scope.drive().0 == scope);
}

/// Cancelling propagation: when a cancelling task fails while nothing asked
/// for termination yet, its failure becomes the termination value of the
/// scope. No task completes on that account, the failing one included: what
/// was outstanding stays outstanding. The drive call in progress ends as
/// suspended, the next one reports the failure whatever is outstanding, and
/// from then on nothing is resumed.
pub proof fn lemma_failure_cancels_scope<A, E, T>(scope: ScopeView<Result<A, E>, T>, failure: E)
    requires
        scope.wf(),
        scope.tasks.phase is Resuming,
        scope.termination is None,
    ensures
        ({
            let failed = scope.task_finished(Err(failure));
            let (suspended, first) = failed.drive();
            let (reported, second) = suspended.drive();
            &&& failed.termination == Some(Err::<A, E>(failure))
            &&& failed.tasks.outstanding() == scope.tasks.outstanding()
            &&& failed.channels == scope.channels
            &&& first == DriveStep::Done(DriveResult::<Result<A, E>>::Suspended)
            &&& second == DriveStep::Done(DriveResult::Terminated(Err::<A, E>(failure)))
            &&& reported.tasks.outstanding() == scope.tasks.outstanding()
            &&& reported.channels == scope.channels
            &&& reported.tasks.phase is Abandoned
        }),
{
}

/// Join completeness: when a poll resolves the scope, either termination
/// was requested, and the result is the value of that request, or the body
/// has completed with the result, no task is outstanding, and every task
/// ever spawned has delivered its value to its channel.
pub proof fn lemma_join_completeness<R, T>(body: BodyView<R, T>)
    requires
        body.wf(),
    ensures
        body.poll().1 matches JoinStep::Ready(value) ==> {
            ||| body.scope.termination == Some(value)
            ||| {
                &&& !body.body_pending
                &&& body.result == Some(value)
                &&& body.scope.termination is None
                &&& body.scope.tasks.outstanding().len() == 0
                &&& forall|id: TaskId|
                    0 <= id < body.scope.channels.len() ==> !((
                    #[trigger] body.scope.channels[id as int]) is Waiting)
            }
        },
{
    if body.poll().1 is Ready {
        let (scope, step) = body.scope.drive();
        if step == DriveStep::Done(DriveResult::<R>::Drained) {
            lemma_drained_means_all_done(body.scope);
        }
    }
}

/// Termination precedence: while a termination request waits in the slot, a
/// poll that resolves the scope resolves it with the value of that request,
/// even if the body has completed, or completes now, with a result of its
/// own. A poll that does not resolve the scope leaves the request in place.
pub proof fn lemma_termination_precedence<R, T>(body: BodyView<R, T>, value: R, body_result: R)
    requires
        body.wf(),
        body.scope.termination == Some(value),
    ensures
        body.poll().1 matches JoinStep::Ready(result) ==> result == value,
        body.body_completed(body_result).poll().1 matches JoinStep::Ready(result) ==> result
            == value,
        !(body.poll().1 is Ready) ==> body.poll().0.scope.termination == Some(value),
        !body.resolved && !body.body_pending && body.scope.tasks.phase is Idle ==> body.poll().1
            == JoinStep::Ready(value),
{
}

/// Termination precedence within one cycle, the body's turn: if termination
/// is requested while the body is being resumed, and the body completes in
/// that same turn, the poll that follows resolves the scope with the
/// termination value and not with the body's result.
pub proof fn lemma_termination_beats_completing_body<R, T>(
    body: BodyView<R, T>,
    value: R,
    body_result: R,
)
    requires
        body.wf(),
        !body.resolved,
        body.stage is BodyRunning,
        body.scope.termination is None,
        body.scope.tasks.phase is Idle,
    ensures
        ({
            let requested = BodyView { scope: body.scope.terminate(value), ..body };
            requested.body_completed(body_result).poll().1 == JoinStep::Ready(value)
        }),
{
}

/// Termination precedence within one cycle, a task's turn: if the body has
/// completed and the task being resumed requests termination before it
/// suspends, the poll that follows ends the cycle without a result, and the
/// poll after that resolves the scope with the termination value and not
/// with the body's result.
pub proof fn lemma_termination_beats_stored_result<R, T>(
    body: BodyView<R, T>,
    value: R,
    body_result: R,
)
    requires
        body.wf(),
        !body.resolved,
        body.stage is Driving,
        body.result == Some(body_result),
        body.scope.termination is None,
        body.scope.tasks.phase is Resuming,
    ensures
        ({
            let requested = BodyView { scope: body.scope.terminate(value), ..body };
            let (suspended, first) = requested.task_yielded().poll();
            let (resolved, second) = suspended.poll();
            &&& first == JoinStep::<R>::Pending
            &&& second == JoinStep::Ready(value)
            &&& resolved.result is None
            &&& resolved.resolved
        }),
{
}

/// A scope resolves at most once: after the poll that hands out the result,
/// every poll is pending and changes nothing.
pub proof fn lemma_resolves_at_most_once<R, T>(body: BodyView<R, T>)
    requires
        body.wf(),
        body.poll().1 is Ready,
    ensures
        body.poll().0.resolved,
        body.poll().0.poll() == (body.poll().0, JoinStep::<R>::Pending),
{
}

/// Everything that can happen to a scope between two looks at it: the
/// operations of the join driver, and the operations of the scope that the
/// body and the tasks reach through it. The report of a cancelling task is
/// not listed: it is a completion, or a termination request followed by a
/// suspension.
pub enum Event<R, T> {
    /// A poll of the join driver.
    Poll,
    /// The body reports that it suspended.
    BodyYielded,
    /// The body reports that it completed.
    BodyCompleted(R),
    /// The task being resumed reports that it suspended.
    TaskYielded,
    /// The task being resumed reports that it completed.
    TaskCompleted(T),
    /// A task is spawned.
    Spawn,
    /// Termination is requested.
    Terminate(R),
    /// A handle tries to receive the result of a task.
    Receive(TaskId),
    /// The task driver of the scope is asked directly, past the join driver.
    Drive,
    /// The tasks of the scope are discarded, the join driver left alone.
    Discard,
    /// The join driver is torn down.
    Clear,
}

/// The join driver after one event.
pub open spec fn after<R, T>(body: BodyView<R, T>, event: Event<R, T>) -> BodyView<R, T> {
    match event {
        Event::Poll => body.poll().0,
        Event::BodyYielded => body.body_yielded(),
        Event::BodyCompleted(value) => body.body_completed(value),
        Event::TaskYielded => body.task_yielded(),
        Event::TaskCompleted(value) => body.task_completed(value),
        Event::Spawn => BodyView { scope: body.scope.spawn(), ..body },
        Event::Terminate(value) => BodyView { scope: body.scope.terminate(value), ..body },
        Event::Receive(task) => BodyView { scope: body.scope.receive(task).0, ..body },
        Event::Drive => BodyView { scope: body.scope.drive().0, ..body },
        Event::Discard => BodyView { scope: body.scope.clear(), ..body },
        Event::Clear => body.clear(),
    }
}

/// The join driver after a history of events, oldest first.
pub open spec fn after_all<R, T>(body: BodyView<R, T>, events: Seq<Event<R, T>>) -> BodyView<R, T>
    decreases events.len(),
{
    if events.len() == 0 {
        body
    } else {
        after_all(after(body, events[0]), events.drop_first())
    }
}

/// Every event keeps the invariant of the join driver, as long as task
/// numbers are left.
pub proof fn lemma_event_keeps_invariant<R, T>(body: BodyView<R, T>, event: Event<R, T>)
    requires
        body.wf(),
        body.scope.tasks.spawned < usize::MAX,
    ensures
        after(body, event).wf(),
        after(body, event).scope.tasks.spawned <= body.scope.tasks.spawned + 1,
{
    match event {
        Event::Poll => {
            crate::scope::lemma_drive_preserves_wf(body.scope);
        },
        Event::BodyYielded => {},
        Event::BodyCompleted(value) => {},
        Event::TaskYielded => {
            crate::scope::lemma_yield_preserves_wf(body.scope);
        },
        Event::TaskCompleted(value) => {
            crate::scope::lemma_completion_preserves_wf(body.scope, value);
        },
        Event::Spawn => {
            crate::scope::lemma_spawn_preserves_wf(body.scope);
        },
        Event::Terminate(value) => {},
        Event::Receive(task) => {
            crate::scope::lemma_receive_preserves_wf(body.scope, task);
        },
        Event::Drive => {
            crate::scope::lemma_drive_preserves_wf(body.scope);
        },
        Event::Discard => {
            crate::scope::lemma_clear_preserves_wf(body.scope);
        },
        Event::Clear => {
            crate::scope::lemma_clear_preserves_wf(body.scope);
        },
    }
}

/// The invariant holds after every history, as long as task numbers are
/// left.
pub proof fn lemma_history_keeps_invariant<R, T>(body: BodyView<R, T>, events: Seq<Event<R, T>>)
    requires
        body.wf(),
        body.scope.tasks.spawned + events.len() <= usize::MAX,
    ensures
        after_all(body, events).wf(),
        after_all(body, events).scope.tasks.spawned <= body.scope.tasks.spawned + events.len(),
    decreases events.len(),
{
    if events.len() > 0 {
        lemma_event_keeps_invariant(body, events[0]);
        lemma_history_keeps_invariant(after(body, events[0]), events.drop_first());
    }
}

/// Join completeness over all interleavings: whatever the body and the
/// tasks did since the scope was opened, and in whatever order, a poll that
/// resolves the scope finds that termination was requested with the result,
/// or that the body has completed with the result and every task ever
/// spawned has completed.
pub proof fn lemma_join_completeness_always<R, T>(events: Seq<Event<R, T>>)
    requires
        events.len() <= usize::MAX,
    ensures
        ({
            let body = after_all(BodyView::fresh(ScopeView::<R, T>::empty()), events);
            body.poll().1 matches JoinStep::Ready(value) ==> {
                ||| body.scope.termination == Some(value)
                ||| {
                    &&& body.result == Some(value)
                    &&& body.scope.tasks.outstanding().len() == 0
                    &&& forall|id: TaskId|
                        0 <= id < body.scope.channels.len() ==> !((
                        #[trigger] body.scope.channels[id as int]) is Waiting)
                }
            }
        }),
{
    let opened = BodyView::fresh(ScopeView::<R, T>::empty());
    assert(opened.scope.tasks.outstanding() =~= Seq::<TaskId>::empty());
    lemma_history_keeps_invariant(opened, events);
    lemma_join_completeness(after_all(opened, events));
}

/// Whether a scope is bound to end with `value` or not at all: a request for
/// termination with `value` waits in the slot, or termination was reported
/// already.
pub open spec fn doomed<R, T>(body: BodyView<R, T>, value: R) -> bool {
    body.scope.termination == Some(value) || body.scope.tasks.phase is Abandoned
}

/// A scope that is bound to end with `value` stays so under every event.
pub proof fn lemma_event_keeps_doom<R, T>(body: BodyView<R, T>, value: R, event: Event<R, T>)
    requires
        doomed(body, value),
    ensures
        doomed(after(body, event), value),
{
}

/// Termination precedence over all interleavings: once termination was
/// requested with `value`, nothing that the body or the tasks do afterwards,
/// in whatever order, makes the scope resolve with anything else. A poll
/// that resolves it hands out `value`.
pub proof fn lemma_termination_precedence_always<R, T>(
    body: BodyView<R, T>,
    value: R,
    events: Seq<Event<R, T>>,
)
    requires
        doomed(body, value),
    ensures
        doomed(after_all(body, events), value),
        after_all(body, events).poll().1 matches JoinStep::Ready(result) ==> result == value,
    decreases events.len(),
{
    if events.len() > 0 {
        lemma_event_keeps_doom(body, value, events[0]);
        lemma_termination_precedence_always(after(body, events[0]), value, events.drop_first());
    }
}

/// Cancelling propagation over all interleavings: once a cancelling task has
/// failed in a scope that nothing had asked to terminate, the scope resolves
/// with that failure or not at all, however many other tasks are outstanding
/// and whatever they and the body do afterwards.
pub proof fn lemma_failure_decides_result<A, E, T>(
    body: BodyView<Result<A, E>, T>,
    failure: E,
    events: Seq<Event<Result<A, E>, T>>,
)
    requires
        body.scope.tasks.phase is Resuming,
        body.scope.termination is None,
    ensures
        ({
            let failed = BodyView { scope: body.scope.task_finished(Err(failure)), ..body };
            after_all(failed, events).poll().1 matches JoinStep::Ready(result) ==> result == Err::<
                A,
                E,
            >(failure)
        }),
{
    let failed = BodyView { scope: body.scope.task_finished(Err(failure)), ..body };
    lemma_termination_precedence_always(failed, Err(failure), events);
}

/// The values that the attempts to receive the result of `task` hand over in
/// the course of a history, in order.
pub open spec fn deliveries_to<R, T>(
    body: BodyView<R, T>,
    task: TaskId,
    events: Seq<Event<R, T>>,
) -> Seq<T>
    decreases events.len(),
{
    if events.len() == 0 {
        Seq::empty()
    } else {
        let rest = deliveries_to(after(body, events[0]), task, events.drop_first());
        match (events[0], body.scope.receive(task).1) {
            (Event::Receive(receiver), Delivery::Ready(value)) if receiver == task => seq![value]
                + rest,
            _ => rest,
        }
    }
}

/// Whether the channel of `task` exists and will hand over nothing any more.
pub open spec fn spent<R, T>(body: BodyView<R, T>, task: TaskId) -> bool {
    &&& task < body.scope.channels.len()
    &&& (body.scope.channels[task as int] is Delivered || body.scope.channels[task as int] is Closed)
}

/// Whether the channel of `task` exists and holds `value`.
pub open spec fn holds<R, T>(body: BodyView<R, T>, task: TaskId, value: T) -> bool {
    &&& task < body.scope.channels.len()
    &&& body.scope.channels[task as int] == ChannelState::Ready(value)
}

/// What one event does to the channel of a task: a receive attempt on the
/// task receives, the completion of the task sends, teardown closes, and
/// every other event leaves the channel alone.
pub proof fn lemma_event_on_channel<R, T>(body: BodyView<R, T>, task: TaskId, event: Event<R, T>)
    requires
        body.wf(),
        task < body.scope.channels.len(),
    ensures
        task < after(body, event).scope.channels.len(),
        after(body, event).scope.channels[task as int] == (match event {
            Event::Receive(receiver) if receiver == task => body.scope.channels[task as int].receive().0,
            Event::TaskCompleted(value) if body.scope.tasks.current() == Some(task) =>
                ChannelState::Ready(value),
            Event::Discard => body.scope.channels[task as int].close(),
            Event::Clear => body.scope.channels[task as int].close(),
            _ => body.scope.channels[task as int],
        }),
        body.scope.tasks.current() == Some(task) ==> body.scope.channels[task as int] is Waiting,
{
    if body.scope.tasks.current() is Some {
        let current = body.scope.tasks.current().unwrap();
        assert(body.scope.tasks.outstanding()[body.scope.tasks.cursor] == current);
        assert(body.scope.tasks.outstanding().contains(current));
    }
}

/// A handle whose channel is spent receives nothing, whatever happens.
pub proof fn lemma_spent_handle_is_silent<R, T>(
    body: BodyView<R, T>,
    task: TaskId,
    events: Seq<Event<R, T>>,
)
    requires
        body.wf(),
        body.scope.tasks.spawned + events.len() <= usize::MAX,
        spent(body, task),
    ensures
        deliveries_to(body, task, events) == Seq::<T>::empty(),
    decreases events.len(),
{
    if events.len() > 0 {
        lemma_event_keeps_invariant(body, events[0]);
        lemma_event_on_channel(body, task, events[0]);
        lemma_spent_handle_is_silent(after(body, events[0]), task, events.drop_first());
    }
}

/// A handle whose channel holds a value receives that value and nothing
/// else, whatever happens.
pub proof fn lemma_full_handle_receives_its_value<R, T>(
    body: BodyView<R, T>,
    task: TaskId,
    value: T,
    events: Seq<Event<R, T>>,
)
    requires
        body.wf(),
        body.scope.tasks.spawned + events.len() <= usize::MAX,
        holds(body, task, value),
    ensures
        deliveries_to(body, task, events) == Seq::<T>::empty() || deliveries_to(body, task, events)
            == seq![value],
    decreases events.len(),
{
    if events.len() > 0 {
        let next = after(body, events[0]);
        lemma_event_keeps_invariant(body, events[0]);
        lemma_event_on_channel(body, task, events[0]);
        if events[0] == Event::<R, T>::Receive(task) {
            lemma_spent_handle_is_silent(next, task, events.drop_first());
            assert(deliveries_to(body, task, events) =~= seq![value]);
        } else {
            lemma_full_handle_receives_its_value(next, task, value, events.drop_first());
        }
    }
}

/// At-most-one delivery: from any state of a scope and over any history, the
/// handle of a task is handed a value at most once. Every other attempt to
/// receive finds the result pending, taken or the channel closed.
pub proof fn lemma_handle_receives_at_most_once<R, T>(
    body: BodyView<R, T>,
    task: TaskId,
    events: Seq<Event<R, T>>,
)
    requires
        body.wf(),
        body.scope.tasks.spawned + events.len() <= usize::MAX,
    ensures
        deliveries_to(body, task, events).len() <= 1,
    decreases events.len(),
{
    if spent(body, task) {
        lemma_spent_handle_is_silent(body, task, events);
    } else if task < body.scope.channels.len() && body.scope.channels[task as int] is Ready {
        lemma_full_handle_receives_its_value(
            body,
            task,
            body.scope.channels[task as int]->Ready_0,
            events,
        );
    } else if events.len() > 0 {
        lemma_event_keeps_invariant(body, events[0]);
        lemma_handle_receives_at_most_once(after(body, events[0]), task, events.drop_first());
    }
}

} // verus!
