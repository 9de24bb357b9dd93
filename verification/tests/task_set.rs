use moro::task_set::{DriveResult, DriveStep, TaskSet};
use moro::termination::TerminationSlot;

#[test]
fn empty_set_is_drained() {
    let mut set = TaskSet::new();
    let mut slot: TerminationSlot<i32> = TerminationSlot::new();
    assert!(set.is_empty());
    assert_eq!(set.len(), 0);
    assert_eq!(set.spawned(), 0);
    assert_eq!(set.current(), None);
    assert_eq!(set.drive(&mut slot), DriveStep::Done(DriveResult::Drained));
}

#[test]
fn tasks_are_numbered_in_spawn_order() {
    let mut set = TaskSet::new();
    assert_eq!(set.spawn(), 0);
    assert_eq!(set.spawn(), 1);
    assert_eq!(set.spawn(), 2);
    assert_eq!(set.spawned(), 3);
    assert_eq!(set.len(), 3);
    assert!(!set.is_empty());
}

#[test]
fn each_task_is_resumed_once_per_call() {
    let mut set = TaskSet::new();
    let mut slot: TerminationSlot<i32> = TerminationSlot::new();
    set.spawn();
    set.spawn();
    assert_eq!(set.drive(&mut slot), DriveStep::Resume(0));
    assert_eq!(set.current(), Some(0));
    assert_eq!(set.drive(&mut slot), DriveStep::Resume(0));
    assert_eq!(set.task_yielded(), Some(0));
    assert_eq!(set.current(), None);
    assert_eq!(set.drive(&mut slot), DriveStep::Resume(1));
    assert_eq!(set.task_yielded(), Some(1));
    assert_eq!(set.drive(&mut slot), DriveStep::Done(DriveResult::Suspended));
    assert_eq!(set.len(), 2);
    assert_eq!(set.drive(&mut slot), DriveStep::Resume(0));
}

#[test]
fn completed_task_leaves_the_set() {
    let mut set = TaskSet::new();
    let mut slot: TerminationSlot<i32> = TerminationSlot::new();
    set.spawn();
    set.spawn();
    set.spawn();
    assert_eq!(set.drive(&mut slot), DriveStep::Resume(0));
    assert_eq!(set.task_yielded(), Some(0));
    assert_eq!(set.drive(&mut slot), DriveStep::Resume(1));
    assert_eq!(set.task_completed(), Some(1));
    assert_eq!(set.len(), 2);
    assert_eq!(set.drive(&mut slot), DriveStep::Resume(2));
    assert_eq!(set.task_completed(), Some(2));
    assert_eq!(set.drive(&mut slot), DriveStep::Done(DriveResult::Suspended));
    assert_eq!(set.drive(&mut slot), DriveStep::Resume(0));
    assert_eq!(set.task_completed(), Some(0));
    assert_eq!(set.drive(&mut slot), DriveStep::Done(DriveResult::Drained));
    assert!(set.is_empty());
    assert_eq!(set.spawned(), 3);
}

#[test]
fn reports_without_a_running_task_are_ignored() {
    let mut set = TaskSet::new();
    set.spawn();
    assert_eq!(set.task_yielded(), None);
    assert_eq!(set.task_completed(), None);
    assert_eq!(set.len(), 1);
}

#[test]
fn task_spawned_during_a_call_is_resumed_by_that_call() {
    let mut set = TaskSet::new();
    let mut slot: TerminationSlot<i32> = TerminationSlot::new();
    set.spawn();
    assert_eq!(set.drive(&mut slot), DriveStep::Resume(0));
    assert_eq!(set.spawn(), 1);
    assert_eq!(set.task_completed(), Some(0));
    assert_eq!(set.drive(&mut slot), DriveStep::Resume(1));
    assert_eq!(set.task_completed(), Some(1));
    assert_eq!(set.drive(&mut slot), DriveStep::Done(DriveResult::Drained));
}

#[test]
fn termination_before_a_call_ends_it_at_once() {
    let mut set = TaskSet::new();
    let mut slot: TerminationSlot<i32> = TerminationSlot::new();
    set.spawn();
    slot.terminate(9);
    assert_eq!(set.drive(&mut slot), DriveStep::Done(DriveResult::Terminated(9)));
    assert!(!slot.is_set());
    assert_eq!(set.len(), 1);
}

#[test]
fn termination_during_a_call_is_reported_by_the_next() {
    let mut set = TaskSet::new();
    let mut slot: TerminationSlot<i32> = TerminationSlot::new();
    set.spawn();
    set.spawn();
    assert_eq!(set.drive(&mut slot), DriveStep::Resume(0));
    slot.terminate(4);
    assert_eq!(set.task_yielded(), Some(0));
    assert_eq!(set.drive(&mut slot), DriveStep::Done(DriveResult::Suspended));
    assert!(slot.is_set());
    assert_eq!(set.drive(&mut slot), DriveStep::Done(DriveResult::Terminated(4)));
    assert!(!slot.is_set());
}

#[test]
fn nothing_is_resumed_after_termination() {
    let mut set = TaskSet::new();
    let mut slot: TerminationSlot<i32> = TerminationSlot::new();
    set.spawn();
    slot.terminate(1);
    assert_eq!(set.drive(&mut slot), DriveStep::Done(DriveResult::Terminated(1)));
    assert_eq!(set.drive(&mut slot), DriveStep::Done(DriveResult::Suspended));
    assert_eq!(set.spawn(), 1);
    assert_eq!(set.drive(&mut slot), DriveStep::Done(DriveResult::Suspended));
    slot.terminate(2);
    assert_eq!(set.drive(&mut slot), DriveStep::Done(DriveResult::Suspended));
    set.clear();
    assert_eq!(set.drive(&mut slot), DriveStep::Done(DriveResult::Suspended));
}

#[test]
fn clear_discards_every_task() {
    let mut set = TaskSet::new();
    let mut slot: TerminationSlot<i32> = TerminationSlot::new();
    set.spawn();
    set.spawn();
    assert_eq!(set.drive(&mut slot), DriveStep::Resume(0));
    set.clear();
    assert!(set.is_empty());
    assert_eq!(set.current(), None);
    assert_eq!(set.spawned(), 2);
    assert_eq!(set.drive(&mut slot), DriveStep::Done(DriveResult::Drained));
    assert_eq!(set.spawn(), 2);
}
