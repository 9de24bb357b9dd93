use moro::termination::TerminationSlot;

#[test]
fn new_slot_is_empty() {
    let mut slot: TerminationSlot<i32> = TerminationSlot::new();
    assert!(!slot.is_set());
    assert_eq!(slot.take(), None);
}

#[test]
fn first_terminate_wins() {
    let mut slot: TerminationSlot<i32> = TerminationSlot::new();
    assert!(slot.terminate(1));
    assert!(!slot.terminate(2));
    assert!(slot.is_set());
    assert_eq!(slot.take(), Some(1));
}

#[test]
fn take_empties_the_slot() {
    let mut slot: TerminationSlot<&str> = TerminationSlot::new();
    slot.terminate("stop");
    assert_eq!(slot.take(), Some("stop"));
    assert!(!slot.is_set());
    assert_eq!(slot.take(), None);
}

#[test]
fn slot_accepts_a_value_again_after_take() {
    let mut slot: TerminationSlot<i32> = TerminationSlot::new();
    slot.terminate(1);
    assert_eq!(slot.take(), Some(1));
    assert!(slot.terminate(2));
    assert_eq!(slot.take(), Some(2));
}
