//! The termination slot: a set-once cell that carries a scope's early result.

use vstd::prelude::*;

verus! {

/// What a slot holds after `value` is offered to it: the first value offered
/// to an empty slot stays, every later offer is dropped.
pub open spec fn store_if_empty<R>(slot: Option<R>, value: R) -> Option<R> {
    match slot {
        None => Some(value),
        Some(_) => slot,
    }
}

/// A write-once cell for the value that ends a scope early.
///
/// The view of a slot is the value it currently holds, if any.
pub struct TerminationSlot<R> {
    value: Option<R>,
}

impl<R> View for TerminationSlot<R> {
    type V = Option<R>;

    closed spec fn view(&self) -> Option<R> {
        self.value
    }
}

impl<R> TerminationSlot<R> {
    /// An empty slot.
    pub fn new() -> (slot: Self)
        ensures
            slot@ is None,
    {
        TerminationSlot { value: None }
    }

    /// Offers `value` to the slot. It is stored only if the slot is empty;
    /// the result says whether it was.
    pub fn terminate(&mut self, value: R) -> (stored: bool)
        ensures
            final(self)@ == store_if_empty(old(self)@, value),
            stored == (old(self)@ is None),
    {
        if self.value.is_none() {
            self.value = Some(value);
            true
        } else {
            false
        }
    }

    /// Removes and returns the stored value, leaving the slot empty.
    pub fn take(&mut self) -> (value: Option<R>)
        ensures
            value == old(self)@,
            final(self)@ is None,
    {
        self.value.take()
    }

    /// Whether a value is waiting in the slot.
    pub fn is_set(&self) -> (set: bool)
        ensures
            set == (self@ is Some),
    {
        self.value.is_some()
    }
}

} // verus!
