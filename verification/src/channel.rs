//! The result channel: a capacity-one handoff from a task to the holder of
//! its handle.

use vstd::prelude::*;

verus! {

/// Where a result channel stands. This is also the view of a
/// [`ResultChannel`].
#[derive(Debug, PartialEq, Eq)]
pub enum ChannelState<T> {
    /// Nothing was sent yet and the producer is still there.
    Waiting,
    /// A value was sent and waits to be received.
    Ready(T),
    /// The value was received.
    Delivered,
    /// The producer went away without sending.
    Closed,
}

/// What one attempt to receive from a channel gives.
#[derive(Debug, PartialEq, Eq)]
pub enum Delivery<T> {
    /// No value yet: the receiver has to wait.
    Pending,
    /// The value, handed over exactly once.
    Ready(T),
    /// The value was handed over by an earlier attempt.
    Taken,
    /// The channel was closed before anything was sent.
    Closed,
}

/// One operation on a channel, as an event in a history.
pub enum ChannelOp<T> {
    Send(T),
    Close,
    Receive,
}

impl<T> ChannelState<T> {
    /// The state after `value` is offered: only a waiting channel accepts it.
    pub open spec fn send(self, value: T) -> Self {
        match self {
            ChannelState::Waiting => ChannelState::Ready(value),
            _ => self,
        }
    }

    /// The state after the producer goes away: a value already sent stays
    /// receivable.
    pub open spec fn close(self) -> Self {
        match self {
            ChannelState::Waiting => ChannelState::Closed,
            _ => self,
        }
    }

    /// The state after one attempt to receive, and what the attempt gives.
    pub open spec fn receive(self) -> (Self, Delivery<T>) {
        match self {
            ChannelState::Waiting => (self, Delivery::Pending),
            ChannelState::Ready(value) => (ChannelState::Delivered, Delivery::Ready(value)),
            ChannelState::Delivered => (self, Delivery::Taken),
            ChannelState::Closed => (self, Delivery::Closed),
        }
    }

    /// The state after one operation.
    pub open spec fn apply(self, op: ChannelOp<T>) -> Self {
        match op {
            ChannelOp::Send(value) => self.send(value),
            ChannelOp::Close => self.close(),
            ChannelOp::Receive => self.receive().0,
        }
    }

    /// The state after a whole history of operations, oldest first.
    pub open spec fn run(self, ops: Seq<ChannelOp<T>>) -> Self
        decreases ops.len(),
    {
        if ops.len() == 0 {
            self
        } else {
            self.apply(ops[0]).run(ops.drop_first())
        }
    }

    /// The values that the receive attempts of a history hand over, in order.
    pub open spec fn deliveries(self, ops: Seq<ChannelOp<T>>) -> Seq<T>
        decreases ops.len(),
    {
        if ops.len() == 0 {
            Seq::empty()
        } else {
            let rest = self.apply(ops[0]).deliveries(ops.drop_first());
            match (ops[0], self) {
                (ChannelOp::Receive, ChannelState::Ready(value)) => seq![value] + rest,
                _ => rest,
            }
        }
    }

    /// The values that a history offers to the channel, in order.
    pub open spec fn offers(ops: Seq<ChannelOp<T>>) -> Seq<T>
        decreases ops.len(),
    {
        if ops.len() == 0 {
            Seq::empty()
        } else {
            let rest = Self::offers(ops.drop_first());
            match ops[0] {
                ChannelOp::Send(value) => seq![value] + rest,
                _ => rest,
            }
        }
    }
}

/// A single-producer, single-consumer handoff with room for one value.
pub struct ResultChannel<T> {
    state: ChannelState<T>,
}

impl<T> View for ResultChannel<T> {
    type V = ChannelState<T>;

    closed spec fn view(&self) -> ChannelState<T> {
        self.state
    }
}

impl<T> ResultChannel<T> {
    /// A fresh channel: nothing sent, producer present.
    pub fn new() -> (channel: Self)
        ensures
            channel@ is Waiting,
    {
        ResultChannel { state: ChannelState::Waiting }
    }

    /// Offers `value` to the receiver. A waiting channel takes it; any other
    /// channel is left as it is and the value comes back.
    pub fn send(&mut self, value: T) -> (outcome: Result<(), T>)
        ensures
            final(self)@ == old(self)@.send(value),
            old(self)@ is Waiting ==> outcome == Ok::<(), T>(()),
            !(old(self)@ is Waiting) ==> outcome == Err::<(), T>(value),
    {
        match self.state {
            ChannelState::Waiting => {
                self.state = ChannelState::Ready(value);
                Ok(())
            },
            _ => Err(value),
        }
    }

    /// Records that the producer went away. Only a waiting channel changes.
    pub fn close(&mut self)
        ensures
            final(self)@ == old(self)@.close(),
    {
        match self.state {
            ChannelState::Waiting => {
                self.state = ChannelState::Closed;
            },
            _ => {},
        }
    }

    /// One attempt to receive. The value is handed over by the first attempt
    /// that finds it, and by no later one.
    pub fn receive(&mut self) -> (delivery: Delivery<T>)
        ensures
            (final(self)@, delivery) == old(self)@.receive(),
    {
        let mut state = ChannelState::Delivered;
        core::mem::swap(&mut self.state, &mut state);
        match state {
            ChannelState::Waiting => {
                self.state = ChannelState::Waiting;
                Delivery::Pending
            },
            ChannelState::Ready(value) => Delivery::Ready(value),
            ChannelState::Delivered => Delivery::Taken,
            ChannelState::Closed => {
                self.state = ChannelState::Closed;
                Delivery::Closed
            },
        }
    }

    /// Whether the channel still waits for its value.
    pub fn is_waiting(&self) -> (waiting: bool)
        ensures
            waiting == (self@ is Waiting),
    {
        match self.state {
            ChannelState::Waiting => true,
            _ => false,
        }
    }
}

/// Once a channel has handed its value over, or was closed empty, no history
/// makes it hand over anything.
pub proof fn lemma_spent_channel_is_silent<T>(state: ChannelState<T>, ops: Seq<ChannelOp<T>>)
    requires
        state is Delivered || state is Closed,
    ensures
        state.deliveries(ops) == Seq::<T>::empty(),
    decreases ops.len(),
{
    if ops.len() > 0 {
        lemma_spent_channel_is_silent(state.apply(ops[0]), ops.drop_first());
    }
}

/// A channel that holds a value hands over that value and nothing else,
/// whatever is offered to it afterwards.
pub proof fn lemma_full_channel_delivers_its_value<T>(value: T, ops: Seq<ChannelOp<T>>)
    ensures
        ChannelState::Ready(value).deliveries(ops) == Seq::<T>::empty()
            || ChannelState::Ready(value).deliveries(ops) == seq![value],
    decreases ops.len(),
{
    let state = ChannelState::Ready(value);
    if ops.len() > 0 {
        match ops[0] {
            ChannelOp::Receive => {
                lemma_spent_channel_is_silent(ChannelState::<T>::Delivered, ops.drop_first());
                assert(state.deliveries(ops) =~= seq![value]);
            },
            _ => {
                lemma_full_channel_delivers_its_value(value, ops.drop_first());
            },
        }
    }
}

/// At-most-one delivery: over any history of sends, closes and receive
/// attempts on a fresh channel, the receiver is handed at most one value, and
/// that value is the first one that was sent.
pub proof fn lemma_at_most_one_delivery<T>(ops: Seq<ChannelOp<T>>)
    ensures
        ChannelState::<T>::Waiting.deliveries(ops).len() <= 1,
        ChannelState::<T>::Waiting.deliveries(ops).len() == 1 ==> {
            &&& ChannelState::<T>::offers(ops).len() >= 1
            &&& ChannelState::<T>::Waiting.deliveries(ops)[0] == ChannelState::<T>::offers(ops)[0]
        },
    decreases ops.len(),
{
    let fresh = ChannelState::<T>::Waiting;
    if ops.len() > 0 {
        match ops[0] {
            ChannelOp::Send(value) => {
                lemma_full_channel_delivers_its_value(value, ops.drop_first());
            },
            ChannelOp::Close => {
                lemma_spent_channel_is_silent(ChannelState::<T>::Closed, ops.drop_first());
            },
            ChannelOp::Receive => {
                lemma_at_most_one_delivery::<T>(ops.drop_first());
            },
        }
    }
}

} // verus!
