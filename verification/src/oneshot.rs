// A one-shot slot: the state shared by the two ends of a channel that
// carries a single value from a completion callback to the task awaiting
// it, as an asynchronous device readback does. The CPU backend reads back
// synchronously, so within this crate only callers of the library use it.
// Sharing the slot between the two ends and waking the waiting task are
// the caller's part; the transitions of the slot are here, as functions
// from state and event to next state and action.
use vstd::prelude::*;

verus! {

/// The state of a slot: the value not yet taken, whether a receiver is
/// registered to be woken, and whether the receiving end has gone away.
pub ghost struct SlotState<T> {
    pub value: Option<T>,
    pub waiter: bool,
    pub closed: bool,
}

/// What a poll of the receiving end gives.
pub enum Recv<T> {
    /// The value, or `Err(())` once the slot is closed with nothing in it.
    Ready(Result<T, ()>),
    /// Nothing yet; the receiver is now registered to be woken.
    Pending,
}

/// A one-shot slot. Nothing in this crate closes a slot, so a slot made by
/// `oneshot` stays open.
pub struct Slot<T> {
    value: Option<T>,
    waiter: bool,
    closed: bool,
}

impl<T> View for Slot<T> {
    type V = SlotState<T>;

    closed spec fn view(&self) -> SlotState<T> {
        SlotState { value: self.value, waiter: self.waiter, closed: self.closed }
    }
}

/// A fresh slot: empty, nobody waiting, open.
pub open spec fn empty_slot<T>() -> SlotState<T> {
    SlotState { value: None, waiter: false, closed: false }
}

/// Sending `v`: the next state, the outcome (the value handed back when the
/// slot is closed), and whether a registered receiver is to be woken.
pub open spec fn after_send<T>(s: SlotState<T>, v: T) -> (SlotState<T>, Result<(), T>, bool) {
    if s.closed {
        (s, Err(v), false)
    } else {
        (SlotState { value: Some(v), waiter: false, closed: s.closed }, Ok(()), s.waiter)
    }
}

/// Polling the receiving end: the next state and what the poll gives.
pub open spec fn after_poll<T>(s: SlotState<T>) -> (SlotState<T>, Recv<T>) {
    match s.value {
        Some(v) => (SlotState { value: None, waiter: s.waiter, closed: s.closed }, Recv::Ready(Ok(v))),
        None => if s.closed {
            (s, Recv::Ready(Err(())))
        } else {
            (SlotState { value: None, waiter: true, closed: s.closed }, Recv::Pending)
        },
    }
}

/// A fresh slot.
pub fn oneshot<T>() -> (r: Slot<T>)
    ensures
        r@ == empty_slot::<T>(),
{
    Slot { value: None, waiter: false, closed: false }
}

/// The channel used by a readback: a fresh one-shot slot.
pub fn futures_channel<T>() -> (r: Slot<T>)
    ensures
        r@ == empty_slot::<T>(),
{
    oneshot()
}

impl<T> Slot<T> {
    /// Puts `v` in the slot. Returns the outcome (`Err(v)` when the slot is
    /// closed) and whether the registered receiver must be woken.
    pub fn send(&mut self, v: T) -> (r: (Result<(), T>, bool))
        ensures
            (final(self)@, r.0, r.1) == after_send(old(self)@, v),
    {
        if self.closed {
            return (Err(v), false);
        }
        self.value = Some(v);
        let wake = self.waiter;
        self.waiter = false;
        (Ok(()), wake)
    }

    /// Polls the receiving end: takes the value if there is one, fails once
    /// the slot is closed and empty, and otherwise registers the receiver.
    pub fn poll(&mut self) -> (r: Recv<T>)
        ensures
            (final(self)@, r) == after_poll(old(self)@),
    {
        match self.value.take() {
            Some(v) => Recv::Ready(Ok(v)),
            None => {
                if self.closed {
                    Recv::Ready(Err(()))
                } else {
                    self.waiter = true;
                    Recv::Pending
                }
            },
        }
    }
}

/// On an open slot, the poll after a send gives the value sent.
pub proof fn lemma_send_then_poll<T>(s: SlotState<T>, v: T)
    requires
        !s.closed,
    ensures
        after_poll(after_send(s, v).0).1 == Recv::<T>::Ready(Ok(v)),
        after_poll(after_send(s, v).0).0.value is None,
{
}

/// On an open, empty slot a poll is pending and registers the receiver,
/// and the send that follows asks for it to be woken and then gives the
/// value to the next poll.
pub proof fn lemma_poll_send_wakes<T>(s: SlotState<T>, v: T)
    requires
        !s.closed,
        s.value is None,
    ensures
        after_poll(s).1 == Recv::<T>::Pending,
        after_send(after_poll(s).0, v).2,
        after_poll(after_send(after_poll(s).0, v).0).1 == Recv::<T>::Ready(Ok(v)),
{
}

} // verus!
