use vstd::prelude::*;

use crate::waiter::ThreadOrWaker;

verus! {

/// The cell that the store keeps for one resource key.
pub enum Slot<T> {
    /// The resource is constructed and can be read.
    Filled(T),
    /// A constructor is running for the resource. `owner` started it;
    /// `waiting` lists the parties that wait for it, in registration order.
    Placeholder { owner: ThreadOrWaker, waiting: Vec<ThreadOrWaker> },
}

/// The mathematical value of a slot.
pub enum SlotState<T> {
    Filled(T),
    Placeholder { owner: ThreadOrWaker, waiting: Seq<ThreadOrWaker> },
}

/// What a reader learns of a slot without taking it: a copy of the value,
/// or that construction is still running.
pub enum SlotDesc<T> {
    Filled(T),
    Placeholder,
}

impl<T> View for Slot<T> {
    type V = SlotState<T>;

    open spec fn view(&self) -> SlotState<T> {
        match self {
            Slot::Filled(x) => SlotState::Filled(*x),
            Slot::Placeholder { owner, waiting } => SlotState::Placeholder {
                owner: *owner,
                waiting: waiting@,
            },
        }
    }
}

/// The parties to wake when a slot in state `s` is discarded or replaced.
pub open spec fn waiters_of<T>(s: SlotState<T>) -> Seq<ThreadOrWaker> {
    match s {
        SlotState::Filled(_) => Seq::empty(),
        SlotState::Placeholder { waiting, .. } => waiting,
    }
}

impl<T: Clone> Slot<T> {
    /// Describes the slot: a clone of the value when filled, else `Placeholder`.
    pub fn desc(&self) -> (r: SlotDesc<T>)
        ensures
            match self@ {
                SlotState::Filled(x) => r matches SlotDesc::Filled(y) && cloned(x, y),
                SlotState::Placeholder { .. } => r is Placeholder,
            },
    {
        match self {
            Slot::Filled(x) => SlotDesc::Filled(x.clone()),
            Slot::Placeholder { .. } => SlotDesc::Placeholder,
        }
    }
}

impl<T> Slot<T> {
    /// Consumes the slot and hands back every party that must be woken
    /// because the slot goes away: all its waiters, in registration order,
    /// if it was a placeholder; none if it was filled.
    pub fn into_waiters(self) -> (r: Vec<ThreadOrWaker>)
        ensures
            r@ == waiters_of(self@),
    {
        match self {
            Slot::Filled(_) => Vec::new(),
            Slot::Placeholder { waiting, .. } => waiting,
        }
    }
}

} // verus!
