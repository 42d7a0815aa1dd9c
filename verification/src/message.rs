//! Messages between the audio side and the interface side, and the bounded
//! non-blocking queue that carries them.
//!
//! The audio thread must never block, so the queue refuses a push when it
//! is full (the caller drops the message and counts it) and hands out
//! nothing when it is empty. The two concrete message types mirror the two
//! directions of traffic.

use vstd::prelude::*;

verus! {

use crate::fixed::Fixed;
use crate::model::SlotValue;

/// Told to the interface by the audio side.
pub enum PlugToUIMsg {
    /// A parameter changed under the host's control.
    ParamChanged { param_idx: usize, normalized: Fixed },
    /// A whole new program was loaded: the full model snapshot.
    ProgramChanged(Vec<SlotValue>),
    /// The window should close.
    ShouldClose,
}

/// Told to the audio side by the interface.
pub enum UIToPlugMsg {
    /// A parameter was moved; applied at frame 0 of the next call.
    ParamChanged { param_idx: usize, normalized: Fixed },
    /// A non-parameter model value was edited directly.
    ValueChanged { slot_idx: usize, value: SlotValue },
    /// The interface was closed by the user.
    Closed,
}

/// Mathematical image of a [`MsgQueue`]: its content and its bound.
pub struct MsgQueueView<T> {
    pub items: Seq<T>,
    pub cap: nat,
}

/// A bounded first-in-first-out queue with non-blocking push and pop:
/// pushing into a full queue fails and returns the message, popping from
/// an empty queue returns nothing, and neither ever waits.
pub struct MsgQueue<T> {
    items: Vec<T>,
    cap: usize,
}

impl<T> View for MsgQueue<T> {
    type V = MsgQueueView<T>;

    closed spec fn view(&self) -> MsgQueueView<T> {
        MsgQueueView { items: self.items@, cap: self.cap as nat }
    }
}

impl<T> MsgQueue<T> {
    /// An empty queue holding at most `cap` messages.
    pub fn with_capacity(cap: usize) -> (r: MsgQueue<T>)
        ensures
            r@.items.len() == 0,
            r@.cap == cap,
    {
        MsgQueue { items: Vec::new(), cap }
    }

    /// How many messages are waiting.
    pub fn len(&self) -> (r: usize)
        ensures
            r == self@.items.len(),
    {
        self.items.len()
    }

    /// Appends `t` if there is room; hands it back unchanged if not, so
    /// the caller can drop it without blocking.
    pub fn push(&mut self, t: T) -> (r: Result<(), T>)
        ensures
            old(self)@.items.len() < old(self)@.cap ==> {
                &&& r is Ok
                &&& final(self)@.items == old(self)@.items.push(t)
            },
            old(self)@.items.len() >= old(self)@.cap ==> {
                &&& r == Result::<(), T>::Err(t)
                &&& final(self)@ == old(self)@
            },
            final(self)@.cap == old(self)@.cap,
    {
        if self.items.len() < self.cap {
            self.items.push(t);
            Ok(())
        } else {
            Err(t)
        }
    }

    /// Removes and returns the oldest message, if any.
    pub fn pop(&mut self) -> (r: Option<T>)
        ensures
            old(self)@.items.len() == 0 ==> r is None && final(self)@ == old(self)@,
            old(self)@.items.len() > 0 ==> {
                &&& r is Some
                &&& r.unwrap() == old(self)@.items[0]
                &&& final(self)@.items == old(self)@.items.drop_first()
            },
            final(self)@.cap == old(self)@.cap,
    {
        if self.items.len() == 0 {
            None
        } else {
            let t = self.items.remove(0);
            proof {
                assert(self.items@ =~= old(self).items@.drop_first());
            }
            Some(t)
        }
    }
}

} // verus!
