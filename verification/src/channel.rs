//! The bounded update-event queue between the control channel and the
//! orchestrator. A full queue refuses the event and hands it back to the
//! producer, which then suspends and retries: no event is ever dropped, and
//! events leave in arrival order.

use vstd::prelude::*;
use crate::control::UpdateEvent;

verus! {

/// A bounded FIFO of update events.
pub struct EventQueue {
    pub items: Vec<UpdateEvent>,
    pub capacity: usize,
}

impl EventQueue {
    /// The queue never holds more than its capacity.
    pub open spec fn wf(&self) -> bool {
        self.items@.len() <= self.capacity
    }

    pub fn new(capacity: usize) -> (r: EventQueue)
        ensures
            r.wf(),
            r.items@.len() == 0,
            r.capacity == capacity,
    {
        EventQueue { items: Vec::new(), capacity }
    }

    /// Enqueues an event, or hands it back when the queue is full. The event
    /// is appended or returned, never lost; what was queued before stays
    /// queued, in order.
    pub fn offer(&mut self, e: UpdateEvent) -> (r: Option<UpdateEvent>)
        requires
            old(self).wf(),
        ensures
            final(self).wf(),
            final(self).capacity == old(self).capacity,
            old(self).items@.len() < old(self).capacity ==> final(self).items@ == old(self).items@.push(e) && r is None,
            old(self).items@.len() >= old(self).capacity ==> final(self).items@ == old(self).items@
                && r == Some(e),
    {
        if self.items.len() < self.capacity {
            self.items.push(e);
            None
        } else {
            Some(e)
        }
    }

    /// Dequeues the oldest event, if any.
    pub fn take(&mut self) -> (r: Option<UpdateEvent>)
        requires
            old(self).wf(),
        ensures
            final(self).wf(),
            final(self).capacity == old(self).capacity,
            old(self).items@.len() == 0 ==> r is None && final(self).items@ == old(self).items@,
            old(self).items@.len() > 0 ==> (r matches Some(e) && e == old(self).items@[0] && final(self).items@ == old(self).items@.skip(1)),
    {
        if self.items.len() == 0 {
            None
        } else {
            let e = self.items.remove(0);
            Some(e)
        }
    }

    pub fn len(&self) -> (r: usize)
        ensures
            r == self.items@.len(),
    {
        self.items.len()
    }
}

} // verus!
