//! Event points: a word of event bits living in shared object memory, with
//! wake-minimising signalling — a wake request is issued only when the
//! signalled bits were not all already set.

use vstd::prelude::*;
use crate::kernel::Kernel;

verus! {

/// A shared event word.
#[derive(Clone, Copy, PartialEq, Eq, Structural, Debug)]
pub struct EventHdr {
    pub point: u64,
}

impl EventHdr {
    /// A fresh event word with no bits set.
    pub fn new() -> (r: EventHdr)
        ensures
            r.point == 0,
    {
        EventHdr { point: 0 }
    }

    /// Signals `events`: sets their bits and requests a wake only if some
    /// signalled bit was not already set.
    pub fn wake(&mut self, kernel: &mut Kernel, events: u64)
        requires
            old(kernel).wakes < u64::MAX,
        ensures
            final(self).point == old(self).point | events,
            old(self).point & events != events
                ==> final(kernel).wakes == old(kernel).wakes + 1,
            old(self).point & events == events
                ==> final(kernel).wakes == old(kernel).wakes,
            final(kernel).next_seq == old(kernel).next_seq,
            final(kernel).reset_epoch == old(kernel).reset_epoch,
            final(kernel).invalidations == old(kernel).invalidations,
            final(kernel).sleeps == old(kernel).sleeps,
    {
        let prev = self.point;
        self.point = self.point | events;
        if prev & events != events {
            kernel.wake(u64::MAX);
        }
    }

    /// Clears `events`, returning which of them were set.
    pub fn clear(&mut self, events: u64) -> (r: u64)
        ensures
            r == old(self).point & events,
            final(self).point == old(self).point & !events,
    {
        let prev = self.point;
        self.point = self.point & !events;
        prev & events
    }
}

/// A consumer's interest in some bits of an event word.
#[derive(Clone, Copy, PartialEq, Eq, Structural, Debug)]
pub struct Event {
    pub events: u64,
}

impl Event {
    /// Interest in the given bits.
    pub fn new(events: u64) -> (r: Event)
        ensures
            r.events == events,
    {
        Event { events }
    }

    /// The bits of interest currently signalled.
    pub fn ready(&self, hdr: &EventHdr) -> (r: u64)
        ensures
            r == hdr.point & self.events,
    {
        hdr.point & self.events
    }

    /// Clears the bits of interest, returning which were set.
    pub fn clear(&self, hdr: &mut EventHdr) -> (r: u64)
        ensures
            r == old(hdr).point & self.events,
            final(hdr).point == old(hdr).point & !self.events,
    {
        hdr.clear(self.events)
    }

    /// The bits of interest.
    pub fn events(&self) -> (r: u64)
        ensures
            r == self.events,
    {
        self.events
    }
}

} // verus!
