//! Queue entries: the fixed-format records of the submission and
//! completion rings collaborators exchange.  The rings themselves are
//! external collaborators of the core.

use vstd::prelude::*;

verus! {

/// Which ring an operation concerns.
#[derive(Clone, Copy, PartialEq, Eq, Structural, Debug)]
pub enum Direction {
    Submission,
    Completion,
}

/// Errors a queue operation reports.
#[derive(Clone, Copy, PartialEq, Eq, Structural, Debug)]
pub enum QueueError {
    Unknown,
    WouldBlock,
}

/// One ring record: an info word for matching completions to submissions,
/// and the carried item.
#[derive(Clone, Copy, PartialEq, Eq, Structural, Debug)]
pub struct QueueEntry<T> {
    pub info: u32,
    pub item: T,
}

impl<T: Copy> QueueEntry<T> {
    /// A record carrying `item` under the matching word `info`.
    pub fn new(item: T, info: u32) -> (r: QueueEntry<T>)
        ensures
            r.info == info,
            r.item == item,
    {
        QueueEntry { info, item }
    }

    /// The matching word.
    pub fn info(&self) -> (r: u32)
        ensures
            r == self.info,
    {
        self.info
    }

    /// The carried item.
    pub fn item(&self) -> (r: &T)
        ensures
            *r == self.item,
    {
        &self.item
    }

    /// Exclusive access to the carried item.
    pub fn item_mut(&mut self) -> (r: &mut T)
        ensures
            *r == old(self).item,
            final(self).item == *final(r),
            final(self).info == old(self).info,
    {
        &mut self.item
    }

    /// Takes the carried item out of the record.
    pub fn consume(self) -> (r: T)
        ensures
            r == self.item,
    {
        self.item
    }
}

} // verus!
