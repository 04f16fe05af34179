//! The injected kernel-operations interface, realised as an explicit
//! in-memory model.
//!
//! The runtime core never performs raw system calls; every kernel service it
//! consumes — allocating a fresh object identifier, invalidating a stale
//! mapping, reading the reset epoch, futex-style sleep and wake — goes
//! through a [`Kernel`] value passed into each operation.  The model records
//! each request exactly, so contracts can state, for example, that a slot
//! reservation of an already-mapped object issues no invalidation.

use vstd::prelude::*;
use crate::objid::ObjID;

verus! {

/// One recorded mapping-invalidation request: a byte range of the current
/// context's address space whose cached translation must be dropped.
#[derive(Clone, Copy, PartialEq, Eq, Structural, Debug)]
pub struct InvalidateReq {
    pub offset: u64,
    pub length: u32,
}

/// The in-memory kernel model.
///
/// `next_seq` drives object-identifier allocation: the `n`-th created object
/// gets ID `n + 1`, so IDs are nonzero and unique.  `reset_epoch` stands for
/// the monotonically-changing reset code a real kernel reports once per
/// power cycle; advancing it simulates a machine restart.  The remaining
/// fields record the requests made of the kernel.
pub struct Kernel {
    pub next_seq: u64,
    pub reset_epoch: u64,
    pub invalidations: Vec<InvalidateReq>,
    pub sleeps: u64,
    pub wakes: u64,
}

impl Kernel {
    /// The reset epoch never takes the values `0` (meaning "not yet
    /// fetched" in a per-context cache) or all-ones (the in-progress
    /// sentinel of the mutex reset protocol).
    pub open spec fn wf(self) -> bool {
        0 < self.reset_epoch < 0xffff_ffff_ffff_ffffu64
    }

    /// A fresh kernel at the first epoch with no objects created.
    pub fn new() -> (r: Kernel)
        ensures
            r.wf(),
            r.next_seq == 0,
            r.reset_epoch == 1,
            r.invalidations@ =~= Seq::<InvalidateReq>::empty(),
            r.sleeps == 0,
            r.wakes == 0,
    {
        Kernel {
            next_seq: 0,
            reset_epoch: 1,
            invalidations: Vec::new(),
            sleeps: 0,
            wakes: 0,
        }
    }

    /// The identifier the next successful creation will return.
    pub open spec fn fresh_id(self) -> ObjID {
        (self.next_seq + 1) as u128
    }

    /// Allocates a fresh object identifier.
    ///
    /// Returns the new ID and a status word; a nonzero status reports
    /// failure, which this model signals only when the identifier space is
    /// exhausted.
    pub fn create_object(&mut self) -> (r: (ObjID, i32))
        ensures
            final(self).reset_epoch == old(self).reset_epoch,
            final(self).invalidations == old(self).invalidations,
            final(self).sleeps == old(self).sleeps,
            final(self).wakes == old(self).wakes,
            old(self).next_seq < u64::MAX ==> {
                &&& r.0 == old(self).fresh_id()
                &&& r.0 != 0
                &&& r.1 == 0
                &&& final(self).next_seq == old(self).next_seq + 1
            },
            old(self).next_seq == u64::MAX ==> {
                &&& r.1 == -1i32
                &&& final(self).next_seq == old(self).next_seq
            },
    {
        if self.next_seq == u64::MAX {
            (0, -1)
        } else {
            self.next_seq = self.next_seq + 1;
            (self.next_seq as u128, 0)
        }
    }

    /// Reports the reset code of the current power cycle.
    pub fn query_reset_epoch(&self) -> (r: u64)
        ensures
            r == self.reset_epoch,
    {
        self.reset_epoch
    }

    /// Simulates a machine restart: the reset code changes to a value never
    /// reported before.
    pub fn advance_reset_epoch(&mut self)
        requires
            old(self).wf(),
            old(self).reset_epoch < 0xffff_ffff_ffff_fffeu64,
        ensures
            final(self).wf(),
            final(self).reset_epoch == old(self).reset_epoch + 1,
            final(self).next_seq == old(self).next_seq,
            final(self).invalidations == old(self).invalidations,
            final(self).sleeps == old(self).sleeps,
            final(self).wakes == old(self).wakes,
    {
        self.reset_epoch = self.reset_epoch + 1;
    }

    /// Requests invalidation of a byte range of the current context.
    pub fn invalidate(&mut self, offset: u64, length: u32)
        ensures
            final(self).invalidations@ == old(self).invalidations@.push(
                InvalidateReq { offset, length }),
            final(self).next_seq == old(self).next_seq,
            final(self).reset_epoch == old(self).reset_epoch,
            final(self).sleeps == old(self).sleeps,
            final(self).wakes == old(self).wakes,
    {
        self.invalidations.push(InvalidateReq { offset, length });
    }

    /// A futex-style sleep request on a word whose current value is
    /// `value`, blocking while it still equals `expected`.
    ///
    /// The sequential model never actually blocks: the request is recorded
    /// and control returns, as it would on a wake or an expired timeout.
    pub fn sleep(&mut self, value: u64, expected: u64) -> (r: i64)
        requires
            old(self).sleeps < u64::MAX,
        ensures
            final(self).sleeps == old(self).sleeps + (if value == expected { 1int } else { 0 }),
            final(self).next_seq == old(self).next_seq,
            final(self).reset_epoch == old(self).reset_epoch,
            final(self).invalidations == old(self).invalidations,
            final(self).wakes == old(self).wakes,
            r == 0,
    {
        if value == expected {
            self.sleeps = self.sleeps + 1;
        }
        0
    }

    /// A futex-style wake request.
    pub fn wake(&mut self, _count: u64) -> (r: i64)
        requires
            old(self).wakes < u64::MAX,
        ensures
            final(self).wakes == old(self).wakes + 1,
            final(self).next_seq == old(self).next_seq,
            final(self).reset_epoch == old(self).reset_epoch,
            final(self).invalidations == old(self).invalidations,
            final(self).sleeps == old(self).sleeps,
            r == 0,
    {
        self.wakes = self.wakes + 1;
        0
    }
}

} // verus!
