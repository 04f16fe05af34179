//! Argument blocks of the kernel-operations interface: sleep/wake
//! descriptors, mapping invalidations, kernel actions, and timeouts, as
//! plain values the in-memory kernel model consumes.

use vstd::prelude::*;
use crate::objid::ObjID;

verus! {

/// Sleep on a word while it holds an expected value.
pub const THREAD_SYNC_SLEEP: u32 = 0;
/// Wake up to a count of sleepers of a word.
pub const THREAD_SYNC_WAKE: u32 = 1;

/// One thread-synchronisation request: the word it concerns — as the
/// address the kernel would inspect — its argument, and the operation.
#[derive(Clone, Copy, PartialEq, Eq, Structural, Debug)]
pub struct ThreadSyncArgs {
    pub addr: u64,
    pub arg: u64,
    pub res: u64,
    pub op: u32,
    pub flags: u32,
}

impl ThreadSyncArgs {
    /// A sleep request on `addr` while it still holds `val`.
    pub fn new_sleep(addr: u64, val: u64) -> (r: ThreadSyncArgs)
        ensures
            r == (ThreadSyncArgs {
                addr, arg: val, res: 0, op: THREAD_SYNC_SLEEP, flags: 0 }),
    {
        ThreadSyncArgs { addr, arg: val, res: 0, op: THREAD_SYNC_SLEEP, flags: 0 }
    }

    /// A wake request of up to `count` sleepers of `addr`.
    pub fn new_wake(addr: u64, count: u64) -> (r: ThreadSyncArgs)
        ensures
            r == (ThreadSyncArgs {
                addr, arg: count, res: 0, op: THREAD_SYNC_WAKE, flags: 0 }),
    {
        ThreadSyncArgs { addr, arg: count, res: 0, op: THREAD_SYNC_WAKE, flags: 0 }
    }
}

/// A kernel timeout.
#[derive(Clone, Copy, PartialEq, Eq, Structural, Debug)]
pub struct KernelTimeSpec {
    pub sec: u64,
    pub nsec: u64,
}

impl KernelTimeSpec {
    /// A timeout of whole seconds and nanoseconds.
    pub fn new(sec: u64, nsec: u64) -> (r: KernelTimeSpec)
        ensures
            r == (KernelTimeSpec { sec, nsec }),
    {
        KernelTimeSpec { sec, nsec }
    }
}

/// The invalidation descriptor names a live request.
pub const KSOI_VALID: u16 = 1;
/// The invalidation concerns the current context.
pub const KSOI_CURRENT: u16 = 2;

/// A mapping-invalidation descriptor over a byte range of a context.
#[derive(Clone, Copy, PartialEq, Eq, Structural, Debug)]
pub struct InvalidateOp {
    pub id: ObjID,
    pub offset: u64,
    pub length: u32,
    pub flags: u16,
    pub result: u16,
}

impl InvalidateOp {
    /// An invalidation of a range of the current context's view.
    pub fn new_current(offset: u64, length: u32) -> (r: InvalidateOp)
        ensures
            r == (InvalidateOp {
                id: 0, offset, length, flags: KSOI_VALID | KSOI_CURRENT, result: 0 }),
    {
        InvalidateOp { id: 0, offset, length, flags: KSOI_VALID | KSOI_CURRENT, result: 0 }
    }
}

/// The kernel-action descriptor names a live request.
pub const KACTION_VALID: i64 = 1;

/// One kernel action request against an object.
#[derive(Clone, Copy, PartialEq, Eq, Structural, Debug)]
pub struct KactionOp {
    pub id: ObjID,
    pub result: i64,
    pub cmd: i64,
    pub arg: i64,
    pub flags: i64,
}

impl KactionOp {
    /// A live action request of command `cmd` with argument `arg`.
    pub fn new(id: ObjID, cmd: i64, arg: i64) -> (r: KactionOp)
        ensures
            r == (KactionOp { id, result: 0, cmd, arg, flags: KACTION_VALID }),
    {
        KactionOp { id, result: 0, cmd, arg, flags: KACTION_VALID }
    }

    /// The kernel's result word for this request.
    pub fn result(&self) -> (r: i64)
        ensures
            r == self.result,
    {
        self.result
    }
}

} // verus!
