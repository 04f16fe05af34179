//! A user-space runtime core for a persistent, object-addressed memory model.
//!
//! Processes access a global space of durable objects identified by 128-bit
//! IDs, each bounded by a maximum size, mapped on demand into a fixed set of
//! virtual-address slots.  The core consists of the per-context slot
//! allocator ([`slots::SlotView`]), the persistent pointer type ([`pptr::Pptr`])
//! with its foreign-object-table resolution, per-object metadata and
//! extensions, a crash-consistent transaction log, and a mutex safe to embed
//! in shared persistent memory ([`mutex::TwzMutex`]).
//!
//! Kernel operations (object creation, mapping invalidation, reset-epoch
//! queries, sleep/wake) are modelled by an explicit in-memory kernel
//! ([`kernel::Kernel`]) injected into every operation, so the core carries no
//! hidden global state and is testable against that model.

use vstd::prelude::*;

pub mod bits;
pub mod context;
pub mod create;
pub mod event;
pub mod io;
pub mod kernel;
pub mod kso;
pub mod meta;
pub mod mutex;
pub mod objid;
pub mod pptr;
pub mod pslice;
pub mod queue;
pub mod refs;
pub mod slots;
pub mod space;
pub mod sys;
pub mod twzobj;
pub mod tx;

verus! {

/// Errors surfaced by object-handle operations.
///
/// `OSError` carries a kernel status code and is retryable at the caller's
/// discretion; `Invalid` marks an object or pointer that fails shape
/// validation; `OutOfSlots` reports exhaustion of the fixed-capacity slot
/// allocator; `NameResolve` reports a failed name lookup; `Unsupported`
/// marks the symbolic-name resolution path, which is a deliberate extension
/// point that no revision resolves.
#[derive(Clone, Copy, PartialEq, Eq, Structural, Debug)]
pub enum TwzErr {
    NameResolve(i32),
    OSError(i32),
    Invalid,
    OutOfSlots,
    Unsupported,
}

/// Errors surfaced by transactional operations that wrap a user error `E`.
#[derive(Clone, Copy, PartialEq, Eq, Debug)]
pub enum TxResultErr<E> {
    UserErr(E),
    OSError(i32),
    OutOfLog,
}

} // verus!
