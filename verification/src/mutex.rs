//! A futex-style, crash-aware mutex embeddable in shared persistent memory.
//!
//! Ordinary process-private mutexes assume a lock dies with its owning
//! process; that is false for memory mapped by arbitrary future processes
//! and reboots.  A [`TwzMutex`] therefore keeps, next to its sleep word, a
//! reset code stamped from the kernel's reset epoch: on the first lock
//! attempt after a restart the stamp no longer matches, the sleep word is
//! forcibly cleared, and the stamp is renewed — a silent self-healing path,
//! never an error.
//!
//! The sleep word takes three states: `0` free, `1` locked with no known
//! waiters, `2` locked with waiters present; unlock issues a wake request
//! only from state `2`.

use vstd::prelude::*;
use crate::kernel::Kernel;

verus! {

/// A process-wide cache of the kernel's reset epoch, fetched once per
/// process; `0` means not yet fetched.  A restart starts a fresh process
/// and so a fresh, empty cache.
pub struct ResetCache {
    pub code: u64,
}

impl ResetCache {
    /// A cache holds either nothing or the current epoch: a live process
    /// never outlasts an epoch change.
    pub open spec fn wf(self, kernel: Kernel) -> bool {
        self.code == 0 || self.code == kernel.reset_epoch
    }

    /// The empty cache of a freshly started process.
    pub fn new() -> (r: ResetCache)
        ensures
            r.code == 0,
    {
        ResetCache { code: 0 }
    }
}

/// A mutex colocated with the data it protects inside a persistent object.
pub struct TwzMutex<T> {
    pub sleep: u64,
    pub resetcode: u64,
    pub data: T,
}

/// Witness that a mutex has been acquired; `unlock` consumes it.
pub struct TwzMutexGuard {
    pub taken: bool,
}

impl<T> TwzMutex<T> {
    /// The sleep word stays in its three states, and the stamped reset code
    /// is never the in-progress sentinel.
    pub open spec fn wf(self) -> bool {
        &&& self.sleep <= 2
        &&& self.resetcode != 0xffff_ffff_ffff_ffffu64
    }

    /// Whether the next lock attempt will bust a stale lock: the stamp
    /// predates the current power cycle.
    pub open spec fn will_bust(self, kernel: Kernel) -> bool {
        self.resetcode != kernel.reset_epoch
    }

    /// Whether a lock attempt can complete without waiting: the mutex is
    /// free, or a stale lock is about to be busted.
    pub open spec fn lock_enabled(self, kernel: Kernel) -> bool {
        self.sleep == 0 || self.will_bust(kernel)
    }

    /// A fresh, unlocked mutex around `t`, not yet stamped with any epoch.
    pub fn new(t: T) -> (r: TwzMutex<T>)
        ensures
            r.wf(),
            r.sleep == 0,
            r.resetcode == 0,
            r.data == t,
    {
        TwzMutex { sleep: 0, resetcode: 0, data: t }
    }

    /// Clears a lock abandoned in a previous power cycle.
    ///
    /// The stamped reset code is compared against the process-cached epoch,
    /// fetched from the kernel on first use; a mismatch means this memory
    /// predates the current boot, so the sleep word is forcibly zeroed and
    /// the stamp renewed.  The reset runs under an all-ones sentinel so
    /// that, among racing openers, only one performs it.
    pub fn maybe_bust_lock(&mut self, kernel: &Kernel, cache: &mut ResetCache)
        requires
            old(self).wf(),
            kernel.wf(),
            old(cache).wf(*kernel),
        ensures
            final(self).wf(),
            final(cache).code == kernel.reset_epoch,
            final(cache).wf(*kernel),
            final(self).data == old(self).data,
            final(self).resetcode == kernel.reset_epoch,
            !old(self).will_bust(*kernel) ==> final(self).sleep == old(self).sleep,
            old(self).will_bust(*kernel) ==> final(self).sleep == 0,
    {
        if cache.code == 0 {
            cache.code = kernel.query_reset_epoch();
        }
        if self.resetcode != cache.code {
            let value = self.resetcode;
            self.resetcode = u64::MAX;
            if value != u64::MAX {
                self.sleep = 0;
                self.resetcode = cache.code;
            } else {
                proof {
                    assert(false);
                }
            }
        }
    }

    /// One acquisition attempt: a bounded spin of compare-and-swaps from
    /// free to locked.  On failure the sleep word is raised to
    /// locked-with-waiters and a kernel sleep on it is requested; the
    /// caller retries after a wake.
    pub fn do_lock(&mut self, kernel: &mut Kernel) -> (r: bool)
        requires
            old(self).wf(),
            old(self).sleep != 0 ==> old(kernel).sleeps < u64::MAX,
        ensures
            final(self).wf(),
            final(self).data == old(self).data,
            final(self).resetcode == old(self).resetcode,
            final(kernel).next_seq == old(kernel).next_seq,
            final(kernel).reset_epoch == old(kernel).reset_epoch,
            final(kernel).invalidations == old(kernel).invalidations,
            final(kernel).wakes == old(kernel).wakes,
            old(self).sleep == 0 ==> r == true && final(self).sleep == 1
                && final(kernel).sleeps == old(kernel).sleeps,
            old(self).sleep != 0 ==> r == false && final(self).sleep == 2
                && final(kernel).sleeps == old(kernel).sleeps + 1,
    {
        let mut spin: u64 = 0;
        while spin < 100
            invariant
                *self == *old(self),
                self.wf(),
                spin <= 100,
                spin > 0 ==> self.sleep != 0,
            decreases 100 - spin,
        {
            if self.sleep == 0 {
                self.sleep = 1;
                return true;
            }
            spin = spin + 1;
        }
        self.sleep = 2;
        kernel.sleep(2, 2);
        false
    }

    /// Acquires the mutex.
    ///
    /// The attempt must be able to complete without waiting: the mutex is
    /// free, or holds a lock stranded in an earlier power cycle, which is
    /// busted first.  Waiting out a live ownership is a cross-process
    /// affair the caller drives by retrying `do_lock` after a wake.
    pub fn lock(&mut self, kernel: &mut Kernel, cache: &mut ResetCache) -> (r: TwzMutexGuard)
        requires
            old(self).wf(),
            kernel.wf(),
            old(cache).wf(*kernel),
            old(self).lock_enabled(*kernel),
        ensures
            final(self).wf(),
            final(self).sleep == 1,
            final(self).resetcode == old(kernel).reset_epoch,
            final(self).data == old(self).data,
            final(cache).code == old(kernel).reset_epoch,
            r.taken,
            *final(kernel) == *old(kernel),
    {
        self.maybe_bust_lock(kernel, cache);
        let ok = self.do_lock(kernel);
        proof {
            assert(ok);
        }
        TwzMutexGuard { taken: true }
    }

    /// Releases the mutex, consuming the guard.  A wake request is issued
    /// only if the state was locked-with-waiters.
    pub fn unlock(&mut self, kernel: &mut Kernel, guard: TwzMutexGuard)
        requires
            old(self).wf(),
            old(self).sleep == 1 || old(self).sleep == 2,
            old(kernel).wakes < u64::MAX,
        ensures
            final(self).wf(),
            final(self).sleep == 0,
            final(self).resetcode == old(self).resetcode,
            final(self).data == old(self).data,
            final(kernel).next_seq == old(kernel).next_seq,
            final(kernel).reset_epoch == old(kernel).reset_epoch,
            final(kernel).invalidations == old(kernel).invalidations,
            final(kernel).sleeps == old(kernel).sleeps,
            old(self).sleep == 2 ==> final(kernel).wakes == old(kernel).wakes + 1,
            old(self).sleep == 1 ==> final(kernel).wakes == old(kernel).wakes,
    {
        let _ = guard;
        if self.sleep == 2 {
            self.sleep = 0;
            kernel.wake(1);
        } else {
            self.sleep = 0;
        }
    }

    /// Reads the protected data; the caller must hold the lock.
    pub fn data(&self) -> (r: &T)
        requires
            self.sleep == 1 || self.sleep == 2,
        ensures
            r == self.data,
    {
        &self.data
    }

    /// Writes access to the protected data; the caller must hold the lock.
    pub fn data_mut(&mut self) -> (r: &mut T)
        requires
            old(self).sleep == 1 || old(self).sleep == 2,
        ensures
            *r == old(self).data,
            final(self).data == *final(r),
            final(self).sleep == old(self).sleep,
            final(self).resetcode == old(self).resetcode,
    {
        &mut self.data
    }
}

/// After a reset-epoch change, a fresh process — its epoch cache empty —
/// may lock the mutex whatever state the abandoned sleep word is in: the
/// stale stamp guarantees the bust path runs, so no unlock by the original
/// locker is ever needed and the attempt cannot deadlock.
pub proof fn lemma_reset_bust_unblocks<T>(m: TwzMutex<T>, kernel: Kernel)
    requires
        kernel.wf(),
        m.resetcode != kernel.reset_epoch,
    ensures
        m.lock_enabled(kernel),
{
}

} // verus!
