//! The persistent pointer: a 64-bit value `fot_index * MAX_SIZE + offset`.
//!
//! A foreign-table index of `0` means the offset is interpreted directly
//! against whatever object physically contains the pointer at dereference
//! time.  A persistent pointer has no meaning independent of its containing
//! object instance: it is not a process-wide address.

use vstd::prelude::*;
use crate::space::MAX_SIZE;
use crate::context::Context;
use crate::refs::Pref;
use crate::twzobj::Twzobj;

verus! {

/// A persistent pointer value.
#[derive(Clone, Copy, PartialEq, Eq, Structural, Debug)]
pub struct Pptr {
    pub p: u64,
}

impl Pptr {
    /// The encoding of a foreign-table index and an in-object offset.
    pub open spec fn spec_encode(fote: u64, offset: u64) -> int {
        fote * MAX_SIZE + offset
    }

    /// A pointer from its raw encoded value.
    pub fn new(p: u64) -> (r: Pptr)
        ensures
            r.p == p,
    {
        Pptr { p }
    }

    /// The null pointer: local, offset zero.
    pub fn new_null() -> (r: Pptr)
        ensures
            r.p == 0,
    {
        Pptr { p: 0 }
    }

    /// Whether the pointer stays inside its containing object: its
    /// foreign-table index is zero.
    pub fn is_internal(&self) -> (r: bool)
        ensures
            r == (self.p < MAX_SIZE),
    {
        self.p < MAX_SIZE
    }

    /// The foreign-table index of the pointer.
    pub fn fot_entry(&self) -> (r: u64)
        ensures
            r == self.p / MAX_SIZE,
    {
        self.p / MAX_SIZE
    }

    /// The in-object byte offset of the pointer.
    pub fn offset(&self) -> (r: u64)
        ensures
            r == self.p % MAX_SIZE,
    {
        self.p % MAX_SIZE
    }
}


impl Pptr {
    /// Encodes this pointer in place, as stored inside `owner`: locally
    /// when the target shares the owner's region, else through a fresh
    /// live foreign-table entry of the owner.
    pub fn set(
        &mut self,
        ctx: &mut Context,
        owner: &Twzobj,
        target: &Pref,
        flags: u64,
    ) -> (r: Result<(), crate::TwzErr>)
        requires
            old(ctx).wf(),
            owner.wf(),
            target.wf(),
            target.obj.slot != owner.slot ==> target.obj.id != 0,
        ensures
            final(ctx).wf(),
            final(ctx).view == old(ctx).view,
            final(ctx).cache == old(ctx).cache,
            final(ctx).kernel == old(ctx).kernel,
            forall|i: crate::objid::ObjID| #[trigger] final(ctx).space.has_obj(i)
                == old(ctx).space.has_obj(i),
            forall|i: crate::objid::ObjID| old(ctx).space.has_obj(i) && i != owner.id
                ==> #[trigger] final(ctx).space.obj_of(i) == old(ctx).space.obj_of(i),
            target.obj.slot == owner.slot ==> {
                &&& (r is Ok)
                &&& final(self).p == target.addr % MAX_SIZE
                &&& final(self).p < MAX_SIZE
                &&& final(ctx).space == old(ctx).space
            },
            target.obj.slot != owner.slot ==> match r {
                Ok(_) => {
                    &&& final(self).p >= MAX_SIZE
                    &&& final(self).p % MAX_SIZE == target.addr % MAX_SIZE
                    &&& old(ctx).space.has_obj(owner.id)
                    &&& ({
                        let idx = final(self).p / MAX_SIZE;
                        let ob = final(ctx).space.obj_of(owner.id);
                        &&& 1 <= idx < ob.fot@.len()
                        &&& ob.fot@[idx as int] == (crate::meta::FOTEntry {
                            target: crate::meta::FotTarget::Direct(target.obj.id),
                            flags: flags | crate::meta::FOT_VALID,
                            info: 0,
                        })
                    })
                },
                Err(e) => {
                    &&& (e == crate::TwzErr::Invalid || e == crate::TwzErr::OutOfSlots)
                    &&& *final(self) == *old(self)
                },
            },
    {
        match owner.make_ptr(ctx, target, flags) {
            Ok(p) => {
                self.p = p.p;
                Ok(())
            },
            Err(e) => Err(e),
        }
    }
}


/// A stored persistent pointer survives its round trip through object
/// memory: reloading the very word that was stored reconstructs the
/// identical pointer, so resolving after the round trip is resolving the
/// same pointer against the same state.
pub proof fn lemma_pptr_word_roundtrip(p: Pptr, w: u64)
    requires
        w == p.p,
    ensures
        (Pptr { p: w }) == p,
{
}

/// A pointer set with a target inside the same region as its own storage
/// is stored with foreign-table index zero, and resolving it against the
/// containing object yields the identical address back.
pub proof fn lemma_local_pptr_resolves(owner: Twzobj, target_addr: u64)
    requires
        owner.wf(),
        target_addr / MAX_SIZE == owner.slot,
    ensures
        (target_addr % MAX_SIZE) / MAX_SIZE == 0,
        crate::twzobj::region_addr(owner.slot, (target_addr % MAX_SIZE) as u64)
            == target_addr,
{
    assert(target_addr % MAX_SIZE < MAX_SIZE
        && (target_addr % MAX_SIZE) / MAX_SIZE == 0
        && (target_addr / MAX_SIZE) * MAX_SIZE + target_addr % MAX_SIZE == target_addr)
        by (nonlinear_arith)
        requires
            MAX_SIZE == 0x4000_0000u64,
    ;
}

} // verus!
