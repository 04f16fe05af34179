//! Resolved references: the pairing of an object handle with a resolved
//! virtual address, as `lea` hands them out.  The handle keeps the slot
//! reservation that makes the address meaningful; releasing the handle ends
//! the reference's life.

use vstd::prelude::*;
use crate::space::MAX_SIZE;
use crate::twzobj::Twzobj;

verus! {

/// A shared resolved reference.
#[derive(Clone, Copy, PartialEq, Eq, Structural, Debug)]
pub struct Pref {
    pub obj: Twzobj,
    pub addr: u64,
}

impl Pref {
    /// The address lies inside the handle's slot region.
    pub open spec fn wf(self) -> bool {
        self.addr / MAX_SIZE == self.obj.slot
    }

    /// Pairs a handle with an address of its region.
    pub fn new(obj: Twzobj, addr: u64) -> (r: Pref)
        requires
            addr / MAX_SIZE == obj.slot,
        ensures
            r.obj == obj,
            r.addr == addr,
            r.wf(),
    {
        Pref { obj, addr }
    }

    /// The resolved virtual address.
    pub fn address(&self) -> (r: u64)
        ensures
            r == self.addr,
    {
        self.addr
    }

    /// The address's offset inside its object region.
    pub fn local(&self) -> (r: u64)
        ensures
            r == self.addr % MAX_SIZE,
    {
        self.addr % MAX_SIZE
    }
}

/// An exclusive resolved reference.
#[derive(Clone, Copy, PartialEq, Eq, Structural, Debug)]
pub struct PrefMut {
    pub obj: Twzobj,
    pub addr: u64,
}

impl PrefMut {
    /// The address lies inside the handle's slot region.
    pub open spec fn wf(self) -> bool {
        self.addr / MAX_SIZE == self.obj.slot
    }

    /// Pairs a handle with an address of its region.
    pub fn new(obj: Twzobj, addr: u64) -> (r: PrefMut)
        requires
            addr / MAX_SIZE == obj.slot,
        ensures
            r.obj == obj,
            r.addr == addr,
            r.wf(),
    {
        PrefMut { obj, addr }
    }

    /// The resolved virtual address.
    pub fn address(&self) -> (r: u64)
        ensures
            r == self.addr,
    {
        self.addr
    }

    /// The address's offset inside its object region.
    pub fn local(&self) -> (r: u64)
        ensures
            r == self.addr % MAX_SIZE,
    {
        self.addr % MAX_SIZE
    }
}

} // verus!
