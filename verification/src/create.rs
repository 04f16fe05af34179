//! Object-creation parameters: lifetime, backing type, creation flags,
//! content sources, ties, and the kernel-use specification.

use vstd::prelude::*;
use crate::objid::ObjID;

verus! {

/// Creation flags.
pub const CREATE_HASH_DATA: u64 = 0x1;
pub const CREATE_DFL_READ: u64 = 0x4;
pub const CREATE_DFL_WRITE: u64 = 0x8;
pub const CREATE_DFL_EXEC: u64 = 0x10;
pub const CREATE_DFL_USE: u64 = 0x20;
pub const CREATE_DFL_DEL: u64 = 0x40;
pub const CREATE_ZERO_NONCE: u64 = 0x1000;

/// How the new object is backed.
#[derive(Clone, Copy, PartialEq, Eq, Structural, Debug)]
pub enum BackingType {
    Normal,
}

/// Whether the new object outlives a restart.
#[derive(Clone, Copy, PartialEq, Eq, Structural, Debug)]
pub enum LifetimeType {
    Volatile,
    Persistent,
}

/// The kernel-use object of the new object: none, or a given object.
#[derive(Clone, Copy, PartialEq, Eq, Structural, Debug)]
pub enum KuSpec {
    Unset,
    Obj(ObjID),
}

/// What the new object's reclamation is tied to: the calling context's
/// view, or a given object.
#[derive(Clone, Copy, PartialEq, Eq, Structural, Debug)]
pub enum TieSpec {
    CurrentView,
    Obj(ObjID),
}

/// A source object seeding part of the new object's content.
#[derive(Clone, Copy, PartialEq, Eq, Structural, Debug)]
pub struct SrcSpec {
    pub srcid: ObjID,
    pub start: u64,
    pub length: u64,
}

/// The full parameter set handed to object creation.
pub struct CreateSpec {
    pub srcs: Vec<SrcSpec>,
    pub ku: KuSpec,
    pub lt: LifetimeType,
    pub bt: BackingType,
    pub ties: Vec<TieSpec>,
    pub flags: u64,
}

impl CreateSpec {
    /// A specification with the given lifetime, backing, and flags, and no
    /// sources, ties, or kernel-use object yet.
    pub fn new(lt: LifetimeType, bt: BackingType, flags: u64) -> (r: CreateSpec)
        ensures
            r.srcs@ =~= Seq::<SrcSpec>::empty(),
            r.ku == KuSpec::Unset,
            r.lt == lt,
            r.bt == bt,
            r.ties@ =~= Seq::<TieSpec>::empty(),
            r.flags == flags,
    {
        CreateSpec {
            srcs: Vec::new(),
            ku: KuSpec::Unset,
            lt,
            bt,
            ties: Vec::new(),
            flags,
        }
    }

    /// Adds a content source.
    pub fn src(self, src: SrcSpec) -> (r: CreateSpec)
        ensures
            r.srcs@ == self.srcs@.push(src),
            r.ku == self.ku,
            r.lt == self.lt,
            r.bt == self.bt,
            r.ties == self.ties,
            r.flags == self.flags,
    {
        let mut s = self;
        s.srcs.push(src);
        s
    }

    /// Adds a tie.
    pub fn tie(self, tie: TieSpec) -> (r: CreateSpec)
        ensures
            r.ties@ == self.ties@.push(tie),
            r.ku == self.ku,
            r.lt == self.lt,
            r.bt == self.bt,
            r.srcs == self.srcs,
            r.flags == self.flags,
    {
        let mut s = self;
        s.ties.push(tie);
        s
    }

    /// Sets the kernel-use object.
    pub fn ku(self, kuspec: KuSpec) -> (r: CreateSpec)
        ensures
            r.ku == kuspec,
            r.srcs == self.srcs,
            r.lt == self.lt,
            r.bt == self.bt,
            r.ties == self.ties,
            r.flags == self.flags,
    {
        let mut s = self;
        s.ku = kuspec;
        s
    }

    /// The creating-context ID the new object's metadata records.
    pub fn kuid(&self) -> (r: ObjID)
        ensures
            r == (match self.ku {
                KuSpec::Unset => 0,
                KuSpec::Obj(k) => k,
            }),
    {
        match self.ku {
            KuSpec::Unset => 0,
            KuSpec::Obj(k) => k,
        }
    }
}

} // verus!
