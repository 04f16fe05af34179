//! Per-object metadata: the fixed bookkeeping block, the tagged-extension
//! list, and the foreign object table (FOT).
//!
//! The FOT describes the other objects referenced by pointers stored in
//! this object.  Index `0` is reserved to mean "local, no indirection".  An
//! entry names its target either directly by ID or symbolically by name;
//! the symbolic form is defined in the layout but deliberately left
//! unresolved — an extension point, not a defect.

use vstd::prelude::*;
use crate::objid::ObjID;

verus! {

/// The magic word every well-formed metadata block carries.
pub const MI_MAGIC: u32 = 0x54575A4F;

/// Metadata flag: the object declares an exact size.
pub const MIF_SIZED: u16 = 0x1;

/// Foreign-object-table entry flags.
pub const FOT_READ: u64 = 0x4;
pub const FOT_WRITE: u64 = 0x8;
pub const FOT_EXEC: u64 = 0x10;
pub const FOT_USE: u64 = 0x20;
pub const FOT_NAME: u64 = 0x1000;
pub const FOT_VALID: u64 = 0x20000;

/// The fixed bookkeeping block near the top of every object: magic,
/// flags, protection flags, count of foreign-table slots in use, block
/// length, nonce, creating-context ID, and declared size.
#[derive(Clone, Copy, PartialEq, Eq, Structural, Debug)]
pub struct MetaInfo {
    pub magic: u32,
    pub flags: u16,
    pub p_flags: u16,
    pub fot_entries: u32,
    pub milen: u32,
    pub nonce: u128,
    pub kuid: ObjID,
    pub sz: u64,
}

impl MetaInfo {
    pub open spec fn wf(self) -> bool {
        self.magic == MI_MAGIC
    }

    /// The fresh metadata block stamped at object creation.
    pub open spec fn spec_new(p_flags: u16, nonce: u128, kuid: ObjID, sz: u64) -> MetaInfo {
        MetaInfo {
            magic: MI_MAGIC,
            flags: 0,
            p_flags,
            fot_entries: 0,
            milen: 0,
            nonce,
            kuid,
            sz,
        }
    }

    /// A fresh metadata block stamped at object creation.
    #[verifier::when_used_as_spec(spec_new)]
    pub fn new(p_flags: u16, nonce: u128, kuid: ObjID, sz: u64) -> (r: MetaInfo)
        ensures
            r.wf(),
            r == (MetaInfo {
                magic: MI_MAGIC,
                flags: 0,
                p_flags,
                fot_entries: 0,
                milen: 0,
                nonce,
                kuid,
                sz,
            }),
    {
        MetaInfo {
            magic: MI_MAGIC,
            flags: 0,
            p_flags,
            fot_entries: 0,
            milen: 0,
            nonce,
            kuid,
            sz,
        }
    }
}

/// One tagged extension: a 64-bit tag naming an ad hoc subsystem, and the
/// byte offset of its block inside the object.  The scan list is
/// terminated by a zero tag, so no live extension carries tag `0`.
#[derive(Clone, Copy, PartialEq, Eq, Structural, Debug)]
pub struct MetaExt {
    pub tag: u64,
    pub off: u64,
}

/// What a foreign-object-table entry points at: a direct object ID, or a
/// symbolic name whose resolution is an unresolved extension point.
#[derive(Clone, PartialEq, Eq, Debug)]
pub enum FotTarget {
    Direct(ObjID),
    Named(String),
}

/// One slot of an object's foreign object table.
#[derive(Clone, PartialEq, Eq, Debug)]
pub struct FOTEntry {
    pub target: FotTarget,
    pub flags: u64,
    pub info: u64,
}

impl FOTEntry {
    /// Whether the entry holds a live reference.
    pub open spec fn spec_is_valid(self) -> bool {
        self.flags & FOT_VALID != 0
    }

    /// Whether the entry holds a live reference.
    pub fn is_valid(&self) -> (r: bool)
        ensures
            r == self.spec_is_valid(),
    {
        self.flags & FOT_VALID != 0
    }

    /// The reserved, never-valid entry occupying index `0`.
    pub open spec fn spec_reserved() -> FOTEntry {
        FOTEntry { target: FotTarget::Direct(0), flags: 0, info: 0 }
    }

    /// The reserved, never-valid entry occupying index `0`.
    #[verifier::when_used_as_spec(spec_reserved)]
    pub fn reserved() -> (r: FOTEntry)
        ensures
            r == (FOTEntry { target: FotTarget::Direct(0), flags: 0, info: 0 }),
            !r.spec_is_valid(),
    {
        let r = FOTEntry { target: FotTarget::Direct(0), flags: 0, info: 0 };
        proof {
            assert(0u64 & FOT_VALID == 0) by (bit_vector);
        }
        r
    }
}

/// The first extension offset registered under `tag`, scanning the list in
/// order.
pub open spec fn first_ext(s: Seq<MetaExt>, tag: u64) -> Option<u64>
    decreases s.len(),
{
    if s.len() == 0 {
        None
    } else if s[0].tag == tag {
        Some(s[0].off)
    } else {
        first_ext(s.drop_first(), tag)
    }
}

/// Appending an extension with a different tag leaves every other tag's
/// first match unchanged, and gives a fresh tag its first match.
pub proof fn lemma_first_ext_push(s: Seq<MetaExt>, e: MetaExt, tag: u64)
    ensures
        first_ext(s, tag) is Some ==> first_ext(s.push(e), tag) == first_ext(s, tag),
        first_ext(s, tag) is None && e.tag == tag ==> first_ext(s.push(e), tag) == Some(e.off),
        first_ext(s, tag) is None && e.tag != tag ==> first_ext(s.push(e), tag) is None,
    decreases s.len(),
{
    if s.len() == 0 {
        assert(s.push(e)[0] == e);
        assert(s.push(e).drop_first() =~= Seq::<MetaExt>::empty());
        assert(first_ext(Seq::<MetaExt>::empty(), tag) is None);
        if e.tag != tag {
            assert(first_ext(s.push(e), tag)
                == first_ext(s.push(e).drop_first(), tag));
        }
    } else {
        assert(s.push(e)[0] == s[0]);
        assert(s.push(e).drop_first() =~= s.drop_first().push(e));
        lemma_first_ext_push(s.drop_first(), e, tag);
        if s[0].tag == tag {
            assert(first_ext(s.push(e), tag) == Some(s[0].off));
        } else {
            assert(first_ext(s.push(e), tag) == first_ext(s.drop_first().push(e), tag));
            assert(first_ext(s, tag) == first_ext(s.drop_first(), tag));
        }
    }
}

} // verus!
