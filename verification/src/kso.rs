//! Kernel state objects: the headers and attachment records through which
//! collaborators — device trees, threads, security contexts — are
//! enumerated.  Only the data shapes live here; bus scanning and dispatch
//! are external collaborators of the core.

use vstd::prelude::*;
use crate::objid::ObjID;

verus! {

/// The identifier of the kernel state object root.
pub const KSO_ROOT_ID: ObjID = 1;

/// Greatest length of a kernel state object's name.
pub const KSO_NAME_MAXLEN: usize = 1024;

/// The kinds of kernel state objects.
#[derive(Clone, Copy, PartialEq, Eq, Structural, Debug)]
pub enum KSOType {
    Unattached,
    ContextView,
    SecCtx,
    Thread,
    Root,
    Bus,
    Device,
}

/// One attachment record: a child object, its info word, type and flags.
#[derive(Clone, Copy, PartialEq, Eq, Structural, Debug)]
pub struct KSOAttachment {
    pub id: ObjID,
    pub info: u64,
    pub attype: u32,
    pub flags: u32,
}

/// The common header of every kernel state object: a bounded name and a
/// version word.
pub struct KSOHdr {
    pub name: Vec<u8>,
    pub version: u32,
}

impl KSOHdr {
    /// The name fits its fixed on-disk field.
    pub open spec fn wf(self) -> bool {
        self.name@.len() <= KSO_NAME_MAXLEN
    }

    /// A header with the given name bytes.
    pub fn new(name: Vec<u8>, version: u32) -> (r: KSOHdr)
        requires
            name@.len() <= KSO_NAME_MAXLEN,
        ensures
            r.name == name,
            r.version == version,
            r.wf(),
    {
        KSOHdr { name, version }
    }
}

/// A directory of attachments: a live count over a bounded record list.
pub struct KSODirAttachments {
    pub attached: Vec<KSOAttachment>,
}

impl KSODirAttachments {
    /// How many children are attached.
    pub fn len(&self) -> (r: usize)
        ensures
            r == self.attached@.len(),
    {
        self.attached.len()
    }

    /// The attachment at `i`, if there is one.
    pub fn get(&self, i: usize) -> (r: Option<&KSOAttachment>)
        ensures
            match r {
                Some(a) => i < self.attached@.len() && *a == self.attached@[i as int],
                None => i >= self.attached@.len(),
            },
    {
        if i < self.attached.len() {
            Some(&self.attached[i])
        } else {
            None
        }
    }
}

/// The root directory of kernel state objects.
pub struct KSORootHdr {
    pub hdr: KSOHdr,
    pub flags: u64,
    pub attached: KSODirAttachments,
}

impl KSORootHdr {
    /// How many children hang off the root.
    pub fn len(&self) -> (r: usize)
        ensures
            r == self.attached.attached@.len(),
    {
        self.attached.len()
    }
}

} // verus!
