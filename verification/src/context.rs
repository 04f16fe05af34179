//! The execution context: one kernel connection, one view, the object
//! space, and the process-cached reset code, passed explicitly into every
//! operation in place of hidden process-wide state.

use vstd::prelude::*;
use crate::kernel::Kernel;
use crate::mutex::ResetCache;
use crate::slots::SlotView;
use crate::space::Space;
use crate::objid::ObjID;

verus! {

/// One execution context.  Each context owns exactly one view and is its
/// sole writer; many contexts may open the same object concurrently, each
/// through its own view.
pub struct Context {
    pub kernel: Kernel,
    pub view: SlotView,
    pub space: Space,
    pub cache: ResetCache,
}

impl Context {
    /// The context's components are well-formed, the reset cache is
    /// current, and every object of the space carries a kernel-issued
    /// identifier, so fresh identifiers never collide.
    pub open spec fn wf(self) -> bool {
        &&& self.kernel.wf()
        &&& self.view.wf()
        &&& self.space.wf()
        &&& self.cache.wf(self.kernel)
        &&& forall|k: int| 0 <= k < self.space.objects@.len()
            ==> (#[trigger] self.space.objects@[k]).id <= self.kernel.next_seq as u128
    }

    /// No mapping of the view is at its reference-count ceiling; lock-free
    /// headroom every reservation needs.
    pub open spec fn refcounts_ok(self) -> bool {
        forall|i: ObjID, f: u32| self.view.has_key(i, f)
            ==> #[trigger] self.view.refcount_of(i, f) < u32::MAX
    }

    /// A fresh context: new kernel connection, a view backed by a newly
    /// created control object, an empty space, an empty reset cache.
    pub fn new() -> (r: Context)
        ensures
            r.wf(),
            r.refcounts_ok(),
            forall|i: ObjID, f: u32| !r.view.has_key(i, f),
            forall|id: ObjID| !r.space.has_obj(id),
            r.cache.code == 0,
            r.kernel.invalidations@ =~= Seq::<crate::kernel::InvalidateReq>::empty(),
    {
        let mut kernel = Kernel::new();
        let (vid, _res) = kernel.create_object();
        let view = SlotView::new(vid);
        Context {
            kernel,
            view,
            space: Space::new(),
            cache: ResetCache::new(),
        }
    }
}

} // verus!
