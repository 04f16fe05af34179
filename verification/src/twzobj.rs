//! The object handle: an ID, a slot, and a permission tied together.
//!
//! A handle either owns its slot mapping — created through the view, ended
//! by an explicit, fallible `release` — or borrows a slot without managing
//! its lifetime, as references derived from a raw address must.  All
//! `slot * MAX_SIZE + offset` arithmetic lives here and in the resolved
//! references it hands out.

use vstd::prelude::*;
use crate::context::Context;
use crate::create::CreateSpec;
use crate::meta::{FotTarget, FOT_NAME, FOT_VALID};
use crate::objid::ObjID;
use crate::pptr::Pptr;
use crate::refs::{Pref, PrefMut};
use crate::slots::{SlotView, NR_VIEW_ENTRIES, PROT_READ, PROT_WRITE};
use crate::space::{valid_off, Space, MAX_SIZE, NULLPAGE_SIZE, TOP_DATA};
use crate::TwzErr;

verus! {

/// The address of byte `off` of the object mapped at `slot`.
pub open spec fn region_addr(slot: u64, off: u64) -> int {
    slot * MAX_SIZE + off
}

/// Region arithmetic: an in-range offset keeps the address inside the
/// slot's region, so division and remainder recover the parts.
pub proof fn lemma_region_addr(slot: u64, off: u64)
    requires
        slot < NR_VIEW_ENTRIES as u64,
        off < MAX_SIZE,
    ensures
        region_addr(slot, off) / (MAX_SIZE as int) == slot,
        region_addr(slot, off) % (MAX_SIZE as int) == off,
        region_addr(slot, off) < 0x8000_0000_0000,
{
    assert(region_addr(slot, off) / (MAX_SIZE as int) == slot
        && region_addr(slot, off) % (MAX_SIZE as int) == off
        && region_addr(slot, off) < 0x8000_0000_0000) by (nonlinear_arith)
        requires
            slot < 0x20000,
            off < MAX_SIZE,
            region_addr(slot, off) == slot * MAX_SIZE + off,
    ;
}

/// An object handle.
///
/// `owns` marks a handle that holds a reference of the view's mapping and
/// must be released; `pinned` marks the borrowed, short-hold variant made
/// from a raw address.
#[derive(Clone, Copy, PartialEq, Eq, Structural, Debug)]
pub struct Twzobj {
    pub id: ObjID,
    pub slot: u64,
    pub prot: u32,
    pub owns: bool,
    pub pinned: bool,
}

impl Twzobj {
    /// The slot is addressable and the handle is not both owning and
    /// pinned.
    pub open spec fn wf(self) -> bool {
        &&& self.slot < NR_VIEW_ENTRIES as u64
        &&& !(self.owns && self.pinned)
    }

    /// The handle's mapping is live in the view and agrees on the slot.
    pub open spec fn mapped(self, v: SlotView) -> bool {
        &&& self.id != 0
        &&& v.has_key(self.id, self.prot)
        &&& v.slot_of(self.id, self.prot) == self.slot
    }

    /// The object's identifier.
    pub fn id(&self) -> (r: ObjID)
        ensures
            r == self.id,
    {
        self.id
    }

    /// Stamps the handle with an identifier learned after the fact.
    pub fn set_id(&mut self, id: ObjID)
        ensures
            *final(self) == (Twzobj { id, ..*old(self) }),
    {
        self.id = id;
    }

    /// A handle over an already-chosen slot.
    pub fn init_slot(id: ObjID, prot: u32, slot: u64, allocated: bool, locked: bool) -> (r: Twzobj)
        requires
            slot < NR_VIEW_ENTRIES as u64,
            !(allocated && locked),
        ensures
            r == (Twzobj { id, slot, prot, owns: allocated, pinned: locked }),
            r.wf(),
    {
        Twzobj { id, slot, prot, owns: allocated, pinned: locked }
    }

    /// Opens the object `id` with permission `prot`: reserves a slot in
    /// the context's view and returns an owning handle.  Fails exactly
    /// when the slot allocator is exhausted.
    pub fn init_guid(ctx: &mut Context, id: ObjID, prot: u32) -> (r: Result<Twzobj, TwzErr>)
        requires
            old(ctx).wf(),
            id != 0,
            old(ctx).view.has_key(id, prot)
                ==> old(ctx).view.refcount_of(id, prot) < u32::MAX,
        ensures
            final(ctx).wf(),
            final(ctx).space == old(ctx).space,
            final(ctx).cache == old(ctx).cache,
            final(ctx).kernel.next_seq == old(ctx).kernel.next_seq,
            final(ctx).kernel.reset_epoch == old(ctx).kernel.reset_epoch,
            match r {
                Ok(o) => {
                    &&& o.wf()
                    &&& o == (Twzobj {
                        id, slot: o.slot, prot, owns: true, pinned: false })
                    &&& o.mapped(final(ctx).view)
                    &&& final(ctx).view.as_map() == old(ctx).view.as_map().insert(
                        (id, prot),
                        (o.slot, if old(ctx).view.has_key(id, prot) {
                            (old(ctx).view.refcount_of(id, prot) + 1) as u32
                        } else {
                            1u32
                        }))
                    &&& (old(ctx).view.has_key(id, prot) ==> {
                        &&& o.slot == old(ctx).view.slot_of(id, prot)
                        &&& final(ctx).kernel.invalidations
                            == old(ctx).kernel.invalidations
                    })
                    &&& (!old(ctx).view.has_key(id, prot)
                        ==> old(ctx).view.is_first_free(o.slot as int))
                },
                Err(e) => {
                    &&& e == TwzErr::OutOfSlots
                    &&& !old(ctx).view.has_key(id, prot)
                    &&& old(ctx).view.slots_full()
                        || old(ctx).view.chain_exhausted_for(id)
                    &&& final(ctx).view.as_map() == old(ctx).view.as_map()
                    &&& final(ctx).kernel.invalidations == old(ctx).kernel.invalidations
                },
            },
    {
        let slot = match ctx.view.reserve_slot(&mut ctx.kernel, id, prot) {
            Ok(s) => s,
            Err(e) => {
                return Err(e);
            },
        };
        Ok(Twzobj { id, slot, prot, owns: true, pinned: false })
    }

    /// Releases what the handle holds: an owning handle gives back one
    /// reference of its mapping, a pinned handle drops its pin, a plain
    /// borrowed handle releases nothing.
    pub fn release(self, ctx: &mut Context) -> (r: Result<(), TwzErr>)
        requires
            old(ctx).wf(),
            self.wf(),
        ensures
            final(ctx).wf(),
            final(ctx).space == old(ctx).space,
            final(ctx).cache == old(ctx).cache,
            final(ctx).kernel == old(ctx).kernel,
            !self.owns && !self.pinned ==> r is Ok && final(ctx).view == old(ctx).view,
            self.owns ==> match r {
                Ok(_) => {
                    &&& self.mapped(old(ctx).view)
                    &&& (old(ctx).view.refcount_of(self.id, self.prot) > 1
                        ==> final(ctx).view.as_map() == old(ctx).view.as_map().insert(
                            (self.id, self.prot),
                            (self.slot,
                                (old(ctx).view.refcount_of(self.id, self.prot) - 1) as u32)))
                    &&& (old(ctx).view.refcount_of(self.id, self.prot) == 1
                        ==> final(ctx).view.as_map()
                            == old(ctx).view.as_map().remove((self.id, self.prot)))
                },
                Err(e) => {
                    &&& e == TwzErr::Invalid
                    &&& self.id == 0 || !self.mapped(old(ctx).view)
                    &&& final(ctx).view == old(ctx).view
                },
            },
            self.pinned ==> match r {
                Ok(_) => {
                    &&& old(ctx).view.entries@[self.slot as int].pin >= 1
                    &&& final(ctx).view.as_map() == old(ctx).view.as_map()
                },
                Err(e) => {
                    &&& e == TwzErr::Invalid
                    &&& old(ctx).view.entries@[self.slot as int].pin == 0
                    &&& final(ctx).view == old(ctx).view
                },
            },
    {
        if self.owns {
            if self.id == 0 {
                return Err(TwzErr::Invalid);
            }
            match ctx.view.release_slot(self.id, self.prot, self.slot) {
                Ok(_) => Ok(()),
                Err(e) => Err(e),
            }
        } else if self.pinned {
            match ctx.view.put_slot(self.slot) {
                Ok(_) => Ok(()),
                Err(e) => Err(e),
            }
        } else {
            Ok(())
        }
    }

    /// A borrowed, unmapped handle for the region containing a raw
    /// address; it does not manage the slot's lifetime.
    pub fn from_ptr(addr: u64) -> (r: Twzobj)
        requires
            addr < (NR_VIEW_ENTRIES as u64) * MAX_SIZE,
        ensures
            r == (Twzobj {
                id: 0, slot: (addr / MAX_SIZE) as u64, prot: 0, owns: false, pinned: false }),
            r.wf(),
    {
        let slot = addr / MAX_SIZE;
        proof {
            assert(addr < (NR_VIEW_ENTRIES as u64) * MAX_SIZE
                ==> addr / MAX_SIZE < NR_VIEW_ENTRIES as u64) by (nonlinear_arith);
        }
        Twzobj { id: 0, slot, prot: 0, owns: false, pinned: false }
    }

    /// A borrowed handle that pins its slot against reuse by a concurrent
    /// release while a raw address is in use.
    pub fn from_ptr_locked(ctx: &mut Context, addr: u64) -> (r: Result<Twzobj, TwzErr>)
        requires
            old(ctx).wf(),
            addr < (NR_VIEW_ENTRIES as u64) * MAX_SIZE,
        ensures
            final(ctx).wf(),
            final(ctx).space == old(ctx).space,
            final(ctx).cache == old(ctx).cache,
            final(ctx).kernel == old(ctx).kernel,
            final(ctx).view.as_map() == old(ctx).view.as_map(),
            match r {
                Ok(o) => {
                    &&& o == (Twzobj {
                        id: 0, slot: (addr / MAX_SIZE) as u64, prot: 0,
                        owns: false, pinned: true })
                    &&& o.wf()
                    &&& old(ctx).view.entries@[o.slot as int].pin < u32::MAX
                    &&& final(ctx).view.entries@[o.slot as int].pin
                        == old(ctx).view.entries@[o.slot as int].pin + 1
                },
                Err(e) => {
                    &&& e == TwzErr::Invalid
                    &&& old(ctx).view.entries@[(addr / MAX_SIZE) as int].pin == u32::MAX
                    &&& final(ctx).view == old(ctx).view
                },
            },
    {
        let slot = addr / MAX_SIZE;
        proof {
            assert(addr < (NR_VIEW_ENTRIES as u64) * MAX_SIZE
                ==> addr / MAX_SIZE < NR_VIEW_ENTRIES as u64) by (nonlinear_arith);
        }
        match ctx.view.get_slot(slot) {
            Ok(_) => Ok(Twzobj { id: 0, slot, prot: 0, owns: false, pinned: true }),
            Err(e) => Err(e),
        }
    }

    /// Whether two handles address the same object: same slot, or same
    /// identifier.
    pub fn is_same_obj(&self, other: &Twzobj) -> (r: bool)
        ensures
            r == (self.slot == other.slot || self.id == other.id),
    {
        self.slot == other.slot || self.id == other.id
    }

    /// A borrowed copy of the handle that does not own the mapping.
    pub open spec fn spec_as_generic(self) -> Twzobj {
        Twzobj { owns: false, pinned: false, ..self }
    }

    /// A borrowed copy of the handle that does not own the mapping.
    pub fn as_generic(&self) -> (r: Twzobj)
        ensures
            r == self.spec_as_generic(),
    {
        Twzobj { owns: false, pinned: false, ..*self }
    }

    /// The address of the typed payload: the first byte past the reserved
    /// header page of the handle's region.
    pub fn base(&self) -> (r: u64)
        requires
            self.wf(),
        ensures
            r == region_addr(self.slot, NULLPAGE_SIZE),
            r / MAX_SIZE == self.slot,
            r % MAX_SIZE == NULLPAGE_SIZE,
    {
        proof {
            lemma_region_addr(self.slot, NULLPAGE_SIZE);
        }
        self.slot * MAX_SIZE + NULLPAGE_SIZE
    }

    /// A resolved reference to the payload base.
    pub fn base_ptr(&self) -> (r: Pref)
        requires
            self.wf(),
        ensures
            r.obj == self.spec_as_generic(),
            r.addr == region_addr(self.slot, NULLPAGE_SIZE),
            r.wf(),
    {
        let addr = self.base();
        Pref::new(self.as_generic(), addr)
    }

    /// The payload-base address for mutation under a transaction.
    pub fn base_mut(&self, _tx: &crate::tx::Transaction) -> (r: u64)
        requires
            self.wf(),
        ensures
            r == region_addr(self.slot, NULLPAGE_SIZE),
    {
        self.base()
    }


    /// Begins a transaction led by this object.
    pub fn transaction(&self) -> (r: crate::tx::Transaction)
        ensures
            r.leader == self.id,
    {
        crate::tx::Transaction::new(self)
    }

    /// Creates a new object per `spec` and writes `base` as its payload
    /// base word.
    ///
    /// The kernel allocates the identifier; the object's storage is laid
    /// out with its metadata block and a transaction-log extension, mapped
    /// through the view, and the base written.  A kernel allocation
    /// failure surfaces as `OSError`; slot exhaustion as `OutOfSlots`.
    pub fn create_base(ctx: &mut Context, spec: &CreateSpec, base: u64)
        -> (r: Result<Twzobj, TwzErr>)
        requires
            old(ctx).wf(),
            old(ctx).view.has_key(old(ctx).kernel.fresh_id(), PROT_READ | PROT_WRITE)
                ==> old(ctx).view.refcount_of(
                    old(ctx).kernel.fresh_id(), PROT_READ | PROT_WRITE) < u32::MAX,
        ensures
            final(ctx).wf(),
            final(ctx).cache == old(ctx).cache,
            final(ctx).kernel.reset_epoch == old(ctx).kernel.reset_epoch,
            match r {
                Ok(o) => {
                    &&& o.wf()
                    &&& o.id == old(ctx).kernel.fresh_id()
                    &&& o.owns && !o.pinned
                    &&& o.prot == PROT_READ | PROT_WRITE
                    &&& o.mapped(final(ctx).view)
                    &&& final(ctx).kernel.next_seq == old(ctx).kernel.next_seq + 1
                    &&& !old(ctx).space.has_obj(o.id)
                    &&& final(ctx).space.has_obj(o.id)
                    &&& final(ctx).view.as_map() == old(ctx).view.as_map().insert(
                        (o.id, PROT_READ | PROT_WRITE),
                        (o.slot, if old(ctx).view.has_key(o.id, PROT_READ | PROT_WRITE) {
                            (old(ctx).view.refcount_of(o.id, PROT_READ | PROT_WRITE) + 1) as u32
                        } else {
                            1u32
                        }))
                    &&& ({
                        let ob = final(ctx).space.obj_of(o.id);
                        &&& ob.read_spec(NULLPAGE_SIZE) == base
                        &&& crate::meta::first_ext(ob.exts@, crate::tx::TX_METAEXT)
                            == Some((NULLPAGE_SIZE + 8) as u64)
                        &&& crate::tx::log_len(ob, (NULLPAGE_SIZE + 8) as u64)
                            == crate::tx::TX_LOG_BYTES
                        &&& crate::tx::log_top(ob, (NULLPAGE_SIZE + 8) as u64) == 0
                        &&& crate::tx::log_sane(ob, (NULLPAGE_SIZE + 8) as u64)
                        &&& ob.meta.magic == crate::meta::MI_MAGIC
                        &&& ob.meta.nonce == o.id
                        &&& ob.meta.kuid == (match spec.ku {
                            crate::create::KuSpec::Unset => 0,
                            crate::create::KuSpec::Obj(k) => k,
                        })
                        &&& ob.fot@.len() == 1
                        &&& ob.alloc_top == NULLPAGE_SIZE + 8 + 16 + crate::tx::TX_LOG_BYTES
                    })
                    &&& forall|i: ObjID| i != o.id
                        ==> #[trigger] final(ctx).space.has_obj(i)
                            == old(ctx).space.has_obj(i)
                    &&& forall|i: ObjID| i != o.id && old(ctx).space.has_obj(i)
                        ==> #[trigger] final(ctx).space.obj_of(i)
                            == old(ctx).space.obj_of(i)
                },
                Err(e) => {
                    &&& (e == TwzErr::OSError(-1i32) ==> {
                        &&& old(ctx).kernel.next_seq == u64::MAX
                        &&& final(ctx).space == old(ctx).space
                        &&& final(ctx).view == old(ctx).view
                    })
                    &&& (e == TwzErr::OutOfSlots ==> {
                        &&& old(ctx).view.slots_full()
                            || old(ctx).view.chain_exhausted_for(old(ctx).kernel.fresh_id())
                        &&& final(ctx).view.as_map() == old(ctx).view.as_map()
                        &&& final(ctx).space.has_obj(old(ctx).kernel.fresh_id())
                    })
                    &&& (e == TwzErr::OSError(-1i32) || e == TwzErr::OutOfSlots)
                },
            },
    {
        let ghost fresh = old(ctx).kernel.fresh_id();
        let (id, res) = ctx.kernel.create_object();
        if res != 0 {
            return Err(TwzErr::OSError(res));
        }
        proof {
            if ctx.space.has_obj(id) {
                let k = ctx.space.index_of(id);
                assert(0 <= k < ctx.space.objects@.len() && ctx.space.objects@[k].id == id);
                assert(ctx.space.objects@[k].id <= old(ctx).kernel.next_seq as u128);
                assert(false);
            }
        }
        let p_flags = #[verifier::truncate] ((spec.flags & 0xffff) as u16);
        let kuid = spec.kuid();
        ctx.space.create_obj(id, p_flags, id, kuid);
        let o = match Twzobj::init_guid(ctx, id, PROT_READ | PROT_WRITE) {
            Ok(o) => o,
            Err(e) => {
                return Err(e);
            },
        };
        let k = match ctx.space.find(id) {
            Some(k) => k,
            None => {
                proof {
                    assert(false);
                }
                return Err(TwzErr::Invalid);
            },
        };
        let ghost pre = ctx.space;
        let obj = &mut ctx.space.objects[k];
        obj.init_alloc(NULLPAGE_SIZE + 8);
        let logoff = match obj.alloc_metaext(
            crate::tx::TX_METAEXT, 16 + crate::tx::TX_LOG_BYTES) {
            Ok(off) => off,
            Err(_) => {
                proof {
                    assert(false);
                }
                return Err(TwzErr::Invalid);
            },
        };
        obj.write_word(logoff, crate::tx::TX_LOG_BYTES);
        obj.write_word(logoff + 8, 0);
        obj.write_word(NULLPAGE_SIZE, base);
        proof {
            assert(ctx.space.objects@
                == pre.objects@.update(k as int, ctx.space.objects@[k as int]));
            Space::lemma_space_update(pre, ctx.space, k as int);
            assert(ctx.space.obj_of(id) == ctx.space.objects@[k as int]);
        }
        Ok(o)
    }

    /// Creates a new object per `spec` with a zero payload base.
    pub fn create(ctx: &mut Context, spec: &CreateSpec) -> (r: Result<Twzobj, TwzErr>)
        requires
            old(ctx).wf(),
            old(ctx).view.has_key(old(ctx).kernel.fresh_id(), PROT_READ | PROT_WRITE)
                ==> old(ctx).view.refcount_of(
                    old(ctx).kernel.fresh_id(), PROT_READ | PROT_WRITE) < u32::MAX,
        ensures
            final(ctx).wf(),
            final(ctx).cache == old(ctx).cache,
            final(ctx).kernel.reset_epoch == old(ctx).kernel.reset_epoch,
            match r {
                Ok(o) => {
                    &&& o.wf()
                    &&& o.id == old(ctx).kernel.fresh_id()
                    &&& o.owns && !o.pinned
                    &&& o.prot == PROT_READ | PROT_WRITE
                    &&& o.mapped(final(ctx).view)
                    &&& final(ctx).space.has_obj(o.id)
                    &&& final(ctx).space.obj_of(o.id).read_spec(NULLPAGE_SIZE) == 0
                    &&& crate::tx::log_sane(
                        final(ctx).space.obj_of(o.id), (NULLPAGE_SIZE + 8) as u64)
                    &&& crate::meta::first_ext(
                        final(ctx).space.obj_of(o.id).exts@, crate::tx::TX_METAEXT)
                        == Some((NULLPAGE_SIZE + 8) as u64)
                    &&& forall|i: ObjID| i != o.id && old(ctx).space.has_obj(i)
                        ==> #[trigger] final(ctx).space.obj_of(i)
                            == old(ctx).space.obj_of(i)
                },
                Err(e) => e == TwzErr::OSError(-1i32) || e == TwzErr::OutOfSlots,
            },
    {
        Self::create_base(ctx, spec, 0)
    }


    /// What `lea` of a pointer with foreign-table index `idx` finds in this
    /// object's table, read on the given space.
    pub open spec fn fot_state(self, sp: Space, idx: u64) -> crate::meta::FOTEntry
        recommends
            sp.has_obj(self.id),
    {
        sp.obj_of(self.id).fot@[idx as int]
    }

    /// Resolves a persistent pointer against this containing object.
    ///
    /// A local pointer resolves directly into this handle's region.  A
    /// cross-object pointer loads its foreign-table entry, which must be
    /// live — a cleared entry marks corruption — and direct: the
    /// symbolic-name form is a deliberate, unresolved extension point and
    /// reports `Unsupported`.  The target is then mapped through the view,
    /// and the reference returned owns that mapping.
    pub fn lea(&self, ctx: &mut Context, ptr: &Pptr) -> (r: Result<Pref, TwzErr>)
        requires
            old(ctx).wf(),
            old(ctx).refcounts_ok(),
            self.wf(),
        ensures
            final(ctx).wf(),
            final(ctx).space == old(ctx).space,
            final(ctx).cache == old(ctx).cache,
            final(ctx).kernel.next_seq == old(ctx).kernel.next_seq,
            final(ctx).kernel.reset_epoch == old(ctx).kernel.reset_epoch,
            ptr.p < MAX_SIZE ==> {
                &&& final(ctx).view == old(ctx).view
                &&& final(ctx).kernel == old(ctx).kernel
                &&& (r matches Ok(pref) && pref.addr == region_addr(self.slot, ptr.p)
                    && pref.obj == self.spec_as_generic() && pref.wf())
            },
            ptr.p >= MAX_SIZE ==> {
                let idx = ptr.p / MAX_SIZE;
                let osp = old(ctx).space;
                if !osp.has_obj(self.id) {
                    r == Err::<Pref, TwzErr>(TwzErr::Invalid)
                        && final(ctx).view == old(ctx).view
                        && final(ctx).kernel == old(ctx).kernel
                } else if idx >= osp.obj_of(self.id).fot@.len()
                    || !self.fot_state(osp, idx).spec_is_valid() {
                    r == Err::<Pref, TwzErr>(TwzErr::Invalid)
                        && final(ctx).view == old(ctx).view
                        && final(ctx).kernel == old(ctx).kernel
                } else if self.fot_state(osp, idx).flags & FOT_NAME != 0
                    || !(self.fot_state(osp, idx).target is Direct) {
                    r == Err::<Pref, TwzErr>(TwzErr::Unsupported)
                        && final(ctx).view == old(ctx).view
                        && final(ctx).kernel == old(ctx).kernel
                } else if self.fot_state(osp, idx).target->Direct_0 == 0 {
                    r == Err::<Pref, TwzErr>(TwzErr::Invalid)
                        && final(ctx).view == old(ctx).view
                        && final(ctx).kernel == old(ctx).kernel
                } else {
                    let tid = self.fot_state(osp, idx).target->Direct_0;
                    let pr = (self.fot_state(osp, idx).flags & 0x1c) as u32;
                    match r {
                        Ok(pref) => {
                            &&& pref.obj.id == tid
                            &&& pref.obj.prot == pr
                            &&& pref.obj.owns && !pref.obj.pinned
                            &&& pref.obj.wf()
                            &&& pref.obj.mapped(final(ctx).view)
                            &&& pref.wf()
                            &&& pref.addr == region_addr(
                                pref.obj.slot, (ptr.p % MAX_SIZE) as u64)
                            &&& final(ctx).view.as_map()
                                == old(ctx).view.as_map().insert(
                                    (tid, pr),
                                    (pref.obj.slot,
                                        if old(ctx).view.has_key(tid, pr) {
                                            (old(ctx).view.refcount_of(tid, pr) + 1) as u32
                                        } else {
                                            1u32
                                        }))
                            &&& (old(ctx).view.has_key(tid, pr)
                                ==> pref.obj.slot == old(ctx).view.slot_of(tid, pr)
                                    && final(ctx).kernel.invalidations
                                        == old(ctx).kernel.invalidations)
                        },
                        Err(e) => {
                            &&& e == TwzErr::OutOfSlots
                            &&& !old(ctx).view.has_key(tid, pr)
                            &&& old(ctx).view.slots_full()
                                || old(ctx).view.chain_exhausted_for(tid)
                            &&& final(ctx).view.as_map() == old(ctx).view.as_map()
                        },
                    }
                }
            },
    {
        if ptr.is_internal() {
            proof {
                lemma_region_addr(self.slot, ptr.p);
            }
            let addr = self.slot * MAX_SIZE + ptr.p;
            return Ok(Pref::new(self.as_generic(), addr));
        }
        let idx = ptr.fot_entry();
        let k = match ctx.space.find(self.id) {
            Some(k) => k,
            None => {
                return Err(TwzErr::Invalid);
            },
        };
        let valid;
        let named;
        let tid;
        let pr;
        match ctx.space.objects[k].get_fote(idx) {
            Some(e) => {
                valid = e.is_valid();
                named = e.flags & FOT_NAME != 0 || !(matches!(e.target, FotTarget::Direct(_)));
                tid = match e.target {
                    FotTarget::Direct(t) => t,
                    FotTarget::Named(_) => 0,
                };
                pr = #[verifier::truncate] ((e.flags & 0x1c) as u32);
            },
            None => {
                return Err(TwzErr::Invalid);
            },
        }
        if !valid {
            return Err(TwzErr::Invalid);
        }
        if named {
            return Err(TwzErr::Unsupported);
        }
        if tid == 0 {
            return Err(TwzErr::Invalid);
        }
        let target = match Twzobj::init_guid(ctx, tid, pr) {
            Ok(o) => o,
            Err(e) => {
                return Err(e);
            },
        };
        proof {
            lemma_region_addr(target.slot, (ptr.p % MAX_SIZE) as u64);
        }
        let addr = target.slot * MAX_SIZE + ptr.offset();
        Ok(Pref::new(target, addr))
    }

    /// Resolves a persistent pointer for mutation under a transaction; the
    /// same resolution as `lea`, returning an exclusive reference.
    pub fn lea_mut(&self, ctx: &mut Context, ptr: &Pptr, _tx: &crate::tx::Transaction)
        -> (r: Result<PrefMut, TwzErr>)
        requires
            old(ctx).wf(),
            old(ctx).refcounts_ok(),
            self.wf(),
        ensures
            final(ctx).wf(),
            final(ctx).space == old(ctx).space,
            final(ctx).cache == old(ctx).cache,
            final(ctx).kernel.next_seq == old(ctx).kernel.next_seq,
            final(ctx).kernel.reset_epoch == old(ctx).kernel.reset_epoch,
            ptr.p < MAX_SIZE ==> {
                &&& final(ctx).view == old(ctx).view
                &&& (r matches Ok(pref) && pref.addr == region_addr(self.slot, ptr.p)
                    && pref.obj == self.spec_as_generic() && pref.wf())
            },
            ptr.p >= MAX_SIZE && old(ctx).space.has_obj(self.id)
                && (ptr.p / MAX_SIZE) < old(ctx).space.obj_of(self.id).fot@.len()
                && self.fot_state(old(ctx).space, ptr.p / MAX_SIZE).spec_is_valid()
                && self.fot_state(old(ctx).space, ptr.p / MAX_SIZE).flags & FOT_NAME == 0
                && (self.fot_state(old(ctx).space, ptr.p / MAX_SIZE).target is Direct)
                && self.fot_state(old(ctx).space, ptr.p / MAX_SIZE).target->Direct_0 != 0
                ==> (match r {
                    Ok(pref) => {
                        &&& pref.obj.id == self.fot_state(
                            old(ctx).space, ptr.p / MAX_SIZE).target->Direct_0
                        &&& pref.obj.owns
                        &&& pref.obj.wf()
                        &&& pref.obj.mapped(final(ctx).view)
                        &&& pref.wf()
                        &&& pref.addr == region_addr(
                            pref.obj.slot, (ptr.p % MAX_SIZE) as u64)
                    },
                    Err(e) => {
                        &&& e == TwzErr::OutOfSlots
                        &&& old(ctx).view.slots_full()
                            || old(ctx).view.chain_exhausted_for(self.fot_state(
                                old(ctx).space, ptr.p / MAX_SIZE).target->Direct_0)
                    },
                }),
            ptr.p >= MAX_SIZE && !(old(ctx).space.has_obj(self.id)
                && (ptr.p / MAX_SIZE) < old(ctx).space.obj_of(self.id).fot@.len()
                && self.fot_state(old(ctx).space, ptr.p / MAX_SIZE).spec_is_valid()
                && self.fot_state(old(ctx).space, ptr.p / MAX_SIZE).flags & FOT_NAME == 0
                && (self.fot_state(old(ctx).space, ptr.p / MAX_SIZE).target is Direct)
                && self.fot_state(old(ctx).space, ptr.p / MAX_SIZE).target->Direct_0 != 0)
                ==> (r == Err::<PrefMut, TwzErr>(TwzErr::Invalid)
                    || r == Err::<PrefMut, TwzErr>(TwzErr::Unsupported))
                    && final(ctx).view == old(ctx).view,
    {
        match self.lea(ctx, ptr) {
            Ok(p) => Ok(PrefMut::new(p.obj, p.addr)),
            Err(e) => Err(e),
        }
    }

    /// Encodes a persistent pointer of this object to `target`.
    ///
    /// A target inside this handle's own region is stored locally — index
    /// zero, offset only, at no cost.  Any other target gets a live
    /// foreign-table entry recording its object and the requested
    /// permissions; this revision always appends to or reuses a cleared
    /// slot rather than deduplicating repeated targets.
    pub fn make_ptr(&self, ctx: &mut Context, target: &Pref, flags: u64)
        -> (r: Result<Pptr, TwzErr>)
        requires
            old(ctx).wf(),
            self.wf(),
            target.wf(),
            target.obj.slot != self.slot ==> target.obj.id != 0,
        ensures
            final(ctx).wf(),
            final(ctx).view == old(ctx).view,
            final(ctx).cache == old(ctx).cache,
            final(ctx).kernel == old(ctx).kernel,
            forall|i: ObjID| #[trigger] final(ctx).space.has_obj(i)
                == old(ctx).space.has_obj(i),
            forall|i: ObjID| old(ctx).space.has_obj(i) && i != self.id
                ==> #[trigger] final(ctx).space.obj_of(i) == old(ctx).space.obj_of(i),
            target.obj.slot == self.slot ==> {
                &&& (r matches Ok(p) && p.p == target.addr % MAX_SIZE && p.p < MAX_SIZE)
                &&& final(ctx).space == old(ctx).space
            },
            target.obj.slot != self.slot ==> match r {
                Ok(p) => {
                    &&& p.p >= MAX_SIZE
                    &&& p.p % MAX_SIZE == target.addr % MAX_SIZE
                    &&& old(ctx).space.has_obj(self.id)
                    &&& ({
                        let idx = p.p / MAX_SIZE;
                        let ob = final(ctx).space.obj_of(self.id);
                        &&& 1 <= idx < ob.fot@.len()
                        &&& ob.fot@[idx as int] == (crate::meta::FOTEntry {
                            target: FotTarget::Direct(target.obj.id),
                            flags: flags | FOT_VALID,
                            info: 0,
                        })
                        &&& ob.data == old(ctx).space.obj_of(self.id).data
                        &&& ob.exts == old(ctx).space.obj_of(self.id).exts
                    })
                },
                Err(e) => {
                    &&& (e == TwzErr::Invalid ==> !old(ctx).space.has_obj(self.id))
                    &&& (e == TwzErr::OutOfSlots ==> old(ctx).space.has_obj(self.id)
                        && old(ctx).space.obj_of(self.id).fot@.len() == crate::space::MAX_FOTE)
                    &&& (e == TwzErr::Invalid || e == TwzErr::OutOfSlots)
                    &&& (old(ctx).space.has_obj(self.id)
                        ==> final(ctx).space.obj_of(self.id)
                            == old(ctx).space.obj_of(self.id))
                },
            },
    {
        if target.obj.slot == self.slot {
            return Ok(Pptr::new(target.address() % MAX_SIZE));
        }
        let k = match ctx.space.find(self.id) {
            Some(k) => k,
            None => {
                return Err(TwzErr::Invalid);
            },
        };
        let ghost pre = ctx.space;
        let obj = &mut ctx.space.objects[k];
        let idx = match obj.add_fote(target.obj.id(), flags) {
            Ok(idx) => idx,
            Err(e) => {
                proof {
                    assert(ctx.space.objects@
                        == pre.objects@.update(k as int, ctx.space.objects@[k as int]));
                    Space::lemma_space_update(pre, ctx.space, k as int);
                }
                return Err(e);
            },
        };
        proof {
            assert(ctx.space.objects@
                == pre.objects@.update(k as int, ctx.space.objects@[k as int]));
            Space::lemma_space_update(pre, ctx.space, k as int);
            assert(idx < crate::space::MAX_FOTE);
            assert(idx * MAX_SIZE + target.addr % MAX_SIZE < 0x8000_0000_0000_0000
                && (idx * MAX_SIZE + target.addr % MAX_SIZE) / (MAX_SIZE as int) == idx
                && (idx * MAX_SIZE + target.addr % MAX_SIZE) % (MAX_SIZE as int)
                    == target.addr % MAX_SIZE
                && idx * MAX_SIZE + target.addr % MAX_SIZE >= MAX_SIZE) by (nonlinear_arith)
                requires
                    1 <= idx < 0x7f80,
                    target.addr % MAX_SIZE < MAX_SIZE,
                    MAX_SIZE == 0x4000_0000u64,
            ;
        }
        let p = idx * MAX_SIZE + target.address() % MAX_SIZE;
        Ok(Pptr::new(p))
    }

    /// Stores a persistent pointer to `target` into this object's payload
    /// word at `at_off`, and returns the stored pointer.
    pub fn store_ptr(&self, ctx: &mut Context, at_off: u64, target: &Pref, flags: u64)
        -> (r: Result<Pptr, TwzErr>)
        requires
            old(ctx).wf(),
            self.wf(),
            target.wf(),
            valid_off(at_off),
            target.obj.slot != self.slot ==> target.obj.id != 0,
        ensures
            final(ctx).wf(),
            final(ctx).view == old(ctx).view,
            final(ctx).cache == old(ctx).cache,
            final(ctx).kernel == old(ctx).kernel,
            forall|i: ObjID| #[trigger] final(ctx).space.has_obj(i)
                == old(ctx).space.has_obj(i),
            forall|i: ObjID| old(ctx).space.has_obj(i) && i != self.id
                ==> #[trigger] final(ctx).space.obj_of(i) == old(ctx).space.obj_of(i),
            match r {
                Ok(p) => {
                    &&& old(ctx).space.has_obj(self.id)
                    &&& final(ctx).space.obj_of(self.id).read_spec(at_off) == p.p
                    &&& (target.obj.slot == self.slot
                        ==> p.p == target.addr % MAX_SIZE && p.p < MAX_SIZE)
                    &&& (target.obj.slot != self.slot ==> {
                        let idx = p.p / MAX_SIZE;
                        let ob = final(ctx).space.obj_of(self.id);
                        &&& p.p >= MAX_SIZE
                        &&& p.p % MAX_SIZE == target.addr % MAX_SIZE
                        &&& 1 <= idx < ob.fot@.len()
                        &&& ob.fot@[idx as int] == (crate::meta::FOTEntry {
                            target: FotTarget::Direct(target.obj.id),
                            flags: flags | FOT_VALID,
                            info: 0,
                        })
                    })
                    &&& forall|o: u64| valid_off(o)
                        && crate::space::word_index(o) != crate::space::word_index(at_off)
                        ==> #[trigger] final(ctx).space.obj_of(self.id).read_spec(o)
                            == old(ctx).space.obj_of(self.id).read_spec(o)
                },
                Err(e) => {
                    &&& (e == TwzErr::Invalid ==> !old(ctx).space.has_obj(self.id))
                    &&& (e == TwzErr::OutOfSlots ==> old(ctx).space.has_obj(self.id)
                        && old(ctx).space.obj_of(self.id).fot@.len()
                            == crate::space::MAX_FOTE)
                    &&& (e == TwzErr::Invalid || e == TwzErr::OutOfSlots)
                    &&& (old(ctx).space.has_obj(self.id)
                        ==> final(ctx).space.obj_of(self.id)
                            == old(ctx).space.obj_of(self.id))
                },
            },
    {
        let p = match self.make_ptr(ctx, target, flags) {
            Ok(p) => p,
            Err(e) => {
                return Err(e);
            },
        };
        match self.write(ctx, at_off, p.p) {
            Ok(_) => Ok(p),
            Err(e) => Err(e),
        }
    }



    /// Creates a new object per `spec` and opens the transaction under
    /// which its fields are initialised: the caller runs its constructor
    /// against the returned handle and transaction, so that field
    /// initialisation which itself links sub-allocations is logged
    /// crash-consistently.
    pub fn create_ctor(ctx: &mut Context, spec: &CreateSpec)
        -> (r: Result<(Twzobj, crate::tx::Transaction), TwzErr>)
        requires
            old(ctx).wf(),
            old(ctx).view.has_key(old(ctx).kernel.fresh_id(), PROT_READ | PROT_WRITE)
                ==> old(ctx).view.refcount_of(
                    old(ctx).kernel.fresh_id(), PROT_READ | PROT_WRITE) < u32::MAX,
        ensures
            final(ctx).wf(),
            final(ctx).cache == old(ctx).cache,
            final(ctx).kernel.reset_epoch == old(ctx).kernel.reset_epoch,
            match r {
                Ok((o, tx)) => {
                    &&& o.wf()
                    &&& o.id == old(ctx).kernel.fresh_id()
                    &&& o.owns && !o.pinned
                    &&& o.prot == PROT_READ | PROT_WRITE
                    &&& o.mapped(final(ctx).view)
                    &&& tx.leader == o.id
                    &&& final(ctx).space.has_obj(o.id)
                    &&& final(ctx).space.obj_of(o.id).read_spec(NULLPAGE_SIZE) == 0
                    &&& crate::tx::log_sane(
                        final(ctx).space.obj_of(o.id), (NULLPAGE_SIZE + 8) as u64)
                    &&& crate::meta::first_ext(
                        final(ctx).space.obj_of(o.id).exts@, crate::tx::TX_METAEXT)
                        == Some((NULLPAGE_SIZE + 8) as u64)
                    &&& final(ctx).space.obj_of(o.id).alloc_top
                        == NULLPAGE_SIZE + 8 + 16 + crate::tx::TX_LOG_BYTES
                    &&& forall|i: ObjID| i != o.id && old(ctx).space.has_obj(i)
                        ==> #[trigger] final(ctx).space.obj_of(i)
                            == old(ctx).space.obj_of(i)
                },
                Err(e) => e == TwzErr::OSError(-1i32) || e == TwzErr::OutOfSlots,
            },
    {
        let o = match Self::create_base(ctx, spec, 0) {
            Ok(o) => o,
            Err(e) => {
                return Err(e);
            },
        };
        let tx = o.transaction();
        Ok((o, tx))
    }

    /// Allocates one item word inside this object and copies `value` into
    /// it, returning a local persistent pointer to the new item.
    pub fn copy_item(&self, ctx: &mut Context, value: u64) -> (r: Result<Pptr, TwzErr>)
        requires
            old(ctx).wf(),
        ensures
            final(ctx).wf(),
            final(ctx).view == old(ctx).view,
            final(ctx).cache == old(ctx).cache,
            final(ctx).kernel == old(ctx).kernel,
            forall|i: ObjID| #[trigger] final(ctx).space.has_obj(i)
                == old(ctx).space.has_obj(i),
            forall|i: ObjID| old(ctx).space.has_obj(i) && i != self.id
                ==> #[trigger] final(ctx).space.obj_of(i) == old(ctx).space.obj_of(i),
            match r {
                Ok(p) => {
                    &&& old(ctx).space.has_obj(self.id)
                    &&& p.p == old(ctx).space.obj_of(self.id).alloc_top
                    &&& p.p < MAX_SIZE
                    &&& valid_off(p.p)
                    &&& final(ctx).space.obj_of(self.id).read_spec(p.p) == value
                    &&& final(ctx).space.obj_of(self.id).alloc_top == p.p + 8
                    &&& forall|o: u64| valid_off(o)
                        && crate::space::word_index(o) != crate::space::word_index(p.p)
                        ==> #[trigger] final(ctx).space.obj_of(self.id).read_spec(o)
                            == old(ctx).space.obj_of(self.id).read_spec(o)
                },
                Err(e) => {
                    &&& (e == TwzErr::Invalid ==> !old(ctx).space.has_obj(self.id))
                    &&& (e == TwzErr::OSError(12) ==> old(ctx).space.has_obj(self.id)
                        && old(ctx).space.obj_of(self.id).alloc_top + 8 > TOP_DATA)
                    &&& (e == TwzErr::Invalid || e == TwzErr::OSError(12))
                    &&& (old(ctx).space.has_obj(self.id)
                        ==> final(ctx).space.obj_of(self.id)
                            == old(ctx).space.obj_of(self.id))
                },
            },
    {
        let k = match ctx.space.find(self.id) {
            Some(k) => k,
            None => {
                return Err(TwzErr::Invalid);
            },
        };
        let ghost pre = ctx.space;
        let obj = &mut ctx.space.objects[k];
        let off = match obj.allocate(8) {
            Ok(off) => off,
            Err(e) => {
                proof {
                    assert(ctx.space.objects@
                        == pre.objects@.update(k as int, ctx.space.objects@[k as int]));
                    Space::lemma_space_update(pre, ctx.space, k as int);
                }
                return Err(e);
            },
        };
        obj.write_word(off, value);
        proof {
            assert(ctx.space.objects@
                == pre.objects@.update(k as int, ctx.space.objects@[k as int]));
            Space::lemma_space_update(pre, ctx.space, k as int);
            assert(off < MAX_SIZE);
        }
        Ok(Pptr::new(off))
    }

    /// Allocates a zero-initialised item under a transaction: a log record
    /// stating "about to own bytes via this pointer" is appended before
    /// anything links to the item, so a crash between the two leaves a
    /// detectable orphan rather than a leak.
    pub fn new_item(&self, ctx: &mut Context, tx: &crate::tx::Transaction)
        -> (r: Result<Pptr, crate::tx::TransactionErr<TwzErr>>)
        requires
            old(ctx).wf(),
            tx.leader == self.id,
            old(ctx).space.has_obj(self.id),
            crate::meta::first_ext(
                old(ctx).space.obj_of(self.id).exts@, crate::tx::TX_METAEXT) is Some,
            ({
                let off = crate::meta::first_ext(
                    old(ctx).space.obj_of(self.id).exts@, crate::tx::TX_METAEXT)->Some_0;
                &&& valid_off(off)
                &&& off + crate::tx::TX_RECORD_BYTES + crate::tx::TX_LOG_BYTES
                    + crate::tx::TX_RECORD_BYTES <= crate::space::TOP_DATA
                &&& old(ctx).space.obj_of(self.id).alloc_top
                    >= off + 16 + crate::tx::TX_LOG_BYTES
            }),
        ensures
            final(ctx).wf(),
            final(ctx).view == old(ctx).view,
            final(ctx).cache == old(ctx).cache,
            final(ctx).kernel == old(ctx).kernel,
            forall|i: ObjID| #[trigger] final(ctx).space.has_obj(i)
                == old(ctx).space.has_obj(i),
            forall|i: ObjID| old(ctx).space.has_obj(i) && i != self.id
                ==> #[trigger] final(ctx).space.obj_of(i) == old(ctx).space.obj_of(i),
            match r {
                Ok(p) => {
                    &&& p.p < MAX_SIZE
                    &&& valid_off(p.p)
                    &&& final(ctx).space.obj_of(self.id).read_spec(p.p) == 0
                    // the log's newest record owns the fresh item
                    &&& exists|rec: u64| valid_off(rec)
                        && #[trigger] final(ctx).space.obj_of(self.id).read_spec(rec) == p.p
                },
                Err(e) => {
                    let off = crate::meta::first_ext(
                        old(ctx).space.obj_of(self.id).exts@, crate::tx::TX_METAEXT)->Some_0;
                    let o = old(ctx).space.obj_of(self.id);
                    &&& ((e matches crate::tx::TransactionErr::LogFull) ==> {
                        &&& crate::tx::log_sane(o, off)
                        &&& crate::tx::log_top(o, off) + crate::tx::TX_RECORD_BYTES
                            > crate::tx::TX_LOG_BYTES
                        &&& final(ctx).space == old(ctx).space
                    })
                    &&& (e == crate::tx::TransactionErr::Abort(TwzErr::Invalid) ==> {
                        &&& !crate::tx::log_sane(o, off)
                        &&& final(ctx).space == old(ctx).space
                    })
                    &&& (e == crate::tx::TransactionErr::Abort(TwzErr::OSError(12)) ==> {
                        // the log record was appended before the allocation
                        // overflowed: a detectable orphan, never a leak
                        &&& o.alloc_top + 8 > TOP_DATA
                        &&& crate::tx::log_top(final(ctx).space.obj_of(self.id), off)
                            == crate::tx::log_top(o, off) + crate::tx::TX_RECORD_BYTES
                    })
                    &&& ((e matches crate::tx::TransactionErr::LogFull)
                        || e == crate::tx::TransactionErr::Abort(TwzErr::Invalid)
                        || e == crate::tx::TransactionErr::Abort(TwzErr::OSError(12)))
                },
            },
    {
        let rec = match tx.prep_alloc_free_on_fail(ctx, 0) {
            Ok(rec) => rec,
            Err(e) => {
                return Err(e);
            },
        };
        let p = match self.copy_item(ctx, 0) {
            Ok(p) => p,
            Err(e) => {
                return Err(crate::tx::TransactionErr::Abort(e));
            },
        };
        match self.write(ctx, rec, p.p) {
            Ok(_) => {},
            Err(e) => {
                return Err(crate::tx::TransactionErr::Abort(e));
            },
        }
        Ok(p)
    }

    /// Reads the payload word of this object at byte offset `off`.
    pub fn read(&self, ctx: &Context, off: u64) -> (r: Result<u64, TwzErr>)
        requires
            ctx.wf(),
            valid_off(off),
        ensures
            match r {
                Ok(v) => ctx.space.has_obj(self.id)
                    && v == ctx.space.obj_of(self.id).read_spec(off),
                Err(e) => e == TwzErr::Invalid && !ctx.space.has_obj(self.id),
            },
    {
        match ctx.space.find(self.id) {
            Some(k) => Ok(ctx.space.objects[k].read_word(off)),
            None => Err(TwzErr::Invalid),
        }
    }

    /// Writes the payload word of this object at byte offset `off`.
    pub fn write(&self, ctx: &mut Context, off: u64, val: u64) -> (r: Result<(), TwzErr>)
        requires
            old(ctx).wf(),
            valid_off(off),
        ensures
            final(ctx).wf(),
            final(ctx).view == old(ctx).view,
            final(ctx).cache == old(ctx).cache,
            final(ctx).kernel == old(ctx).kernel,
            match r {
                Ok(_) => {
                    &&& old(ctx).space.has_obj(self.id)
                    &&& final(ctx).space.has_obj(self.id)
                    &&& final(ctx).space.obj_of(self.id).read_spec(off) == val
                    &&& forall|o: u64| valid_off(o)
                        && crate::space::word_index(o) != crate::space::word_index(off)
                        ==> #[trigger] final(ctx).space.obj_of(self.id).read_spec(o)
                            == old(ctx).space.obj_of(self.id).read_spec(o)
                    &&& final(ctx).space.obj_of(self.id).fot
                        == old(ctx).space.obj_of(self.id).fot
                    &&& final(ctx).space.obj_of(self.id).exts
                        == old(ctx).space.obj_of(self.id).exts
                    &&& final(ctx).space.obj_of(self.id).meta
                        == old(ctx).space.obj_of(self.id).meta
                    &&& final(ctx).space.obj_of(self.id).alloc_top
                        == old(ctx).space.obj_of(self.id).alloc_top
                    &&& forall|i: ObjID| #[trigger] final(ctx).space.has_obj(i)
                        == old(ctx).space.has_obj(i)
                    &&& forall|i: ObjID| old(ctx).space.has_obj(i) && i != self.id
                        ==> #[trigger] final(ctx).space.obj_of(i)
                            == old(ctx).space.obj_of(i)
                },
                Err(e) => {
                    &&& e == TwzErr::Invalid
                    &&& !old(ctx).space.has_obj(self.id)
                    &&& final(ctx).space == old(ctx).space
                },
            },
    {
        let k = match ctx.space.find(self.id) {
            Some(k) => k,
            None => {
                return Err(TwzErr::Invalid);
            },
        };
        let ghost pre = ctx.space;
        let obj = &mut ctx.space.objects[k];
        obj.write_word(off, val);
        proof {
            assert(ctx.space.objects@ == pre.objects@.update(k as int, ctx.space.objects@[k as int]));
            Space::lemma_space_update(pre, ctx.space, k as int);
        }
        Ok(())
    }
}

} // verus!
