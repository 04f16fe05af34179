//! Persistent slices: a length and an in-object offset naming a run of
//! payload words allocated inside an object.

use vstd::prelude::*;
use crate::context::Context;
use crate::objid::ObjID;
use crate::space::{valid_off, word_index, Space, DATA_WORDS, TOP_DATA};
use crate::twzobj::Twzobj;
use crate::TwzErr;

verus! {

/// A run of `len` payload words starting at byte offset `p` of its object.
#[derive(Clone, Copy, PartialEq, Eq, Structural, Debug)]
pub struct Pslice {
    pub len: u64,
    pub p: u64,
}

impl Pslice {
    /// The empty slice.
    pub fn empty() -> (r: Pslice)
        ensures
            r.len == 0,
            r.p == 0,
    {
        Pslice { len: 0, p: 0 }
    }

    /// Allocates a run inside `obj` and copies `data` into it, one word at
    /// a time.  Fails exactly when the object is missing or its payload
    /// cannot hold the run, leaving the object's words unchanged.
    pub fn from_slice(ctx: &mut Context, obj: &Twzobj, data: &Vec<u64>)
        -> (r: Result<Pslice, TwzErr>)
        requires
            old(ctx).wf(),
            0 < data@.len() <= DATA_WORDS,
        ensures
            final(ctx).wf(),
            final(ctx).view == old(ctx).view,
            final(ctx).cache == old(ctx).cache,
            final(ctx).kernel == old(ctx).kernel,
            forall|i: ObjID| #[trigger] final(ctx).space.has_obj(i)
                == old(ctx).space.has_obj(i),
            forall|i: ObjID| old(ctx).space.has_obj(i) && i != obj.id
                ==> #[trigger] final(ctx).space.obj_of(i) == old(ctx).space.obj_of(i),
            match r {
                Ok(s) => {
                    &&& s.len == data@.len()
                    &&& valid_off(s.p)
                    &&& old(ctx).space.has_obj(obj.id)
                    &&& s.p == old(ctx).space.obj_of(obj.id).alloc_top
                    &&& s.p + 8 * s.len <= TOP_DATA
                    &&& forall|i: int| 0 <= i < data@.len()
                        ==> #[trigger] final(ctx).space.obj_of(obj.id).read_spec(
                            (s.p + 8 * i) as u64) == data@[i]
                },
                Err(e) => {
                    &&& (e == TwzErr::Invalid ==> !old(ctx).space.has_obj(obj.id))
                    &&& (e == TwzErr::OSError(12) ==> old(ctx).space.has_obj(obj.id)
                        && old(ctx).space.obj_of(obj.id).alloc_top + 8 * data@.len()
                            > TOP_DATA)
                    &&& (e == TwzErr::Invalid || e == TwzErr::OSError(12))
                    &&& (old(ctx).space.has_obj(obj.id)
                        ==> final(ctx).space.obj_of(obj.id)
                            == old(ctx).space.obj_of(obj.id))
                },
            },
    {
        let k = match ctx.space.find(obj.id()) {
            Some(k) => k,
            None => {
                return Err(TwzErr::Invalid);
            },
        };
        let ghost pre = ctx.space;
        let off;
        {
            let o = &mut ctx.space.objects[k];
            off = match o.allocate(8 * data.len() as u64) {
                Ok(off) => off,
                Err(e) => {
                    proof {
                        assert(ctx.space.objects@ == pre.objects@.update(
                            k as int, ctx.space.objects@[k as int]));
                        Space::lemma_space_update(pre, ctx.space, k as int);
                    }
                    return Err(e);
                },
            };
            let mut i: usize = 0;
            while i < data.len()
                invariant
                    i <= data@.len(),
                    data@.len() <= DATA_WORDS,
                    o.wf(),
                    o.id == pre.objects@[k as int].id,
                    valid_off(off),
                    off + 8 * data@.len() <= TOP_DATA,
                    forall|j: int| 0 <= j < i
                        ==> #[trigger] o.read_spec((off + 8 * j) as u64) == data@[j],
                decreases data@.len() - i,
            {
                let ghost snap = *o;
                o.write_word(off + 8 * (i as u64), data[i]);
                proof {
                    assert forall|j: int| 0 <= j < i
                        implies #[trigger] o.read_spec((off + 8 * j) as u64) == data@[j] by {
                        assert(word_index((off + 8 * j) as u64)
                            != word_index((off + 8 * (i as int)) as u64));
                        assert(snap.read_spec((off + 8 * j) as u64) == data@[j]);
                    }
                }
                i = i + 1;
            }
        }
        proof {
            assert(ctx.space.objects@ == pre.objects@.update(
                k as int, ctx.space.objects@[k as int]));
            Space::lemma_space_update(pre, ctx.space, k as int);
        }
        Ok(Pslice { len: data.len() as u64, p: off })
    }

    /// Reads the run back as a vector of words; the empty slice reads back
    /// empty against any object.
    pub fn lea_slice(&self, ctx: &Context, obj: &Twzobj) -> (r: Result<Vec<u64>, TwzErr>)
        requires
            ctx.wf(),
            self.len == 0 || (valid_off(self.p) && self.p + 8 * self.len <= TOP_DATA),
        ensures
            match r {
                Ok(v) => {
                    &&& v@.len() == self.len
                    &&& self.len > 0 ==> ctx.space.has_obj(obj.id)
                        && forall|i: int| 0 <= i < self.len
                            ==> #[trigger] v@[i] == ctx.space.obj_of(obj.id).read_spec(
                                (self.p + 8 * i) as u64)
                },
                Err(e) => e == TwzErr::Invalid && !ctx.space.has_obj(obj.id)
                    && self.len > 0,
            },
    {
        if self.len == 0 {
            return Ok(Vec::new());
        }
        let k = match ctx.space.find(obj.id()) {
            Some(k) => k,
            None => {
                return Err(TwzErr::Invalid);
            },
        };
        let mut v: Vec<u64> = Vec::new();
        let mut i: u64 = 0;
        while i < self.len
            invariant
                i <= self.len,
                ctx.wf(),
                k < ctx.space.objects@.len(),
                ctx.space.has_obj(obj.id),
                k as int == ctx.space.index_of(obj.id),
                ctx.space.objects@[k as int].id == obj.id,
                valid_off(self.p),
                self.p + 8 * self.len <= TOP_DATA,
                v@.len() == i,
                forall|j: int| 0 <= j < i
                    ==> #[trigger] v@[j] == ctx.space.obj_of(obj.id).read_spec(
                        (self.p + 8 * j) as u64),
            decreases self.len - i,
        {
            let w = ctx.space.objects[k].read_word(self.p + 8 * i);
            v.push(w);
            i = i + 1;
        }
        Ok(v)
    }

    /// Frees the run, consuming the slice; the object's bump allocator
    /// only accounts the bytes, it does not reuse them.
    pub fn free_slice(self, ctx: &mut Context, obj: &Twzobj) -> (r: Result<(), TwzErr>)
        requires
            old(ctx).wf(),
            self.len <= 0x10000,
        ensures
            final(ctx).wf(),
            final(ctx).view == old(ctx).view,
            final(ctx).cache == old(ctx).cache,
            final(ctx).kernel == old(ctx).kernel,
            forall|i: ObjID| #[trigger] final(ctx).space.has_obj(i)
                == old(ctx).space.has_obj(i),
            forall|i: ObjID| old(ctx).space.has_obj(i) && i != obj.id
                ==> #[trigger] final(ctx).space.obj_of(i) == old(ctx).space.obj_of(i),
            match r {
                Ok(_) => old(ctx).space.has_obj(obj.id)
                    && final(ctx).space.obj_of(obj.id).data
                        == old(ctx).space.obj_of(obj.id).data,
                Err(e) => e == TwzErr::Invalid && !old(ctx).space.has_obj(obj.id),
            },
    {
        let k = match ctx.space.find(obj.id()) {
            Some(k) => k,
            None => {
                return Err(TwzErr::Invalid);
            },
        };
        let ghost pre = ctx.space;
        let o = &mut ctx.space.objects[k];
        o.account_free(8 * self.len);
        proof {
            assert(ctx.space.objects@ == pre.objects@.update(
                k as int, ctx.space.objects@[k as int]));
            Space::lemma_space_update(pre, ctx.space, k as int);
        }
        Ok(())
    }
}

} // verus!
