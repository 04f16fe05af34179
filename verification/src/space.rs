//! The object space: layout constants and the arena of in-memory objects.
//!
//! Every object occupies at most [`MAX_SIZE`] bytes: a reserved header page,
//! the typed payload, and — near the top of the range — the metadata block
//! and the foreign object table.  All `slot * MAX_SIZE + offset` address
//! arithmetic of the runtime goes through this module's typed accessors; the
//! objects themselves live in an arena keyed by object ID.

use vstd::prelude::*;
use crate::meta::{first_ext, lemma_first_ext_push, FotTarget, FOTEntry, MetaExt, MetaInfo, FOT_VALID};
use crate::objid::ObjID;
use crate::TwzErr;

verus! {

/// Maximum size of an object in bytes.
pub const MAX_SIZE: u64 = 0x4000_0000;

/// Size of the reserved header page at the bottom of every object.
pub const NULLPAGE_SIZE: u64 = 0x1000;

/// On-disk stride of one foreign-object-table entry in bytes.
pub const FOT_ENTRY_SIZE: u64 = 32;

/// Greatest number of foreign-object-table entries an object can hold: the
/// table and the metadata page share the top megabyte of the range.
pub const MAX_FOTE: u64 = 0x7f80;

/// First byte offset past the payload region: the metadata block and the
/// foreign object table sit above it.
pub const TOP_DATA: u64 = 0x3ff0_0000;


/// Number of payload words an object can hold: the region between the
/// header page and `TOP_DATA`, eight bytes to the word.
pub const DATA_WORDS: u64 = 0x07fd_fe00;

/// Whether `off` addresses a payload word: inside the payload region and
/// word-aligned.
pub open spec fn valid_off(off: u64) -> bool {
    &&& NULLPAGE_SIZE <= off < TOP_DATA
    &&& off % 8 == 0
}

/// The payload word index of byte offset `off`.
pub open spec fn word_index(off: u64) -> int {
    (off - NULLPAGE_SIZE) / 8
}

/// `len` rounded up to a whole number of words.
pub open spec fn round8(len: u64) -> int {
    len + ((8 - len % 8) % 8)
}

/// One object of the space: its identifier, metadata block, extension
/// list, foreign object table, payload words, and the bump cursor of its
/// internal allocator.  Payload words never written read as zero, as
/// freshly created object memory does.
pub struct ObjectMem {
    pub id: ObjID,
    pub meta: MetaInfo,
    pub exts: Vec<MetaExt>,
    pub fot: Vec<FOTEntry>,
    pub data: Vec<u64>,
    pub alloc_top: u64,
    pub freed_bytes: u64,
}

impl ObjectMem {
    /// Structural invariant: valid magic, the reserved FOT slot `0`, a
    /// bounded table whose use count tracks its length, live extension
    /// tags, and a word-aligned allocator cursor inside the payload.
    pub open spec fn wf(self) -> bool {
        &&& self.id != 0
        &&& self.meta.wf()
        &&& 1 <= self.fot@.len() <= MAX_FOTE
        &&& !self.fot@[0].spec_is_valid()
        &&& self.meta.fot_entries == self.fot@.len() - 1
        &&& forall|i: int| 0 <= i < self.exts@.len() ==> (#[trigger] self.exts@[i]).tag != 0
        &&& NULLPAGE_SIZE <= self.alloc_top <= TOP_DATA
        &&& self.alloc_top % 8 == 0
        &&& self.data@.len() <= DATA_WORDS
    }

    /// The payload word at index `w`; unwritten words read as zero.
    pub open spec fn word_at(self, w: int) -> u64 {
        if 0 <= w < self.data@.len() {
            self.data@[w]
        } else {
            0
        }
    }

    /// The payload word addressed by byte offset `off`.
    pub open spec fn read_spec(self, off: u64) -> u64 {
        self.word_at(word_index(off))
    }

    /// A freshly created object: empty payload, empty extension list, only
    /// the reserved FOT slot, allocator cursor at the bottom of the
    /// payload.
    pub fn new(id: ObjID, p_flags: u16, nonce: u128, kuid: ObjID) -> (r: ObjectMem)
        requires
            id != 0,
        ensures
            r.wf(),
            r.id == id,
            r.meta == MetaInfo::new(p_flags, nonce, kuid, 0),
            r.exts@ =~= Seq::<MetaExt>::empty(),
            r.fot@ =~= seq![FOTEntry::reserved()],
            r.alloc_top == NULLPAGE_SIZE,
            r.freed_bytes == 0,
            forall|off: u64| valid_off(off) ==> #[trigger] r.read_spec(off) == 0,
    {
        let mut fot: Vec<FOTEntry> = Vec::new();
        fot.push(FOTEntry::reserved());
        ObjectMem {
            id,
            meta: MetaInfo::new(p_flags, nonce, kuid, 0),
            exts: Vec::new(),
            fot,
            data: Vec::new(),
            alloc_top: NULLPAGE_SIZE,
            freed_bytes: 0,
        }
    }

    /// Reads the payload word at byte offset `off`.
    pub fn read_word(&self, off: u64) -> (r: u64)
        requires
            self.wf(),
            valid_off(off),
        ensures
            r == self.read_spec(off),
    {
        let idx = ((off - NULLPAGE_SIZE) / 8) as usize;
        if idx < self.data.len() {
            self.data[idx]
        } else {
            0
        }
    }

    /// Writes the payload word at byte offset `off`, materialising the
    /// zeroed words below it on first touch.
    pub fn write_word(&mut self, off: u64, val: u64)
        requires
            old(self).wf(),
            valid_off(off),
        ensures
            final(self).wf(),
            final(self).id == old(self).id,
            final(self).meta == old(self).meta,
            final(self).exts == old(self).exts,
            final(self).fot == old(self).fot,
            final(self).alloc_top == old(self).alloc_top,
            final(self).freed_bytes == old(self).freed_bytes,
            final(self).read_spec(off) == val,
            forall|o: u64| valid_off(o) && word_index(o) != word_index(off)
                ==> #[trigger] final(self).read_spec(o) == old(self).read_spec(o),
    {
        let idx = ((off - NULLPAGE_SIZE) / 8) as usize;
        proof {
            assert(idx < DATA_WORDS);
        }
        while self.data.len() <= idx
            invariant
                idx < DATA_WORDS,
                self.id == old(self).id,
                self.meta == old(self).meta,
                self.exts == old(self).exts,
                self.fot == old(self).fot,
                self.alloc_top == old(self).alloc_top,
                self.freed_bytes == old(self).freed_bytes,
                self.data@.len() <= DATA_WORDS,
                forall|w: int| #[trigger] self.word_at(w) == old(self).word_at(w),
            decreases idx + 1 - self.data.len(),
        {
            let ghost prev = *self;
            self.data.push(0);
            proof {
                assert forall|w: int| #[trigger] self.word_at(w) == prev.word_at(w) by {
                    if 0 <= w < self.data@.len() - 1 {
                        assert(self.data@[w] == prev.data@[w]);
                    } else if w == self.data@.len() - 1 {
                        assert(self.data@[w] == 0);
                    }
                }
            }
        }
        let ghost base = *self;
        self.data[idx] = val;
        proof {
            assert(idx as int == word_index(off));
            assert(self.data@ == base.data@.update(idx as int, val));
            assert forall|o: u64| valid_off(o) && word_index(o) != word_index(off)
                implies #[trigger] self.read_spec(o) == old(self).read_spec(o) by {
                assert(word_index(o) != idx as int);
                assert(base.word_at(word_index(o)) == old(self).word_at(word_index(o)));
            }
        }
    }

    /// Sets the allocator cursor, rounding up to a word boundary; done once
    /// right after creation, reserving the typed payload below the cursor.
    pub fn init_alloc(&mut self, off: u64)
        requires
            old(self).wf(),
            NULLPAGE_SIZE <= off,
            round8(off) <= TOP_DATA,
        ensures
            final(self).wf(),
            final(self).alloc_top == round8(off),
            *final(self) == (ObjectMem { alloc_top: final(self).alloc_top, ..*old(self) }),
    {
        self.alloc_top = off + ((8 - off % 8) % 8);
    }

    /// Bump-allocates `len` bytes of the payload, rounded up to whole
    /// words.  Fails exactly when the payload region cannot hold the
    /// request, leaving the object unchanged; this allocator does not
    /// reclaim, so freeing only accounts the bytes.
    pub fn allocate(&mut self, len: u64) -> (r: Result<u64, TwzErr>)
        requires
            old(self).wf(),
            0 < len <= MAX_SIZE,
        ensures
            final(self).wf(),
            match r {
                Ok(off) => {
                    &&& off == old(self).alloc_top
                    &&& valid_off(off)
                    &&& final(self).alloc_top == off + round8(len)
                    &&& *final(self) == (ObjectMem {
                        alloc_top: final(self).alloc_top, ..*old(self) })
                },
                Err(e) => {
                    &&& e == TwzErr::OSError(12)
                    &&& old(self).alloc_top + round8(len) > TOP_DATA
                    &&& *final(self) == *old(self)
                },
            },
    {
        let rlen = len + ((8 - len % 8) % 8);
        if rlen > TOP_DATA || self.alloc_top > TOP_DATA - rlen {
            return Err(TwzErr::OSError(12));
        }
        let off = self.alloc_top;
        self.alloc_top = off + rlen;
        Ok(off)
    }

    /// Accounts a freed allocation of `len` bytes; the bump allocator does
    /// not reuse the space.
    pub fn account_free(&mut self, len: u64)
        requires
            old(self).wf(),
        ensures
            final(self).wf(),
            len <= u64::MAX - 8 && old(self).freed_bytes + round8(len) <= u64::MAX
                ==> final(self).freed_bytes
                    == (old(self).freed_bytes + round8(len)) as u64,
            !(len <= u64::MAX - 8 && old(self).freed_bytes + round8(len) <= u64::MAX)
                ==> final(self).freed_bytes == old(self).freed_bytes,
            *final(self) == (ObjectMem { freed_bytes: final(self).freed_bytes, ..*old(self) }),
    {
        if len <= u64::MAX - 8 {
            let rounded = len + ((8 - len % 8) % 8);
            if self.freed_bytes <= u64::MAX - rounded {
                self.freed_bytes = self.freed_bytes + rounded;
            }
        }
    }

    /// Registers a live foreign-table entry for `target` in the first
    /// non-valid slot past the reserved index `0`, or in a fresh slot at
    /// the end.  Fails exactly when the table is at capacity with every
    /// entry live, leaving the object unchanged.
    pub fn add_fote(&mut self, target: ObjID, flags: u64) -> (r: Result<u64, TwzErr>)
        requires
            old(self).wf(),
            target != 0,
        ensures
            final(self).wf(),
            final(self).id == old(self).id,
            final(self).exts == old(self).exts,
            final(self).data == old(self).data,
            final(self).alloc_top == old(self).alloc_top,
            final(self).freed_bytes == old(self).freed_bytes,
            match r {
                Ok(idx) => {
                    &&& 1 <= idx < MAX_FOTE
                    &&& idx as int <= old(self).fot@.len()
                    &&& forall|k: int| 1 <= k < idx as int
                        ==> (#[trigger] old(self).fot@[k]).spec_is_valid()
                    &&& final(self).fot@.len() >= old(self).fot@.len()
                    &&& final(self).fot@[idx as int] == (FOTEntry {
                        target: FotTarget::Direct(target),
                        flags: flags | FOT_VALID,
                        info: 0,
                    })
                    &&& forall|i: int| 0 <= i < old(self).fot@.len() && i != idx as int
                        ==> #[trigger] final(self).fot@[i] == old(self).fot@[i]
                    &&& (idx as int) < old(self).fot@.len()
                        ==> !old(self).fot@[idx as int].spec_is_valid()
                            && final(self).fot@.len() == old(self).fot@.len()
                    &&& (idx as int) == old(self).fot@.len()
                        ==> final(self).fot@.len() == old(self).fot@.len() + 1
                },
                Err(e) => {
                    &&& e == TwzErr::OutOfSlots
                    &&& old(self).fot@.len() == MAX_FOTE
                    &&& forall|i: int| 1 <= i < old(self).fot@.len()
                        ==> (#[trigger] old(self).fot@[i]).spec_is_valid()
                    &&& *final(self) == *old(self)
                },
            },
    {
        let mut i: usize = 1;
        while i < self.fot.len()
            invariant
                *self == *old(self),
                self.wf(),
                1 <= i,
                forall|k: int| 1 <= k < i ==> (#[trigger] self.fot@[k]).spec_is_valid(),
            decreases self.fot@.len() - i,
        {
            if !self.fot[i].is_valid() {
                self.fot[i] = FOTEntry {
                    target: FotTarget::Direct(target),
                    flags: flags | FOT_VALID,
                    info: 0,
                };
                return Ok(i as u64);
            }
            i = i + 1;
        }
        if self.fot.len() >= MAX_FOTE as usize {
            return Err(TwzErr::OutOfSlots);
        }
        self.fot.push(FOTEntry {
            target: FotTarget::Direct(target),
            flags: flags | FOT_VALID,
            info: 0,
        });
        self.meta = MetaInfo {
            fot_entries: self.meta.fot_entries + 1,
            ..self.meta
        };
        Ok((self.fot.len() - 1) as u64)
    }

    /// Installs a foreign-table entry at a chosen index, growing the table
    /// with reserved slots as needed: how an object written by another
    /// party — a symbolic-name entry among others — enters the model.
    pub fn install_fote(&mut self, idx: u64, entry: FOTEntry) -> (r: Result<(), TwzErr>)
        requires
            old(self).wf(),
        ensures
            final(self).wf(),
            final(self).id == old(self).id,
            final(self).exts == old(self).exts,
            final(self).data == old(self).data,
            final(self).alloc_top == old(self).alloc_top,
            final(self).freed_bytes == old(self).freed_bytes,
            match r {
                Ok(_) => {
                    &&& 1 <= idx < MAX_FOTE
                    &&& final(self).fot@.len() >= old(self).fot@.len()
                    &&& final(self).fot@[idx as int] == entry
                    &&& forall|i: int| 0 <= i < old(self).fot@.len() && i != idx as int
                        ==> #[trigger] final(self).fot@[i] == old(self).fot@[i]
                },
                Err(e) => {
                    &&& e == TwzErr::Invalid
                    &&& !(1 <= idx < MAX_FOTE)
                    &&& *final(self) == *old(self)
                },
            },
    {
        if idx < 1 || idx >= MAX_FOTE {
            return Err(TwzErr::Invalid);
        }
        let idx = idx as usize;
        while self.fot.len() <= idx
            invariant
                idx < MAX_FOTE,
                self.id == old(self).id,
                self.meta.magic == old(self).meta.magic,
                self.exts == old(self).exts,
                self.data == old(self).data,
                self.alloc_top == old(self).alloc_top,
                self.freed_bytes == old(self).freed_bytes,
                1 <= old(self).fot@.len() <= self.fot@.len() <= MAX_FOTE,
                self.meta == (MetaInfo {
                    fot_entries: (self.fot@.len() - 1) as u32, ..old(self).meta }),
                forall|i: int| 0 <= i < old(self).fot@.len()
                    ==> #[trigger] self.fot@[i] == old(self).fot@[i],
                !self.fot@[0].spec_is_valid(),
            decreases idx + 1 - self.fot@.len(),
        {
            self.fot.push(FOTEntry::reserved());
            self.meta = MetaInfo {
                fot_entries: self.meta.fot_entries + 1,
                ..self.meta
            };
        }
        self.fot[idx] = entry;
        Ok(())
    }

    /// Reads the foreign-table entry at `idx`, if the table holds one.
    pub fn get_fote(&self, idx: u64) -> (r: Option<&FOTEntry>)
        requires
            self.wf(),
        ensures
            match r {
                Some(e) => idx < self.fot@.len() && *e == self.fot@[idx as int],
                None => idx >= self.fot@.len(),
            },
    {
        if idx < self.fot.len() as u64 {
            Some(&self.fot[idx as usize])
        } else {
            None
        }
    }

    /// Finds the first extension registered under `tag`, scanning the list
    /// in order as the zero-tag-terminated on-disk form is scanned.
    pub fn find_metaext(&self, tag: u64) -> (r: Option<u64>)
        requires
            self.wf(),
            tag != 0,
        ensures
            r == first_ext(self.exts@, tag),
    {
        proof {
            assert(self.exts@.skip(0) =~= self.exts@);
        }
        let mut i: usize = 0;
        while i < self.exts.len()
            invariant
                self.wf(),
                i <= self.exts@.len(),
                first_ext(self.exts@, tag) == first_ext(self.exts@.skip(i as int), tag),
            decreases self.exts@.len() - i,
        {
            let ghost pre = self.exts@.skip(i as int);
            if self.exts[i].tag == tag {
                proof {
                    assert(pre[0] == self.exts@[i as int]);
                }
                return Some(self.exts[i].off);
            }
            proof {
                assert(pre[0] == self.exts@[i as int]);
                assert(pre.drop_first() =~= self.exts@.skip(i + 1));
            }
            i = i + 1;
        }
        proof {
            assert(self.exts@.skip(i as int) =~= Seq::<MetaExt>::empty());
        }
        None
    }

    /// Appends a new extension block of `len` bytes under `tag`, its words
    /// zero-initialised as a default-valued record would be.  Fails exactly
    /// when the payload region cannot hold the block, leaving the object
    /// unchanged.
    pub fn alloc_metaext(&mut self, tag: u64, len: u64) -> (r: Result<u64, TwzErr>)
        requires
            old(self).wf(),
            tag != 0,
            0 < len <= MAX_SIZE,
        ensures
            final(self).wf(),
            final(self).id == old(self).id,
            final(self).fot == old(self).fot,
            final(self).meta == old(self).meta,
            final(self).freed_bytes == old(self).freed_bytes,
            match r {
                Ok(off) => {
                    &&& off == old(self).alloc_top
                    &&& valid_off(off)
                    &&& final(self).exts@ == old(self).exts@.push(MetaExt { tag, off })
                    &&& final(self).alloc_top == off + round8(len)
                    &&& (first_ext(old(self).exts@, tag) is None
                        ==> first_ext(final(self).exts@, tag) == Some(off))
                    &&& forall|t: u64| first_ext(old(self).exts@, t) is Some
                        ==> #[trigger] first_ext(final(self).exts@, t)
                            == first_ext(old(self).exts@, t)
                    &&& forall|w: u64| off <= w < off + round8(len) && valid_off(w)
                        ==> #[trigger] final(self).read_spec(w) == 0
                    &&& forall|w: u64| valid_off(w) && !(off <= w < off + round8(len))
                        ==> #[trigger] final(self).read_spec(w) == old(self).read_spec(w)
                },
                Err(e) => {
                    &&& e == TwzErr::OSError(12)
                    &&& old(self).alloc_top + round8(len) > TOP_DATA
                    &&& *final(self) == *old(self)
                },
            },
    {
        let off = match self.allocate(len) {
            Ok(off) => off,
            Err(e) => {
                return Err(e);
            },
        };
        let rlen = len + ((8 - len % 8) % 8);
        let ghost base = *self;
        let mut i: u64 = 0;
        while i < rlen / 8
            invariant
                self.wf(),
                self.id == base.id,
                self.meta == base.meta,
                self.exts == base.exts,
                self.fot == base.fot,
                self.alloc_top == base.alloc_top,
                self.freed_bytes == base.freed_bytes,
                i <= rlen / 8,
                rlen == round8(len),
                valid_off(off),
                off + rlen <= TOP_DATA,
                forall|w: u64| off <= w < off + 8 * i && valid_off(w)
                    ==> #[trigger] self.read_spec(w) == 0,
                forall|w: u64| valid_off(w) && !(off <= w < off + 8 * i)
                    ==> #[trigger] self.read_spec(w) == base.read_spec(w),
            decreases rlen / 8 - i,
        {
            let ghost snap = *self;
            self.write_word(off + 8 * i, 0);
            proof {
                assert forall|w: u64| off <= w < off + 8 * (i + 1) && valid_off(w)
                    implies #[trigger] self.read_spec(w) == 0 by {
                    if word_index(w) == word_index((off + 8 * i) as u64) {
                        assert(self.read_spec(w) == self.word_at(word_index(w)));
                    } else {
                        assert(self.read_spec(w) == snap.read_spec(w));
                        assert(w < off + 8 * i || w >= off + 8 * i + 8);
                    }
                }
                assert forall|w: u64| valid_off(w) && !(off <= w < off + 8 * (i + 1))
                    implies #[trigger] self.read_spec(w) == base.read_spec(w) by {
                    assert(word_index(w) != word_index((off + 8 * i) as u64));
                    assert(self.read_spec(w) == snap.read_spec(w));
                }
            }
            i = i + 1;
        }
        proof {
            assert(rlen % 8 == 0 && 8 * (rlen / 8) == rlen) by (nonlinear_arith)
                requires
                    rlen == len + ((8 - len % 8) % 8),
                    len > 0,
            ;
            assert(base.data == old(self).data);
            assert forall|w: u64| valid_off(w)
                implies #[trigger] base.read_spec(w) == old(self).read_spec(w) by {
                assert(base.word_at(word_index(w)) == old(self).word_at(word_index(w)));
            }
        }
        let ghost zeroed = *self;
        self.exts.push(MetaExt { tag, off });
        proof {
            assert forall|t: u64| first_ext(old(self).exts@, t) is Some
                implies #[trigger] first_ext(self.exts@, t)
                    == first_ext(old(self).exts@, t) by {
                lemma_first_ext_push(old(self).exts@, MetaExt { tag, off }, t);
            }
            lemma_first_ext_push(old(self).exts@, MetaExt { tag, off }, tag);
            assert(self.data == zeroed.data);
            assert forall|w: u64| off <= w < off + round8(len) && valid_off(w)
                implies #[trigger] self.read_spec(w) == 0 by {
                assert(zeroed.read_spec(w) == 0);
                assert(self.word_at(word_index(w)) == zeroed.word_at(word_index(w)));
            }
            assert forall|w: u64| valid_off(w) && !(off <= w < off + round8(len))
                implies #[trigger] self.read_spec(w) == old(self).read_spec(w) by {
                assert(zeroed.read_spec(w) == base.read_spec(w));
                assert(self.word_at(word_index(w)) == zeroed.word_at(word_index(w)));
            }
        }
        Ok(off)
    }
}

/// The arena of live objects, keyed by object ID with index-based access.
pub struct Space {
    pub objects: Vec<ObjectMem>,
}

impl Space {
    /// Every object is well-formed and IDs are unique and nonzero.
    pub open spec fn wf(self) -> bool {
        &&& forall|k: int| 0 <= k < self.objects@.len()
            ==> (#[trigger] self.objects@[k]).wf()
        &&& forall|k1: int, k2: int|
            0 <= k1 < self.objects@.len() && 0 <= k2 < self.objects@.len() && k1 != k2
            ==> #[trigger] self.objects@[k1].id != #[trigger] self.objects@[k2].id
    }

    /// Whether an object with identifier `id` exists.
    pub open spec fn has_obj(self, id: ObjID) -> bool {
        exists|k: int| 0 <= k < self.objects@.len()
            && (#[trigger] self.objects@[k]).id == id
    }

    /// The arena index of the object `id`.
    pub open spec fn index_of(self, id: ObjID) -> int {
        choose|k: int| 0 <= k < self.objects@.len()
            && (#[trigger] self.objects@[k]).id == id
    }

    /// The object `id`.
    pub open spec fn obj_of(self, id: ObjID) -> ObjectMem {
        self.objects@[self.index_of(id)]
    }


    /// Replacing one object of the arena with a well-formed object of the
    /// same identifier preserves the arena's invariant and leaves every
    /// other object, and the whole identifier map, as it was.
    pub proof fn lemma_space_update(pre: Space, post: Space, k: int)
        requires
            pre.wf(),
            0 <= k < pre.objects@.len(),
            post.objects@ == pre.objects@.update(k, post.objects@[k]),
            post.objects@.len() == pre.objects@.len(),
            post.objects@[k].wf(),
            post.objects@[k].id == pre.objects@[k].id,
        ensures
            post.wf(),
            forall|i: ObjID| #[trigger] post.has_obj(i) == pre.has_obj(i),
            forall|i: ObjID| pre.has_obj(i) ==> #[trigger] post.index_of(i) == pre.index_of(i),
            forall|i: ObjID| pre.has_obj(i) && i != pre.objects@[k].id
                ==> #[trigger] post.obj_of(i) == pre.obj_of(i),
            post.has_obj(pre.objects@[k].id),
            pre.has_obj(pre.objects@[k].id),
            post.index_of(pre.objects@[k].id) == k,
            post.obj_of(pre.objects@[k].id) == post.objects@[k],
    {
        assert forall|j: int| 0 <= j < post.objects@.len()
            implies (#[trigger] post.objects@[j]).id == pre.objects@[j].id
                && post.objects@[j].wf() by {
            if j != k {
                assert(post.objects@[j] == pre.objects@[j]);
            }
        }
        assert forall|i: ObjID| #[trigger] post.has_obj(i) == pre.has_obj(i) by {
            if pre.has_obj(i) {
                let j = pre.index_of(i);
                assert(0 <= j < pre.objects@.len() && pre.objects@[j].id == i);
                assert(post.objects@[j].id == i);
            }
            if post.has_obj(i) {
                let j = post.index_of(i);
                assert(0 <= j < post.objects@.len() && post.objects@[j].id == i);
                assert(pre.objects@[j].id == i);
            }
        }
        assert forall|i: ObjID| pre.has_obj(i)
            implies #[trigger] post.index_of(i) == pre.index_of(i) by {
            if pre.has_obj(i) {
                let j1 = pre.index_of(i);
                let j2 = post.index_of(i);
                assert(0 <= j1 < pre.objects@.len() && pre.objects@[j1].id == i);
                assert(post.has_obj(i));
                assert(0 <= j2 < post.objects@.len() && post.objects@[j2].id == i);
                assert(pre.objects@[j2].id == i);
                if j1 != j2 {
                    assert(false);
                }
            }
        }
        assert(pre.objects@[k].id == post.objects@[k].id);
        assert(post.has_obj(pre.objects@[k].id));
        let j = post.index_of(pre.objects@[k].id);
        assert(0 <= j < post.objects@.len() && post.objects@[j].id == pre.objects@[k].id);
        if j != k {
            assert(pre.objects@[j].id == pre.objects@[k].id);
            assert(false);
        }
    }

    /// An empty space.
    pub fn new() -> (r: Space)
        ensures
            r.wf(),
            r.objects@.len() == 0,
            forall|id: ObjID| !r.has_obj(id),
    {
        Space { objects: Vec::new() }
    }

    /// Finds the arena index of object `id`.
    pub fn find(&self, id: ObjID) -> (r: Option<usize>)
        requires
            self.wf(),
        ensures
            match r {
                Some(k) => self.has_obj(id) && k as int == self.index_of(id)
                    && k < self.objects@.len() && self.objects@[k as int].id == id,
                None => !self.has_obj(id),
            },
    {
        let mut k: usize = 0;
        while k < self.objects.len()
            invariant
                self.wf(),
                k <= self.objects@.len(),
                forall|k2: int| 0 <= k2 < k ==> (#[trigger] self.objects@[k2]).id != id,
            decreases self.objects@.len() - k,
        {
            if self.objects[k].id == id {
                proof {
                    let w = self.index_of(id);
                    assert(0 <= w < self.objects@.len() && self.objects@[w].id == id);
                    if w != k as int {
                        assert(false);
                    }
                }
                return Some(k);
            }
            k = k + 1;
        }
        None
    }

    /// Creates the backing storage of a fresh object.
    pub fn create_obj(&mut self, id: ObjID, p_flags: u16, nonce: u128, kuid: ObjID)
        requires
            old(self).wf(),
            id != 0,
            !old(self).has_obj(id),
        ensures
            final(self).wf(),
            final(self).has_obj(id),
            final(self).objects@ == old(self).objects@.push(
                final(self).obj_of(id)),
            final(self).obj_of(id) == (ObjectMem {
                id,
                meta: MetaInfo::new(p_flags, nonce, kuid, 0),
                exts: final(self).obj_of(id).exts,
                fot: final(self).obj_of(id).fot,
                data: final(self).obj_of(id).data,
                alloc_top: NULLPAGE_SIZE as u64,
                freed_bytes: 0,
            }),
            final(self).obj_of(id).exts@ =~= Seq::<MetaExt>::empty(),
            final(self).obj_of(id).fot@ =~= seq![FOTEntry::reserved()],
            forall|off: u64| valid_off(off)
                ==> #[trigger] final(self).obj_of(id).read_spec(off) == 0,
            forall|i: ObjID| i != id ==> final(self).has_obj(i) == old(self).has_obj(i),
            forall|i: ObjID| i != id && old(self).has_obj(i)
                ==> #[trigger] final(self).obj_of(i) == old(self).obj_of(i),
    {
        let o = ObjectMem::new(id, p_flags, nonce, kuid);
        self.objects.push(o);
        proof {
            let n = old(self).objects@.len() as int;
            assert(self.objects@[n].id == id);
            assert(self.has_obj(id));
            let w = self.index_of(id);
            assert(0 <= w < self.objects@.len() && self.objects@[w].id == id);
            assert forall|k1: int, k2: int|
                0 <= k1 < self.objects@.len() && 0 <= k2 < self.objects@.len() && k1 != k2
                implies #[trigger] self.objects@[k1].id != #[trigger] self.objects@[k2].id by {
                if k1 < n && k2 < n {
                    assert(old(self).objects@[k1].id != old(self).objects@[k2].id);
                } else if k1 == n && k2 < n {
                    if self.objects@[k2].id == id {
                        assert(old(self).has_obj(id));
                    }
                } else if k2 == n && k1 < n {
                    if self.objects@[k1].id == id {
                        assert(old(self).has_obj(id));
                    }
                }
            }
            if w != n {
                assert(old(self).objects@[w].id == id);
                assert(old(self).has_obj(id));
            }
            assert forall|i: ObjID| i != id
                implies #[trigger] final(self).has_obj(i) == old(self).has_obj(i) by {
                if old(self).has_obj(i) {
                    let k = old(self).index_of(i);
                    assert(0 <= k < old(self).objects@.len() && old(self).objects@[k].id == i);
                    assert(self.objects@[k].id == i);
                }
                if self.has_obj(i) {
                    let k = self.index_of(i);
                    assert(0 <= k < self.objects@.len() && self.objects@[k].id == i);
                    assert(k != n);
                    assert(old(self).objects@[k].id == i);
                }
            }
            assert forall|i: ObjID| i != id && old(self).has_obj(i)
                implies #[trigger] final(self).obj_of(i) == old(self).obj_of(i) by {
                let k1 = self.index_of(i);
                let k2 = old(self).index_of(i);
                assert(0 <= k2 < old(self).objects@.len() && old(self).objects@[k2].id == i);
                assert(self.objects@[k2].id == i);
                assert(0 <= k1 < self.objects@.len() && self.objects@[k1].id == i);
                assert(k1 != n);
                assert(old(self).objects@[k1].id == i);
                if k1 != k2 {
                    assert(false);
                }
            }
        }
    }
}

} // verus!
