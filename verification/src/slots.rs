//! The per-context slot allocator.
//!
//! A [`SlotView`] maps (object ID, permission flags) pairs to virtual-address
//! slots with reference counting.  It owns a one-bit-per-slot bitmap of the
//! allocatable slot range, a fixed bucket array hashed by object ID, and a
//! preallocated overflow-chain array with 1-based next links; neither table
//! ever grows.  Exhaustion of either fixed structure is a capacity violation
//! reported as an error, never hidden by wrapping or by evicting a live
//! entry.

use vstd::prelude::*;
use vstd::map::*;
use crate::bits::{nth_bit, lemma_set_bit_sets, lemma_set_bit_preserves, lemma_clear_bit_clears, lemma_clear_bit_preserves, lemma_all_bits_set, lemma_full_byte_bit};
use crate::kernel::{InvalidateReq, Kernel};
use crate::objid::ObjID;
use crate::TwzErr;

verus! {

/// Total number of slots a view addresses.
pub const NR_VIEW_ENTRIES: usize = 0x20000;
/// Number of hash buckets in the slot table.
pub const NR_VIEW_BUCKETS: usize = 1024;
/// Bytes in the slot bitmap: one bit per slot.
pub const NR_BITMAP_BYTES: usize = 0x4000;

/// First slot of the allocatable sub-range.  The reserved range below holds
/// fixed control slots, such as the view's own backing object.
pub const TWZSLOT_ALLOC_START: u64 = 0x10010;
/// Last slot of the allocatable sub-range, inclusive.
pub const TWZSLOT_ALLOC_MAX: u64 = 0x19fff;
/// The fixed control slot holding the current view's backing object.
pub const TWZSLOT_CVIEW: u64 = 0x1fff0;

/// Per-slot kernel-visible entry flags.
pub const VIEW_READ: u32 = 0x4;
pub const VIEW_WRITE: u32 = 0x8;
pub const VIEW_EXEC: u32 = 0x10;
pub const VIEW_VALID: u32 = 0x1000;

/// Permission flags a mapping may request; they share the kernel-entry
/// encoding.
pub const PROT_READ: u32 = 0x4;
pub const PROT_WRITE: u32 = 0x8;
pub const PROT_EXEC: u32 = 0x10;

/// One cell of the hash table: either a bucket-array head or an
/// overflow-chain cell.  `id == 0` marks an empty cell.  `chain` is a
/// 1-based link into the chain array; `0` ends the list.  `refcount` counts
/// the live reservations of this mapping.
#[derive(Clone, Copy, PartialEq, Eq, Structural, Debug)]
pub struct ViewBucket {
    pub id: ObjID,
    pub slot: u32,
    pub flags: u32,
    pub chain: u32,
    pub refcount: u32,
}

/// One kernel-visible slot entry: the mapped object's ID, the entry flags
/// (validity and protection), and a pin count of short-lived holds.
#[derive(Clone, Copy, PartialEq, Eq, Structural, Debug)]
pub struct ViewEntry {
    pub id: ObjID,
    pub flags: u32,
    pub pin: u32,
}

/// The hash bucket an ID belongs to.
pub open spec fn bucket_index(id: ObjID) -> int {
    (id % (NR_VIEW_BUCKETS as u128)) as int
}

/// Whether bit `s` of the slot bitmap is set.
pub open spec fn slot_bit(bm: Seq<u8>, s: int) -> bool
    recommends
        0 <= s < 8 * bm.len(),
{
    nth_bit(bm[s / 8], (s % 8) as u8)
}

/// The per-context slot allocator.
///
/// The ghost `paths` field records, for every bucket, the sequence of chain
/// positions linked behind the bucket head, in list order; it ties the
/// 1-based links of the concrete arrays to a mathematical list structure.
pub struct SlotView {
    pub bitmap: Vec<u8>,
    pub buckets: Vec<ViewBucket>,
    pub chain: Vec<ViewBucket>,
    pub chain_top: usize,
    pub entries: Vec<ViewEntry>,
    pub id: ObjID,
    pub paths: Ghost<Seq<Seq<int>>>,
}

impl SlotView {
    /// Number of cells in bucket `h`'s list, head included.
    pub open spec fn list_len(self, h: int) -> int {
        1 + self.paths@[h].len() as int
    }

    /// The `j`-th cell of bucket `h`'s list: the bucket head for `j == 0`,
    /// then the chain cells named by `paths`.
    pub open spec fn cell(self, h: int, j: int) -> ViewBucket {
        if j == 0 {
            self.buckets@[h]
        } else {
            self.chain@[self.paths@[h][j - 1]]
        }
    }

    /// Fixed array lengths.
    pub open spec fn wf_lens(self) -> bool {
        &&& self.buckets@.len() == NR_VIEW_BUCKETS
        &&& self.chain@.len() == NR_VIEW_ENTRIES
        &&& self.bitmap@.len() == NR_BITMAP_BYTES
        &&& self.entries@.len() == NR_VIEW_ENTRIES
        &&& self.paths@.len() == NR_VIEW_BUCKETS
        &&& self.chain_top <= NR_VIEW_ENTRIES
    }

    /// Chain positions are allocated below `chain_top` and no position
    /// belongs to two lists or appears twice.
    pub open spec fn wf_paths(self) -> bool {
        &&& forall|h: int, j: int|
            0 <= h < NR_VIEW_BUCKETS && 0 <= j < self.paths@[h].len()
                ==> 0 <= #[trigger] self.paths@[h][j] < self.chain_top
        &&& forall|h1: int, j1: int, h2: int, j2: int|
            0 <= h1 < NR_VIEW_BUCKETS && 0 <= j1 < self.paths@[h1].len()
                && 0 <= h2 < NR_VIEW_BUCKETS && 0 <= j2 < self.paths@[h2].len()
                && (h1 != h2 || j1 != j2)
                ==> #[trigger] self.paths@[h1][j1] != #[trigger] self.paths@[h2][j2]
    }

    /// The concrete 1-based links spell out exactly the ghost lists.
    pub open spec fn wf_links(self) -> bool {
        forall|h: int| 0 <= h < NR_VIEW_BUCKETS ==> {
            let p = #[trigger] self.paths@[h];
            &&& self.buckets@[h].chain as int == (if p.len() == 0 { 0int } else { p[0] + 1 })
            &&& forall|j: int| 0 <= j < p.len()
                ==> (#[trigger] self.chain@[p[j]].chain) as int
                    == (if j + 1 < p.len() { p[j + 1] + 1 } else { 0int })
        }
    }

    /// Chain cells at or above `chain_top` were never linked into a list.
    pub open spec fn wf_unused(self) -> bool {
        forall|p: int| self.chain_top <= p < NR_VIEW_ENTRIES
            ==> (#[trigger] self.chain@[p]).chain == 0 && self.chain@[p].id == 0
    }

    /// Whether the `j`-th cell of bucket `h`'s list holds a live mapping.
    pub open spec fn occ(self, h: int, j: int) -> bool {
        0 <= j < self.list_len(h) && self.cell(h, j).id != 0
    }

    /// Every live cell hashes to its own bucket, owns a slot of the
    /// allocatable range whose bitmap bit is set, and counts at least one
    /// reference.
    pub open spec fn wf_cells(self) -> bool {
        forall|h: int, j: int| 0 <= h < NR_VIEW_BUCKETS && #[trigger] self.occ(h, j) ==> {
            let c = self.cell(h, j);
            &&& bucket_index(c.id) == h
            &&& TWZSLOT_ALLOC_START <= c.slot <= TWZSLOT_ALLOC_MAX
            &&& slot_bit(self.bitmap@, c.slot as int)
            &&& c.refcount >= 1
        }
    }

    /// No key and no slot is held by two live cells.
    pub open spec fn wf_unique(self) -> bool {
        forall|h1: int, j1: int, h2: int, j2: int|
            0 <= h1 < NR_VIEW_BUCKETS && 0 <= h2 < NR_VIEW_BUCKETS
                && #[trigger] self.occ(h1, j1) && #[trigger] self.occ(h2, j2)
                && (h1 != h2 || j1 != j2)
                ==> {
                    &&& !(self.cell(h1, j1).id == self.cell(h2, j2).id
                        && self.cell(h1, j1).flags == self.cell(h2, j2).flags)
                    &&& self.cell(h1, j1).slot != self.cell(h2, j2).slot
                }
    }

    /// The view's structural invariant.
    pub open spec fn wf(self) -> bool {
        &&& self.wf_lens()
        &&& self.wf_paths()
        &&& self.wf_links()
        &&& self.wf_unused()
        &&& self.wf_cells()
        &&& self.wf_unique()
    }

    /// Whether `(id, flags)` is currently mapped.
    pub open spec fn has_key(self, id: ObjID, flags: u32) -> bool {
        exists|j: int| #[trigger] self.occ(bucket_index(id), j)
            && self.cell(bucket_index(id), j).id == id
            && self.cell(bucket_index(id), j).flags == flags
    }

    /// List position of the cell holding `(id, flags)`; by `wf_unique` there
    /// is at most one.
    pub open spec fn key_at(self, id: ObjID, flags: u32) -> int {
        choose|j: int| #[trigger] self.occ(bucket_index(id), j)
            && self.cell(bucket_index(id), j).id == id
            && self.cell(bucket_index(id), j).flags == flags
    }

    /// The slot mapped for `(id, flags)`.
    pub open spec fn slot_of(self, id: ObjID, flags: u32) -> u64 {
        self.cell(bucket_index(id), self.key_at(id, flags)).slot as u64
    }

    /// The live reference count of `(id, flags)`.
    pub open spec fn refcount_of(self, id: ObjID, flags: u32) -> u32 {
        self.cell(bucket_index(id), self.key_at(id, flags)).refcount
    }

    /// The mapping table as a mathematical map from keys to (slot,
    /// refcount).
    pub open spec fn as_map(self) -> Map<(ObjID, u32), (u64, u32)> {
        Map::new(
            |k: (ObjID, u32)| self.has_key(k.0, k.1),
            |k: (ObjID, u32)| (self.slot_of(k.0, k.1), self.refcount_of(k.0, k.1)),
        )
    }

    /// Whether slot `s` is marked used in the bitmap.
    pub open spec fn slot_used(self, s: int) -> bool {
        slot_bit(self.bitmap@, s)
    }

    /// The used slots of the allocatable range, as a set.
    pub open spec fn used_set(self) -> Set<int> {
        Set::new(|s: int| TWZSLOT_ALLOC_START <= s <= TWZSLOT_ALLOC_MAX && self.slot_used(s))
    }

    /// Whether `s` is the lowest free slot of the allocatable range.
    pub open spec fn is_first_free(self, s: int) -> bool {
        &&& TWZSLOT_ALLOC_START <= s <= TWZSLOT_ALLOC_MAX
        &&& !self.slot_used(s)
        &&& forall|t: int| TWZSLOT_ALLOC_START <= t < s ==> self.slot_used(t)
    }

    /// Whether the allocatable range is exhausted.
    pub open spec fn slots_full(self) -> bool {
        forall|t: int| TWZSLOT_ALLOC_START <= t <= TWZSLOT_ALLOC_MAX ==> self.slot_used(t)
    }


    /// A view whose hash arrays, lists, and chain cursor are unchanged, and
    /// whose bitmap still covers every live cell, keeps its invariant and
    /// its whole mapping abstraction.
    pub proof fn lemma_table_frame(pre: SlotView, post: SlotView)
        requires
            pre.wf(),
            post.buckets == pre.buckets,
            post.chain == pre.chain,
            post.paths == pre.paths,
            post.chain_top == pre.chain_top,
            post.bitmap@.len() == pre.bitmap@.len(),
            post.entries@.len() == pre.entries@.len(),
            forall|h: int, j: int| 0 <= h < NR_VIEW_BUCKETS && #[trigger] post.occ(h, j)
                ==> slot_bit(post.bitmap@, post.cell(h, j).slot as int),
        ensures
            post.wf(),
            forall|i: ObjID, f: u32| #[trigger] post.has_key(i, f) == pre.has_key(i, f),
            forall|i: ObjID, f: u32|
                #![trigger post.slot_of(i, f)]
                #![trigger post.refcount_of(i, f)]
                pre.has_key(i, f)
                ==> post.slot_of(i, f) == pre.slot_of(i, f)
                    && post.refcount_of(i, f) == pre.refcount_of(i, f),
            post.as_map() == pre.as_map(),
    {
        assert forall|h: int, j: int| #[trigger] post.occ(h, j) == pre.occ(h, j) by {
            assert(post.paths@ == pre.paths@);
            assert(post.cell(h, j) == pre.cell(h, j));
        }
        assert forall|h: int, j: int|
            0 <= h < NR_VIEW_BUCKETS && 0 <= j < post.paths@[h].len()
            implies 0 <= #[trigger] post.paths@[h][j] < post.chain_top by {
            assert(post.paths@[h][j] == pre.paths@[h][j]);
        }
        assert forall|h1: int, j1: int, h2: int, j2: int|
            0 <= h1 < NR_VIEW_BUCKETS && 0 <= j1 < post.paths@[h1].len()
                && 0 <= h2 < NR_VIEW_BUCKETS && 0 <= j2 < post.paths@[h2].len()
                && (h1 != h2 || j1 != j2)
            implies #[trigger] post.paths@[h1][j1] != #[trigger] post.paths@[h2][j2] by {
            assert(post.paths@[h1][j1] == pre.paths@[h1][j1]);
            assert(post.paths@[h2][j2] == pre.paths@[h2][j2]);
        }
        assert forall|h: int| 0 <= h < NR_VIEW_BUCKETS implies ({
            let p = #[trigger] post.paths@[h];
            &&& post.buckets@[h].chain as int == (if p.len() == 0 { 0int } else { p[0] + 1 })
            &&& forall|j: int| 0 <= j < p.len()
                ==> (#[trigger] post.chain@[p[j]].chain) as int
                    == (if j + 1 < p.len() { p[j + 1] + 1 } else { 0int })
        }) by {
            let p = post.paths@[h];
            assert(p == pre.paths@[h]);
            assert forall|j: int| 0 <= j < p.len()
                implies (#[trigger] post.chain@[p[j]].chain) as int
                    == (if j + 1 < p.len() { p[j + 1] + 1 } else { 0int }) by {
                assert(pre.chain@[pre.paths@[h][j]].chain == post.chain@[p[j]].chain);
            }
        }
        assert forall|p: int| post.chain_top <= p < NR_VIEW_ENTRIES
            implies (#[trigger] post.chain@[p]).chain == 0 && post.chain@[p].id == 0 by {
            assert(post.chain@[p] == pre.chain@[p]);
        }
        assert forall|h: int, j: int| 0 <= h < NR_VIEW_BUCKETS && #[trigger] post.occ(h, j)
            implies ({
                let c = post.cell(h, j);
                &&& bucket_index(c.id) == h
                &&& TWZSLOT_ALLOC_START <= c.slot <= TWZSLOT_ALLOC_MAX
                &&& slot_bit(post.bitmap@, c.slot as int)
                &&& c.refcount >= 1
            }) by {
            assert(pre.occ(h, j));
            assert(post.cell(h, j) == pre.cell(h, j));
        }
        assert forall|h1: int, j1: int, h2: int, j2: int|
            0 <= h1 < NR_VIEW_BUCKETS && 0 <= h2 < NR_VIEW_BUCKETS
                && #[trigger] post.occ(h1, j1) && #[trigger] post.occ(h2, j2)
                && (h1 != h2 || j1 != j2)
            implies ({
                &&& !(post.cell(h1, j1).id == post.cell(h2, j2).id
                    && post.cell(h1, j1).flags == post.cell(h2, j2).flags)
                &&& post.cell(h1, j1).slot != post.cell(h2, j2).slot
            }) by {
            assert(pre.occ(h1, j1));
            assert(pre.occ(h2, j2));
            assert(post.cell(h1, j1) == pre.cell(h1, j1));
            assert(post.cell(h2, j2) == pre.cell(h2, j2));
        }
        assert forall|i: ObjID, f: u32| #[trigger] post.has_key(i, f) == pre.has_key(i, f) by {
            let h = bucket_index(i);
            if pre.has_key(i, f) {
                let j = choose|j: int| #[trigger] pre.occ(h, j)
                    && pre.cell(h, j).id == i && pre.cell(h, j).flags == f;
                assert(post.occ(h, j) && post.cell(h, j).id == i && post.cell(h, j).flags == f);
            }
            if post.has_key(i, f) {
                let j = choose|j: int| #[trigger] post.occ(h, j)
                    && post.cell(h, j).id == i && post.cell(h, j).flags == f;
                assert(pre.occ(h, j) && pre.cell(h, j).id == i && pre.cell(h, j).flags == f);
            }
        }
        assert forall|i: ObjID, f: u32|
            #![trigger post.slot_of(i, f)]
            #![trigger post.refcount_of(i, f)]
            pre.has_key(i, f)
            implies post.slot_of(i, f) == pre.slot_of(i, f)
                && post.refcount_of(i, f) == pre.refcount_of(i, f) by {
            let h = bucket_index(i);
            assert(post.has_key(i, f));
            let j1 = post.key_at(i, f);
            let j2 = pre.key_at(i, f);
            assert(post.occ(h, j1) && post.cell(h, j1).id == i && post.cell(h, j1).flags == f);
            assert(pre.occ(h, j2) && pre.cell(h, j2).id == i && pre.cell(h, j2).flags == f);
            assert(pre.occ(h, j1));
            assert(post.cell(h, j1) == pre.cell(h, j1));
            if j1 != j2 {
                assert(bucket_index(pre.cell(h, j1).id) == h);
                assert(false);
            }
        }
        assert(post.as_map() =~= pre.as_map());
    }

    /// A fresh, empty view backed by the object `id`.
    pub fn new(id: ObjID) -> (r: SlotView)
        ensures
            r.wf(),
            r.id == id,
            r.chain_top == 0,
            forall|i: ObjID, f: u32| !r.has_key(i, f),
            forall|s: int| 0 <= s < 8 * NR_BITMAP_BYTES ==> !r.slot_used(s),
            forall|s: int| 0 <= s < NR_VIEW_ENTRIES
                ==> (#[trigger] r.entries@[s]) == (ViewEntry { id: 0, flags: 0, pin: 0 }),
            r.as_map() =~= Map::<(ObjID, u32), (u64, u32)>::empty(),
    {
        let empty_bucket = ViewBucket { id: 0, slot: 0, flags: 0, chain: 0, refcount: 0 };
        let empty_entry = ViewEntry { id: 0, flags: 0, pin: 0 };
        let mut bitmap: Vec<u8> = Vec::new();
        while bitmap.len() < NR_BITMAP_BYTES
            invariant
                bitmap@.len() <= NR_BITMAP_BYTES,
                forall|i: int| 0 <= i < bitmap@.len() ==> bitmap@[i] == 0u8,
            decreases NR_BITMAP_BYTES - bitmap@.len(),
        {
            bitmap.push(0u8);
        }
        let mut buckets: Vec<ViewBucket> = Vec::new();
        while buckets.len() < NR_VIEW_BUCKETS
            invariant
                buckets@.len() <= NR_VIEW_BUCKETS,
                forall|i: int| 0 <= i < buckets@.len() ==> buckets@[i] == empty_bucket,
            decreases NR_VIEW_BUCKETS - buckets@.len(),
        {
            buckets.push(empty_bucket);
        }
        let mut chain: Vec<ViewBucket> = Vec::new();
        while chain.len() < NR_VIEW_ENTRIES
            invariant
                chain@.len() <= NR_VIEW_ENTRIES,
                forall|i: int| 0 <= i < chain@.len() ==> chain@[i] == empty_bucket,
            decreases NR_VIEW_ENTRIES - chain@.len(),
        {
            chain.push(empty_bucket);
        }
        let mut entries: Vec<ViewEntry> = Vec::new();
        while entries.len() < NR_VIEW_ENTRIES
            invariant
                entries@.len() <= NR_VIEW_ENTRIES,
                forall|i: int| 0 <= i < entries@.len() ==> entries@[i] == empty_entry,
            decreases NR_VIEW_ENTRIES - entries@.len(),
        {
            entries.push(empty_entry);
        }
        let r = SlotView {
            bitmap,
            buckets,
            chain,
            chain_top: 0,
            entries,
            id,
            paths: Ghost(Seq::new(NR_VIEW_BUCKETS as nat, |h: int| Seq::<int>::empty())),
        };
        proof {
            assert forall|s: int| 0 <= s < 8 * NR_BITMAP_BYTES implies !r.slot_used(s) by {
                assert(r.bitmap@[s / 8] == 0u8);
                assert(0u8 & (1u8 << ((s % 8) as u8)) == 0) by (bit_vector);
            }
            assert forall|i: ObjID, f: u32| !r.has_key(i, f) by {
                assert forall|j: int| !r.occ(bucket_index(i), j) by {
                    if 0 <= j < r.list_len(bucket_index(i)) {
                        assert(j == 0);
                    }
                }
            }
            assert(r.as_map() =~= Map::<(ObjID, u32), (u64, u32)>::empty());
        }
        r
    }


    /// Where the cell holding `(id, flags)` sits: in the bucket array when
    /// the key occupies its list's head, else in the chain array.
    pub open spec fn loc_ok(self, id: ObjID, flags: u32, first: bool, idx: int) -> bool {
        let h = bucket_index(id);
        let j = self.key_at(id, flags);
        &&& first == (j == 0)
        &&& idx == (if j == 0 { h } else { self.paths@[h][j - 1] })
    }

    /// Walks the hash list of `id`'s bucket for the cell holding
    /// `(id, flags)`.  Returns its location — `true` with a bucket index
    /// for a head cell, `false` with a chain index — or `None` when the
    /// key is not mapped.
    pub fn lookup_bucket(&self, id: ObjID, flags: u32) -> (r: Option<(bool, usize)>)
        requires
            self.wf(),
            id != 0,
        ensures
            match r {
                Some(l) => self.has_key(id, flags) && self.loc_ok(id, flags, l.0, l.1 as int),
                None => !self.has_key(id, flags),
            },
    {
        let h = (id % (NR_VIEW_BUCKETS as u128)) as usize;
        let ghost hh = h as int;
        let mut first = true;
        let mut i = h;
        let ghost mut j: int = 0;
        loop
            invariant
                self.wf(),
                id != 0,
                hh == bucket_index(id),
                h == hh,
                h < NR_VIEW_BUCKETS,
                0 <= j < self.list_len(hh),
                first ==> j == 0 && i == h,
                !first ==> 1 <= j && i as int == self.paths@[hh][j - 1] && i < NR_VIEW_ENTRIES,
                forall|jj: int| 0 <= jj < j
                    ==> !((#[trigger] self.cell(hh, jj)).id == id && self.cell(hh, jj).flags == flags),
            decreases self.list_len(hh) - j,
        {
            let cell = if first { self.buckets[i] } else { self.chain[i] };
            proof {
                assert(cell == self.cell(hh, j));
            }
            if cell.id == id && cell.flags == flags {
                proof {
                    assert(self.occ(hh, j));
                    assert(self.has_key(id, flags));
                    let k = self.key_at(id, flags);
                    assert(self.occ(hh, k) && self.cell(hh, k).id == id
                        && self.cell(hh, k).flags == flags);
                    if k != j {
                        assert(false);
                    }
                }
                return Some((first, i));
            }
            let c = cell.chain;
            if c == 0 {
                proof {
                    if j + 1 < self.list_len(hh) {
                        assert(self.paths@[hh][j] >= 0);
                        assert(false);
                    }
                    if self.has_key(id, flags) {
                        let k = self.key_at(id, flags);
                        assert(self.occ(hh, k) && self.cell(hh, k).id == id
                            && self.cell(hh, k).flags == flags);
                        assert(false);
                    }
                }
                return None;
            }
            proof {
                if j + 1 >= self.list_len(hh) {
                    assert(false);
                }
                assert(c as int == self.paths@[hh][j] + 1);
            }
            i = (c - 1) as usize;
            first = false;
            proof {
                j = j + 1;
            }
        }
    }


    /// After replacing the cell at list position `(h0, j0)` with `nc` —
    /// keeping its chain link — every other cell, every list, and the link
    /// structure read unchanged.
    pub proof fn lemma_one_cell_changed(pre: SlotView, post: SlotView, h0: int, j0: int, nc: ViewBucket)
        requires
            pre.wf(),
            0 <= h0 < NR_VIEW_BUCKETS,
            0 <= j0 < pre.list_len(h0),
            post.paths == pre.paths,
            post.chain_top == pre.chain_top,
            post.bitmap == pre.bitmap,
            post.entries == pre.entries,
            post.id == pre.id,
            nc.chain == pre.cell(h0, j0).chain,
            j0 == 0 ==> post.buckets@ == pre.buckets@.update(h0, nc) && post.chain == pre.chain,
            j0 != 0 ==> post.chain@ == pre.chain@.update(pre.paths@[h0][j0 - 1], nc)
                && post.buckets == pre.buckets,
        ensures
            post.wf_lens(),
            post.wf_paths(),
            post.wf_links(),
            post.wf_unused(),
            post.cell(h0, j0) == nc,
            forall|h: int, j: int|
                0 <= h < NR_VIEW_BUCKETS && 0 <= j < pre.list_len(h) && (h != h0 || j != j0)
                ==> #[trigger] post.cell(h, j) == pre.cell(h, j),
            forall|h: int| #[trigger] post.list_len(h) == pre.list_len(h),
    {
        assert forall|h: int, j: int|
            0 <= h < NR_VIEW_BUCKETS && 0 <= j < pre.list_len(h) && (h != h0 || j != j0)
            implies #[trigger] post.cell(h, j) == pre.cell(h, j) by {
            if j0 == 0 {
                if j != 0 {
                    assert(post.cell(h, j) == post.chain@[post.paths@[h][j - 1]]);
                }
            } else {
                let pos0 = pre.paths@[h0][j0 - 1];
                assert(0 <= pos0 < pre.chain_top);
                if j != 0 {
                    if 0 <= h && 0 <= j - 1 < pre.paths@[h].len() {
                        assert(pre.paths@[h][j - 1] != pos0);
                    }
                }
            }
        }
        assert forall|h: int, j: int|
            0 <= h < NR_VIEW_BUCKETS && 0 <= j < post.paths@[h].len()
            implies 0 <= #[trigger] post.paths@[h][j] < post.chain_top by {
            assert(post.paths@[h][j] == pre.paths@[h][j]);
        }
        assert forall|h1: int, j1: int, h2: int, j2: int|
            0 <= h1 < NR_VIEW_BUCKETS && 0 <= j1 < post.paths@[h1].len()
                && 0 <= h2 < NR_VIEW_BUCKETS && 0 <= j2 < post.paths@[h2].len()
                && (h1 != h2 || j1 != j2)
            implies #[trigger] post.paths@[h1][j1] != #[trigger] post.paths@[h2][j2] by {
            assert(post.paths@[h1][j1] == pre.paths@[h1][j1]);
            assert(post.paths@[h2][j2] == pre.paths@[h2][j2]);
        }
        assert forall|h: int| 0 <= h < NR_VIEW_BUCKETS implies ({
            let pth = #[trigger] post.paths@[h];
            &&& post.buckets@[h].chain as int == (if pth.len() == 0 { 0int } else { pth[0] + 1 })
            &&& forall|j: int| 0 <= j < pth.len()
                ==> (#[trigger] post.chain@[pth[j]].chain) as int
                    == (if j + 1 < pth.len() { pth[j + 1] + 1 } else { 0int })
        }) by {
            let pth = post.paths@[h];
            assert(pth == pre.paths@[h]);
            assert(post.cell(h, 0).chain == pre.cell(h, 0).chain);
            assert(post.buckets@[h].chain == pre.buckets@[h].chain);
            assert forall|j: int| 0 <= j < pth.len()
                implies (#[trigger] post.chain@[pth[j]].chain) as int
                    == (if j + 1 < pth.len() { pth[j + 1] + 1 } else { 0int }) by {
                assert(post.cell(h, j + 1).chain == pre.cell(h, j + 1).chain);
                assert(post.chain@[pth[j]] == post.cell(h, j + 1));
                assert(pre.chain@[pre.paths@[h][j]].chain as int
                    == (if j + 1 < pre.paths@[h].len() { pre.paths@[h][j + 1] + 1 } else { 0int }));
            }
        }
        assert forall|q: int| post.chain_top <= q < NR_VIEW_ENTRIES
            implies (#[trigger] post.chain@[q]).chain == 0 && post.chain@[q].id == 0 by {
            if j0 != 0 {
                assert(0 <= pre.paths@[h0][j0 - 1] < pre.chain_top);
                assert(post.chain@[q] == pre.chain@[q]);
            }
        }
    }


    /// Whether two cells carry the same mapping content (the chain link may
    /// differ).
    pub open spec fn content_eq(a: ViewBucket, b: ViewBucket) -> bool {
        &&& a.id == b.id
        &&& a.slot == b.slot
        &&& a.flags == b.flags
        &&& a.refcount == b.refcount
    }

    /// Installing `(id, flags) -> slot` into one previously-empty cell — all
    /// other cells keeping their content — adds exactly that key to the
    /// mapping abstraction.
    #[verifier::rlimit(60)]
    pub proof fn lemma_key_installed(pre: SlotView, post: SlotView, id: ObjID, flags: u32, slot: u32, h0: int, j0: int)
        requires
            pre.wf(),
            post.wf_lens(),
            post.wf_paths(),
            post.wf_links(),
            post.wf_unused(),
            id != 0,
            h0 == bucket_index(id),
            !pre.has_key(id, flags),
            TWZSLOT_ALLOC_START <= slot <= TWZSLOT_ALLOC_MAX,
            slot_bit(post.bitmap@, slot as int),
            post.bitmap == pre.bitmap,
            forall|h: int, j: int| 0 <= h < NR_VIEW_BUCKETS && #[trigger] pre.occ(h, j)
                ==> pre.cell(h, j).slot != slot,
            0 <= j0 < post.list_len(h0),
            post.cell(h0, j0).id == id,
            post.cell(h0, j0).flags == flags,
            post.cell(h0, j0).slot == slot,
            post.cell(h0, j0).refcount == 1,
            forall|h: int, j: int|
                0 <= h < NR_VIEW_BUCKETS && 0 <= j < post.list_len(h) && (h != h0 || j != j0)
                ==> 0 <= j < pre.list_len(h)
                    && Self::content_eq(#[trigger] post.cell(h, j), pre.cell(h, j)),
            forall|h: int| 0 <= h < NR_VIEW_BUCKETS
                ==> #[trigger] post.list_len(h) >= pre.list_len(h),
            j0 < pre.list_len(h0) ==> pre.cell(h0, j0).id == 0,
        ensures
            post.wf(),
            post.has_key(id, flags),
            post.slot_of(id, flags) == slot,
            post.refcount_of(id, flags) == 1,
            forall|i: ObjID, f: u32| !(i == id && f == flags)
                ==> #[trigger] post.has_key(i, f) == pre.has_key(i, f),
            forall|i: ObjID, f: u32|
                #![trigger post.slot_of(i, f)]
                #![trigger post.refcount_of(i, f)]
                pre.has_key(i, f) && !(i == id && f == flags)
                ==> post.slot_of(i, f) == pre.slot_of(i, f)
                    && post.refcount_of(i, f) == pre.refcount_of(i, f),
            post.as_map() == pre.as_map().insert((id, flags), (slot as u64, 1)),
    {
        assert forall|h: int, j: int| 0 <= h < NR_VIEW_BUCKETS && #[trigger] post.occ(h, j)
            implies ({
                let c = post.cell(h, j);
                &&& bucket_index(c.id) == h
                &&& TWZSLOT_ALLOC_START <= c.slot <= TWZSLOT_ALLOC_MAX
                &&& slot_bit(post.bitmap@, c.slot as int)
                &&& c.refcount >= 1
            }) by {
            if h != h0 || j != j0 {
                assert(Self::content_eq(post.cell(h, j), pre.cell(h, j)));
                assert(pre.occ(h, j));
            }
        }
        assert forall|h1: int, j1: int, h2: int, j2: int|
            0 <= h1 < NR_VIEW_BUCKETS && 0 <= h2 < NR_VIEW_BUCKETS
                && #[trigger] post.occ(h1, j1) && #[trigger] post.occ(h2, j2)
                && (h1 != h2 || j1 != j2)
            implies ({
                &&& !(post.cell(h1, j1).id == post.cell(h2, j2).id
                    && post.cell(h1, j1).flags == post.cell(h2, j2).flags)
                &&& post.cell(h1, j1).slot != post.cell(h2, j2).slot
            }) by {
            if (h1 != h0 || j1 != j0) && (h2 != h0 || j2 != j0) {
                assert(Self::content_eq(post.cell(h1, j1), pre.cell(h1, j1)));
                assert(Self::content_eq(post.cell(h2, j2), pre.cell(h2, j2)));
                assert(pre.occ(h1, j1));
                assert(pre.occ(h2, j2));
            } else if h1 == h0 && j1 == j0 {
                assert(Self::content_eq(post.cell(h2, j2), pre.cell(h2, j2)));
                assert(pre.occ(h2, j2));
                if post.cell(h2, j2).id == id && post.cell(h2, j2).flags == flags {
                    assert(bucket_index(pre.cell(h2, j2).id) == h2);
                    assert(pre.occ(h0, j2) && pre.cell(h0, j2).id == id
                        && pre.cell(h0, j2).flags == flags);
                    assert(pre.has_key(id, flags));
                    assert(false);
                }
            } else {
                assert(Self::content_eq(post.cell(h1, j1), pre.cell(h1, j1)));
                assert(pre.occ(h1, j1));
                if post.cell(h1, j1).id == id && post.cell(h1, j1).flags == flags {
                    assert(bucket_index(pre.cell(h1, j1).id) == h1);
                    assert(pre.occ(h0, j1) && pre.cell(h0, j1).id == id
                        && pre.cell(h0, j1).flags == flags);
                    assert(pre.has_key(id, flags));
                    assert(false);
                }
            }
        }
        assert(post.wf());
        assert(post.occ(h0, j0));
        assert(post.has_key(id, flags));
        let k = post.key_at(id, flags);
        assert(post.occ(h0, k) && post.cell(h0, k).id == id && post.cell(h0, k).flags == flags);
        if k != j0 {
            assert(false);
        }
        assert(post.slot_of(id, flags) == slot);
        assert(post.refcount_of(id, flags) == 1);
        assert forall|i: ObjID, f: u32| !(i == id && f == flags)
            implies #[trigger] post.has_key(i, f) == pre.has_key(i, f) by {
            let h = bucket_index(i);
            if pre.has_key(i, f) {
                let j = choose|j: int| #[trigger] pre.occ(h, j)
                    && pre.cell(h, j).id == i && pre.cell(h, j).flags == f;
                if h == h0 && j == j0 {
                    assert(pre.cell(h0, j0).id == 0);
                    assert(false);
                }
                assert(0 <= j < post.list_len(h));
                assert(Self::content_eq(post.cell(h, j), pre.cell(h, j)));
                assert(post.occ(h, j) && post.cell(h, j).id == i && post.cell(h, j).flags == f);
            }
            if post.has_key(i, f) {
                let j = choose|j: int| #[trigger] post.occ(h, j)
                    && post.cell(h, j).id == i && post.cell(h, j).flags == f;
                if h == h0 && j == j0 {
                    assert(false);
                }
                assert(Self::content_eq(post.cell(h, j), pre.cell(h, j)));
                assert(pre.occ(h, j) && pre.cell(h, j).id == i && pre.cell(h, j).flags == f);
            }
        }
        assert forall|i: ObjID, f: u32|
            #![trigger post.slot_of(i, f)]
            #![trigger post.refcount_of(i, f)]
            pre.has_key(i, f) && !(i == id && f == flags)
            implies post.slot_of(i, f) == pre.slot_of(i, f)
                && post.refcount_of(i, f) == pre.refcount_of(i, f) by {
            let h = bucket_index(i);
            assert(post.has_key(i, f));
            let j1 = post.key_at(i, f);
            let j2 = pre.key_at(i, f);
            assert(post.occ(h, j1) && post.cell(h, j1).id == i && post.cell(h, j1).flags == f);
            assert(pre.occ(h, j2) && pre.cell(h, j2).id == i && pre.cell(h, j2).flags == f);
            if h == h0 && j1 == j0 {
                assert(false);
            }
            assert(Self::content_eq(post.cell(h, j1), pre.cell(h, j1)));
            assert(pre.occ(h, j1));
            if j1 != j2 {
                assert(false);
            }
        }
        assert(post.as_map() =~= pre.as_map().insert((id, flags), (slot as u64, 1)));
    }


    /// Changing only the reference count of the cell holding `(id, flags)`
    /// rewrites exactly that key's count in the mapping abstraction.
    #[verifier::rlimit(60)]
    pub proof fn lemma_key_refcount_changed(pre: SlotView, post: SlotView, id: ObjID, flags: u32, h0: int, j0: int)
        requires
            pre.wf(),
            post.wf_lens(),
            post.wf_paths(),
            post.wf_links(),
            post.wf_unused(),
            id != 0,
            h0 == bucket_index(id),
            pre.has_key(id, flags),
            j0 == pre.key_at(id, flags),
            post.bitmap == pre.bitmap,
            0 <= j0 < post.list_len(h0),
            post.cell(h0, j0).id == id,
            post.cell(h0, j0).flags == flags,
            post.cell(h0, j0).slot == pre.cell(h0, j0).slot,
            post.cell(h0, j0).refcount >= 1,
            forall|h: int, j: int|
                0 <= h < NR_VIEW_BUCKETS && 0 <= j < post.list_len(h) && (h != h0 || j != j0)
                ==> 0 <= j < pre.list_len(h)
                    && Self::content_eq(#[trigger] post.cell(h, j), pre.cell(h, j)),
            forall|h: int| 0 <= h < NR_VIEW_BUCKETS
                ==> #[trigger] post.list_len(h) >= pre.list_len(h),
        ensures
            post.wf(),
            post.has_key(id, flags),
            post.slot_of(id, flags) == pre.slot_of(id, flags),
            post.refcount_of(id, flags) == post.cell(h0, j0).refcount,
            forall|i: ObjID, f: u32| !(i == id && f == flags)
                ==> #[trigger] post.has_key(i, f) == pre.has_key(i, f),
            forall|i: ObjID, f: u32|
                #![trigger post.slot_of(i, f)]
                #![trigger post.refcount_of(i, f)]
                pre.has_key(i, f) && !(i == id && f == flags)
                ==> post.slot_of(i, f) == pre.slot_of(i, f)
                    && post.refcount_of(i, f) == pre.refcount_of(i, f),
            post.as_map() == pre.as_map().insert(
                (id, flags), (pre.slot_of(id, flags), post.cell(h0, j0).refcount)),
    {
        assert(pre.occ(h0, j0) && pre.cell(h0, j0).id == id && pre.cell(h0, j0).flags == flags);
        assert forall|h: int, j: int| 0 <= h < NR_VIEW_BUCKETS && #[trigger] post.occ(h, j)
            implies ({
                let c = post.cell(h, j);
                &&& bucket_index(c.id) == h
                &&& TWZSLOT_ALLOC_START <= c.slot <= TWZSLOT_ALLOC_MAX
                &&& slot_bit(post.bitmap@, c.slot as int)
                &&& c.refcount >= 1
            }) by {
            if h != h0 || j != j0 {
                assert(Self::content_eq(post.cell(h, j), pre.cell(h, j)));
                assert(pre.occ(h, j));
            } else {
                assert(pre.occ(h0, j0));
            }
        }
        assert forall|h1: int, j1: int, h2: int, j2: int|
            0 <= h1 < NR_VIEW_BUCKETS && 0 <= h2 < NR_VIEW_BUCKETS
                && #[trigger] post.occ(h1, j1) && #[trigger] post.occ(h2, j2)
                && (h1 != h2 || j1 != j2)
            implies ({
                &&& !(post.cell(h1, j1).id == post.cell(h2, j2).id
                    && post.cell(h1, j1).flags == post.cell(h2, j2).flags)
                &&& post.cell(h1, j1).slot != post.cell(h2, j2).slot
            }) by {
            if h1 != h0 || j1 != j0 {
                assert(Self::content_eq(post.cell(h1, j1), pre.cell(h1, j1)));
                assert(pre.occ(h1, j1));
            }
            if h2 != h0 || j2 != j0 {
                assert(Self::content_eq(post.cell(h2, j2), pre.cell(h2, j2)));
                assert(pre.occ(h2, j2));
            }
        }
        assert(post.wf());
        assert(post.occ(h0, j0));
        assert(post.has_key(id, flags));
        let k = post.key_at(id, flags);
        assert(post.occ(h0, k) && post.cell(h0, k).id == id && post.cell(h0, k).flags == flags);
        if k != j0 {
            assert(false);
        }
        assert forall|i: ObjID, f: u32| !(i == id && f == flags)
            implies #[trigger] post.has_key(i, f) == pre.has_key(i, f) by {
            let h = bucket_index(i);
            if pre.has_key(i, f) {
                let j = choose|j: int| #[trigger] pre.occ(h, j)
                    && pre.cell(h, j).id == i && pre.cell(h, j).flags == f;
                if h == h0 && j == j0 {
                    assert(false);
                }
                assert(0 <= j < post.list_len(h));
                assert(Self::content_eq(post.cell(h, j), pre.cell(h, j)));
                assert(post.occ(h, j) && post.cell(h, j).id == i && post.cell(h, j).flags == f);
            }
            if post.has_key(i, f) {
                let j = choose|j: int| #[trigger] post.occ(h, j)
                    && post.cell(h, j).id == i && post.cell(h, j).flags == f;
                if h == h0 && j == j0 {
                    assert(false);
                }
                assert(Self::content_eq(post.cell(h, j), pre.cell(h, j)));
                assert(pre.occ(h, j) && pre.cell(h, j).id == i && pre.cell(h, j).flags == f);
            }
        }
        assert forall|i: ObjID, f: u32|
            #![trigger post.slot_of(i, f)]
            #![trigger post.refcount_of(i, f)]
            pre.has_key(i, f) && !(i == id && f == flags)
            implies post.slot_of(i, f) == pre.slot_of(i, f)
                && post.refcount_of(i, f) == pre.refcount_of(i, f) by {
            let h = bucket_index(i);
            assert(post.has_key(i, f));
            let j1 = post.key_at(i, f);
            let j2 = pre.key_at(i, f);
            assert(post.occ(h, j1) && post.cell(h, j1).id == i && post.cell(h, j1).flags == f);
            assert(pre.occ(h, j2) && pre.cell(h, j2).id == i && pre.cell(h, j2).flags == f);
            if h == h0 && j1 == j0 {
                assert(false);
            }
            assert(Self::content_eq(post.cell(h, j1), pre.cell(h, j1)));
            assert(pre.occ(h, j1));
            if j1 != j2 {
                assert(false);
            }
        }
        let k2 = pre.key_at(id, flags);
        assert(pre.occ(h0, k2) && pre.cell(h0, k2).id == id && pre.cell(h0, k2).flags == flags);
        assert(k2 == j0);
        assert(post.as_map() =~= pre.as_map().insert(
            (id, flags), (pre.slot_of(id, flags), post.cell(h0, j0).refcount)));
    }

    /// Emptying the cell that held `(id, flags)` removes exactly that key
    /// from the mapping abstraction.
    #[verifier::rlimit(60)]
    pub proof fn lemma_key_removed(pre: SlotView, post: SlotView, id: ObjID, flags: u32, h0: int, j0: int)
        requires
            pre.wf(),
            post.wf_lens(),
            post.wf_paths(),
            post.wf_links(),
            post.wf_unused(),
            id != 0,
            h0 == bucket_index(id),
            pre.has_key(id, flags),
            j0 == pre.key_at(id, flags),
            post.bitmap == pre.bitmap,
            0 <= j0 < post.list_len(h0),
            post.cell(h0, j0).id == 0,
            forall|h: int, j: int|
                0 <= h < NR_VIEW_BUCKETS && 0 <= j < post.list_len(h) && (h != h0 || j != j0)
                ==> 0 <= j < pre.list_len(h)
                    && Self::content_eq(#[trigger] post.cell(h, j), pre.cell(h, j)),
            forall|h: int| 0 <= h < NR_VIEW_BUCKETS
                ==> #[trigger] post.list_len(h) >= pre.list_len(h),
        ensures
            post.wf(),
            !post.has_key(id, flags),
            forall|i: ObjID, f: u32| !(i == id && f == flags)
                ==> #[trigger] post.has_key(i, f) == pre.has_key(i, f),
            forall|i: ObjID, f: u32|
                #![trigger post.slot_of(i, f)]
                #![trigger post.refcount_of(i, f)]
                pre.has_key(i, f) && !(i == id && f == flags)
                ==> post.slot_of(i, f) == pre.slot_of(i, f)
                    && post.refcount_of(i, f) == pre.refcount_of(i, f),
            forall|h: int, j: int| 0 <= h < NR_VIEW_BUCKETS && #[trigger] post.occ(h, j)
                ==> post.cell(h, j).slot != pre.cell(h0, j0).slot,
            post.as_map() == pre.as_map().remove((id, flags)),
    {
        assert(pre.occ(h0, j0) && pre.cell(h0, j0).id == id && pre.cell(h0, j0).flags == flags);
        assert forall|h: int, j: int| 0 <= h < NR_VIEW_BUCKETS && #[trigger] post.occ(h, j)
            implies ({
                let c = post.cell(h, j);
                &&& bucket_index(c.id) == h
                &&& TWZSLOT_ALLOC_START <= c.slot <= TWZSLOT_ALLOC_MAX
                &&& slot_bit(post.bitmap@, c.slot as int)
                &&& c.refcount >= 1
                &&& c.slot != pre.cell(h0, j0).slot
            }) by {
            assert(!(h == h0 && j == j0));
            assert(Self::content_eq(post.cell(h, j), pre.cell(h, j)));
            assert(pre.occ(h, j));
        }
        assert forall|h1: int, j1: int, h2: int, j2: int|
            0 <= h1 < NR_VIEW_BUCKETS && 0 <= h2 < NR_VIEW_BUCKETS
                && #[trigger] post.occ(h1, j1) && #[trigger] post.occ(h2, j2)
                && (h1 != h2 || j1 != j2)
            implies ({
                &&& !(post.cell(h1, j1).id == post.cell(h2, j2).id
                    && post.cell(h1, j1).flags == post.cell(h2, j2).flags)
                &&& post.cell(h1, j1).slot != post.cell(h2, j2).slot
            }) by {
            assert(Self::content_eq(post.cell(h1, j1), pre.cell(h1, j1)));
            assert(Self::content_eq(post.cell(h2, j2), pre.cell(h2, j2)));
            assert(pre.occ(h1, j1));
            assert(pre.occ(h2, j2));
        }
        assert(post.wf());
        if post.has_key(id, flags) {
            let j = choose|j: int| #[trigger] post.occ(h0, j)
                && post.cell(h0, j).id == id && post.cell(h0, j).flags == flags;
            assert(!(j == j0));
            assert(Self::content_eq(post.cell(h0, j), pre.cell(h0, j)));
            assert(pre.occ(h0, j));
            assert(false);
        }
        assert forall|i: ObjID, f: u32| !(i == id && f == flags)
            implies #[trigger] post.has_key(i, f) == pre.has_key(i, f) by {
            let h = bucket_index(i);
            if pre.has_key(i, f) {
                let j = choose|j: int| #[trigger] pre.occ(h, j)
                    && pre.cell(h, j).id == i && pre.cell(h, j).flags == f;
                if h == h0 && j == j0 {
                    assert(false);
                }
                assert(0 <= j < post.list_len(h));
                assert(Self::content_eq(post.cell(h, j), pre.cell(h, j)));
                assert(post.occ(h, j) && post.cell(h, j).id == i && post.cell(h, j).flags == f);
            }
            if post.has_key(i, f) {
                let j = choose|j: int| #[trigger] post.occ(h, j)
                    && post.cell(h, j).id == i && post.cell(h, j).flags == f;
                assert(!(h == h0 && j == j0));
                assert(Self::content_eq(post.cell(h, j), pre.cell(h, j)));
                assert(pre.occ(h, j) && pre.cell(h, j).id == i && pre.cell(h, j).flags == f);
            }
        }
        assert forall|i: ObjID, f: u32|
            #![trigger post.slot_of(i, f)]
            #![trigger post.refcount_of(i, f)]
            pre.has_key(i, f) && !(i == id && f == flags)
            implies post.slot_of(i, f) == pre.slot_of(i, f)
                && post.refcount_of(i, f) == pre.refcount_of(i, f) by {
            let h = bucket_index(i);
            assert(post.has_key(i, f));
            let j1 = post.key_at(i, f);
            let j2 = pre.key_at(i, f);
            assert(post.occ(h, j1) && post.cell(h, j1).id == i && post.cell(h, j1).flags == f);
            assert(pre.occ(h, j2) && pre.cell(h, j2).id == i && pre.cell(h, j2).flags == f);
            assert(!(h == h0 && j1 == j0));
            assert(Self::content_eq(post.cell(h, j1), pre.cell(h, j1)));
            assert(pre.occ(h, j1));
            if j1 != j2 {
                assert(false);
            }
        }
        assert(post.as_map() =~= pre.as_map().remove((id, flags)));
    }


    /// The flags a kernel-visible entry gets for requested protection
    /// `flags`: write access strips execute, and the entry becomes valid.
    pub open spec fn entry_set_flags(flags: u32) -> u32 {
        if flags & VIEW_WRITE != 0 {
            (flags & !VIEW_EXEC) | VIEW_VALID
        } else {
            flags | VIEW_VALID
        }
    }

    /// The view's own backing-object ID.
    pub fn view_id(&self) -> (r: ObjID)
        ensures
            r == self.id,
    {
        self.id
    }

    /// Points the kernel-visible entry of `slot` at `id` with protection
    /// `flags`.  If the entry previously held a valid mapping, that mapping
    /// is requested invalidated before the overwrite.
    pub fn set_entry(&mut self, kernel: &mut Kernel, slot: usize, id: ObjID, flags: u32)
        requires
            old(self).wf(),
            slot < NR_VIEW_ENTRIES,
        ensures
            final(self).wf(),
            final(self).bitmap == old(self).bitmap,
            final(self).buckets == old(self).buckets,
            final(self).chain == old(self).chain,
            final(self).chain_top == old(self).chain_top,
            final(self).paths == old(self).paths,
            final(self).id == old(self).id,
            final(self).as_map() == old(self).as_map(),
            forall|i: ObjID, f: u32| #[trigger] final(self).has_key(i, f)
                == old(self).has_key(i, f),
            forall|i: ObjID, f: u32|
                #![trigger final(self).slot_of(i, f)]
                #![trigger final(self).refcount_of(i, f)]
                old(self).has_key(i, f)
                ==> final(self).slot_of(i, f) == old(self).slot_of(i, f)
                    && final(self).refcount_of(i, f) == old(self).refcount_of(i, f),
            final(self).entries@ == old(self).entries@.update(slot as int, ViewEntry {
                id,
                flags: Self::entry_set_flags(flags),
                pin: old(self).entries@[slot as int].pin,
            }),
            final(kernel).next_seq == old(kernel).next_seq,
            final(kernel).reset_epoch == old(kernel).reset_epoch,
            final(kernel).sleeps == old(kernel).sleeps,
            final(kernel).wakes == old(kernel).wakes,
            old(self).entries@[slot as int].flags & VIEW_VALID != 0
                ==> final(kernel).invalidations@ == old(kernel).invalidations@.push(
                    InvalidateReq {
                        offset: ((slot as u64) * crate::space::MAX_SIZE) as u64,
                        length: crate::space::MAX_SIZE as u32,
                    }),
            old(self).entries@[slot as int].flags & VIEW_VALID == 0
                ==> final(kernel).invalidations == old(kernel).invalidations,
    {
        let e = self.entries[slot];
        let stripped = if flags & VIEW_WRITE != 0 {
            flags & !VIEW_EXEC
        } else {
            flags
        };
        self.entries[slot] = ViewEntry {
            id,
            flags: stripped | VIEW_VALID,
            pin: e.pin,
        };
        if e.flags & VIEW_VALID != 0 {
            kernel.invalidate(
                (slot as u64) * crate::space::MAX_SIZE,
                crate::space::MAX_SIZE as u32,
            );
        }
        proof {
            assert forall|h: int, j: int|
                0 <= h < NR_VIEW_BUCKETS && #[trigger] self.occ(h, j)
                implies slot_bit(self.bitmap@, self.cell(h, j).slot as int) by {
                assert(old(self).occ(h, j));
                assert(self.cell(h, j) == old(self).cell(h, j));
            }
            Self::lemma_table_frame(*old(self), *self);
        }
    }

    /// Pins `slot`: a short-lived hold that does not take part in the
    /// owning reference count.  Fails when the pin counter would overflow.
    pub fn lock_entry(&mut self, slot: usize) -> (r: Result<(), TwzErr>)
        requires
            old(self).wf(),
            slot < NR_VIEW_ENTRIES,
        ensures
            final(self).wf(),
            final(self).bitmap == old(self).bitmap,
            final(self).buckets == old(self).buckets,
            final(self).chain == old(self).chain,
            final(self).chain_top == old(self).chain_top,
            final(self).paths == old(self).paths,
            final(self).id == old(self).id,
            final(self).as_map() == old(self).as_map(),
            forall|i: ObjID, f: u32| #[trigger] final(self).has_key(i, f)
                == old(self).has_key(i, f),
            forall|i: ObjID, f: u32|
                #![trigger final(self).slot_of(i, f)]
                #![trigger final(self).refcount_of(i, f)]
                old(self).has_key(i, f)
                ==> final(self).slot_of(i, f) == old(self).slot_of(i, f)
                    && final(self).refcount_of(i, f) == old(self).refcount_of(i, f),
            match r {
                Ok(_) => {
                    &&& old(self).entries@[slot as int].pin < u32::MAX
                    &&& final(self).entries@ == old(self).entries@.update(slot as int, ViewEntry {
                        pin: (old(self).entries@[slot as int].pin + 1) as u32,
                        ..old(self).entries@[slot as int]
                    })
                },
                Err(e) => {
                    &&& e == TwzErr::Invalid
                    &&& old(self).entries@[slot as int].pin == u32::MAX
                    &&& *final(self) == *old(self)
                },
            },
    {
        let e = self.entries[slot];
        if e.pin == u32::MAX {
            return Err(TwzErr::Invalid);
        }
        self.entries[slot] = ViewEntry { pin: e.pin + 1, ..e };
        proof {
            assert forall|h: int, j: int|
                0 <= h < NR_VIEW_BUCKETS && #[trigger] self.occ(h, j)
                implies slot_bit(self.bitmap@, self.cell(h, j).slot as int) by {
                assert(old(self).occ(h, j));
                assert(self.cell(h, j) == old(self).cell(h, j));
            }
            Self::lemma_table_frame(*old(self), *self);
        }
        Ok(())
    }

    /// Drops a pin of `slot`, reporting whether the last hold was released.
    /// Fails when the slot was not pinned.
    pub fn unlock_entry(&mut self, slot: usize) -> (r: Result<bool, TwzErr>)
        requires
            old(self).wf(),
            slot < NR_VIEW_ENTRIES,
        ensures
            final(self).wf(),
            final(self).bitmap == old(self).bitmap,
            final(self).buckets == old(self).buckets,
            final(self).chain == old(self).chain,
            final(self).chain_top == old(self).chain_top,
            final(self).paths == old(self).paths,
            final(self).id == old(self).id,
            final(self).as_map() == old(self).as_map(),
            forall|i: ObjID, f: u32| #[trigger] final(self).has_key(i, f)
                == old(self).has_key(i, f),
            forall|i: ObjID, f: u32|
                #![trigger final(self).slot_of(i, f)]
                #![trigger final(self).refcount_of(i, f)]
                old(self).has_key(i, f)
                ==> final(self).slot_of(i, f) == old(self).slot_of(i, f)
                    && final(self).refcount_of(i, f) == old(self).refcount_of(i, f),
            match r {
                Ok(last) => {
                    &&& old(self).entries@[slot as int].pin >= 1
                    &&& last == (old(self).entries@[slot as int].pin == 1)
                    &&& final(self).entries@ == old(self).entries@.update(slot as int, ViewEntry {
                        pin: (old(self).entries@[slot as int].pin - 1) as u32,
                        ..old(self).entries@[slot as int]
                    })
                },
                Err(e) => {
                    &&& e == TwzErr::Invalid
                    &&& old(self).entries@[slot as int].pin == 0
                    &&& *final(self) == *old(self)
                },
            },
    {
        let e = self.entries[slot];
        if e.pin == 0 {
            return Err(TwzErr::Invalid);
        }
        self.entries[slot] = ViewEntry { pin: e.pin - 1, ..e };
        proof {
            assert forall|h: int, j: int|
                0 <= h < NR_VIEW_BUCKETS && #[trigger] self.occ(h, j)
                implies slot_bit(self.bitmap@, self.cell(h, j).slot as int) by {
                assert(old(self).occ(h, j));
                assert(self.cell(h, j) == old(self).cell(h, j));
            }
            Self::lemma_table_frame(*old(self), *self);
        }
        Ok(e.pin == 1)
    }

    /// Pins a slot given as a wide slot number.
    pub fn get_slot(&mut self, slot: u64) -> (r: Result<(), TwzErr>)
        requires
            old(self).wf(),
            slot < NR_VIEW_ENTRIES as u64,
        ensures
            final(self).wf(),
            final(self).bitmap == old(self).bitmap,
            final(self).buckets == old(self).buckets,
            final(self).chain == old(self).chain,
            final(self).chain_top == old(self).chain_top,
            final(self).paths == old(self).paths,
            final(self).id == old(self).id,
            final(self).as_map() == old(self).as_map(),
            forall|i: ObjID, f: u32| #[trigger] final(self).has_key(i, f)
                == old(self).has_key(i, f),
            forall|i: ObjID, f: u32|
                #![trigger final(self).slot_of(i, f)]
                #![trigger final(self).refcount_of(i, f)]
                old(self).has_key(i, f)
                ==> final(self).slot_of(i, f) == old(self).slot_of(i, f)
                    && final(self).refcount_of(i, f) == old(self).refcount_of(i, f),
            match r {
                Ok(_) => {
                    &&& old(self).entries@[slot as int].pin < u32::MAX
                    &&& final(self).entries@ == old(self).entries@.update(slot as int, ViewEntry {
                        pin: (old(self).entries@[slot as int].pin + 1) as u32,
                        ..old(self).entries@[slot as int]
                    })
                },
                Err(e) => {
                    &&& e == TwzErr::Invalid
                    &&& old(self).entries@[slot as int].pin == u32::MAX
                    &&& *final(self) == *old(self)
                },
            },
    {
        self.lock_entry(slot as usize)
    }

    /// Unpins a slot given as a wide slot number.
    pub fn put_slot(&mut self, slot: u64) -> (r: Result<bool, TwzErr>)
        requires
            old(self).wf(),
            slot < NR_VIEW_ENTRIES as u64,
        ensures
            final(self).wf(),
            final(self).bitmap == old(self).bitmap,
            final(self).buckets == old(self).buckets,
            final(self).chain == old(self).chain,
            final(self).chain_top == old(self).chain_top,
            final(self).paths == old(self).paths,
            final(self).id == old(self).id,
            final(self).as_map() == old(self).as_map(),
            forall|i: ObjID, f: u32| #[trigger] final(self).has_key(i, f)
                == old(self).has_key(i, f),
            forall|i: ObjID, f: u32|
                #![trigger final(self).slot_of(i, f)]
                #![trigger final(self).refcount_of(i, f)]
                old(self).has_key(i, f)
                ==> final(self).slot_of(i, f) == old(self).slot_of(i, f)
                    && final(self).refcount_of(i, f) == old(self).refcount_of(i, f),
            match r {
                Ok(last) => {
                    &&& old(self).entries@[slot as int].pin >= 1
                    &&& last == (old(self).entries@[slot as int].pin == 1)
                    &&& final(self).entries@ == old(self).entries@.update(slot as int, ViewEntry {
                        pin: (old(self).entries@[slot as int].pin - 1) as u32,
                        ..old(self).entries@[slot as int]
                    })
                },
                Err(e) => {
                    &&& e == TwzErr::Invalid
                    &&& old(self).entries@[slot as int].pin == 0
                    &&& *final(self) == *old(self)
                },
            },
    {
        self.unlock_entry(slot as usize)
    }


    /// Creates or re-references the mapping of `(id, prot)`.
    ///
    /// An existing mapping returns its slot with the reference count
    /// incremented, touching neither the bitmap, the kernel entries, nor
    /// the kernel itself — in particular, no invalidation is requested for
    /// an already-valid mapping.  A new mapping takes the lowest free slot,
    /// installs the key with one reference, and points the slot's kernel
    /// entry at the object, invalidating only a stale previous mapping of
    /// that slot.  Fails exactly when the allocatable range, or the chain
    /// array, is exhausted; the view is then unchanged.
    pub fn reserve_slot(&mut self, kernel: &mut Kernel, id: ObjID, prot: u32) -> (r: Result<u64, TwzErr>)
        requires
            old(self).wf(),
            id != 0,
            old(self).has_key(id, prot) ==> old(self).refcount_of(id, prot) < u32::MAX,
        ensures
            final(self).wf(),
            final(self).id == old(self).id,
            final(self).entries@.len() == old(self).entries@.len(),
            final(kernel).next_seq == old(kernel).next_seq,
            final(kernel).reset_epoch == old(kernel).reset_epoch,
            final(kernel).sleeps == old(kernel).sleeps,
            final(kernel).wakes == old(kernel).wakes,
            match r {
                Ok(s) => {
                    &&& final(self).has_key(id, prot)
                    &&& final(self).slot_of(id, prot) == s
                    &&& s < NR_VIEW_ENTRIES as u64
                    &&& if old(self).has_key(id, prot) {
                        &&& s == old(self).slot_of(id, prot)
                        &&& final(self).refcount_of(id, prot)
                            == old(self).refcount_of(id, prot) + 1
                        &&& final(self).as_map() == old(self).as_map().insert(
                            (id, prot), (s, (old(self).refcount_of(id, prot) + 1) as u32))
                        &&& final(self).bitmap == old(self).bitmap
                        &&& final(self).entries == old(self).entries
                        &&& final(kernel).invalidations == old(kernel).invalidations
                    } else {
                        &&& old(self).is_first_free(s as int)
                        &&& final(self).refcount_of(id, prot) == 1
                        &&& final(self).as_map() == old(self).as_map().insert(
                            (id, prot), (s, 1))
                        &&& final(self).slot_used(s as int)
                        &&& forall|t: int| 0 <= t < 8 * NR_BITMAP_BYTES && t != s as int
                            ==> final(self).slot_used(t) == old(self).slot_used(t)
                        &&& final(self).entries@ == old(self).entries@.update(s as int,
                            ViewEntry {
                                id,
                                flags: Self::entry_set_flags(prot),
                                pin: old(self).entries@[s as int].pin,
                            })
                        &&& (old(self).entries@[s as int].flags & VIEW_VALID != 0
                            ==> final(kernel).invalidations@
                                == old(kernel).invalidations@.push(InvalidateReq {
                                    offset: (s * crate::space::MAX_SIZE) as u64,
                                    length: crate::space::MAX_SIZE as u32,
                                }))
                        &&& (old(self).entries@[s as int].flags & VIEW_VALID == 0
                            ==> final(kernel).invalidations == old(kernel).invalidations)
                    }
                },
                Err(e) => {
                    &&& e == TwzErr::OutOfSlots
                    &&& !old(self).has_key(id, prot)
                    &&& old(self).slots_full() || old(self).chain_exhausted_for(id)
                    &&& final(self).as_map() == old(self).as_map()
                    &&& forall|t: int| 0 <= t < 8 * NR_BITMAP_BYTES
                        ==> final(self).slot_used(t) == old(self).slot_used(t)
                    &&& final(self).entries == old(self).entries
                    &&& final(kernel).invalidations == old(kernel).invalidations
                },
            },
    {
        match self.lookup_bucket(id, prot) {
            Some(l) => {
                let (head, idx) = l;
                let ghost hh = bucket_index(id);
                let ghost j0 = self.key_at(id, prot);
                proof {
                    assert(self.occ(hh, j0) && self.cell(hh, j0).id == id
                        && self.cell(hh, j0).flags == prot);
                    if !head {
                        assert(idx as int == self.paths@[hh][j0 - 1]);
                        assert(0 <= self.paths@[hh][j0 - 1] < self.chain_top);
                    }
                }
                let cell = if head { self.buckets[idx] } else { self.chain[idx] };
                proof {
                    assert(cell == self.cell(hh, j0));
                }
                let nc = ViewBucket { refcount: cell.refcount + 1, ..cell };
                if head {
                    self.buckets[idx] = nc;
                } else {
                    self.chain[idx] = nc;
                }
                proof {
                    Self::lemma_one_cell_changed(*old(self), *self, hh, j0, nc);
                    assert forall|h2: int, j2: int|
                        0 <= h2 < NR_VIEW_BUCKETS && 0 <= j2 < self.list_len(h2)
                            && (h2 != hh || j2 != j0)
                        implies 0 <= j2 < old(self).list_len(h2)
                            && Self::content_eq(#[trigger] self.cell(h2, j2), old(self).cell(h2, j2)) by {
                        assert(self.list_len(h2) == old(self).list_len(h2));
                        assert(self.cell(h2, j2) == old(self).cell(h2, j2));
                    }
                    assert forall|h2: int| 0 <= h2 < NR_VIEW_BUCKETS
                        implies #[trigger] self.list_len(h2) >= old(self).list_len(h2) by {
                        assert(self.list_len(h2) == old(self).list_len(h2));
                    }
                    Self::lemma_key_refcount_changed(*old(self), *self, id, prot, hh, j0);
                }
                Ok(cell.slot as u64)
            },
            None => {
                let s = match self.alloc_slot() {
                    Ok(s) => s,
                    Err(e) => {
                        return Err(e);
                    },
                };
                let ghost v0 = *old(self);
                let ghost v1 = *self;
                proof {
                    Self::lemma_table_frame(v0, v1);
                    assert forall|h2: int, j2: int|
                        0 <= h2 < NR_VIEW_BUCKETS && #[trigger] v1.occ(h2, j2)
                        implies v1.cell(h2, j2).slot != s by {
                        assert(v0.occ(h2, j2));
                        assert(v1.cell(h2, j2) == v0.cell(h2, j2));
                        assert(slot_bit(v0.bitmap@, v0.cell(h2, j2).slot as int));
                    }
                }
                match self.insert_obj(id, prot, s) {
                    Ok(_) => {},
                    Err(e) => {
                        proof {
                            assert(v1.chain_exhausted_for(id));
                            assert forall|j2: int| 0 <= j2 < v0.list_len(bucket_index(id))
                                implies (#[trigger] v0.cell(bucket_index(id), j2)).id != 0 by {
                                assert(v1.cell(bucket_index(id), j2) == v0.cell(bucket_index(id), j2));
                                assert(v1.cell(bucket_index(id), j2).id != 0);
                            }
                        }
                        self.dealloc_slot(s);
                        proof {
                            Self::lemma_table_frame(v1, *self);
                            assert(self.as_map() == v0.as_map());
                        }
                        return Err(e);
                    },
                }
                let ghost v2 = *self;
                self.set_entry(kernel, s as usize, id, prot);
                proof {
                    Self::lemma_table_frame(v2, *self);
                    assert(self.as_map() =~= v0.as_map().insert((id, prot), (s as u64, 1)));
                    assert(self.has_key(id, prot));
                    assert(self.slot_of(id, prot) == s as u64);
                    assert(v1.entries == v0.entries);
                }
                Ok(s as u64)
            },
        }
    }

    /// Releases one reference of the mapping `(id, prot)`, which must own
    /// `slot`.  The last release evicts the hash cell — zeroing the bucket
    /// before clearing the slot's bitmap bit — and frees the slot.
    /// Releasing an unmapped key, one more time than reserved, or with the
    /// wrong slot, is refused with the view unchanged.
    pub fn release_slot(&mut self, id: ObjID, prot: u32, slot: u64) -> (r: Result<(), TwzErr>)
        requires
            old(self).wf(),
            id != 0,
        ensures
            final(self).wf(),
            final(self).id == old(self).id,
            final(self).entries == old(self).entries,
            final(self).entries@.len() == old(self).entries@.len(),
            match r {
                Ok(_) => {
                    &&& old(self).has_key(id, prot)
                    &&& old(self).slot_of(id, prot) == slot
                    &&& if old(self).refcount_of(id, prot) > 1 {
                        &&& final(self).as_map() == old(self).as_map().insert(
                            (id, prot), (slot, (old(self).refcount_of(id, prot) - 1) as u32))
                        &&& final(self).bitmap == old(self).bitmap
                    } else {
                        &&& final(self).as_map() == old(self).as_map().remove((id, prot))
                        &&& !final(self).slot_used(slot as int)
                        &&& forall|t: int| 0 <= t < 8 * NR_BITMAP_BYTES && t != slot as int
                            ==> final(self).slot_used(t) == old(self).slot_used(t)
                    }
                },
                Err(e) => {
                    &&& e == TwzErr::Invalid
                    &&& !old(self).has_key(id, prot) || old(self).slot_of(id, prot) != slot
                    &&& *final(self) == *old(self)
                },
            },
    {
        match self.lookup_bucket(id, prot) {
            Some(l) => {
                let (head, idx) = l;
                let ghost hh = bucket_index(id);
                let ghost j0 = self.key_at(id, prot);
                proof {
                    assert(self.occ(hh, j0) && self.cell(hh, j0).id == id
                        && self.cell(hh, j0).flags == prot);
                    if !head {
                        assert(idx as int == self.paths@[hh][j0 - 1]);
                        assert(0 <= self.paths@[hh][j0 - 1] < self.chain_top);
                    }
                }
                let cell = if head { self.buckets[idx] } else { self.chain[idx] };
                proof {
                    assert(cell == self.cell(hh, j0));
                }
                if cell.slot as u64 != slot {
                    return Err(TwzErr::Invalid);
                }
                if cell.refcount > 1 {
                    let nc = ViewBucket { refcount: cell.refcount - 1, ..cell };
                    if head {
                        self.buckets[idx] = nc;
                    } else {
                        self.chain[idx] = nc;
                    }
                    proof {
                        Self::lemma_one_cell_changed(*old(self), *self, hh, j0, nc);
                        assert forall|h2: int, j2: int|
                            0 <= h2 < NR_VIEW_BUCKETS && 0 <= j2 < self.list_len(h2)
                                && (h2 != hh || j2 != j0)
                            implies 0 <= j2 < old(self).list_len(h2)
                                && Self::content_eq(#[trigger] self.cell(h2, j2), old(self).cell(h2, j2)) by {
                            assert(self.list_len(h2) == old(self).list_len(h2));
                            assert(self.cell(h2, j2) == old(self).cell(h2, j2));
                        }
                        assert forall|h2: int| 0 <= h2 < NR_VIEW_BUCKETS
                            implies #[trigger] self.list_len(h2) >= old(self).list_len(h2) by {
                            assert(self.list_len(h2) == old(self).list_len(h2));
                        }
                        Self::lemma_key_refcount_changed(*old(self), *self, id, prot, hh, j0);
                    }
                    Ok(())
                } else {
                    let nc = ViewBucket { id: 0, slot: 0, flags: 0, chain: cell.chain, refcount: 0 };
                    if head {
                        self.buckets[idx] = nc;
                    } else {
                        self.chain[idx] = nc;
                    }
                    let ghost v0 = *old(self);
                    proof {
                        Self::lemma_one_cell_changed(v0, *self, hh, j0, nc);
                        assert forall|h2: int, j2: int|
                            0 <= h2 < NR_VIEW_BUCKETS && 0 <= j2 < self.list_len(h2)
                                && (h2 != hh || j2 != j0)
                            implies 0 <= j2 < v0.list_len(h2)
                                && Self::content_eq(#[trigger] self.cell(h2, j2), v0.cell(h2, j2)) by {
                            assert(self.list_len(h2) == v0.list_len(h2));
                            assert(self.cell(h2, j2) == v0.cell(h2, j2));
                        }
                        assert forall|h2: int| 0 <= h2 < NR_VIEW_BUCKETS
                            implies #[trigger] self.list_len(h2) >= v0.list_len(h2) by {
                            assert(self.list_len(h2) == v0.list_len(h2));
                        }
                        Self::lemma_key_removed(v0, *self, id, prot, hh, j0);
                    }
                    let ghost v1 = *self;
                    self.dealloc_slot(cell.slot);
                    proof {
                        Self::lemma_table_frame(v1, *self);
                        assert(self.as_map() == v0.as_map().remove((id, prot)));
                    }
                    Ok(())
                }
            },
            None => Err(TwzErr::Invalid),
        }
    }

    /// Picks the lowest free slot of the allocatable range and marks it
    /// used, scanning the bitmap a byte at a time.  Fails exactly when the
    /// range is exhausted, leaving the view unchanged.
    pub fn alloc_slot(&mut self) -> (r: Result<u32, TwzErr>)
        requires
            old(self).wf(),
        ensures
            final(self).wf(),
            final(self).buckets == old(self).buckets,
            final(self).chain == old(self).chain,
            final(self).chain_top == old(self).chain_top,
            final(self).entries == old(self).entries,
            final(self).id == old(self).id,
            final(self).paths == old(self).paths,
            match r {
                Ok(s) => {
                    &&& old(self).is_first_free(s as int)
                    &&& final(self).slot_used(s as int)
                    &&& forall|t: int| 0 <= t < 8 * NR_BITMAP_BYTES && t != s as int
                        ==> final(self).slot_used(t) == old(self).slot_used(t)
                },
                Err(e) => {
                    &&& e == TwzErr::OutOfSlots
                    &&& old(self).slots_full()
                    &&& *final(self) == *old(self)
                },
            },
    {
        let start: usize = (TWZSLOT_ALLOC_START / 8) as usize;
        let end: usize = ((TWZSLOT_ALLOC_MAX / 8) + 1) as usize;
        let mut i: usize = start;
        while i < end
            invariant
                self == old(self),
                self.wf(),
                start <= i <= end,
                start == TWZSLOT_ALLOC_START / 8,
                end == (TWZSLOT_ALLOC_MAX / 8) + 1,
                forall|t: int| TWZSLOT_ALLOC_START <= t < 8 * i ==> self.slot_used(t),
            decreases end - i,
        {
            let byte = self.bitmap[i];
            if byte != 0xff {
                let mut bit: u8 = 0;
                while bit < 8
                    invariant
                        self == old(self),
                        self.wf(),
                        start <= i < end,
                        start == TWZSLOT_ALLOC_START / 8,
                        end == (TWZSLOT_ALLOC_MAX / 8) + 1,
                        byte == self.bitmap@[i as int],
                        bit <= 8,
                        forall|t: int| TWZSLOT_ALLOC_START <= t < 8 * i ==> self.slot_used(t),
                        forall|b: u8| b < bit ==> nth_bit(byte, b),
                    decreases 8 - bit,
                {
                    if byte & (1u8 << bit) == 0 {
                        let slot: u32 = (i * 8) as u32 + bit as u32;
                        let updated = byte | (1u8 << bit);
                        self.bitmap[i] = updated;
                        proof {
                            let s = slot as int;
                            lemma_set_bit_sets(byte, bit);
                            assert forall|t: int| 0 <= t < 8 * NR_BITMAP_BYTES && t != s
                                implies self.slot_used(t) == old(self).slot_used(t) by {
                                if t / 8 == i as int {
                                    lemma_set_bit_preserves(byte, bit, (t % 8) as u8);
                                }
                            }
                            assert forall|t: int| TWZSLOT_ALLOC_START <= t < s
                                implies old(self).slot_used(t) by {
                                if t >= 8 * (i as int) {
                                    assert(nth_bit(byte, (t % 8) as u8));
                                }
                            }
                            assert(self.slot_used(s));
                            assert forall|h: int, j: int|
                                0 <= h < NR_VIEW_BUCKETS && #[trigger] self.occ(h, j)
                                implies slot_bit(self.bitmap@, self.cell(h, j).slot as int) by {
                                assert(old(self).occ(h, j));
                                let c = self.cell(h, j);
                                assert(c == old(self).cell(h, j));
                                if c.slot as int / 8 == i as int {
                                    lemma_set_bit_preserves(byte, bit, (c.slot as int % 8) as u8);
                                    lemma_set_bit_sets(byte, bit);
                                }
                            }
                            Self::lemma_table_frame(*old(self), *self);
                        }
                        return Ok(slot);
                    }
                    bit = bit + 1;
                }
                proof {
                    lemma_all_bits_set(byte);
                    assert(false);
                }
            }
            proof {
                assert forall|t: int| TWZSLOT_ALLOC_START <= t < 8 * (i + 1)
                    implies self.slot_used(t) by {
                    if t >= 8 * (i as int) {
                        assert(t / 8 == i as int);
                        lemma_full_byte_bit(byte, (t % 8) as u8);
                    }
                }
            }
            i = i + 1;
        }
        Err(TwzErr::OutOfSlots)
    }


    /// Whether a new key hashing to `id`'s bucket cannot be installed: the
    /// bucket's list has no empty cell and the chain array has no cell left
    /// to append.
    pub open spec fn chain_exhausted_for(self, id: ObjID) -> bool {
        &&& self.chain_top == NR_VIEW_ENTRIES
        &&& forall|j: int| 0 <= j < self.list_len(bucket_index(id))
            ==> (#[trigger] self.cell(bucket_index(id), j)).id != 0
    }

    /// Installs the mapping `(id, flags) -> slot` with one reference,
    /// reusing the first empty cell of the bucket's list or appending a
    /// fresh chain cell.  The slot's bitmap bit must already be set.  Fails
    /// exactly when the list is full and the chain array is exhausted,
    /// changing nothing.
    pub fn insert_obj(&mut self, id: ObjID, flags: u32, slot: u32) -> (r: Result<(), TwzErr>)
        requires
            old(self).wf(),
            id != 0,
            !old(self).has_key(id, flags),
            TWZSLOT_ALLOC_START <= slot <= TWZSLOT_ALLOC_MAX,
            old(self).slot_used(slot as int),
            forall|h: int, j: int| 0 <= h < NR_VIEW_BUCKETS && #[trigger] old(self).occ(h, j)
                ==> old(self).cell(h, j).slot != slot,
        ensures
            final(self).wf(),
            final(self).bitmap == old(self).bitmap,
            final(self).entries == old(self).entries,
            final(self).id == old(self).id,
            match r {
                Ok(_) => {
                    &&& final(self).has_key(id, flags)
                    &&& final(self).slot_of(id, flags) == slot
                    &&& final(self).refcount_of(id, flags) == 1
                    &&& forall|i: ObjID, f: u32| !(i == id && f == flags)
                        ==> #[trigger] final(self).has_key(i, f) == old(self).has_key(i, f)
                    &&& forall|i: ObjID, f: u32|
                        #![trigger final(self).slot_of(i, f)]
                        #![trigger final(self).refcount_of(i, f)]
                        old(self).has_key(i, f) && !(i == id && f == flags)
                        ==> final(self).slot_of(i, f) == old(self).slot_of(i, f)
                            && final(self).refcount_of(i, f) == old(self).refcount_of(i, f)
                    &&& final(self).as_map()
                        == old(self).as_map().insert((id, flags), (slot as u64, 1))
                },
                Err(e) => {
                    &&& e == TwzErr::OutOfSlots
                    &&& old(self).chain_exhausted_for(id)
                    &&& *final(self) == *old(self)
                },
            },
    {
        let h = (id % (NR_VIEW_BUCKETS as u128)) as usize;
        let ghost hh = h as int;
        let mut first = true;
        let mut i = h;
        let ghost mut j: int = 0;
        loop
            invariant
                *self == *old(self),
                self.wf(),
                id != 0,
                !self.has_key(id, flags),
                TWZSLOT_ALLOC_START <= slot <= TWZSLOT_ALLOC_MAX,
                self.slot_used(slot as int),
                forall|h2: int, j2: int| 0 <= h2 < NR_VIEW_BUCKETS && #[trigger] self.occ(h2, j2)
                    ==> self.cell(h2, j2).slot != slot,
                hh == bucket_index(id),
                h == hh,
                h < NR_VIEW_BUCKETS,
                0 <= j < self.list_len(hh),
                first ==> j == 0 && i == h,
                !first ==> 1 <= j && i as int == self.paths@[hh][j - 1] && i < NR_VIEW_ENTRIES,
                forall|jj: int| 0 <= jj < j ==> (#[trigger] self.cell(hh, jj)).id != 0,
            decreases self.list_len(hh) - j,
        {
            let cell = if first { self.buckets[i] } else { self.chain[i] };
            proof {
                assert(cell == self.cell(hh, j));
            }
            if cell.id == 0 {
                let nc = ViewBucket { id, slot, flags, chain: cell.chain, refcount: 1 };
                if first {
                    self.buckets[i] = nc;
                } else {
                    self.chain[i] = nc;
                }
                proof {
                    Self::lemma_one_cell_changed(*old(self), *self, hh, j, nc);
                    assert forall|h2: int, j2: int|
                        0 <= h2 < NR_VIEW_BUCKETS && 0 <= j2 < self.list_len(h2)
                            && (h2 != hh || j2 != j)
                        implies 0 <= j2 < old(self).list_len(h2)
                            && Self::content_eq(#[trigger] self.cell(h2, j2), old(self).cell(h2, j2)) by {
                        assert(self.list_len(h2) == old(self).list_len(h2));
                        assert(self.cell(h2, j2) == old(self).cell(h2, j2));
                    }
                    assert forall|h2: int| 0 <= h2 < NR_VIEW_BUCKETS
                        implies #[trigger] self.list_len(h2) >= old(self).list_len(h2) by {
                        assert(self.list_len(h2) == old(self).list_len(h2));
                    }
                    Self::lemma_key_installed(*old(self), *self, id, flags, slot, hh, j);
                }
                return Ok(());
            }
            let c = cell.chain;
            if c == 0 {
                if self.chain_top == NR_VIEW_ENTRIES {
                    proof {
                        if j + 1 < self.list_len(hh) {
                            assert(self.paths@[hh][j] >= 0);
                            assert(false);
                        }
                        assert forall|jj: int| 0 <= jj < self.list_len(hh)
                            implies (#[trigger] self.cell(hh, jj)).id != 0 by {
                            if jj == j {
                                assert(self.cell(hh, j).id != 0);
                            }
                        }
                    }
                    return Err(TwzErr::OutOfSlots);
                }
                let p = self.chain_top;
                let ghost pre = *self;
                let ghost pth = pre.paths@[hh];
                proof {
                    if j + 1 < pre.list_len(hh) {
                        assert(pre.paths@[hh][j] >= 0);
                        assert(false);
                    }
                    assert(j == pth.len());
                }
                let nc = ViewBucket { id, slot, flags, chain: 0, refcount: 1 };
                self.chain[p] = nc;
                let linked = ViewBucket {
                    id: cell.id,
                    slot: cell.slot,
                    flags: cell.flags,
                    chain: (p + 1) as u32,
                    refcount: cell.refcount,
                };
                if first {
                    self.buckets[i] = linked;
                } else {
                    self.chain[i] = linked;
                }
                self.chain_top = p + 1;
                let ghost newpaths = pre.paths@.update(hh, pth.push(p as int));
                self.paths = Ghost(newpaths);
                proof {
                    let pp = p as int;
                    let it = i as int;
                    assert(self.paths@[hh] == pth.push(pp));
                    assert forall|h2: int, j2: int|
                        0 <= h2 < NR_VIEW_BUCKETS && 0 <= j2 < self.paths@[h2].len()
                        implies 0 <= #[trigger] self.paths@[h2][j2] < self.chain_top by {
                        if h2 == hh {
                            if j2 < pth.len() {
                                assert(self.paths@[h2][j2] == pth[j2]);
                                assert(0 <= pre.paths@[hh][j2] < pre.chain_top);
                            } else {
                                assert(self.paths@[h2][j2] == pp);
                            }
                        } else {
                            assert(self.paths@[h2][j2] == pre.paths@[h2][j2]);
                            assert(0 <= pre.paths@[h2][j2] < pre.chain_top);
                        }
                    }
                    assert forall|h1: int, j1: int, h2: int, j2: int|
                        0 <= h1 < NR_VIEW_BUCKETS && 0 <= j1 < self.paths@[h1].len()
                            && 0 <= h2 < NR_VIEW_BUCKETS && 0 <= j2 < self.paths@[h2].len()
                            && (h1 != h2 || j1 != j2)
                        implies #[trigger] self.paths@[h1][j1] != #[trigger] self.paths@[h2][j2] by {
                        let v1 = self.paths@[h1][j1];
                        let v2 = self.paths@[h2][j2];
                        if h1 == hh && j1 == pth.len() {
                            assert(v1 == pp);
                            if h2 == hh && j2 < pth.len() {
                                assert(v2 == pth[j2] && 0 <= pre.paths@[hh][j2] < pre.chain_top);
                            }
                            if h2 != hh {
                                assert(v2 == pre.paths@[h2][j2] && 0 <= pre.paths@[h2][j2] < pre.chain_top);
                            }
                        } else if h2 == hh && j2 == pth.len() {
                            assert(v2 == pp);
                            if h1 == hh && j1 < pth.len() {
                                assert(v1 == pth[j1] && 0 <= pre.paths@[hh][j1] < pre.chain_top);
                            }
                            if h1 != hh {
                                assert(v1 == pre.paths@[h1][j1] && 0 <= pre.paths@[h1][j1] < pre.chain_top);
                            }
                        } else {
                            assert(v1 == pre.paths@[h1][j1]);
                            assert(v2 == pre.paths@[h2][j2]);
                        }
                    }
                    assert(self.wf_paths());
                    if !first {
                        assert(it == pth[j - 1]);
                        assert(0 <= it < pre.chain_top);
                    }
                    assert forall|h2: int| 0 <= h2 < NR_VIEW_BUCKETS implies ({
                        let q = #[trigger] self.paths@[h2];
                        &&& self.buckets@[h2].chain as int == (if q.len() == 0 { 0int } else { q[0] + 1 })
                        &&& forall|j2: int| 0 <= j2 < q.len()
                            ==> (#[trigger] self.chain@[q[j2]].chain) as int
                                == (if j2 + 1 < q.len() { q[j2 + 1] + 1 } else { 0int })
                    }) by {
                        let q = self.paths@[h2];
                        if h2 == hh {
                            assert(q == pth.push(pp));
                            if pth.len() == 0 {
                                assert(first);
                                assert(self.buckets@[hh].chain == (p + 1) as u32);
                            } else {
                                assert(!(first && j == 0 && pth.len() > 0));
                                assert(!first);
                                assert(self.buckets@[hh].chain == pre.buckets@[hh].chain);
                                assert(pre.buckets@[hh].chain as int == pth[0] + 1);
                                assert(q[0] == pth[0]);
                            }
                            assert forall|j2: int| 0 <= j2 < q.len()
                                implies (#[trigger] self.chain@[q[j2]].chain) as int
                                    == (if j2 + 1 < q.len() { q[j2 + 1] + 1 } else { 0int }) by {
                                if j2 == pth.len() {
                                    assert(q[j2] == pp);
                                    assert(self.chain@[pp] == nc);
                                } else if j2 == pth.len() - 1 {
                                    assert(q[j2] == pth[j2]);
                                    assert(!first);
                                    assert(pth[j2] == it);
                                    assert(self.chain@[it] == linked);
                                    assert(q[j2 + 1] == pp);
                                } else {
                                    assert(q[j2] == pth[j2]);
                                    assert(0 <= pre.paths@[hh][j2] < pre.chain_top);
                                    if !first && pth[j2] == it {
                                        assert(pre.paths@[hh][j2] != pre.paths@[hh][j - 1]);
                                        assert(false);
                                    }
                                    assert(self.chain@[pth[j2]] == pre.chain@[pth[j2]]);
                                    assert(pre.chain@[pre.paths@[hh][j2]].chain as int
                                        == (if j2 + 1 < pth.len() { pth[j2 + 1] + 1 } else { 0int }));
                                    assert(q[j2 + 1] == pth[j2 + 1]);
                                }
                            }
                        } else {
                            assert(q == pre.paths@[h2]);
                            assert(self.buckets@[h2].chain == pre.buckets@[h2].chain);
                            assert(pre.buckets@[h2].chain as int
                                == (if q.len() == 0 { 0int } else { q[0] + 1 }));
                            assert forall|j2: int| 0 <= j2 < q.len()
                                implies (#[trigger] self.chain@[q[j2]].chain) as int
                                    == (if j2 + 1 < q.len() { q[j2 + 1] + 1 } else { 0int }) by {
                                assert(0 <= pre.paths@[h2][j2] < pre.chain_top);
                                assert(q[j2] != pp);
                                if !first {
                                    assert(pre.paths@[h2][j2] != pre.paths@[hh][j - 1]);
                                }
                                assert(self.chain@[q[j2]] == pre.chain@[q[j2]]);
                                assert(pre.chain@[pre.paths@[h2][j2]].chain as int
                                    == (if j2 + 1 < q.len() { pre.paths@[h2][j2 + 1] + 1 } else { 0int }));
                            }
                        }
                    }
                    assert(self.wf_links());
                    assert forall|q2: int| self.chain_top <= q2 < NR_VIEW_ENTRIES
                        implies (#[trigger] self.chain@[q2]).chain == 0 && self.chain@[q2].id == 0 by {
                        assert(q2 != pp);
                        if !first {
                            assert(q2 != it);
                        }
                        assert(self.chain@[q2] == pre.chain@[q2]);
                    }
                    assert(self.wf_unused());
                    assert(self.wf_lens());
                    let j0 = j + 1;
                    assert(self.paths@[hh][j0 - 1] == pp);
                    assert(self.cell(hh, j0) == nc);
                    assert forall|h2: int, j2: int|
                        0 <= h2 < NR_VIEW_BUCKETS && 0 <= j2 < self.list_len(h2)
                            && (h2 != hh || j2 != j0)
                        implies 0 <= j2 < pre.list_len(h2)
                            && Self::content_eq(#[trigger] self.cell(h2, j2), pre.cell(h2, j2)) by {
                        if h2 == hh {
                            assert(self.list_len(hh) == pre.list_len(hh) + 1);
                            assert(j2 <= j);
                            if j2 == 0 {
                                if first {
                                    assert(self.cell(h2, j2) == linked);
                                    assert(pre.cell(h2, j2) == cell);
                                } else {
                                    assert(self.cell(h2, j2) == pre.buckets@[h2]);
                                }
                            } else {
                                assert(self.paths@[hh][j2 - 1] == pth[j2 - 1]);
                                assert(0 <= pre.paths@[hh][j2 - 1] < pre.chain_top);
                                if !first && pth[j2 - 1] == it {
                                    assert(j2 == j);
                                    assert(self.cell(h2, j2) == linked);
                                    assert(pre.cell(h2, j2) == cell);
                                } else {
                                    if first {
                                        assert(self.cell(h2, j2) == pre.chain@[pth[j2 - 1]]);
                                    } else {
                                        assert(self.cell(h2, j2) == pre.chain@[pth[j2 - 1]]);
                                    }
                                }
                            }
                        } else {
                            assert(self.paths@[h2] == pre.paths@[h2]);
                            if j2 == 0 {
                                assert(self.buckets@[h2] == pre.buckets@[h2]);
                            } else {
                                assert(0 <= pre.paths@[h2][j2 - 1] < pre.chain_top);
                                if !first {
                                    assert(pre.paths@[h2][j2 - 1] != pre.paths@[hh][j - 1]);
                                }
                                assert(self.cell(h2, j2) == pre.chain@[pre.paths@[h2][j2 - 1]]);
                            }
                        }
                    }
                    assert forall|h2: int| 0 <= h2 < NR_VIEW_BUCKETS
                        implies #[trigger] self.list_len(h2) >= pre.list_len(h2) by {
                        if h2 != hh {
                            assert(self.paths@[h2] == pre.paths@[h2]);
                        }
                    }
                    Self::lemma_key_installed(pre, *self, id, flags, slot, hh, j0);
                }
                return Ok(());
            }
            proof {
                if j + 1 >= self.list_len(hh) {
                    assert(false);
                }
                assert(c as int == self.paths@[hh][j] + 1);
            }
            i = (c - 1) as usize;
            first = false;
            proof {
                j = j + 1;
            }
        }
    }

    /// Returns slot `slot` to the free pool.
    ///
    /// The caller must have evicted any table cell that owned the slot: a
    /// live cell's bit stays set.
    pub fn dealloc_slot(&mut self, slot: u32)
        requires
            old(self).wf(),
            slot < 8 * NR_BITMAP_BYTES,
            forall|h: int, j: int| 0 <= h < NR_VIEW_BUCKETS && #[trigger] old(self).occ(h, j)
                ==> old(self).cell(h, j).slot != slot,
        ensures
            final(self).wf(),
            final(self).buckets == old(self).buckets,
            final(self).chain == old(self).chain,
            final(self).chain_top == old(self).chain_top,
            final(self).entries == old(self).entries,
            final(self).id == old(self).id,
            final(self).paths == old(self).paths,
            !final(self).slot_used(slot as int),
            forall|t: int| 0 <= t < 8 * NR_BITMAP_BYTES && t != slot as int
                ==> final(self).slot_used(t) == old(self).slot_used(t),
    {
        let idx = (slot / 8) as usize;
        let bit = (slot % 8) as u8;
        let byte = self.bitmap[idx];
        let updated = byte & !(1u8 << bit);
        self.bitmap[idx] = updated;
        proof {
            lemma_clear_bit_clears(byte, bit);
            assert forall|t: int| 0 <= t < 8 * NR_BITMAP_BYTES && t != slot as int
                implies self.slot_used(t) == old(self).slot_used(t) by {
                if t / 8 == idx as int {
                    lemma_clear_bit_preserves(byte, bit, (t % 8) as u8);
                }
            }
            assert forall|h: int, j: int|
                0 <= h < NR_VIEW_BUCKETS && #[trigger] self.occ(h, j)
                implies slot_bit(self.bitmap@, self.cell(h, j).slot as int) by {
                assert(old(self).occ(h, j));
                let c = self.cell(h, j);
                assert(c == old(self).cell(h, j));
                assert(c.slot != slot);
                if c.slot as int / 8 == idx as int {
                    lemma_clear_bit_preserves(byte, bit, (c.slot as int % 8) as u8);
                }
            }
            Self::lemma_table_frame(*old(self), *self);
        }
    }
}


/// The mapping table after `n` reservations of key `k` on slot `s`,
/// starting from `m0`: exactly what `reserve_slot` ensures at each step.
pub open spec fn reserved_n(
    m0: Map<(ObjID, u32), (u64, u32)>,
    k: (ObjID, u32),
    s: u64,
    n: nat,
) -> Map<(ObjID, u32), (u64, u32)>
    decreases n,
{
    if n == 0 {
        m0
    } else {
        reserved_n(m0, k, s, (n - 1) as nat).insert(k, (s, n as u32))
    }
}

/// One release step of key `k`: the count drops by one, and the key leaves
/// the table when the count reaches zero — exactly what `release_slot`
/// ensures.
pub open spec fn release_step(
    m: Map<(ObjID, u32), (u64, u32)>,
    k: (ObjID, u32),
) -> Map<(ObjID, u32), (u64, u32)>
    recommends
        m.contains_key(k),
{
    if m[k].1 > 1 {
        m.insert(k, (m[k].0, (m[k].1 - 1) as u32))
    } else {
        m.remove(k)
    }
}

/// The mapping table after `n` release steps of key `k`.
pub open spec fn released_n(
    m: Map<(ObjID, u32), (u64, u32)>,
    k: (ObjID, u32),
    n: nat,
) -> Map<(ObjID, u32), (u64, u32)>
    decreases n,
{
    if n == 0 {
        m
    } else {
        released_n(release_step(m, k), k, (n - 1) as nat)
    }
}

/// `n` reservations of an unmapped key amount to one entry carrying the
/// slot and the count `n`.
pub proof fn lemma_reserved_n(m0: Map<(ObjID, u32), (u64, u32)>, k: (ObjID, u32), s: u64, n: nat)
    requires
        1 <= n <= u32::MAX,
    ensures
        reserved_n(m0, k, s, n) == m0.insert(k, (s, n as u32)),
    decreases n,
{
    assert(reserved_n(m0, k, s, n)
        == reserved_n(m0, k, s, (n - 1) as nat).insert(k, (s, n as u32)));
    if n == 1 {
        assert(reserved_n(m0, k, s, 0) == m0);
    } else {
        lemma_reserved_n(m0, k, s, (n - 1) as nat);
        assert(m0.insert(k, (s, (n - 1) as u32)).insert(k, (s, n as u32))
            =~= m0.insert(k, (s, n as u32)));
    }
}

/// For every key and slot: `n` reservations followed by `n` releases return
/// the mapping table to its pre-call state, and afterwards the key is gone,
/// so an `(n + 1)`-th release is refused by `release_slot`'s contract.  The
/// freed slot likewise leaves the used-slot set it had entered, so the free
/// bitmap is restored too.
pub proof fn lemma_reserve_release_roundtrip(
    m0: Map<(ObjID, u32), (u64, u32)>,
    used0: Set<int>,
    k: (ObjID, u32),
    s: u64,
    n: nat,
)
    requires
        !m0.contains_key(k),
        !used0.contains(s as int),
        1 <= n <= u32::MAX,
    ensures
        released_n(reserved_n(m0, k, s, n), k, n) == m0,
        !released_n(reserved_n(m0, k, s, n), k, n).contains_key(k),
        used0.insert(s as int).remove(s as int) == used0,
{
    lemma_reserved_n(m0, k, s, n);
    lemma_released_peel(m0, k, s, n);
    assert(used0.insert(s as int).remove(s as int) =~= used0);
}

/// Releasing `n` times from a table holding `k` with count `n` peels the
/// count down to zero and removes the key.
proof fn lemma_released_peel(m0: Map<(ObjID, u32), (u64, u32)>, k: (ObjID, u32), s: u64, n: nat)
    requires
        !m0.contains_key(k),
        1 <= n <= u32::MAX,
    ensures
        released_n(m0.insert(k, (s, n as u32)), k, n) == m0,
    decreases n,
{
    let m = m0.insert(k, (s, n as u32));
    assert(released_n(m, k, n) == released_n(release_step(m, k), k, (n - 1) as nat));
    if n == 1 {
        assert(release_step(m, k) =~= m0);
        assert(released_n(m0, k, 0) == m0);
        assert(released_n(release_step(m, k), k, 0) == release_step(m, k));
    } else {
        assert(release_step(m, k) =~= m0.insert(k, (s, (n - 1) as u32)));
        lemma_released_peel(m0, k, s, (n - 1) as nat);
    }
}

} // verus!
