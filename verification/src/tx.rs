//! Crash-consistent allocation bookkeeping: a transaction binds one leader
//! object whose extension hosts a fixed four-kilobyte log with an append
//! cursor.
//!
//! Before a fresh allocation is linked into the permanent structure, a
//! record stating "about to own bytes via this pointer" is appended, so a
//! future open of the object can detect and free an orphaned allocation
//! left by a crash mid-transaction.  Log exhaustion is recoverable — the
//! caller may retry in a fresh transaction — and so surfaces as an error,
//! never as a panic.

use vstd::prelude::*;
use crate::context::Context;
use crate::meta::first_ext;
use crate::objid::ObjID;
use crate::space::{valid_off, Space, TOP_DATA};
use crate::twzobj::Twzobj;
use crate::TwzErr;

verus! {

/// The extension tag of the transaction log.
pub const TX_METAEXT: u64 = 0xabba_abba_4455_6655;

/// Bytes of log area in the fixed log block.
pub const TX_LOG_BYTES: u64 = 4096;

/// Bytes of one fixed-format log record: a type word and a payload word.
pub const TX_RECORD_BYTES: u64 = 16;

/// Record type: a pending allocation owning bytes through a pointer.
pub const TX_RECORD_ALLOC: u64 = 1;

/// Errors of a transactional operation wrapping a user error `E`: a full
/// log — recoverable by retrying in a fresh transaction — or an abort
/// carrying the user's error.
#[derive(Clone, Copy, PartialEq, Eq, Debug)]
pub enum TransactionErr<E> {
    LogFull,
    Abort(E),
}

/// An ephemeral, context-scoped transaction referencing its leader object.
pub struct Transaction {
    pub leader: ObjID,
}

/// The log block of `o` at extension offset `off`: the first word holds
/// the log length, the second the append cursor, and records follow.
pub open spec fn log_len(o: crate::space::ObjectMem, off: u64) -> u64 {
    o.read_spec(off)
}

/// The append cursor of the log block of `o` at extension offset `off`.
pub open spec fn log_top(o: crate::space::ObjectMem, off: u64) -> u64 {
    o.read_spec((off + 8) as u64)
}

/// Whether the log block of `o` at `off` has a sane shape: the declared
/// length is the fixed one and the cursor is whole records inside it.
pub open spec fn log_sane(o: crate::space::ObjectMem, off: u64) -> bool {
    &&& log_len(o, off) == TX_LOG_BYTES
    &&& log_top(o, off) % TX_RECORD_BYTES == 0
    &&& log_top(o, off) <= TX_LOG_BYTES
}

impl Transaction {
    /// A transaction led by the given object.
    pub fn new(leader: &Twzobj) -> (r: Transaction)
        ensures
            r.leader == leader.id,
    {
        Transaction { leader: leader.id }
    }

    /// The extension offset of the leader's log block.
    pub fn get_log(&self, ctx: &Context) -> (r: Option<u64>)
        requires
            ctx.wf(),
            ctx.space.has_obj(self.leader),
        ensures
            r == first_ext(ctx.space.obj_of(self.leader).exts@, TX_METAEXT),
    {
        match ctx.space.find(self.leader) {
            Some(k) => ctx.space.objects[k].find_metaext(TX_METAEXT),
            None => None,
        }
    }

    /// Reserves a log record stating that the caller is about to own bytes
    /// through the pointer `owned`, before the allocation is linked
    /// anywhere permanent.  Returns the byte offset of the record's
    /// pointer word.
    ///
    /// A log whose stored shape is corrupt aborts; a full log reports
    /// `LogFull`, recoverable in a fresh attempt.  Either failure leaves
    /// the object unchanged.
    pub fn prep_alloc_free_on_fail(&self, ctx: &mut Context, owned: u64)
        -> (r: Result<u64, TransactionErr<TwzErr>>)
        requires
            old(ctx).wf(),
            old(ctx).space.has_obj(self.leader),
            first_ext(old(ctx).space.obj_of(self.leader).exts@, TX_METAEXT) is Some,
            ({
                let off = first_ext(old(ctx).space.obj_of(self.leader).exts@, TX_METAEXT)->Some_0;
                &&& valid_off(off)
                &&& off + TX_RECORD_BYTES + TX_LOG_BYTES + TX_RECORD_BYTES <= TOP_DATA
            }),
        ensures
            final(ctx).wf(),
            final(ctx).view == old(ctx).view,
            final(ctx).cache == old(ctx).cache,
            final(ctx).kernel == old(ctx).kernel,
            forall|i: ObjID| #[trigger] final(ctx).space.has_obj(i)
                == old(ctx).space.has_obj(i),
            forall|i: ObjID| old(ctx).space.has_obj(i) && i != self.leader
                ==> #[trigger] final(ctx).space.obj_of(i) == old(ctx).space.obj_of(i),
            ({
                let off = first_ext(old(ctx).space.obj_of(self.leader).exts@, TX_METAEXT)->Some_0;
                let o = old(ctx).space.obj_of(self.leader);
                let n = final(ctx).space.obj_of(self.leader);
                match r {
                    Ok(rec) => {
                        &&& log_sane(o, off)
                        &&& log_top(o, off) + TX_RECORD_BYTES <= TX_LOG_BYTES
                        &&& rec == off + TX_RECORD_BYTES + log_top(o, off) + 8
                        &&& n.read_spec((off + TX_RECORD_BYTES + log_top(o, off)) as u64)
                            == TX_RECORD_ALLOC
                        &&& n.read_spec(rec) == owned
                        &&& log_top(n, off) == log_top(o, off) + TX_RECORD_BYTES
                        &&& log_len(n, off) == TX_LOG_BYTES
                        &&& log_sane(n, off)
                        &&& n.alloc_top == o.alloc_top
                        &&& n.exts == o.exts
                        &&& n.fot == o.fot
                        &&& n.meta == o.meta
                        &&& forall|w: u64| valid_off(w)
                            && !(off + TX_RECORD_BYTES <= w
                                < off + TX_RECORD_BYTES + TX_LOG_BYTES)
                            && w != off + 8
                            ==> #[trigger] n.read_spec(w) == o.read_spec(w)
                    },
                    Err(TransactionErr::LogFull) => {
                        &&& log_sane(o, off)
                        &&& log_top(o, off) + TX_RECORD_BYTES > TX_LOG_BYTES
                        &&& final(ctx).space == old(ctx).space
                    },
                    Err(TransactionErr::Abort(e)) => {
                        &&& e == TwzErr::Invalid
                        &&& !log_sane(o, off)
                        &&& final(ctx).space == old(ctx).space
                    },
                }
            }),
    {
        let k = match ctx.space.find(self.leader) {
            Some(k) => k,
            None => {
                proof {
                    assert(false);
                }
                return Err(TransactionErr::Abort(TwzErr::Invalid));
            },
        };
        let off = match ctx.space.objects[k].find_metaext(TX_METAEXT) {
            Some(off) => off,
            None => {
                proof {
                    assert(false);
                }
                return Err(TransactionErr::Abort(TwzErr::Invalid));
            },
        };
        let len = ctx.space.objects[k].read_word(off);
        let top = ctx.space.objects[k].read_word(off + 8);
        if len != TX_LOG_BYTES || top % TX_RECORD_BYTES != 0 || top > TX_LOG_BYTES {
            return Err(TransactionErr::Abort(TwzErr::Invalid));
        }
        if top + TX_RECORD_BYTES > TX_LOG_BYTES {
            return Err(TransactionErr::LogFull);
        }
        let rec_ty = off + TX_RECORD_BYTES + top;
        let rec_owned = rec_ty + 8;
        let ghost pre0 = ctx.space;
        let obj = &mut ctx.space.objects[k];
        obj.write_word(rec_ty, TX_RECORD_ALLOC);
        obj.write_word(rec_owned, owned);
        obj.write_word(off + 8, top + TX_RECORD_BYTES);
        proof {
            assert(ctx.space.objects@
                == pre0.objects@.update(k as int, ctx.space.objects@[k as int]));
            Space::lemma_space_update(pre0, ctx.space, k as int);
        }
        Ok(rec_owned)
    }
}

} // verus!
