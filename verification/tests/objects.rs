use twz::context::Context;
use twz::create::{BackingType, CreateSpec, KuSpec, LifetimeType, SrcSpec, TieSpec};
use twz::meta::{FotTarget, FOTEntry, FOT_NAME, FOT_READ, FOT_VALID, FOT_WRITE};
use twz::pptr::Pptr;
use twz::refs::Pref;
use twz::space::{MAX_SIZE, NULLPAGE_SIZE};
use twz::twzobj::Twzobj;
use twz::TwzErr;

fn spec() -> CreateSpec {
    CreateSpec::new(LifetimeType::Persistent, BackingType::Normal, 0xc)
}

#[test]
fn create_writes_base_and_lays_out_log() {
    let mut ctx = Context::new();
    let a = Twzobj::create_base(&mut ctx, &spec(), 0xfeed).unwrap();
    assert_eq!(a.read(&ctx, NULLPAGE_SIZE).unwrap(), 0xfeed);
    let tx = a.transaction();
    assert_eq!(tx.get_log(&ctx), Some(NULLPAGE_SIZE + 8));
}

#[test]
fn create_spec_builders_accumulate() {
    let s = spec()
        .src(SrcSpec { srcid: 7, start: 0, length: 64 })
        .tie(TieSpec::CurrentView)
        .ku(KuSpec::Obj(9));
    assert_eq!(s.srcs.len(), 1);
    assert_eq!(s.ties.len(), 1);
    assert!(matches!(s.ku, KuSpec::Obj(9)));
    let mut ctx = Context::new();
    let a = Twzobj::create_base(&mut ctx, &s, 0).unwrap();
    let k = ctx.space.find(a.id()).unwrap();
    assert_eq!(ctx.space.objects[k].meta.kuid, 9);
}

#[test]
fn local_pointer_resolves_to_identical_address() {
    let mut ctx = Context::new();
    let a = Twzobj::create_base(&mut ctx, &spec(), 1).unwrap();
    let field = a.base() + 24;
    let target = Pref::new(a.as_generic(), field);
    let p = a.make_ptr(&mut ctx, &target, FOT_READ | FOT_WRITE).unwrap();
    assert!(p.is_internal());
    assert_eq!(p.fot_entry(), 0);
    let resolved = a.lea(&mut ctx, &p).unwrap();
    assert_eq!(resolved.address(), field);
}

#[test]
fn cross_object_pointer_roundtrips_through_store_and_load() {
    let mut ctx = Context::new();
    let a = Twzobj::create_base(&mut ctx, &spec(), 0).unwrap();
    let b = Twzobj::create_base(&mut ctx, &spec(), 0).unwrap();
    // a field of B holds a known value
    let field_off = NULLPAGE_SIZE + 64;
    b.write(&mut ctx, field_off, 0x1111_2222_3333_4444).unwrap();
    // store inside A a pointer to that field
    let target = Pref::new(b.as_generic(), b.base() + 64);
    let at = NULLPAGE_SIZE + 8 * 100;
    let stored = a
        .store_ptr(&mut ctx, at, &target, FOT_READ | FOT_WRITE)
        .unwrap();
    assert!(!stored.is_internal());
    // round trip: load the pointer back out of A's memory
    let word = a.read(&ctx, at).unwrap();
    assert_eq!(word, stored.p);
    let loaded = Pptr::new(word);
    // dereference: resolve and read the target through the reference
    let r = a.lea(&mut ctx, &loaded).unwrap();
    let off = r.local();
    let seen = r.obj.read(&ctx, off).unwrap();
    assert_eq!(seen, 0x1111_2222_3333_4444);
    r.obj.release(&mut ctx).unwrap();
}

#[test]
fn end_to_end_pointer_survives_dropping_direct_references() {
    let mut ctx = Context::new();
    // create object A (read|write) and object B
    let a = Twzobj::create_base(&mut ctx, &spec(), 0).unwrap();
    let b = Twzobj::create_base(&mut ctx, &spec(), 0).unwrap();
    let b_id = b.id();
    // store inside A a pointer to a field of B
    let field_off = NULLPAGE_SIZE + 8 * 7;
    b.write(&mut ctx, field_off, 424242).unwrap();
    let target = Pref::new(b.as_generic(), b.base() + 8 * 7);
    let at = NULLPAGE_SIZE + 8;
    a.store_ptr(&mut ctx, at, &target, FOT_READ | FOT_WRITE).unwrap();
    // drop every reference to B except the one reachable through A
    b.release(&mut ctx).unwrap();
    assert_eq!(
        ctx.view.release_slot(b_id, 0xc, 0),
        Err(TwzErr::Invalid),
        "B's mapping is gone"
    );
    // dereference A's pointer and observe B's field unchanged
    let p = Pptr::new(a.read(&ctx, at).unwrap());
    let r = a.lea(&mut ctx, &p).unwrap();
    assert_eq!(r.obj.id(), b_id);
    let seen = r.obj.read(&ctx, r.local()).unwrap();
    assert_eq!(seen, 424242);
    r.obj.release(&mut ctx).unwrap();
}

#[test]
fn lea_rejects_cleared_and_missing_entries() {
    let mut ctx = Context::new();
    let a = Twzobj::create_base(&mut ctx, &spec(), 0).unwrap();
    // no entry was ever created at index 5
    let p = Pptr::new(5 * MAX_SIZE + 16);
    assert_eq!(a.lea(&mut ctx, &p), Err(TwzErr::Invalid));
    // a cleared entry marks corruption
    let k = ctx.space.find(a.id()).unwrap();
    ctx.space.objects[k]
        .install_fote(5, FOTEntry { target: FotTarget::Direct(99), flags: 0, info: 0 })
        .unwrap();
    assert_eq!(a.lea(&mut ctx, &p), Err(TwzErr::Invalid));
}

#[test]
fn symbolic_name_entries_are_an_unsupported_extension_point() {
    let mut ctx = Context::new();
    let a = Twzobj::create_base(&mut ctx, &spec(), 0).unwrap();
    let k = ctx.space.find(a.id()).unwrap();
    ctx.space.objects[k]
        .install_fote(
            3,
            FOTEntry {
                target: FotTarget::Named(String::from("some/name")),
                flags: FOT_VALID | FOT_NAME,
                info: 0,
            },
        )
        .unwrap();
    let p = Pptr::new(3 * MAX_SIZE);
    assert_eq!(a.lea(&mut ctx, &p), Err(TwzErr::Unsupported));
}

#[test]
fn pointer_setters_match_make_ptr() {
    let mut ctx = Context::new();
    let a = Twzobj::create_base(&mut ctx, &spec(), 0).unwrap();
    let b = Twzobj::create_base(&mut ctx, &spec(), 0).unwrap();
    let target = Pref::new(b.as_generic(), b.base());
    let mut p = Pptr::new_null();
    p.set(&mut ctx, &a, &target, FOT_READ | FOT_WRITE).unwrap();
    assert!(!p.is_internal());
    assert_eq!(p.offset(), NULLPAGE_SIZE);
    let r = a.lea(&mut ctx, &p).unwrap();
    assert_eq!(r.obj.id(), b.id());
    r.obj.release(&mut ctx).unwrap();
}

#[test]
fn handles_pin_and_borrow() {
    let mut ctx = Context::new();
    let a = Twzobj::create_base(&mut ctx, &spec(), 0).unwrap();
    let borrowed = Twzobj::from_ptr(a.base() + 32);
    assert_eq!(borrowed.slot, a.slot);
    assert!(!borrowed.owns);
    let pinned = Twzobj::from_ptr_locked(&mut ctx, a.base() + 32).unwrap();
    assert!(pinned.pinned);
    pinned.release(&mut ctx).unwrap();
    borrowed.release(&mut ctx).unwrap();
    assert!(a.is_same_obj(&Twzobj::from_ptr(a.base())));
}

#[test]
fn fot_entries_grow_monotonically_without_deduplication() {
    let mut ctx = Context::new();
    let a = Twzobj::create_base(&mut ctx, &spec(), 0).unwrap();
    let b = Twzobj::create_base(&mut ctx, &spec(), 0).unwrap();
    let target = Pref::new(b.as_generic(), b.base());
    let p1 = a.make_ptr(&mut ctx, &target, FOT_READ | FOT_WRITE).unwrap();
    let p2 = a.make_ptr(&mut ctx, &target, FOT_READ | FOT_WRITE).unwrap();
    // repeated targets take fresh entries: the chosen policy is monotonic
    // growth, not deduplication
    assert_eq!(p1.fot_entry(), 1);
    assert_eq!(p2.fot_entry(), 2);
}

#[test]
fn extension_scan_returns_the_first_match() {
    let mut ctx = Context::new();
    let a = Twzobj::create_base(&mut ctx, &spec(), 0).unwrap();
    let k = ctx.space.find(a.id()).unwrap();
    let first = ctx.space.objects[k].alloc_metaext(0x77, 32).unwrap();
    let _second = ctx.space.objects[k].alloc_metaext(0x77, 32).unwrap();
    assert_eq!(ctx.space.objects[k].find_metaext(0x77), Some(first));
    assert_eq!(ctx.space.objects[k].find_metaext(0x99), None);
}

#[test]
fn fot_allocation_reuses_the_first_cleared_slot() {
    let mut ctx = Context::new();
    let a = Twzobj::create_base(&mut ctx, &spec(), 0).unwrap();
    let b = Twzobj::create_base(&mut ctx, &spec(), 0).unwrap();
    let target = Pref::new(b.as_generic(), b.base());
    let p1 = a.make_ptr(&mut ctx, &target, FOT_READ | FOT_WRITE).unwrap();
    let p2 = a.make_ptr(&mut ctx, &target, FOT_READ | FOT_WRITE).unwrap();
    assert_eq!((p1.fot_entry(), p2.fot_entry()), (1, 2));
    // clear the first entry: the next allocation takes the smallest
    // non-live index
    let k = ctx.space.find(a.id()).unwrap();
    ctx.space.objects[k]
        .install_fote(1, FOTEntry { target: FotTarget::Direct(0), flags: 0, info: 0 })
        .unwrap();
    let p3 = a.make_ptr(&mut ctx, &target, FOT_READ | FOT_WRITE).unwrap();
    assert_eq!(p3.fot_entry(), 1);
}
