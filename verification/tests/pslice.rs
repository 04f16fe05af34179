use twz::context::Context;
use twz::create::{BackingType, CreateSpec, LifetimeType};
use twz::pslice::Pslice;
use twz::twzobj::Twzobj;

#[test]
fn slices_roundtrip_their_words() {
    let mut ctx = Context::new();
    let spec = CreateSpec::new(LifetimeType::Volatile, BackingType::Normal, 0xc);
    let o = Twzobj::create_base(&mut ctx, &spec, 0).unwrap();
    let data = vec![10u64, 20, 30, 40];
    let s = Pslice::from_slice(&mut ctx, &o, &data).unwrap();
    assert_eq!(s.len, 4);
    let back = s.lea_slice(&ctx, &o).unwrap();
    assert_eq!(back, data);
    s.free_slice(&mut ctx, &o).unwrap();
}

#[test]
fn empty_slice_is_null() {
    let e = Pslice::empty();
    assert_eq!((e.len, e.p), (0, 0));
}

#[test]
fn empty_slice_reads_back_empty() {
    let ctx = Context::new();
    let o = Twzobj::init_slot(5, 0xc, 0x11000, false, false);
    let e = Pslice::empty();
    let back = e.lea_slice(&ctx, &o).unwrap();
    assert!(back.is_empty());
}
