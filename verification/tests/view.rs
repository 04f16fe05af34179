use twz::context::Context;
use twz::slots::{PROT_READ, PROT_WRITE, TWZSLOT_ALLOC_START};
use twz::TwzErr;

const RW: u32 = PROT_READ | PROT_WRITE;

#[test]
fn reserve_returns_first_free_slot() {
    let mut ctx = Context::new();
    let s = ctx.view.reserve_slot(&mut ctx.kernel, 77, RW).unwrap();
    assert_eq!(s, TWZSLOT_ALLOC_START);
    let s2 = ctx.view.reserve_slot(&mut ctx.kernel, 78, RW).unwrap();
    assert_eq!(s2, TWZSLOT_ALLOC_START + 1);
}

#[test]
fn n_reserves_then_n_releases_restore_the_view() {
    let mut ctx = Context::new();
    let n = 5;
    let mut slot = 0;
    for _ in 0..n {
        slot = ctx.view.reserve_slot(&mut ctx.kernel, 42, RW).unwrap();
        assert_eq!(slot, TWZSLOT_ALLOC_START);
    }
    for _ in 0..n {
        ctx.view.release_slot(42, RW, slot).unwrap();
    }
    // the slot is free again: a fresh key takes it
    let s = ctx.view.reserve_slot(&mut ctx.kernel, 43, RW).unwrap();
    assert_eq!(s, TWZSLOT_ALLOC_START);
    // and the released key is gone: one more release is rejected
    assert_eq!(ctx.view.release_slot(42, RW, slot), Err(TwzErr::Invalid));
}

#[test]
fn double_reserve_returns_identical_slot_without_invalidation() {
    let mut ctx = Context::new();
    let s1 = ctx.view.reserve_slot(&mut ctx.kernel, 9, RW).unwrap();
    let invl_after_first = ctx.kernel.invalidations.len();
    let s2 = ctx.view.reserve_slot(&mut ctx.kernel, 9, RW).unwrap();
    assert_eq!(s1, s2);
    assert_eq!(ctx.kernel.invalidations.len(), invl_after_first);
}

#[test]
fn release_with_wrong_slot_is_rejected() {
    let mut ctx = Context::new();
    let s = ctx.view.reserve_slot(&mut ctx.kernel, 5, RW).unwrap();
    assert_eq!(ctx.view.release_slot(5, RW, s + 1), Err(TwzErr::Invalid));
    assert_eq!(ctx.view.release_slot(5, PROT_READ, s), Err(TwzErr::Invalid));
    ctx.view.release_slot(5, RW, s).unwrap();
}

#[test]
fn pins_count_up_and_down() {
    let mut ctx = Context::new();
    ctx.view.get_slot(100).unwrap();
    ctx.view.get_slot(100).unwrap();
    assert_eq!(ctx.view.put_slot(100), Ok(false));
    assert_eq!(ctx.view.put_slot(100), Ok(true));
    assert_eq!(ctx.view.put_slot(100), Err(TwzErr::Invalid));
}

#[test]
fn exhaustion_is_reported_and_corrupts_nothing() {
    let mut ctx = Context::new();
    let first = ctx.view.reserve_slot(&mut ctx.kernel, 1, RW).unwrap();
    let range = (0x19fff - 0x10010 + 1) as u128;
    let mut id: u128 = 2;
    loop {
        match ctx.view.reserve_slot(&mut ctx.kernel, id, RW) {
            Ok(_) => id += 1,
            Err(e) => {
                assert_eq!(e, TwzErr::OutOfSlots);
                break;
            }
        }
    }
    // every allocatable slot was handed out exactly once
    assert_eq!(id - 2, range - 1);
    // the first mapping is intact: re-reserving returns the same slot
    let again = ctx.view.reserve_slot(&mut ctx.kernel, 1, RW).unwrap();
    assert_eq!(again, first);
}
