use twz::context::Context;
use twz::kernel::Kernel;
use twz::mutex::{ResetCache, TwzMutex};

#[test]
fn eighty_thousand_guarded_increments() {
    // eight workers of ten thousand increments each, serialised through
    // the mutex as the sequential model interleaves them
    let mut ctx = Context::new();
    let mut m = TwzMutex::new(0u64);
    for _worker in 0..8 {
        for _ in 0..10_000 {
            let guard = m.lock(&mut ctx.kernel, &mut ctx.cache);
            *m.data_mut() += 1;
            m.unlock(&mut ctx.kernel, guard);
        }
    }
    let guard = m.lock(&mut ctx.kernel, &mut ctx.cache);
    assert_eq!(*m.data(), 80_000);
    m.unlock(&mut ctx.kernel, guard);
}

#[test]
fn reset_bust_unblocks_an_abandoned_lock() {
    let mut kernel = Kernel::new();
    let mut cache = ResetCache::new();
    let mut m = TwzMutex::new(7u64);
    // a process locks the mutex and dies with it held
    let _abandoned = m.lock(&mut kernel, &mut cache);
    assert_eq!(m.sleep, 1);
    // the machine restarts: new epoch, and a fresh process cache
    kernel.advance_reset_epoch();
    let mut fresh_cache = ResetCache::new();
    // a fresh lock succeeds without the original locker ever unlocking
    let guard = m.lock(&mut kernel, &mut fresh_cache);
    assert_eq!(m.sleep, 1);
    assert_eq!(m.resetcode, kernel.reset_epoch);
    m.unlock(&mut kernel, guard);
    assert_eq!(m.sleep, 0);
}

#[test]
fn unlock_wakes_only_with_waiters() {
    let mut kernel = Kernel::new();
    let mut cache = ResetCache::new();
    let mut m = TwzMutex::new(());
    let guard = m.lock(&mut kernel, &mut cache);
    let wakes_before = kernel.wakes;
    m.unlock(&mut kernel, guard);
    assert_eq!(kernel.wakes, wakes_before);
    // waiters present: state 2 wakes
    let guard = m.lock(&mut kernel, &mut cache);
    m.sleep = 2;
    m.unlock(&mut kernel, guard);
    assert_eq!(kernel.wakes, wakes_before + 1);
}

#[test]
fn do_lock_on_contended_mutex_reports_and_sleeps() {
    let mut kernel = Kernel::new();
    let mut m = TwzMutex::new(());
    m.sleep = 1;
    let acquired = m.do_lock(&mut kernel);
    assert!(!acquired);
    assert_eq!(m.sleep, 2);
    assert_eq!(kernel.sleeps, 1);
}
