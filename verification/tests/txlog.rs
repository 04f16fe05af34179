use twz::context::Context;
use twz::create::{BackingType, CreateSpec, LifetimeType};
use twz::space::NULLPAGE_SIZE;
use twz::tx::{TransactionErr, TX_LOG_BYTES, TX_RECORD_ALLOC, TX_RECORD_BYTES};
use twz::twzobj::Twzobj;
use twz::TwzErr;

fn ctx_with_obj() -> (Context, Twzobj) {
    let mut ctx = Context::new();
    let spec = CreateSpec::new(LifetimeType::Persistent, BackingType::Normal, 0xc);
    let o = Twzobj::create_base(&mut ctx, &spec, 0).unwrap();
    (ctx, o)
}

#[test]
fn prep_appends_a_fixed_format_record() {
    let (mut ctx, o) = ctx_with_obj();
    let tx = o.transaction();
    let log_off = tx.get_log(&ctx).unwrap();
    let rec = tx.prep_alloc_free_on_fail(&mut ctx, 0xabcd).unwrap();
    assert_eq!(rec, log_off + TX_RECORD_BYTES + 8);
    assert_eq!(o.read(&ctx, log_off + TX_RECORD_BYTES).unwrap(), TX_RECORD_ALLOC);
    assert_eq!(o.read(&ctx, rec).unwrap(), 0xabcd);
    // the append cursor advanced one record
    assert_eq!(o.read(&ctx, log_off + 8).unwrap(), TX_RECORD_BYTES);
}

#[test]
fn log_exhaustion_is_recoverable() {
    let (mut ctx, o) = ctx_with_obj();
    let tx = o.transaction();
    let capacity = TX_LOG_BYTES / TX_RECORD_BYTES;
    for i in 0..capacity {
        tx.prep_alloc_free_on_fail(&mut ctx, i).unwrap();
    }
    assert_eq!(
        tx.prep_alloc_free_on_fail(&mut ctx, 0),
        Err(TransactionErr::LogFull)
    );
}

#[test]
fn corrupt_log_shape_aborts() {
    let (mut ctx, o) = ctx_with_obj();
    let tx = o.transaction();
    let log_off = tx.get_log(&ctx).unwrap();
    // overwrite the stored log length
    o.write(&mut ctx, log_off, 12345).unwrap();
    assert_eq!(
        tx.prep_alloc_free_on_fail(&mut ctx, 0),
        Err(TransactionErr::Abort(TwzErr::Invalid))
    );
    assert_eq!(log_off, NULLPAGE_SIZE + 8);
}

#[test]
fn new_item_records_its_allocation_before_linking() {
    let (mut ctx, o) = ctx_with_obj();
    let tx = o.transaction();
    let log_off = tx.get_log(&ctx).unwrap();
    let p = o.new_item(&mut ctx, &tx).unwrap();
    assert!(p.is_internal());
    // the item starts zeroed
    assert_eq!(o.read(&ctx, p.p).unwrap(), 0);
    // the log's first record owns the fresh item
    let rec = log_off + TX_RECORD_BYTES + 8;
    assert_eq!(o.read(&ctx, rec).unwrap(), p.p);
}

#[test]
fn copy_item_places_values_in_allocation_order() {
    let (mut ctx, o) = ctx_with_obj();
    let p1 = o.copy_item(&mut ctx, 111).unwrap();
    let p2 = o.copy_item(&mut ctx, 222).unwrap();
    assert_eq!(p2.p, p1.p + 8);
    assert_eq!(o.read(&ctx, p1.p).unwrap(), 111);
    assert_eq!(o.read(&ctx, p2.p).unwrap(), 222);
}

#[test]
fn create_ctor_hands_out_handle_and_transaction() {
    let mut ctx = Context::new();
    let spec = CreateSpec::new(LifetimeType::Persistent, BackingType::Normal, 0xc);
    let (o, tx) = Twzobj::create_ctor(&mut ctx, &spec).unwrap();
    // the constructor body runs here: allocate a field under the transaction
    let p = o.new_item(&mut ctx, &tx).unwrap();
    o.write(&mut ctx, p.p, 5150).unwrap();
    assert_eq!(o.read(&ctx, p.p).unwrap(), 5150);
}
