use twz::event::{Event, EventHdr};
use twz::io::ReadOutput;
use twz::kernel::Kernel;
use twz::kso::{KSOAttachment, KSODirAttachments, KSOHdr, KSOType};
use twz::queue::QueueEntry;
use twz::sys::{InvalidateOp, KactionOp, KernelTimeSpec, ThreadSyncArgs};

#[test]
fn event_wake_is_wake_minimising() {
    let mut kernel = Kernel::new();
    let mut hdr = EventHdr::new();
    hdr.wake(&mut kernel, 0b101);
    assert_eq!(hdr.point, 0b101);
    assert_eq!(kernel.wakes, 1);
    // already set: no wake request
    hdr.wake(&mut kernel, 0b001);
    assert_eq!(kernel.wakes, 1);
    let ev = Event::new(0b100);
    assert_eq!(ev.ready(&hdr), 0b100);
    assert_eq!(ev.clear(&mut hdr), 0b100);
    assert_eq!(hdr.point, 0b001);
    assert_eq!(ev.events(), 0b100);
}

#[test]
fn read_output_classification() {
    assert!(ReadOutput::Done(3).is_ready());
    assert!(!ReadOutput::Done(3).is_eof());
    assert!(ReadOutput::EOF.is_eof());
    assert!(ReadOutput::WouldBlock.is_blocked());
}

#[test]
fn queue_entries_carry_their_item() {
    let mut e = QueueEntry::new(0xdead_beefu64, 42);
    assert_eq!(e.info(), 42);
    assert_eq!(*e.item(), 0xdead_beef);
    *e.item_mut() = 7;
    assert_eq!(e.consume(), 7);
}

#[test]
fn sync_and_action_descriptors() {
    let s = ThreadSyncArgs::new_sleep(0x1000, 2);
    assert_eq!(s.op, twz::sys::THREAD_SYNC_SLEEP);
    assert_eq!(s.arg, 2);
    let w = ThreadSyncArgs::new_wake(0x1000, 1);
    assert_eq!(w.op, twz::sys::THREAD_SYNC_WAKE);
    let t = KernelTimeSpec::new(1, 500);
    assert_eq!((t.sec, t.nsec), (1, 500));
    let i = InvalidateOp::new_current(0x4000_0000, 0x1000);
    assert_eq!(i.flags, twz::sys::KSOI_VALID | twz::sys::KSOI_CURRENT);
    let k = KactionOp::new(5, 1, 2);
    assert_eq!(k.result(), 0);
}

#[test]
fn kso_directories_index_their_attachments() {
    let hdr = KSOHdr::new(vec![0x74, 0x77, 0x7a], 1);
    assert_eq!(hdr.version, 1);
    let dir = KSODirAttachments {
        attached: vec![KSOAttachment { id: 3, info: 0, attype: 0, flags: 0 }],
    };
    assert_eq!(dir.len(), 1);
    assert_eq!(dir.get(0).unwrap().id, 3);
    assert!(dir.get(1).is_none());
    assert!(matches!(KSOType::Device, KSOType::Device));
}
