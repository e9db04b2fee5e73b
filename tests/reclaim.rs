use aba_protection::tagged::{AtomicTaggedPtr, TaggedPtr, NIL};
use aba_protection::{EpochReclaimer, HazardPointers};

#[test]
fn pack_and_unpack_round_trip() {
    let t = TaggedPtr { ptr: 0x1234_5678_9abc_def0, version: 7 };
    let word = t.pack();
    assert_eq!(word, (7u128 << 64) | 0x1234_5678_9abc_def0u128);
    assert_eq!(TaggedPtr::unpack(word), t);
    let top = TaggedPtr { ptr: NIL, version: u64::MAX };
    assert_eq!(TaggedPtr::unpack(top.pack()), top);
}

#[test]
fn compare_and_swap_bumps_the_version() {
    let mut cell = AtomicTaggedPtr::new();
    let start = cell.load();
    assert_eq!(start, TaggedPtr { ptr: NIL, version: 0 });
    assert_eq!(cell.compare_and_swap(start, 3), Ok(()));
    assert_eq!(cell.load(), TaggedPtr { ptr: 3, version: 1 });
    // The same address again, but the stale snapshot no longer matches.
    let mid = cell.load();
    assert_eq!(cell.compare_and_swap(mid, NIL), Ok(()));
    assert_eq!(cell.compare_and_swap(cell.load(), 3), Ok(()));
    assert_eq!(cell.load().ptr, mid.ptr);
    assert_eq!(cell.compare_and_swap(mid, 9), Err(TaggedPtr { ptr: 3, version: 3 }));
    assert_eq!(cell.load(), TaggedPtr { ptr: 3, version: 3 });
}

#[test]
fn largest_version_round_trips() {
    let t = TaggedPtr { ptr: 1, version: u64::MAX };
    assert_eq!(TaggedPtr::unpack(t.pack()), t);
}

#[test]
fn mismatched_snapshot_leaves_the_cell_alone() {
    let mut cell = AtomicTaggedPtr::new();
    assert_eq!(cell.compare_and_swap(TaggedPtr { ptr: 5, version: 5 }, 1), Err(TaggedPtr { ptr: NIL, version: 0 }));
    assert_eq!(cell.load(), TaggedPtr { ptr: NIL, version: 0 });
}

#[test]
fn hazard_scan_keeps_protected_addresses() {
    let mut hp = HazardPointers::new();
    assert_eq!(hp.protect(1, 4), 4);
    assert_eq!(hp.protect(2, NIL), NIL);
    for a in 0..10u64 {
        assert!(hp.retire(a).is_empty());
    }
    // The eleventh retirement crosses the threshold and scans.
    let freed = hp.retire(10);
    assert_eq!(freed, vec![0, 1, 2, 3, 5, 6, 7, 8, 9, 10]);
    // Address 4 is still protected.
    let (freed, left) = hp.final_reclaim();
    assert!(freed.is_empty());
    assert_eq!(left, 1);
    hp.clear_hazards(1);
    let (freed, left) = hp.final_reclaim();
    assert_eq!(freed, vec![4]);
    assert_eq!(left, 0);
}

#[test]
fn unforced_scan_waits_for_a_batch() {
    let mut hp = HazardPointers::new();
    for a in 0..5u64 {
        hp.retire(a);
    }
    assert!(hp.try_reclaim(false).is_empty());
    assert_eq!(hp.try_reclaim(true), vec![0, 1, 2, 3, 4]);
    assert!(hp.try_reclaim(true).is_empty());
}

#[test]
fn protect_replaces_the_threads_slot() {
    let mut hp = HazardPointers::new();
    hp.protect(1, 10);
    hp.protect(1, 11);
    hp.retire(10);
    hp.retire(11);
    assert_eq!(hp.try_reclaim(true), vec![10]);
}

#[test]
fn epoch_frees_only_after_pinned_threads_move_on() {
    let mut ebr = EpochReclaimer::new();
    ebr.pin(1);
    ebr.retire(100);
    // Thread 1 entered at epoch 0, the node was retired in epoch 0.
    assert!(ebr.collect().is_empty());
    assert!(ebr.try_advance());
    // Still pinned at epoch 0: nothing is safe.
    assert!(ebr.collect().is_empty());
    ebr.pin(1);
    // Thread 1 re-entered at epoch 1, after the retirement.
    assert_eq!(ebr.collect(), vec![100]);
}

#[test]
fn epoch_does_not_advance_past_a_lagging_thread() {
    let mut ebr = EpochReclaimer::new();
    ebr.pin(1);
    assert!(ebr.try_advance());
    // Thread 1 is still at epoch 0 while the global epoch is 1.
    assert!(!ebr.try_advance());
    ebr.unpin(1);
    assert!(ebr.try_advance());
}

#[test]
fn epoch_with_nobody_pinned_frees_at_once() {
    let mut ebr = EpochReclaimer::new();
    ebr.retire(5);
    ebr.retire(6);
    assert_eq!(ebr.collect(), vec![5, 6]);
}

#[test]
fn retire_list_membership() {
    let mut hp = HazardPointers::new();
    assert!(!hp.is_retired(3));
    hp.retire(3);
    assert!(hp.is_retired(3));
    assert!(hp.retire(NIL).is_empty());
    assert!(!hp.is_retired(NIL));
}
