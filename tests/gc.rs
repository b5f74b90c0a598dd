use pbs_store::gc::{atime_after_mark, min_atime, needs_touch, sweep_decision, GarbageCollectionStatus, SweepAction, MIN_ATIME_SAFETY_MARGIN};

#[test]
fn gc_keeps_touched_chunk() {
    let gc_start: i64 = 1_700_000_000;
    // the backup touched chunk C ten minutes before the collection started
    let touched = gc_start - 600;
    let cutoff = min_atime(gc_start, 3600);
    assert_eq!(cutoff, gc_start - 3600);
    assert_ne!(sweep_decision(touched, cutoff, gc_start), SweepAction::Remove);
    assert_eq!(sweep_decision(touched, cutoff, gc_start), SweepAction::Pending);
    // an unreferenced chunk from two hours ago goes
    assert_eq!(sweep_decision(gc_start - 7200, cutoff, gc_start), SweepAction::Remove);
    // a chunk the mark phase touched is in use
    let marked = atime_after_mark(gc_start - 7200, gc_start + 5, 0);
    assert_eq!(marked, gc_start + 5);
    assert_eq!(sweep_decision(marked, cutoff, gc_start), SweepAction::Keep);
}

#[test]
fn touch_threshold() {
    assert!(needs_touch(100, 1000, 500));
    assert!(!needs_touch(600, 1000, 500));
    assert_eq!(atime_after_mark(600, 1000, 500), 600);
    assert_eq!(min_atime(i64::MIN + 5, MIN_ATIME_SAFETY_MARGIN), i64::MIN);
    assert_eq!(MIN_ATIME_SAFETY_MARGIN, 24 * 3600 + 300);
}

#[test]
fn status_counters() {
    let mut s = GarbageCollectionStatus::default();
    assert_eq!(s.index_file_count, 0);
    assert!(s.upid.is_none());
    s.record_index(1000);
    s.record_index(24);
    assert_eq!(s.index_file_count, 2);
    assert_eq!(s.index_data_bytes, 1024);
    s.record_chunk(SweepAction::Remove, 10, false);
    s.record_chunk(SweepAction::Remove, 5, true);
    s.record_chunk(SweepAction::Pending, 7, false);
    s.record_chunk(SweepAction::Keep, 3, false);
    s.record_chunk(SweepAction::Keep, 4, true);
    assert_eq!(s.removed_chunks, 1);
    assert_eq!(s.removed_bad, 1);
    assert_eq!(s.removed_bytes, 15);
    assert_eq!(s.pending_chunks, 1);
    assert_eq!(s.pending_bytes, 7);
    assert_eq!(s.disk_chunks, 2);
    assert_eq!(s.still_bad, 1);
    assert_eq!(s.disk_bytes, 14);
    s.record_index(u64::MAX);
    assert_eq!(s.index_data_bytes, u64::MAX);
}
