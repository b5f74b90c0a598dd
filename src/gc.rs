//! Garbage collection: the mark phase's touch rule, the sweep phase's
//! decision per chunk file, and the status counters.
use vstd::prelude::*;

verus! {

/// Default safety margin of the sweep: 24 hours and 5 minutes, in seconds.
pub const MIN_ATIME_SAFETY_MARGIN: i64 = 86700;

/// Garbage collection status.
#[derive(Clone)]
pub struct GarbageCollectionStatus {
    pub upid: Option<String>,
    /// Number of processed index files.
    pub index_file_count: usize,
    /// Sum of bytes referred by index files.
    pub index_data_bytes: u64,
    /// Bytes used on disk.
    pub disk_bytes: u64,
    /// Chunks used on disk.
    pub disk_chunks: usize,
    /// Sum of removed bytes.
    pub removed_bytes: u64,
    /// Number of removed chunks.
    pub removed_chunks: usize,
    /// Sum of pending bytes (pending removal - kept for safety).
    pub pending_bytes: u64,
    /// Number of pending chunks (pending removal - kept for safety).
    pub pending_chunks: usize,
    /// Number of chunks marked as .bad by verify that have been removed by GC.
    pub removed_bad: usize,
    /// Number of chunks still marked as .bad after garbage collection.
    pub still_bad: usize,
}

impl Default for GarbageCollectionStatus {
    fn default() -> (r: Self)
        ensures
            r.upid is None,
            r.index_file_count == 0,
            r.index_data_bytes == 0,
            r.disk_bytes == 0,
            r.disk_chunks == 0,
            r.removed_bytes == 0,
            r.removed_chunks == 0,
            r.pending_bytes == 0,
            r.pending_chunks == 0,
            r.removed_bad == 0,
            r.still_bad == 0,
    {
        GarbageCollectionStatus {
            upid: None,
            index_file_count: 0,
            index_data_bytes: 0,
            disk_bytes: 0,
            disk_chunks: 0,
            removed_bytes: 0,
            removed_chunks: 0,
            pending_bytes: 0,
            pending_chunks: 0,
            removed_bad: 0,
            still_bad: 0,
        }
    }
}

/// What the sweep does with one chunk file.
#[derive(Clone, Copy, Debug, PartialEq, Eq, Structural)]
pub enum SweepAction {
    /// In use: accessed since the collection started (or since the oldest
    /// running writer started).
    Keep,
    /// Not accessed since then, but within the safety margin: kept.
    Pending,
    /// Older than the cutoff: unlinked.
    Remove,
}

/// Whether the mark phase touches a chunk: only when its access time is
/// older than `now - threshold`.
pub open spec fn touch_needed(atime: int, now: int, threshold: int) -> bool {
    atime < now - threshold
}

/// The cutoff of the sweep: chunks accessed before it are removed.
pub open spec fn cutoff(gc_start: int, margin: int) -> int {
    gc_start - margin
}

pub open spec fn sweep_spec(atime: int, min_atime: int, oldest_writer: int) -> SweepAction {
    if atime < min_atime {
        SweepAction::Remove
    } else if atime < oldest_writer {
        SweepAction::Pending
    } else {
        SweepAction::Keep
    }
}

/// Whether the mark phase must update a referenced chunk's access time.
pub fn needs_touch(atime: i64, now: i64, threshold: i64) -> (r: bool)
    requires
        threshold >= 0,
    ensures
        r == touch_needed(atime as int, now as int, threshold as int),
{
    (atime as i128) < (now as i128) - (threshold as i128)
}

/// The access time of a referenced chunk after the mark phase visited it.
pub fn atime_after_mark(atime: i64, now: i64, threshold: i64) -> (r: i64)
    requires
        threshold >= 0,
    ensures
        r == if touch_needed(atime as int, now as int, threshold as int) { now } else { atime },
        r >= now - threshold,
{
    if needs_touch(atime, now, threshold) { now } else { atime }
}

/// The sweep's cutoff for a collection that started at `gc_start`.
pub fn min_atime(gc_start: i64, margin: i64) -> (r: i64)
    requires
        margin >= 0,
    ensures
        r == if gc_start - margin < i64::MIN { i64::MIN as int } else { cutoff(gc_start as int, margin as int) },
{
    if (gc_start as i128) - (margin as i128) < i64::MIN as i128 {
        i64::MIN
    } else {
        gc_start - margin
    }
}

/// What the sweep does with a chunk file of access time `atime`.
pub fn sweep_decision(atime: i64, min_atime: i64, oldest_writer: i64) -> (r: SweepAction)
    ensures
        r == sweep_spec(atime as int, min_atime as int, oldest_writer as int),
{
    if atime < min_atime {
        SweepAction::Remove
    } else if atime < oldest_writer {
        SweepAction::Pending
    } else {
        SweepAction::Keep
    }
}

impl GarbageCollectionStatus {
    /// Counts one index file of `data_bytes` logical bytes (mark phase).
    pub fn record_index(&mut self, data_bytes: u64)
        ensures
            final(self).index_file_count == old(self).index_file_count.saturating_add(1),
            final(self).index_data_bytes == old(self).index_data_bytes.saturating_add(data_bytes),
            final(self).upid == old(self).upid,
            final(self).disk_bytes == old(self).disk_bytes,
            final(self).disk_chunks == old(self).disk_chunks,
            final(self).removed_bytes == old(self).removed_bytes,
            final(self).removed_chunks == old(self).removed_chunks,
            final(self).pending_bytes == old(self).pending_bytes,
            final(self).pending_chunks == old(self).pending_chunks,
            final(self).removed_bad == old(self).removed_bad,
            final(self).still_bad == old(self).still_bad,
    {
        self.index_file_count = self.index_file_count.saturating_add(1);
        self.index_data_bytes = self.index_data_bytes.saturating_add(data_bytes);
    }

    /// Counts one chunk file of `size` bytes that the sweep handled with
    /// `action`; `bad` marks a file that verification renamed to `.bad`.
    pub fn record_chunk(&mut self, action: SweepAction, size: u64, bad: bool)
        ensures
            final(self).upid == old(self).upid,
            final(self).index_file_count == old(self).index_file_count,
            final(self).index_data_bytes == old(self).index_data_bytes,
            action == SweepAction::Remove ==> {
                &&& final(self).removed_bytes == old(self).removed_bytes.saturating_add(size)
                &&& final(self).removed_bad == if bad { old(self).removed_bad.saturating_add(1) } else { old(self).removed_bad }
                &&& final(self).removed_chunks == if bad { old(self).removed_chunks } else { old(self).removed_chunks.saturating_add(1) }
                &&& final(self).disk_bytes == old(self).disk_bytes
                &&& final(self).disk_chunks == old(self).disk_chunks
                &&& final(self).pending_bytes == old(self).pending_bytes
                &&& final(self).pending_chunks == old(self).pending_chunks
                &&& final(self).still_bad == old(self).still_bad
            },
            action != SweepAction::Remove ==> {
                &&& final(self).removed_bytes == old(self).removed_bytes
                &&& final(self).removed_bad == old(self).removed_bad
                &&& final(self).removed_chunks == old(self).removed_chunks
                &&& final(self).disk_bytes == old(self).disk_bytes.saturating_add(size)
                &&& final(self).disk_chunks == if bad { old(self).disk_chunks } else { old(self).disk_chunks.saturating_add(1) }
                &&& final(self).still_bad == if bad { old(self).still_bad.saturating_add(1) } else { old(self).still_bad }
                &&& final(self).pending_bytes == if action == SweepAction::Pending { old(self).pending_bytes.saturating_add(size) } else { old(self).pending_bytes }
                &&& final(self).pending_chunks == if action == SweepAction::Pending { old(self).pending_chunks.saturating_add(1) } else { old(self).pending_chunks }
            },
    {
        match action {
            SweepAction::Remove => {
                if bad {
                    self.removed_bad = self.removed_bad.saturating_add(1);
                } else {
                    self.removed_chunks = self.removed_chunks.saturating_add(1);
                }
                self.removed_bytes = self.removed_bytes.saturating_add(size);
            }
            _ => {
                if action == SweepAction::Pending {
                    self.pending_chunks = self.pending_chunks.saturating_add(1);
                    self.pending_bytes = self.pending_bytes.saturating_add(size);
                }
                if bad {
                    self.still_bad = self.still_bad.saturating_add(1);
                } else {
                    self.disk_chunks = self.disk_chunks.saturating_add(1);
                }
                self.disk_bytes = self.disk_bytes.saturating_add(size);
            }
        }
    }
}

/// GC safety: a chunk that a backup touched (with `cond_touch`, or by
/// writing it) at `touch_time`, no longer than the safety margin before the
/// collection started, is not removed by that collection's sweep, whatever
/// the oldest writer is. Its access time is at least `touch_time`, since a
/// touch only moves it forward.
pub proof fn lemma_touched_chunk_survives(atime: int, touch_time: int, gc_start: int, margin: int, oldest_writer: int)
    requires
        atime >= touch_time,
        touch_time >= gc_start - margin,
    ensures
        sweep_spec(atime, cutoff(gc_start, margin), oldest_writer) != SweepAction::Remove,
{
}

/// GC safety for committed indices: every chunk that an index references
/// when the mark phase visits it at `now` (no earlier than the collection's
/// start) survives the sweep, provided the touch threshold does not exceed
/// the safety margin.
pub proof fn lemma_marked_chunk_survives(atime: int, now: int, threshold: int, gc_start: int, margin: int, oldest_writer: int)
    requires
        0 <= threshold <= margin,
        now >= gc_start,
    ensures
        sweep_spec(
            if touch_needed(atime, now, threshold) { now } else { atime },
            cutoff(gc_start, margin),
            oldest_writer,
        ) != SweepAction::Remove,
{
}

/// GC safety across an interleaving: a backup that starts at `t_start`,
/// touches chunk C (`cond_touch`, which moves C's access time up to
/// `t_touch`) and commits its index at `t_commit`, within `margin` of its
/// start. A collection starts at `t_g` and marks at `t_mark`: if the index
/// was committed by then, the mark phase also visits C. Either way C is
/// not removed by that collection's sweep. The touch threshold of the mark
/// phase must not exceed the safety margin (the collector refuses such a
/// setting), and marking happens after the collection started. A backup
/// that pauses longer than the margin is not covered: its chunk may go.
pub proof fn lemma_gc_safety(atime: int, t_start: int, t_touch: int, t_commit: int, t_g: int, t_mark: int, margin: int, threshold: int, oldest_writer: int)
    requires
        t_start <= t_touch <= t_commit,
        t_commit - t_start <= margin,
        0 <= threshold <= margin,
        t_mark >= t_g,
    ensures
        ({
            let touched = if atime > t_touch { atime } else { t_touch };
            let swept = if t_commit <= t_g {
                if touch_needed(touched, t_mark, threshold) { t_mark } else { touched }
            } else {
                touched
            };
            sweep_spec(swept, cutoff(t_g, margin), oldest_writer) != SweepAction::Remove
        }),
{
}

} // verus!
