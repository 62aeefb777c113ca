//! Progress and status bookkeeping for one deletion run.
//!
//! A [`DeletionJob`] carries the shared tallies of one invocation: the total
//! entry count fixed after the scan, the number of entries removed, and the
//! number skipped because their removal failed. Recording an attempt yields
//! the progress event to emit, if the attempt crossed an emission threshold:
//! the file phase emits every hundredth attempt and on reaching the total,
//! the directory phase only every hundredth. The final event always closes
//! the run at `current == total`.

use vstd::prelude::*;

verus! {

/// How many attempts lie between two progress emissions.
pub const BATCH: u64 = 100;

/// A progress snapshot: how far the run has come and which item happened to
/// cross the threshold. `name` is best-effort display data, not a promise
/// about completion order.
pub struct ProgressEvent {
    /// The fixed entry count of the run.
    pub total: u64,
    /// Attempts made so far (removed plus skipped).
    pub current: u64,
    /// Name of the item whose attempt triggered this event.
    pub name: Vec<u8>,
}

/// The tallies of one deletion invocation.
pub struct DeletionJob {
    /// The fixed entry count of the run.
    pub total: u64,
    /// Entries whose removal succeeded.
    pub processed: u64,
    /// Entries whose removal failed and was not retried.
    pub skipped: u64,
}

impl DeletionJob {
    /// Attempts made so far.
    pub open spec fn attempts(self) -> int {
        self.processed + self.skipped
    }

    /// The job invariant: attempts never pass the total.
    pub open spec fn wf(self) -> bool {
        self.processed + self.skipped <= self.total
    }

    /// The file phase emits on every hundredth attempt and when the last
    /// attempt of the whole run is made.
    pub open spec fn file_emit(current: u64, total: u64) -> bool {
        current % BATCH == 0 || current == total
    }

    /// The directory phase emits only on every hundredth attempt.
    pub open spec fn dir_emit(current: u64) -> bool {
        current % BATCH == 0
    }

    /// A fresh job over `total` entries, nothing attempted yet.
    pub fn new(total: u64) -> (job: DeletionJob)
        ensures
            job.total == total,
            job.processed == 0,
            job.skipped == 0,
            job.wf(),
    {
        DeletionJob { total, processed: 0, skipped: 0 }
    }

    /// Record one file-removal attempt: count it as removed or skipped, and
    /// hand back the progress event to emit if the attempt crossed a
    /// threshold. `current` in the event is the attempt count itself, so
    /// successive events carry strictly increasing values.
    pub fn record_file(&mut self, removed: bool, name: Vec<u8>) -> (ev: Option<ProgressEvent>)
        requires
            old(self).wf(),
            old(self).attempts() < old(self).total,
        ensures
            final(self).wf(),
            final(self).total == old(self).total,
            final(self).processed == old(self).processed + if removed {
                1int
            } else {
                0int
            },
            final(self).skipped == old(self).skipped + if removed {
                0int
            } else {
                1int
            },
            final(self).attempts() == old(self).attempts() + 1,
            ev.is_some() <==> Self::file_emit((old(self).attempts() + 1) as u64, old(self).total),
            ev matches Some(e) ==> e.total == old(self).total && e.current == old(self).attempts()
                + 1 && e.name@ == name@,
    {
        if removed {
            self.processed = self.processed + 1;
        } else {
            self.skipped = self.skipped + 1;
        }
        let current = self.processed + self.skipped;
        if current % BATCH == 0 || current == self.total {
            Some(ProgressEvent { total: self.total, current, name })
        } else {
            None
        }
    }

    /// Record one directory-removal attempt. Like the file phase, but the
    /// reaching of the total emits nothing here: the final event closes the
    /// gap instead.
    pub fn record_dir(&mut self, removed: bool, name: Vec<u8>) -> (ev: Option<ProgressEvent>)
        requires
            old(self).wf(),
            old(self).attempts() < old(self).total,
        ensures
            final(self).wf(),
            final(self).total == old(self).total,
            final(self).processed == old(self).processed + if removed {
                1int
            } else {
                0int
            },
            final(self).skipped == old(self).skipped + if removed {
                0int
            } else {
                1int
            },
            final(self).attempts() == old(self).attempts() + 1,
            ev.is_some() <==> Self::dir_emit((old(self).attempts() + 1) as u64),
            ev matches Some(e) ==> e.total == old(self).total && e.current == old(self).attempts()
                + 1 && e.name@ == name@,
    {
        if removed {
            self.processed = self.processed + 1;
        } else {
            self.skipped = self.skipped + 1;
        }
        let current = self.processed + self.skipped;
        if current % BATCH == 0 {
            Some(ProgressEvent { total: self.total, current, name })
        } else {
            None
        }
    }

    /// The closing event of a run: `current == total`, always emitted, even
    /// when nothing was attempted or earlier events already reached the
    /// total.
    pub fn final_event(&self) -> (ev: ProgressEvent)
        ensures
            ev.total == self.total,
            ev.current == self.total,
            ev.name@ == done_name(),
    {
        let mut name: Vec<u8> = Vec::new();
        name.push(68);
        name.push(111);
        name.push(110);
        name.push(101);
        proof {
            assert(name@ =~= done_name());
        }
        ProgressEvent { total: self.total, current: self.total, name }
    }

    /// Whether the closing status line must mention skipped items: exactly
    /// when at least one removal failed.
    pub fn mentions_skips(&self) -> (r: bool)
        ensures
            r == (self.skipped > 0),
    {
        self.skipped > 0
    }
}

/// The display name carried by the closing event: the bytes of `Done`.
pub open spec fn done_name() -> Seq<u8> {
    seq![68, 111, 110, 101]
}

/// Whether a file-phase attempt count crosses an emission threshold.
pub fn file_emit_exec(current: u64, total: u64) -> (r: bool)
    ensures
        r == DeletionJob::file_emit(current, total),
{
    current % BATCH == 0 || current == total
}

/// Whether a directory-phase attempt count crosses an emission threshold.
pub fn dir_emit_exec(current: u64) -> (r: bool)
    ensures
        r == DeletionJob::dir_emit(current),
{
    current % BATCH == 0
}

} // verus!
