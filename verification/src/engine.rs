//! The deletion engine's run model.
//!
//! [`plan_deletion`] turns the walked entries into the two work lists of a
//! run: the files, removed first, and the directories, ordered deepest
//! first. [`run_model`] is the engine's bookkeeping over one whole run,
//! fed the outcome of every removal attempt: it fixes the tallies and the
//! exact progress events of the run. The surrounding process performs the
//! removals, in parallel if it likes, and owes its observers the same
//! events in the same order.

use vstd::prelude::*;
use crate::entries::{partition_entries, sort_dirs, sorted_desc, WalkEntry};
use crate::progress::{DeletionJob, ProgressEvent, BATCH};

verus! {

/// The outcome of one run: the final tallies and every progress event
/// emitted, in emission order. The model leaves the best-effort item names
/// of intermediate events empty.
pub struct RunReport {
    /// Final tallies: total, removed, skipped.
    pub job: DeletionJob,
    /// Every progress event of the run, in order.
    pub events: Vec<ProgressEvent>,
}

/// How many of the outcomes report a successful removal.
pub open spec fn count_true(s: Seq<bool>) -> int
    decreases s.len(),
{
    if s.len() == 0 {
        0
    } else {
        count_true(s.drop_last()) + if s.last() {
            1int
        } else {
            0int
        }
    }
}

/// The attempt counts at which the file phase emits progress: every
/// `BATCH`th attempt, and the attempt that reaches the run's total.
pub open spec fn file_phase_currents(total: int, upto: nat) -> Seq<int>
    decreases upto,
{
    if upto == 0 {
        Seq::empty()
    } else {
        let prev = file_phase_currents(total, (upto - 1) as nat);
        if (upto as int) % (BATCH as int) == 0 || upto == total {
            prev.push(upto as int)
        } else {
            prev
        }
    }
}

/// The attempt counts at which the directory phase emits progress: every
/// `BATCH`th attempt only; reaching the total emits nothing here, the
/// closing event covers it.
pub open spec fn dir_phase_currents(files: int, upto: nat) -> Seq<int>
    decreases upto,
{
    if upto == 0 {
        Seq::empty()
    } else {
        let prev = dir_phase_currents(files, (upto - 1) as nat);
        if (files + upto) % (BATCH as int) == 0 {
            prev.push(files + upto)
        } else {
            prev
        }
    }
}

/// The `current` values of every progress event of a run over `files`
/// files and `dirs` directories: both phases, then the closing event at the
/// total.
pub open spec fn run_currents(files: nat, dirs: nat) -> Seq<int> {
    file_phase_currents((files + dirs) as int, files) + dir_phase_currents(files as int, dirs)
        + seq![(files + dirs) as int]
}

proof fn lemma_count_true_bounds(s: Seq<bool>)
    ensures
        0 <= count_true(s) <= s.len(),
    decreases s.len(),
{
    if s.len() > 0 {
        lemma_count_true_bounds(s.drop_last());
    }
}

/// Turn the walked entries into the run's two work lists: the files in walk
/// order, and the directories reordered deepest-first.
pub fn plan_deletion(entries: Vec<WalkEntry>) -> (r: (Vec<WalkEntry>, Vec<WalkEntry>))
    ensures
        r.0@ == entries@.filter(|e: WalkEntry| !e.is_dir),
        r.1@.to_multiset() == entries@.filter(|e: WalkEntry| e.is_dir).to_multiset(),
        sorted_desc(r.1@),
{
    let (files, dirs) = partition_entries(entries);
    let dirs = sort_dirs(dirs);
    (files, dirs)
}

/// Replay the engine's bookkeeping over one whole run, given the outcome of
/// every removal attempt, file phase first. The report fixes the run
/// completely: removed plus skipped equals the total, every event is a
/// snapshot carrying the run's fixed total, the events' `current` values
/// are exactly the thresholds of the two phases followed by the closing
/// event, they never decrease, and the last event closes the run at
/// `current == total`.
pub fn run_model(file_outcomes: &Vec<bool>, dir_outcomes: &Vec<bool>) -> (r: RunReport)
    requires
        file_outcomes@.len() + dir_outcomes@.len() <= u64::MAX,
    ensures
        r.job.total == file_outcomes@.len() + dir_outcomes@.len(),
        r.job.processed == count_true(file_outcomes@) + count_true(dir_outcomes@),
        r.job.processed + r.job.skipped == r.job.total,
        r.events@.len() > 0,
        r.events@.last().current == r.job.total,
        r.events@.last().total == r.job.total,
        forall|k: int| 0 <= k < r.events@.len() ==> #[trigger] r.events@[k].total == r.job.total,
        forall|k: int, l: int|
            0 <= k < l < r.events@.len() ==> r.events@[k].current <= r.events@[l].current,
        r.events@.map_values(|e: ProgressEvent| e.current as int) == run_currents(
            file_outcomes@.len(),
            dir_outcomes@.len(),
        ),
{
    let nf = file_outcomes.len();
    let nd = dir_outcomes.len();
    let total: u64 = nf as u64 + nd as u64;
    let mut job = DeletionJob::new(total);
    let mut events: Vec<ProgressEvent> = Vec::new();
    let mut i: usize = 0;
    proof {
        assert(events@.map_values(|e: ProgressEvent| e.current as int) =~= file_phase_currents(
            total as int,
            0,
        ));
    }
    while i < nf
        invariant
            nf == file_outcomes@.len(),
            total == file_outcomes@.len() + dir_outcomes@.len(),
            i <= nf,
            job.total == total,
            job.processed == count_true(file_outcomes@.take(i as int)),
            job.processed + job.skipped == i,
            events@.map_values(|e: ProgressEvent| e.current as int) == file_phase_currents(
                total as int,
                i as nat,
            ),
            forall|k: int| 0 <= k < events@.len() ==> #[trigger] events@[k].current <= i,
            forall|k: int| 0 <= k < events@.len() ==> #[trigger] events@[k].total == total,
            forall|k: int, l: int|
                0 <= k < l < events@.len() ==> events@[k].current <= events@[l].current,
        decreases nf - i,
    {
        let removed = file_outcomes[i];
        proof {
            lemma_count_true_bounds(file_outcomes@.take(i as int));
        }
        let ev = job.record_file(removed, Vec::new());
        proof {
            assert(file_outcomes@.take(i + 1int).drop_last() =~= file_outcomes@.take(i as int));
            assert(file_outcomes@.take(i + 1int).last() == file_outcomes@[i as int]);
        }
        match ev {
            Some(e) => {
                events.push(e);
            },
            None => {},
        }
        proof {
            assert(events@.map_values(|e: ProgressEvent| e.current as int) =~= file_phase_currents(
                total as int,
                (i + 1) as nat,
            ));
        }
        i = i + 1;
    }
    proof {
        assert(file_outcomes@.take(nf as int) =~= file_outcomes@);
    }
    let mut j: usize = 0;
    proof {
        assert(events@.map_values(|e: ProgressEvent| e.current as int) =~= file_phase_currents(
            total as int,
            nf as nat,
        ) + dir_phase_currents(nf as int, 0));
    }
    while j < nd
        invariant
            nf == file_outcomes@.len(),
            nd == dir_outcomes@.len(),
            total == file_outcomes@.len() + dir_outcomes@.len(),
            j <= nd,
            job.total == total,
            job.processed == count_true(file_outcomes@) + count_true(dir_outcomes@.take(j as int)),
            job.processed + job.skipped == nf + j,
            events@.map_values(|e: ProgressEvent| e.current as int) == file_phase_currents(
                total as int,
                nf as nat,
            ) + dir_phase_currents(nf as int, j as nat),
            forall|k: int| 0 <= k < events@.len() ==> #[trigger] events@[k].current <= nf + j,
            forall|k: int| 0 <= k < events@.len() ==> #[trigger] events@[k].total == total,
            forall|k: int, l: int|
                0 <= k < l < events@.len() ==> events@[k].current <= events@[l].current,
        decreases nd - j,
    {
        let removed = dir_outcomes[j];
        proof {
            lemma_count_true_bounds(file_outcomes@);
            lemma_count_true_bounds(dir_outcomes@.take(j as int));
        }
        let ev = job.record_dir(removed, Vec::new());
        proof {
            assert(dir_outcomes@.take(j + 1int).drop_last() =~= dir_outcomes@.take(j as int));
            assert(dir_outcomes@.take(j + 1int).last() == dir_outcomes@[j as int]);
        }
        proof {
            let c = nf as int + j + 1;
            assert(0 <= c <= total);
            assert((c as u64) % BATCH == 0 <==> c % (BATCH as int) == 0);
            assert(dir_phase_currents(nf as int, (j + 1) as nat) == if c % (BATCH as int) == 0 {
                dir_phase_currents(nf as int, j as nat).push(c)
            } else {
                dir_phase_currents(nf as int, j as nat)
            });
        }
        let ghost before = events@;
        match ev {
            Some(e) => {
                events.push(e);
                proof {
                    let c = nf as int + j + 1;
                    assert(e.current as int == c);
                    assert(events@ == before.push(e));
                    assert(events@.map_values(|e2: ProgressEvent| e2.current as int)
                        =~= before.map_values(|e2: ProgressEvent| e2.current as int).push(c));
                    assert(events@.map_values(|e2: ProgressEvent| e2.current as int)
                        =~= file_phase_currents(total as int, nf as nat) + dir_phase_currents(
                        nf as int,
                        (j + 1) as nat,
                    ));
                }
            },
            None => {
                proof {
                    assert(events@.map_values(|e2: ProgressEvent| e2.current as int)
                        =~= file_phase_currents(total as int, nf as nat) + dir_phase_currents(
                        nf as int,
                        (j + 1) as nat,
                    ));
                }
            },
        }
        j = j + 1;
    }
    proof {
        assert(dir_outcomes@.take(nd as int) =~= dir_outcomes@);
        lemma_count_true_bounds(file_outcomes@);
        lemma_count_true_bounds(dir_outcomes@);
    }
    let closing = job.final_event();
    events.push(closing);
    proof {
        assert(events@.map_values(|e: ProgressEvent| e.current as int) =~= run_currents(
            file_outcomes@.len(),
            dir_outcomes@.len(),
        ));
    }
    RunReport { job, events }
}

} // verus!
