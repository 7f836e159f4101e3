//! The decisions of a whole run: where to look, how many workers to
//! start, whether there is anything to do, and what to say at the end.

use crate::analysis::ErrorView;
use crate::analysis::Status;
use crate::analyzer::lemma_never_started_is_cancelled;
use crate::analyzer::AnalyzerView;
use crate::collect::path_views;
use crate::progress::lemma_complete_means_all_terminal;
use crate::progress::lemma_completed;
use crate::progress::lemma_count_terminal_all;
use crate::progress::lemma_initial_wf;
use crate::progress::lemma_started;
use crate::progress::ProgressState;
use crate::progress::ProgressView;
use crate::thread_pool::lemma_empty_queue_means_all_handed;
use crate::thread_pool::PoolView;
use crate::timing::summarizes;
use crate::timing::timing_summary;
use crate::timing::TimingSummary;
use vstd::prelude::*;

verus! {

/// Number of workers when the machine does not say how many it can run
/// side by side.
pub const FALLBACK_WORKERS: usize = 4;

/// The directory that is searched when none is given.
pub open spec fn default_root() -> Seq<char> {
    "data"@
}

/// The directories to search: the ones given, or the default one when
/// none is given.
pub fn roots_or_default(given: Vec<String>) -> (roots: Vec<String>)
    ensures
        path_views(roots@) == if given@.len() == 0 {
            seq![default_root()]
        } else {
            path_views(given@)
        },
{
    if given.len() == 0 {
        let mut roots: Vec<String> = Vec::new();
        roots.push("data".to_owned());
        proof {
            assert(path_views(roots@) =~= seq![default_root()]);
        }
        roots
    } else {
        given
    }
}

/// How many workers a run gets, given what the machine says it can run
/// side by side.
pub open spec fn workers_for(detected: Option<usize>) -> usize {
    match detected {
        Some(n) => if n == 0 {
            1
        } else {
            n
        },
        None => FALLBACK_WORKERS,
    }
}

/// The number of workers to start: what the machine can run side by side,
/// at least one, and [`FALLBACK_WORKERS`] when that is not known.
pub fn worker_count(detected: Option<usize>) -> (workers: usize)
    ensures
        workers == workers_for(detected),
        workers >= 1,
{
    match detected {
        Some(n) => if n == 0 {
            1
        } else {
            n
        },
        None => FALLBACK_WORKERS,
    }
}

/// What a run starts with: the number of workers and the record of
/// progress, with every file queued.
pub struct RunPlan {
    pub workers: usize,
    pub progress: ProgressState,
}

/// Plans a run over `files`. With no file there is no run: `None`, and no
/// worker is ever started.
pub fn plan_run(files: Vec<String>, detected: Option<usize>) -> (plan: Option<RunPlan>)
    ensures
        plan is None <==> files@.len() == 0,
        plan matches Some(p) ==> {
            &&& p.workers == workers_for(detected)
            &&& p.workers >= 1
            &&& p.progress@ == ProgressView::initial(path_views(files@))
            &&& p.progress@.wf()
        },
{
    if files.len() == 0 {
        return None;
    }
    let workers = worker_count(detected);
    let progress = ProgressState::new(files);
    Some(RunPlan { workers, progress })
}

/// What is said at the end of a run.
#[derive(Debug, Clone, Copy, PartialEq, Eq, Structural)]
pub struct RunSummary {
    /// Number of results that were collected.
    pub processed: usize,
    /// Shortest, longest and average time per file, in nanoseconds.
    pub timing: TimingSummary,
}

/// Sums up a run from the number of results collected and the record of
/// progress.
pub fn summarize(processed: usize, progress: &ProgressState) -> (summary: RunSummary)
    ensures
        summary.processed == processed,
        summarizes(progress@.times, summary.timing),
{
    RunSummary { processed, timing: timing_summary(progress.times().as_slice()) }
}

/// A run in which one job per file was submitted is complete once the
/// queue is empty and every job that was handed to a worker has brought
/// its file to a terminal status: `done` equals `total`, and no file is
/// left queued or processing.
pub proof fn lemma_drained_run_is_complete(pool: PoolView<usize>, progress: ProgressView)
    requires
        pool.wf(),
        progress.wf(),
        pool.queue.len() == 0,
        pool.submitted == Seq::new(progress.total, |job: int| job as usize),
        forall|k: int|
            0 <= k < pool.handed.len() ==> (
            #[trigger] progress.per_file[pool.handed[k] as int]).terminal(),
    ensures
        progress.complete(),
        progress.done == progress.total,
        forall|job: int|
            0 <= job < progress.total ==> (#[trigger] progress.per_file[job]).terminal(),
{
    lemma_empty_queue_means_all_handed(pool);
    assert forall|job: int| 0 <= job < progress.total implies (
    #[trigger] progress.per_file[job]).terminal() by {
        assert(pool.handed[job] == job as usize);
        assert(progress.per_file[pool.handed[job] as int].terminal());
    }
    lemma_count_terminal_all(progress.per_file);
}

/// What happens to the record of a run, one update at a time.
pub enum ProgressEvent {
    /// File `job` is taken up by a worker.
    Start { job: nat },
    /// The analysis of file `job` ended with `errors` after `elapsed`
    /// nanoseconds.
    Finish { job: nat, errors: Seq<ErrorView>, elapsed: u64 },
}

/// The record after `events`, in order, starting from `state`.
pub open spec fn replay(state: ProgressView, events: Seq<ProgressEvent>) -> ProgressView
    decreases events.len(),
{
    if events.len() == 0 {
        state
    } else {
        let before = replay(state, events.drop_last());
        match events.last() {
            ProgressEvent::Start { job } => before.started(job),
            ProgressEvent::Finish { job, errors, elapsed } => before.completed(
                job,
                errors,
                elapsed,
            ),
        }
    }
}

/// Whether every analysis that ends in `events` was cancelled before it
/// began: what it recorded is what an [`crate::analyzer::Analyzer`] holds
/// that was begun with the cancellation flag raised.
pub open spec fn all_cancelled_before_start(
    files: Seq<Seq<char>>,
    events: Seq<ProgressEvent>,
) -> bool {
    forall|k: int|
        0 <= k < events.len() ==> (#[trigger] events[k] matches ProgressEvent::Finish {
            job,
            errors,
            elapsed,
        } ==> job < files.len() ==> errors == AnalyzerView::initial(
            files[job as int],
            true,
        ).errors)
}

/// When cancellation is requested before any file is begun, then in
/// whatever order the files are taken up and finished, no file is ever
/// recorded as done or failed and each finished file adds one note to the
/// count of errors. Once the run is complete every file is cancelled and
/// the count of errors equals the number of files.
pub proof fn lemma_cancelled_run(files: Seq<Seq<char>>, events: Seq<ProgressEvent>)
    requires
        files.len() <= usize::MAX,
        all_cancelled_before_start(files, events),
    ensures
        replay(ProgressView::initial(files), events).wf(),
        replay(ProgressView::initial(files), events).total == files.len(),
        replay(ProgressView::initial(files), events).error_count == replay(
            ProgressView::initial(files),
            events,
        ).done,
        forall|job: int|
            0 <= job < files.len() ==> (#[trigger] replay(
                ProgressView::initial(files),
                events,
            ).per_file[job]) != Status::Done && replay(
                ProgressView::initial(files),
                events,
            ).per_file[job] != Status::Failed,
        replay(ProgressView::initial(files), events).complete() ==> {
            &&& replay(ProgressView::initial(files), events).error_count == files.len()
            &&& forall|job: int|
                0 <= job < files.len() ==> #[trigger] replay(
                    ProgressView::initial(files),
                    events,
                ).per_file[job] == Status::Cancelled
        },
    decreases events.len(),
{
    let start = ProgressView::initial(files);
    let end = replay(start, events);
    if events.len() == 0 {
        lemma_initial_wf(files);
    } else {
        let earlier = events.drop_last();
        assert forall|k: int| 0 <= k < earlier.len() implies (
        #[trigger] earlier[k] matches ProgressEvent::Finish { job, errors, elapsed } ==> job
            < files.len() ==> errors == AnalyzerView::initial(files[job as int], true).errors) by {
            assert(earlier[k] == events[k]);
        }
        lemma_cancelled_run(files, earlier);
        let before = replay(start, earlier);
        assert(events.last() == events[events.len() - 1]);
        match events.last() {
            ProgressEvent::Start { job } => {
                lemma_started(before, job);
            },
            ProgressEvent::Finish { job, errors, elapsed } => {
                lemma_completed(before, job, errors, elapsed);
                if before.can_complete(job, errors.len()) {
                    lemma_never_started_is_cancelled(files[job as int]);
                }
            },
        }
    }
    if end.complete() {
        lemma_complete_means_all_terminal(end);
    }
}

} // verus!
