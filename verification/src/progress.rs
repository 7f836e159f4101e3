//! The shared record of a run: how far each file is, how many are done,
//! how many errors were met and how long each file took.

use crate::analysis::lemma_outcome_and_errors;
use crate::analysis::outcome_of;
use crate::analysis::ErrorView;
use crate::analysis::FileAnalysis;
use crate::analysis::Status;
use crate::collect::path_views;
use vstd::prelude::*;

verus! {

/// Number of terminal entries among `statuses`.
pub open spec fn count_terminal(statuses: Seq<Status>) -> nat
    decreases statuses.len(),
{
    if statuses.len() == 0 {
        0
    } else {
        count_terminal(statuses.drop_last()) + if statuses.last().terminal() {
            1nat
        } else {
            0nat
        }
    }
}

/// Sum of `counts`.
pub open spec fn sum_of(counts: Seq<nat>) -> nat
    decreases counts.len(),
{
    if counts.len() == 0 {
        0
    } else {
        sum_of(counts.drop_last()) + counts.last()
    }
}

/// The mathematical content of a [`ProgressState`]. Files are numbered in
/// the order of submission; `per_file[job]` is the status of `files[job]`,
/// and `errors[job]` the number of errors that its analysis recorded, zero
/// as long as it is not finished.
pub struct ProgressView {
    pub total: nat,
    pub done: nat,
    pub files: Seq<Seq<char>>,
    pub per_file: Seq<Status>,
    pub errors: Seq<nat>,
    pub error_count: nat,
    pub times: Seq<u64>,
}

impl ProgressView {
    /// Every file queued, nothing done.
    pub open spec fn initial(files: Seq<Seq<char>>) -> ProgressView {
        ProgressView {
            total: files.len(),
            done: 0,
            files,
            per_file: Seq::new(files.len(), |i: int| Status::Queued),
            errors: Seq::new(files.len(), |i: int| 0nat),
            error_count: 0,
            times: Seq::empty(),
        }
    }

    /// The counters agree with what is known of each file: `done` is the
    /// number of files in a terminal status, one duration is kept for each
    /// of them, and `error_count` is the number of all errors recorded. A
    /// file has errors on record only if it failed or was cancelled.
    pub open spec fn wf(self) -> bool {
        &&& self.files.len() == self.total
        &&& self.per_file.len() == self.total
        &&& self.errors.len() == self.total
        &&& self.done == count_terminal(self.per_file)
        &&& self.times.len() == self.done
        &&& self.error_count == sum_of(self.errors)
        &&& forall|job: int|
            0 <= job < self.total && #[trigger] self.errors[job] > 0 ==> self.per_file[job]
                == Status::Failed || self.per_file[job] == Status::Cancelled
        &&& self.total <= usize::MAX
        &&& self.error_count <= usize::MAX
    }

    /// Whether every file has reached a terminal status.
    pub open spec fn complete(self) -> bool {
        self.done >= self.total
    }

    /// Whether `job` can go from queued to processing.
    pub open spec fn can_start(self, job: nat) -> bool {
        job < self.per_file.len() && self.per_file[job as int] == Status::Queued
    }

    /// The record after `job` went from queued to processing; unchanged
    /// when it cannot.
    pub open spec fn started(self, job: nat) -> ProgressView {
        if self.can_start(job) {
            ProgressView { per_file: self.per_file.update(job as int, Status::Processing), ..self }
        } else {
            self
        }
    }

    /// Whether `job` can go from processing to a terminal status with
    /// `errors` more errors on the count.
    pub open spec fn can_complete(self, job: nat, errors: nat) -> bool {
        &&& job < self.per_file.len()
        &&& self.per_file[job as int] == Status::Processing
        &&& self.error_count + errors <= usize::MAX
    }

    /// The record after the analysis of `job` ended with `errors` after
    /// `elapsed` nanoseconds: the file is in the terminal status that its
    /// errors give it, and it is counted. Unchanged when it cannot be.
    pub open spec fn completed(
        self,
        job: nat,
        errors: Seq<ErrorView>,
        elapsed: u64,
    ) -> ProgressView {
        if self.can_complete(job, errors.len()) {
            ProgressView {
                done: self.done + 1,
                per_file: self.per_file.update(job as int, outcome_of(errors)),
                errors: self.errors.update(job as int, errors.len()),
                error_count: self.error_count + errors.len(),
                times: self.times.push(elapsed),
                ..self
            }
        } else {
            self
        }
    }
}

/// Replacing one count changes the sum by the difference.
pub proof fn lemma_sum_of_update(counts: Seq<nat>, at: int, count: nat)
    requires
        0 <= at < counts.len(),
    ensures
        sum_of(counts.update(at, count)) + counts[at] == sum_of(counts) + count,
    decreases counts.len(),
{
    let front = counts.drop_last();
    let updated = counts.update(at, count);
    if at == counts.len() - 1 {
        assert(updated.drop_last() =~= front);
    } else {
        lemma_sum_of_update(front, at, count);
        assert(updated.drop_last() =~= front.update(at, count));
    }
}

/// Replacing an entry that is not terminal by one that is adds one to the
/// count; replacing it by another that is not terminal changes nothing.
pub proof fn lemma_count_terminal_update(statuses: Seq<Status>, job: int, status: Status)
    requires
        0 <= job < statuses.len(),
        !statuses[job].terminal(),
    ensures
        count_terminal(statuses.update(job, status)) == count_terminal(statuses)
            + if status.terminal() {
            1nat
        } else {
            0nat
        },
        count_terminal(statuses) < statuses.len(),
    decreases statuses.len(),
{
    let front = statuses.drop_last();
    let updated = statuses.update(job, status);
    lemma_count_terminal_bounded(front);
    if job == statuses.len() - 1 {
        assert(updated.drop_last() =~= front);
    } else {
        lemma_count_terminal_update(front, job, status);
        assert(updated.drop_last() =~= front.update(job, status));
    }
}

/// No more entries are terminal than there are entries.
pub proof fn lemma_count_terminal_bounded(statuses: Seq<Status>)
    ensures
        count_terminal(statuses) <= statuses.len(),
    decreases statuses.len(),
{
    if statuses.len() > 0 {
        lemma_count_terminal_bounded(statuses.drop_last());
    }
}

/// When as many entries are terminal as there are entries, each one is.
pub proof fn lemma_count_terminal_full(statuses: Seq<Status>)
    requires
        count_terminal(statuses) >= statuses.len(),
    ensures
        forall|job: int| 0 <= job < statuses.len() ==> (#[trigger] statuses[job]).terminal(),
    decreases statuses.len(),
{
    if statuses.len() > 0 {
        let front = statuses.drop_last();
        lemma_count_terminal_bounded(front);
        lemma_count_terminal_full(front);
        assert forall|job: int| 0 <= job < statuses.len() implies (
        #[trigger] statuses[job]).terminal() by {
            if job < statuses.len() - 1 {
                assert(front[job] == statuses[job]);
            }
        }
    }
}

/// When each entry is terminal, as many are terminal as there are entries.
pub proof fn lemma_count_terminal_all(statuses: Seq<Status>)
    requires
        forall|job: int| 0 <= job < statuses.len() ==> (#[trigger] statuses[job]).terminal(),
    ensures
        count_terminal(statuses) == statuses.len(),
    decreases statuses.len(),
{
    if statuses.len() > 0 {
        let front = statuses.drop_last();
        assert forall|job: int| 0 <= job < front.len() implies (
        #[trigger] front[job]).terminal() by {
            assert(front[job] == statuses[job]);
        }
        lemma_count_terminal_all(front);
        assert(statuses.last() == statuses[statuses.len() - 1]);
    }
}

/// At completion `done` equals `total`, and every file is in a terminal
/// status: none is left queued or processing.
pub proof fn lemma_complete_means_all_terminal(state: ProgressView)
    requires
        state.wf(),
        state.complete(),
    ensures
        state.done == state.total,
        count_terminal(state.per_file) == state.total,
        forall|job: int| 0 <= job < state.total ==> (#[trigger] state.per_file[job]).terminal(),
{
    lemma_count_terminal_bounded(state.per_file);
    lemma_count_terminal_full(state.per_file);
}

/// Starting a file keeps the record well formed and changes nothing but
/// the status of that file.
pub proof fn lemma_started(state: ProgressView, job: nat)
    requires
        state.wf(),
    ensures
        state.started(job).wf(),
        state.started(job).done == state.done,
        state.started(job).error_count == state.error_count,
        forall|other: int|
            0 <= other < state.total && other != job ==> #[trigger] state.started(
                job,
            ).per_file[other] == state.per_file[other],
{
    if state.can_start(job) {
        lemma_count_terminal_update(state.per_file, job as int, Status::Processing);
        assert(state.errors[job as int] == 0);
    }
}

/// Finishing a file keeps the record well formed. A file in a terminal
/// status keeps it, `done` does not fall, and `done` does not pass `total`.
pub proof fn lemma_completed(state: ProgressView, job: nat, errors: Seq<ErrorView>, elapsed: u64)
    requires
        state.wf(),
    ensures
        state.completed(job, errors, elapsed).wf(),
        state.done <= state.completed(job, errors, elapsed).done <= state.total,
        state.can_complete(job, errors.len()) ==> state.completed(job, errors, elapsed).done
            == state.done + 1,
        forall|other: int|
            0 <= other < state.total && (#[trigger] state.per_file[other]).terminal()
                ==> state.completed(job, errors, elapsed).per_file[other] == state.per_file[other],
{
    lemma_count_terminal_bounded(state.per_file);
    if state.can_complete(job, errors.len()) {
        lemma_outcome_and_errors(errors);
        lemma_count_terminal_update(state.per_file, job as int, outcome_of(errors));
        lemma_sum_of_update(state.errors, job as int, errors.len());
        assert(state.errors[job as int] == 0);
    }
}

/// In a well-formed record a file that is done has no errors, and a file
/// with errors has failed or was cancelled.
pub proof fn lemma_done_means_no_errors(state: ProgressView, job: int)
    requires
        state.wf(),
        0 <= job < state.total,
    ensures
        state.per_file[job] == Status::Done ==> state.errors[job] == 0,
        state.errors[job] > 0 ==> state.per_file[job] == Status::Failed || state.per_file[job]
            == Status::Cancelled,
{
}

/// Nothing is terminal at the start.
pub proof fn lemma_initial_wf(files: Seq<Seq<char>>)
    requires
        files.len() <= usize::MAX,
    ensures
        ProgressView::initial(files).wf(),
{
    lemma_all_queued(files.len());
    lemma_no_errors(files.len());
}

proof fn lemma_no_errors(n: nat)
    ensures
        sum_of(Seq::new(n, |i: int| 0nat)) == 0,
    decreases n,
{
    if n > 0 {
        lemma_no_errors((n - 1) as nat);
        assert(Seq::new(n, |i: int| 0nat).drop_last() =~= Seq::new((n - 1) as nat, |i: int| 0nat));
    }
}

proof fn lemma_all_queued(n: nat)
    ensures
        count_terminal(Seq::new(n, |i: int| Status::Queued)) == 0,
    decreases n,
{
    if n > 0 {
        lemma_all_queued((n - 1) as nat);
        assert(Seq::new(n, |i: int| Status::Queued).drop_last() =~= Seq::new(
            (n - 1) as nat,
            |i: int| Status::Queued,
        ));
    }
}

/// The record of a run. It is changed only by [`ProgressState::mark_processing`]
/// and [`ProgressState::record_completion`], each of which is one complete update.
pub struct ProgressState {
    total: usize,
    done: usize,
    files: Vec<String>,
    per_file: Vec<Status>,
    errors: Ghost<Seq<nat>>,
    error_count: usize,
    times: Vec<u64>,
}

impl View for ProgressState {
    type V = ProgressView;

    closed spec fn view(&self) -> ProgressView {
        ProgressView {
            total: self.total as nat,
            done: self.done as nat,
            files: path_views(self.files@),
            per_file: self.per_file@,
            errors: self.errors@,
            error_count: self.error_count as nat,
            times: self.times@,
        }
    }
}

/// What a reporter shows of a run at one moment.
#[derive(Debug, Clone, Copy, PartialEq, Eq, Structural)]
pub struct Snapshot {
    pub done: usize,
    pub total: usize,
    pub error_count: usize,
    pub elapsed: u64,
    pub cancelled: bool,
}

impl Snapshot {
    /// Whether this is the last snapshot to show: every file is done.
    pub open spec fn last(self) -> bool {
        self.done >= self.total
    }

    /// Whether the reporter stops after showing this snapshot.
    pub fn is_last(&self) -> (last: bool)
        ensures
            last == self.last(),
    {
        self.done >= self.total
    }
}

impl ProgressState {
    /// The record of a run over `files`: every file queued, nothing done.
    pub fn new(files: Vec<String>) -> (state: ProgressState)
        ensures
            state@ == ProgressView::initial(path_views(files@)),
            state@.wf(),
    {
        let total = files.len();
        let mut per_file: Vec<Status> = Vec::new();
        let mut i: usize = 0;
        while i < total
            invariant
                i <= total,
                per_file@ == Seq::new(i as nat, |j: int| Status::Queued),
            decreases total - i,
        {
            per_file.push(Status::Queued);
            i = i + 1;
            proof {
                assert(per_file@ =~= Seq::new(i as nat, |j: int| Status::Queued));
            }
        }
        proof {
            lemma_initial_wf(path_views(files@));
        }
        ProgressState {
            total,
            done: 0,
            files,
            per_file,
            errors: Ghost(Seq::new(total as nat, |i: int| 0nat)),
            error_count: 0,
            times: Vec::new(),
        }
    }

    /// Number of files of the run.
    pub fn total(&self) -> (total: usize)
        ensures
            total == self@.total,
    {
        self.total
    }

    /// Number of files that have reached a terminal status.
    pub fn done(&self) -> (done: usize)
        ensures
            done == self@.done,
    {
        self.done
    }

    /// Number of errors recorded by the files that are done.
    pub fn error_count(&self) -> (count: usize)
        ensures
            count == self@.error_count,
    {
        self.error_count
    }

    /// The time each finished file took, in nanoseconds, in the order in
    /// which the files finished.
    pub fn times(&self) -> (times: &Vec<u64>)
        ensures
            times@ == self@.times,
    {
        &self.times
    }

    /// Whether every file has reached a terminal status.
    pub fn is_complete(&self) -> (complete: bool)
        ensures
            complete == self@.complete(),
    {
        self.done >= self.total
    }

    /// The status of file `job`, or `None` when there is no such file.
    pub fn status(&self, job: usize) -> (status: Option<Status>)
        requires
            self@.wf(),
        ensures
            status == if job < self@.total {
                Some(self@.per_file[job as int])
            } else {
                None
            },
    {
        if job < self.per_file.len() {
            Some(self.per_file[job])
        } else {
            None
        }
    }

    /// The status of the first file named `filename`, or `None` when no
    /// file has that name.
    pub fn status_of(&self, filename: &str) -> (status: Option<Status>)
        requires
            self@.wf(),
        ensures
            match status {
                Some(found) => exists|job: int|
                    0 <= job < self@.total && self@.files[job] == filename@ && found
                        == self@.per_file[job] && forall|earlier: int|
                        0 <= earlier < job ==> self@.files[earlier] != filename@,
                None => forall|job: int| 0 <= job < self@.total ==> self@.files[job] != filename@,
            },
    {
        let wanted = filename.to_owned();
        let mut i: usize = 0;
        while i < self.files.len()
            invariant
                self@.wf(),
                wanted@ == filename@,
                i <= self.files@.len(),
                forall|job: int| 0 <= job < i ==> self@.files[job] != filename@,
            decreases self.files@.len() - i,
        {
            if self.files[i] == wanted {
                assert(self@.files[i as int] == filename@);
                return Some(self.per_file[i]);
            }
            i = i + 1;
        }
        None
    }

    /// Moves file `job` from queued to processing. Returns `false`, and
    /// changes nothing, when the file is not queued.
    pub fn mark_processing(&mut self, job: usize) -> (applied: bool)
        requires
            old(self)@.wf(),
        ensures
            applied == old(self)@.can_start(job as nat),
            final(self)@ == old(self)@.started(job as nat),
            final(self)@.wf(),
    {
        if job >= self.per_file.len() {
            return false;
        }
        match self.per_file[job] {
            Status::Queued => {},
            _ => {
                return false;
            },
        }
        proof {
            lemma_started(self@, job as nat);
        }
        self.per_file.set(job, Status::Processing);
        true
    }

    /// Records in one update that file `job` is finished: its terminal
    /// status as [`FileAnalysis::outcome`] classifies it, one more file
    /// done, its errors on the count, its time on the list. Returns
    /// `false`, and changes nothing, when the file is not being processed
    /// or the count of errors would leave `usize`.
    pub fn record_completion(&mut self, job: usize, analysis: &FileAnalysis) -> (applied: bool)
        requires
            old(self)@.wf(),
        ensures
            applied == old(self)@.can_complete(job as nat, analysis@.errors.len()),
            final(self)@ == old(self)@.completed(
                job as nat,
                analysis@.errors,
                analysis.processing_time,
            ),
            final(self)@.wf(),
    {
        if job >= self.per_file.len() {
            return false;
        }
        match self.per_file[job] {
            Status::Processing => {},
            _ => {
                return false;
            },
        }
        let errors = analysis.errors.len();
        if errors > usize::MAX - self.error_count {
            return false;
        }
        let status = analysis.outcome();
        proof {
            lemma_completed(self@, job as nat, analysis@.errors, analysis.processing_time);
            self.errors@ = self.errors@.update(job as int, analysis@.errors.len());
        }
        self.per_file.set(job, status);
        self.done = self.done + 1;
        self.error_count = self.error_count + errors;
        self.times.push(analysis.processing_time);
        true
    }

    /// What a reporter shows now, given the time since the run began, in
    /// nanoseconds, and what a poll of the cancellation flag said.
    pub fn snapshot(&self, elapsed: u64, cancelled: bool) -> (shot: Snapshot)
        ensures
            shot == (Snapshot {
                done: self@.done as usize,
                total: self@.total as usize,
                error_count: self@.error_count as usize,
                elapsed,
                cancelled,
            }),
            shot.last() == self@.complete(),
    {
        Snapshot {
            done: self.done,
            total: self.total,
            error_count: self.error_count,
            elapsed,
            cancelled,
        }
    }
}

} // verus!
