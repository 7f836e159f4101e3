//! The result of analysing one file, and how it is classified.

use crate::stats::FileStats;
use crate::stats::StatsView;
use vstd::prelude::*;

verus! {

/// Where a file stands in its life cycle. `Done`, `Failed` and `Cancelled`
/// are terminal.
#[derive(Debug, Clone, Copy, PartialEq, Eq, Structural)]
pub enum Status {
    Queued,
    Processing,
    Done,
    Failed,
    Cancelled,
}

impl Status {
    pub open spec fn terminal(self) -> bool {
        self == Status::Done || self == Status::Failed || self == Status::Cancelled
    }

    /// Whether the status is one of the three final ones.
    pub fn is_terminal(&self) -> (terminal: bool)
        ensures
            terminal == self.terminal(),
    {
        match self {
            Status::Queued => false,
            Status::Processing => false,
            Status::Done => true,
            Status::Failed => true,
            Status::Cancelled => true,
        }
    }
}

/// One thing that went wrong, or a note that work was cancelled: the file,
/// the operation that was attempted, and what was reported.
#[derive(Debug)]
pub struct ProcessingError {
    pub filename: String,
    pub operation: String,
    pub message: String,
}

/// The mathematical content of a [`ProcessingError`].
pub struct ErrorView {
    pub filename: Seq<char>,
    pub operation: Seq<char>,
    pub message: Seq<char>,
}

impl View for ProcessingError {
    type V = ErrorView;

    open spec fn view(&self) -> ErrorView {
        ErrorView {
            filename: self.filename@,
            operation: self.operation@,
            message: self.message@,
        }
    }
}

impl Clone for ProcessingError {
    fn clone(&self) -> (copy: Self)
        ensures
            copy@ == self@,
    {
        ProcessingError {
            filename: self.filename.clone(),
            operation: self.operation.clone(),
            message: self.message.clone(),
        }
    }
}

/// Operation name of the notes that record a cancellation.
pub open spec fn cancel_operation() -> Seq<char> {
    "cancel"@
}

/// Message of the note left when a file was never started.
pub open spec fn cancelled_before_start() -> Seq<char> {
    "cancelled before start"@
}

/// Message of the note left when reading stopped between two lines.
pub open spec fn cancelled_during_read() -> Seq<char> {
    "cancelled during read"@
}

impl ErrorView {
    /// Whether this entry records a cancellation rather than a failure.
    pub open spec fn is_cancellation(self) -> bool {
        self.operation == cancel_operation()
    }
}

/// The views of a list of errors, in order.
pub open spec fn error_views(errors: Seq<ProcessingError>) -> Seq<ErrorView> {
    errors.map_values(|e: ProcessingError| e@)
}

/// Whether some entry of `errors` records a cancellation.
pub open spec fn has_cancellation(errors: Seq<ErrorView>) -> bool {
    exists|i: int| 0 <= i < errors.len() && (#[trigger] errors[i]).is_cancellation()
}

/// How a finished file is classified by what its analysis recorded: stopped
/// by cancellation, failed, or clean.
pub open spec fn outcome_of(errors: Seq<ErrorView>) -> Status {
    if has_cancellation(errors) {
        Status::Cancelled
    } else if errors.len() > 0 {
        Status::Failed
    } else {
        Status::Done
    }
}

/// A clean file has no errors, and a file with errors is never clean.
pub proof fn lemma_outcome_and_errors(errors: Seq<ErrorView>)
    ensures
        outcome_of(errors).terminal(),
        outcome_of(errors) == Status::Done <==> errors.len() == 0,
        errors.len() > 0 ==> outcome_of(errors) == Status::Failed || outcome_of(errors)
            == Status::Cancelled,
{
}

/// Builds the record of a failed operation.
pub fn err(filename: &str, operation: &str, message: String) -> (error: ProcessingError)
    ensures
        error@ == (ErrorView { filename: filename@, operation: operation@, message: message@ }),
{
    ProcessingError { filename: filename.to_owned(), operation: operation.to_owned(), message }
}

impl ProcessingError {
    /// Whether this entry records a cancellation rather than a failure.
    pub fn is_cancellation(&self) -> (cancellation: bool)
        ensures
            cancellation == self@.is_cancellation(),
    {
        let cancel = "cancel".to_owned();
        self.operation == cancel
    }
}

/// Everything learnt about one file. `processing_time` is in nanoseconds.
#[derive(Debug)]
pub struct FileAnalysis {
    pub filename: String,
    pub stats: FileStats,
    pub errors: Vec<ProcessingError>,
    pub processing_time: u64,
}

/// The mathematical content of a [`FileAnalysis`].
pub struct AnalysisView {
    pub filename: Seq<char>,
    pub stats: StatsView,
    pub errors: Seq<ErrorView>,
    pub processing_time: nat,
}

impl View for FileAnalysis {
    type V = AnalysisView;

    open spec fn view(&self) -> AnalysisView {
        AnalysisView {
            filename: self.filename@,
            stats: self.stats@,
            errors: error_views(self.errors@),
            processing_time: self.processing_time as nat,
        }
    }
}

impl FileAnalysis {
    /// Classifies the file: `Cancelled` when the analysis was stopped by a
    /// cancellation, else `Failed` when it recorded an error, else `Done`.
    pub fn outcome(&self) -> (status: Status)
        ensures
            status == outcome_of(self@.errors),
            status.terminal(),
            status == Status::Done <==> self.errors@.len() == 0,
    {
        let mut i: usize = 0;
        while i < self.errors.len()
            invariant
                i <= self.errors@.len(),
                forall|j: int|
                    0 <= j < i ==> !(#[trigger] error_views(self.errors@)[j]).is_cancellation(),
            decreases self.errors@.len() - i,
        {
            if self.errors[i].is_cancellation() {
                assert(error_views(self.errors@)[i as int].is_cancellation());
                return Status::Cancelled;
            }
            i = i + 1;
        }
        if self.errors.len() > 0 {
            Status::Failed
        } else {
            Status::Done
        }
    }
}

} // verus!
