//! The analysis of one file as a protocol: the caller reads, this module
//! decides. The caller asks [`Analyzer::request`] what to do next, does it,
//! and hands the observation back.

use crate::analysis::cancel_operation;
use crate::analysis::cancelled_before_start;
use crate::analysis::cancelled_during_read;
use crate::analysis::err;
use crate::analysis::error_views;
use crate::analysis::AnalysisView;
use crate::analysis::ErrorView;
use crate::analysis::FileAnalysis;
use crate::analysis::ProcessingError;
use crate::cancel::CancellationToken;
use crate::stats::FileStats;
use crate::stats::StatsView;
use vstd::prelude::*;

verus! {

/// What the analysis waits for.
#[derive(Debug, Clone, Copy, PartialEq, Eq, Structural)]
pub enum Phase {
    /// The size of the file, from its metadata.
    AwaitSize,
    /// The attempt to open the file.
    AwaitOpen,
    /// The next line.
    Reading,
    /// Nothing: the analysis is complete.
    Finished,
}

/// What the caller is to do next.
#[derive(Debug, Clone, Copy, PartialEq, Eq, Structural)]
pub enum Request {
    /// Look up the size of the file.
    Size,
    /// Open the file.
    Open,
    /// Read the next line, terminator included.
    Line,
    /// Stop, and collect the result.
    Finish,
}

/// What the caller saw when it did what was requested. Failures carry the
/// text of the error.
#[derive(Debug)]
pub enum Observation {
    /// The size in bytes, or why it could not be had.
    Size(Result<u64, String>),
    /// The file is open, or why it could not be opened.
    Opened(Result<(), String>),
    /// The next line with its terminator; an empty line means that the end
    /// of the file was reached; or why reading failed.
    Line(Result<String, String>),
}

/// The mathematical content of an [`Observation`].
pub enum ObservationView {
    Size(Result<u64, Seq<char>>),
    Opened(Result<(), Seq<char>>),
    Line(Result<Seq<char>, Seq<char>>),
}

impl View for Observation {
    type V = ObservationView;

    open spec fn view(&self) -> ObservationView {
        match self {
            Observation::Size(Ok(n)) => ObservationView::Size(Ok(*n)),
            Observation::Size(Err(m)) => ObservationView::Size(Err(m@)),
            Observation::Opened(Ok(_)) => ObservationView::Opened(Ok(())),
            Observation::Opened(Err(m)) => ObservationView::Opened(Err(m@)),
            Observation::Line(Ok(l)) => ObservationView::Line(Ok(l@)),
            Observation::Line(Err(m)) => ObservationView::Line(Err(m@)),
        }
    }
}

/// The mathematical content of an [`Analyzer`]: what it has recorded, what it
/// waits for, and the lines it has counted so far.
pub struct AnalyzerView {
    pub filename: Seq<char>,
    pub stats: StatsView,
    pub errors: Seq<ErrorView>,
    pub phase: Phase,
    pub lines: Seq<Seq<char>>,
}

impl AnalyzerView {
    /// The state of an analysis that was cancelled before it began.
    pub open spec fn never_started(filename: Seq<char>) -> AnalyzerView {
        AnalyzerView {
            filename,
            stats: StatsView::zero(),
            errors: seq![
                ErrorView {
                    filename,
                    operation: cancel_operation(),
                    message: cancelled_before_start(),
                },
            ],
            phase: Phase::Finished,
            lines: Seq::empty(),
        }
    }

    /// The state of an analysis that has just begun.
    pub open spec fn started(filename: Seq<char>) -> AnalyzerView {
        AnalyzerView {
            filename,
            stats: StatsView::zero(),
            errors: Seq::empty(),
            phase: Phase::AwaitSize,
            lines: Seq::empty(),
        }
    }

    /// The initial state, given what the poll of the cancellation flag said.
    pub open spec fn initial(filename: Seq<char>, cancelled: bool) -> AnalyzerView {
        if cancelled {
            AnalyzerView::never_started(filename)
        } else {
            AnalyzerView::started(filename)
        }
    }

    /// What the caller is to do in this state.
    pub open spec fn request(self) -> Request {
        match self.phase {
            Phase::AwaitSize => Request::Size,
            Phase::AwaitOpen => Request::Open,
            Phase::Reading => Request::Line,
            Phase::Finished => Request::Finish,
        }
    }

    /// This state with one more error on record.
    pub open spec fn with_error(self, operation: Seq<char>, message: Seq<char>) -> AnalyzerView {
        AnalyzerView {
            errors: self.errors.push(ErrorView { filename: self.filename, operation, message }),
            ..self
        }
    }

    /// This state in another phase.
    pub open spec fn in_phase(self, phase: Phase) -> AnalyzerView {
        AnalyzerView { phase, ..self }
    }

    /// The check made before each read: go on reading, or stop with a note
    /// when cancellation was requested.
    pub open spec fn before_read(self, cancelled: bool) -> AnalyzerView {
        if cancelled {
            self.with_error(cancel_operation(), cancelled_during_read()).in_phase(Phase::Finished)
        } else {
            self.in_phase(Phase::Reading)
        }
    }

    /// Whether the cancellation flag is polled once `observation` is taken
    /// in: only where a read would follow, that is when the file was opened
    /// and after each line that was counted.
    pub open spec fn polls(self, observation: ObservationView) -> bool {
        match (self.phase, observation) {
            (Phase::AwaitOpen, ObservationView::Opened(Ok(_))) => true,
            (Phase::Reading, ObservationView::Line(Ok(line))) => line.len() > 0
                && self.stats.has_room_for(line),
            _ => false,
        }
    }

    /// Whether `observation` answers what this state waits for, and can be
    /// taken in. A line is refused when counting it would take a counter
    /// out of `usize`.
    pub open spec fn accepts(self, observation: ObservationView) -> bool {
        match (self.phase, observation) {
            (Phase::AwaitSize, ObservationView::Size(_)) => true,
            (Phase::AwaitOpen, ObservationView::Opened(_)) => true,
            (Phase::Reading, ObservationView::Line(Ok(line))) => line.len() == 0
                || self.stats.has_room_for(line),
            (Phase::Reading, ObservationView::Line(Err(_))) => true,
            _ => false,
        }
    }

    /// The state once `observation` is taken in, before any poll of the
    /// cancellation flag. A file that cannot be opened ends with the error
    /// and with all its statistics at zero, the size included. An
    /// observation that is not accepted changes nothing.
    pub open spec fn taken(self, observation: ObservationView) -> AnalyzerView {
        match (self.phase, observation) {
            (Phase::AwaitSize, ObservationView::Size(Ok(size))) => AnalyzerView {
                stats: StatsView { size_bytes: size as nat, ..self.stats },
                phase: Phase::AwaitOpen,
                ..self
            },
            (Phase::AwaitSize, ObservationView::Size(Err(message))) => self.with_error(
                "metadata"@,
                message,
            ).in_phase(Phase::AwaitOpen),
            (Phase::AwaitOpen, ObservationView::Opened(Err(message))) => (AnalyzerView {
                stats: StatsView::zero(),
                ..self
            }).with_error("open"@, message).in_phase(Phase::Finished),
            (Phase::Reading, ObservationView::Line(Ok(line))) => if line.len() == 0 {
                self.in_phase(Phase::Finished)
            } else if self.stats.has_room_for(line) {
                AnalyzerView {
                    stats: self.stats.with_line(line),
                    lines: self.lines.push(line),
                    ..self
                }
            } else {
                self
            },
            (Phase::Reading, ObservationView::Line(Err(message))) => self.with_error(
                "read_line"@,
                message,
            ).in_phase(Phase::Finished),
            _ => self,
        }
    }

    /// The state after `observation`, where `cancelled` is what the poll of
    /// the cancellation flag says, if there is one: the observation is
    /// taken in first, then the flag decides whether a read follows.
    pub open spec fn after(self, observation: ObservationView, cancelled: bool) -> AnalyzerView {
        if self.polls(observation) {
            self.taken(observation).before_read(cancelled)
        } else {
            self.taken(observation)
        }
    }

    /// What is handed out when the analysis is collected.
    pub open spec fn result(self, elapsed: nat) -> AnalysisView {
        AnalysisView {
            filename: self.filename,
            stats: self.stats,
            errors: self.errors,
            processing_time: elapsed,
        }
    }
}

/// Total number of characters of `lines`.
pub open spec fn total_chars(lines: Seq<Seq<char>>) -> nat
    decreases lines.len(),
{
    if lines.len() == 0 {
        0
    } else {
        total_chars(lines.drop_last()) + lines.last().len()
    }
}

/// Total number of words of `lines`.
pub open spec fn total_words(lines: Seq<Seq<char>>) -> nat
    decreases lines.len(),
{
    if lines.len() == 0 {
        0
    } else {
        total_words(lines.drop_last()) + crate::text::word_count(lines.last())
    }
}

/// Whether `lines` can be counted one after the other, starting from
/// `stats`, without a counter leaving `usize`.
pub open spec fn lines_fit(stats: StatsView, lines: Seq<Seq<char>>) -> bool
    decreases lines.len(),
{
    lines.len() > 0 ==> lines_fit(stats, lines.drop_last()) && stats.with_lines(
        lines.drop_last(),
    ).has_room_for(lines.last())
}

/// The counts before any line: nothing but the size.
pub open spec fn sized(size_bytes: nat) -> StatsView {
    StatsView { size_bytes, ..StatsView::zero() }
}

/// The analysis of one file in progress.
pub struct Analyzer {
    filename: String,
    stats: FileStats,
    errors: Vec<ProcessingError>,
    phase: Phase,
    lines: Ghost<Seq<Seq<char>>>,
}

impl View for Analyzer {
    type V = AnalyzerView;

    closed spec fn view(&self) -> AnalyzerView {
        AnalyzerView {
            filename: self.filename@,
            stats: self.stats@,
            errors: error_views(self.errors@),
            phase: self.phase,
            lines: self.lines@,
        }
    }
}

impl AnalyzerView {
    /// The counts are those of the lines taken in, and nothing else; no
    /// line is taken in before the file is open.
    pub open spec fn wf(self) -> bool {
        &&& (self.phase == Phase::AwaitSize || self.phase == Phase::AwaitOpen)
            ==> self.lines.len() == 0
        &&& lines_fit(sized(self.stats.size_bytes), self.lines)
        &&& self.stats == sized(self.stats.size_bytes).with_lines(self.lines)
        &&& self.stats.char_frequencies.dom().finite()
    }
}

impl Analyzer {
    /// Begins the analysis of `filename`, given what a poll of the
    /// cancellation flag said: a cancelled analysis is complete at once,
    /// with a note and nothing counted.
    pub fn begin(filename: String, cancelled: bool) -> (analyzer: Analyzer)
        ensures
            analyzer@ == AnalyzerView::initial(filename@, cancelled),
            analyzer@.wf(),
    {
        let mut errors: Vec<ProcessingError> = Vec::new();
        let mut phase = Phase::AwaitSize;
        if cancelled {
            let note = err(filename.as_str(), "cancel", "cancelled before start".to_owned());
            errors.push(note);
            phase = Phase::Finished;
        }
        let analyzer = Analyzer {
            filename,
            stats: FileStats::default(),
            errors,
            phase,
            lines: Ghost(Seq::empty()),
        };
        proof {
            assert(analyzer@.errors =~= AnalyzerView::initial(filename@, cancelled).errors);
        }
        analyzer
    }

    /// Begins the analysis of `filename` after polling `cancel`.
    pub fn start(filename: String, cancel: &CancellationToken) -> (analyzer: Analyzer)
        ensures
            analyzer@ == AnalyzerView::initial(filename@, true) || analyzer@
                == AnalyzerView::initial(filename@, false),
            analyzer@.wf(),
    {
        Analyzer::begin(filename, cancel.is_cancelled())
    }

    /// What the caller is to do next.
    pub fn request(&self) -> (request: Request)
        ensures
            request == self@.request(),
    {
        match self.phase {
            Phase::AwaitSize => Request::Size,
            Phase::AwaitOpen => Request::Open,
            Phase::Reading => Request::Line,
            Phase::Finished => Request::Finish,
        }
    }

    /// Whether the analysis is complete.
    pub fn is_finished(&self) -> (finished: bool)
        ensures
            finished == (self@.phase == Phase::Finished),
    {
        match self.phase {
            Phase::Finished => true,
            _ => false,
        }
    }

    fn record(&mut self, operation: &str, message: String)
        ensures
            final(self)@ == old(self)@.with_error(operation@, message@),
    {
        let error = err(self.filename.as_str(), operation, message);
        self.errors.push(error);
        proof {
            assert(final(self)@.errors =~= old(self)@.with_error(operation@, message@).errors);
        }
    }

    fn check_before_read(&mut self, cancelled: bool)
        ensures
            final(self)@ == old(self)@.before_read(cancelled),
    {
        if cancelled {
            self.record("cancel", "cancelled during read".to_owned());
            self.phase = Phase::Finished;
        } else {
            self.phase = Phase::Reading;
        }
    }

    fn take_in(&mut self, observation: Observation) -> (taken: (bool, bool))
        requires
            old(self)@.wf(),
        ensures
            taken.0 == old(self)@.accepts(observation@),
            taken.1 == old(self)@.polls(observation@),
            final(self)@ == old(self)@.taken(observation@),
            final(self)@.wf(),
    {
        match observation {
            Observation::Size(outcome) => {
                if self.phase != Phase::AwaitSize {
                    return (false, false);
                }
                match outcome {
                    Ok(size) => {
                        self.stats.size_bytes = size;
                    },
                    Err(message) => {
                        self.record("metadata", message);
                    },
                }
                self.phase = Phase::AwaitOpen;
                (true, false)
            },
            Observation::Opened(outcome) => {
                if self.phase != Phase::AwaitOpen {
                    return (false, false);
                }
                match outcome {
                    Ok(_) => (true, true),
                    Err(message) => {
                        self.stats.size_bytes = 0;
                        self.record("open", message);
                        self.phase = Phase::Finished;
                        (true, false)
                    },
                }
            },
            Observation::Line(outcome) => {
                if self.phase != Phase::Reading {
                    return (false, false);
                }
                match outcome {
                    Ok(line) => {
                        if line.as_str().is_empty() {
                            self.phase = Phase::Finished;
                            return (true, false);
                        }
                        if !self.stats.absorb_line(line.as_str()) {
                            return (false, false);
                        }
                        proof {
                            let before = old(self)@;
                            let lines = before.lines.push(line@);
                            assert(lines.drop_last() =~= before.lines);
                            crate::text::lemma_tally_finite(
                                before.stats.char_frequencies,
                                line@,
                            );
                            self.lines@ = lines;
                        }
                        (true, true)
                    },
                    Err(message) => {
                        self.record("read_line", message);
                        self.phase = Phase::Finished;
                        (true, false)
                    },
                }
            },
        }
    }

    /// Takes in what the caller observed, where `cancelled` is what a poll
    /// of the cancellation flag says now. Returns `false`, and changes
    /// nothing, when the observation is not the one awaited or when a line
    /// cannot be counted.
    pub fn advance(&mut self, observation: Observation, cancelled: bool) -> (accepted: bool)
        requires
            old(self)@.wf(),
        ensures
            accepted == old(self)@.accepts(observation@),
            final(self)@ == old(self)@.after(observation@, cancelled),
            final(self)@.wf(),
    {
        let (accepted, polls) = self.take_in(observation);
        if polls {
            self.check_before_read(cancelled);
        }
        accepted
    }

    /// Like [`Analyzer::advance`], with the cancellation flag polled from
    /// `cancel`: after the observation is taken in, and only where
    /// [`AnalyzerView::polls`] says so. What follows depends on what the
    /// poll says, and on nothing else.
    pub fn step(&mut self, observation: Observation, cancel: &CancellationToken) -> (accepted:
        bool)
        requires
            old(self)@.wf(),
        ensures
            accepted == old(self)@.accepts(observation@),
            final(self)@ == old(self)@.after(observation@, true) || final(self)@ == old(
                self,
            )@.after(observation@, false),
            !old(self)@.polls(observation@) ==> final(self)@ == old(self)@.after(
                observation@,
                false,
            ),
            final(self)@.wf(),
    {
        let (accepted, polls) = self.take_in(observation);
        if polls {
            let cancelled = cancel.is_cancelled();
            self.check_before_read(cancelled);
        }
        accepted
    }

    /// Ends the analysis and hands out what was recorded, with the time the
    /// caller measured, in nanoseconds.
    pub fn finish(self, elapsed: u64) -> (analysis: FileAnalysis)
        ensures
            analysis@ == self@.result(elapsed as nat),
    {
        FileAnalysis {
            filename: self.filename,
            stats: self.stats,
            errors: self.errors,
            processing_time: elapsed,
        }
    }
}

/// Counting lines one after the other adds up: one per line, the words of
/// each, and every character once in the histogram.
pub proof fn lemma_lines_add_up(stats: StatsView, lines: Seq<Seq<char>>)
    requires
        lines_fit(stats, lines),
        stats.char_frequencies.dom().finite(),
    ensures
        stats.with_lines(lines).line_count == stats.line_count + lines.len(),
        stats.with_lines(lines).word_count == stats.word_count + total_words(lines),
        stats.with_lines(lines).size_bytes == stats.size_bytes,
        stats.with_lines(lines).char_frequencies.dom().finite(),
        crate::text::histogram_total(stats.with_lines(lines).char_frequencies)
            == crate::text::histogram_total(stats.char_frequencies) + total_chars(lines),
    decreases lines.len(),
{
    if lines.len() > 0 {
        let front = lines.drop_last();
        lemma_lines_add_up(stats, front);
        let before = stats.with_lines(front);
        crate::text::lemma_tally_finite(before.char_frequencies, lines.last());
        crate::text::lemma_tally_adds_text(before.char_frequencies, lines.last());
    }
}

/// Whatever state an analysis is in, its counts are those of the lines it
/// took in: the histogram sums to the number of characters of those lines,
/// terminators included, and lines and words are counted once each.
pub proof fn lemma_counts_match_lines(state: AnalyzerView)
    requires
        state.wf(),
    ensures
        crate::text::histogram_total(state.stats.char_frequencies) == total_chars(state.lines),
        state.stats.line_count == state.lines.len(),
        state.stats.word_count == total_words(state.lines),
{
    broadcast use vstd::multiset::group_multiset_axioms;

    let base = sized(state.stats.size_bytes);
    lemma_lines_add_up(base, state.lines);
    assert(crate::text::histogram(base.char_frequencies) =~= vstd::multiset::Multiset::empty())
        by {
        assert forall|code: u32| crate::text::histogram(base.char_frequencies).count(code) == 0 by {
            crate::text::lemma_histogram_count(base.char_frequencies, code);
        }
    }
}

/// Where the cancellation flag is not polled, it has no say in what
/// follows; and it never touches what was counted.
pub proof fn lemma_poll_decides_only_before_reads(
    state: AnalyzerView,
    observation: ObservationView,
)
    ensures
        !state.polls(observation) ==> state.after(observation, true) == state.after(
            observation,
            false,
        ),
        state.after(observation, true).stats == state.after(observation, false).stats,
        state.after(observation, true).lines == state.after(observation, false).lines,
{
}

/// A file that cannot be opened ends the analysis at once: the failure is
/// the last error on record, under the name of the file, and every
/// statistic is zero, whatever size was found before.
pub proof fn lemma_failed_open_leaves_nothing(
    state: AnalyzerView,
    message: Seq<char>,
    cancelled: bool,
)
    requires
        state.phase == Phase::AwaitOpen,
    ensures
        state.after(ObservationView::Opened(Err(message)), cancelled).phase == Phase::Finished,
        state.after(ObservationView::Opened(Err(message)), cancelled).stats == StatsView::zero(),
        state.after(ObservationView::Opened(Err(message)), cancelled).errors
            == state.errors.push(
            ErrorView { filename: state.filename, operation: "open"@, message },
        ),
        state.after(ObservationView::Opened(Err(message)), cancelled).lines == state.lines,
{
}

/// An analysis that was cancelled before it began holds one note, has
/// counted nothing, and is classified as cancelled.
pub proof fn lemma_never_started_is_cancelled(filename: Seq<char>)
    ensures
        AnalyzerView::initial(filename, true).phase == Phase::Finished,
        AnalyzerView::initial(filename, true).errors.len() == 1,
        AnalyzerView::initial(filename, true).errors[0].message == cancelled_before_start(),
        AnalyzerView::initial(filename, true).stats == StatsView::zero(),
        crate::analysis::outcome_of(AnalyzerView::initial(filename, true).errors)
            == crate::analysis::Status::Cancelled,
{
    let errors = AnalyzerView::initial(filename, true).errors;
    assert(errors[0].is_cancellation());
}

} // verus!
