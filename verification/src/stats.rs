//! What is counted about one file, and the errors met on the way.

use crate::text::can_tally;
use crate::text::count_words;
use crate::text::frequency;
use crate::text::tally;
use crate::text::tally_chars;
use crate::text::tally_fits;
use crate::text::word_count;
use std::collections::HashMap;
use vstd::prelude::*;

verus! {

/// Counts gathered from the lines of one file. `char_frequencies` is keyed
/// by code point.
#[derive(Debug)]
pub struct FileStats {
    pub word_count: usize,
    pub line_count: usize,
    pub char_frequencies: HashMap<u32, usize>,
    pub size_bytes: u64,
}

/// The mathematical content of a [`FileStats`].
pub struct StatsView {
    pub word_count: nat,
    pub line_count: nat,
    pub char_frequencies: Map<u32, usize>,
    pub size_bytes: nat,
}

impl StatsView {
    /// No line seen, size unknown.
    pub open spec fn zero() -> StatsView {
        StatsView {
            word_count: 0,
            line_count: 0,
            char_frequencies: Map::<u32, usize>::empty(),
            size_bytes: 0,
        }
    }

    /// Whether one more line can be counted without a counter leaving `usize`.
    pub open spec fn has_room_for(self, line: Seq<char>) -> bool {
        &&& self.line_count + 1 <= usize::MAX
        &&& self.word_count + word_count(line) <= usize::MAX
        &&& tally_fits(self.char_frequencies, line)
    }

    /// The counts after one more line.
    pub open spec fn with_line(self, line: Seq<char>) -> StatsView {
        StatsView {
            word_count: self.word_count + word_count(line),
            line_count: self.line_count + 1,
            char_frequencies: tally(self.char_frequencies, line),
            size_bytes: self.size_bytes,
        }
    }

    /// The counts after the lines of `lines`, in order.
    pub open spec fn with_lines(self, lines: Seq<Seq<char>>) -> StatsView
        decreases lines.len(),
    {
        if lines.len() == 0 {
            self
        } else {
            self.with_lines(lines.drop_last()).with_line(lines.last())
        }
    }
}

impl View for FileStats {
    type V = StatsView;

    open spec fn view(&self) -> StatsView {
        StatsView {
            word_count: self.word_count as nat,
            line_count: self.line_count as nat,
            char_frequencies: self.char_frequencies@,
            size_bytes: self.size_bytes as nat,
        }
    }
}

impl Default for FileStats {
    fn default() -> (stats: Self)
        ensures
            stats@ == StatsView::zero(),
    {
        FileStats { word_count: 0, line_count: 0, char_frequencies: HashMap::new(), size_bytes: 0 }
    }
}

impl FileStats {
    /// Counts one more line: one line, its words, each of its characters.
    /// Returns `false`, and changes nothing, when a counter would leave
    /// `usize`.
    pub fn absorb_line(&mut self, line: &str) -> (absorbed: bool)
        ensures
            absorbed == old(self)@.has_room_for(line@),
            absorbed ==> final(self)@ == old(self)@.with_line(line@),
            !absorbed ==> final(self)@ == old(self)@,
    {
        if self.line_count == usize::MAX {
            return false;
        }
        let words = count_words(line);
        if words > usize::MAX - self.word_count {
            return false;
        }
        if !can_tally(&self.char_frequencies, line) {
            return false;
        }
        self.line_count = self.line_count + 1;
        self.word_count = self.word_count + words;
        tally_chars(&mut self.char_frequencies, line);
        true
    }

    /// How often `c` was counted.
    pub fn frequency_of(&self, c: char) -> (count: usize)
        ensures
            count == frequency(self@.char_frequencies, c as u32),
    {
        let code = c as u32;
        match self.char_frequencies.get(&code) {
            Some(n) => *n,
            None => 0,
        }
    }
}

} // verus!
