//! Statistics of a single line of text: words and character frequencies.

use std::collections::HashMap;
use vstd::multiset::Multiset;
use vstd::prelude::*;
use vstd::utf8::encode_utf8;

verus! {

/// Whether `c` is white space as Unicode defines it (`White_Space`): the
/// controls from tab to carriage return, the space, next line, the
/// no-break space, the ogham space mark, the spaces from en quad to hair
/// space, the line and the paragraph separator, the narrow no-break
/// space, the medium mathematical space and the ideographic space.
pub open spec fn white_space(c: char) -> bool {
    let code = c as u32;
    ||| 0x0009 <= code <= 0x000D
    ||| code == 0x0020
    ||| code == 0x0085
    ||| code == 0x00A0
    ||| code == 0x1680
    ||| 0x2000 <= code <= 0x200A
    ||| code == 0x2028
    ||| code == 0x2029
    ||| code == 0x202F
    ||| code == 0x205F
    ||| code == 0x3000
}

/// Trusted: `char::is_whitespace` tells whether a character is white space
/// as Unicode defines it, that is whether it is one of the twenty-five
/// characters that [`white_space`] lists.
#[verifier::external_body]
fn is_white_space(c: char) -> (white: bool)
    ensures
        white == white_space(c),
{
    c.is_whitespace()
}

/// Whether `part` is a stretch of `whole`: characters of `whole` that
/// stand in a row, as they stand there.
pub open spec fn is_stretch_of(part: Seq<char>, whole: Seq<char>) -> bool {
    exists|from: int, to: int|
        0 <= from <= to <= whole.len() && part == #[trigger] whole.subrange(from, to)
}

/// A word starts at `i` when `text[i]` is not white space and is either the
/// first character or preceded by white space.
pub open spec fn starts_word(text: Seq<char>, i: int) -> bool {
    &&& 0 <= i < text.len()
    &&& !white_space(text[i])
    &&& (i == 0 || white_space(text[i - 1]))
}

/// Number of maximal runs of characters that are not white space.
pub open spec fn word_count(text: Seq<char>) -> nat
    decreases text.len(),
{
    if text.len() == 0 {
        0
    } else {
        word_count(text.drop_last()) + if starts_word(text, text.len() - 1) {
            1nat
        } else {
            0nat
        }
    }
}

/// Number of positions of `text` that hold the character with code point `code`.
pub open spec fn occurrences(text: Seq<char>, code: u32) -> nat
    decreases text.len(),
{
    if text.len() == 0 {
        0
    } else {
        occurrences(text.drop_last(), code) + if text.last() as u32 == code {
            1nat
        } else {
            0nat
        }
    }
}

/// How often `code` has been counted in `hist`; absent keys count as zero.
pub open spec fn frequency(hist: Map<u32, usize>, code: u32) -> nat {
    if hist.contains_key(code) {
        hist[code] as nat
    } else {
        0
    }
}

/// The histogram `hist` after every character of `text` has been counted
/// into it: a code point is present when it was present before or occurs in
/// `text`, and its count grows by its occurrences.
pub open spec fn tally(hist: Map<u32, usize>, text: Seq<char>) -> Map<u32, usize> {
    Map::new(
        |code: u32| hist.contains_key(code) || occurrences(text, code) > 0,
        |code: u32| (frequency(hist, code) + occurrences(text, code)) as usize,
    )
}

/// Whether every count of `hist` can grow by the occurrences in `text`
/// without leaving `usize`.
pub open spec fn tally_fits(hist: Map<u32, usize>, text: Seq<char>) -> bool {
    forall|code: u32| frequency(hist, code) + #[trigger] occurrences(text, code) <= usize::MAX
}

/// No code point occurs more often than there are characters.
pub proof fn lemma_occurrences_bounded(text: Seq<char>, code: u32)
    ensures
        occurrences(text, code) <= text.len(),
    decreases text.len(),
{
    if text.len() > 0 {
        lemma_occurrences_bounded(text.drop_last(), code);
    }
}

/// Counting a prefix never counts more than counting the whole.
pub proof fn lemma_occurrences_prefix(text: Seq<char>, n: int, code: u32)
    requires
        0 <= n <= text.len(),
    ensures
        occurrences(text.take(n), code) <= occurrences(text, code),
    decreases text.len() - n,
{
    if n < text.len() {
        lemma_occurrences_prefix(text, n + 1, code);
        assert(text.take(n + 1).drop_last() =~= text.take(n));
    } else {
        assert(text.take(n) =~= text);
    }
}

/// A code point that is counted at least once sits at some position.
pub proof fn lemma_occurrences_witness(text: Seq<char>, code: u32) -> (i: int)
    requires
        occurrences(text, code) > 0,
    ensures
        0 <= i < text.len(),
        text[i] as u32 == code,
    decreases text.len(),
{
    if text.last() as u32 == code {
        text.len() - 1
    } else {
        lemma_occurrences_witness(text.drop_last(), code)
    }
}

/// The code points of `text`, in order.
pub open spec fn code_points(text: Seq<char>) -> Seq<u32> {
    text.map_values(|c: char| c as u32)
}

/// A histogram read as a multiset of code points: each key as often as its
/// count says.
pub open spec fn histogram(hist: Map<u32, usize>) -> Multiset<u32> {
    Multiset::from_map(hist.map_values(|n: usize| n as nat))
}

/// Sum of all counts of a histogram.
pub open spec fn histogram_total(hist: Map<u32, usize>) -> nat {
    histogram(hist).len()
}

/// In the multiset reading each code point is held as often as it was counted.
pub proof fn lemma_histogram_count(hist: Map<u32, usize>, code: u32)
    requires
        hist.dom().finite(),
    ensures
        histogram(hist).count(code) == frequency(hist, code),
{
    broadcast use vstd::multiset::group_multiset_axioms;

    let counts = hist.map_values(|n: usize| n as nat);
    assert(counts.dom() =~= hist.dom());
}

/// The multiset of the code points of a text holds each as often as it occurs.
pub proof fn lemma_code_points_count(text: Seq<char>, code: u32)
    ensures
        code_points(text).to_multiset().count(code) == occurrences(text, code),
    decreases text.len(),
{
    broadcast use vstd::multiset::group_multiset_axioms;

    if text.len() == 0 {
        assert(code_points(text) =~= Seq::<u32>::empty());
        code_points(text).to_multiset_ensures();
        assert(code_points(text).to_multiset().len() == 0);
    } else {
        let front = text.drop_last();
        lemma_code_points_count(front, code);
        assert(code_points(text) =~= code_points(front).push(text.last() as u32));
        vstd::seq_lib::to_multiset_build(code_points(front), text.last() as u32);
    }
}

/// Counting a text into a histogram keeps its set of keys finite.
pub proof fn lemma_tally_finite(hist: Map<u32, usize>, text: Seq<char>)
    requires
        hist.dom().finite(),
    ensures
        tally(hist, text).dom().finite(),
{
    let codes = code_points(text);
    vstd::seq_lib::seq_to_set_is_finite(codes);
    assert forall|code: u32| #[trigger]
        tally(hist, text).dom().contains(code) implies hist.dom().union(codes.to_set()).contains(
        code,
    ) by {
        if occurrences(text, code) > 0 {
            let i = lemma_occurrences_witness(text, code);
            assert(codes[i] == code);
            assert(codes.contains(code));
        }
    }
    vstd::set_lib::lemma_len_subset(tally(hist, text).dom(), hist.dom().union(codes.to_set()));
}

/// Counting a text into a histogram adds exactly the characters of the text:
/// the sum of all counts grows by the length of the text.
pub proof fn lemma_tally_adds_text(hist: Map<u32, usize>, text: Seq<char>)
    requires
        hist.dom().finite(),
        tally_fits(hist, text),
    ensures
        histogram(tally(hist, text)) == histogram(hist).add(code_points(text).to_multiset()),
        histogram_total(tally(hist, text)) == histogram_total(hist) + text.len(),
{
    broadcast use vstd::multiset::group_multiset_axioms;

    let after = tally(hist, text);
    lemma_tally_finite(hist, text);
    assert forall|code: u32|
        histogram(after).count(code) == histogram(hist).add(
            code_points(text).to_multiset(),
        ).count(code) by {
        lemma_histogram_count(after, code);
        lemma_histogram_count(hist, code);
        lemma_code_points_count(text, code);
        assert(frequency(hist, code) + occurrences(text, code) <= usize::MAX);
    }
    assert(histogram(after) =~= histogram(hist).add(code_points(text).to_multiset()));
    code_points(text).to_multiset_ensures();
}

/// A histogram that started empty and counted `text` sums to the number of
/// characters of `text`.
pub proof fn lemma_histogram_total_is_length(text: Seq<char>)
    requires
        text.len() <= usize::MAX,
    ensures
        histogram_total(tally(Map::<u32, usize>::empty(), text)) == text.len(),
{
    broadcast use vstd::multiset::group_multiset_axioms;

    let none = Map::<u32, usize>::empty();
    assert forall|code: u32| frequency(none, code) + #[trigger] occurrences(text, code)
        <= usize::MAX by {
        lemma_occurrences_bounded(text, code);
    }
    lemma_tally_adds_text(none, text);
    assert(histogram(none) =~= Multiset::<u32>::empty()) by {
        assert forall|code: u32| histogram(none).count(code) == 0 by {
            lemma_histogram_count(none, code);
        }
    }
}

/// Every character takes at least one byte in UTF-8.
proof fn lemma_chars_at_most_bytes(text: Seq<char>)
    ensures
        text.len() <= encode_utf8(text).len(),
    decreases text.len(),
{
    if text.len() > 0 {
        lemma_chars_at_most_bytes(text.drop_first());
    }
}

/// A string has no more characters than it has bytes, and so no more
/// than `usize` can count.
fn chars_fit(line: &str)
    ensures
        line@.len() <= usize::MAX,
{
    let bytes = line.as_bytes();
    proof {
        lemma_chars_at_most_bytes(line@);
        assert(bytes@.len() == bytes.len());
    }
}

/// Counts the words of `line`: the maximal runs of characters that are not
/// white space.
pub fn count_words(line: &str) -> (count: usize)
    ensures
        count == word_count(line@),
{
    chars_fit(line);
    let mut count: usize = 0;
    let mut after_space = true;
    for c in it: line.chars()
        invariant
            it.seq() == line@,
            line@.len() <= usize::MAX,
            count == word_count(line@.take(it.index() as int)),
            count <= it.index(),
            after_space == (it.index() == 0 || white_space(line@[it.index() - 1])),
    {
        let ghost k = it.index() as int;
        let white = is_white_space(c);
        proof {
            assert(line@.take(k + 1).drop_last() =~= line@.take(k));
            assert(starts_word(line@.take(k + 1), k) == (!white && after_space));
        }
        if !white && after_space {
            count = count + 1;
        }
        after_space = white;
    }
    proof {
        assert(line@.take(line@.len() as int) =~= line@);
    }
    count
}

/// Counts every character of `line` into `hist`, keyed by code point.
pub fn tally_chars(hist: &mut HashMap<u32, usize>, line: &str)
    requires
        tally_fits(old(hist)@, line@),
    ensures
        final(hist)@ == tally(old(hist)@, line@),
{
    let ghost before = hist@;
    proof {
        assert(hist@ =~= tally(before, line@.take(0)));
    }
    for c in it: line.chars()
        invariant
            it.seq() == line@,
            tally_fits(before, line@),
            hist@ == tally(before, line@.take(it.index() as int)),
    {
        let ghost k = it.index() as int;
        let code = c as u32;
        let seen: usize = match hist.get(&code) {
            Some(n) => *n,
            None => 0,
        };
        proof {
            assert(line@.take(k + 1).drop_last() =~= line@.take(k));
            lemma_occurrences_prefix(line@, k + 1, code);
            assert(seen == frequency(before, code) + occurrences(line@.take(k), code));
        }
        hist.insert(code, seen + 1);
        proof {
            assert(hist@ =~= tally(before, line@.take(k + 1)));
        }
    }
    proof {
        assert(line@.take(line@.len() as int) =~= line@);
    }
}

/// Decides whether [`tally_chars`] may be called: whether no count of `hist`
/// would leave `usize` when the characters of `line` are added.
pub fn can_tally(hist: &HashMap<u32, usize>, line: &str) -> (fits: bool)
    ensures
        fits == tally_fits(hist@, line@),
{
    chars_fit(line);
    let mut own: HashMap<u32, usize> = HashMap::new();
    proof {
        assert forall|code: u32| frequency(own@, code) + #[trigger] occurrences(line@, code)
            <= usize::MAX by {
            lemma_occurrences_bounded(line@, code);
        }
    }
    tally_chars(&mut own, line);
    for c in it: line.chars()
        invariant
            it.seq() == line@,
            line@.len() <= usize::MAX,
            own@ == tally(Map::<u32, usize>::empty(), line@),
            forall|j: int|
                0 <= j < it.index() ==> frequency(hist@, line@[j] as u32) + occurrences(
                    line@,
                    #[trigger] (line@[j] as u32),
                ) <= usize::MAX,
    {
        let ghost k = it.index() as int;
        let code = c as u32;
        let seen: usize = match hist.get(&code) {
            Some(n) => *n,
            None => 0,
        };
        let here: usize = match own.get(&code) {
            Some(n) => *n,
            None => 0,
        };
        proof {
            lemma_occurrences_bounded(line@, code);
            assert(here == occurrences(line@, code));
        }
        if seen > usize::MAX - here {
            return false;
        }
    }
    proof {
        assert forall|code: u32| frequency(hist@, code) + #[trigger] occurrences(line@, code)
            <= usize::MAX by {
            if occurrences(line@, code) > 0 {
                let i = lemma_occurrences_witness(line@, code);
                assert(line@[i] as u32 == code);
            }
        }
    }
    true
}

} // verus!
