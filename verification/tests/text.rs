use file_analyzer::text::can_tally;
use file_analyzer::text::count_words;
use file_analyzer::text::tally_chars;
use std::collections::HashMap;

#[test]
fn empty_line_has_no_words() {
    assert_eq!(count_words(""), 0);
}

#[test]
fn blank_line_has_no_words() {
    assert_eq!(count_words(" \t \n"), 0);
}

#[test]
fn words_are_runs_between_white_space() {
    assert_eq!(count_words("a b\n"), 2);
    assert_eq!(count_words("  lead and  trail  "), 3);
    assert_eq!(count_words("one"), 1);
}

#[test]
fn unicode_white_space_separates_words() {
    assert_eq!(count_words("a\u{2003}b\u{00a0}c"), 3);
    assert_eq!(count_words("\u{3000}"), 0);
}

#[test]
fn letters_outside_ascii_are_not_white_space() {
    assert_eq!(count_words("\u{00e9}t\u{00e9} \u{4e2d}\u{6587}"), 2);
}

#[test]
fn word_count_agrees_with_split_whitespace() {
    let lines = ["a b\n", "c\n", "\n", " x\ty\r\nz", "\u{2028}p\u{2029}q", ""];
    for line in lines {
        assert_eq!(count_words(line), line.split_whitespace().count());
    }
}

#[test]
fn tally_counts_each_character_by_code_point() {
    let mut hist: HashMap<u32, usize> = HashMap::new();
    tally_chars(&mut hist, "abca\n");
    assert_eq!(hist.get(&('a' as u32)), Some(&2));
    assert_eq!(hist.get(&('b' as u32)), Some(&1));
    assert_eq!(hist.get(&('c' as u32)), Some(&1));
    assert_eq!(hist.get(&('\n' as u32)), Some(&1));
    assert_eq!(hist.len(), 4);
}

#[test]
fn tally_adds_to_what_was_counted() {
    let mut hist: HashMap<u32, usize> = HashMap::new();
    hist.insert('a' as u32, 5);
    hist.insert('z' as u32, 1);
    tally_chars(&mut hist, "aab");
    assert_eq!(hist.get(&('a' as u32)), Some(&7));
    assert_eq!(hist.get(&('b' as u32)), Some(&1));
    assert_eq!(hist.get(&('z' as u32)), Some(&1));
    assert_eq!(hist.len(), 3);
}

#[test]
fn tally_of_nothing_changes_nothing() {
    let mut hist: HashMap<u32, usize> = HashMap::new();
    hist.insert('q' as u32, 3);
    tally_chars(&mut hist, "");
    assert_eq!(hist.len(), 1);
    assert_eq!(hist.get(&('q' as u32)), Some(&3));
}

#[test]
fn histogram_sums_to_the_number_of_characters() {
    let text = "h\u{00e9}llo w\u{4e16}rld\r\n";
    let mut hist: HashMap<u32, usize> = HashMap::new();
    tally_chars(&mut hist, text);
    let total: usize = hist.values().sum();
    assert_eq!(total, text.chars().count());
    assert_eq!(total, 13);
}

#[test]
fn can_tally_with_room() {
    let mut hist: HashMap<u32, usize> = HashMap::new();
    hist.insert('a' as u32, usize::MAX - 2);
    assert!(can_tally(&hist, "aa"));
    assert!(can_tally(&hist, "bbbb"));
    assert!(can_tally(&hist, ""));
}

#[test]
fn can_tally_refuses_a_count_that_would_overflow() {
    let mut hist: HashMap<u32, usize> = HashMap::new();
    hist.insert('a' as u32, usize::MAX - 2);
    assert!(!can_tally(&hist, "aaa"));
    assert!(!can_tally(&hist, "xaxaxa"));
    hist.insert('b' as u32, usize::MAX);
    assert!(!can_tally(&hist, "b"));
}

fn listed_as_white_space(c: char) -> bool {
    let code = c as u32;
    (0x0009..=0x000D).contains(&code)
        || code == 0x0020
        || code == 0x0085
        || code == 0x00A0
        || code == 0x1680
        || (0x2000..=0x200A).contains(&code)
        || code == 0x2028
        || code == 0x2029
        || code == 0x202F
        || code == 0x205F
        || code == 0x3000
}

#[test]
fn white_space_is_the_twenty_five_listed_characters() {
    let mut white = 0;
    let mut probe = String::new();
    for code in 0..=0x10FFFFu32 {
        if let Some(c) = char::from_u32(code) {
            probe.clear();
            probe.push('a');
            probe.push(c);
            probe.push('b');
            let words = count_words(&probe);
            if listed_as_white_space(c) {
                assert_eq!(words, 2, "U+{:04X} separates words", code);
                white += 1;
            } else {
                assert_eq!(words, 1, "U+{:04X} does not separate words", code);
            }
        }
    }
    assert_eq!(white, 25);
}
