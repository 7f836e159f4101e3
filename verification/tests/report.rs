use file_analyzer::analysis::err;
use file_analyzer::analysis::FileAnalysis;
use file_analyzer::report::display_name;
use file_analyzer::report::file_report;
use file_analyzer::report::label_from;
use file_analyzer::stats::FileStats;

fn analysis() -> FileAnalysis {
    let mut stats = FileStats::default();
    stats.word_count = 1234;
    stats.line_count = 56;
    stats.size_bytes = 7890;
    FileAnalysis { filename: "data/a.txt".to_string(), stats, errors: Vec::new(), processing_time: 9 }
}

#[test]
fn report_of_a_clean_file() {
    let lines = file_report(&analysis(), "a.txt", "1.5ms");
    assert_eq!(
        lines,
        vec![
            "".to_string(),
            "==============================".to_string(),
            "Processing a.txt".to_string(),
            "Word count: 1234".to_string(),
            "Line count: 56".to_string(),
            "Size (bytes): 7890".to_string(),
            "Processing time: 1.5ms".to_string(),
            "Errors: none".to_string(),
            "==============================".to_string(),
            "".to_string(),
        ]
    );
}

#[test]
fn report_of_a_file_with_errors() {
    let mut a = analysis();
    a.errors.push(err("data/a.txt", "metadata", "no stat".to_string()));
    a.errors.push(err("data/a.txt", "cancel", "cancelled during read".to_string()));
    let lines = file_report(&a, "a.txt", "0ns");
    assert_eq!(lines.len(), 12);
    assert_eq!(lines[7], "Errors (2):");
    assert_eq!(lines[8], "  - data/a.txt | metadata: no stat");
    assert_eq!(lines[9], "  - data/a.txt | cancel: cancelled during read");
    assert_eq!(lines[10], "==============================");
    assert_eq!(lines[11], "");
}

#[test]
fn report_writes_numbers_in_decimal() {
    let mut a = analysis();
    a.stats.word_count = 0;
    a.stats.line_count = 10;
    a.stats.size_bytes = u64::MAX;
    let lines = file_report(&a, "x", "");
    assert_eq!(lines[3], "Word count: 0");
    assert_eq!(lines[4], "Line count: 10");
    assert_eq!(lines[5], "Size (bytes): 18446744073709551615");
    assert_eq!(lines[6], "Processing time: ");
}

#[test]
fn the_label_is_the_last_component_when_there_is_one() {
    assert_eq!(label_from(Some("a.txt".to_string()), "data/a.txt"), "a.txt");
    assert_eq!(label_from(None, "data/.."), "data/..");
}

#[test]
fn display_name_is_the_name_of_the_file() {
    assert_eq!(display_name("data/sub/a.txt"), "a.txt");
    assert_eq!(display_name("a.txt"), "a.txt");
    assert_eq!(display_name(".."), "..");
}

#[test]
fn display_name_is_a_stretch_of_the_path() {
    let paths =
        ["data/sub/a.txt", "a.txt", "..", "data/sub/", "/", "", "x/./y.txt/.", "a b/c d.txt"];
    for path in paths {
        let label = display_name(path);
        assert!(path.contains(label.as_str()));
    }
    assert_eq!(display_name("data/sub/"), "sub");
    assert_eq!(display_name("/"), "/");
    assert_eq!(display_name(""), "");
}
