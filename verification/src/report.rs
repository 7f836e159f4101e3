//! The lines that report on one analysed file.

use crate::analysis::AnalysisView;
use crate::analysis::ErrorView;
use crate::analysis::FileAnalysis;
use crate::analysis::ProcessingError;
use crate::text::is_stretch_of;
use vstd::prelude::*;

verus! {

/// The character for the digit `d`.
pub open spec fn digit(d: nat) -> char {
    if d == 0 {
        '0'
    } else if d == 1 {
        '1'
    } else if d == 2 {
        '2'
    } else if d == 3 {
        '3'
    } else if d == 4 {
        '4'
    } else if d == 5 {
        '5'
    } else if d == 6 {
        '6'
    } else if d == 7 {
        '7'
    } else if d == 8 {
        '8'
    } else {
        '9'
    }
}

/// `n` written in decimal, without sign and without leading zeros.
pub open spec fn decimal(n: nat) -> Seq<char>
    decreases n,
{
    if n < 10 {
        seq![digit(n)]
    } else {
        decimal(n / 10).push(digit(n % 10))
    }
}

/// Trusted: `u64`'s `to_string` writes the number in decimal, without
/// sign and without leading zeros.
#[verifier::external_body]
fn decimal_text(n: u64) -> (text: String)
    ensures
        text@ == decimal(n as nat),
{
    n.to_string()
}

/// Trusted: the final component of `path`, as `std::path::Path::file_name`
/// finds it, when there is one and it is valid Unicode. Where a component
/// begins and ends differs between platforms, so all that is claimed is
/// that a component is a stretch of the path as it was written.
#[verifier::external_body]
fn path_file_name(path: &str) -> (name: Option<String>)
    ensures
        name matches Some(n) ==> is_stretch_of(n@, path@),
{
    std::path::Path::new(path).file_name().and_then(|n| n.to_str()).map(|n| n.to_owned())
}

/// The name under which a file is shown: its last component when it has
/// one, else the whole path.
pub fn label_from(file_name: Option<String>, filename: &str) -> (label: String)
    ensures
        label@ == match file_name {
            Some(name) => name@,
            None => filename@,
        },
{
    match file_name {
        Some(name) => name,
        None => filename.to_owned(),
    }
}

/// The name under which the file at `filename` is shown: what the platform
/// takes for its final component, or `filename` itself when it finds none.
/// Either way the name is a stretch of `filename`.
pub fn display_name(filename: &str) -> (label: String)
    ensures
        is_stretch_of(label@, filename@),
{
    let file_name = path_file_name(filename);
    proof {
        if file_name is None {
            assert(filename@ == filename@.subrange(0, filename@.len() as int));
        }
    }
    label_from(file_name, filename)
}

/// The rule that opens and closes a report.
pub open spec fn rule() -> Seq<char> {
    "=============================="@
}

/// The line for one error.
pub open spec fn error_line(error: ErrorView) -> Seq<char> {
    "  - "@ + error.filename + " | "@ + error.operation + ": "@ + error.message
}

/// The lines that list `errors`: one line that says there are none, or a
/// heading with their number and one line for each.
pub open spec fn error_lines(errors: Seq<ErrorView>) -> Seq<Seq<char>> {
    if errors.len() == 0 {
        seq!["Errors: none"@]
    } else {
        seq!["Errors ("@ + decimal(errors.len()) + "):"@] + errors.map_values(
            |e: ErrorView| error_line(e),
        )
    }
}

/// The report on one file, line by line: the file under the name `label`,
/// its counts, the time it took as the text `elapsed`, and its errors.
pub open spec fn report_of(analysis: AnalysisView, label: Seq<char>, elapsed: Seq<char>) -> Seq<
    Seq<char>,
> {
    seq![
        Seq::<char>::empty(),
        rule(),
        "Processing "@ + label,
        "Word count: "@ + decimal(analysis.stats.word_count),
        "Line count: "@ + decimal(analysis.stats.line_count),
        "Size (bytes): "@ + decimal(analysis.stats.size_bytes),
        "Processing time: "@ + elapsed,
    ] + error_lines(analysis.errors) + seq![rule(), Seq::<char>::empty()]
}

/// The contents of a list of lines.
pub open spec fn line_views(lines: Seq<String>) -> Seq<Seq<char>> {
    lines.map_values(|l: String| l@)
}

fn labelled(label: &str, value: &str) -> (line: String)
    ensures
        line@ == label@ + value@,
{
    label.to_owned().concat(value)
}

fn counted(label: &str, count: usize) -> (line: String)
    ensures
        line@ == label@ + decimal(count as nat),
{
    let text = decimal_text(count as u64);
    labelled(label, text.as_str())
}

fn line_for(error: &ProcessingError) -> (line: String)
    ensures
        line@ == error_line(error@),
{
    "  - ".to_owned().concat(error.filename.as_str()).concat(" | ").concat(
        error.operation.as_str(),
    ).concat(": ").concat(error.message.as_str())
}

/// Writes the report on `analysis`, line by line, with the file shown as
/// `label` and the time it took as the text `elapsed`.
pub fn file_report(analysis: &FileAnalysis, label: &str, elapsed: &str) -> (lines: Vec<String>)
    ensures
        line_views(lines@) == report_of(analysis@, label@, elapsed@),
{
    let mut lines: Vec<String> = Vec::new();
    lines.push(String::new());
    lines.push("==============================".to_owned());
    lines.push(labelled("Processing ", label));
    lines.push(counted("Word count: ", analysis.stats.word_count));
    lines.push(counted("Line count: ", analysis.stats.line_count));
    lines.push(labelled("Size (bytes): ", decimal_text(analysis.stats.size_bytes).as_str()));
    lines.push(labelled("Processing time: ", elapsed));
    let ghost head = line_views(lines@);
    let ghost errors = analysis@.errors;
    proof {
        assert(head =~= seq![
            Seq::<char>::empty(),
            rule(),
            "Processing "@ + label@,
            "Word count: "@ + decimal(analysis@.stats.word_count),
            "Line count: "@ + decimal(analysis@.stats.line_count),
            "Size (bytes): "@ + decimal(analysis@.stats.size_bytes),
            "Processing time: "@ + elapsed@,
        ]);
    }
    if analysis.errors.len() == 0 {
        lines.push("Errors: none".to_owned());
        proof {
            assert(line_views(lines@) =~= head + error_lines(errors));
        }
    } else {
        let count = decimal_text(analysis.errors.len() as u64);
        lines.push("Errors (".to_owned().concat(count.as_str()).concat("):"));
        let ghost heading = line_views(lines@);
        proof {
            assert(heading =~= head + seq!["Errors ("@ + decimal(errors.len()) + "):"@]);
            assert(errors.take(0).map_values(|e: ErrorView| error_line(e)) =~= Seq::<
                Seq<char>,
            >::empty());
        }
        let mut i: usize = 0;
        while i < analysis.errors.len()
            invariant
                i <= analysis.errors@.len(),
                errors == analysis@.errors,
                line_views(lines@) == heading + errors.take(i as int).map_values(
                    |e: ErrorView| error_line(e),
                ),
            decreases analysis.errors@.len() - i,
        {
            let ghost listed = errors.take(i as int).map_values(|e: ErrorView| error_line(e));
            let ghost written = lines@;
            let line = line_for(&analysis.errors[i]);
            proof {
                assert(line@ == error_line(errors[i as int]));
            }
            lines.push(line);
            i = i + 1;
            proof {
                assert(lines@ =~= written.push(line));
                assert(line_views(lines@) =~= line_views(written).push(line@));
                assert(errors.take(i as int).map_values(|e: ErrorView| error_line(e))
                    =~= listed.push(error_line(errors[i - 1])));
                assert(line_views(lines@) =~= heading + listed.push(error_line(errors[i - 1])));
            }
        }
        proof {
            assert(errors.take(errors.len() as int) =~= errors);
            assert(line_views(lines@) =~= head + error_lines(errors));
        }
    }
    let ghost body = line_views(lines@);
    lines.push("==============================".to_owned());
    lines.push(String::new());
    proof {
        assert(line_views(lines@) =~= body + seq![rule(), Seq::<char>::empty()]);
        assert(line_views(lines@) =~= report_of(analysis@, label@, elapsed@));
    }
    lines
}

} // verus!
