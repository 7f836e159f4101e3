use file_analyzer::analysis::err;
use file_analyzer::analysis::FileAnalysis;
use file_analyzer::analysis::ProcessingError;
use file_analyzer::analysis::Status;
use file_analyzer::progress::ProgressState;
use file_analyzer::stats::FileStats;

fn names(list: &[&str]) -> Vec<String> {
    list.iter().map(|n| n.to_string()).collect()
}

fn result(name: &str, errors: Vec<ProcessingError>, nanos: u64) -> FileAnalysis {
    FileAnalysis {
        filename: name.to_string(),
        stats: FileStats::default(),
        errors,
        processing_time: nanos,
    }
}

#[test]
fn a_new_record_has_every_file_queued() {
    let state = ProgressState::new(names(&["a.txt", "b.txt", "c.txt"]));
    assert_eq!(state.total(), 3);
    assert_eq!(state.done(), 0);
    assert_eq!(state.error_count(), 0);
    assert!(state.times().is_empty());
    assert!(!state.is_complete());
    assert_eq!(state.status(0), Some(Status::Queued));
    assert_eq!(state.status(1), Some(Status::Queued));
    assert_eq!(state.status(2), Some(Status::Queued));
    assert_eq!(state.status(3), None);
}

#[test]
fn a_record_of_no_files_is_complete() {
    let state = ProgressState::new(Vec::new());
    assert_eq!(state.total(), 0);
    assert!(state.is_complete());
    assert_eq!(state.status(0), None);
}

#[test]
fn a_file_goes_from_queued_to_processing_to_done() {
    let mut state = ProgressState::new(names(&["a.txt"]));
    assert!(state.mark_processing(0));
    assert_eq!(state.status(0), Some(Status::Processing));
    assert_eq!(state.done(), 0);
    assert!(state.record_completion(0, &result("a.txt", vec![], 40)));
    assert_eq!(state.status(0), Some(Status::Done));
    assert_eq!(state.done(), 1);
    assert_eq!(state.error_count(), 0);
    assert_eq!(state.times(), &vec![40]);
    assert!(state.is_complete());
}

#[test]
fn a_file_with_errors_is_failed_and_its_errors_are_counted() {
    let mut state = ProgressState::new(names(&["a.txt", "b.txt"]));
    assert!(state.mark_processing(1));
    let errors = vec![
        err("b.txt", "metadata", "m".to_string()),
        err("b.txt", "open", "o".to_string()),
    ];
    assert!(state.record_completion(1, &result("b.txt", errors, 7)));
    assert_eq!(state.status(1), Some(Status::Failed));
    assert_eq!(state.status(0), Some(Status::Queued));
    assert_eq!(state.done(), 1);
    assert_eq!(state.error_count(), 2);
    assert!(!state.is_complete());
}

#[test]
fn a_file_stopped_by_cancellation_is_cancelled() {
    let mut state = ProgressState::new(names(&["a.txt"]));
    assert!(state.mark_processing(0));
    let errors = vec![err("a.txt", "cancel", "cancelled before start".to_string())];
    assert!(state.record_completion(0, &result("a.txt", errors, 0)));
    assert_eq!(state.status(0), Some(Status::Cancelled));
    assert_eq!(state.error_count(), 1);
}

#[test]
fn at_completion_done_equals_total_and_every_status_is_terminal() {
    let mut state = ProgressState::new(names(&["a.txt", "b.txt", "c.txt"]));
    let order = [2usize, 0, 1];
    for job in order {
        assert!(state.mark_processing(job));
    }
    assert!(state.record_completion(1, &result("b.txt", vec![], 5)));
    assert!(!state.is_complete());
    assert!(state.record_completion(
        2,
        &result("c.txt", vec![err("c.txt", "read_line", "r".to_string())], 9)
    ));
    assert!(!state.is_complete());
    assert!(state.record_completion(
        0,
        &result("a.txt", vec![err("a.txt", "cancel", "cancelled during read".to_string())], 1)
    ));
    assert!(state.is_complete());
    assert_eq!(state.done(), state.total());
    let mut terminal = 0;
    for job in 0..state.total() {
        let status = state.status(job).unwrap();
        assert!(status.is_terminal());
        terminal += 1;
    }
    assert_eq!(terminal, state.total());
    assert_eq!(state.status(0), Some(Status::Cancelled));
    assert_eq!(state.status(1), Some(Status::Done));
    assert_eq!(state.status(2), Some(Status::Failed));
    assert_eq!(state.error_count(), 2);
    assert_eq!(state.times(), &vec![5, 9, 1]);
}

#[test]
fn done_files_have_no_errors_and_files_with_errors_are_not_done() {
    let clean = result("a.txt", vec![], 1);
    assert_eq!(clean.outcome(), Status::Done);
    assert!(clean.errors.is_empty());
    let failed = result("b.txt", vec![err("b.txt", "open", "o".to_string())], 1);
    assert!(matches!(failed.outcome(), Status::Failed | Status::Cancelled));
    let cancelled = result("c.txt", vec![err("c.txt", "cancel", "c".to_string())], 1);
    assert!(matches!(cancelled.outcome(), Status::Failed | Status::Cancelled));
}

#[test]
fn a_file_cannot_start_twice() {
    let mut state = ProgressState::new(names(&["a.txt"]));
    assert!(state.mark_processing(0));
    assert!(!state.mark_processing(0));
    assert_eq!(state.status(0), Some(Status::Processing));
}

#[test]
fn a_file_that_is_not_there_cannot_start_or_finish() {
    let mut state = ProgressState::new(names(&["a.txt"]));
    assert!(!state.mark_processing(1));
    assert!(!state.record_completion(1, &result("x.txt", vec![], 1)));
    assert_eq!(state.done(), 0);
    assert!(state.times().is_empty());
}

#[test]
fn a_queued_file_cannot_finish() {
    let mut state = ProgressState::new(names(&["a.txt"]));
    assert!(!state.record_completion(0, &result("a.txt", vec![], 1)));
    assert_eq!(state.status(0), Some(Status::Queued));
    assert_eq!(state.done(), 0);
}

#[test]
fn a_finished_file_is_not_written_again() {
    let mut state = ProgressState::new(names(&["a.txt", "b.txt"]));
    assert!(state.mark_processing(0));
    assert!(state.record_completion(0, &result("a.txt", vec![], 3)));
    assert!(!state.mark_processing(0));
    assert!(!state.record_completion(
        0,
        &result("a.txt", vec![err("a.txt", "open", "o".to_string())], 4)
    ));
    assert_eq!(state.status(0), Some(Status::Done));
    assert_eq!(state.done(), 1);
    assert_eq!(state.error_count(), 0);
    assert_eq!(state.times(), &vec![3]);
}

#[test]
fn status_is_found_by_file_name() {
    let mut state = ProgressState::new(names(&["a.txt", "b.txt", "a.txt"]));
    assert!(state.mark_processing(2));
    assert!(state.mark_processing(1));
    assert_eq!(state.status_of("a.txt"), Some(Status::Queued));
    assert_eq!(state.status_of("b.txt"), Some(Status::Processing));
    assert_eq!(state.status_of("c.txt"), None);
    assert_eq!(state.status_of(""), None);
}

#[test]
fn a_snapshot_shows_the_counters() {
    let mut state = ProgressState::new(names(&["a.txt", "b.txt"]));
    assert!(state.mark_processing(0));
    assert!(state.record_completion(
        0,
        &result("a.txt", vec![err("a.txt", "open", "o".to_string())], 3)
    ));
    let shot = state.snapshot(1_500, true);
    assert_eq!(shot.done, 1);
    assert_eq!(shot.total, 2);
    assert_eq!(shot.error_count, 1);
    assert_eq!(shot.elapsed, 1_500);
    assert!(shot.cancelled);
    assert!(!shot.is_last());
    assert!(state.mark_processing(1));
    assert!(state.record_completion(1, &result("b.txt", vec![], 3)));
    let last = state.snapshot(2_000, false);
    assert_eq!(last.done, 2);
    assert!(!last.cancelled);
    assert!(last.is_last());
}

#[test]
fn a_run_cancelled_before_any_start_ends_with_every_file_cancelled() {
    let files = names(&["a.txt", "b.txt", "c.txt", "d.txt"]);
    let mut state = ProgressState::new(files.clone());
    let started = [2usize, 0, 3, 1];
    let finished = [0usize, 3, 1, 2];
    for job in started {
        assert!(state.mark_processing(job));
    }
    for job in finished {
        let analysis = file_analyzer::analyzer::Analyzer::begin(files[job].clone(), true).finish(0);
        assert_eq!(analysis.errors.len(), 1);
        assert_eq!(analysis.errors[0].message, "cancelled before start");
        assert!(state.record_completion(job, &analysis));
    }
    assert!(state.is_complete());
    assert_eq!(state.done(), 4);
    assert_eq!(state.error_count(), state.total());
    for job in 0..state.total() {
        assert_eq!(state.status(job), Some(Status::Cancelled));
    }
}
