use file_analyzer::analysis::FileAnalysis;
use file_analyzer::analysis::Status;
use file_analyzer::run::plan_run;
use file_analyzer::run::roots_or_default;
use file_analyzer::run::summarize;
use file_analyzer::run::worker_count;
use file_analyzer::run::FALLBACK_WORKERS;
use file_analyzer::stats::FileStats;
use file_analyzer::timing::TimingSummary;

#[test]
fn the_default_directory_is_used_when_none_is_given() {
    assert_eq!(roots_or_default(Vec::new()), vec!["data".to_string()]);
}

#[test]
fn given_directories_are_used_as_they_are() {
    let given = vec!["b".to_string(), "a".to_string(), "b".to_string()];
    assert_eq!(roots_or_default(given.clone()), given);
}

#[test]
fn workers_follow_the_machine() {
    assert_eq!(worker_count(Some(8)), 8);
    assert_eq!(worker_count(Some(1)), 1);
}

#[test]
fn there_is_at_least_one_worker() {
    assert_eq!(worker_count(Some(0)), 1);
}

#[test]
fn four_workers_when_the_machine_does_not_say() {
    assert_eq!(FALLBACK_WORKERS, 4);
    assert_eq!(worker_count(None), 4);
}

#[test]
fn no_files_no_run() {
    assert!(plan_run(Vec::new(), Some(8)).is_none());
    assert!(plan_run(Vec::new(), None).is_none());
}

#[test]
fn a_run_starts_with_every_file_queued() {
    let plan = plan_run(vec!["a.txt".to_string(), "b.txt".to_string()], Some(3)).unwrap();
    assert_eq!(plan.workers, 3);
    assert_eq!(plan.progress.total(), 2);
    assert_eq!(plan.progress.done(), 0);
    assert_eq!(plan.progress.status(0), Some(Status::Queued));
    assert_eq!(plan.progress.status(1), Some(Status::Queued));
}

#[test]
fn the_summary_of_a_run_without_results_is_zero() {
    let plan = plan_run(vec!["a.txt".to_string()], None).unwrap();
    let summary = summarize(0, &plan.progress);
    assert_eq!(summary.processed, 0);
    assert_eq!(summary.timing, TimingSummary { min: 0, max: 0, average: 0 });
}

#[test]
fn the_summary_reports_the_times_of_the_finished_files() {
    let mut plan = plan_run(vec!["a.txt".to_string(), "b.txt".to_string()], None).unwrap();
    for (job, nanos) in [(0usize, 300u64), (1, 100)] {
        assert!(plan.progress.mark_processing(job));
        let analysis = FileAnalysis {
            filename: "x".to_string(),
            stats: FileStats::default(),
            errors: Vec::new(),
            processing_time: nanos,
        };
        assert!(plan.progress.record_completion(job, &analysis));
    }
    let summary = summarize(2, &plan.progress);
    assert_eq!(summary.processed, 2);
    assert_eq!(summary.timing, TimingSummary { min: 100, max: 300, average: 200 });
}
