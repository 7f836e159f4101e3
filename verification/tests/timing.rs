use file_analyzer::timing::timing_summary;
use file_analyzer::timing::TimingSummary;

#[test]
fn no_durations_give_zeros() {
    assert_eq!(timing_summary(&[]), TimingSummary { min: 0, max: 0, average: 0 });
}

#[test]
fn one_duration_is_its_own_summary() {
    assert_eq!(timing_summary(&[42]), TimingSummary { min: 42, max: 42, average: 42 });
}

#[test]
fn summary_of_several_durations() {
    let summary = timing_summary(&[30, 10, 20, 40]);
    assert_eq!(summary, TimingSummary { min: 10, max: 40, average: 25 });
}

#[test]
fn the_average_is_rounded_down() {
    assert_eq!(timing_summary(&[1, 2]).average, 1);
    assert_eq!(timing_summary(&[1, 1, 2]).average, 1);
    assert_eq!(timing_summary(&[5, 6, 6]).average, 5);
}

#[test]
fn the_sum_may_exceed_sixty_four_bits() {
    let summary = timing_summary(&[u64::MAX, u64::MAX, u64::MAX - 3]);
    assert_eq!(summary.min, u64::MAX - 3);
    assert_eq!(summary.max, u64::MAX);
    assert_eq!(summary.average, u64::MAX - 1);
}

#[test]
fn the_average_lies_between_the_extremes() {
    let lists: [&[u64]; 4] = [&[7], &[0, 0, 9], &[3, 1, 4, 1, 5, 9, 2, 6], &[100, 1]];
    for list in lists {
        let summary = timing_summary(list);
        assert!(summary.min <= summary.average);
        assert!(summary.average <= summary.max);
    }
}
