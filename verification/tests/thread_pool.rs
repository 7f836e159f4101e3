use file_analyzer::thread_pool::worker_turn;
use file_analyzer::thread_pool::ResizePlan;
use file_analyzer::thread_pool::ThreadPool;
use file_analyzer::thread_pool::WorkerAction;

fn job_of(action: WorkerAction<u32>) -> Option<u32> {
    match action {
        WorkerAction::Run(job) => Some(job),
        _ => None,
    }
}

#[test]
fn a_new_pool_has_its_workers_and_an_empty_queue() {
    let pool: ThreadPool<u32> = ThreadPool::new(3);
    assert_eq!(pool.size(), 3);
    assert_eq!(pool.queued(), 0);
    assert!(pool.is_accepting());
    assert_eq!(pool.worker_ids(), vec![0, 1, 2]);
}

#[test]
fn jobs_are_handed_out_first_in_first_out() {
    let mut pool: ThreadPool<u32> = ThreadPool::new(2);
    assert!(pool.execute(10));
    assert!(pool.execute(20));
    assert!(pool.execute(30));
    assert_eq!(pool.queued(), 3);
    assert_eq!(job_of(pool.poll(1)), Some(10));
    assert_eq!(job_of(pool.poll(0)), Some(20));
    assert_eq!(job_of(pool.poll(1)), Some(30));
    assert_eq!(pool.queued(), 0);
}

#[test]
fn a_job_is_handed_out_once() {
    let mut pool: ThreadPool<u32> = ThreadPool::new(2);
    assert!(pool.execute(7));
    assert_eq!(job_of(pool.poll(0)), Some(7));
    assert!(matches!(pool.poll(1), WorkerAction::Wait));
    assert!(matches!(pool.poll(0), WorkerAction::Wait));
}

#[test]
fn an_idle_worker_waits() {
    let mut pool: ThreadPool<u32> = ThreadPool::new(1);
    assert!(matches!(pool.poll(0), WorkerAction::Wait));
    assert_eq!(pool.size(), 1);
}

#[test]
fn a_worker_that_was_never_added_leaves() {
    let mut pool: ThreadPool<u32> = ThreadPool::new(1);
    assert!(pool.execute(5));
    assert!(matches!(pool.poll(9), WorkerAction::Exit));
    assert_eq!(pool.queued(), 1);
    assert_eq!(pool.size(), 1);
}

#[test]
fn resize_to_the_same_size_changes_nothing() {
    let mut pool: ThreadPool<u32> = ThreadPool::new(2);
    assert!(matches!(pool.resize(2), ResizePlan::Unchanged));
    assert_eq!(pool.size(), 2);
    assert_eq!(pool.worker_ids(), vec![0, 1]);
}

#[test]
fn growing_adds_workers_with_the_next_numbers() {
    let mut pool: ThreadPool<u32> = ThreadPool::new(2);
    match pool.resize(5) {
        ResizePlan::Spawn(ids) => assert_eq!(ids, vec![2, 3, 4]),
        other => panic!("unexpected plan: {:?}", other),
    }
    assert_eq!(pool.size(), 5);
    assert_eq!(pool.worker_ids(), vec![0, 1, 2, 3, 4]);
}

#[test]
fn shrinking_marks_the_newest_workers_newest_first() {
    let mut pool: ThreadPool<u32> = ThreadPool::new(4);
    match pool.resize(1) {
        ResizePlan::Retire(ids) => assert_eq!(ids, vec![3, 2, 1]),
        other => panic!("unexpected plan: {:?}", other),
    }
    assert_eq!(pool.size(), 1);
    assert_eq!(pool.worker_ids(), vec![0]);
}

#[test]
fn a_marked_worker_leaves_without_touching_the_queue() {
    let mut pool: ThreadPool<u32> = ThreadPool::new(2);
    assert!(pool.execute(1));
    assert!(matches!(pool.resize(1), ResizePlan::Retire(_)));
    assert!(matches!(pool.poll(1), WorkerAction::Exit));
    assert_eq!(pool.queued(), 1);
    assert_eq!(pool.size(), 1);
    assert_eq!(job_of(pool.poll(0)), Some(1));
}

#[test]
fn a_marked_worker_that_has_left_stays_away() {
    let mut pool: ThreadPool<u32> = ThreadPool::new(2);
    assert!(matches!(pool.resize(1), ResizePlan::Retire(_)));
    assert!(matches!(pool.poll(1), WorkerAction::Exit));
    assert!(pool.execute(4));
    assert!(matches!(pool.poll(1), WorkerAction::Exit));
    assert_eq!(pool.queued(), 1);
}

#[test]
fn growing_after_a_shrink_uses_new_numbers() {
    let mut pool: ThreadPool<u32> = ThreadPool::new(3);
    match pool.resize(2) {
        ResizePlan::Retire(ids) => assert_eq!(ids, vec![2]),
        other => panic!("unexpected plan: {:?}", other),
    }
    match pool.resize(4) {
        ResizePlan::Spawn(ids) => assert_eq!(ids, vec![3, 4]),
        other => panic!("unexpected plan: {:?}", other),
    }
    assert_eq!(pool.worker_ids(), vec![0, 1, 3, 4]);
    match pool.resize(3) {
        ResizePlan::Retire(ids) => assert_eq!(ids, vec![4]),
        other => panic!("unexpected plan: {:?}", other),
    }
    assert_eq!(pool.worker_ids(), vec![0, 1, 3]);
}

#[test]
fn resizing_up_and_down_keeps_the_workers_and_loses_no_job() {
    let mut pool: ThreadPool<u32> = ThreadPool::new(2);
    assert!(pool.execute(1));
    let before = pool.worker_ids();
    assert!(matches!(pool.resize(5), ResizePlan::Spawn(_)));
    assert!(pool.execute(2));
    assert!(pool.execute(3));
    match pool.resize(2) {
        ResizePlan::Retire(ids) => assert_eq!(ids, vec![4, 3, 2]),
        other => panic!("unexpected plan: {:?}", other),
    }
    assert_eq!(pool.size(), 2);
    assert_eq!(pool.worker_ids(), before);
    assert_eq!(pool.queued(), 3);
    for worker in [4, 3, 2] {
        assert!(matches!(pool.poll(worker), WorkerAction::Exit));
    }
    assert_eq!(pool.queued(), 3);
    assert_eq!(job_of(pool.poll(0)), Some(1));
    assert_eq!(job_of(pool.poll(1)), Some(2));
    assert_eq!(job_of(pool.poll(0)), Some(3));
    assert!(matches!(pool.poll(1), WorkerAction::Wait));
}

#[test]
fn shutdown_puts_one_sentinel_per_worker_behind_the_jobs() {
    let mut pool: ThreadPool<u32> = ThreadPool::new(2);
    assert!(pool.execute(1));
    assert!(pool.execute(2));
    assert!(pool.execute(3));
    assert_eq!(pool.shutdown(), vec![0, 1]);
    assert!(!pool.is_accepting());
    assert_eq!(pool.queued(), 5);
    assert_eq!(job_of(pool.poll(0)), Some(1));
    assert_eq!(job_of(pool.poll(0)), Some(2));
    assert_eq!(job_of(pool.poll(1)), Some(3));
    assert!(matches!(pool.poll(1), WorkerAction::Exit));
    assert_eq!(pool.size(), 1);
    assert_eq!(pool.queued(), 1);
    assert!(matches!(pool.poll(0), WorkerAction::Exit));
    assert_eq!(pool.size(), 0);
    assert_eq!(pool.queued(), 0);
}

#[test]
fn a_worker_that_took_a_sentinel_takes_no_other() {
    let mut pool: ThreadPool<u32> = ThreadPool::new(2);
    assert_eq!(pool.shutdown(), vec![0, 1]);
    assert!(matches!(pool.poll(0), WorkerAction::Exit));
    assert!(matches!(pool.poll(0), WorkerAction::Exit));
    assert_eq!(pool.queued(), 1);
    assert_eq!(pool.size(), 1);
}

#[test]
fn no_job_is_taken_after_the_shutdown() {
    let mut pool: ThreadPool<u32> = ThreadPool::new(1);
    assert!(pool.execute(1));
    assert_eq!(pool.shutdown(), vec![0]);
    assert!(!pool.execute(2));
    assert_eq!(pool.queued(), 2);
    assert_eq!(job_of(pool.poll(0)), Some(1));
    assert!(matches!(pool.poll(0), WorkerAction::Exit));
}

#[test]
fn a_second_shutdown_changes_nothing() {
    let mut pool: ThreadPool<u32> = ThreadPool::new(2);
    assert_eq!(pool.shutdown(), vec![0, 1]);
    assert_eq!(pool.shutdown(), Vec::<usize>::new());
    assert_eq!(pool.queued(), 2);
}

#[test]
fn resize_after_the_shutdown_changes_nothing() {
    let mut pool: ThreadPool<u32> = ThreadPool::new(2);
    assert_eq!(pool.shutdown(), vec![0, 1]);
    assert!(matches!(pool.resize(4), ResizePlan::Unchanged));
    assert!(matches!(pool.resize(1), ResizePlan::Unchanged));
    assert_eq!(pool.size(), 2);
    assert_eq!(pool.queued(), 2);
}

#[test]
fn shutdown_names_only_the_workers_on_the_roster() {
    let mut pool: ThreadPool<u32> = ThreadPool::new(3);
    assert!(matches!(pool.resize(2), ResizePlan::Retire(_)));
    assert_eq!(pool.shutdown(), vec![0, 1]);
    assert_eq!(pool.queued(), 2);
    assert!(matches!(pool.poll(2), WorkerAction::Exit));
    assert_eq!(pool.queued(), 2);
}

#[test]
fn a_worker_without_access_to_the_pool_leaves() {
    assert!(matches!(worker_turn::<u32>(None, 0), WorkerAction::Exit));
}

#[test]
fn a_worker_with_access_to_the_pool_polls() {
    let mut pool: ThreadPool<u32> = ThreadPool::new(1);
    assert!(pool.execute(8));
    assert_eq!(job_of(worker_turn(Some(&mut pool), 0)), Some(8));
    assert!(matches!(worker_turn(Some(&mut pool), 0), WorkerAction::Wait));
}

#[test]
fn jobs_can_be_closures() {
    let mut pool: ThreadPool<Box<dyn FnOnce() -> u32>> = ThreadPool::new(1);
    assert!(pool.execute(Box::new(|| 6 * 7)));
    match pool.poll(0) {
        WorkerAction::Run(job) => assert_eq!(job(), 42),
        _ => panic!("no job"),
    }
}
