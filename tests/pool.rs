use worker_pool::pool::ThreadPool;
use worker_pool::worker::{Worker, WorkerState};

/// Lets idle workers take messages, lowest id first, and runs each job to
/// completion at once, until no worker can take anything. Returns the jobs
/// taken, in the order taken.
fn run_until_quiet(pool: &mut ThreadPool<char>) -> Vec<char> {
    let mut ran = Vec::new();
    loop {
        let mut progressed = false;
        for id in 0..pool.size() {
            if pool.can_receive(id) {
                if let Some(job) = pool.receive(id) {
                    ran.push(job);
                    pool.finish_job(id);
                }
                progressed = true;
            }
        }
        if !progressed {
            return ran;
        }
    }
}

fn join_all(pool: &mut ThreadPool<char>) -> Vec<usize> {
    let mut order = Vec::new();
    while let Some(id) = pool.next_to_join() {
        assert_eq!(pool.worker(id).state, WorkerState::Terminated);
        pool.mark_joined(id);
        order.push(id);
    }
    order
}

#[test]
fn new_pool_has_idle_workers() {
    let pool: ThreadPool<char> = ThreadPool::new(4);
    assert_eq!(pool.size(), 4);
    for id in 0..4 {
        assert_eq!(pool.worker(id), Worker { id, state: WorkerState::Idle, joined: false });
    }
    assert_eq!(pool.pending_len(), 0);
    assert!(!pool.is_tearing_down());
    assert!(!pool.can_receive(0));
    assert!(!pool.can_receive(4));
}

#[test]
fn pool_of_one_worker() {
    let pool: ThreadPool<char> = ThreadPool::new(1);
    assert_eq!(pool.size(), 1);
    assert_eq!(pool.next_to_join(), Some(0));
}

#[test]
fn three_jobs_on_two_workers_each_run_once() {
    let mut pool: ThreadPool<char> = ThreadPool::new(2);
    pool.execute('A');
    pool.execute('B');
    pool.execute('C');
    assert_eq!(pool.pending_len(), 3);
    pool.begin_teardown();
    assert_eq!(pool.pending_len(), 5);
    let mut ran = run_until_quiet(&mut pool);
    ran.sort();
    assert_eq!(ran, vec!['A', 'B', 'C']);
    assert_eq!(pool.pending_len(), 0);
    assert_eq!(join_all(&mut pool), vec![0, 1]);
    assert_eq!(pool.next_to_join(), None);
}

#[test]
fn teardown_waits_for_running_job() {
    let mut pool: ThreadPool<char> = ThreadPool::new(1);
    pool.execute('X');
    assert_eq!(pool.receive(0), Some('X'));
    assert_eq!(pool.worker(0).state, WorkerState::Executing);
    pool.begin_teardown();
    assert_eq!(pool.pending_len(), 1);
    assert!(!pool.can_receive(0));
    assert_eq!(pool.next_to_join(), Some(0));
    assert_ne!(pool.worker(0).state, WorkerState::Terminated);
    pool.finish_job(0);
    assert!(pool.can_receive(0));
    assert_eq!(pool.receive(0), None);
    assert_eq!(pool.worker(0).state, WorkerState::Terminated);
    assert_eq!(join_all(&mut pool), vec![0]);
}

#[test]
fn teardown_without_jobs_sends_one_terminate_per_worker() {
    let mut pool: ThreadPool<char> = ThreadPool::new(3);
    pool.begin_teardown();
    assert!(pool.is_tearing_down());
    assert_eq!(pool.pending_len(), 3);
    for id in 0..3 {
        assert_eq!(pool.receive(id), None);
        assert_eq!(pool.pending_len(), 2 - id);
    }
    for id in 0..3 {
        assert_eq!(pool.worker(id).state, WorkerState::Terminated);
    }
    assert_eq!(join_all(&mut pool), vec![0, 1, 2]);
    for id in 0..3 {
        assert!(pool.worker(id).joined);
    }
}

#[test]
fn many_jobs_each_delivered_exactly_once() {
    let mut pool: ThreadPool<char> = ThreadPool::new(3);
    let jobs: Vec<char> = "abcdefghijklmnopqrstuvwxyz".chars().collect();
    for j in &jobs {
        pool.execute(*j);
    }
    let ran = run_until_quiet(&mut pool);
    assert_eq!(ran, jobs);
    for id in 0..3 {
        assert_eq!(pool.worker(id).state, WorkerState::Idle);
    }
}

#[test]
fn messages_are_taken_in_send_order() {
    let mut pool: ThreadPool<char> = ThreadPool::new(2);
    pool.execute('1');
    pool.execute('2');
    assert_eq!(pool.receive(1), Some('1'));
    assert_eq!(pool.receive(0), Some('2'));
    pool.finish_job(1);
    pool.execute('3');
    assert_eq!(pool.receive(1), Some('3'));
    assert_eq!(pool.pending_len(), 0);
}

#[test]
fn interleaved_submitters_keep_every_job() {
    let mut pool: ThreadPool<char> = ThreadPool::new(2);
    let first = ['a', 'b', 'c'];
    let second = ['x', 'y'];
    pool.execute(first[0]);
    pool.execute(second[0]);
    pool.execute(first[1]);
    pool.execute(first[2]);
    pool.execute(second[1]);
    assert_eq!(pool.pending_len(), 5);
    let ran = run_until_quiet(&mut pool);
    assert_eq!(ran, vec!['a', 'x', 'b', 'c', 'y']);
}

#[test]
fn jobs_sent_before_teardown_are_not_cut_off() {
    let mut pool: ThreadPool<char> = ThreadPool::new(2);
    pool.execute('p');
    pool.execute('q');
    pool.execute('r');
    pool.begin_teardown();
    assert_eq!(pool.receive(0), Some('p'));
    assert_eq!(pool.receive(1), Some('q'));
    pool.finish_job(0);
    assert_eq!(pool.receive(0), Some('r'));
    pool.finish_job(1);
    assert_eq!(pool.receive(1), None);
    assert_eq!(pool.worker(0).state, WorkerState::Executing);
    pool.finish_job(0);
    assert_eq!(pool.receive(0), None);
    assert_eq!(pool.pending_len(), 0);
}
