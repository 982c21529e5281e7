use threads::message::Message;
use threads::pool::Threadpool;
use threads::worker::WorkerState;

#[test]
fn nine_jobs_four_workers_all_invoked_once() {
    // Size 4, then 9 jobs each recording its index: after disposal the record
    // holds all 9 indices exactly once.
    let mut pool: Threadpool<usize> = Threadpool::new(4);
    for i in 0..9 {
        pool.execute(i);
    }
    pool.dispose();
    assert_eq!(pool.invoked.len(), 9);
    for i in 0..9 {
        assert_eq!(pool.invoked.iter().filter(|&&j| j == i).count(), 1);
    }
}

#[test]
fn single_worker_is_fifo() {
    let mut pool: Threadpool<u64> = Threadpool::new(1);
    pool.execute(10);
    pool.execute(20);
    pool.execute(30);
    pool.dispose();
    assert_eq!(pool.invoked, vec![10, 20, 30]);
}

#[test]
fn dispose_with_no_pending_jobs_joins_all_workers() {
    let mut pool: Threadpool<u8> = Threadpool::new(5);
    pool.dispose();
    assert!(pool.disposed);
    assert!(pool.invoked.is_empty());
    assert!(pool.channel.items.is_empty());
    assert_eq!(pool.workers.len(), 5);
    for w in &pool.workers {
        assert!(matches!(w.state, WorkerState::Stopped));
        assert!(w.thread.is_none());
    }
}

#[test]
fn dispose_twice_is_a_no_op() {
    let mut pool: Threadpool<u32> = Threadpool::new(2);
    pool.execute(1);
    pool.execute(2);
    pool.dispose();
    let invoked_after_first = pool.invoked.clone();
    let queue_len_after_first = pool.channel.items.len();
    pool.dispose();
    assert_eq!(pool.invoked, invoked_after_first);
    assert_eq!(pool.channel.items.len(), queue_len_after_first);
    assert!(pool.disposed);
    for w in &pool.workers {
        assert!(w.thread.is_none());
    }
}

#[test]
fn workers_keep_their_spawn_ordinals() {
    let pool: Threadpool<u8> = Threadpool::new(3);
    assert_eq!(pool.workers.len(), 3);
    for (i, w) in pool.workers.iter().enumerate() {
        assert_eq!(w.id, i);
        assert!(matches!(w.state, WorkerState::Running));
        assert!(w.thread.is_some());
    }
    assert!(!pool.disposed);
    assert!(pool.channel.items.is_empty());
}

#[test]
fn execute_queues_in_submission_order() {
    let mut pool: Threadpool<u16> = Threadpool::new(2);
    pool.execute(7);
    pool.execute(8);
    assert_eq!(pool.channel.items.len(), 2);
    assert!(matches!(pool.channel.items[0], Message::NewJob(7)));
    assert!(matches!(pool.channel.items[1], Message::NewJob(8)));
    assert!(pool.invoked.is_empty());
    pool.dispose();
}

#[test]
fn step_invokes_oldest_job_and_keeps_worker_running() {
    let mut pool: Threadpool<u32> = Threadpool::new(2);
    pool.execute(100);
    pool.execute(200);
    pool.step_worker(1, true);
    assert_eq!(pool.invoked, vec![100]);
    assert!(matches!(pool.workers[1].state, WorkerState::Running));
    assert_eq!(pool.channel.items.len(), 1);
    pool.dispose();
    assert_eq!(pool.invoked, vec![100, 200]);
}

#[test]
fn failing_job_stops_only_its_worker() {
    let mut pool: Threadpool<u32> = Threadpool::new(2);
    pool.execute(1);
    pool.execute(2);
    pool.execute(3);
    // Worker 0 invokes job 1 and fails: it stops, worker 1 is untouched and
    // the remaining jobs are still delivered.
    pool.step_worker(0, false);
    assert!(matches!(pool.workers[0].state, WorkerState::Stopped));
    assert!(matches!(pool.workers[1].state, WorkerState::Running));
    assert!(pool.invoked.is_empty());
    pool.dispose();
    assert_eq!(pool.invoked, vec![2, 3]);
    // One of the two terminate signals was never consumed: worker 0 had
    // already stopped on its own.
    assert_eq!(pool.channel.items.len(), 1);
    assert!(matches!(pool.channel.items[0], Message::Terminate));
    // Joining still cleared both handle slots.
    assert!(pool.workers[0].thread.is_none());
    assert!(pool.workers[1].thread.is_none());
}

#[test]
fn pool_of_size_zero_disposes_cleanly() {
    let mut pool: Threadpool<u8> = Threadpool::new(0);
    pool.dispose();
    assert!(pool.disposed);
    assert!(pool.invoked.is_empty());
    assert!(pool.channel.items.is_empty());
}
