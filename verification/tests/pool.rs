use workpool::dispatcher::Dispatcher;
use workpool::message::Action;
use workpool::message::Message;
use workpool::message::worker_action;
use workpool::pool::DispatchRecord;
use workpool::pool::PoolError;
use workpool::pool::ThreadPool;
use workpool::pool::Worker;

#[test]
fn zero_workers_rejected() {
    let r = ThreadPool::new(0);
    assert!(matches!(r, Err(PoolError::ZeroWorkers)));
}

#[test]
fn pool_spawns_and_joins_exact_workers() {
    let mut pool = ThreadPool::new(4).unwrap();
    assert_eq!(pool.num_workers(), 4);
    for w in 0..4 {
        assert!(!pool.is_terminated(w));
    }
    pool.shutdown();
    assert_eq!(pool.num_workers(), 4);
    for w in 0..4 {
        assert!(pool.is_terminated(w));
    }
    assert_eq!(pool.queued_len(), 0);
}

#[test]
fn submit_only_enqueues() {
    let mut pool = ThreadPool::new(2).unwrap();
    assert_eq!(pool.queued_len(), 0);
    pool.execute(10);
    assert_eq!(pool.queued_len(), 1);
    pool.execute(11);
    assert_eq!(pool.queued_len(), 2);
    assert_eq!(pool.num_workers(), 2);
    assert_eq!(pool.dispatch_log().len(), 0);
    assert!(!pool.is_terminated(0));
    assert!(!pool.is_terminated(1));
    pool.shutdown();
}

#[test]
fn eight_jobs_four_workers_each_dispatched_once() {
    let mut pool = ThreadPool::new(4).unwrap();
    for id in 0..8 {
        pool.execute(id);
    }
    pool.shutdown();
    let log = pool.dispatch_log();
    assert_eq!(log.len(), 8);
    for id in 0..8u64 {
        let mut seen: usize = 0;
        for r in log.iter() {
            if r.job == id {
                seen += 1;
            }
            assert!(r.worker < 4);
        }
        assert_eq!(seen, 1);
    }
}

#[test]
fn single_worker_dispatches_in_order() {
    let mut pool = ThreadPool::new(1).unwrap();
    pool.execute(1);
    pool.execute(2);
    pool.shutdown();
    let log = pool.dispatch_log();
    assert_eq!(log.len(), 2);
    assert_eq!(log[0], DispatchRecord { job: 1, worker: 0 });
    assert_eq!(log[1], DispatchRecord { job: 2, worker: 0 });
    assert!(pool.is_terminated(0));
}

#[test]
fn shutdown_without_submissions() {
    let mut pool = ThreadPool::new(3).unwrap();
    pool.shutdown();
    assert_eq!(pool.dispatch_log().len(), 0);
    assert_eq!(pool.queued_len(), 0);
    for w in 0..3 {
        assert!(pool.is_terminated(w));
    }
}

#[test]
fn worker_step_pops_one_message() {
    let mut pool = ThreadPool::new(1).unwrap();
    assert_eq!(pool.dispatch_next(0), None);
    pool.execute(42);
    pool.execute(7);
    assert_eq!(pool.dispatch_next(0), Some(Message::NewJob(42)));
    assert_eq!(pool.dispatch_log().len(), 1);
    assert_eq!(pool.dispatch_log()[0], DispatchRecord { job: 42, worker: 0 });
    assert_eq!(pool.queued_len(), 1);
    assert_eq!(pool.dispatch_next(0), Some(Message::NewJob(7)));
    assert_eq!(pool.queued_len(), 0);
    pool.shutdown();
    assert_eq!(pool.dispatch_log().len(), 2);
}

#[test]
fn dispatcher_is_fifo() {
    let mut d = Dispatcher::new();
    assert_eq!(d.len(), 0);
    d.send(Message::NewJob(5));
    d.send(Message::Terminate);
    d.send(Message::NewJob(9));
    assert_eq!(d.len(), 3);
    assert_eq!(d.recv(), Some(Message::NewJob(5)));
    assert_eq!(d.recv(), Some(Message::Terminate));
    assert_eq!(d.recv(), Some(Message::NewJob(9)));
    assert_eq!(d.recv(), None);
}

#[test]
fn worker_action_decides() {
    assert_eq!(worker_action(Message::NewJob(9)), Action::Run(9));
    assert_eq!(worker_action(Message::Terminate), Action::Exit);
}

#[test]
fn worker_starts_live() {
    let w = Worker::new(3);
    assert_eq!(w.id, 3);
    assert!(!w.terminated);
}
