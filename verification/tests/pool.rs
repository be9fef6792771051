use proxy::pool::pool::WorkerState;
use proxy::pool::Message;
use proxy::pool::ThreadPool;

fn connection(message: Option<Message<u32>>) -> u32 {
    match message {
        Some(Message::NewStream(c)) => c,
        other => panic!("no connection: {:?}", other),
    }
}

#[test]
fn pool_saturation() {
    let mut pool: ThreadPool<u32> = ThreadPool::new(4);
    assert_eq!(pool.workers(), 4);
    for c in 1..=5 {
        assert!(pool.execute(c).is_ok());
    }
    assert_eq!(pool.queued(), 5);
    assert_eq!(pool.active(), 0);

    for worker in 0..4 {
        assert_eq!(connection(pool.receive(worker)), worker as u32 + 1);
    }
    assert_eq!(pool.active(), 4);
    assert_eq!(pool.queued(), 1);
    for worker in 0..4 {
        assert_eq!(pool.state(worker), WorkerState::Busy);
        assert!(pool.receive(worker).is_none());
    }
    assert_eq!(pool.queued(), 1);

    pool.finish(2);
    assert_eq!(pool.active(), 3);
    assert!(pool.receive(1).is_none());
    assert_eq!(connection(pool.receive(2)), 5);
    assert_eq!(pool.active(), 4);
    assert_eq!(pool.queued(), 0);
}

#[test]
fn each_message_goes_to_one_worker() {
    let mut pool: ThreadPool<u32> = ThreadPool::new(2);
    pool.execute(7).unwrap();
    assert_eq!(connection(pool.receive(1)), 7);
    assert!(pool.receive(0).is_none());
    assert_eq!(pool.state(0), WorkerState::Idle);
    assert_eq!(pool.state(1), WorkerState::Busy);
    assert!(pool.receive(2).is_none());
    pool.finish(0);
    pool.finish(9);
    assert_eq!(pool.state(0), WorkerState::Idle);
    assert_eq!(pool.active(), 1);
}

#[test]
fn messages_leave_in_the_order_they_came() {
    let mut pool: ThreadPool<u32> = ThreadPool::new(1);
    for c in [3, 1, 2] {
        pool.execute(c).unwrap();
    }
    for c in [3, 1, 2] {
        assert_eq!(connection(pool.receive(0)), c);
        pool.finish(0);
    }
    assert!(pool.receive(0).is_none());
}

#[test]
fn teardown_sends_one_terminate_to_each_worker() {
    let mut pool: ThreadPool<u32> = ThreadPool::new(3);
    pool.execute(1).unwrap();
    assert_eq!(connection(pool.receive(0)), 1);
    pool.execute(2).unwrap();
    pool.shutdown();
    assert_eq!(pool.queued(), 4);
    assert!(!pool.stopped());

    assert_eq!(connection(pool.receive(1)), 2);
    assert!(matches!(pool.receive(2), Some(Message::Terminate)));
    assert_eq!(pool.state(2), WorkerState::Gone);
    assert!(pool.receive(2).is_none());
    assert!(pool.receive(0).is_none());
    pool.finish(0);
    assert!(matches!(pool.receive(0), Some(Message::Terminate)));
    pool.finish(1);
    assert!(!pool.stopped());
    assert!(matches!(pool.receive(1), Some(Message::Terminate)));
    assert!(pool.stopped());
    assert_eq!(pool.queued(), 0);
    assert_eq!(pool.active(), 0);
    pool.finish(1);
    assert_eq!(pool.state(1), WorkerState::Gone);

    assert_eq!(pool.execute(9), Err(9));
    assert_eq!(pool.queued(), 0);
}
