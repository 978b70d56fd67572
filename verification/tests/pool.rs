use workpool::pool::{Dequeued, ThreadPool, WorkerState};

#[test]
fn new_pool_has_size_waiting_workers() {
    let pool = ThreadPool::<u64>::new(4);
    assert_eq!(pool.size(), 4);
    for w in 0..4 {
        assert_eq!(pool.state_of(w), WorkerState::Waiting);
        assert_eq!(pool.worker_id(w), w);
    }
    assert_eq!(pool.queue_len(), 0);
    assert!(!pool.shut_down());
}

#[test]
fn more_tasks_than_workers_all_drain() {
    let mut pool = ThreadPool::<u64>::new(2);
    for i in 0..10u64 {
        pool.execute(i).unwrap();
    }
    assert_eq!(pool.queue_len(), 10);
    let mut got: Vec<u64> = Vec::new();
    while pool.queue_len() > 0 {
        for w in 0..2 {
            match pool.dequeue(w) {
                Dequeued::Run(t) => {
                    got.push(t);
                    pool.task_done(w);
                }
                Dequeued::Stop => unreachable!(),
                Dequeued::Empty => {}
            }
        }
    }
    got.sort();
    assert_eq!(got, (0..10u64).collect::<Vec<u64>>());
    for w in 0..2 {
        assert_eq!(pool.state_of(w), WorkerState::Waiting);
    }
}

#[test]
fn shutdown_delivers_queued_work_before_stopping() {
    let mut pool = ThreadPool::<&str>::new(1);
    pool.execute("slow").unwrap();
    pool.begin_shutdown();
    let mut log: Vec<&str> = Vec::new();
    match pool.dequeue(0) {
        Dequeued::Run(t) => {
            log.push(t);
            pool.task_done(0);
        }
        _ => panic!("expected the queued task before the stop message"),
    }
    match pool.dequeue(0) {
        Dequeued::Stop => log.push("stop"),
        _ => panic!("expected the stop message"),
    }
    assert_eq!(log, vec!["slow", "stop"]);
    assert_eq!(pool.state_of(0), WorkerState::Stopped);
}

#[test]
fn shutdown_stops_every_worker() {
    let mut pool = ThreadPool::<u64>::new(3);
    pool.begin_shutdown();
    assert_eq!(pool.queue_len(), 3);
    for w in 0..3 {
        match pool.dequeue(w) {
            Dequeued::Stop => {}
            _ => panic!("expected one stop message per worker"),
        }
        assert_eq!(pool.state_of(w), WorkerState::Stopped);
    }
    assert_eq!(pool.queue_len(), 0);
}

#[test]
fn submit_after_shutdown_fails_and_never_runs() {
    let mut pool = ThreadPool::<u64>::new(2);
    pool.begin_shutdown();
    let refused = pool.execute(41);
    assert_eq!(refused, Err(41));
    let mut delivered = 0;
    for w in 0..2 {
        loop {
            match pool.dequeue(w) {
                Dequeued::Run(_) => {
                    delivered += 1;
                    pool.task_done(w);
                }
                Dequeued::Stop => break,
                Dequeued::Empty => {}
            }
        }
    }
    assert_eq!(delivered, 0);
}

#[test]
fn interleaved_submitters_lose_no_tasks() {
    let mut pool = ThreadPool::<u64>::new(2);
    let mut got: Vec<u64> = Vec::new();
    for round in 0..5u64 {
        pool.execute(2 * round).unwrap();
        pool.execute(2 * round + 1).unwrap();
        let w = (round as usize) % 2;
        if let Dequeued::Run(t) = pool.dequeue(w) {
            got.push(t);
            pool.task_done(w);
        }
    }
    pool.begin_shutdown();
    let mut stopped = 0;
    while stopped < 2 {
        for w in 0..2 {
            if pool.state_of(w) == WorkerState::Stopped {
                continue;
            }
            match pool.dequeue(w) {
                Dequeued::Run(t) => {
                    got.push(t);
                    pool.task_done(w);
                }
                Dequeued::Stop => stopped += 1,
                Dequeued::Empty => {}
            }
        }
    }
    got.sort();
    assert_eq!(got, (0..10u64).collect::<Vec<u64>>());
}

#[test]
fn hundred_tasks_four_workers_counter_reaches_hundred() {
    let mut pool = ThreadPool::<u64>::new(4);
    for _ in 0..100 {
        pool.execute(1).unwrap();
    }
    pool.begin_shutdown();
    let mut counter: u64 = 0;
    let mut stopped = [false; 4];
    while stopped.iter().any(|s| !*s) {
        for w in 0..4 {
            if stopped[w] {
                continue;
            }
            match pool.dequeue(w) {
                Dequeued::Run(t) => {
                    counter += t;
                    pool.task_done(w);
                }
                Dequeued::Stop => stopped[w] = true,
                Dequeued::Empty => {}
            }
        }
    }
    assert_eq!(counter, 100);
    for w in 0..4 {
        assert_eq!(pool.state_of(w), WorkerState::Stopped);
    }
    assert_eq!(pool.queue_len(), 0);
}
