use minihttp::pool::WorkerPool;

#[test]
fn more_jobs_than_workers_complete_exactly_once() {
    let mut pool = WorkerPool::new(2);
    let mut jobs = Vec::new();
    for _ in 0..5 {
        jobs.push(pool.execute());
    }
    assert_eq!(jobs, vec![0, 1, 2, 3, 4]);
    let mut max_running: usize = 0;
    while pool.queued.len() > 0 || pool.running.len() > 0 {
        while let Some(_job) = pool.claim() {
            if pool.running.len() > max_running {
                max_running = pool.running.len();
            }
        }
        assert!(pool.running.len() <= 2);
        let job = pool.running[0];
        assert!(pool.complete(job));
    }
    assert_eq!(max_running, 2);
    assert_eq!(pool.completed.len(), 5);
    for job in jobs {
        assert_eq!(pool.completed_count(job), 1);
    }
    assert_eq!(pool.completed_count(5), 0);
}

#[test]
fn claim_is_fifo_for_one_submitter() {
    let mut pool = WorkerPool::new(3);
    for _ in 0..3 {
        pool.execute();
    }
    assert_eq!(pool.claim(), Some(0));
    assert_eq!(pool.claim(), Some(1));
    assert_eq!(pool.claim(), Some(2));
    assert_eq!(pool.claim(), None);
}

#[test]
fn claim_refuses_beyond_the_pool_size() {
    let mut pool = WorkerPool::new(1);
    pool.execute();
    pool.execute();
    assert_eq!(pool.claim(), Some(0));
    assert_eq!(pool.claim(), None);
    assert!(pool.complete(0));
    assert_eq!(pool.claim(), Some(1));
}

#[test]
fn complete_refuses_a_job_nobody_runs() {
    let mut pool = WorkerPool::new(1);
    pool.execute();
    assert!(!pool.complete(0));
    pool.claim();
    assert!(pool.complete(0));
    assert!(!pool.complete(0));
}

#[test]
fn shutdown_keeps_the_books() {
    let mut pool = WorkerPool::new(2);
    pool.execute();
    pool.shutdown();
    assert!(!pool.accepting);
    assert_eq!(pool.queued, vec![0]);
}
