use amadeus::pool::{Panicked, ProcessPool, Queued, RoundRobin};

#[test]
fn round_robin_cycles_from_its_base() {
    let mut rr = RoundRobin::new(1, 3);
    let picks: Vec<usize> = (0..7).map(|_| rr.get()).collect();
    assert_eq!(picks, vec![1, 2, 0, 1, 2, 0, 1]);
}

#[test]
fn eight_submissions_over_four_workers_land_two_each() {
    let mut pool: ProcessPool<u64> = ProcessPool::new(Some(4));
    assert_eq!(pool.processes(), 4);
    let mut handles = Vec::new();
    for i in 0..8u64 {
        let (worker, index) = pool.spawn();
        assert_eq!(worker, (i % 4) as usize);
        handles.push((worker, index, i));
    }
    // each worker got exactly two submissions
    for w in 0..4 {
        assert_eq!(handles.iter().filter(|h| h.0 == w).count(), 2);
    }
    // each worker answers its submissions in order: the response of
    // submission i carries the value i
    for w in 0..4usize {
        for h in handles.iter().filter(|h| h.0 == w) {
            pool.deliver(w, h.2);
        }
    }
    let mut values: Vec<u64> = handles
        .iter()
        .map(|&(w, idx, _)| {
            assert!(pool.poll_ready(w, idx));
            pool.take(w, idx)
        })
        .collect();
    values.sort();
    assert_eq!(values, (0..8u64).collect::<Vec<u64>>());
    for w in 0..4 {
        assert_eq!(pool.queue_len(w), 0);
    }
}

#[test]
fn a_panicking_closure_leaves_the_worker_healthy() {
    let mut pool: ProcessPool<Result<u64, Panicked>> = ProcessPool::new(Some(1));
    let (w0, i0) = pool.spawn();
    let (w1, i1) = pool.spawn();
    let (w2, i2) = pool.spawn();
    assert_eq!((w0, w1, w2), (0, 0, 0));
    pool.deliver(0, Ok(10));
    pool.deliver(0, Err(Panicked));
    pool.deliver(0, Ok(30));
    assert_eq!(pool.take(w0, i0), Ok(10));
    assert_eq!(pool.take(w1, i1), Err(Panicked));
    assert_eq!(pool.take(w2, i2), Ok(30));
    assert_eq!(pool.queue_len(0), 0);
}

#[test]
fn awaiting_out_of_order_still_matches_by_submission() {
    let mut pool: ProcessPool<&'static str> = ProcessPool::new(Some(1));
    let (_, a) = pool.spawn();
    let (_, b) = pool.spawn();
    let (_, c) = pool.spawn();
    pool.deliver(0, "first");
    pool.deliver(0, "second");
    pool.deliver(0, "third");
    // awaiters poll in a different order than they submitted
    assert_eq!(pool.take(0, c), "third");
    assert_eq!(pool.take(0, a), "first");
    assert_eq!(pool.take(0, b), "second");
    assert_eq!(pool.queue_len(0), 0);
}

#[test]
fn dropped_handles_do_not_block_the_rest() {
    let mut pool: ProcessPool<u64> = ProcessPool::new(Some(1));
    let mut handles = Vec::new();
    for _ in 0..100u64 {
        handles.push(pool.spawn().1);
    }
    // abandon the middle handles before any response arrives
    for &idx in &handles[10..90] {
        pool.drop_handle(0, idx);
    }
    // every response still arrives, in submission order
    for i in 0..100u64 {
        pool.deliver(0, i);
    }
    // the remaining awaiters all resolve with their own values
    for (i, &idx) in handles.iter().enumerate() {
        if (10..90).contains(&i) {
            continue;
        }
        assert!(pool.poll_ready(0, idx));
        assert_eq!(pool.take(0, idx), i as u64);
    }
    assert_eq!(pool.queue_len(0), 0);
}

#[test]
fn a_default_pool_has_ten_workers() {
    let pool: ProcessPool<u64> = ProcessPool::new(None);
    assert_eq!(pool.processes(), 10);
}

#[test]
fn a_slot_takes_its_response_once() {
    let mut slot: Queued<u8> = Queued::Awaiting;
    slot.received(7);
    assert!(matches!(slot, Queued::Got(7)));
    // a second response is discarded
    slot.received(9);
    assert!(matches!(slot, Queued::Got(7)));
    assert_eq!(slot.take(), 7);
    assert!(matches!(slot, Queued::Taken));
    let mut dropped: Queued<u8> = Queued::Awaiting;
    dropped.drop_();
    dropped.received(1);
    assert!(matches!(dropped, Queued::Taken));
}

#[test]
fn a_late_response_to_a_dropped_handle_is_reclaimed_at_once() {
    // spawn one closure, abandon its handle, then let its response land:
    // delivery itself discards the response and compacts the head, so
    // the queue is empty with no later take or drop needed
    let mut pool: ProcessPool<u64> = ProcessPool::new(Some(1));
    let (worker, index) = pool.spawn();
    pool.drop_handle(worker, index);
    assert_eq!(pool.queue_len(0), 1);
    pool.deliver(0, 7);
    assert_eq!(pool.queue_len(0), 0);
    // the worker stays usable afterwards
    let (w2, i2) = pool.spawn();
    pool.deliver(w2, 9);
    assert_eq!(pool.take(w2, i2), 9);
    assert_eq!(pool.queue_len(0), 0);
}
