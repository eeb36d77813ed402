use sdb_pipeline::workers::{JoinError, Received, SendOutcome, Worker, WorkerState, Workers};

/// Sends `message`, letting the worker under the cursor handle one message
/// whenever its queue is full. Returns the worker that got the message.
fn send_through(pool: &mut Workers<usize>, message: usize, handled: &mut Vec<Vec<usize>>) -> usize {
    let mut message = message;
    loop {
        let target = pool.next();
        match pool.send(message) {
            SendOutcome::Accepted => return target,
            SendOutcome::Suspended(back) => {
                match pool.recv(target) {
                    Received::Message(taken) => handled[target].push(taken),
                    other => panic!("a full queue gave {:?}", other),
                }
                message = back;
            }
            SendOutcome::Closed(back) => panic!("message {} met a closed queue", back),
        }
    }
}

#[test]
fn counter_reaches_the_number_of_messages() {
    let mut pool: Workers<usize> = Workers::with_capacity(4, 100);
    let mut handled: Vec<Vec<usize>> = vec![Vec::new(); 4];
    for i in 0..1000 {
        send_through(&mut pool, i, &mut handled);
    }
    let rest = pool.join().unwrap();
    assert_eq!(rest.len(), 4);
    let mut counter = 0;
    for worker in 0..4 {
        counter += handled[worker].len() + rest[worker].len();
    }
    assert_eq!(counter, 1000);
}

#[test]
fn every_message_is_handled_once_by_its_worker_in_order() {
    for workers in 1..6 {
        for capacity in 1..4 {
            for count in [0, 1, 2, 5, 17, 40] {
                let mut pool: Workers<usize> = Workers::with_capacity(workers, capacity);
                let mut handled: Vec<Vec<usize>> = vec![Vec::new(); workers];
                for i in 0..count {
                    let target = send_through(&mut pool, i, &mut handled);
                    assert_eq!(target, i % workers);
                }
                let rest = pool.join().unwrap();
                for worker in 0..workers {
                    let mut all = handled[worker].clone();
                    all.extend(rest[worker].iter().copied());
                    let expected: Vec<usize> =
                        (0..count).filter(|i| i % workers == worker).collect();
                    assert_eq!(all, expected);
                }
            }
        }
    }
}

#[test]
fn round_robin_wraps_around() {
    let mut pool: Workers<char> = Workers::with_capacity(3, 8);
    assert_eq!(pool.len(), 3);
    assert_eq!(pool.capacity(), 8);
    assert_eq!(pool.next(), 0);
    for (i, message) in "abcdefg".chars().enumerate() {
        assert_eq!(pool.next(), i % 3);
        assert_eq!(pool.send(message), SendOutcome::Accepted);
    }
    assert_eq!(pool.next(), 1);
    assert_eq!(pool.queued(0), 3);
    assert_eq!(pool.queued(1), 2);
    assert_eq!(pool.queued(2), 2);
    let rest = pool.join().unwrap();
    assert_eq!(rest, vec![vec!['a', 'd', 'g'], vec!['b', 'e'], vec!['c', 'f']]);
}

#[test]
fn a_worker_takes_its_messages_first_in_first_out() {
    let mut pool: Workers<u32> = Workers::with_capacity(2, 4);
    for message in [10, 20, 30, 40, 50] {
        assert_eq!(pool.send(message), SendOutcome::Accepted);
    }
    assert_eq!(pool.recv(0), Received::Message(10));
    assert_eq!(pool.recv(0), Received::Message(30));
    assert_eq!(pool.recv(1), Received::Message(20));
    assert_eq!(pool.recv(0), Received::Message(50));
    assert_eq!(pool.recv(0), Received::Idle);
    assert_eq!(pool.recv(1), Received::Message(40));
    assert_eq!(pool.recv(1), Received::Idle);
}

#[test]
fn second_send_is_suspended_until_the_first_is_taken_out() {
    let mut pool: Workers<&str> = Workers::with_capacity(1, 1);
    assert_eq!(pool.send("A"), SendOutcome::Accepted);
    assert_eq!(pool.send("B"), SendOutcome::Suspended("B"));
    assert_eq!(pool.send("B"), SendOutcome::Suspended("B"));
    assert_eq!(pool.queued(0), 1);
    assert_eq!(pool.next(), 0);
    assert_eq!(pool.recv(0), Received::Message("A"));
    assert_eq!(pool.send("B"), SendOutcome::Accepted);
    assert_eq!(pool.recv(0), Received::Message("B"));
    assert_eq!(pool.recv(0), Received::Idle);
}

#[test]
fn a_full_queue_keeps_the_cursor_and_the_other_queues() {
    let mut pool: Workers<u8> = Workers::with_capacity(2, 1);
    assert_eq!(pool.send(1), SendOutcome::Accepted);
    assert_eq!(pool.send(2), SendOutcome::Accepted);
    assert_eq!(pool.next(), 0);
    assert_eq!(pool.send(3), SendOutcome::Suspended(3));
    assert_eq!(pool.next(), 0);
    assert_eq!(pool.recv(1), Received::Message(2));
    assert_eq!(pool.send(3), SendOutcome::Suspended(3));
    assert_eq!(pool.recv(0), Received::Message(1));
    assert_eq!(pool.send(3), SendOutcome::Accepted);
    assert_eq!(pool.next(), 1);
    assert_eq!(pool.join().unwrap(), vec![vec![3], vec![]]);
}

#[test]
fn join_of_an_unused_pool_hands_out_nothing() {
    let pool: Workers<u64> = Workers::with_capacity(3, 2);
    assert_eq!(pool.state(0), WorkerState::Running);
    assert_eq!(pool.join(), Ok(vec![vec![], vec![], vec![]]));
}

#[test]
fn a_failed_worker_closes_its_queue_and_fails_the_join() {
    let mut pool: Workers<u32> = Workers::with_capacity(3, 4);
    for message in 0..4 {
        assert_eq!(pool.send(message), SendOutcome::Accepted);
    }
    assert_eq!(pool.recv(1), Received::Message(1));
    pool.fail(1);
    assert_eq!(pool.state(1), WorkerState::Failed);
    assert_eq!(pool.state(0), WorkerState::Running);
    assert_eq!(pool.queued(1), 0);
    assert_eq!(pool.recv(1), Received::Terminated);
    assert_eq!(pool.send(4), SendOutcome::Closed(4));
    assert_eq!(pool.send(4), SendOutcome::Closed(4));
    assert_eq!(pool.next(), 1);
    assert_eq!(pool.recv(0), Received::Message(0));
    assert_eq!(pool.join(), Err(JoinError { worker: 1 }));
}

#[test]
fn join_reports_the_first_failed_worker() {
    let mut pool: Workers<u32> = Workers::with_capacity(4, 1);
    pool.fail(3);
    pool.fail(2);
    assert_eq!(pool.join(), Err(JoinError { worker: 2 }));
}

#[test]
fn a_worker_runs_drains_and_terminates() {
    let mut worker: Worker<u32> = Worker::with_capacity(2);
    assert_eq!(worker.capacity(), 2);
    assert_eq!(worker.state(), WorkerState::Running);
    assert_eq!(worker.recv(), Received::Idle);
    assert_eq!(worker.send(1), SendOutcome::Accepted);
    assert_eq!(worker.send(2), SendOutcome::Accepted);
    assert_eq!(worker.len(), 2);
    assert_eq!(worker.send(3), SendOutcome::Suspended(3));
    worker.close();
    assert_eq!(worker.state(), WorkerState::Draining);
    assert_eq!(worker.send(3), SendOutcome::Closed(3));
    assert_eq!(worker.recv(), Received::Message(1));
    assert_eq!(worker.state(), WorkerState::Draining);
    assert_eq!(worker.recv(), Received::Message(2));
    assert_eq!(worker.state(), WorkerState::Terminated);
    assert_eq!(worker.recv(), Received::Terminated);
    assert_eq!(worker.state(), WorkerState::Terminated);
}

#[test]
fn closing_an_empty_queue_terminates_the_worker() {
    let mut worker: Worker<u32> = Worker::with_capacity(1);
    worker.close();
    assert_eq!(worker.state(), WorkerState::Terminated);
    assert_eq!(worker.recv(), Received::Terminated);
}

#[test]
fn a_failed_worker_loses_what_waited() {
    let mut worker: Worker<u32> = Worker::with_capacity(3);
    assert_eq!(worker.send(1), SendOutcome::Accepted);
    assert_eq!(worker.send(2), SendOutcome::Accepted);
    worker.fail();
    assert_eq!(worker.state(), WorkerState::Failed);
    assert_eq!(worker.len(), 0);
    assert_eq!(worker.send(3), SendOutcome::Closed(3));
    assert_eq!(worker.recv(), Received::Terminated);
    worker.close();
    assert_eq!(worker.state(), WorkerState::Failed);
}
