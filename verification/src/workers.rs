//! A fixed pool of workers fed round-robin through bounded queues, with the
//! queues in it.
//!
//! Here a worker is its queue, and the pool is a state machine that is
//! driven from outside: `send` offers a message to the worker under the
//! dispatch cursor, `recv` lets a worker take the next message from its own
//! queue, and `join` closes every queue and hands out what the workers still
//! have to handle. Nothing here blocks: where a sender would be suspended,
//! `send` hands the message back. This is what a pool of `crate::pool` does
//! when its workers sit behind bounded channels, and it is where the rules
//! of the pool are proved: that every message is handled once, by the
//! worker whose turn it was, in the order in which it was sent.

use crate::dispatch::{
    lane,
    lanes_len,
    lemma_advance,
    lemma_lane_index,
    lemma_lane_of_index,
    lemma_lane_push,
    lemma_lanes_len,
    RoundRobin,
};
use std::collections::VecDeque;
use vstd::prelude::*;

verus! {

/// Where a worker is in its life.
#[derive(Clone, Copy, Debug, PartialEq, Eq, Structural)]
pub enum WorkerState {
    /// The queue is open: the worker takes messages as they come.
    Running,
    /// The queue has been closed and still holds messages.
    Draining,
    /// The queue has been closed and is empty: the worker's loop has ended.
    Terminated,
    /// The handler failed: the worker's loop has ended abnormally.
    Failed,
}

/// What became of a message that was offered to a queue.
#[derive(Debug, PartialEq, Eq)]
pub enum SendOutcome<T> {
    /// The message is in the queue.
    Accepted,
    /// The queue is full. The sender stays suspended and offers the same
    /// message again once the worker has taken one out.
    Suspended(T),
    /// The receiving side is gone. This is fatal for the sender.
    Closed(T),
}

/// What a worker gets when it asks its queue for the next message.
#[derive(Debug, PartialEq, Eq)]
pub enum Received<T> {
    /// The oldest message of the queue, to be handled now.
    Message(T),
    /// The queue is empty and open: the worker waits.
    Idle,
    /// Nothing will come any more: the worker's loop ends.
    Terminated,
}

/// The mathematical model of one worker: the messages that wait in its
/// queue, oldest first, the bound on their number, and two flags.
pub struct WorkerModel<T> {
    pub queue: Seq<T>,
    pub capacity: nat,
    pub closed: bool,
    pub failed: bool,
}

impl<T> WorkerModel<T> {
    /// The queue is bounded by a positive capacity, and a failed worker
    /// holds nothing.
    pub open spec fn wf(self) -> bool {
        &&& 0 < self.capacity
        &&& self.queue.len() <= self.capacity
        &&& self.failed ==> self.queue.len() == 0
    }

    /// A running worker with an empty queue.
    pub open spec fn new(capacity: nat) -> Self {
        WorkerModel { queue: Seq::empty(), capacity, closed: false, failed: false }
    }

    /// Where the worker is in its life.
    pub open spec fn state(self) -> WorkerState {
        if self.failed {
            WorkerState::Failed
        } else if !self.closed {
            WorkerState::Running
        } else if self.queue.len() > 0 {
            WorkerState::Draining
        } else {
            WorkerState::Terminated
        }
    }

    /// What `send` answers.
    pub open spec fn send_outcome(self, message: T) -> SendOutcome<T> {
        if self.closed || self.failed {
            SendOutcome::Closed(message)
        } else if self.queue.len() >= self.capacity {
            SendOutcome::Suspended(message)
        } else {
            SendOutcome::Accepted
        }
    }

    /// The worker after `send`: an accepted message is the newest of the
    /// queue, any other outcome changes nothing.
    pub open spec fn send(self, message: T) -> Self {
        if self.send_outcome(message) == SendOutcome::<T>::Accepted {
            WorkerModel { queue: self.queue.push(message), ..self }
        } else {
            self
        }
    }

    /// What `recv` answers.
    pub open spec fn received(self) -> Received<T> {
        if self.failed {
            Received::Terminated
        } else if self.queue.len() > 0 {
            Received::Message(self.queue.first())
        } else if self.closed {
            Received::Terminated
        } else {
            Received::Idle
        }
    }

    /// The worker after `recv`: a message that was handed out has left the
    /// queue.
    pub open spec fn recv(self) -> Self {
        if self.received() is Message {
            WorkerModel { queue: self.queue.drop_first(), ..self }
        } else {
            self
        }
    }

    /// The worker after its queue has been closed.
    pub open spec fn close(self) -> Self {
        WorkerModel { closed: true, ..self }
    }

    /// The worker after its handler has failed: what waited in the queue is
    /// lost.
    pub open spec fn fail(self) -> Self {
        WorkerModel { queue: Seq::empty(), failed: true, ..self }
    }
}

/// The life of a worker goes one way. Closing its queue takes a running
/// worker to draining, or to terminated if nothing waits; a draining worker
/// takes out one message at a time until it is terminated; a failure ends
/// it at once. No step leads back to running, and a worker that is
/// terminated or has failed stays so and accepts nothing.
pub proof fn lemma_lifecycle<T>(worker: WorkerModel<T>, message: T)
    requires
        worker.wf(),
    ensures
        worker.send(message).wf() && worker.recv().wf() && worker.close().wf() && worker.fail().wf(),
        worker.close().state() != WorkerState::Running,
        worker.fail().state() == WorkerState::Failed,
        worker.state() == WorkerState::Running ==> worker.close().state() == if worker.queue.len()
            > 0 {
            WorkerState::Draining
        } else {
            WorkerState::Terminated
        },
        worker.state() == WorkerState::Draining ==> worker.recv().queue.len() + 1
            == worker.queue.len(),
        worker.state() != WorkerState::Running ==> {
            &&& worker.send_outcome(message) == SendOutcome::Closed(message)
            &&& worker.send(message) == worker
            &&& worker.recv().state() != WorkerState::Running
            &&& worker.close().state() == worker.state()
        },
        worker.state() == WorkerState::Terminated || worker.state() == WorkerState::Failed ==> {
            &&& worker.received() == Received::<T>::Terminated
            &&& worker.recv() == worker
        },
{
}

/// One worker's side of the pool: a bounded queue of messages and the state
/// of the loop that consumes it.
pub struct Worker<T> {
    queue: VecDeque<T>,
    capacity: usize,
    closed: bool,
    failed: bool,
}

impl<T> View for Worker<T> {
    type V = WorkerModel<T>;

    closed spec fn view(&self) -> WorkerModel<T> {
        WorkerModel {
            queue: self.queue@,
            capacity: self.capacity as nat,
            closed: self.closed,
            failed: self.failed,
        }
    }
}

impl<T> Worker<T> {
    /// A running worker whose queue holds up to `capacity` messages.
    pub fn with_capacity(capacity: usize) -> (worker: Self)
        requires
            capacity > 0,
        ensures
            worker@ == WorkerModel::<T>::new(capacity as nat),
            worker@.wf(),
    {
        Worker { queue: VecDeque::new(), capacity, closed: false, failed: false }
    }

    /// The bound on the number of waiting messages.
    pub fn capacity(&self) -> (capacity: usize)
        ensures
            capacity == self@.capacity,
    {
        self.capacity
    }

    /// The number of messages that wait in the queue.
    pub fn len(&self) -> (len: usize)
        ensures
            len == self@.queue.len(),
    {
        self.queue.len()
    }

    /// Where the worker is in its life.
    pub fn state(&self) -> (state: WorkerState)
        ensures
            state == self@.state(),
    {
        if self.failed {
            WorkerState::Failed
        } else if !self.closed {
            WorkerState::Running
        } else if self.queue.len() > 0 {
            WorkerState::Draining
        } else {
            WorkerState::Terminated
        }
    }

    /// Offers `message` to the queue. It is accepted while the worker runs
    /// and the queue has room; a full queue hands it back, and so does a
    /// queue whose receiving side is gone.
    pub fn send(&mut self, message: T) -> (outcome: SendOutcome<T>)
        requires
            old(self)@.wf(),
        ensures
            final(self)@.wf(),
            outcome == old(self)@.send_outcome(message),
            final(self)@ == old(self)@.send(message),
    {
        if self.closed || self.failed {
            SendOutcome::Closed(message)
        } else if self.queue.len() >= self.capacity {
            SendOutcome::Suspended(message)
        } else {
            self.queue.push_back(message);
            SendOutcome::Accepted
        }
    }

    /// Takes the oldest message out of the queue, if there is one.
    pub fn recv(&mut self) -> (received: Received<T>)
        requires
            old(self)@.wf(),
        ensures
            final(self)@.wf(),
            received == old(self)@.received(),
            final(self)@ == old(self)@.recv(),
    {
        if self.failed {
            return Received::Terminated;
        }
        match self.queue.pop_front() {
            Some(message) => Received::Message(message),
            None => if self.closed {
                Received::Terminated
            } else {
                Received::Idle
            },
        }
    }

    /// Closes the queue: nothing is accepted any more, and the worker ends
    /// once it has taken out what waits.
    pub fn close(&mut self)
        requires
            old(self)@.wf(),
        ensures
            final(self)@.wf(),
            final(self)@ == old(self)@.close(),
    {
        self.closed = true;
    }

    /// Records that the handler failed: the worker's loop has ended and what
    /// waited in the queue is lost.
    pub fn fail(&mut self)
        requires
            old(self)@.wf(),
        ensures
            final(self)@.wf(),
            final(self)@ == old(self)@.fail(),
    {
        self.queue.clear();
        self.failed = true;
    }
}

/// The failure that `join` reports: the handler of `worker` failed.
#[derive(Clone, Copy, Debug, PartialEq, Eq, Structural)]
pub struct JoinError {
    pub worker: usize,
}

/// The mathematical model of the pool: its workers, the worker under the
/// dispatch cursor, and its history, which is every message that was
/// accepted, in order, and for each worker the messages that it has taken
/// out of its queue, in order.
pub struct WorkersModel<T> {
    pub workers: Seq<WorkerModel<T>>,
    pub next: nat,
    pub sent: Seq<T>,
    pub handled: Seq<Seq<T>>,
}

impl<T> WorkersModel<T> {
    /// The number of workers.
    pub open spec fn len(self) -> nat {
        self.workers.len()
    }

    /// The capacity of every queue.
    pub open spec fn capacity(self) -> nat {
        self.workers[0].capacity
    }

    /// The account of one worker. What it has handled and what waits in its
    /// queue are together its lane of the accepted messages, in the order in
    /// which they were sent. A failed worker has handled the beginning of
    /// its lane.
    pub open spec fn accounts_for(self, worker: int) -> bool {
        let state = self.workers[worker];
        let lane = lane(self.sent, self.len(), worker as nat);
        &&& state.wf()
        &&& !state.closed
        &&& state.capacity == self.capacity()
        &&& if state.failed {
            self.handled[worker].is_prefix_of(lane)
        } else {
            self.handled[worker] + state.queue == lane
        }
    }

    /// The invariant of the pool: there is a worker, the cursor is where
    /// round-robin dispatch of the accepted messages has left it, and every
    /// worker is accounted for.
    pub open spec fn wf(self) -> bool {
        &&& self.len() > 0
        &&& self.handled.len() == self.len()
        &&& self.next == self.sent.len() % self.len()
        &&& forall|worker: int| 0 <= worker < self.len() ==> #[trigger] self.accounts_for(worker)
    }

    /// A pool of `workers` running workers with empty queues of `capacity`
    /// places each, and the cursor on the first.
    pub open spec fn new(workers: nat, capacity: nat) -> Self {
        WorkersModel {
            workers: Seq::new(workers, |worker: int| WorkerModel::new(capacity)),
            next: 0,
            sent: Seq::empty(),
            handled: Seq::new(workers, |worker: int| Seq::empty()),
        }
    }

    /// What `send` answers: what the worker under the cursor answers.
    pub open spec fn send_outcome(self, message: T) -> SendOutcome<T> {
        self.workers[self.next as int].send_outcome(message)
    }

    /// The pool after `send`. An accepted message is the newest in the queue
    /// of the worker under the cursor, and the cursor has moved on. Any
    /// other outcome changes nothing.
    pub open spec fn send(self, message: T) -> Self {
        if self.send_outcome(message) == SendOutcome::<T>::Accepted {
            WorkersModel {
                workers: self.workers.update(
                    self.next as int,
                    self.workers[self.next as int].send(message),
                ),
                next: (self.next + 1) % self.len(),
                sent: self.sent.push(message),
                ..self
            }
        } else {
            self
        }
    }

    /// What `recv` answers for `worker`.
    pub open spec fn received(self, worker: int) -> Received<T> {
        self.workers[worker].received()
    }

    /// The pool after `recv` for `worker`: a message that was handed out has
    /// left the queue and is the last that the worker has handled.
    pub open spec fn recv(self, worker: int) -> Self {
        match self.received(worker) {
            Received::Message(message) => WorkersModel {
                workers: self.workers.update(worker, self.workers[worker].recv()),
                handled: self.handled.update(worker, self.handled[worker].push(message)),
                ..self
            },
            _ => self,
        }
    }

    /// The pool after the handler of `worker` has failed.
    pub open spec fn fail(self, worker: int) -> Self {
        WorkersModel { workers: self.workers.update(worker, self.workers[worker].fail()), ..self }
    }

    /// No handler has failed.
    pub open spec fn sound(self) -> bool {
        forall|worker: int| 0 <= worker < self.len() ==> !(#[trigger] self.workers[worker]).failed
    }

    /// The messages that `worker` has handled, followed by those that wait
    /// in its queue.
    pub open spec fn delivered(self, worker: int) -> Seq<T> {
        self.handled[worker] + self.workers[worker].queue
    }

    /// The number of messages that the workers below `upto` have handled
    /// or hold in their queues.
    pub open spec fn delivered_len(self, upto: nat) -> nat
        decreases upto,
    {
        if upto == 0 {
            0
        } else {
            self.delivered_len((upto - 1) as nat) + self.delivered(upto - 1).len()
        }
    }

    /// `worker` is the first whose handler has failed.
    pub open spec fn first_failed(self, worker: int) -> bool {
        &&& 0 <= worker < self.len()
        &&& self.workers[worker].failed
        &&& forall|before: int| 0 <= before < worker ==> !(#[trigger] self.workers[before]).failed
    }
}

/// A new pool is well formed.
pub proof fn lemma_new_wf<T>(workers: nat, capacity: nat)
    requires
        workers > 0,
        capacity > 0,
    ensures
        WorkersModel::<T>::new(workers, capacity).wf(),
{
    let pool = WorkersModel::<T>::new(workers, capacity);
    lemma_advance(workers, 0);
    assert forall|worker: int| 0 <= worker < pool.len() implies #[trigger] pool.accounts_for(
        worker,
    ) by {
        assert(pool.handled[worker] + pool.workers[worker].queue =~= Seq::<T>::empty());
    }
}

/// `send` keeps the pool well formed, with the workers and the capacity that
/// it has.
pub proof fn lemma_send_wf<T>(pool: WorkersModel<T>, message: T)
    requires
        pool.wf(),
    ensures
        pool.send(message).wf(),
        pool.send(message).len() == pool.len(),
        pool.send(message).capacity() == pool.capacity(),
{
    let after = pool.send(message);
    let target = pool.next as int;
    lemma_advance(pool.len(), pool.sent.len());
    assert(pool.accounts_for(target));
    if pool.send_outcome(message) == SendOutcome::<T>::Accepted {
        assert forall|worker: int| 0 <= worker < after.len() implies #[trigger] after.accounts_for(
            worker,
        ) by {
            assert(pool.accounts_for(worker));
            assert(pool.accounts_for(0));
            lemma_lane_push(pool.sent, message, pool.len(), worker as nat);
            if worker == target {
                assert(pool.handled[worker] + pool.workers[worker].queue.push(message)
                    =~= (pool.handled[worker] + pool.workers[worker].queue).push(message));
            }
        }
    }
}

/// `recv` keeps the pool well formed, with the workers and the capacity that
/// it has.
pub proof fn lemma_recv_wf<T>(pool: WorkersModel<T>, worker: int)
    requires
        pool.wf(),
        0 <= worker < pool.len(),
    ensures
        pool.recv(worker).wf(),
        pool.recv(worker).len() == pool.len(),
        pool.recv(worker).capacity() == pool.capacity(),
{
    let after = pool.recv(worker);
    assert(pool.accounts_for(worker));
    assert(pool.accounts_for(0));
    assert forall|other: int| 0 <= other < after.len() implies #[trigger] after.accounts_for(
        other,
    ) by {
        assert(pool.accounts_for(other));
        if other == worker {
            if let Received::Message(message) = pool.received(worker) {
                let queue = pool.workers[worker].queue;
                assert(pool.handled[worker].push(message) + queue.drop_first()
                    =~= pool.handled[worker] + queue);
            }
        }
    }
}

/// A failure keeps the pool well formed, with the workers and the capacity
/// that it has.
pub proof fn lemma_fail_wf<T>(pool: WorkersModel<T>, worker: int)
    requires
        pool.wf(),
        0 <= worker < pool.len(),
    ensures
        pool.fail(worker).wf(),
        pool.fail(worker).len() == pool.len(),
        pool.fail(worker).capacity() == pool.capacity(),
{
    let after = pool.fail(worker);
    assert(pool.accounts_for(worker));
    assert(pool.accounts_for(0));
    assert forall|other: int| 0 <= other < after.len() implies #[trigger] after.accounts_for(
        other,
    ) by {
        assert(pool.accounts_for(other));
    }
}

/// What can happen to a pool: a message is offered, a worker asks for its
/// next message, or the handler of a worker fails.
pub enum PoolEvent<T> {
    Send(T),
    Recv(nat),
    Fail(nat),
}

impl<T> WorkersModel<T> {
    /// The pool after one event. An event for a worker that the pool does
    /// not have changes nothing.
    pub open spec fn on(self, event: PoolEvent<T>) -> Self {
        match event {
            PoolEvent::Send(message) => self.send(message),
            PoolEvent::Recv(worker) => if worker < self.len() {
                self.recv(worker as int)
            } else {
                self
            },
            PoolEvent::Fail(worker) => if worker < self.len() {
                self.fail(worker as int)
            } else {
                self
            },
        }
    }

    /// The pool after a run of events.
    pub open spec fn after(self, events: Seq<PoolEvent<T>>) -> Self
        decreases events.len(),
    {
        if events.len() == 0 {
            self
        } else {
            self.after(events.drop_last()).on(events.last())
        }
    }
}

/// The invariant holds of every pool that can be reached: whatever is sent,
/// and in whatever order the workers take their messages or fail, the pool
/// stays well formed, with the workers and the capacity that it began
/// with.
pub proof fn lemma_reachable_wf<T>(workers: nat, capacity: nat, events: Seq<PoolEvent<T>>)
    requires
        workers > 0,
        capacity > 0,
    ensures
        WorkersModel::<T>::new(workers, capacity).after(events).wf(),
        WorkersModel::<T>::new(workers, capacity).after(events).len() == workers,
        WorkersModel::<T>::new(workers, capacity).after(events).capacity() == capacity,
    decreases events.len(),
{
    let pool = WorkersModel::<T>::new(workers, capacity);
    if events.len() == 0 {
        lemma_new_wf::<T>(workers, capacity);
    } else {
        lemma_reachable_wf(workers, capacity, events.drop_last());
        let before = pool.after(events.drop_last());
        match events.last() {
            PoolEvent::Send(message) => lemma_send_wf(before, message),
            PoolEvent::Recv(worker) => if worker < before.len() {
                lemma_recv_wf(before, worker as int);
            },
            PoolEvent::Fail(worker) => if worker < before.len() {
                lemma_fail_wf(before, worker as int);
            },
        }
    }
}

/// Round-robin dispatch, first in, first out: what a worker handles as its
/// message number `k` is the message that was accepted with index
/// `k * len + worker`. So the message with index `i` goes to worker
/// `i % len`, and a worker handles its messages in the order in which they
/// were sent.
pub proof fn lemma_handled_in_order<T>(pool: WorkersModel<T>, worker: int, k: int)
    requires
        pool.wf(),
        0 <= worker < pool.len(),
        0 <= k < pool.handled[worker].len(),
    ensures
        k * pool.len() + worker < pool.sent.len(),
        pool.handled[worker][k] == pool.sent[k * pool.len() + worker],
{
    assert(pool.accounts_for(worker));
    lemma_lane_index(pool.sent, pool.len(), worker as nat, k as nat);
}

/// While no handler has failed, every accepted message is accounted for:
/// the message with index `i` is number `i / len` of what worker `i % len`
/// has handled or holds in its queue.
pub proof fn lemma_delivered<T>(pool: WorkersModel<T>, i: int)
    requires
        pool.wf(),
        pool.sound(),
        0 <= i < pool.sent.len(),
    ensures
        0 <= i % (pool.len() as int) < pool.len(),
        0 <= i / (pool.len() as int) < pool.delivered(i % (pool.len() as int)).len(),
        pool.delivered(i % (pool.len() as int))[i / (pool.len() as int)] == pool.sent[i],
{
    lemma_lane_of_index(pool.sent, pool.len(), i as nat);
    assert(pool.accounts_for(i % (pool.len() as int)));
}

/// While no handler has failed, nothing is handled twice and nothing comes
/// from nowhere: what the workers have handled and what they hold in their
/// queues are together as many messages as were accepted.
pub proof fn lemma_delivered_len<T>(pool: WorkersModel<T>)
    requires
        pool.wf(),
        pool.sound(),
    ensures
        pool.delivered_len(pool.len()) == pool.sent.len(),
{
    lemma_delivered_len_upto(pool, pool.len());
    lemma_lanes_len(pool.sent, pool.len());
}

proof fn lemma_delivered_len_upto<T>(pool: WorkersModel<T>, upto: nat)
    requires
        pool.wf(),
        pool.sound(),
        upto <= pool.len(),
    ensures
        pool.delivered_len(upto) == lanes_len(pool.sent, pool.len(), upto),
    decreases upto,
{
    if upto > 0 {
        lemma_delivered_len_upto(pool, (upto - 1) as nat);
        assert(pool.accounts_for(upto - 1));
    }
}

/// Backpressure: while the queue under the cursor is full, `send` hands the
/// message back and changes nothing, however often it is tried. Once the
/// worker has taken a message out, the same `send` is accepted.
pub proof fn lemma_backpressure<T>(pool: WorkersModel<T>, message: T)
    requires
        pool.wf(),
        !pool.workers[pool.next as int].failed,
        pool.workers[pool.next as int].queue.len() == pool.capacity(),
    ensures
        pool.send_outcome(message) == SendOutcome::Suspended(message),
        pool.send(message) == pool,
        pool.received(pool.next as int) == Received::Message(
            pool.workers[pool.next as int].queue.first(),
        ),
        pool.recv(pool.next as int).next == pool.next,
        pool.recv(pool.next as int).send_outcome(message) == SendOutcome::<T>::Accepted,
{
    lemma_advance(pool.len(), pool.sent.len());
    assert(pool.accounts_for(pool.next as int));
}

/// A fixed pool of workers. Messages are dispatched round-robin, each to
/// the bounded queue of the worker under the cursor; the workers take them
/// out in the order in which they came.
pub struct Workers<T> {
    workers: Vec<Worker<T>>,
    cursor: RoundRobin,
    sent: Ghost<Seq<T>>,
    handled: Ghost<Seq<Seq<T>>>,
}

impl<T> View for Workers<T> {
    type V = WorkersModel<T>;

    closed spec fn view(&self) -> WorkersModel<T> {
        WorkersModel {
            workers: self.workers@.map_values(|worker: Worker<T>| worker@),
            next: self.cursor@.next,
            sent: self.sent@,
            handled: self.handled@,
        }
    }
}

impl<T> Workers<T> {
    /// The pool is well formed, and so is its model.
    pub closed spec fn wf(&self) -> bool {
        &&& self@.wf()
        &&& self.cursor@.workers == self.workers.len()
    }

    /// What is well formed has a well-formed model.
    pub proof fn lemma_wf(&self)
        requires
            self.wf(),
        ensures
            self@.wf(),
    {
    }

    /// A pool of `max_concurrent` workers, each with a queue of
    /// `queue_capacity` places.
    pub fn with_capacity(max_concurrent: usize, queue_capacity: usize) -> (pool: Self)
        requires
            max_concurrent > 0,
            queue_capacity > 0,
        ensures
            pool.wf(),
            pool@.wf(),
            pool@ == WorkersModel::<T>::new(max_concurrent as nat, queue_capacity as nat),
    {
        let mut workers: Vec<Worker<T>> = Vec::new();
        for created in 0..max_concurrent
            invariant
                queue_capacity > 0,
                workers.len() == created,
                forall|worker: int|
                    0 <= worker < created ==> (#[trigger] workers[worker])@ == WorkerModel::<T>::new(
                        queue_capacity as nat,
                    ),
        {
            workers.push(Worker::with_capacity(queue_capacity));
        }
        let pool = Workers {
            workers,
            cursor: RoundRobin::new(max_concurrent),
            sent: Ghost(Seq::empty()),
            handled: Ghost(Seq::new(max_concurrent as nat, |worker: int| Seq::empty())),
        };
        proof {
            let model = WorkersModel::<T>::new(max_concurrent as nat, queue_capacity as nat);
            lemma_new_wf::<T>(max_concurrent as nat, queue_capacity as nat);
            lemma_advance(max_concurrent as nat, 0);
            assert(pool@.workers =~= model.workers);
            assert(pool@.handled =~= model.handled);
        }
        pool
    }

    /// The number of workers.
    pub fn len(&self) -> (len: usize)
        ensures
            len == self@.len(),
    {
        self.workers.len()
    }

    /// The capacity of every queue.
    pub fn capacity(&self) -> (capacity: usize)
        requires
            self.wf(),
        ensures
            capacity == self@.capacity(),
    {
        self.workers[0].capacity()
    }

    /// Where `worker` is in its life.
    pub fn state(&self, worker: usize) -> (state: WorkerState)
        requires
            self.wf(),
            worker < self@.len(),
        ensures
            state == self@.workers[worker as int].state(),
    {
        self.workers[worker].state()
    }

    /// The number of messages that wait in the queue of `worker`.
    pub fn queued(&self, worker: usize) -> (queued: usize)
        requires
            self.wf(),
            worker < self@.len(),
        ensures
            queued == self@.workers[worker as int].queue.len(),
    {
        self.workers[worker].len()
    }

    /// The worker that gets the next message.
    pub fn next(&self) -> (next: usize)
        requires
            self.wf(),
        ensures
            next == self@.next,
            next < self@.len(),
    {
        self.cursor.next()
    }

    /// Offers `message` to the worker under the cursor. If it is accepted,
    /// the cursor moves on; a full queue hands the message back and leaves
    /// the pool as it was, and so does a worker that has failed.
    pub fn send(&mut self, message: T) -> (outcome: SendOutcome<T>)
        requires
            old(self).wf(),
        ensures
            final(self).wf(),
            final(self)@.wf(),
            outcome == old(self)@.send_outcome(message),
            final(self)@ == old(self)@.send(message),
            old(self)@.next == old(self)@.sent.len() % old(self)@.len(),
    {
        let target = self.cursor.next();
        proof {
            lemma_send_wf(self@, message);
            assert(self@.accounts_for(target as int));
        }
        let outcome = self.workers[target].send(message);
        if let SendOutcome::Accepted = &outcome {
            self.cursor.advance();
            self.sent = Ghost(self.sent@.push(message));
        }
        proof {
            assert(self@.workers =~= old(self)@.send(message).workers);
        }
        outcome
    }

    /// Lets `worker` take the oldest message out of its queue, to handle
    /// it.
    pub fn recv(&mut self, worker: usize) -> (received: Received<T>)
        requires
            old(self).wf(),
            worker < old(self)@.len(),
        ensures
            final(self).wf(),
            final(self)@.wf(),
            received == old(self)@.received(worker as int),
            final(self)@ == old(self)@.recv(worker as int),
    {
        let ghost after = self@.recv(worker as int);
        proof {
            lemma_recv_wf(self@, worker as int);
            assert(self@.accounts_for(worker as int));
        }
        let received = self.workers[worker].recv();
        self.handled = Ghost(after.handled);
        proof {
            assert(self@.workers =~= after.workers);
        }
        received
    }

    /// Records that the handler of `worker` failed: its loop has ended, what
    /// waited in its queue is lost, and it accepts nothing any more.
    pub fn fail(&mut self, worker: usize)
        requires
            old(self).wf(),
            worker < old(self)@.len(),
        ensures
            final(self).wf(),
            final(self)@.wf(),
            final(self)@ == old(self)@.fail(worker as int),
    {
        proof {
            lemma_fail_wf(self@, worker as int);
            assert(self@.accounts_for(worker as int));
        }
        self.workers[worker].fail();
        proof {
            assert(self@.workers =~= old(self)@.fail(worker as int).workers);
        }
    }

    /// Closes every queue and lets every worker take out what still waits
    /// in its own, in order. The result holds, for each worker, the messages
    /// that it handles before it ends: with what it has handled before they
    /// are its whole lane of the accepted messages. If a handler has failed,
    /// the first such worker is reported instead.
    pub fn join(self) -> (result: Result<Vec<Vec<T>>, JoinError>)
        requires
            self.wf(),
        ensures
            match result {
                Ok(rest) => {
                    &&& self@.sound()
                    &&& rest.len() == self@.len()
                    &&& forall|worker: int|
                        0 <= worker < self@.len() ==> (#[trigger] rest[worker])@
                            == self@.workers[worker].queue
                    &&& forall|worker: int|
                        0 <= worker < self@.len() ==> self@.handled[worker] + (
                        #[trigger] rest[worker])@ == lane(self@.sent, self@.len(), worker as nat)
                },
                Err(error) => self@.first_failed(error.worker as int),
            },
    {
        let ghost before = self@;
        let Workers { mut workers, cursor: _, sent: _, handled: _ } = self;
        let count = workers.len();
        for closed in 0..count
            invariant
                before.wf(),
                workers.len() == count == before.len(),
                forall|worker: int|
                    0 <= worker < closed ==> (#[trigger] workers[worker])@
                        == before.workers[worker].close(),
                forall|worker: int|
                    closed <= worker < count ==> (#[trigger] workers[worker])@
                        == before.workers[worker],
        {
            assert(before.accounts_for(closed as int));
            workers[closed].close();
        }
        let mut rest: Vec<Vec<T>> = Vec::new();
        for joined in 0..count
            invariant
                before == self@,
                before.wf(),
                workers.len() == count == before.len(),
                rest.len() == joined,
                forall|worker: int|
                    joined <= worker < count ==> (#[trigger] workers[worker])@
                        == before.workers[worker].close(),
                forall|worker: int|
                    0 <= worker < joined ==> !(#[trigger] before.workers[worker]).failed,
                forall|worker: int|
                    0 <= worker < joined ==> (#[trigger] rest[worker])@
                        == before.workers[worker].queue,
        {
            assert(before.accounts_for(joined as int));
            assert(workers[joined as int]@ == before.workers[joined as int].close());
            if let WorkerState::Failed = workers[joined].state() {
                return Err(JoinError { worker: joined });
            }
            let ghost queue = before.workers[joined as int].queue;
            let mut drained: Vec<T> = Vec::new();
            loop
                invariant
                    joined < count == workers.len() == before.len(),
                    workers[joined as int]@.wf(),
                    workers[joined as int]@.closed,
                    !workers[joined as int]@.failed,
                    drained@ + workers[joined as int]@.queue == queue,
                    forall|worker: int|
                        joined < worker < count ==> (#[trigger] workers[worker])@
                            == before.workers[worker].close(),
                ensures
                    drained@ == queue,
                decreases workers[joined as int]@.queue.len(),
            {
                let ghost waiting = workers[joined as int]@.queue;
                match workers[joined].recv() {
                    Received::Message(message) => {
                        drained.push(message);
                        assert(drained@ + waiting.drop_first() =~= (drained@.drop_last()
                            + waiting));
                    },
                    _ => {
                        assert(drained@ + waiting =~= drained@);
                        break ;
                    },
                }
            }
            rest.push(drained);
        }
        proof {
            assert forall|worker: int| 0 <= worker < before.len() implies before.handled[worker] + (
            #[trigger] rest[worker])@ == lane(before.sent, before.len(), worker as nat) by {
                assert(before.accounts_for(worker));
            }
        }
        Ok(rest)
    }
}

} // verus!
