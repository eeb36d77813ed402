//! The pool as its owner holds it: one handle to send to each worker, one
//! handle to wait for each worker's end, and the dispatch cursor.
//!
//! What a handle is, is the caller's business: a worker may be a task fed
//! through a channel, or a queue in memory. The pool makes the workers,
//! says which of them gets the next message, and at the end lets go of the
//! sending handles before it hands out the others.

use crate::dispatch::{RoundRobin, RoundRobinModel};
use vstd::prelude::*;

verus! {

/// The mathematical model of the pool: the sending handles in the order of
/// the workers, the handles to wait for, in the same order, and the worker
/// that gets the next message.
pub struct PoolModel<W, H> {
    pub workers: Seq<W>,
    pub handles: Seq<H>,
    pub next: nat,
}

impl<W, H> PoolModel<W, H> {
    /// The number of workers.
    pub open spec fn len(self) -> nat {
        self.workers.len()
    }

    /// Each worker has its two handles, and the cursor points at a worker
    /// if there is one.
    pub open spec fn wf(self) -> bool {
        &&& self.handles.len() == self.workers.len()
        &&& (RoundRobinModel { workers: self.len(), next: self.next }).wf()
    }

    /// The pool after a message has been accepted: the cursor has moved
    /// on, and nothing else has changed.
    pub open spec fn advance(self) -> Self {
        PoolModel { next: (self.next + 1) % self.len(), ..self }
    }
}

/// A fixed pool of workers with round-robin dispatch.
pub struct Pool<W, H> {
    workers: Vec<W>,
    handles: Vec<H>,
    cursor: RoundRobin,
}

impl<W, H> View for Pool<W, H> {
    type V = PoolModel<W, H>;

    closed spec fn view(&self) -> PoolModel<W, H> {
        PoolModel { workers: self.workers@, handles: self.handles@, next: self.cursor@.next }
    }
}

impl<W, H> Pool<W, H> {
    /// The pool is well formed, and so is its model.
    pub closed spec fn wf(&self) -> bool {
        &&& self@.wf()
        &&& self.cursor@.workers == self.workers.len()
    }

    /// What is well formed has a well-formed model.
    pub proof fn lemma_wf(&self)
        requires
            self.wf(),
        ensures
            self@.wf(),
    {
    }

    /// A pool of `max_concurrent` workers. Each of them is made by one call
    /// of `spawn`, which gives the handle to send to the worker and the
    /// handle to wait for its end. The cursor is on the first worker.
    pub fn with_capacity<F: Fn() -> (W, H)>(max_concurrent: usize, spawn: F) -> (pool: Self)
        requires
            call_requires(spawn, ()),
        ensures
            pool.wf(),
            pool@.wf(),
            pool@.len() == max_concurrent,
            pool@.next == 0,
            forall|worker: int|
                #![trigger pool@.workers[worker]]
                #![trigger pool@.handles[worker]]
                0 <= worker < max_concurrent ==> call_ensures(
                    spawn,
                    (),
                    (pool@.workers[worker], pool@.handles[worker]),
                ),
    {
        let mut workers: Vec<W> = Vec::new();
        let mut handles: Vec<H> = Vec::new();
        for made in 0..max_concurrent
            invariant
                call_requires(spawn, ()),
                workers.len() == made,
                handles.len() == made,
                forall|worker: int|
                    #![trigger workers@[worker]]
                    #![trigger handles@[worker]]
                    0 <= worker < made ==> call_ensures(
                        spawn,
                        (),
                        (workers@[worker], handles@[worker]),
                    ),
        {
            let (worker, handle) = spawn();
            workers.push(worker);
            handles.push(handle);
        }
        Pool { workers, handles, cursor: RoundRobin::new(max_concurrent) }
    }

    /// The number of workers.
    pub fn len(&self) -> (len: usize)
        ensures
            len == self@.len(),
    {
        self.workers.len()
    }

    /// The worker that gets the next message.
    pub fn next(&self) -> (next: usize)
        ensures
            next == self@.next,
    {
        self.cursor.next()
    }

    /// The handle to send the next message to: that of the worker under
    /// the cursor.
    pub fn target(&self) -> (worker: &W)
        requires
            self.wf(),
            self@.len() > 0,
        ensures
            *worker == self@.workers[self@.next as int],
    {
        &self.workers[self.cursor.next()]
    }

    /// Moves the cursor on to the next worker, after a message has been
    /// accepted.
    pub fn advance(&mut self)
        requires
            old(self).wf(),
            old(self)@.len() > 0,
        ensures
            final(self).wf(),
            final(self)@.wf(),
            final(self)@ == old(self)@.advance(),
    {
        self.cursor.advance();
    }

    /// Ends the pool. The sending handles are let go of first, all of them,
    /// which closes the queues; then the handles to wait for are handed
    /// out, in the order of the workers.
    pub fn join(self) -> (handles: Vec<H>)
        requires
            self.wf(),
        ensures
            handles@ == self@.handles,
            handles@.len() == self@.len(),
    {
        let Pool { workers, handles, cursor: _ } = self;
        {
            let _released = workers;
        }
        handles
    }
}

} // verus!
