//! Round-robin dispatch: the cursor that picks the next worker, and what the
//! rule means for a sequence of messages.

use vstd::arithmetic::div_mod::{
    lemma_fundamental_div_mod,
    lemma_fundamental_div_mod_converse,
    lemma_mod_bound,
};
use vstd::prelude::*;

verus! {

/// The mathematical model of the dispatch cursor: the number of workers and
/// the worker that gets the next message.
pub struct RoundRobinModel {
    pub workers: nat,
    pub next: nat,
}

impl RoundRobinModel {
    /// The cursor points at one of the workers, or at nothing where there
    /// is no worker.
    pub open spec fn wf(self) -> bool {
        self.next < self.workers || (self.workers == 0 && self.next == 0)
    }

    /// The cursor after `accepted` messages have been dispatched.
    pub open spec fn after(workers: nat, accepted: nat) -> Self {
        RoundRobinModel { workers, next: accepted % workers }
    }

    /// The cursor after one more message: the next worker, and the first
    /// one again after the last.
    pub open spec fn advance(self) -> Self {
        RoundRobinModel { next: (self.next + 1) % self.workers, ..self }
    }
}

/// The dispatch cursor of a pool: it walks over the workers in a fixed
/// cyclic order, whatever their load.
pub struct RoundRobin {
    workers: usize,
    next: usize,
}

impl View for RoundRobin {
    type V = RoundRobinModel;

    closed spec fn view(&self) -> RoundRobinModel {
        RoundRobinModel { workers: self.workers as nat, next: self.next as nat }
    }
}

impl RoundRobin {
    /// A cursor over `workers` workers that points at the first.
    pub fn new(workers: usize) -> (cursor: Self)
        ensures
            cursor@ == (RoundRobinModel { workers: workers as nat, next: 0 }),
            cursor@.wf(),
    {
        RoundRobin { workers, next: 0 }
    }

    /// The number of workers.
    pub fn workers(&self) -> (workers: usize)
        ensures
            workers == self@.workers,
    {
        self.workers
    }

    /// The worker that gets the next message.
    pub fn next(&self) -> (next: usize)
        ensures
            next == self@.next,
    {
        self.next
    }

    /// Moves on to the next worker, after a message has been accepted.
    pub fn advance(&mut self)
        requires
            old(self)@.wf(),
            old(self)@.workers > 0,
        ensures
            final(self)@ == old(self)@.advance(),
            final(self)@.wf(),
    {
        self.next = (self.next + 1) % self.workers;
    }
}

/// The cursor depends on nothing but the number of messages that were
/// accepted: after `accepted` of them it points at worker
/// `accepted % workers`, so the message with index `i` goes to worker
/// `i % workers`.
pub proof fn lemma_advance(workers: nat, accepted: nat)
    requires
        workers > 0,
    ensures
        RoundRobinModel::after(workers, 0).next == 0,
        RoundRobinModel::after(workers, accepted).wf(),
        RoundRobinModel::after(workers, accepted).advance() == RoundRobinModel::after(
            workers,
            accepted + 1,
        ),
{
    lemma_div_mod_succ(accepted, workers);
    lemma_fundamental_div_mod_converse(0, workers as int, 0, 0);
    let r = accepted % workers;
    if r + 1 < workers {
        lemma_fundamental_div_mod_converse(r as int + 1, workers as int, 0, r as int + 1);
    } else {
        lemma_fundamental_div_mod_converse(workers as int, workers as int, 1, 0);
    }
}

/// The messages of `sent` that round-robin dispatch over `workers` workers
/// hands to `worker`, in the order in which they were sent: those at the
/// indices `i` with `i % workers == worker`.
pub open spec fn lane<T>(sent: Seq<T>, workers: nat, worker: nat) -> Seq<T>
    decreases sent.len(),
{
    if sent.len() == 0 {
        Seq::empty()
    } else {
        let earlier = lane(sent.drop_last(), workers, worker);
        if (sent.len() - 1) % (workers as int) == worker {
            earlier.push(sent.last())
        } else {
            earlier
        }
    }
}

/// The number of messages in all the lanes below `upto`.
pub open spec fn lanes_len<T>(sent: Seq<T>, workers: nat, upto: nat) -> nat
    decreases upto,
{
    if upto == 0 {
        0
    } else {
        lanes_len(sent, workers, (upto - 1) as nat) + lane(sent, workers, (upto - 1) as nat).len()
    }
}

/// From `x` to `x + 1` the remainder grows by one, or wraps to zero while
/// the quotient grows by one.
proof fn lemma_div_mod_succ(x: nat, d: nat)
    requires
        d > 0,
    ensures
        x % d < d,
        x % d + 1 < d ==> (x + 1) / d == x / d && (x + 1) % d == x % d + 1,
        x % d + 1 == d ==> (x + 1) / d == x / d + 1 && (x + 1) % d == 0,
{
    let q = x as int / d as int;
    let r = x as int % d as int;
    lemma_fundamental_div_mod(x as int, d as int);
    lemma_mod_bound(x as int, d as int);
    if r + 1 < d {
        assert(x + 1 == q * d + (r + 1)) by (nonlinear_arith)
            requires
                x == d * q + r,
        ;
        lemma_fundamental_div_mod_converse(x as int + 1, d as int, q, r + 1);
    } else {
        assert(x + 1 == (q + 1) * d + 0) by (nonlinear_arith)
            requires
                x == d * q + r,
                r + 1 == d,
        ;
        lemma_fundamental_div_mod_converse(x as int + 1, d as int, q + 1, 0);
    }
}

/// One more message grows exactly one lane: that of the worker under the
/// cursor.
pub proof fn lemma_lane_push<T>(sent: Seq<T>, message: T, workers: nat, worker: nat)
    ensures
        lane(sent.push(message), workers, worker) == if sent.len() % workers == worker {
            lane(sent, workers, worker).push(message)
        } else {
            lane(sent, workers, worker)
        },
{
    assert(sent.push(message).drop_last() =~= sent);
}

/// How many messages a lane holds: one for each full round, and one more
/// for the workers that the last, partial round has reached.
pub proof fn lemma_lane_len<T>(sent: Seq<T>, workers: nat, worker: nat)
    requires
        worker < workers,
    ensures
        lane(sent, workers, worker).len() == sent.len() / workers + if worker < sent.len() % workers {
            1nat
        } else {
            0nat
        },
    decreases sent.len(),
{
    if sent.len() == 0 {
        assert(0nat / workers == 0 && 0nat % workers == 0) by {
            lemma_fundamental_div_mod_converse(0, workers as int, 0, 0);
        }
    } else {
        lemma_lane_len(sent.drop_last(), workers, worker);
        lemma_div_mod_succ((sent.len() - 1) as nat, workers);
    }
}

/// The message at index `i` is the one that worker `i % workers` gets as
/// its message number `i / workers`.
pub proof fn lemma_lane_of_index<T>(sent: Seq<T>, workers: nat, i: nat)
    requires
        workers > 0,
        i < sent.len(),
    ensures
        i % workers < workers,
        i / workers < lane(sent, workers, i % workers).len(),
        lane(sent, workers, i % workers)[(i / workers) as int] == sent[i as int],
    decreases sent.len(),
{
    lemma_mod_bound(i as int, workers as int);
    let worker = i % workers;
    let earlier = sent.drop_last();
    if i + 1 < sent.len() {
        lemma_lane_of_index(earlier, workers, i);
    } else {
        lemma_lane_len(earlier, workers, worker);
    }
}

/// The message that a worker gets as its message number `k` is the one at
/// index `k * workers + worker`.
pub proof fn lemma_lane_index<T>(sent: Seq<T>, workers: nat, worker: nat, k: nat)
    requires
        worker < workers,
        k < lane(sent, workers, worker).len(),
    ensures
        k * workers + worker < sent.len(),
        lane(sent, workers, worker)[k as int] == sent[(k * workers + worker) as int],
{
    let i = k * workers + worker;
    lemma_lane_len(sent, workers, worker);
    lemma_fundamental_div_mod(sent.len() as int, workers as int);
    lemma_mod_bound(sent.len() as int, workers as int);
    assert(i < sent.len()) by (nonlinear_arith)
        requires
            i == k * workers + worker,
            worker < workers,
            sent.len() == workers * (sent.len() as int / workers as int) + (sent.len() as int
                % workers as int),
            k < sent.len() as int / workers as int || (k == sent.len() as int / workers as int
                && worker < sent.len() as int % workers as int),
    ;
    lemma_fundamental_div_mod_converse(i as int, workers as int, k as int, worker as int);
    lemma_lane_of_index(sent, workers, i);
}

/// One more message adds one to the number of messages in the lanes below
/// `upto` if the cursor is below `upto`, and nothing otherwise.
proof fn lemma_lanes_len_push<T>(sent: Seq<T>, message: T, workers: nat, upto: nat)
    requires
        workers > 0,
    ensures
        lanes_len(sent.push(message), workers, upto) == lanes_len(sent, workers, upto) + if sent.len()
            % workers < upto {
            1nat
        } else {
            0nat
        },
    decreases upto,
{
    if upto > 0 {
        lemma_lanes_len_push(sent, message, workers, (upto - 1) as nat);
        lemma_lane_push(sent, message, workers, (upto - 1) as nat);
    }
}

/// The lanes share out the messages: together they hold as many as were
/// sent.
pub proof fn lemma_lanes_len<T>(sent: Seq<T>, workers: nat)
    requires
        workers > 0,
    ensures
        lanes_len(sent, workers, workers) == sent.len(),
    decreases sent.len(),
{
    if sent.len() == 0 {
        lemma_lanes_len_empty::<T>(sent, workers, workers);
    } else {
        let earlier = sent.drop_last();
        lemma_lanes_len(earlier, workers);
        lemma_lanes_len_push(earlier, sent.last(), workers, workers);
        lemma_mod_bound(earlier.len() as int, workers as int);
        assert(earlier.push(sent.last()) =~= sent);
    }
}

proof fn lemma_lanes_len_empty<T>(sent: Seq<T>, workers: nat, upto: nat)
    requires
        sent.len() == 0,
    ensures
        lanes_len(sent, workers, upto) == 0,
    decreases upto,
{
    if upto > 0 {
        lemma_lanes_len_empty(sent, workers, (upto - 1) as nat);
    }
}

} // verus!
