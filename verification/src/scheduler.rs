//! Schedulers for a backlog of operations that complete on their own.
//!
//! A scheduler decides, the driver acts: it asks for the next action, starts
//! the operation or waits for one to complete as it is told, and reports each
//! completion. With `fill` the driver hands over the starting too, as a
//! closure, and is told only when to wait and when it is done. The bounded
//! scheduler keeps no more than its limit in flight; the unbounded one
//! starts the whole backlog at once.

use vstd::prelude::*;

verus! {

/// What the driver of a scheduler does next.
#[derive(Clone, Copy, Debug, PartialEq, Eq, Structural)]
pub enum Action {
    /// Start the operation for this item. It is in flight from now on.
    Start(usize),
    /// Wait until an operation that is in flight completes, and report it.
    Wait,
    /// Every operation has been started and has completed.
    Done,
}

/// The mathematical model of the bounded scheduler: the limit, the size of
/// the backlog, how much of it has not been started, and how many
/// operations are in flight.
pub struct WindowModel {
    pub limit: nat,
    pub total: nat,
    pub pending: nat,
    pub in_flight: nat,
}

impl WindowModel {
    /// The whole backlog is pending and nothing is in flight.
    pub open spec fn new(limit: nat, count: nat) -> Self {
        WindowModel { limit, total: count, pending: count, in_flight: 0 }
    }

    /// The invariant of the scheduler: no more than `limit` operations are
    /// in flight, and what is pending or in flight is part of the backlog.
    pub open spec fn wf(self) -> bool {
        &&& self.in_flight <= self.limit
        &&& self.pending + self.in_flight <= self.total <= usize::MAX
    }

    /// The number of operations that have been started.
    pub open spec fn started(self) -> nat {
        (self.total - self.pending) as nat
    }

    /// The number of operations that have completed.
    pub open spec fn completed(self) -> nat {
        (self.total - self.pending - self.in_flight) as nat
    }

    /// The action that is due. While there is room under the limit and the
    /// backlog is not exhausted, the next item is started; the items are
    /// numbered from 0, in the order of the backlog, so the item that is
    /// started is the one whose index is the number of items started before
    /// it. Otherwise the driver waits while anything is pending or in
    /// flight, and is done when nothing is.
    pub open spec fn action(self) -> Action {
        if self.in_flight < self.limit && self.pending > 0 {
            Action::Start(self.started() as usize)
        } else if self.pending > 0 || self.in_flight > 0 {
            Action::Wait
        } else {
            Action::Done
        }
    }

    /// The scheduler after the action that is due: an item that is started
    /// leaves the backlog and is in flight.
    pub open spec fn step(self) -> Self {
        if self.action() is Start {
            WindowModel {
                pending: (self.pending - 1) as nat,
                in_flight: self.in_flight + 1,
                ..self
            }
        } else {
            self
        }
    }

    /// The number of items that can be started now: as many as there is
    /// room for under the limit, and no more than are pending.
    pub open spec fn room(self) -> nat {
        let free = if self.in_flight < self.limit {
            (self.limit - self.in_flight) as nat
        } else {
            0
        };
        if free < self.pending {
            free
        } else {
            self.pending
        }
    }

    /// The scheduler after the window has been filled: every item that
    /// there is room for has been started.
    pub open spec fn fill(self) -> Self {
        WindowModel {
            pending: (self.pending - self.room()) as nat,
            in_flight: self.in_flight + self.room(),
            ..self
        }
    }

    /// The scheduler after one operation has completed.
    pub open spec fn complete(self) -> Self {
        WindowModel { in_flight: (self.in_flight - 1) as nat, ..self }
    }

    /// The number of starts and completions that are still to come.
    pub open spec fn steps_left(self) -> nat {
        2 * self.pending + self.in_flight
    }
}

/// What can happen to a scheduler: its driver takes the action that is due,
/// or an operation completes.
pub enum Event {
    Act,
    Complete,
}

impl WindowModel {
    /// The scheduler after one event. A completion counts only while an
    /// operation is in flight.
    pub open spec fn on(self, event: Event) -> Self {
        match event {
            Event::Act => self.step(),
            Event::Complete => if self.in_flight > 0 {
                self.complete()
            } else {
                self
            },
        }
    }

    /// The scheduler after a run of events.
    pub open spec fn after(self, events: Seq<Event>) -> Self
        decreases events.len(),
    {
        if events.len() == 0 {
            self
        } else {
            self.after(events.drop_last()).on(events.last())
        }
    }
}

/// The window holds from the beginning.
pub proof fn lemma_window_new(limit: nat, count: nat)
    requires
        count <= usize::MAX,
    ensures
        WindowModel::new(limit, count).wf(),
        WindowModel::new(limit, count).in_flight == 0,
{
}

/// The window holds at every instant: neither an action nor a completion
/// brings more than `limit` operations in flight.
pub proof fn lemma_window_kept(window: WindowModel)
    requires
        window.wf(),
    ensures
        window.step().wf(),
        window.step().in_flight <= window.limit,
        window.in_flight > 0 ==> window.complete().wf(),
        window.in_flight > 0 ==> window.complete().in_flight < window.limit,
{
}

/// The bound of the bounded scheduler: whatever the limit and the backlog,
/// and in whatever order actions are taken and operations complete, no more
/// than `limit` operations are ever in flight.
pub proof fn lemma_window_bound(limit: nat, count: nat, events: Seq<Event>)
    requires
        count <= usize::MAX,
    ensures
        WindowModel::new(limit, count).after(events).wf(),
        WindowModel::new(limit, count).after(events).limit == limit,
        WindowModel::new(limit, count).after(events).in_flight <= limit,
    decreases events.len(),
{
    if events.len() > 0 {
        lemma_window_bound(limit, count, events.drop_last());
        lemma_window_kept(WindowModel::new(limit, count).after(events.drop_last()));
    }
}

/// Filling the window is taking the action that is due for as long as it
/// is a start: one start leaves the same window to fill, and when no start
/// is due the window is full or the backlog exhausted.
pub proof fn lemma_window_fill(window: WindowModel)
    requires
        window.wf(),
    ensures
        window.fill().wf(),
        window.action() is Start ==> window.step().fill() == window.fill(),
        !(window.action() is Start) <==> window.room() == 0,
        !(window.action() is Start) ==> window.fill() == window,
        !(window.fill().action() is Start),
{
}

/// An empty backlog is done at once: nothing is started and nothing is
/// waited for.
pub proof fn lemma_window_empty(limit: nat)
    ensures
        WindowModel::new(limit, 0).action() == Action::Done,
        WindowModel::new(limit, 0).step() == WindowModel::new(limit, 0),
{
}

/// The items are started in the order of the backlog, each once: the
/// start number `j`, counted from 0, is that of the item with index `j`,
/// and every index that is started is one of the backlog.
pub proof fn lemma_window_order(window: WindowModel)
    requires
        window.wf(),
        window.action() is Start,
    ensures
        window.action() == Action::Start(window.started() as usize),
        window.step().started() == window.started() + 1,
        0 <= window.started() < window.total,
{
}

/// With a limit of at least one the scheduler never stalls: it waits only
/// while an operation is in flight, every start and every completion brings
/// the end one step nearer, and it is done exactly when the whole backlog
/// has completed.
pub proof fn lemma_window_progress(window: WindowModel)
    requires
        window.wf(),
        window.limit >= 1,
    ensures
        window.action() == Action::Wait ==> window.in_flight > 0,
        window.action() is Start ==> window.step().steps_left() + 1 == window.steps_left(),
        window.in_flight > 0 ==> window.complete().steps_left() + 1 == window.steps_left(),
        window.action() == Action::Done <==> window.steps_left() == 0,
        window.action() == Action::Done <==> window.completed() == window.total,
{
}

/// Keeps at most `limit` operations in flight over a backlog of `count`
/// items.
pub struct BoundedScheduler {
    limit: usize,
    total: usize,
    pending: usize,
    in_flight: usize,
}

impl View for BoundedScheduler {
    type V = WindowModel;

    closed spec fn view(&self) -> WindowModel {
        WindowModel {
            limit: self.limit as nat,
            total: self.total as nat,
            pending: self.pending as nat,
            in_flight: self.in_flight as nat,
        }
    }
}

impl BoundedScheduler {
    /// A scheduler for `count` items with at most `limit` in flight.
    pub fn new(limit: usize, count: usize) -> (scheduler: Self)
        ensures
            scheduler@ == WindowModel::new(limit as nat, count as nat),
            scheduler@.wf(),
    {
        BoundedScheduler { limit, total: count, pending: count, in_flight: 0 }
    }

    /// The most operations that may be in flight.
    pub fn limit(&self) -> (limit: usize)
        ensures
            limit == self@.limit,
    {
        self.limit
    }

    /// The number of items that have not been started.
    pub fn pending(&self) -> (pending: usize)
        ensures
            pending == self@.pending,
    {
        self.pending
    }

    /// The number of operations that are in flight.
    pub fn in_flight(&self) -> (in_flight: usize)
        ensures
            in_flight == self@.in_flight,
    {
        self.in_flight
    }

    /// Says what the driver does next, and counts an item that it is told
    /// to start as in flight.
    pub fn next_action(&mut self) -> (action: Action)
        requires
            old(self)@.wf(),
        ensures
            action == old(self)@.action(),
            final(self)@ == old(self)@.step(),
            final(self)@.wf(),
            final(self)@.in_flight <= final(self)@.limit,
    {
        if self.in_flight < self.limit && self.pending > 0 {
            let item = self.total - self.pending;
            self.pending = self.pending - 1;
            self.in_flight = self.in_flight + 1;
            Action::Start(item)
        } else if self.pending > 0 || self.in_flight > 0 {
            Action::Wait
        } else {
            Action::Done
        }
    }

    /// Fills the window: starts, by a call of `start` for each, the items
    /// that there is room for, in the order of the backlog. Returns what
    /// the driver does then, which is to wait or to be done.
    pub fn fill<F: Fn(usize)>(&mut self, start: F) -> (action: Action)
        requires
            old(self)@.wf(),
            forall|item: usize|
                old(self)@.started() <= item < old(self)@.fill().started() ==> call_requires(
                    start,
                    (item,),
                ),
        ensures
            final(self)@ == old(self)@.fill(),
            final(self)@.wf(),
            final(self)@.in_flight <= final(self)@.limit,
            action == final(self)@.action(),
            action == Action::Wait || action == Action::Done,
            forall|item: usize|
                old(self)@.started() <= item < final(self)@.started() ==> call_ensures(
                    start,
                    (item,),
                    (),
                ),
    {
        let ghost before = self@;
        loop
            invariant
                before == old(self)@,
                before.wf(),
                self@.wf(),
                self@.fill() == before.fill(),
                before.fill().pending <= self@.pending <= before.pending,
                forall|item: usize|
                    before.started() <= item < before.fill().started() ==> call_requires(
                        start,
                        (item,),
                    ),
                forall|item: usize|
                    before.started() <= item < self@.started() ==> call_ensures(
                        start,
                        (item,),
                        (),
                    ),
            decreases self@.pending,
        {
            proof {
                lemma_window_fill(self@);
            }
            match self.next_action() {
                Action::Start(item) => {
                    start(item);
                },
                action => {
                    return action;
                },
            }
        }
    }

    /// Takes note that one of the operations in flight has completed.
    pub fn complete(&mut self)
        requires
            old(self)@.wf(),
            old(self)@.in_flight > 0,
        ensures
            final(self)@ == old(self)@.complete(),
            final(self)@.wf(),
    {
        self.in_flight = self.in_flight - 1;
    }
}

/// The mathematical model of the unbounded scheduler: the size of the
/// backlog, how much of it has been started, and how many operations are in
/// flight.
pub struct BurstModel {
    pub total: nat,
    pub started: nat,
    pub in_flight: nat,
}

impl BurstModel {
    /// Nothing has been started.
    pub open spec fn new(count: nat) -> Self {
        BurstModel { total: count, started: 0, in_flight: 0 }
    }

    /// What is in flight has been started, and what has been started is
    /// part of the backlog.
    pub open spec fn wf(self) -> bool {
        self.in_flight <= self.started <= self.total <= usize::MAX
    }

    /// The number of operations that have completed.
    pub open spec fn completed(self) -> nat {
        (self.started - self.in_flight) as nat
    }

    /// The action that is due. The whole backlog is started first, whatever
    /// is in flight; the items are numbered from 0. Then the driver waits
    /// while anything is in flight, and is done when nothing is.
    pub open spec fn action(self) -> Action {
        if self.started < self.total {
            Action::Start(self.started as usize)
        } else if self.in_flight > 0 {
            Action::Wait
        } else {
            Action::Done
        }
    }

    /// The scheduler after the action that is due.
    pub open spec fn step(self) -> Self {
        if self.action() is Start {
            BurstModel { started: self.started + 1, in_flight: self.in_flight + 1, ..self }
        } else {
            self
        }
    }

    /// The scheduler after everything that was not started has been
    /// started.
    pub open spec fn fill(self) -> Self {
        BurstModel {
            started: self.total,
            in_flight: (self.in_flight + self.total - self.started) as nat,
            ..self
        }
    }

    /// The scheduler after `n` actions in a row.
    pub open spec fn steps(self, n: nat) -> Self
        decreases n,
    {
        if n == 0 {
            self
        } else {
            self.steps((n - 1) as nat).step()
        }
    }

    /// The scheduler after one operation has completed.
    pub open spec fn complete(self) -> Self {
        BurstModel { in_flight: (self.in_flight - 1) as nat, ..self }
    }
}

/// Actions and completions keep the unbounded scheduler well formed.
pub proof fn lemma_burst_kept(burst: BurstModel)
    requires
        burst.wf(),
    ensures
        burst.step().wf(),
        burst.in_flight > 0 ==> burst.complete().wf(),
        burst.action() == Action::Done <==> burst.completed() == burst.total,
{
}

/// Starting everything is taking the action that is due for as long as it
/// is a start.
pub proof fn lemma_burst_fill(burst: BurstModel)
    requires
        burst.wf(),
    ensures
        burst.fill().wf(),
        burst.action() is Start ==> burst.step().fill() == burst.fill(),
        !(burst.action() is Start) ==> burst.fill() == burst,
        !(burst.fill().action() is Start),
{
}

/// Nothing bounds the unbounded scheduler but the backlog: its first
/// `count` actions start the `count` items in order, without a wait, and
/// then all of them are in flight.
pub proof fn lemma_burst_peak(count: nat, n: nat)
    requires
        n <= count <= usize::MAX,
    ensures
        BurstModel::new(count).steps(n).wf(),
        BurstModel::new(count).steps(n).total == count,
        BurstModel::new(count).steps(n).started == n,
        BurstModel::new(count).steps(n).in_flight == n,
        n < count ==> BurstModel::new(count).steps(n).action() == Action::Start(n as usize),
    decreases n,
{
    if n > 0 {
        lemma_burst_peak(count, (n - 1) as nat);
    }
}

/// Starts the whole backlog of `count` items at once and then waits for the
/// operations to complete.
pub struct UnboundedScheduler {
    total: usize,
    started: usize,
    in_flight: usize,
}

impl View for UnboundedScheduler {
    type V = BurstModel;

    closed spec fn view(&self) -> BurstModel {
        BurstModel {
            total: self.total as nat,
            started: self.started as nat,
            in_flight: self.in_flight as nat,
        }
    }
}

impl UnboundedScheduler {
    /// A scheduler for `count` items.
    pub fn new(count: usize) -> (scheduler: Self)
        ensures
            scheduler@ == BurstModel::new(count as nat),
            scheduler@.wf(),
    {
        UnboundedScheduler { total: count, started: 0, in_flight: 0 }
    }

    /// The number of operations that are in flight.
    pub fn in_flight(&self) -> (in_flight: usize)
        ensures
            in_flight == self@.in_flight,
    {
        self.in_flight
    }

    /// Says what the driver does next, and counts an item that it is told
    /// to start as in flight.
    pub fn next_action(&mut self) -> (action: Action)
        requires
            old(self)@.wf(),
        ensures
            action == old(self)@.action(),
            final(self)@ == old(self)@.step(),
            final(self)@.wf(),
    {
        if self.started < self.total {
            let item = self.started;
            self.started = self.started + 1;
            self.in_flight = self.in_flight + 1;
            Action::Start(item)
        } else if self.in_flight > 0 {
            Action::Wait
        } else {
            Action::Done
        }
    }

    /// Starts, by a call of `start` for each, every item that has not been
    /// started, in the order of the backlog. Returns what the driver does
    /// then, which is to wait or to be done.
    pub fn fill<F: Fn(usize)>(&mut self, start: F) -> (action: Action)
        requires
            old(self)@.wf(),
            forall|item: usize|
                old(self)@.started <= item < old(self)@.total ==> call_requires(start, (item,)),
        ensures
            final(self)@ == old(self)@.fill(),
            final(self)@.wf(),
            action == final(self)@.action(),
            action == Action::Wait || action == Action::Done,
            forall|item: usize|
                old(self)@.started <= item < old(self)@.total ==> call_ensures(
                    start,
                    (item,),
                    (),
                ),
    {
        let ghost before = self@;
        loop
            invariant
                before == old(self)@,
                before.wf(),
                self@.wf(),
                self@.fill() == before.fill(),
                before.started <= self@.started <= before.total,
                forall|item: usize|
                    before.started <= item < before.total ==> call_requires(start, (item,)),
                forall|item: usize|
                    before.started <= item < self@.started ==> call_ensures(start, (item,), ()),
            decreases self@.total - self@.started,
        {
            proof {
                lemma_burst_fill(self@);
            }
            match self.next_action() {
                Action::Start(item) => {
                    start(item);
                },
                action => {
                    return action;
                },
            }
        }
    }

    /// Takes note that one of the operations in flight has completed.
    pub fn complete(&mut self)
        requires
            old(self)@.wf(),
            old(self)@.in_flight > 0,
        ensures
            final(self)@ == old(self)@.complete(),
            final(self)@.wf(),
    {
        self.in_flight = self.in_flight - 1;
    }
}

} // verus!
