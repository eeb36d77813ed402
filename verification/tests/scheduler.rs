use sdb_pipeline::scheduler::{Action, BoundedScheduler, UnboundedScheduler};
use std::cell::RefCell;

/// Drives the bounded scheduler to the end, completing the oldest operation
/// in flight at each wait. Returns how often each item was visited and the
/// most operations that were in flight at once.
fn run_bounded(limit: usize, items: usize) -> (Vec<usize>, usize) {
    let mut scheduler = BoundedScheduler::new(limit, items);
    let mut in_flight: Vec<usize> = Vec::new();
    let mut visited = vec![0; items];
    let mut peak = 0;
    loop {
        match scheduler.next_action() {
            Action::Start(item) => in_flight.push(item),
            Action::Wait => {
                let item = in_flight.remove(0);
                visited[item] += 1;
                scheduler.complete();
            }
            Action::Done => break,
        }
        peak = peak.max(in_flight.len());
        assert_eq!(scheduler.in_flight(), in_flight.len());
        assert!(in_flight.len() <= limit);
    }
    assert!(in_flight.is_empty());
    (visited, peak)
}

#[test]
fn ten_items_under_a_limit_of_three() {
    let (visited, peak) = run_bounded(3, 10);
    assert_eq!(visited, vec![1; 10]);
    assert_eq!(peak, 3);
}

#[test]
fn every_item_is_visited_once_whatever_the_limit() {
    for limit in 1..8 {
        for items in 0..20 {
            let (visited, peak) = run_bounded(limit, items);
            assert_eq!(visited, vec![1; items]);
            assert_eq!(peak, limit.min(items));
        }
    }
}

#[test]
fn an_empty_backlog_is_done_at_once() {
    for limit in [0, 1, 3, usize::MAX] {
        let mut scheduler = BoundedScheduler::new(limit, 0);
        assert_eq!(scheduler.next_action(), Action::Done);
        assert_eq!(scheduler.pending(), 0);
        assert_eq!(scheduler.in_flight(), 0);
        assert_eq!(scheduler.next_action(), Action::Done);
    }
}

#[test]
fn the_window_fills_then_alternates_then_empties() {
    let mut scheduler = BoundedScheduler::new(2, 4);
    assert_eq!(scheduler.limit(), 2);
    assert_eq!(scheduler.pending(), 4);
    assert_eq!(scheduler.next_action(), Action::Start(0));
    assert_eq!(scheduler.next_action(), Action::Start(1));
    assert_eq!(scheduler.next_action(), Action::Wait);
    assert_eq!(scheduler.next_action(), Action::Wait);
    assert_eq!(scheduler.in_flight(), 2);
    scheduler.complete();
    assert_eq!(scheduler.next_action(), Action::Start(2));
    assert_eq!(scheduler.next_action(), Action::Wait);
    scheduler.complete();
    assert_eq!(scheduler.next_action(), Action::Start(3));
    assert_eq!(scheduler.pending(), 0);
    assert_eq!(scheduler.next_action(), Action::Wait);
    scheduler.complete();
    assert_eq!(scheduler.next_action(), Action::Wait);
    assert_eq!(scheduler.in_flight(), 1);
    scheduler.complete();
    assert_eq!(scheduler.next_action(), Action::Done);
}

#[test]
fn completions_before_the_window_is_full_make_room() {
    let mut scheduler = BoundedScheduler::new(3, 5);
    assert_eq!(scheduler.next_action(), Action::Start(0));
    scheduler.complete();
    assert_eq!(scheduler.next_action(), Action::Start(1));
    assert_eq!(scheduler.next_action(), Action::Start(2));
    assert_eq!(scheduler.next_action(), Action::Start(3));
    assert_eq!(scheduler.in_flight(), 3);
    assert_eq!(scheduler.next_action(), Action::Wait);
}

#[test]
fn a_limit_of_zero_starts_nothing() {
    let mut scheduler = BoundedScheduler::new(0, 2);
    assert_eq!(scheduler.next_action(), Action::Wait);
    assert_eq!(scheduler.next_action(), Action::Wait);
    assert_eq!(scheduler.pending(), 2);
    assert_eq!(scheduler.in_flight(), 0);
}

#[test]
fn a_limit_above_the_backlog_starts_everything() {
    let mut scheduler = BoundedScheduler::new(10, 3);
    assert_eq!(scheduler.next_action(), Action::Start(0));
    assert_eq!(scheduler.next_action(), Action::Start(1));
    assert_eq!(scheduler.next_action(), Action::Start(2));
    assert_eq!(scheduler.next_action(), Action::Wait);
    assert_eq!(scheduler.in_flight(), 3);
}

#[test]
fn the_unbounded_scheduler_starts_the_whole_backlog_first() {
    let mut scheduler = UnboundedScheduler::new(5);
    for item in 0..5 {
        assert_eq!(scheduler.in_flight(), item);
        assert_eq!(scheduler.next_action(), Action::Start(item));
    }
    assert_eq!(scheduler.in_flight(), 5);
    for left in (0..5).rev() {
        assert_eq!(scheduler.next_action(), Action::Wait);
        scheduler.complete();
        assert_eq!(scheduler.in_flight(), left);
    }
    assert_eq!(scheduler.next_action(), Action::Done);
}

#[test]
fn the_unbounded_scheduler_goes_on_starting_after_a_completion() {
    let mut scheduler = UnboundedScheduler::new(3);
    assert_eq!(scheduler.next_action(), Action::Start(0));
    scheduler.complete();
    assert_eq!(scheduler.next_action(), Action::Start(1));
    assert_eq!(scheduler.next_action(), Action::Start(2));
    assert_eq!(scheduler.next_action(), Action::Wait);
    assert_eq!(scheduler.in_flight(), 2);
}

#[test]
fn the_unbounded_scheduler_of_nothing_is_done() {
    let mut scheduler = UnboundedScheduler::new(0);
    assert_eq!(scheduler.next_action(), Action::Done);
}

#[test]
fn fill_starts_what_there_is_room_for() {
    let started = RefCell::new(Vec::new());
    let mut scheduler = BoundedScheduler::new(3, 5);
    assert_eq!(scheduler.fill(|item| started.borrow_mut().push(item)), Action::Wait);
    assert_eq!(*started.borrow(), vec![0, 1, 2]);
    assert_eq!(scheduler.in_flight(), 3);
    assert_eq!(scheduler.pending(), 2);
    assert_eq!(scheduler.fill(|item| started.borrow_mut().push(item)), Action::Wait);
    assert_eq!(*started.borrow(), vec![0, 1, 2]);
    scheduler.complete();
    scheduler.complete();
    assert_eq!(scheduler.fill(|item| started.borrow_mut().push(item)), Action::Wait);
    assert_eq!(*started.borrow(), vec![0, 1, 2, 3, 4]);
    assert_eq!(scheduler.in_flight(), 3);
    assert_eq!(scheduler.pending(), 0);
    scheduler.complete();
    scheduler.complete();
    assert_eq!(scheduler.fill(|item| started.borrow_mut().push(item)), Action::Wait);
    scheduler.complete();
    assert_eq!(scheduler.fill(|item| started.borrow_mut().push(item)), Action::Done);
    assert_eq!(*started.borrow(), vec![0, 1, 2, 3, 4]);
}

#[test]
fn fill_and_wait_in_turn_visit_every_item_once() {
    for limit in 1..6 {
        for items in 0..15 {
            let in_flight = RefCell::new(Vec::new());
            let mut visited = vec![0; items];
            let mut peak = 0;
            let mut scheduler = BoundedScheduler::new(limit, items);
            while scheduler.fill(|item| in_flight.borrow_mut().push(item)) == Action::Wait {
                peak = peak.max(in_flight.borrow().len());
                let done = in_flight.borrow_mut().pop().unwrap();
                visited[done] += 1;
                scheduler.complete();
            }
            assert!(in_flight.borrow().is_empty());
            assert_eq!(visited, vec![1; items]);
            assert_eq!(peak, limit.min(items));
        }
    }
}

#[test]
fn fill_of_an_empty_backlog_calls_nothing() {
    let calls = RefCell::new(0);
    let mut scheduler = BoundedScheduler::new(4, 0);
    assert_eq!(scheduler.fill(|_| *calls.borrow_mut() += 1), Action::Done);
    assert_eq!(*calls.borrow(), 0);
}

#[test]
fn fill_under_a_limit_of_zero_calls_nothing() {
    let calls = RefCell::new(0);
    let mut scheduler = BoundedScheduler::new(0, 3);
    assert_eq!(scheduler.fill(|_| *calls.borrow_mut() += 1), Action::Wait);
    assert_eq!(*calls.borrow(), 0);
    assert_eq!(scheduler.pending(), 3);
}

#[test]
fn the_unbounded_fill_starts_everything_at_once() {
    let started = RefCell::new(Vec::new());
    let mut scheduler = UnboundedScheduler::new(6);
    assert_eq!(scheduler.fill(|item| started.borrow_mut().push(item)), Action::Wait);
    assert_eq!(*started.borrow(), vec![0, 1, 2, 3, 4, 5]);
    assert_eq!(scheduler.in_flight(), 6);
    for _ in 0..5 {
        scheduler.complete();
        assert_eq!(scheduler.fill(|item| started.borrow_mut().push(item)), Action::Wait);
    }
    scheduler.complete();
    assert_eq!(scheduler.fill(|item| started.borrow_mut().push(item)), Action::Done);
    assert_eq!(started.borrow().len(), 6);
}

#[test]
fn the_unbounded_fill_of_nothing_is_done() {
    let calls = RefCell::new(0);
    let mut scheduler = UnboundedScheduler::new(0);
    assert_eq!(scheduler.fill(|_| *calls.borrow_mut() += 1), Action::Done);
    assert_eq!(*calls.borrow(), 0);
}

#[test]
fn the_items_are_started_in_the_order_of_their_indices() {
    for limit in 1..5 {
        let started = RefCell::new(Vec::new());
        let mut scheduler = BoundedScheduler::new(limit, 9);
        while scheduler.fill(|item| started.borrow_mut().push(item)) == Action::Wait {
            scheduler.complete();
        }
        assert_eq!(*started.borrow(), (0..9).collect::<Vec<usize>>());
    }
}
