//! Data-parallel runs of the workload on a thread pool.

use crate::workload::{do_something, workload_holds};
use rayon::iter::{IntoParallelIterator, ParallelIterator};
use vstd::prelude::*;

verus! {

/// `rayon::Scope`, the handle of a fork-join scope. It is carried through
/// and never looked into.
#[verifier::external_type_specification]
#[verifier::external_body]
pub struct ExScope<'scope>(rayon::Scope<'scope>);

/// `rayon`'s `for_each` on the parallel iterator of `0..count`: it runs the
/// workload once for each item of the range, on the threads of the global
/// pool, and returns when all are done. Nothing is claimed of it.
#[verifier::external_body]
fn par_for_each(count: usize, n: u32, expect: u64)
    requires
        count > 0 ==> workload_holds(n, expect),
{
    (0..count).into_par_iter().for_each(
        |value| {
            do_something(value, n, expect);
        },
    );
}

/// `rayon::scope`: it runs `spawn_all` with a new fork-join scope and
/// returns when every task that was spawned into the scope is done. Nothing
/// is claimed of it.
#[verifier::external_body]
fn in_scope(count: usize, n: u32, expect: u64)
    requires
        count > 0 ==> workload_holds(n, expect),
{
    rayon::scope(|scope| spawn_all(scope, count, n, expect));
}

/// `rayon::Scope::spawn`: it hands a task that runs the workload for
/// `value` to the scope. Nothing is claimed of it.
#[verifier::external_body]
fn spawn(scope: &rayon::Scope<'_>, value: usize, n: u32, expect: u64)
    requires
        workload_holds(n, expect),
{
    scope.spawn(
        move |_| {
            do_something(value, n, expect);
        },
    );
}

/// Spawns one task for each item of `0..count` into `scope`, in order.
fn spawn_all(scope: &rayon::Scope<'_>, count: usize, n: u32, expect: u64)
    requires
        count > 0 ==> workload_holds(n, expect),
{
    for value in 0..count
        invariant
            count > 0 ==> workload_holds(n, expect),
    {
        spawn(scope, value, n, expect);
    }
}

/// Runs the workload once for each item of `0..count` as a parallel
/// iterator, and returns when all are done.
pub fn rayon_par_iter(count: usize, n: u32, expect: u64)
    requires
        count > 0 ==> workload_holds(n, expect),
{
    par_for_each(count, n, expect);
}

/// Runs the workload once for each item of `0..count`, each as a task of
/// its own in one fork-join scope, and returns when all are done.
pub fn rayon_scope(count: usize, n: u32, expect: u64)
    requires
        count > 0 ==> workload_holds(n, expect),
{
    in_scope(count, n, expect);
}

} // verus!
