//! The workload: a Fibonacci number computed the slow way, and the check
//! that it is the expected one.

use vstd::prelude::*;

verus! {

/// The Fibonacci numbers: `fib(0) == 0`, `fib(1) == 1`, and every later
/// number is the sum of the two before it.
pub open spec fn fib(n: nat) -> nat
    decreases n,
{
    if n == 0 {
        0
    } else if n == 1 {
        1
    } else {
        fib((n - 1) as nat) + fib((n - 2) as nat)
    }
}

/// The largest index whose Fibonacci number fits in a `u64`.
pub const FIB_MAX_INDEX: u32 = 93;

/// The Fibonacci numbers never decrease.
pub proof fn lemma_fib_monotonic(i: nat, j: nat)
    requires
        i <= j,
    ensures
        fib(i) <= fib(j),
    decreases j,
{
    if i < j {
        if j >= 2 {
            lemma_fib_monotonic(i, (j - 1) as nat);
        }
    }
}

/// The addition formula: `fib(m + n + 1) == fib(m + 1) * fib(n + 1) + fib(m) * fib(n)`.
pub proof fn lemma_fib_addition(m: nat, n: nat)
    ensures
        fib(m + n + 1) == fib(m + 1) * fib(n + 1) + fib(m) * fib(n),
    decreases n,
{
    if n == 0 {
        assert(fib(m + 1) * 1 + fib(m) * 0 == fib(m + 1)) by (nonlinear_arith);
    } else if n == 1 {
        assert(fib(2) == 1) by {
            reveal_with_fuel(fib, 3);
        }
        assert(fib(m + 1) * 1 + fib(m) * 1 == fib(m + 1) + fib(m)) by (nonlinear_arith);
    } else {
        lemma_fib_addition(m, (n - 1) as nat);
        lemma_fib_addition(m, (n - 2) as nat);
        let a = fib(m + 1);
        let b = fib(m);
        let x = fib(n);
        let y = fib((n - 1) as nat);
        let z = fib((n - 2) as nat);
        assert(fib(n + 1) == x + y);
        assert(fib(m + n + 1) == fib(m + n) + fib((m + n - 1) as nat));
        assert(a * (x + y) + b * (y + z) == (a * x + b * y) + (a * y + b * z))
            by (nonlinear_arith);
    }
}

/// The addition formula on known values: from the numbers at `m`, `m + 1`,
/// `n` and `n + 1` follows the one at `m + n + 1`.
proof fn lemma_fib_combine(m: nat, n: nat, m0: nat, m1: nat, n0: nat, n1: nat)
    requires
        fib(m) == m0,
        fib(m + 1) == m1,
        fib(n) == n0,
        fib(n + 1) == n1,
    ensures
        fib(m + n + 1) == m1 * n1 + m0 * n0,
{
    lemma_fib_addition(m, n);
}

/// The two largest Fibonacci numbers that fit in a `u64`, and the first
/// that does not.
pub proof fn lemma_fib_limit()
    ensures
        fib(92) == 7540113804746346429,
        fib(93) == 12200160415121876738,
        fib(93) <= u64::MAX < fib(94),
{
    assert(fib(10) == 55 && fib(11) == 89 && fib(12) == 144) by {
        reveal_with_fuel(fib, 13);
    }
    lemma_fib_combine(10, 11, 55, 89, 89, 144);
    lemma_fib_combine(11, 11, 89, 144, 89, 144);
    assert(fib(22) == 17711 && fib(23) == 28657 && fib(24) == 46368);
    lemma_fib_combine(22, 23, 17711, 28657, 28657, 46368);
    lemma_fib_combine(23, 23, 28657, 46368, 28657, 46368);
    assert(fib(46) == 1836311903 && fib(47) == 2971215073 && fib(48) == 4807526976);
    lemma_fib_combine(45, 46, 1134903170, 1836311903, 1836311903, 2971215073);
    lemma_fib_combine(46, 46, 1836311903, 2971215073, 1836311903, 2971215073);
    lemma_fib_combine(46, 47, 1836311903, 2971215073, 2971215073, 4807526976);
}

/// Every Fibonacci number up to index 93 fits in a `u64`.
pub proof fn lemma_fib_fits(n: nat)
    requires
        n <= FIB_MAX_INDEX,
    ensures
        fib(n) <= u64::MAX,
{
    lemma_fib_limit();
    lemma_fib_monotonic(n, 93);
}

/// Computes the `n`-th Fibonacci number by its defining recursion, which
/// takes time exponential in `n`: this is the workload.
pub fn fibonacci(n: u32) -> (r: u64)
    requires
        n <= FIB_MAX_INDEX,
    ensures
        r == fib(n as nat),
    decreases n,
{
    if n == 0 {
        0
    } else if n == 1 {
        1
    } else {
        proof {
            lemma_fib_fits(n as nat);
        }
        fibonacci(n - 1) + fibonacci(n - 2)
    }
}

/// `criterion::black_box`: it reads its argument in a way that the
/// optimizer cannot see through, so that the work on an item is not
/// compiled away. Nothing is claimed of it.
#[verifier::external_body]
fn black_box(value: usize) {
    criterion::black_box(value);
}

/// The workload can be run for `n` and gives `expect`: the number fits in a
/// `u64` and is the expected one.
pub open spec fn workload_holds(n: u32, expect: u64) -> bool {
    n <= FIB_MAX_INDEX && fib(n as nat) == expect
}

/// Handles one work item: computes the `n`-th Fibonacci number, which is
/// `expect`. The item itself, `value`, does not enter the computation.
pub fn do_something(value: usize, n: u32, expect: u64)
    requires
        workload_holds(n, expect),
{
    black_box(value);
    let number = fibonacci(n);
    assert(number == expect);
}

} // verus!
