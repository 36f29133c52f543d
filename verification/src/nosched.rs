//! Integer square root by Newton's iteration and the work split of the
//! parallel summation demo.
use vstd::prelude::*;

verus! {

/// Number of values summed by the demo.
pub const NUM_DATA: usize = 20_000_000;

/// Number of tasks the demo splits the work across.
pub const NUM_TASKS: usize = 4;

/// The floor of the square root of `n`.
pub open spec fn isqrt(n: nat) -> nat
    decreases n,
{
    if n == 0 {
        0
    } else {
        let r = isqrt((n - 1) as nat);
        if (r + 1) * (r + 1) <= n {
            r + 1
        } else {
            r
        }
    }
}

/// `r` is the integer square root of `n`.
pub open spec fn is_isqrt(n: nat, r: nat) -> bool {
    r * r <= n < (r + 1) * (r + 1)
}

/// `isqrt` meets its defining property.
pub proof fn lemma_isqrt_is_isqrt(n: nat)
    ensures
        is_isqrt(n, isqrt(n)),
    decreases n,
{
    if n > 0 {
        lemma_isqrt_is_isqrt((n - 1) as nat);
        let r = isqrt((n - 1) as nat);
        assert((r + 2) * (r + 2) > (r + 1) * (r + 1)) by (nonlinear_arith);
        if (r + 1) * (r + 1) <= n {
            assert(isqrt(n) == r + 1);
            assert(n < (r + 2) * (r + 2));
            assert((r + 1 + 1) * (r + 1 + 1) == (r + 2) * (r + 2));
        } else {
            assert(isqrt(n) == r);
        }
    } else {
        assert(isqrt(0) == 0);
        assert(is_isqrt(0, 0)) by (nonlinear_arith);
    }
}

/// At most one natural number is the integer square root of `n`.
pub proof fn lemma_isqrt_unique(n: nat, a: nat, b: nat)
    requires
        is_isqrt(n, a),
        is_isqrt(n, b),
    ensures
        a == b,
{
    if a < b {
        assert((a + 1) * (a + 1) <= b * b) by (nonlinear_arith)
            requires
                a + 1 <= b,
        ;
    } else if b < a {
        assert((b + 1) * (b + 1) <= a * a) by (nonlinear_arith)
            requires
                b + 1 <= a,
        ;
    }
}

/// One Newton step from above never jumps below the integer square root.
proof fn lemma_newton_step_stays_above(n: int, x: int)
    requires
        x >= 1,
        n >= 0,
    ensures
        ({
            let y = (x + n / x) / 2;
            n < (y + 1) * (y + 1)
        }),
{
    let q = n / x;
    let y = (x + q) / 2;
    vstd::arithmetic::div_mod::lemma_fundamental_div_mod(n, x);
    assert(n < x * (q + 1)) by (nonlinear_arith)
        requires
            n == x * q + n % x,
            n % x < x,
    ;
    assert(2 * (y + 1) >= x + q + 1);
    assert(q >= 0) by (nonlinear_arith)
        requires
            x >= 1,
            n >= 0,
            q == n / x,
    ;
    assert(4 * ((y + 1) * (y + 1)) >= (x + q + 1) * (x + q + 1)) by (nonlinear_arith)
        requires
            2 * (y + 1) >= x + q + 1,
            x + q + 1 >= 0,
    ;
    assert((x + q + 1) * (x + q + 1) >= 4 * (x * (q + 1))) by (nonlinear_arith);
}

/// Integer square root of `n` by Newton's iteration started at `n`.
///
/// The first step squares `n`, so `n * n` must fit in a `u64`.
pub fn sqrt(n: u64) -> (r: u64)
    requires
        n * n <= u64::MAX,
    ensures
        r == isqrt(n as nat),
{
    let mut x = n;
    assert(n < (n + 1) * (n + 1)) by (nonlinear_arith);
    assert(3 * n + 1 <= u64::MAX) by (nonlinear_arith)
        requires
            n * n <= u64::MAX,
    ;
    loop
        invariant
            x <= n,
            n * n <= u64::MAX,
            3 * n + 1 <= u64::MAX,
            n < (x + 1) * (x + 1),
        decreases x,
    {
        assert(x * x <= n * n) by (nonlinear_arith)
            requires
                x <= n,
        ;
        if x * x <= n {
            assert(x <= n + 1) by (nonlinear_arith)
                requires
                    x * x <= n,
            ;
            assert(x <= x * x) by (nonlinear_arith);
            assert((x + 1) * (x + 1) <= 3 * n + 1) by (nonlinear_arith)
                requires
                    x * x <= n,
                    x <= x * x,
            ;
            if (x + 1) * (x + 1) > n {
                proof {
                    lemma_isqrt_is_isqrt(n as nat);
                    lemma_isqrt_unique(n as nat, x as nat, isqrt(n as nat));
                }
                return x;
            }
        }
        assert(x >= 1);
        assert(n / x < x) by (nonlinear_arith)
            requires
                x * x > n,
                x >= 1,
        ;
        proof {
            lemma_newton_step_stays_above(n as int, x as int);
        }
        x = (x + n / x) / 2;
    }
}

/// Sum of the integer square roots of every number in `[lo, hi)`.
pub open spec fn sum_isqrt(lo: nat, hi: nat) -> nat
    decreases hi - lo,
{
    if hi <= lo {
        0
    } else {
        sum_isqrt(lo, (hi - 1) as nat) + isqrt((hi - 1) as nat)
    }
}

/// Splitting a range in two splits its sum in two.
pub proof fn lemma_sum_isqrt_split(a: nat, b: nat, c: nat)
    requires
        a <= b <= c,
    ensures
        sum_isqrt(a, c) == sum_isqrt(a, b) + sum_isqrt(b, c),
    decreases c - b,
{
    if b < c {
        lemma_sum_isqrt_split(a, b, (c - 1) as nat);
    }
}

proof fn lemma_isqrt_small(n: nat)
    requires
        n < 0x1_0000_0000,
    ensures
        isqrt(n) <= 0x1_0000,
{
    lemma_isqrt_is_isqrt(n);
    let r = isqrt(n);
    assert(r <= 0x1_0000) by (nonlinear_arith)
        requires
            r * r <= n,
            n < 0x1_0000_0000,
    ;
}

/// Sum of the integer square roots of the numbers in `[left, right)`, the
/// work one task of the summation demo performs.
pub fn range_sqrt_sum(left: u64, right: u64) -> (s: u64)
    requires
        left <= right <= 0x1_0000_0000,
    ensures
        s == sum_isqrt(left as nat, right as nat),
{
    let mut s: u64 = 0;
    let mut i: u64 = left;
    while i < right
        invariant
            left <= i <= right <= 0x1_0000_0000,
            s == sum_isqrt(left as nat, i as nat),
            s <= (i - left) * 0x1_0000,
        decreases right - i,
    {
        proof {
            lemma_isqrt_small(i as nat);
        }
        assert(i * i <= u64::MAX) by (nonlinear_arith)
            requires
                i < 0x1_0000_0000,
        ;
        let r = sqrt(i);
        s = s + r;
        i = i + 1;
    }
    s
}

/// The half-open range `[left, right)` that task `i` of `num_tasks` sums
/// when `num_data` values are shared out in equal chunks.
pub open spec fn task_bounds(i: nat, num_data: nat, num_tasks: nat) -> (nat, nat) {
    let chunk = num_data / num_tasks;
    let left = i * chunk;
    let right = if left + chunk <= num_data { left + chunk } else { num_data };
    (left, right)
}

/// The range of values task `i` sums: `[i * chunk, min(i * chunk + chunk, num_data))`
/// with `chunk = num_data / num_tasks`.
pub fn task_range(i: usize, num_data: usize, num_tasks: usize) -> (r: (usize, usize))
    requires
        num_tasks > 0,
        i < num_tasks,
    ensures
        r.0 == task_bounds(i as nat, num_data as nat, num_tasks as nat).0,
        r.1 == task_bounds(i as nat, num_data as nat, num_tasks as nat).1,
{
    let chunk = num_data / num_tasks;
    assert(i * chunk <= num_data) by (nonlinear_arith)
        requires
            i < num_tasks,
            chunk == num_data / num_tasks,
            num_tasks > 0,
    {
        vstd::arithmetic::div_mod::lemma_fundamental_div_mod(num_data as int, num_tasks as int);
        assert(i * chunk <= num_tasks * chunk);
    }
    let left = i * chunk;
    let right = if chunk <= num_data - left { left + chunk } else { num_data };
    (left, right)
}

/// Total of the per-task sums of the first `k` tasks.
pub open spec fn tasks_total(num_data: nat, num_tasks: nat, k: nat) -> nat
    decreases k,
{
    if k == 0 {
        0
    } else {
        let b = task_bounds((k - 1) as nat, num_data, num_tasks);
        tasks_total(num_data, num_tasks, (k - 1) as nat) + sum_isqrt(b.0, b.1)
    }
}

/// When the tasks share the values out evenly, the per-task sums add up to
/// the sum computed by a single pass over all values.
pub proof fn law_parallel_sum_matches_serial(num_data: nat, num_tasks: nat)
    requires
        num_tasks > 0,
        num_data % num_tasks == 0,
    ensures
        tasks_total(num_data, num_tasks, num_tasks) == sum_isqrt(0, num_data),
{
    let chunk = num_data / num_tasks;
    vstd::arithmetic::div_mod::lemma_fundamental_div_mod(num_data as int, num_tasks as int);
    assert(num_data == num_tasks * chunk);
    lemma_tasks_total_prefix(num_data, num_tasks, num_tasks);
}

proof fn lemma_tasks_total_prefix(num_data: nat, num_tasks: nat, k: nat)
    requires
        num_tasks > 0,
        k <= num_tasks,
        num_data == num_tasks * (num_data / num_tasks),
    ensures
        tasks_total(num_data, num_tasks, k) == sum_isqrt(0, k * (num_data / num_tasks)),
    decreases k,
{
    let chunk = num_data / num_tasks;
    if k == 0 {
        assert(k * chunk == 0);
    } else {
        lemma_tasks_total_prefix(num_data, num_tasks, (k - 1) as nat);
        let b = task_bounds((k - 1) as nat, num_data, num_tasks);
        assert(b.0 == (k - 1) * chunk);
        assert(k * chunk == (k - 1) * chunk + chunk) by (nonlinear_arith);
        assert(k * chunk <= num_tasks * chunk) by (nonlinear_arith)
            requires
                k <= num_tasks,
        ;
        assert(b.1 == k * chunk);
        assert((k - 1) * chunk <= k * chunk);
        lemma_sum_isqrt_split(0, ((k - 1) * chunk) as nat, (k * chunk) as nat);
    }
}

/// The integer square root is the floor of the square root: its square
/// does not exceed `n` and the square of the next number does.
pub proof fn law_isqrt_is_floor_root(n: nat)
    ensures
        isqrt(n) * isqrt(n) <= n,
        n < (isqrt(n) + 1) * (isqrt(n) + 1),
{
    lemma_isqrt_is_isqrt(n);
}

/// A range of one value sums to that value's root, and an empty range to 0.
pub proof fn law_sum_isqrt_unit(lo: nat)
    ensures
        sum_isqrt(lo, lo) == 0,
        sum_isqrt(lo, lo + 1) == isqrt(lo),
{
    assert(sum_isqrt(lo, lo) == 0);
    assert(sum_isqrt(lo, (lo + 1 - 1) as nat) == 0);
}

/// The tasks' ranges follow one another: the first starts at 0, each starts
/// where the previous one ended, and none ends past `num_data`; with an
/// even split the last ends exactly at `num_data`.
pub proof fn law_task_ranges_adjacent(num_data: nat, num_tasks: nat, i: nat)
    requires
        num_tasks > 0,
        i + 1 < num_tasks,
    ensures
        task_bounds(0, num_data, num_tasks).0 == 0,
        task_bounds(i, num_data, num_tasks).1 == task_bounds(i + 1, num_data, num_tasks).0,
        task_bounds(i, num_data, num_tasks).0 <= task_bounds(i, num_data, num_tasks).1 <= num_data,
        num_data % num_tasks == 0 ==> task_bounds((num_tasks - 1) as nat, num_data, num_tasks).1 == num_data,
{
    let chunk = num_data / num_tasks;
    vstd::arithmetic::div_mod::lemma_fundamental_div_mod(num_data as int, num_tasks as int);
    assert((i + 1) * chunk == i * chunk + chunk) by (nonlinear_arith);
    assert((i + 1) * chunk <= num_tasks * chunk) by (nonlinear_arith)
        requires
            i + 1 < num_tasks,
    ;
    assert(num_tasks * chunk <= num_data);
    assert(0 * chunk == 0);
    assert(((num_tasks - 1) as nat) * chunk + chunk == num_tasks * chunk) by (nonlinear_arith)
        requires
            num_tasks > 0,
    ;
}

} // verus!
