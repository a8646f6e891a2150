//! Integer statistics over timing samples.

use vstd::prelude::*;

verus! {

/// `r` is the integer square root of `n`: the largest `r` with `r * r <= n`.
pub open spec fn is_integer_sqrt(n: int, r: int) -> bool {
    &&& 0 <= r
    &&& r * r <= n
    &&& n < (r + 1) * (r + 1)
}

/// `k * k <= n`: `k` is a lower bound candidate for the square root of `n`.
pub open spec fn square_fits(k: int, n: int) -> bool {
    k * k <= n
}

/// One Newton step never rises above `(n + 1) / 2` when started inside `[1, n]`.
proof fn lemma_newton_step_bounded_above(n: int, x: int)
    requires
        1 <= x <= n,
    ensures
        (x + n / x) / 2 <= (n + 1) / 2,
{
    let q = n / x;
    assert(q * x <= n) by (nonlinear_arith)
        requires
            x > 0,
            q == n / x,
    ;
    assert(x * x + n <= x * (n + 1)) by (nonlinear_arith)
        requires
            1 <= x <= n,
    ;
    assert(x + q <= n + 1) by (nonlinear_arith)
        requires
            x >= 1,
            q * x <= n,
            x * x + n <= x * (n + 1),
    ;
}

/// One Newton step never falls below any `k` whose square fits in `n`.
proof fn lemma_newton_step_bounded_below(n: int, x: int, k: int)
    requires
        x > 0,
        0 <= k,
        k * k <= n,
    ensures
        (x + n / x) / 2 >= k,
{
    let q = n / x;
    assert(q * x <= n < (q + 1) * x) by (nonlinear_arith)
        requires
            x > 0,
            q == n / x,
    ;
    if x + q <= 2 * k - 1 {
        assert((q + 1) * x <= (2 * k - x) * x) by (nonlinear_arith)
            requires
                x > 0,
                q + 1 <= 2 * k - x,
        ;
        assert((2 * k - x) * x <= k * k) by (nonlinear_arith);
        assert(false);
    }
}

/// A Newton step from an `x` whose square exceeds `n` strictly decreases.
proof fn lemma_newton_step_decreases(n: int, x: int)
    requires
        x > 0,
        n >= 0,
        x * x > n,
    ensures
        (x + n / x) / 2 < x,
{
    let q = n / x;
    assert(q * x <= n) by (nonlinear_arith)
        requires
            x > 0,
            q == n / x,
    ;
    assert(q < x) by (nonlinear_arith)
        requires
            x > 0,
            q * x <= n,
            x * x > n,
    ;
}

/// `n / x` stays small when `x` is at least every root bound of `n`.
proof fn lemma_quotient_bound(n: int, x: int)
    requires
        0 < x,
        0 <= n < 0x1_0000_0000_0000_0000_0000_0000_0000_0000,
        forall|k: int| 0 <= k && #[trigger] square_fits(k, n) ==> k <= x,
    ensures
        n / x < 0x4000_0000_0000_0000_0000_0000_0000_0000,
{
    if n >= 0x4000_0000_0000_0000_0000_0000_0000_0000 {
        let k: int = 0x8000_0000_0000_0000;
        assert(k * k == 0x4000_0000_0000_0000_0000_0000_0000_0000);
        assert(square_fits(k, n));
        assert(k <= x);
        assert(n / x <= n / k) by (nonlinear_arith)
            requires
                0 < k <= x,
                n >= 0,
        ;
        assert(n / k < 0x2_0000_0000_0000_0000) by (nonlinear_arith)
            requires
                k == 0x8000_0000_0000_0000,
                0 <= n < 0x1_0000_0000_0000_0000_0000_0000_0000_0000,
        ;
    } else {
        assert(n / x <= n) by (nonlinear_arith)
            requires
                0 < x,
                n >= 0,
        ;
    }
}

/// Integer square root by Newton's iteration: the largest `r` with `r * r <= n`.
pub fn isqrt(n: u128) -> (r: u128)
    requires
        n < u128::MAX,
    ensures
        is_integer_sqrt(n as int, r as int),
{
    if n == 0 {
        assert(is_integer_sqrt(0, 0)) by (nonlinear_arith);
        return 0;
    }
    let mut x = n;
    let mut y = (x + 1) / 2;
    proof {
        assert(n / n == 1) by (nonlinear_arith)
            requires
                n > 0,
        ;
        assert forall|k: int| 0 <= k && #[trigger] square_fits(k, n as int) implies k <= x && k <= y by {
            lemma_newton_step_bounded_below(n as int, n as int, k);
            if k > x {
                assert(k * k > n) by (nonlinear_arith)
                    requires
                        k > x,
                        x == n,
                        n > 0,
                ;
            }
        }
    }
    while y < x
        invariant
            0 < n < u128::MAX,
            1 <= y,
            y <= (n + 1) / 2,
            x <= n,
            y == (x + n / x) / 2,
            forall|k: int| 0 <= k && #[trigger] square_fits(k, n as int) ==> k <= x && k <= y,
        decreases x,
    {
        x = y;
        proof {
            lemma_quotient_bound(n as int, x as int);
        }
        y = (x + n / x) / 2;
        proof {
            assert forall|k: int| 0 <= k && #[trigger] square_fits(k, n as int) implies k <= y by {
                lemma_newton_step_bounded_below(n as int, x as int, k);
            }
            lemma_newton_step_bounded_above(n as int, x as int);
            assert(square_fits(1, n as int));
        }
    }
    proof {
        if x * x > n {
            lemma_newton_step_decreases(n as int, x as int);
        }
        if (x + 1) * (x + 1) <= n {
            assert(square_fits(x + 1, n as int));
        }
    }
    x
}

/// Summary of a run of timing samples, in nanoseconds.
pub struct Stats {
    pub mean_ns: u128,
    pub std_ns: u128,
    pub min_ns: u128,
    pub max_ns: u128,
}

/// Sum of the samples.
pub open spec fn sample_sum(s: Seq<u128>) -> int
    decreases s.len(),
{
    if s.len() == 0 {
        0
    } else {
        sample_sum(s.drop_last()) + s.last()
    }
}

/// Squared distance of `x` from `mean`.
pub open spec fn squared_deviation(x: int, mean: int) -> int {
    (x - mean) * (x - mean)
}

/// Sum of the squared deviations of the samples from `mean`.
pub open spec fn squared_deviation_sum(s: Seq<u128>, mean: int) -> int
    decreases s.len(),
{
    if s.len() == 0 {
        0
    } else {
        squared_deviation_sum(s.drop_last(), mean) + squared_deviation(s.last() as int, mean)
    }
}

/// Smallest sample (of a non-empty sequence).
pub open spec fn sample_min(s: Seq<u128>) -> int
    decreases s.len(),
{
    if s.len() <= 1 {
        s[0] as int
    } else if s.last() < sample_min(s.drop_last()) {
        s.last() as int
    } else {
        sample_min(s.drop_last())
    }
}

/// Largest sample (of a non-empty sequence).
pub open spec fn sample_max(s: Seq<u128>) -> int
    decreases s.len(),
{
    if s.len() <= 1 {
        s[0] as int
    } else if s.last() > sample_max(s.drop_last()) {
        s.last() as int
    } else {
        sample_max(s.drop_last())
    }
}

/// Integer mean of the samples.
pub open spec fn sample_mean(s: Seq<u128>) -> int {
    sample_sum(s) / (s.len() as int)
}

/// Integer (population) variance of the samples.
pub open spec fn sample_variance(s: Seq<u128>) -> int {
    squared_deviation_sum(s, sample_mean(s)) / (s.len() as int)
}

/// The summary can be computed in 128-bit arithmetic: there is a sample, and
/// neither the sum nor the sum of squared deviations exceeds `u128::MAX`.
pub open spec fn summarizable(s: Seq<u128>) -> bool {
    &&& s.len() > 0
    &&& sample_sum(s) <= u128::MAX
    &&& squared_deviation_sum(s, sample_mean(s)) <= u128::MAX
}

/// What a summary of the samples holds.
pub open spec fn is_summary_of(st: Stats, s: Seq<u128>) -> bool {
    &&& st.mean_ns == sample_mean(s)
    &&& is_integer_sqrt(sample_variance(s), st.std_ns as int)
    &&& st.min_ns == sample_min(s)
    &&& st.max_ns == sample_max(s)
}

proof fn lemma_sample_sum_nonneg(s: Seq<u128>)
    ensures
        sample_sum(s) >= 0,
    decreases s.len(),
{
    if s.len() > 0 {
        lemma_sample_sum_nonneg(s.drop_last());
    }
}

proof fn lemma_squared_deviation_sum_nonneg(s: Seq<u128>, mean: int)
    ensures
        squared_deviation_sum(s, mean) >= 0,
    decreases s.len(),
{
    if s.len() > 0 {
        lemma_squared_deviation_sum_nonneg(s.drop_last(), mean);
        let d = s.last() - mean;
        assert(d * d >= 0) by (nonlinear_arith);
    }
}

/// Summarizes timing samples: integer mean, integer standard deviation (the
/// integer square root of the integer population variance), minimum and
/// maximum.  `None` when there is no sample or a sum leaves 128 bits.
pub fn summarize_samples(samples: &Vec<u128>) -> (res: Option<Stats>)
    ensures
        res is Some <==> summarizable(samples@),
        res matches Some(st) ==> is_summary_of(st, samples@),
{
    let len = samples.len();
    if len == 0 {
        return None;
    }
    let mut sum: u128 = 0;
    let mut i: usize = 0;
    while i < len
        invariant
            len == samples@.len(),
            i <= len,
            sum == sample_sum(samples@.take(i as int)),
        decreases len - i,
    {
        assert(samples@.take(i + 1).drop_last() == samples@.take(i as int));
        proof {
            lemma_sample_sum_nonneg(samples@.take(i as int));
        }
        let x = samples[i];
        match sum.checked_add(x) {
            Some(t) => {
                sum = t;
            },
            None => {
                proof {
                    lemma_sample_sum_prefix_le(samples@, i + 1);
                }
                return None;
            },
        }
        i = i + 1;
    }
    assert(samples@.take(len as int) == samples@);
    let mean: u128 = sum / (len as u128);
    let mut sq: u128 = 0;
    let mut j: usize = 0;
    while j < len
        invariant
            len == samples@.len(),
            j <= len,
            len > 0,
            sum == sample_sum(samples@),
            mean == sample_mean(samples@),
            sq == squared_deviation_sum(samples@.take(j as int), mean as int),
        decreases len - j,
    {
        assert(samples@.take(j + 1).drop_last() == samples@.take(j as int));
        let x = samples[j];
        let d: u128 = if x > mean { x - mean } else { mean - x };
        assert(d * d == squared_deviation(x as int, mean as int)) by (nonlinear_arith)
            requires
                d == if x > mean { x - mean } else { mean - x },
        ;
        let dd = match d.checked_mul(d) {
            Some(v) => v,
            None => {
                proof {
                    lemma_squared_deviation_sum_nonneg(samples@.take(j as int), mean as int);
                    lemma_squared_deviation_prefix_le(samples@, mean as int, j + 1);
                }
                return None;
            },
        };
        match sq.checked_add(dd) {
            Some(t) => {
                sq = t;
            },
            None => {
                proof {
                    lemma_squared_deviation_prefix_le(samples@, mean as int, j + 1);
                }
                return None;
            },
        }
        j = j + 1;
    }
    assert(samples@.take(len as int) == samples@);
    let variance: u128 = sq / (len as u128);
    assert(variance < u128::MAX) by {
        if len == 1 {
            let s0 = samples@.drop_last();
            assert(s0.len() == 0);
            assert(sample_sum(s0) == 0);
            assert(squared_deviation_sum(s0, mean as int) == 0);
            assert(sum == samples@[0]);
            assert(mean == sum) by (nonlinear_arith)
                requires
                    mean == sum / (len as u128),
                    len == 1,
            ;
            assert(squared_deviation(samples@[0] as int, mean as int) == 0) by (nonlinear_arith)
                requires
                    mean == samples@[0],
            ;
        } else {
            assert((sq as int) / (len as int) <= (sq as int) / 2) by (nonlinear_arith)
                requires
                    len >= 2,
                    sq >= 0,
            ;
        }
    }
    let std = isqrt(variance);
    let mut lo = samples[0];
    let mut hi = samples[0];
    let mut k: usize = 1;
    while k < len
        invariant
            len == samples@.len(),
            1 <= k <= len,
            lo == sample_min(samples@.take(k as int)),
            hi == sample_max(samples@.take(k as int)),
        decreases len - k,
    {
        assert(samples@.take(k + 1).drop_last() == samples@.take(k as int));
        let x = samples[k];
        if x < lo {
            lo = x;
        }
        if x > hi {
            hi = x;
        }
        k = k + 1;
    }
    assert(samples@.take(len as int) == samples@);
    Some(Stats { mean_ns: mean, std_ns: std, min_ns: lo, max_ns: hi })
}

/// A prefix sum never exceeds the whole sum.
proof fn lemma_sample_sum_prefix_le(s: Seq<u128>, n: int)
    requires
        0 <= n <= s.len(),
    ensures
        sample_sum(s.take(n)) <= sample_sum(s),
    decreases s.len(),
{
    if n < s.len() {
        assert(s.drop_last().take(n) == s.take(n));
        lemma_sample_sum_prefix_le(s.drop_last(), n);
    } else {
        assert(s.take(n) == s);
    }
}

/// A prefix sum of squared deviations never exceeds the whole sum.
proof fn lemma_squared_deviation_prefix_le(s: Seq<u128>, mean: int, n: int)
    requires
        0 <= n <= s.len(),
    ensures
        squared_deviation_sum(s.take(n), mean) <= squared_deviation_sum(s, mean),
    decreases s.len(),
{
    if n < s.len() {
        assert(s.drop_last().take(n) == s.take(n));
        lemma_squared_deviation_prefix_le(s.drop_last(), mean, n);
        let d = s.last() - mean;
        assert(d * d >= 0) by (nonlinear_arith);
    } else {
        assert(s.take(n) == s);
    }
}

/// The sum lies between the number of samples times the smallest and times
/// the largest sample.
proof fn lemma_sample_sum_bounds(s: Seq<u128>)
    requires
        s.len() > 0,
    ensures
        s.len() * sample_min(s) <= sample_sum(s) <= s.len() * sample_max(s),
    decreases s.len(),
{
    let d = s.drop_last();
    if s.len() == 1 {
        assert(d.len() == 0);
        assert(sample_sum(d) == 0);
    } else {
        lemma_sample_sum_bounds(d);
        let n = d.len() as int;
        let lo = sample_min(s);
        let hi = sample_max(s);
        let lo0 = sample_min(d);
        let hi0 = sample_max(d);
        assert(lo <= lo0 && lo <= s.last() && hi >= hi0 && hi >= s.last());
        assert(n * lo <= n * lo0 && n * hi0 <= n * hi) by (nonlinear_arith)
            requires
                n >= 0,
                lo <= lo0,
                hi >= hi0,
        ;
        assert((n + 1) * lo == n * lo + lo && (n + 1) * hi == n * hi + hi) by (nonlinear_arith);
    }
}

/// The integer mean of the samples lies between the smallest and the largest
/// sample.
pub proof fn law_mean_between_extremes(s: Seq<u128>)
    requires
        s.len() > 0,
    ensures
        sample_min(s) <= sample_mean(s) <= sample_max(s),
{
    lemma_sample_sum_bounds(s);
    let n = s.len() as int;
    let sum = sample_sum(s);
    let lo = sample_min(s);
    let hi = sample_max(s);
    assert(lo <= sum / n <= hi) by (nonlinear_arith)
        requires
            n > 0,
            n * lo <= sum <= n * hi,
    ;
}

} // verus!
