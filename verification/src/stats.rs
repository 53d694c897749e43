//! The rolling statistics kernel.
//!
//! All quantities are fixed-point integers in micro-units: a value `v`
//! stands for the real number `v / STAT_SCALE`. Divisions truncate
//! toward zero and the standard deviation is the integer square root
//! of the fixed-point variance; each function's contract states the
//! resulting integer formula exactly.

use std::collections::VecDeque;
use vstd::prelude::*;
use vstd::multiset::Multiset;
use vstd::seq_lib::lemma_multiset_commutative;

verus! {

/// Micro-units per whole unit: statistical values carry six decimal
/// places.
pub const STAT_SCALE: i64 = 1_000_000;

/// Bound on the magnitude of any sample handled by the kernel, so that
/// sums of squared deviations fit in `i128`.
pub const MAX_STAT: i64 = 1_000_000_000;

/// Bound on the number of samples handled by the kernel.
pub const MAX_SAMPLES: usize = 1_000_000;

/// Division truncating toward zero, as the `/` operator of the
/// executable code computes it.
pub open spec fn div_trunc(a: int, b: int) -> int {
    if a >= 0 {
        a / b
    } else {
        -((-a) / b)
    }
}

/// `r` is the integer square root of `x`.
pub open spec fn is_sqrt(r: int, x: int) -> bool {
    0 <= r && r * r <= x && x < (r + 1) * (r + 1)
}

/// The integer square root of a nonnegative `x`.
pub open spec fn spec_isqrt(x: int) -> int {
    choose|r: int| is_sqrt(r, x)
}

/// The integer square root is unique.
pub proof fn lemma_isqrt_unique(r1: int, r2: int, x: int)
    requires
        is_sqrt(r1, x),
        is_sqrt(r2, x),
    ensures
        r1 == r2,
{
    assert(r1 == r2) by (nonlinear_arith)
        requires
            0 <= r1 && r1 * r1 <= x && x < (r1 + 1) * (r1 + 1),
            0 <= r2 && r2 * r2 <= x && x < (r2 + 1) * (r2 + 1),
    ;
}

/// Sum of a sequence of samples.
pub open spec fn spec_sum(s: Seq<i64>) -> int
    decreases s.len(),
{
    if s.len() == 0 {
        0
    } else {
        spec_sum(s.drop_last()) + s.last()
    }
}

/// Truncated mean of a non-empty sequence.
pub open spec fn spec_mean(s: Seq<i64>) -> int {
    div_trunc(spec_sum(s), s.len() as int)
}

/// Sum of squared deviations from `mean`.
pub open spec fn spec_sq_dev_sum(s: Seq<i64>, mean: int) -> int
    decreases s.len(),
{
    if s.len() == 0 {
        0
    } else {
        spec_sq_dev_sum(s.drop_last(), mean) + (s.last() - mean) * (s.last() - mean)
    }
}

/// Population variance (dividing by the sample count) in squared
/// micro-units.
pub open spec fn spec_var(s: Seq<i64>) -> int {
    spec_sq_dev_sum(s, spec_mean(s)) / s.len() as int
}

/// Every sample's magnitude is at most `MAX_STAT`.
pub open spec fn samples_bounded(s: Seq<i64>) -> bool {
    forall|i: int| 0 <= i < s.len() ==> -MAX_STAT <= #[trigger] s[i] <= MAX_STAT
}

proof fn lemma_sum_bound(s: Seq<i64>)
    requires
        samples_bounded(s),
    ensures
        -(s.len() * MAX_STAT) <= spec_sum(s) <= s.len() * MAX_STAT,
    decreases s.len(),
{
    if s.len() > 0 {
        lemma_sum_bound(s.drop_last());
        assert((s.len() - 1) * MAX_STAT + MAX_STAT == s.len() * MAX_STAT) by (nonlinear_arith);
    }
}

proof fn lemma_sq_dev_sum_nonneg(s: Seq<i64>, mean: int)
    ensures
        spec_sq_dev_sum(s, mean) >= 0,
    decreases s.len(),
{
    if s.len() > 0 {
        lemma_sq_dev_sum_nonneg(s.drop_last(), mean);
        let d = s.last() - mean;
        assert(d * d >= 0) by (nonlinear_arith);
    }
}

proof fn lemma_sq_dev_sum_bound(s: Seq<i64>, mean: int, dev: int)
    requires
        samples_bounded(s),
        dev >= 0,
        -dev <= mean <= dev,
        dev >= MAX_STAT,
    ensures
        spec_sq_dev_sum(s, mean) <= s.len() * (4 * dev * dev),
    decreases s.len(),
{
    if s.len() > 0 {
        lemma_sq_dev_sum_bound(s.drop_last(), mean, dev);
        let d = s.last() - mean;
        assert(d * d <= 4 * dev * dev) by (nonlinear_arith)
            requires
                -dev <= mean <= dev,
                dev >= MAX_STAT,
                -MAX_STAT <= s.last() <= MAX_STAT,
                d == s.last() - mean,
        ;
        assert((s.len() - 1) * (4 * dev * dev) + 4 * dev * dev == s.len() * (4 * dev * dev))
            by (nonlinear_arith);
    }
}

/// Division truncating toward zero on machine integers.
pub fn div_trunc_i128(a: i128, b: i128) -> (r: i128)
    requires
        b > 0,
        a > i128::MIN,
    ensures
        r == div_trunc(a as int, b as int),
{
    if a >= 0 {
        a / b
    } else {
        let q: i128 = (-a) / b;
        proof {
            assert(0 <= (-a) as int / b as int <= -a) by (nonlinear_arith)
                requires
                    a < 0,
                    b > 0,
            ;
        }
        -q
    }
}

/// Integer square root: the greatest integer whose square does not
/// exceed `x`.
pub fn isqrt(x: u128) -> (r: u64)
    ensures
        is_sqrt(r as int, x as int),
        r == spec_isqrt(x as int),
{
    if x == 0 {
        proof {
            assert(is_sqrt(0, 0));
            lemma_isqrt_unique(spec_isqrt(0), 0, 0);
        }
        return 0;
    }
    let mut lo: u128 = 0;
    let mut hi: u128 = 0x1_0000_0000_0000_0000u128;
    proof {
        assert((0x1_0000_0000_0000_0000u128 as int) * (0x1_0000_0000_0000_0000u128 as int)
            > x as int) by (nonlinear_arith)
            requires
                x as int <= 0x1_0000_0000_0000_0000_0000_0000_0000_0000int - 1,
        ;
    }
    while lo + 1 < hi
        invariant
            0 <= lo < hi <= 0x1_0000_0000_0000_0000u128,
            (lo as int) * (lo as int) <= x as int,
            (x as int) < (hi as int) * (hi as int),
        decreases hi - lo,
    {
        let mid: u128 = lo + (hi - lo) / 2;
        if mid <= 0xFFFF_FFFF_FFFF_FFFFu128 {
            proof {
                assert((mid as int) * (mid as int)
                    <= 0x1_0000_0000_0000_0000_0000_0000_0000_0000int - 1) by (nonlinear_arith)
                    requires
                        0 <= mid as int <= 0xFFFF_FFFF_FFFF_FFFFu128 as int,
                ;
            }
            if mid * mid <= x {
                lo = mid;
            } else {
                hi = mid;
            }
        } else {
            proof {
                assert((mid as int) * (mid as int) > x as int) by (nonlinear_arith)
                    requires
                        mid as int >= 0x1_0000_0000_0000_0000int,
                        x as int <= 0x1_0000_0000_0000_0000_0000_0000_0000_0000int - 1,
                ;
            }
            hi = mid;
        }
    }
    proof {
        assert(lo < 0x1_0000_0000_0000_0000u128);
        assert(is_sqrt(lo as int, x as int));
        lemma_isqrt_unique(spec_isqrt(x as int), lo as int, x as int);
    }
    lo as u64
}

/// Truncated mean and integer-square-root standard deviation of a
/// window; `None` on an empty window.
pub fn mean_std(window: &VecDeque<i64>) -> (r: Option<(i64, i64)>)
    requires
        samples_bounded(window@),
        window@.len() <= MAX_SAMPLES,
    ensures
        window@.len() == 0 <==> r is None,
        r matches Some((mean, std)) ==> {
            &&& mean == spec_mean(window@)
            &&& -MAX_STAT <= mean <= MAX_STAT
            &&& 0 <= std <= 2_000_000_000_000
            &&& is_sqrt(std as int, spec_var(window@))
            &&& std == spec_isqrt(spec_var(window@))
        },
{
    let n: usize = window.len();
    if n == 0 {
        return None;
    }
    let mut sum: i128 = 0;
    let mut i: usize = 0;
    while i < n
        invariant
            0 <= i <= n,
            n == window@.len() <= MAX_SAMPLES,
            samples_bounded(window@),
            sum == spec_sum(window@.subrange(0, i as int)),
            -(i * MAX_STAT) <= sum <= i * MAX_STAT,
        decreases n - i,
    {
        proof {
            assert(window@.subrange(0, i + 1).drop_last() =~= window@.subrange(0, i as int));
            assert((i + 1) * MAX_STAT == i * MAX_STAT + MAX_STAT) by (nonlinear_arith);
        }
        sum = sum + window[i] as i128;
        i = i + 1;
    }
    proof {
        assert(window@.subrange(0, n as int) =~= window@);
    }
    let mean128: i128 = div_trunc_i128(sum, n as i128);
    proof {
        assert(-MAX_STAT <= mean128 <= MAX_STAT) by (nonlinear_arith)
            requires
                mean128 == div_trunc(sum as int, n as int),
                -((n as int) * MAX_STAT) <= sum as int <= (n as int) * MAX_STAT,
                1 <= n as int,
        ;
    }
    let mean: i64 = mean128 as i64;
    let mut sq: i128 = 0;
    let mut j: usize = 0;
    while j < n
        invariant
            0 <= j <= n,
            n == window@.len() <= MAX_SAMPLES,
            samples_bounded(window@),
            -MAX_STAT <= mean <= MAX_STAT,
            sq == spec_sq_dev_sum(window@.subrange(0, j as int), mean as int),
            0 <= sq <= j * (4 * (MAX_STAT as int) * (MAX_STAT as int)),
        decreases n - j,
    {
        proof {
            assert(window@.subrange(0, j + 1).drop_last() =~= window@.subrange(0, j as int));
            lemma_sq_dev_sum_nonneg(window@.subrange(0, j as int), mean as int);
            let d = window@[j as int] - mean;
            assert(0 <= d * d <= 4 * (MAX_STAT as int) * (MAX_STAT as int)) by (nonlinear_arith)
                requires
                    -MAX_STAT <= window@[j as int] <= MAX_STAT,
                    -MAX_STAT <= mean <= MAX_STAT,
                    d == window@[j as int] - mean,
            ;
            assert((j + 1) * (4 * (MAX_STAT as int) * (MAX_STAT as int)) == j * (4 * (
            MAX_STAT as int) * (MAX_STAT as int)) + 4 * (MAX_STAT as int) * (MAX_STAT as int))
                by (nonlinear_arith);
        }
        proof {
            assert(sq <= (MAX_SAMPLES as int) * (4 * (MAX_STAT as int) * (MAX_STAT as int)))
                by (nonlinear_arith)
                requires
                    sq <= (j as int) * (4 * (MAX_STAT as int) * (MAX_STAT as int)),
                    0 <= j as int <= MAX_SAMPLES as int,
            ;
        }
        let d: i128 = window[j] as i128 - mean as i128;
        sq = sq + d * d;
        j = j + 1;
    }
    proof {
        assert(window@.subrange(0, n as int) =~= window@);
    }
    let var: i128 = sq / n as i128;
    proof {
        assert(0 <= var <= sq) by (nonlinear_arith)
            requires
                sq >= 0,
                n as int >= 1,
                var == sq as int / n as int,
        ;
        assert(sq <= (MAX_SAMPLES as int) * (4 * (MAX_STAT as int) * (MAX_STAT as int)))
            by (nonlinear_arith)
            requires
                sq <= (n as int) * (4 * (MAX_STAT as int) * (MAX_STAT as int)),
                0 <= n as int <= MAX_SAMPLES as int,
        ;
    }
    let std: u64 = isqrt(var as u128);
    proof {
        assert(std as int <= 2_000_000_000_000int) by (nonlinear_arith)
            requires
                is_sqrt(std as int, var as int),
                var as int <= (MAX_SAMPLES as int) * (4 * (MAX_STAT as int) * (MAX_STAT as int)),
        ;
        lemma_isqrt_unique(std as int, spec_isqrt(spec_var(window@)), spec_var(window@));
    }
    Some((mean, std as i64))
}

/// Standard deviation over the last `len` samples of a window,
/// computed from raw and squared sums as `E[x^2] - mean^2`; `None`
/// when the window is empty or `len` is zero.
pub fn tail_std(window: &VecDeque<i64>, len: usize) -> (r: Option<i64>)
    requires
        samples_bounded(window@),
        window@.len() <= MAX_SAMPLES,
    ensures
        r is None <==> (window@.len() == 0 || len == 0),
        r matches Some(std) ==> {
            let tail = window@.subrange(
                if window@.len() >= len {
                    window@.len() - len as int
                } else {
                    0
                },
                window@.len() as int,
            );
            &&& 0 <= std <= 2_000_000_000_000
            &&& is_sqrt(std as int, spec_tail_var(tail))
            &&& std == spec_isqrt(spec_tail_var(tail))
        },
{
    let n: usize = window.len();
    if n == 0 || len == 0 {
        return None;
    }
    let start: usize = if n >= len {
        n - len
    } else {
        0
    };
    let ghost tail = window@.subrange(start as int, n as int);
    let mut sum: i128 = 0;
    let mut sum_sq: i128 = 0;
    let mut i: usize = start;
    while i < n
        invariant
            start <= i <= n,
            n == window@.len() <= MAX_SAMPLES,
            samples_bounded(window@),
            tail == window@.subrange(start as int, n as int),
            sum == spec_sum(window@.subrange(start as int, i as int)),
            sum_sq == spec_sq_dev_sum(window@.subrange(start as int, i as int), 0),
            -((i - start) * MAX_STAT) <= sum <= (i - start) * MAX_STAT,
            0 <= sum_sq <= (i - start) * (4 * (MAX_STAT as int) * (MAX_STAT as int)),
        decreases n - i,
    {
        proof {
            assert(window@.subrange(start as int, i + 1).drop_last() =~= window@.subrange(
                start as int,
                i as int,
            ));
            let k = i - start;
            assert((k + 1) * MAX_STAT == k * MAX_STAT + MAX_STAT) by (nonlinear_arith);
            let v = window@[i as int] as int;
            assert(0 <= v * v <= 4 * (MAX_STAT as int) * (MAX_STAT as int)) by (nonlinear_arith)
                requires
                    -MAX_STAT <= v <= MAX_STAT,
            ;
            assert((k + 1) * (4 * (MAX_STAT as int) * (MAX_STAT as int)) == k * (4 * (
            MAX_STAT as int) * (MAX_STAT as int)) + 4 * (MAX_STAT as int) * (MAX_STAT as int))
                by (nonlinear_arith);
        }
        proof {
            assert(sum_sq <= (MAX_SAMPLES as int) * (4 * (MAX_STAT as int) * (MAX_STAT as int)))
                by (nonlinear_arith)
                requires
                    sum_sq <= (i as int - start as int) * (4 * (MAX_STAT as int) * (
                    MAX_STAT as int)),
                    0 <= i as int - start as int <= MAX_SAMPLES as int,
            ;
        }
        let v: i128 = window[i] as i128;
        sum = sum + v;
        sum_sq = sum_sq + v * v;
        i = i + 1;
    }
    let count: i128 = (n - start) as i128;
    let mean: i128 = div_trunc_i128(sum, count);
    proof {
        assert(-MAX_STAT <= mean <= MAX_STAT) by (nonlinear_arith)
            requires
                mean == div_trunc(sum as int, count as int),
                -((count as int) * MAX_STAT) <= sum as int <= (count as int) * MAX_STAT,
                1 <= count as int,
        ;
    }
    let ex2: i128 = sum_sq / count;
    proof {
        assert(0 <= ex2 <= sum_sq) by (nonlinear_arith)
            requires
                sum_sq >= 0,
                count as int >= 1,
                ex2 == sum_sq as int / count as int,
        ;
        assert(mean * mean <= (MAX_STAT as int) * (MAX_STAT as int)) by (nonlinear_arith)
            requires
                -MAX_STAT <= mean as int <= MAX_STAT,
        ;
    }
    proof {
        assert(sum_sq <= (MAX_SAMPLES as int) * (4 * (MAX_STAT as int) * (MAX_STAT as int)))
            by (nonlinear_arith)
            requires
                sum_sq <= (n as int - start as int) * (4 * (MAX_STAT as int) * (MAX_STAT as int)),
                0 <= n as int - start as int <= MAX_SAMPLES as int,
        ;
    }
    proof {
        assert(0 <= mean * mean <= (MAX_STAT as int) * (MAX_STAT as int)) by (nonlinear_arith)
            requires
                -MAX_STAT <= mean as int <= MAX_STAT,
        ;
    }
    let raw_var: i128 = ex2 - mean * mean;
    let var: i128 = if raw_var > 0 {
        raw_var
    } else {
        0
    };
    proof {
        assert(tail =~= window@.subrange(start as int, n as int));
        assert(var == spec_tail_var(tail));
    }
    let std: u64 = isqrt(var as u128);
    proof {
        assert(var <= (MAX_SAMPLES as int) * (4 * (MAX_STAT as int) * (MAX_STAT as int)));
        assert(std as int <= 2_000_000_000_000int) by (nonlinear_arith)
            requires
                is_sqrt(std as int, var as int),
                var as int <= (MAX_SAMPLES as int) * (4 * (MAX_STAT as int) * (MAX_STAT as int)),
        ;
        lemma_isqrt_unique(std as int, spec_isqrt(spec_tail_var(tail)), spec_tail_var(tail));
    }
    Some(std as i64)
}

/// Variance of a tail window as `E[x^2] - mean^2`, clamped at zero.
pub open spec fn spec_tail_var(s: Seq<i64>) -> int {
    let mean = spec_mean(s);
    let ex2 = spec_sq_dev_sum(s, 0) / s.len() as int;
    if ex2 - mean * mean > 0 {
        ex2 - mean * mean
    } else {
        0
    }
}

/// The truncated mean of a constant series is that constant and its
/// variance is zero, so the reported standard deviation is zero.
pub proof fn lemma_mean_std_constant(s: Seq<i64>, c: i64, std: int)
    requires
        s.len() >= 1,
        forall|i: int| 0 <= i < s.len() ==> s[i] == c,
        is_sqrt(std, spec_var(s)),
    ensures
        spec_mean(s) == c,
        spec_var(s) == 0,
        std == 0,
{
    lemma_sum_constant(s, c);
    let n = s.len() as int;
    assert(div_trunc(n * c, n) == c) by (nonlinear_arith)
        requires
            n >= 1,
    ;
    lemma_sq_dev_constant(s, c);
    assert(spec_sq_dev_sum(s, c as int) / n == 0) by (nonlinear_arith)
        requires
            n >= 1,
            spec_sq_dev_sum(s, c as int) == 0,
    ;
    assert(std == 0) by (nonlinear_arith)
        requires
            is_sqrt(std, 0),
    ;
}

proof fn lemma_sum_constant(s: Seq<i64>, c: i64)
    requires
        forall|i: int| 0 <= i < s.len() ==> s[i] == c,
    ensures
        spec_sum(s) == s.len() * c,
    decreases s.len(),
{
    if s.len() > 0 {
        lemma_sum_constant(s.drop_last(), c);
        assert((s.len() - 1) * c + c == s.len() * c) by (nonlinear_arith);
    }
}

proof fn lemma_sq_dev_constant(s: Seq<i64>, c: i64)
    requires
        forall|i: int| 0 <= i < s.len() ==> s[i] == c,
    ensures
        spec_sq_dev_sum(s, c as int) == 0,
    decreases s.len(),
{
    if s.len() > 0 {
        assert(forall|i: int|
            0 <= i < s.drop_last().len() ==> s.drop_last()[i] == c);
        lemma_sq_dev_constant(s.drop_last(), c);
        assert(s.last() == s[s.len() - 1]);
        assert(s.last() == c);
    }
}


/// Adjacent-sorted ascending.
pub open spec fn spec_sorted_le(s: Seq<i64>) -> bool {
    forall|i: int| 0 <= i < s.len() - 1 ==> #[trigger] s[i] <= s[i + 1]
}

/// Inserts a value into a sorted list, keeping it sorted; the new list
/// holds exactly the old values plus the new one.
fn insert_sorted_value(v: &mut Vec<i64>, x: i64)
    requires
        spec_sorted_le(old(v)@),
    ensures
        spec_sorted_le(final(v)@),
        final(v)@.len() == old(v)@.len() + 1,
        final(v)@.to_multiset() == old(v)@.to_multiset().insert(x),
{
    let ghost dv = v@;
    let mut pos: usize = 0;
    let n: usize = v.len();
    while pos < n && v[pos] <= x
        invariant
            0 <= pos <= n,
            n == v@.len(),
            dv == v@,
            spec_sorted_le(dv),
            forall|j: int| 0 <= j < pos ==> #[trigger] dv[j] <= x,
        decreases n - pos,
    {
        pos = pos + 1;
    }
    v.insert(pos, x);
    proof {
        let ndv = v@;
        assert(ndv == dv.insert(pos as int, x));
        let prefix = dv.subrange(0, pos as int);
        let suffix = dv.subrange(pos as int, dv.len() as int);
        assert(ndv =~= prefix.push(x) + suffix);
        assert(forall|j: int| 0 <= j < pos ==> #[trigger] ndv[j] == dv[j]);
        assert(ndv[pos as int] == x);
        assert(forall|j: int| pos < j < ndv.len() ==> #[trigger] ndv[j] == dv[j - 1]);
        assert forall|i: int| 0 <= i < ndv.len() - 1 implies #[trigger] ndv[i] <= ndv[i + 1] by {
            if i + 1 < pos {
                assert(ndv[i] == dv[i] && ndv[i + 1] == dv[i + 1]);
            } else if i + 1 == pos {
                assert(ndv[i] == dv[i] && ndv[i + 1] == x);
            } else if i == pos {
                if pos < dv.len() {
                    assert(ndv[i + 1] == dv[i]);
                    assert(x < dv[pos as int]);
                }
            } else {
                assert(ndv[i] == dv[i - 1] && ndv[i + 1] == dv[i]);
            }
        }
        broadcast use vstd::seq_lib::group_to_multiset_ensures;

        assert(dv =~= prefix + suffix);
        lemma_multiset_commutative(prefix, suffix);
        lemma_multiset_commutative(prefix.push(x), suffix);
        assert(prefix.push(x).to_multiset() =~= prefix.to_multiset().insert(x));
        assert(ndv.to_multiset() =~= prefix.to_multiset().insert(x).add(suffix.to_multiset()));
        assert(prefix.to_multiset().insert(x).add(suffix.to_multiset()) =~= prefix.to_multiset()
            .add(suffix.to_multiset()).insert(x));
        assert(ndv.to_multiset() =~= dv.to_multiset().insert(x));
    }
}

/// The median volatility across pairs: the middle element of the
/// volatilities in ascending order (the upper of the two middles for
/// an even count), floored at one micro-unit; one whole unit when no
/// pair reports a volatility.
pub fn vol_median(vols: &Vec<i64>) -> (r: i64)
    ensures
        vols@.len() == 0 ==> r == STAT_SCALE,
        vols@.len() >= 1 ==> exists|s: Seq<i64>|
            {
                &&& spec_sorted_le(s)
                &&& s.to_multiset() == vols@.to_multiset()
                &&& s.len() == vols@.len()
                &&& r == (if s[s.len() as int / 2] >= 1 {
                    s[s.len() as int / 2] as int
                } else {
                    1int
                })
            },
{
    let n: usize = vols.len();
    if n == 0 {
        return STAT_SCALE;
    }
    let mut sorted: Vec<i64> = Vec::new();
    let mut i: usize = 0;
    proof {
        broadcast use vstd::seq_lib::group_to_multiset_ensures;

        assert(vols@.subrange(0, 0).to_multiset() =~= Multiset::<i64>::empty());
        assert(Seq::<i64>::empty().to_multiset() =~= Multiset::<i64>::empty());
    }
    while i < n
        invariant
            0 <= i <= n,
            n == vols@.len(),
            sorted@.len() == i,
            spec_sorted_le(sorted@),
            sorted@.to_multiset() == vols@.subrange(0, i as int).to_multiset(),
        decreases n - i,
    {
        proof {
            broadcast use vstd::seq_lib::group_to_multiset_ensures;

            assert(vols@.subrange(0, i + 1) =~= vols@.subrange(0, i as int).push(
                vols@[i as int],
            ));
            assert(vols@.subrange(0, i + 1).to_multiset() =~= vols@.subrange(
                0,
                i as int,
            ).to_multiset().insert(vols@[i as int]));
        }
        insert_sorted_value(&mut sorted, vols[i]);
        i = i + 1;
    }
    proof {
        assert(vols@.subrange(0, n as int) =~= vols@);
    }
    let mid: i64 = sorted[n / 2];
    let r: i64 = if mid >= 1 {
        mid
    } else {
        1
    };
    proof {
        let s = sorted@;
        assert(spec_sorted_le(s) && s.to_multiset() == vols@.to_multiset() && s.len()
            == vols@.len() && r == (if s[s.len() as int / 2] >= 1 {
            s[s.len() as int / 2] as int
        } else {
            1int
        }));
    }
    r
}

} // verus!
