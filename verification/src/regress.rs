//! Hedge-ratio regression, the AR(1) stationarity proxy and the
//! half-life of mean reversion.
//!
//! All inputs and outputs are fixed-point integers in micro-units (see
//! `stats`). Divisions truncate toward zero; a vanishing variance is
//! guarded by an exact zero test, and the half-life is the least whole
//! number of bars after which the fixed-point AR(1) decay falls to one
//! half.

use vstd::prelude::*;

use crate::stats::{div_trunc, div_trunc_i128, isqrt, spec_isqrt, MAX_SAMPLES, MAX_STAT,
    STAT_SCALE};

verus! {

/// Bound on the magnitude of a spread sample fed to the AR(1) fit, so
/// that one-bar differences stay within `MAX_STAT`.
pub const MAX_SPREAD: i64 = 500_000_000;

/// Clamp to a closed interval.
pub open spec fn clamp_int(v: int, lo: int, hi: int) -> int {
    if v < lo {
        lo
    } else if v > hi {
        hi
    } else {
        v
    }
}

/// Sum of the first `k` elements.
pub open spec fn spec_sum_prefix(s: Seq<i64>, k: int) -> int
    decreases k,
{
    if k <= 0 {
        0
    } else {
        spec_sum_prefix(s, k - 1) + s[k - 1]
    }
}

/// Sum over the first `k` indices of `(xs[i] - mx) * (ys[i] - my)`.
pub open spec fn spec_cov_prefix(xs: Seq<i64>, ys: Seq<i64>, mx: int, my: int, k: int) -> int
    decreases k,
{
    if k <= 0 {
        0
    } else {
        spec_cov_prefix(xs, ys, mx, my, k - 1) + (xs[k - 1] - mx) * (ys[k - 1] - my)
    }
}

/// The ordinary-least-squares slope of `ys` on `xs` over their common
/// prefix, in micro-units, clamped to `[0.1, 10.0]`; one when fewer
/// than two samples are available or the regressor variance vanishes.
pub open spec fn spec_beta(xs: Seq<i64>, ys: Seq<i64>) -> int {
    let n = if xs.len() <= ys.len() {
        xs.len() as int
    } else {
        ys.len() as int
    };
    if n < 2 {
        STAT_SCALE as int
    } else {
        let mx = div_trunc(spec_sum_prefix(xs, n), n);
        let my = div_trunc(spec_sum_prefix(ys, n), n);
        let cov = spec_cov_prefix(xs, ys, mx, my, n);
        let varx = spec_cov_prefix(xs, xs, mx, mx, n);
        if varx == 0 {
            STAT_SCALE as int
        } else {
            clamp_int(div_trunc(cov * (STAT_SCALE as int), varx), 100_000, 10_000_000)
        }
    }
}

proof fn lemma_cov_self_nonneg(xs: Seq<i64>, mx: int, k: int)
    ensures
        spec_cov_prefix(xs, xs, mx, mx, k) >= 0,
    decreases k,
{
    if k > 0 {
        lemma_cov_self_nonneg(xs, mx, k - 1);
        let d = xs[k - 1] - mx;
        assert(d * d >= 0) by (nonlinear_arith);
    }
}

proof fn lemma_sum_prefix_bound(s: Seq<i64>, k: int, b: int)
    requires
        0 <= k <= s.len(),
        b >= 0,
        forall|i: int| 0 <= i < s.len() ==> -b <= #[trigger] s[i] <= b,
    ensures
        -(k * b) <= spec_sum_prefix(s, k) <= k * b,
    decreases k,
{
    if k > 0 {
        lemma_sum_prefix_bound(s, k - 1, b);
        assert((k - 1) * b + b == k * b) by (nonlinear_arith);
    }
}

proof fn lemma_cov_prefix_bound(xs: Seq<i64>, ys: Seq<i64>, mx: int, my: int, k: int, b: int)
    requires
        0 <= k <= xs.len(),
        k <= ys.len(),
        b >= 0,
        forall|i: int| 0 <= i < xs.len() ==> -b <= #[trigger] xs[i] <= b,
        forall|i: int| 0 <= i < ys.len() ==> -b <= #[trigger] ys[i] <= b,
        -b <= mx <= b,
        -b <= my <= b,
    ensures
        -(k * (4 * b * b)) <= spec_cov_prefix(xs, ys, mx, my, k) <= k * (4 * b * b),
    decreases k,
{
    if k > 0 {
        lemma_cov_prefix_bound(xs, ys, mx, my, k - 1, b);
        let p = (xs[k - 1] - mx) * (ys[k - 1] - my);
        assert(-(4 * b * b) <= p <= 4 * b * b) by (nonlinear_arith)
            requires
                -b <= xs[k - 1] <= b,
                -b <= ys[k - 1] <= b,
                -b <= mx <= b,
                -b <= my <= b,
                p == (xs[k - 1] - mx) * (ys[k - 1] - my),
        ;
        assert((k - 1) * (4 * b * b) + 4 * b * b == k * (4 * b * b)) by (nonlinear_arith);
    }
}

/// Sum of the first `n` elements, where every element's magnitude is
/// at most `b`.
fn prefix_sum(s: &Vec<i64>, n: usize, b: i64) -> (r: i128)
    requires
        n <= s@.len() <= MAX_SAMPLES,
        0 <= b <= MAX_STAT,
        forall|i: int| 0 <= i < s@.len() ==> -b <= #[trigger] s@[i] <= b,
    ensures
        r == spec_sum_prefix(s@, n as int),
        -((n as int) * b) <= r <= (n as int) * b,
{
    let mut sum: i128 = 0;
    let mut i: usize = 0;
    while i < n
        invariant
            0 <= i <= n <= s@.len() <= MAX_SAMPLES,
            0 <= b <= MAX_STAT,
            forall|j: int| 0 <= j < s@.len() ==> -b <= #[trigger] s@[j] <= b,
            sum == spec_sum_prefix(s@, i as int),
            -((i as int) * b) <= sum <= (i as int) * b,
        decreases n - i,
    {
        proof {
            assert((i as int + 1) * b == (i as int) * b + b) by (nonlinear_arith);
            assert((i as int) * b <= (MAX_SAMPLES as int) * (MAX_STAT as int)) by (nonlinear_arith)
                requires
                    0 <= i as int <= MAX_SAMPLES as int,
                    0 <= b <= MAX_STAT,
            ;
        }
        sum = sum + s[i] as i128;
        i = i + 1;
    }
    sum
}

/// Sum of the deviation products over the first `n` index pairs.
fn cov_sum(xs: &Vec<i64>, ys: &Vec<i64>, n: usize, mx: i64, my: i64, b: i64) -> (r: i128)
    requires
        n <= xs@.len() <= MAX_SAMPLES,
        n <= ys@.len() <= MAX_SAMPLES,
        0 <= b <= MAX_STAT,
        forall|i: int| 0 <= i < xs@.len() ==> -b <= #[trigger] xs@[i] <= b,
        forall|i: int| 0 <= i < ys@.len() ==> -b <= #[trigger] ys@[i] <= b,
        -b <= mx <= b,
        -b <= my <= b,
    ensures
        r == spec_cov_prefix(xs@, ys@, mx as int, my as int, n as int),
        -((n as int) * (4 * b * b)) <= r <= (n as int) * (4 * b * b),
{
    let mut sum: i128 = 0;
    let mut i: usize = 0;
    while i < n
        invariant
            0 <= i <= n,
            n <= xs@.len() <= MAX_SAMPLES,
            n <= ys@.len() <= MAX_SAMPLES,
            0 <= b <= MAX_STAT,
            forall|j: int| 0 <= j < xs@.len() ==> -b <= #[trigger] xs@[j] <= b,
            forall|j: int| 0 <= j < ys@.len() ==> -b <= #[trigger] ys@[j] <= b,
            -b <= mx <= b,
            -b <= my <= b,
            sum == spec_cov_prefix(xs@, ys@, mx as int, my as int, i as int),
            -((i as int) * (4 * (b as int) * (b as int))) <= sum <= (i as int) * (4 * (b as int) * (
            b as int)),
        decreases n - i,
    {
        let dx: i128 = xs[i] as i128 - mx as i128;
        let dy: i128 = ys[i] as i128 - my as i128;
        proof {
            assert(-(4 * (b as int) * (b as int)) <= dx * dy <= 4 * (b as int) * (b as int))
                by (nonlinear_arith)
                requires
                    -b <= xs@[i as int] <= b,
                    -b <= ys@[i as int] <= b,
                    -b <= mx <= b,
                    -b <= my <= b,
                    dx == xs@[i as int] - mx,
                    dy == ys@[i as int] - my,
            ;
            assert((i as int + 1) * (4 * (b as int) * (b as int)) == (i as int) * (4 * (b as int) * (
            b as int)) + 4 * (b as int) * (b as int)) by (nonlinear_arith);
            assert((i as int) * (4 * (b as int) * (b as int)) <= (MAX_SAMPLES as int) * (4 * (
            MAX_STAT as int) * (MAX_STAT as int))) by (nonlinear_arith)
                requires
                    0 <= i as int <= MAX_SAMPLES as int,
                    0 <= b <= MAX_STAT,
            ;
            assert(4 * (b as int) * (b as int) <= 4 * (MAX_STAT as int) * (MAX_STAT as int))
                by (nonlinear_arith)
                requires
                    0 <= b <= MAX_STAT,
            ;
        }
        sum = sum + dx * dy;
        i = i + 1;
    }
    sum
}

/// The ordinary-least-squares hedge ratio of `ys` on `xs`, in
/// micro-units, clamped to `[0.1, 10.0]`.
pub fn regression_beta(xs: &Vec<i64>, ys: &Vec<i64>) -> (r: i64)
    requires
        xs@.len() <= MAX_SAMPLES,
        ys@.len() <= MAX_SAMPLES,
        forall|i: int| 0 <= i < xs@.len() ==> -MAX_STAT <= #[trigger] xs@[i] <= MAX_STAT,
        forall|i: int| 0 <= i < ys@.len() ==> -MAX_STAT <= #[trigger] ys@[i] <= MAX_STAT,
    ensures
        r == spec_beta(xs@, ys@),
        100_000 <= r <= 10_000_000,
{
    let n: usize = if xs.len() <= ys.len() {
        xs.len()
    } else {
        ys.len()
    };
    if n < 2 {
        return STAT_SCALE;
    }
    let sum_x: i128 = prefix_sum(xs, n, MAX_STAT);
    let sum_y: i128 = prefix_sum(ys, n, MAX_STAT);
    let mx128: i128 = div_trunc_i128(sum_x, n as i128);
    let my128: i128 = div_trunc_i128(sum_y, n as i128);
    proof {
        assert(-MAX_STAT <= mx128 <= MAX_STAT && -MAX_STAT <= my128 <= MAX_STAT)
            by (nonlinear_arith)
            requires
                mx128 == div_trunc(sum_x as int, n as int),
                my128 == div_trunc(sum_y as int, n as int),
                -((n as int) * MAX_STAT) <= sum_x as int <= (n as int) * MAX_STAT,
                -((n as int) * MAX_STAT) <= sum_y as int <= (n as int) * MAX_STAT,
                1 <= n as int,
        ;
    }
    let mx: i64 = mx128 as i64;
    let my: i64 = my128 as i64;
    let cov: i128 = cov_sum(xs, ys, n, mx, my, MAX_STAT);
    let varx: i128 = cov_sum(xs, xs, n, mx, mx, MAX_STAT);
    proof {
        lemma_cov_self_nonneg(xs@, mx as int, n as int);
        assert((n as int) * (4 * (MAX_STAT as int) * (MAX_STAT as int)) <= (MAX_SAMPLES as int) * (4
            * (MAX_STAT as int) * (MAX_STAT as int))) by (nonlinear_arith)
            requires
                0 <= n as int <= MAX_SAMPLES as int,
        ;
    }
    if varx == 0 {
        return STAT_SCALE;
    }
    let scaled: i128 = cov * STAT_SCALE as i128;
    let q: i128 = div_trunc_i128(scaled, varx);
    proof {
        assert(scaled > i128::MIN) by (nonlinear_arith)
            requires
                -((MAX_SAMPLES as int) * (4 * (MAX_STAT as int) * (MAX_STAT as int))) <= cov as int
                    <= (MAX_SAMPLES as int) * (4 * (MAX_STAT as int) * (MAX_STAT as int)),
                scaled == cov as int * (STAT_SCALE as int),
        ;
    }
    let clamped: i128 = if q < 100_000 {
        100_000
    } else if q > 10_000_000 {
        10_000_000
    } else {
        q
    };
    clamped as i64
}

/// The hedge ratio of a series on itself is exactly one.
pub proof fn lemma_beta_self(s: Seq<i64>)
    ensures
        spec_beta(s, s) == STAT_SCALE,
{
    let n = s.len() as int;
    if n >= 2 {
        let mx = div_trunc(spec_sum_prefix(s, n), n);
        let varx = spec_cov_prefix(s, s, mx, mx, n);
        lemma_cov_self_nonneg(s, mx, n);
        if varx != 0 {
            assert(div_trunc(varx * (STAT_SCALE as int), varx) == STAT_SCALE)
                by (nonlinear_arith)
                requires
                    varx >= 1,
            ;
        }
    }
}

/// Linear interpolation in micro-units between two table rows.
pub open spec fn spec_lerp(a: int, b: int, num: int, den: int) -> int {
    a + div_trunc(num * (b - a), den)
}

/// Dickey-Fuller critical values (test with a constant), interpolated
/// linearly by sample size between tabulated rows at 25, 50, 100, 250
/// and 500 samples; clamped to the end rows outside that range. The
/// result is `(c1, c5, c10)` in micro-units.
pub open spec fn spec_df_crits(n: int) -> (int, int, int) {
    if n <= 25 {
        (-3_750_000, -3_000_000, -2_630_000)
    } else if n <= 50 {
        (
            spec_lerp(-3_750_000, -3_580_000, n - 25, 25),
            spec_lerp(-3_000_000, -2_930_000, n - 25, 25),
            spec_lerp(-2_630_000, -2_600_000, n - 25, 25),
        )
    } else if n <= 100 {
        (
            spec_lerp(-3_580_000, -3_510_000, n - 50, 50),
            spec_lerp(-2_930_000, -2_890_000, n - 50, 50),
            spec_lerp(-2_600_000, -2_580_000, n - 50, 50),
        )
    } else if n <= 250 {
        (
            spec_lerp(-3_510_000, -3_460_000, n - 100, 150),
            spec_lerp(-2_890_000, -2_880_000, n - 100, 150),
            spec_lerp(-2_580_000, -2_570_000, n - 100, 150),
        )
    } else if n <= 500 {
        (
            spec_lerp(-3_460_000, -3_440_000, n - 250, 250),
            spec_lerp(-2_880_000, -2_870_000, n - 250, 250),
            spec_lerp(-2_570_000, -2_570_000, n - 250, 250),
        )
    } else {
        (-3_440_000, -2_870_000, -2_570_000)
    }
}

/// The Dickey-Fuller p-value bucket for a t-statistic at `n` samples:
/// 0.005, 0.025, 0.075 or 0.5 in micro-units.
pub open spec fn spec_df_p(t: int, n: int) -> int {
    let c = spec_df_crits(n);
    if t < c.0 {
        5_000
    } else if t < c.1 {
        25_000
    } else if t < c.2 {
        75_000
    } else {
        500_000
    }
}

fn lerp(a: i64, b: i64, num: i64, den: i64) -> (r: i64)
    requires
        -4_000_000 <= a <= 0,
        -4_000_000 <= b <= 0,
        0 <= num <= den,
        1 <= den <= 1_000,
    ensures
        r == spec_lerp(a as int, b as int, num as int, den as int),
        -4_000_000 <= r <= 0,
{
    let diff: i64 = b - a;
    proof {
        assert(-4_000_000_000int <= num as int * diff as int <= 4_000_000_000int)
            by (nonlinear_arith)
            requires
                0 <= num <= 1_000,
                -4_000_000 <= diff as int <= 4_000_000,
        ;
    }
    let prod: i128 = num as i128 * diff as i128;
    let adj: i128 = div_trunc_i128(prod, den as i128);
    proof {
        assert(prod == num as int * (b as int - a as int));
        if diff >= 0 {
            assert(0 <= prod as int <= (den as int) * (diff as int)) by (nonlinear_arith)
                requires
                    0 <= num <= den,
                    diff >= 0,
                    prod == num as int * (diff as int),
            ;
            assert(0 <= adj as int <= diff as int) by (nonlinear_arith)
                requires
                    adj == div_trunc(prod as int, den as int),
                    0 <= prod as int <= (den as int) * (diff as int),
                    1 <= den,
            ;
        } else {
            assert((den as int) * (diff as int) <= prod as int <= 0) by (nonlinear_arith)
                requires
                    0 <= num <= den,
                    diff < 0,
                    prod == num as int * (diff as int),
            ;
            assert(diff as int <= adj as int <= 0) by (nonlinear_arith)
                requires
                    adj == div_trunc(prod as int, den as int),
                    (den as int) * (diff as int) <= prod as int <= 0,
                    1 <= den,
            ;
        }
    }
    a + adj as i64
}

/// The Dickey-Fuller p-value bucket for a t-statistic in micro-units.
pub fn df_p_value(t: i64, n: usize) -> (r: i64)
    requires
        n <= MAX_SAMPLES,
    ensures
        r == spec_df_p(t as int, n as int),
        0 < r <= STAT_SCALE,
{
    let (c1, c5, c10): (i64, i64, i64) = if n <= 25 {
        (-3_750_000, -3_000_000, -2_630_000)
    } else if n <= 50 {
        let k: i64 = (n - 25) as i64;
        (
            lerp(-3_750_000, -3_580_000, k, 25),
            lerp(-3_000_000, -2_930_000, k, 25),
            lerp(-2_630_000, -2_600_000, k, 25),
        )
    } else if n <= 100 {
        let k: i64 = (n - 50) as i64;
        (
            lerp(-3_580_000, -3_510_000, k, 50),
            lerp(-2_930_000, -2_890_000, k, 50),
            lerp(-2_600_000, -2_580_000, k, 50),
        )
    } else if n <= 250 {
        let k: i64 = (n - 100) as i64;
        (
            lerp(-3_510_000, -3_460_000, k, 150),
            lerp(-2_890_000, -2_880_000, k, 150),
            lerp(-2_580_000, -2_570_000, k, 150),
        )
    } else if n <= 500 {
        let k: i64 = (n - 250) as i64;
        (
            lerp(-3_460_000, -3_440_000, k, 250),
            lerp(-2_880_000, -2_870_000, k, 250),
            lerp(-2_570_000, -2_570_000, k, 250),
        )
    } else {
        (-3_440_000, -2_870_000, -2_570_000)
    };
    if t < c1 {
        5_000
    } else if t < c5 {
        25_000
    } else if t < c10 {
        75_000
    } else {
        500_000
    }
}

/// One fixed-point AR(1) decay step: multiply by `ar` micro-units and
/// truncate.
pub open spec fn pow_fp(ar: int, k: nat) -> int
    decreases k,
{
    if k == 0 {
        STAT_SCALE as int
    } else {
        pow_fp(ar, (k - 1) as nat) * ar / (STAT_SCALE as int)
    }
}

/// The half-life of mean reversion, in whole bars: the least number of
/// bars after which the fixed-point decay `(1 + phi)^k` falls to one
/// half. `None` stands for an infinite half-life, reported exactly
/// when `phi >= 0` (no mean reversion). When `phi == 0` (a pure random
/// walk) the half-life is therefore infinite.
pub fn half_life_bars(phi: i64) -> (r: Option<u64>)
    requires
        -999_000 <= phi <= 999_000,
    ensures
        r is None <==> phi >= 0,
        r matches Some(k) ==> {
            let ar = STAT_SCALE + phi;
            &&& 1 <= k <= STAT_SCALE
            &&& pow_fp(ar, k as nat) <= 500_000
            &&& forall|j: nat| j < k ==> pow_fp(ar, j) > 500_000
        },
{
    if phi >= 0 {
        return None;
    }
    let ar: i64 = STAT_SCALE + phi;
    let mut p: i64 = STAT_SCALE;
    let mut k: u64 = 0;
    while p > 500_000
        invariant
            1_000 <= ar < STAT_SCALE,
            0 <= p <= STAT_SCALE,
            p == pow_fp(ar as int, k as nat),
            p + k <= STAT_SCALE,
            forall|j: nat| j < k ==> pow_fp(ar as int, j) > 500_000,
        decreases p,
    {
        proof {
            assert(0 <= p as int * ar as int <= 1_000_000_000_000int && 0 <= (p as int
                * ar as int) / (STAT_SCALE as int) < p) by (nonlinear_arith)
                requires
                    1 <= p <= STAT_SCALE,
                    1_000 <= ar < STAT_SCALE,
                    STAT_SCALE == 1_000_000,
            ;
        }
        let prod: i128 = p as i128 * ar as i128;
        let next: i64 = (prod / STAT_SCALE as i128) as i64;
        proof {
            assert(pow_fp(ar as int, (k + 1) as nat) == pow_fp(ar as int, k as nat) * ar / (
            STAT_SCALE as int));
        }
        p = next;
        k = k + 1;
    }
    Some(k)
}


/// The lagged levels of a spread series: all samples but the last.
pub open spec fn spec_steps_x(s: Seq<i64>) -> Seq<i64> {
    s.subrange(0, s.len() - 1)
}

/// The one-bar differences of a spread series.
pub open spec fn spec_steps_dy(s: Seq<i64>) -> Seq<i64> {
    Seq::new((s.len() - 1) as nat, |i: int| (s[i + 1] - s[i]) as i64)
}

/// Residual sum of squares of the AR(1) fit over the first `k` index
/// pairs: the fit of `dys[i]` is the step mean plus the truncated
/// product of `phi` and the level deviation.
pub open spec fn spec_rss(
    xs: Seq<i64>,
    dys: Seq<i64>,
    mx: int,
    my: int,
    phi: int,
    k: int,
) -> int
    decreases k,
{
    if k <= 0 {
        0
    } else {
        let fit = my + div_trunc(phi * (xs[k - 1] - mx), STAT_SCALE as int);
        let err = dys[k - 1] - fit;
        spec_rss(xs, dys, mx, my, phi, k - 1) + err * err
    }
}

/// The AR(1) fit of a spread series: `(phi, t, p)` in micro-units,
/// where `phi` is the clamped slope of the one-bar change on the
/// lagged level, `t` the slope over its standard error and `p` the
/// Dickey-Fuller p-value bucket of `t`. `None` when fewer than five
/// samples are available or the level variance vanishes.
pub open spec fn spec_ar1(s: Seq<i64>) -> Option<(int, int, int)> {
    if s.len() < 5 {
        None
    } else {
        let xs = spec_steps_x(s);
        let dys = spec_steps_dy(s);
        let n = xs.len() as int;
        let mx = div_trunc(spec_sum_prefix(xs, n), n);
        let my = div_trunc(spec_sum_prefix(dys, n), n);
        let num = spec_cov_prefix(xs, dys, mx, my, n);
        let den = spec_cov_prefix(xs, xs, mx, mx, n);
        if den == 0 {
            None
        } else {
            let phi = clamp_int(div_trunc(num * (STAT_SCALE as int), den), -999_000, 999_000);
            let rss = spec_rss(xs, dys, mx, my, phi, n);
            let dof = if n - 2 >= 1 {
                n - 2
            } else {
                1
            };
            let sigma2 = rss / dof;
            let se = spec_isqrt(sigma2 * (STAT_SCALE as int) * (STAT_SCALE as int) / den);
            let t = if se == 0 {
                0
            } else {
                div_trunc(phi * (STAT_SCALE as int), se)
            };
            Some((phi, t, spec_df_p(t, n)))
        }
    }
}

/// Residual sum of squares of the AR(1) fit over the first `n` index
/// pairs, where levels are bounded by `MAX_SPREAD` and steps by
/// `MAX_STAT`.
fn rss_sum(xs: &Vec<i64>, dys: &Vec<i64>, n: usize, mx: i64, my: i64, phi: i64) -> (r: i128)
    requires
        n <= xs@.len() <= MAX_SAMPLES,
        n <= dys@.len() <= MAX_SAMPLES,
        forall|i: int| 0 <= i < xs@.len() ==> -MAX_SPREAD <= #[trigger] xs@[i] <= MAX_SPREAD,
        forall|i: int| 0 <= i < dys@.len() ==> -MAX_STAT <= #[trigger] dys@[i] <= MAX_STAT,
        -MAX_SPREAD <= mx <= MAX_SPREAD,
        -MAX_STAT <= my <= MAX_STAT,
        -999_000 <= phi <= 999_000,
    ensures
        r == spec_rss(xs@, dys@, mx as int, my as int, phi as int, n as int),
        0 <= r <= (n as int) * (36 * (MAX_STAT as int) * (MAX_STAT as int)),
{
    let mut rss: i128 = 0;
    let mut i: usize = 0;
    while i < n
        invariant
            0 <= i <= n,
            n <= xs@.len() <= MAX_SAMPLES,
            n <= dys@.len() <= MAX_SAMPLES,
            forall|j: int| 0 <= j < xs@.len() ==> -MAX_SPREAD <= #[trigger] xs@[j] <= MAX_SPREAD,
            forall|j: int| 0 <= j < dys@.len() ==> -MAX_STAT <= #[trigger] dys@[j] <= MAX_STAT,
            -MAX_SPREAD <= mx <= MAX_SPREAD,
            -MAX_STAT <= my <= MAX_STAT,
            -999_000 <= phi <= 999_000,
            rss == spec_rss(xs@, dys@, mx as int, my as int, phi as int, i as int),
            0 <= rss <= (i as int) * (36 * (MAX_STAT as int) * (MAX_STAT as int)),
        decreases n - i,
    {
        let dx: i128 = xs[i] as i128 - mx as i128;
        proof {
            assert(-2_000_000_000_000_000int <= phi as int * dx <= 2_000_000_000_000_000int)
                by (nonlinear_arith)
                requires
                    -999_000 <= phi as int <= 999_000,
                    -2_000_000_000 <= dx <= 2_000_000_000,
            ;
        }
        let scaled: i128 = phi as i128 * dx;
        let adj: i128 = div_trunc_i128(scaled, STAT_SCALE as i128);
        proof {
            assert(-2_000_000_000int <= div_trunc(scaled as int, STAT_SCALE as int)
                <= 2_000_000_000int) by (nonlinear_arith)
                requires
                    -2_000_000_000_000_000int <= scaled as int <= 2_000_000_000_000_000int,
                    STAT_SCALE == 1_000_000,
            ;
        }
        let fit: i128 = my as i128 + adj;
        let err: i128 = dys[i] as i128 - fit;
        proof {
            assert(0 <= err * err <= 36 * (MAX_STAT as int) * (MAX_STAT as int))
                by (nonlinear_arith)
                requires
                    -6_000_000_000int <= err <= 6_000_000_000int,
                    MAX_STAT == 1_000_000_000,
            ;
            assert((i as int + 1) * (36 * (MAX_STAT as int) * (MAX_STAT as int)) == (i as int) * (36
                * (MAX_STAT as int) * (MAX_STAT as int)) + 36 * (MAX_STAT as int) * (
            MAX_STAT as int)) by (nonlinear_arith);
            assert((i as int) * (36 * (MAX_STAT as int) * (MAX_STAT as int)) <= (
            MAX_SAMPLES as int) * (36 * (MAX_STAT as int) * (MAX_STAT as int)))
                by (nonlinear_arith)
                requires
                    0 <= i as int <= MAX_SAMPLES as int,
            ;
        }
        rss = rss + err * err;
        i = i + 1;
    }
    rss
}

/// The AR(1) stationarity diagnostics of a spread series: the
/// half-life of mean reversion in whole bars (`None` when infinite)
/// and the Dickey-Fuller p-value bucket in micro-units. A series with
/// fewer than five samples, or with no variation in its lagged levels,
/// reports an infinite half-life and a p-value of one.
pub fn half_life_and_p(spreads: &Vec<i64>) -> (r: (Option<u64>, i64))
    requires
        spreads@.len() <= MAX_SAMPLES,
        forall|i: int|
            0 <= i < spreads@.len() ==> -MAX_SPREAD <= #[trigger] spreads@[i] <= MAX_SPREAD,
    ensures
        spec_ar1(spreads@) is None ==> r == (None::<u64>, STAT_SCALE),
        spec_ar1(spreads@) matches Some((phi, t, p)) ==> {
            &&& r.1 == p
            &&& (r.0 is None <==> phi >= 0)
            &&& (r.0 matches Some(k) ==> {
                let ar = STAT_SCALE + phi;
                &&& 1 <= k <= STAT_SCALE
                &&& pow_fp(ar, k as nat) <= 500_000
                &&& forall|j: nat| j < k ==> pow_fp(ar, j) > 500_000
            })
        },
        0 < r.1 <= STAT_SCALE,
{
    let n0: usize = spreads.len();
    if n0 < 5 {
        return (None, STAT_SCALE);
    }
    let n: usize = n0 - 1;
    let mut xs: Vec<i64> = Vec::new();
    let mut dys: Vec<i64> = Vec::new();
    let mut i: usize = 0;
    while i < n
        invariant
            0 <= i <= n,
            n == spreads@.len() - 1,
            spreads@.len() <= MAX_SAMPLES,
            forall|j: int|
                0 <= j < spreads@.len() ==> -MAX_SPREAD <= #[trigger] spreads@[j] <= MAX_SPREAD,
            xs@.len() == i,
            dys@.len() == i,
            forall|j: int| 0 <= j < i ==> #[trigger] xs@[j] == spreads@[j],
            forall|j: int| 0 <= j < i ==> #[trigger] dys@[j] == spreads@[j + 1] - spreads@[j],
        decreases n - i,
    {
        xs.push(spreads[i]);
        dys.push(spreads[i + 1] - spreads[i]);
        i = i + 1;
    }
    proof {
        assert(xs@ =~= spec_steps_x(spreads@));
        assert(dys@ =~= spec_steps_dy(spreads@));
        assert(forall|j: int| 0 <= j < xs@.len() ==> -MAX_SPREAD <= #[trigger] xs@[j] <= MAX_SPREAD);
        assert(forall|j: int| 0 <= j < dys@.len() ==> -MAX_STAT <= #[trigger] dys@[j] <= MAX_STAT);
    }
    let sum_x: i128 = prefix_sum(&xs, n, MAX_SPREAD);
    let sum_dy: i128 = prefix_sum(&dys, n, MAX_STAT);
    let mx128: i128 = div_trunc_i128(sum_x, n as i128);
    let my128: i128 = div_trunc_i128(sum_dy, n as i128);
    proof {
        assert(-MAX_SPREAD <= mx128 <= MAX_SPREAD && -MAX_STAT <= my128 <= MAX_STAT)
            by (nonlinear_arith)
            requires
                mx128 == div_trunc(sum_x as int, n as int),
                my128 == div_trunc(sum_dy as int, n as int),
                -((n as int) * MAX_SPREAD) <= sum_x as int <= (n as int) * MAX_SPREAD,
                -((n as int) * MAX_STAT) <= sum_dy as int <= (n as int) * MAX_STAT,
                1 <= n as int,
        ;
    }
    let mx: i64 = mx128 as i64;
    let my: i64 = my128 as i64;
    let num: i128 = cov_sum(&xs, &dys, n, mx, my, MAX_STAT);
    let den: i128 = cov_sum(&xs, &xs, n, mx, mx, MAX_STAT);
    proof {
        lemma_cov_self_nonneg(xs@, mx as int, n as int);
        assert((n as int) * (4 * (MAX_STAT as int) * (MAX_STAT as int)) <= (MAX_SAMPLES as int) * (4
            * (MAX_STAT as int) * (MAX_STAT as int))) by (nonlinear_arith)
            requires
                0 <= n as int <= MAX_SAMPLES as int,
        ;
    }
    if den == 0 {
        return (None, STAT_SCALE);
    }
    let scaled: i128 = num * STAT_SCALE as i128;
    let q: i128 = div_trunc_i128(scaled, den);
    let phi: i64 = if q < -999_000 {
        -999_000
    } else if q > 999_000 {
        999_000
    } else {
        q as i64
    };
    let rss: i128 = rss_sum(&xs, &dys, n, mx, my, phi);
    let dof: i128 = if n >= 3 {
        (n - 2) as i128
    } else {
        1
    };
    let sigma2: i128 = rss / dof;
    proof {
        assert(0 <= sigma2 <= rss) by (nonlinear_arith)
            requires
                rss >= 0,
                dof >= 1,
                sigma2 == rss as int / dof as int,
        ;
        assert(rss <= (MAX_SAMPLES as int) * (36 * (MAX_STAT as int) * (MAX_STAT as int)))
            by (nonlinear_arith)
            requires
                rss <= (n as int) * (36 * (MAX_STAT as int) * (MAX_STAT as int)),
                0 <= n as int <= MAX_SAMPLES as int,
        ;
    }
    let scaled2: i128 = sigma2 * (STAT_SCALE as i128) * (STAT_SCALE as i128);
    proof {
        assert(sigma2 * (STAT_SCALE as int) * (STAT_SCALE as int) <= (MAX_SAMPLES as int) * (36 * (
        MAX_STAT as int) * (MAX_STAT as int)) * (STAT_SCALE as int) * (STAT_SCALE as int)
            && sigma2 * (STAT_SCALE as int) >= 0 && sigma2 * (STAT_SCALE as int) * (
        STAT_SCALE as int) >= 0) by (nonlinear_arith)
            requires
                0 <= sigma2 <= (MAX_SAMPLES as int) * (36 * (MAX_STAT as int) * (MAX_STAT as int)),
                STAT_SCALE == 1_000_000,
                MAX_STAT == 1_000_000_000,
                MAX_SAMPLES == 1_000_000,
        ;
    }
    let inner: i128 = scaled2 / den;
    proof {
        assert(0 <= inner <= scaled2) by (nonlinear_arith)
            requires
                scaled2 >= 0,
                den >= 1,
                inner == scaled2 as int / den as int,
        ;
    }
    let se: u64 = isqrt(inner as u128);
    let t: i64 = if se == 0 {
        0
    } else {
        proof {
            assert(-1_000_000_000_000int <= phi as int * (STAT_SCALE as int)
                <= 1_000_000_000_000int) by (nonlinear_arith)
                requires
                    -999_000 <= phi as int <= 999_000,
                    STAT_SCALE == 1_000_000,
            ;
            assert(-1_000_000_000_000int <= div_trunc(phi as int * (STAT_SCALE as int), se as int)
                <= 1_000_000_000_000int) by (nonlinear_arith)
                requires
                    -1_000_000_000_000int <= phi as int * (STAT_SCALE as int)
                        <= 1_000_000_000_000int,
                    se >= 1,
            ;
        }
        div_trunc_i128(phi as i128 * STAT_SCALE as i128, se as i128) as i64
    };
    let p: i64 = df_p_value(t, n);
    let hl: Option<u64> = half_life_bars(phi);
    (hl, p)
}

} // verus!
