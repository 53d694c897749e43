//! The pair evaluator: hedge ratios over two lookbacks, the spread
//! series they imply, its stationarity diagnostics, and the resulting
//! eligibility verdict and ranking score.

use vstd::prelude::*;

use crate::config::{PairTradeConfig, WarmStartMode};
use crate::regress::{half_life_and_p, pow_fp, regression_beta, spec_ar1, spec_beta, MAX_SPREAD};
use crate::stats::{div_trunc, div_trunc_i128, MAX_SAMPLES, STAT_SCALE};

verus! {

/// Bound on the magnitude of a log-price sample in micro-units, chosen
/// so that a spread against a hedge ratio of at most ten stays within
/// `MAX_SPREAD`.
pub const MAX_LOG: i64 = 45_000_000;

/// The outcome of evaluating one pair.
#[derive(Clone, Debug)]
pub struct PairEvaluation {
    /// Hedge ratio over the short lookback, micro-units.
    pub beta_short: i64,
    /// Hedge ratio over the long lookback, micro-units.
    pub beta_long: i64,
    /// Blended hedge ratio, micro-units.
    pub beta_eff: i64,
    /// Half-life of the spread in bars; `None` when infinite.
    pub half_life_bars: Option<u64>,
    /// Dickey-Fuller p-value bucket, micro-units.
    pub adf_p_value: i64,
    pub eligible: bool,
    /// Continuous ranking score, micro-units.
    pub score: i64,
}

/// Every log-price sample's magnitude is at most `MAX_LOG`.
pub open spec fn logs_bounded(s: Seq<i64>) -> bool {
    forall|i: int| 0 <= i < s.len() ==> -MAX_LOG <= #[trigger] s[i] <= MAX_LOG
}

/// The blended hedge ratio: seven tenths short, three tenths long.
pub open spec fn spec_beta_eff(beta_short: int, beta_long: int) -> int {
    (7 * beta_short + 3 * beta_long) / 10
}

/// The spread series of two aligned log-price series under a hedge
/// ratio in micro-units.
pub open spec fn spec_spread_series(a: Seq<i64>, b: Seq<i64>, beta: int) -> Seq<i64> {
    Seq::new(a.len(), |i: int| (a[i] - div_trunc(beta * b[i], STAT_SCALE as int)) as i64)
}

/// The relative gap between the two hedge ratios, in micro-units of
/// the blended ratio.
pub open spec fn spec_beta_gap(beta_short: int, beta_long: int, beta_eff: int) -> int {
    let diff = if beta_short >= beta_long {
        beta_short - beta_long
    } else {
        beta_long - beta_short
    };
    let denom = if beta_eff >= 1 {
        beta_eff
    } else {
        1
    };
    diff * (STAT_SCALE as int) / denom
}

/// Whether the half-life in bars stays within the configured ceiling
/// in micro-hours.
pub open spec fn spec_half_life_ok(hl: Option<u64>, period_secs: int, max_micro_hours: int)
    -> bool {
    match hl {
        Some(h) => h * period_secs * (STAT_SCALE as int) <= max_micro_hours * 3600,
        None => false,
    }
}

/// The continuous ranking score in micro-units: six tenths of the
/// complement of the p-value plus four tenths of the reciprocal of one
/// plus the half-life in hours; the second term is zero for an
/// infinite half-life.
pub open spec fn spec_score(p: int, hl: Option<u64>, period_secs: int) -> int {
    let p_clamped = if p > STAT_SCALE {
        STAT_SCALE as int
    } else {
        p
    };
    let term1 = ((STAT_SCALE as int) - p_clamped) * 600_000 / (STAT_SCALE as int);
    let term2 = match hl {
        Some(h) => 400_000int * 3600 / (3600 + h * period_secs),
        None => 0,
    };
    term1 + term2
}

/// The last `len` elements of a series.
fn tail_of(h: &Vec<i64>, len: usize) -> (r: Vec<i64>)
    requires
        len <= h@.len(),
    ensures
        r@ == h@.subrange(h@.len() - len, h@.len() as int),
{
    let start: usize = h.len() - len;
    let mut out: Vec<i64> = Vec::new();
    let mut i: usize = start;
    while i < h.len()
        invariant
            start <= i <= h@.len(),
            start == h@.len() - len,
            out@ == h@.subrange(start as int, i as int),
        decreases h@.len() - i,
    {
        out.push(h[i]);
        proof {
            assert(out@ =~= h@.subrange(start as int, i + 1));
        }
        i = i + 1;
    }
    proof {
        assert(out@ =~= h@.subrange(h@.len() - len, h@.len() as int));
    }
    out
}

/// Evaluates a pair over its aligned log-price histories (oldest
/// first). Returns `None` while the warm-start policy finds the
/// history too short; otherwise the hedge ratios over the long and
/// short lookbacks, the stationarity diagnostics of the blended
/// spread, the two-of-three eligibility verdict (half-life within its
/// ceiling, p-value within its threshold, hedge-ratio gap at most a
/// fifth) and the ranking score.
pub fn evaluate_pair(cfg: &PairTradeConfig, hist_a: &Vec<i64>, hist_b: &Vec<i64>) -> (r: Option<
    PairEvaluation,
>)
    requires
        cfg.wf(),
        hist_a@.len() <= MAX_SAMPLES,
        hist_b@.len() <= MAX_SAMPLES,
        logs_bounded(hist_a@),
        logs_bounded(hist_b@),
    ensures
        ({
            let available = if hist_a@.len() <= hist_b@.len() {
                hist_a@.len() as int
            } else {
                hist_b@.len() as int
            };
            let desired_long = crate::config::spec_lookback_bars(
                cfg.lookback_hours_long as int,
                cfg.trading_period_secs as int,
            );
            let desired_short = crate::config::spec_lookback_bars(
                cfg.lookback_hours_short as int,
                cfg.trading_period_secs as int,
            );
            match cfg.warm_start_mode {
                WarmStartMode::Strict => r is None <==> available < desired_long,
                WarmStartMode::Relaxed => r is None <==> available < cfg.warm_start_min_bars,
            }
        }),
        r matches Some(ev) ==> {
            let available = if hist_a@.len() <= hist_b@.len() {
                hist_a@.len() as int
            } else {
                hist_b@.len() as int
            };
            let desired_long = crate::config::spec_lookback_bars(
                cfg.lookback_hours_long as int,
                cfg.trading_period_secs as int,
            );
            let desired_short = crate::config::spec_lookback_bars(
                cfg.lookback_hours_short as int,
                cfg.trading_period_secs as int,
            );
            let long_len = match cfg.warm_start_mode {
                WarmStartMode::Strict => desired_long,
                WarmStartMode::Relaxed => if desired_long <= available {
                    desired_long
                } else {
                    available
                },
            };
            let short_len_0 = match cfg.warm_start_mode {
                WarmStartMode::Strict => desired_short,
                WarmStartMode::Relaxed => if desired_short <= long_len {
                    desired_short
                } else {
                    long_len
                },
            };
            let short_len = if short_len_0 <= long_len {
                short_len_0
            } else {
                long_len
            };
            let tail_a = hist_a@.subrange(hist_a@.len() - long_len, hist_a@.len() as int);
            let tail_b = hist_b@.subrange(hist_b@.len() - long_len, hist_b@.len() as int);
            let short_a = hist_a@.subrange(hist_a@.len() - short_len, hist_a@.len() as int);
            let short_b = hist_b@.subrange(hist_b@.len() - short_len, hist_b@.len() as int);
            let spreads = spec_spread_series(tail_a, tail_b, ev.beta_eff as int);
            &&& ev.beta_long == spec_beta(tail_b, tail_a)
            &&& ev.beta_short == spec_beta(short_b, short_a)
            &&& ev.beta_eff == spec_beta_eff(ev.beta_short as int, ev.beta_long as int)
            &&& 100_000 <= ev.beta_eff <= 10_000_000
            &&& (spec_ar1(spreads) is None ==> ev.half_life_bars is None && ev.adf_p_value
                == STAT_SCALE)
            &&& (spec_ar1(spreads) matches Some((phi, t, p)) ==> {
                &&& ev.adf_p_value == p
                &&& (ev.half_life_bars is None <==> phi >= 0)
                &&& (ev.half_life_bars matches Some(k) ==> {
                    let ar = STAT_SCALE + phi;
                    &&& 1 <= k <= STAT_SCALE
                    &&& pow_fp(ar, k as nat) <= 500_000
                    &&& forall|j: nat| j < k ==> pow_fp(ar, j) > 500_000
                })
            })
            &&& 0 < ev.adf_p_value <= STAT_SCALE
            &&& ev.eligible == ({
                let half_ok = spec_half_life_ok(
                    ev.half_life_bars,
                    cfg.trading_period_secs as int,
                    cfg.half_life_max_hours as int,
                );
                let adf_ok = ev.adf_p_value <= cfg.adf_p_threshold;
                let beta_ok = spec_beta_gap(
                    ev.beta_short as int,
                    ev.beta_long as int,
                    ev.beta_eff as int,
                ) <= 200_000;
                (if half_ok {
                    1int
                } else {
                    0int
                }) + (if adf_ok {
                    1int
                } else {
                    0int
                }) + (if beta_ok {
                    1int
                } else {
                    0int
                }) >= 2
            })
            &&& ev.score == spec_score(
                ev.adf_p_value as int,
                ev.half_life_bars,
                cfg.trading_period_secs as int,
            )
            &&& 0 <= ev.score <= STAT_SCALE
        },
{
    let len_a: usize = hist_a.len();
    let len_b: usize = hist_b.len();
    let available: usize = if len_a <= len_b {
        len_a
    } else {
        len_b
    };
    let desired_long: usize = cfg.desired_long_bars();
    let desired_short: usize = cfg.desired_short_bars();
    let (long_len, short_len): (usize, usize) = match cfg.warm_start_mode {
        WarmStartMode::Strict => {
            if available < desired_long {
                return None;
            }
            let s: usize = if desired_short <= desired_long {
                desired_short
            } else {
                desired_long
            };
            (desired_long, s)
        },
        WarmStartMode::Relaxed => {
            if available < cfg.warm_start_min_bars {
                return None;
            }
            let long_len: usize = if desired_long <= available {
                desired_long
            } else {
                available
            };
            let short_len: usize = if desired_short <= long_len {
                desired_short
            } else {
                long_len
            };
            (long_len, short_len)
        },
    };
    let tail_a: Vec<i64> = tail_of(hist_a, long_len);
    let tail_b: Vec<i64> = tail_of(hist_b, long_len);
    let short_a: Vec<i64> = tail_of(hist_a, short_len);
    let short_b: Vec<i64> = tail_of(hist_b, short_len);
    let beta_long: i64 = regression_beta(&tail_b, &tail_a);
    let beta_short: i64 = regression_beta(&short_b, &short_a);
    let beta_eff: i64 = (7 * beta_short + 3 * beta_long) / 10;
    proof {
        assert(100_000 <= (7 * (beta_short as int) + 3 * (beta_long as int)) / 10 <= 10_000_000)
            by (nonlinear_arith)
            requires
                100_000 <= beta_short <= 10_000_000,
                100_000 <= beta_long <= 10_000_000,
        ;
        assert((7 * (beta_short as int) + 3 * (beta_long as int)) / 10 == spec_beta_eff(
            beta_short as int,
            beta_long as int,
        ));
    }
    let mut spreads: Vec<i64> = Vec::new();
    let mut i: usize = 0;
    while i < long_len
        invariant
            0 <= i <= long_len,
            long_len == tail_a@.len(),
            long_len == tail_b@.len(),
            logs_bounded(tail_a@),
            logs_bounded(tail_b@),
            100_000 <= beta_eff <= 10_000_000,
            spreads@.len() == i,
            forall|j: int|
                0 <= j < i ==> #[trigger] spreads@[j] == (tail_a@[j] - div_trunc(
                    (beta_eff as int) * tail_b@[j],
                    STAT_SCALE as int,
                )) as i64,
            forall|j: int| 0 <= j < i ==> -MAX_SPREAD <= #[trigger] spreads@[j] <= MAX_SPREAD,
        decreases long_len - i,
    {
        proof {
            assert(-450_000_000_000_000int <= (beta_eff as int) * (tail_b@[i as int] as int)
                <= 450_000_000_000_000int) by (nonlinear_arith)
                requires
                    100_000 <= beta_eff <= 10_000_000,
                    -MAX_LOG <= tail_b@[i as int] <= MAX_LOG,
                    MAX_LOG == 45_000_000,
            ;
        }
        let scaled: i128 = beta_eff as i128 * tail_b[i] as i128;
        let hedge: i128 = div_trunc_i128(scaled, STAT_SCALE as i128);
        proof {
            assert(-450_000_000int <= div_trunc(scaled as int, STAT_SCALE as int)
                <= 450_000_000int) by (nonlinear_arith)
                requires
                    -450_000_000_000_000int <= scaled as int <= 450_000_000_000_000int,
                    STAT_SCALE == 1_000_000,
            ;
        }
        let s: i64 = (tail_a[i] as i128 - hedge) as i64;
        spreads.push(s);
        i = i + 1;
    }
    proof {
        assert(spreads@ =~= spec_spread_series(tail_a@, tail_b@, beta_eff as int));
    }
    let (half_life_bars, adf_p_value): (Option<u64>, i64) = half_life_and_p(&spreads);
    let half_ok: bool = match half_life_bars {
        Some(h) => {
            proof {
                assert(0 <= (h as int) * (cfg.trading_period_secs as int) * (STAT_SCALE as int)
                    <= 1_000_000_000_000_000_000int) by (nonlinear_arith)
                    requires
                        0 <= h <= 1_000_000,
                        1 <= cfg.trading_period_secs <= 1_000_000,
                        STAT_SCALE == 1_000_000,
                ;
            }
            let lhs: u128 = h as u128 * cfg.trading_period_secs as u128 * STAT_SCALE as u128;
            let rhs: u128 = cfg.half_life_max_hours as u128 * 3600;
            lhs <= rhs
        },
        None => false,
    };
    let adf_ok: bool = adf_p_value <= cfg.adf_p_threshold;
    let gap: i64 = if beta_short >= beta_long {
        beta_short - beta_long
    } else {
        beta_long - beta_short
    };
    proof {
        assert(0 <= (gap as int) * (STAT_SCALE as int) <= 9_900_000_000_000int)
            by (nonlinear_arith)
            requires
                0 <= gap <= 9_900_000,
                STAT_SCALE == 1_000_000,
        ;
    }
    let gap_scaled: i128 = gap as i128 * STAT_SCALE as i128;
    let gap_ratio: i128 = gap_scaled / beta_eff as i128;
    proof {
        assert(0 <= gap_scaled as int / (beta_eff as int) <= gap_scaled) by (nonlinear_arith)
            requires
                gap_scaled >= 0,
                beta_eff >= 1,
        ;
        assert(gap_scaled as int / (beta_eff as int) == div_trunc(
            gap_scaled as int,
            beta_eff as int,
        ));
    }
    let beta_ok: bool = gap_ratio <= 200_000;
    let votes: u32 = (if half_ok {
        1u32
    } else {
        0u32
    }) + (if adf_ok {
        1u32
    } else {
        0u32
    }) + (if beta_ok {
        1u32
    } else {
        0u32
    });
    let eligible: bool = votes >= 2;
    let p_clamped: i64 = if adf_p_value > STAT_SCALE {
        STAT_SCALE
    } else {
        adf_p_value
    };
    let term1: i64 = (STAT_SCALE - p_clamped) * 600_000 / STAT_SCALE;
    proof {
        assert(0 <= ((STAT_SCALE - p_clamped) as int) * 600_000 / (STAT_SCALE as int) <= 600_000)
            by (nonlinear_arith)
            requires
                0 <= STAT_SCALE - p_clamped <= STAT_SCALE,
                STAT_SCALE == 1_000_000,
        ;
    }
    let term2: i64 = match half_life_bars {
        Some(h) => {
            proof {
                assert(1 <= (h as int) * (cfg.trading_period_secs as int)
                    <= 1_000_000_000_000int) by (nonlinear_arith)
                    requires
                        1 <= h <= 1_000_000,
                        1 <= cfg.trading_period_secs <= 1_000_000,
                ;
            }
            let denom: u64 = 3600 + h * cfg.trading_period_secs;
            let t2: u64 = 400_000 * 3600 / denom;
            proof {
                assert(400_000int * 3600 / (denom as int) <= 400_000) by (nonlinear_arith)
                    requires
                        denom >= 3600,
                ;
            }
            t2 as i64
        },
        None => 0,
    };
    let score: i64 = term1 + term2;
    Some(
        PairEvaluation {
            beta_short,
            beta_long,
            beta_eff,
            half_life_bars,
            adf_p_value,
            eligible,
            score,
        },
    )
}

} // verus!
