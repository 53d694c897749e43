//! The statistics kernel and the pair evaluator. Statistical values
//! are micro-units: a z-score of 2.0 is 2_000_000.

use std::collections::VecDeque;

use pairtrade::config::{PairTradeConfig, WarmStartMode};
use pairtrade::evaluate::evaluate_pair;
use pairtrade::regress::{df_p_value, half_life_and_p, regression_beta};
use pairtrade::stats::{isqrt, mean_std, tail_std, vol_median};

fn window_of(values: &[i64]) -> VecDeque<i64> {
    let mut w: VecDeque<i64> = VecDeque::new();
    for v in values {
        w.push_back(*v);
    }
    w
}

#[test]
fn isqrt_exact_values() {
    assert_eq!(isqrt(0), 0);
    assert_eq!(isqrt(1), 1);
    assert_eq!(isqrt(3), 1);
    assert_eq!(isqrt(4), 2);
    assert_eq!(isqrt(1_000_000_000_000), 1_000_000);
    assert_eq!(isqrt(u64::MAX as u128 * u64::MAX as u128), u64::MAX as u128 as u64);
}

#[test]
fn mean_std_of_constant_series_is_constant_and_zero() {
    let w = window_of(&[7_000_000, 7_000_000, 7_000_000, 7_000_000]);
    assert_eq!(mean_std(&w), Some((7_000_000, 0)));
}

#[test]
fn mean_std_population_variance() {
    let w = window_of(&[2, 4, 6, 8]);
    // mean 5, squared deviations 9+1+1+9 = 20, variance 5, isqrt 2.
    assert_eq!(mean_std(&w), Some((5, 2)));
}

#[test]
fn mean_std_empty_is_none() {
    let w = window_of(&[]);
    assert_eq!(mean_std(&w), None);
}

#[test]
fn tail_std_uses_the_last_samples() {
    let w = window_of(&[2, 4, 6, 8]);
    // Tail [6, 8]: mean 7, E[x^2] = 50, variance 1.
    assert_eq!(tail_std(&w, 2), Some(1));
    assert_eq!(tail_std(&w, 0), None);
}

#[test]
fn regression_beta_of_a_series_on_itself_is_one() {
    let xs = vec![1_000_000i64, 2_000_000, 3_000_000];
    assert_eq!(regression_beta(&xs, &xs), 1_000_000);
}

#[test]
fn regression_beta_of_a_doubled_series_is_two() {
    let xs = vec![1_000_000i64, 2_000_000, 3_000_000];
    let ys = vec![2_000_000i64, 4_000_000, 6_000_000];
    assert_eq!(regression_beta(&xs, &ys), 2_000_000);
}

#[test]
fn regression_beta_clamps_to_the_band() {
    let xs = vec![1_000_000i64, 2_000_000, 3_000_000];
    let ys = vec![3_000_000i64, 2_000_000, 1_000_000];
    // A negative slope clamps to the lower bound 0.1.
    assert_eq!(regression_beta(&xs, &ys), 100_000);
}

#[test]
fn half_life_of_a_pure_random_walk_is_infinite() {
    // Constant increments: the change never depends on the level.
    let spreads = vec![0i64, 1_000_000, 2_000_000, 3_000_000, 4_000_000];
    let (hl, p) = half_life_and_p(&spreads);
    assert_eq!(hl, None);
    assert_eq!(p, 500_000);
}

#[test]
fn half_life_of_a_hard_reverter_is_one_bar() {
    // A short alternating series reverts hard but its slope error is
    // still wide, so the p-value stays in the inconclusive bucket.
    let spreads = vec![1_000_000i64, -1_000_000, 1_000_000, -1_000_000, 1_000_000];
    let (hl, p) = half_life_and_p(&spreads);
    assert_eq!(hl, Some(1));
    assert_eq!(p, 500_000);
}

#[test]
fn long_hard_reverter_earns_the_smallest_p_bucket() {
    let mut spreads: Vec<i64> = Vec::new();
    let mut i: i64 = 0;
    while i < 101 {
        spreads.push(if i % 2 == 0 { 1_000_000 } else { -1_000_000 });
        i += 1;
    }
    let (hl, p) = half_life_and_p(&spreads);
    assert_eq!(hl, Some(1));
    assert_eq!(p, 5_000);
}

#[test]
fn half_life_needs_five_samples() {
    let spreads = vec![1_000_000i64, -1_000_000, 1_000_000];
    let (hl, p) = half_life_and_p(&spreads);
    assert_eq!(hl, None);
    assert_eq!(p, 1_000_000);
}

#[test]
fn df_p_value_buckets() {
    assert_eq!(df_p_value(-4_000_000, 25), 5_000);
    assert_eq!(df_p_value(-3_200_000, 25), 25_000);
    assert_eq!(df_p_value(-2_800_000, 25), 75_000);
    assert_eq!(df_p_value(0, 100), 500_000);
}

#[test]
fn evaluate_pair_strict_needs_the_long_lookback() {
    let cfg = PairTradeConfig::default();
    let hist: Vec<i64> = vec![1_000_000; 100];
    assert!(evaluate_pair(&cfg, &hist, &hist).is_none());
}

#[test]
fn evaluate_pair_relaxed_reports_unit_betas_on_flat_legs() {
    let mut cfg = PairTradeConfig::default();
    cfg.warm_start_mode = WarmStartMode::Relaxed;
    let mut hist_a: Vec<i64> = Vec::new();
    let mut hist_b: Vec<i64> = Vec::new();
    let mut i: i64 = 0;
    while i < 80 {
        hist_a.push(10_000_000 + (i % 2) * 1_000);
        hist_b.push(10_000_000);
        i += 1;
    }
    let ev = evaluate_pair(&cfg, &hist_a, &hist_b).expect("enough bars for a relaxed start");
    // The flat quote leg has no variance, so both hedge ratios are one.
    assert_eq!(ev.beta_long, 1_000_000);
    assert_eq!(ev.beta_short, 1_000_000);
    assert_eq!(ev.beta_eff, 1_000_000);
    assert!(ev.adf_p_value > 0 && ev.adf_p_value <= 1_000_000);
    assert!(ev.score <= 1_000_000);
}

#[test]
fn vol_median_takes_the_middle_volatility() {
    assert_eq!(vol_median(&vec![]), 1_000_000);
    assert_eq!(vol_median(&vec![5]), 5);
    // Unordered input; the upper middle of an even count wins.
    assert_eq!(vol_median(&vec![9, 1, 5]), 5);
    assert_eq!(vol_median(&vec![4, 1, 9, 5]), 5);
    // A vanishing volatility floors at one micro-unit.
    assert_eq!(vol_median(&vec![0, 0, 0]), 1);
}
