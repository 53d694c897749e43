//! The decision rules, the per-pair state machine, reconciliation
//! decisions and candidate arbitration.

use pairtrade::arbitrate::{select_entry, EntryCandidate};
use pairtrade::engine::{apply_evaluation, derive_pair_action, needs_reevaluation, TradeAction};
use pairtrade::evaluate::PairEvaluation;
use pairtrade::config::PairTradeConfig;
use pairtrade::decide::{
    compute_pnl, cost_in_sigma, entry_z_for_pair, exit_reason, exit_reason_label,
    liquidity_score, net_funding_for_direction, should_enter, ExitReason,
};
use pairtrade::orders::{decide_post_only_retry, plan_rollback_hedge, PostOnlyRetry};
use pairtrade::reconcile::{
    clear_stale_pending, decide_entry_reconcile, decide_exit_reconcile, filter_positions,
    plan_lone_leg_close, sync_pair_position, EntryReconcileAction, ExitReconcileAction, LoneLeg,
};
use pairtrade::state::{prune_history, PriceSample};
use pairtrade::state::{
    direction_label, BarBuilder, OrderSide, PairState, PendingLeg, PendingOrders, Position,
    PositionDirection, SymbolSnapshot, VenuePosition,
};

fn snapshot(price: u64, funding: i64) -> SymbolSnapshot {
    SymbolSnapshot {
        price,
        funding_rate: funding,
        bid_price: Some(price),
        ask_price: Some(price),
        bid_size: 5_000_000_000,
        ask_size: 4_000_000_000,
        min_order: Some(1_000_000),
        min_tick: Some(1_000_000),
        size_decimals: Some(3),
    }
}

fn open_position(entered_at: u64) -> Position {
    Position {
        direction: PositionDirection::LongSpread,
        entered_at,
        entry_price_a: Some(100_000_000_000),
        entry_price_b: Some(100_000_000_000),
        entry_size_a: Some(1_000_000_000),
        entry_size_b: Some(1_000_000_000),
    }
}

fn leg(id: &str, target: u64, side: OrderSide) -> PendingLeg {
    PendingLeg {
        symbol: "AAA".to_string(),
        order_id: id.to_string(),
        exchange_order_id: None,
        target,
        filled: 0,
        side,
        placed_price: 100_000_000_000,
    }
}

fn pending_two_legs() -> PendingOrders {
    PendingOrders {
        legs: vec![leg("l1", 50_000_000, OrderSide::Long), leg("l2", 50_000_000, OrderSide::Short)],
        direction: PositionDirection::LongSpread,
        placed_at: 0,
        hedge_retry_count: 0,
    }
}

#[test]
fn spread_history_stays_within_the_window() {
    let mut state = PairState::new(2_000_000);
    let mut k: i64 = 1;
    while k <= 5 {
        state.push_spread(k * 1_000_000, 3, 60);
        k += 1;
    }
    assert_eq!(state.spread_history.len(), 3);
    assert_eq!(state.spread_history[0], 3_000_000);
    assert_eq!(state.last_spread, Some(5_000_000));
}

#[test]
fn z_score_of_a_two_sample_window() {
    let mut state = PairState::new(2_000_000);
    state.push_spread(1_000_000, 240, 60);
    state.push_spread(3_000_000, 240, 60);
    let (z, std, mean, latest) = state.z_score_details().expect("two samples");
    assert_eq!(mean, 2_000_000);
    assert_eq!(std, 1_000_000);
    assert_eq!(latest, 3_000_000);
    assert_eq!(z, 1_000_000);
    assert_eq!(state.z_score(), Some((1_000_000, 1_000_000)));
}

#[test]
fn bar_builder_emits_the_previous_close_on_rollover() {
    let mut bars = BarBuilder::new(60);
    assert_eq!(bars.push(0, 100_000_000_000), None);
    assert_eq!(bars.push(30, 110_000_000_000), None);
    assert_eq!(bars.push(59, 105_000_000_000), None);
    assert_eq!(bars.push(60, 120_000_000_000), Some((105_000_000_000, 60)));
    assert_eq!(bars.close, 120_000_000_000);
}

#[test]
fn cooldown_blocks_entry_until_it_passes() {
    let cfg = PairTradeConfig::default();
    let mut state = PairState::new(2_000_000);
    state.z_entry = 2_000_000;
    state.last_exit_at = Some(100);
    // Ten seconds after the exit: inside the 30-second cooldown.
    assert!(!should_enter(&cfg, &state, 2_100_000, 1_000_000, 0, 110));
    // At the cooldown boundary the entry is allowed again.
    assert!(should_enter(&cfg, &state, 2_100_000, 1_000_000, 0, 130));
}

#[test]
fn entry_needs_the_threshold_but_not_the_stop() {
    let cfg = PairTradeConfig::default();
    let mut state = PairState::new(2_000_000);
    state.z_entry = 2_000_000;
    assert!(!should_enter(&cfg, &state, 1_900_000, 1_000_000, 0, 0));
    assert!(should_enter(&cfg, &state, -2_100_000, 1_000_000, 0, 0));
    // A z-score at the stop is not entered.
    assert!(!should_enter(&cfg, &state, 3_300_000, 1_000_000, 0, 0));
    // A carry below the floor is not entered.
    assert!(!should_enter(&cfg, &state, 2_100_000, 1_000_000, -10_000, 0));
}

#[test]
fn positive_carry_eases_the_threshold() {
    let cfg = PairTradeConfig::default();
    let mut state = PairState::new(2_000_000);
    state.z_entry = 2_000_000;
    // 1.9 misses the plain threshold but clears nine tenths of it.
    assert!(!should_enter(&cfg, &state, 1_900_000, 1_000_000, 0, 0));
    assert!(should_enter(&cfg, &state, 1_900_000, 1_000_000, 1_000, 0));
}

#[test]
fn cost_in_sigma_charges_both_legs() {
    let mut cfg = PairTradeConfig::default();
    cfg.fee_bps = 1_000_000;
    cfg.slippage_bps = 2;
    // (2 fees + 2 slippages) in micro-bps, over a deviation of 1.0.
    assert_eq!(cost_in_sigma(&cfg, 1_000_000), 600);
    assert_eq!(cost_in_sigma(&cfg, 0), 0);
    // Passive slippage costs by its magnitude, the same as aggressive.
    cfg.slippage_bps = -2;
    assert_eq!(cost_in_sigma(&cfg, 1_000_000), 600);
}

#[test]
fn negative_slippage_still_gates_the_entry() {
    let mut cfg = PairTradeConfig::default();
    cfg.slippage_bps = -100;
    cfg.fee_bps = 0;
    let mut state = PairState::new(2_000_000);
    state.z_entry = 2_000_000;
    // Cost is (2*100 bps)/std = 0.02/0.00001 = 2000 sigma: no entry.
    assert!(!should_enter(&cfg, &state, 2_100_000, 10, 0, 0));
    cfg.slippage_bps = 0;
    assert!(should_enter(&cfg, &state, 2_100_000, 10, 0, 0));
}

#[test]
fn exit_reasons_follow_the_priority_order() {
    let cfg = PairTradeConfig::default();
    let mut state = PairState::new(2_000_000);
    state.position = Some(open_position(0));
    let eq: u64 = 10_000_000_000_000;
    let p: u64 = 100_000_000_000;
    // Force-close wins even over a stop-size z-score.
    assert_eq!(
        exit_reason(&cfg, &state, 3_400_000, 1_000_000, p, p, eq, 3_600),
        Some(ExitReason::ForceClose)
    );
    assert_eq!(
        exit_reason(&cfg, &state, 3_400_000, 1_000_000, p, p, eq, 10),
        Some(ExitReason::StopLossZ)
    );
    assert_eq!(
        exit_reason(&cfg, &state, 400_000, 1_000_000, p, p, eq, 10),
        Some(ExitReason::ExitZ)
    );
    // A profit at the risk budget (1% of 10000 units) exits.
    assert_eq!(
        exit_reason(&cfg, &state, 1_000_000, 1_000_000, 200_000_000_000, p, eq, 10),
        Some(ExitReason::RiskBudget)
    );
    // A loss of one risk multiple exits.
    assert_eq!(
        exit_reason(&cfg, &state, 1_000_000, 1_000_000, 0, p, eq, 10),
        Some(ExitReason::MaxLossR)
    );
    assert_eq!(exit_reason(&cfg, &state, 1_000_000, 1_000_000, p, p, eq, 10), None);
    assert_eq!(exit_reason_label(ExitReason::StopLossZ), "stop_loss_z");
}

#[test]
fn flat_pair_has_no_exit_reason() {
    let cfg = PairTradeConfig::default();
    let state = PairState::new(2_000_000);
    let p: u64 = 100_000_000_000;
    assert_eq!(exit_reason(&cfg, &state, 5_000_000, 1_000_000, p, p, 0, 10), None);
}

#[test]
fn pnl_sums_both_legs_with_direction_signs() {
    let pos = Position {
        direction: PositionDirection::LongSpread,
        entered_at: 0,
        entry_price_a: Some(100_000_000_000),
        entry_price_b: Some(50_000_000_000),
        entry_size_a: Some(2_000_000_000),
        entry_size_b: Some(4_000_000_000),
    };
    // Base leg gains 10 on 2 units, quote leg gains 5 on 4 units.
    assert_eq!(compute_pnl(&pos, 110_000_000_000, 45_000_000_000), Some(40_000_000_000));
    let mut unknown = pos.clone();
    unknown.entry_size_b = None;
    assert_eq!(compute_pnl(&unknown, 110_000_000_000, 45_000_000_000), None);
}

#[test]
fn net_funding_follows_the_planned_direction() {
    let p1 = snapshot(100_000_000_000, 2_400_000);
    let p2 = snapshot(100_000_000_000, 0);
    // A positive z shorts the base and collects its funding.
    assert_eq!(net_funding_for_direction(1_000_000, &p1, &p2), -100_000);
    assert_eq!(net_funding_for_direction(-1_000_000, &p1, &p2), 100_000);
}

#[test]
fn liquidity_takes_the_thinner_touch_of_each_leg() {
    let p1 = snapshot(100_000_000_000, 0);
    let p2 = snapshot(100_000_000_000, 0);
    assert_eq!(liquidity_score(&p1, &p2), 8_000_000_000);
}

#[test]
fn dynamic_entry_threshold_clamps_to_the_band() {
    let cfg = PairTradeConfig::default();
    // Double the median volatility doubles the base, then the band cap holds.
    assert_eq!(entry_z_for_pair(&cfg, 2_000_000, 1_000_000), 2_300_000);
    // Half the median volatility floors at the band minimum.
    assert_eq!(entry_z_for_pair(&cfg, 500_000, 1_000_000), 1_800_000);
    assert_eq!(entry_z_for_pair(&cfg, 1_000_000, 1_000_000), 2_000_000);
}

#[test]
fn direction_labels() {
    assert_eq!(direction_label(PositionDirection::LongSpread), "long_spread");
    assert_eq!(direction_label(PositionDirection::ShortSpread), "short_spread");
}

#[test]
fn entry_reconcile_promotes_on_full_fill() {
    let cfg = PairTradeConfig::default();
    let pending = pending_two_legs();
    let fills = vec![("l1".to_string(), 50_000_000u64), ("l2".to_string(), 50_000_000u64)];
    assert_eq!(
        decide_entry_reconcile(&cfg, &pending, &fills, 10),
        EntryReconcileAction::Promote
    );
}

#[test]
fn entry_reconcile_reissues_on_partial_fill() {
    let cfg = PairTradeConfig::default();
    let pending = pending_two_legs();
    let fills = vec![("l1".to_string(), 20_000_000u64)];
    assert_eq!(
        decide_entry_reconcile(&cfg, &pending, &fills, 10),
        EntryReconcileAction::Reissue { use_market: false, next_retry: 1 }
    );
    let mut worn = pending_two_legs();
    worn.hedge_retry_count = 3;
    assert_eq!(
        decide_entry_reconcile(&cfg, &worn, &fills, 10),
        EntryReconcileAction::Reissue { use_market: true, next_retry: 4 }
    );
}

#[test]
fn entry_reconcile_waits_then_sweeps_on_timeout() {
    let cfg = PairTradeConfig::default();
    let pending = pending_two_legs();
    let fills: Vec<(String, u64)> = Vec::new();
    assert_eq!(decide_entry_reconcile(&cfg, &pending, &fills, 100), EntryReconcileAction::Wait);
    assert_eq!(
        decide_entry_reconcile(&cfg, &pending, &fills, 120),
        EntryReconcileAction::TimeoutSweep
    );
}

#[test]
fn exit_reconcile_completes_and_escalates() {
    let cfg = PairTradeConfig::default();
    let pending = pending_two_legs();
    let full = vec![("l1".to_string(), 50_000_000u64), ("l2".to_string(), 50_000_000u64)];
    assert_eq!(
        decide_exit_reconcile(&cfg, &pending, &full, 0, 10),
        ExitReconcileAction::Complete
    );
    let partial = vec![("l1".to_string(), 20_000_000u64)];
    assert_eq!(
        decide_exit_reconcile(&cfg, &pending, &partial, 1, 10),
        ExitReconcileAction::ReissueMarket { next_retry: 1 }
    );
    let mut worn = pending_two_legs();
    worn.hedge_retry_count = 3;
    assert_eq!(
        decide_exit_reconcile(&cfg, &worn, &partial, 1, 10),
        ExitReconcileAction::ForceCloseAll
    );
    let none: Vec<(String, u64)> = Vec::new();
    assert_eq!(
        decide_exit_reconcile(&cfg, &pending, &none, 2, 120),
        ExitReconcileAction::TimeoutRetry { next_retry: 1 }
    );
}

#[test]
fn sync_sets_a_position_from_opposite_legs() {
    let mut state = PairState::new(2_000_000);
    let base = VenuePosition {
        symbol: "AAA".to_string(),
        sign: 1,
        size: 2_000_000_000,
        entry_price: Some(100_000_000_000),
    };
    let quote = VenuePosition {
        symbol: "BBB".to_string(),
        sign: -1,
        size: 4_000_000_000,
        entry_price: Some(50_000_000_000),
    };
    let lone = sync_pair_position(&mut state, Some(&base), Some(&quote), 77);
    assert!(lone.is_none());
    assert!(!state.position_guard);
    let pos = state.position.expect("both legs live");
    assert_eq!(pos.direction, PositionDirection::LongSpread);
    assert_eq!(pos.entered_at, 77);
    assert_eq!(pos.entry_size_a, Some(2_000_000_000));
    assert_eq!(pos.entry_size_b, Some(4_000_000_000));
}

#[test]
fn sync_raises_the_guard_on_same_signed_legs() {
    let mut state = PairState::new(2_000_000);
    state.position = Some(open_position(0));
    let base = VenuePosition {
        symbol: "AAA".to_string(),
        sign: 1,
        size: 2_000_000_000,
        entry_price: None,
    };
    let quote = VenuePosition {
        symbol: "BBB".to_string(),
        sign: 1,
        size: 4_000_000_000,
        entry_price: None,
    };
    let lone = sync_pair_position(&mut state, Some(&base), Some(&quote), 77);
    assert!(lone.is_none());
    assert!(state.position_guard);
    assert!(state.position.is_none());
}

#[test]
fn sync_hands_back_a_lone_leg_for_closure() {
    let mut state = PairState::new(2_000_000);
    let base = VenuePosition {
        symbol: "AAA".to_string(),
        sign: 1,
        size: 20_000_000,
        entry_price: None,
    };
    let lone = sync_pair_position(&mut state, Some(&base), None, 77).expect("lone leg");
    assert_eq!(lone.symbol, "AAA");
    assert_eq!(lone.sign, 1);
    assert_eq!(lone.size, 20_000_000);
    assert!(!state.position_guard);
    assert!(state.position.is_none());
}

#[test]
fn sync_clears_a_flat_pair() {
    let mut state = PairState::new(2_000_000);
    state.position = Some(open_position(0));
    state.position_guard = true;
    let lone = sync_pair_position(&mut state, None, None, 77);
    assert!(lone.is_none());
    assert!(state.position.is_none());
    assert!(!state.position_guard);
}

#[test]
fn stale_pending_is_swept() {
    let mut state = PairState::new(2_000_000);
    state.pending_exit = Some(pending_two_legs());
    state.position = Some(open_position(0));
    assert!(!clear_stale_pending(&mut state, 100, 720));
    assert!(state.pending_exit.is_some());
    assert!(clear_stale_pending(&mut state, 720, 720));
    assert!(state.pending_exit.is_none());
    assert!(state.position.is_none());
    assert_eq!(state.last_exit_at, Some(720));
}

#[test]
fn dust_and_flat_positions_are_filtered() {
    let prices = vec![("AAA".to_string(), snapshot(100_000_000_000, 0))];
    let positions = vec![
        VenuePosition { symbol: "AAA".to_string(), sign: 1, size: 500_000, entry_price: None },
        VenuePosition { symbol: "AAA".to_string(), sign: 0, size: 2_000_000, entry_price: None },
        VenuePosition { symbol: "AAA".to_string(), sign: -1, size: 0, entry_price: None },
        VenuePosition {
            symbol: "AAA".to_string(),
            sign: -1,
            size: 2_000_000,
            entry_price: None,
        },
    ];
    let kept = filter_positions(positions, &prices);
    assert_eq!(kept.len(), 1);
    assert_eq!(kept[0].sign, -1);
    assert_eq!(kept[0].size, 2_000_000);
}

fn candidate(
    base: &str,
    quote: &str,
    net_funding: i64,
    score: i64,
    liquidity: u64,
    abs_z: i64,
) -> EntryCandidate {
    EntryCandidate {
        base: base.to_string(),
        quote: quote.to_string(),
        direction: PositionDirection::ShortSpread,
        score,
        net_funding,
        liquidity,
        abs_z,
    }
}

#[test]
fn arbitration_shortlists_by_score_then_picks_by_funding() {
    // Keys (funding, score, liquidity, |z|) of three rival entries.
    let cands = vec![
        candidate("AAA", "BBB", 1_000, 700_000, 120_000_000_000, 2_200_000),
        candidate("CCC", "DDD", 0, 900_000, 200_000_000_000, 2_500_000),
        candidate("EEE", "FFF", 2_000, 500_000, 50_000_000_000, 2_100_000),
    ];
    let actives: Vec<String> = Vec::new();
    // Shortlist of two by score keeps the first two; the first wins on carry.
    assert_eq!(select_entry(&cands, &actives, 2), Some(0));
}

#[test]
fn arbitration_excludes_overlapping_symbols() {
    let cands = vec![
        candidate("AAA", "BBB", 1_000, 700_000, 120_000_000_000, 2_200_000),
        candidate("CCC", "DDD", 0, 900_000, 200_000_000_000, 2_500_000),
    ];
    let actives = vec!["BBB".to_string()];
    assert_eq!(select_entry(&cands, &actives, 2), Some(1));
    let all_taken = vec!["BBB".to_string(), "CCC".to_string()];
    assert_eq!(select_entry(&cands, &all_taken, 2), None);
}

fn warmed_state(samples: usize) -> PairState {
    let mut state = PairState::new(2_000_000);
    state.eligible = true;
    let mut k: usize = 0;
    while k < samples {
        let v: i64 = if k % 2 == 0 { 1_000_000 } else { -1_000_000 };
        state.push_spread(v, 20, 60);
        k += 1;
    }
    state
}

fn tick_snapshot() -> SymbolSnapshot {
    snapshot(100_000_000_000, 0)
}

#[test]
fn pair_action_enters_short_on_a_high_z() {
    let mut cfg = PairTradeConfig::default();
    cfg.metrics_window = 20;
    let state = warmed_state(12);
    let p = tick_snapshot();
    let action = derive_pair_action(
        &cfg,
        &state,
        Some((2_100_000, 1_000_000)),
        &p,
        &p,
        10_000_000_000_000,
        true,
        true,
        false,
        1_000,
    );
    assert_eq!(
        action,
        TradeAction::OpenSpread { direction: PositionDirection::ShortSpread }
    );
    // With positions unknown, the same tick waits instead.
    let held = derive_pair_action(
        &cfg,
        &state,
        Some((2_100_000, 1_000_000)),
        &p,
        &p,
        10_000_000_000_000,
        false,
        true,
        false,
        1_000,
    );
    assert_eq!(held, TradeAction::Hold);
}

#[test]
fn pair_action_closes_on_a_stop_and_forces_on_age() {
    let mut cfg = PairTradeConfig::default();
    cfg.metrics_window = 20;
    let mut state = warmed_state(12);
    state.position = Some(open_position(0));
    let p = tick_snapshot();
    let stop = derive_pair_action(
        &cfg,
        &state,
        Some((-3_400_000, 1_000_000)),
        &p,
        &p,
        10_000_000_000_000,
        true,
        true,
        false,
        1_000,
    );
    assert_eq!(
        stop,
        TradeAction::CloseSpread { direction: PositionDirection::LongSpread, force: false }
    );
    let aged = derive_pair_action(
        &cfg,
        &state,
        Some((0, 1_000_000)),
        &p,
        &p,
        10_000_000_000_000,
        true,
        true,
        false,
        3_600,
    );
    assert_eq!(
        aged,
        TradeAction::CloseSpread { direction: PositionDirection::LongSpread, force: true }
    );
}

#[test]
fn pair_action_waits_under_pending_or_guard() {
    let mut cfg = PairTradeConfig::default();
    cfg.metrics_window = 20;
    let p = tick_snapshot();
    let mut pending_state = warmed_state(12);
    pending_state.pending_entry = Some(pending_two_legs());
    let held = derive_pair_action(
        &cfg,
        &pending_state,
        Some((2_100_000, 1_000_000)),
        &p,
        &p,
        10_000_000_000_000,
        true,
        true,
        false,
        1_000,
    );
    assert_eq!(held, TradeAction::Hold);
    let mut guarded = warmed_state(12);
    guarded.position_guard = true;
    let held2 = derive_pair_action(
        &cfg,
        &guarded,
        Some((2_100_000, 1_000_000)),
        &p,
        &p,
        10_000_000_000_000,
        true,
        true,
        false,
        1_000,
    );
    assert_eq!(held2, TradeAction::Hold);
}

#[test]
fn reevaluation_triggers() {
    let cfg = PairTradeConfig::default();
    let mut state = warmed_state(12);
    // Never evaluated: due at once.
    assert!(needs_reevaluation(&cfg, &state, None, 100));
    state.last_evaluated = Some(100);
    // The alternating window swings two deviations a minute, past the
    // velocity ceiling's multiple.
    assert!(needs_reevaluation(&cfg, &state, Some((1_000_000, 1_000_000)), 200));
    // A becalmed pair inside the hour is left alone.
    state.last_velocity_sigma_per_min = 0;
    assert!(!needs_reevaluation(&cfg, &state, Some((1_000_000, 1_000_000)), 200));
    // The routine hour passes.
    assert!(needs_reevaluation(&cfg, &state, Some((1_000_000, 1_000_000)), 3_700));
    // A z-score jump past 1.5 times the threshold.
    assert!(needs_reevaluation(&cfg, &state, Some((3_100_000, 1_000_000)), 200));
}

#[test]
fn evaluation_lands_in_the_state() {
    let mut state = warmed_state(4);
    let ev = PairEvaluation {
        beta_short: 1_200_000,
        beta_long: 1_100_000,
        beta_eff: 1_170_000,
        half_life_bars: Some(7),
        adf_p_value: 25_000,
        eligible: true,
        score: 700_000,
    };
    apply_evaluation(&mut state, &ev, 555);
    assert_eq!(state.beta, 1_170_000);
    assert_eq!(state.beta_short, 1_200_000);
    assert_eq!(state.beta_long, 1_100_000);
    assert_eq!(state.half_life_bars, Some(7));
    assert_eq!(state.adf_p_value, 25_000);
    assert!(state.eligible);
    assert_eq!(state.score, 700_000);
    assert_eq!(state.last_evaluated, Some(555));
}

#[test]
fn lone_leg_close_respects_the_cooldown() {
    let prices = vec![("AAA".to_string(), snapshot(100_000_000_000, 0))];
    let lone = LoneLeg {
        symbol: "AAA".to_string(),
        sign: 1,
        size: 20_000_000,
    };
    // Inside the 30-second cooldown nothing is placed.
    assert!(plan_lone_leg_close(&lone, Some(100), &prices, 110).is_none());
    let cmd = plan_lone_leg_close(&lone, Some(100), &prices, 130).expect("cooldown passed");
    assert_eq!(cmd.symbol, "AAA");
    assert_eq!(cmd.side, OrderSide::Short);
    assert_eq!(cmd.size, 20_000_000);
    assert!(cmd.reduce_only);
    assert_eq!(cmd.limit_price, None);
    // A short lone leg closes with a long.
    let short_leg = LoneLeg {
        symbol: "AAA".to_string(),
        sign: -1,
        size: 20_000_000,
    };
    let cmd2 = plan_lone_leg_close(&short_leg, None, &prices, 130).expect("no cooldown");
    assert_eq!(cmd2.side, OrderSide::Long);
}

#[test]
fn rollback_hedge_flattens_exactly_the_fill() {
    let filled_leg = leg("l1", 50_000_000, OrderSide::Long);
    assert!(plan_rollback_hedge(&filled_leg, 0).is_none());
    let hedge = plan_rollback_hedge(&filled_leg, 20_000_000).expect("a fill is hedged");
    assert_eq!(hedge.symbol, "AAA");
    assert_eq!(hedge.side, OrderSide::Short);
    assert_eq!(hedge.size, 20_000_000);
    assert!(hedge.reduce_only);
    assert_eq!(hedge.limit_price, None);
}

#[test]
fn post_only_retry_budget() {
    assert_eq!(
        decide_post_only_retry(1, 250, false),
        PostOnlyRetry::RetryAfterDelay { delay_ms: 200 }
    );
    // The attempt budget spends after three tries.
    assert_eq!(decide_post_only_retry(3, 700, true), PostOnlyRetry::FallbackToMarket);
    assert_eq!(decide_post_only_retry(3, 700, false), PostOnlyRetry::GiveUp);
    // The wall clock caps the run even with attempts left.
    assert_eq!(decide_post_only_retry(1, 1_500, false), PostOnlyRetry::GiveUp);
}

#[test]
fn history_reload_drops_aged_samples() {
    let entries = vec![
        PriceSample { log_price: 1_000_000, ts: 100 },
        PriceSample { log_price: 2_000_000, ts: 500 },
        PriceSample { log_price: 3_000_000, ts: 900 },
    ];
    let kept = prune_history(&entries, 1_000, 500);
    assert_eq!(kept.len(), 2);
    assert_eq!(kept[0].ts, 500);
    assert_eq!(kept[1].ts, 900);
    assert!(prune_history(&entries, 2_000, 500).is_empty());
}
