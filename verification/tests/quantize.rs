//! Size and price quantization, sizing, and the reissue plan for
//! partially filled legs. Sizes and prices are atoms of 10^-9 units:
//! 100.123 is written 100_123_000_000.

use pairtrade::config::PairTradeConfig;
use pairtrade::fixed::{quantize_down, quantize_up, round_price_long, round_price_short};
use pairtrade::orders::{
    apply_slippage, hedged_sizes, legs_after_reissue, limit_price_for, plan_close_commands,
    plan_entry_commands, plan_reissue_leg, LegPlan, OrderOutcome,
};
use pairtrade::state::PositionDirection;
use pairtrade::state::{OrderSide, PendingLeg, SymbolSnapshot};

fn snapshot(price: u64) -> SymbolSnapshot {
    SymbolSnapshot {
        price,
        funding_rate: 0,
        bid_price: None,
        ask_price: None,
        bid_size: 0,
        ask_size: 0,
        min_order: Some(1_000_000),
        min_tick: Some(1_000_000),
        size_decimals: Some(3),
    }
}

#[test]
fn round_price_by_tick_rounds_long_down() {
    let price: u64 = 100_123_000_000;
    let step: u64 = 10_000_000;
    let quantized = round_price_long(price, step);
    assert_eq!(quantized, 100_120_000_000);
}

#[test]
fn round_price_by_tick_rounds_short_up() {
    let price: u64 = 100_123_000_000;
    let step: u64 = 10_000_000;
    let quantized = round_price_short(price, step);
    assert_eq!(quantized, 100_130_000_000);
}

#[test]
fn round_price_by_tick_enforces_minimum_step() {
    let price: u64 = 100_000;
    let step: u64 = 5_000_000;
    let quantized = round_price_long(price, step);
    assert_eq!(quantized, step);
}

#[test]
fn quantize_size_by_step_uses_size_decimals() {
    let size: u64 = 2_300_000;
    let step: u64 = 1_000_000;
    let quantized = quantize_down(size, step, None);
    assert_eq!(quantized, 2_000_000);
}

#[test]
fn quantize_size_by_step_respects_min_order_floor() {
    let size: u64 = 200_000;
    let step: u64 = 100_000;
    let quantized = quantize_down(size, step, Some(1_000_000));
    assert_eq!(quantized, 1_000_000);
}

#[test]
fn quantize_size_by_step_ceiling_rounds_up() {
    let size: u64 = 2_300_000;
    let step: u64 = 1_000_000;
    let quantized = quantize_up(size, step, None);
    assert_eq!(quantized, 3_000_000);
}

#[test]
fn quantize_up_stays_within_one_step() {
    let size: u64 = 2_300_000;
    let step: u64 = 1_000_000;
    let quantized = quantize_up(size, step, None);
    assert!(quantized >= size);
    assert!(quantized < size + step);
    assert_eq!(quantized % step, 0);
}

#[test]
fn reissue_partial_entry_leg_reorders_remaining() {
    let cfg = PairTradeConfig::default();
    let leg = PendingLeg {
        symbol: "AAA".to_string(),
        order_id: "leg1".to_string(),
        exchange_order_id: None,
        target: 50_000_000,
        filled: 0,
        side: OrderSide::Long,
        placed_price: 100_000_000,
    };
    let fills = vec![("leg1".to_string(), 20_000_000u64)];
    let snap = snapshot(100_000_000_000);
    let plan = plan_reissue_leg(&cfg, &leg, &fills, Some(&snap), false, false);
    match &plan {
        LegPlan::Reissue { filled, command } => {
            assert_eq!(*filled, 20_000_000);
            assert_eq!(command.symbol, "AAA");
            assert_eq!(command.size, 30_000_000);
            assert_eq!(command.limit_price, Some(100_000_000_000));
            assert!(!command.reduce_only);
        }
        LegPlan::Keep { .. } => panic!("a residual with a live price must be reissued"),
    }
    let outcome = OrderOutcome::Placed {
        order_id: "fresh".to_string(),
        exchange_order_id: None,
        ordered_price: 100_000_000_000,
        ordered_size: 30_000_000,
    };
    let legs = legs_after_reissue(&leg, &plan, &outcome);
    assert_eq!(legs.len(), 2);
    assert!(legs
        .iter()
        .any(|l| l.target == 20_000_000 && l.filled == 20_000_000));
    assert!(legs.iter().any(|l| l.target == 30_000_000 && l.filled == 0));
}

#[test]
fn reissue_partial_entry_missing_price_keeps_pending() {
    let cfg = PairTradeConfig::default();
    let leg = PendingLeg {
        symbol: "AAA".to_string(),
        order_id: "leg1".to_string(),
        exchange_order_id: None,
        target: 50_000_000,
        filled: 0,
        side: OrderSide::Long,
        placed_price: 100_000_000,
    };
    let fills = vec![("leg1".to_string(), 20_000_000u64)];
    let plan = plan_reissue_leg(&cfg, &leg, &fills, None, false, false);
    match &plan {
        LegPlan::Keep { filled } => assert_eq!(*filled, 20_000_000),
        LegPlan::Reissue { .. } => panic!("no reference price must keep the leg pending"),
    }
    let outcome = OrderOutcome::Failed {
        position_confirmed_missing: false,
    };
    let legs = legs_after_reissue(&leg, &plan, &outcome);
    assert_eq!(legs.len(), 1);
    assert_eq!(legs[0].target, 50_000_000);
    assert_eq!(legs[0].filled, 20_000_000);
}

#[test]
fn hedged_sizes_split_the_risk_notional() {
    let cfg = PairTradeConfig::default();
    let p1 = snapshot(100_000_000_000);
    let p2 = snapshot(50_000_000_000);
    let (qty_a, qty_b) = hedged_sizes(&cfg, 0, 2_000_000, &p1, &p2);
    assert_eq!(qty_a, 2_500_000_000);
    assert_eq!(qty_b, 10_000_000_000);
}

#[test]
fn hedged_sizes_zero_price_gives_zero_size() {
    let cfg = PairTradeConfig::default();
    let p1 = snapshot(0);
    let p2 = snapshot(50_000_000_000);
    let (qty_a, qty_b) = hedged_sizes(&cfg, 0, 1_000_000, &p1, &p2);
    assert_eq!(qty_a, 0);
    assert!(qty_b > 0);
}

#[test]
fn slippage_moves_against_the_taker() {
    let mut cfg = PairTradeConfig::default();
    cfg.slippage_bps = 10;
    let price: u64 = 100_000_000_000;
    // An aggressive long pays ten basis points more, a short receives less.
    assert_eq!(apply_slippage(&cfg, price, OrderSide::Long), 100_100_000_000);
    assert_eq!(apply_slippage(&cfg, price, OrderSide::Short), 99_900_000_000);
    cfg.slippage_bps = -10;
    // A passive long rests below the reference.
    assert_eq!(apply_slippage(&cfg, price, OrderSide::Long), 99_900_000_000);
}

#[test]
fn limit_price_rounds_toward_the_passive_side() {
    let cfg = PairTradeConfig::default();
    let mut snap = snapshot(100_123_000_000);
    snap.min_tick = Some(10_000_000);
    assert_eq!(limit_price_for(&cfg, OrderSide::Long, &snap), 100_120_000_000);
    assert_eq!(limit_price_for(&cfg, OrderSide::Short, &snap), 100_130_000_000);
}

#[test]
fn entry_commands_take_the_direction_sides() {
    let cfg = PairTradeConfig::default();
    let snap_a = snapshot(100_000_000_000);
    let snap_b = snapshot(50_000_000_000);
    let base = "AAA".to_string();
    let quote = "BBB".to_string();
    let (cmd_a, cmd_b) = plan_entry_commands(
        &cfg,
        &base,
        &quote,
        PositionDirection::ShortSpread,
        2_500_000_000,
        10_000_000_000,
        &snap_a,
        &snap_b,
    );
    assert_eq!(cmd_a.symbol, "AAA");
    assert_eq!(cmd_a.side, OrderSide::Short);
    assert_eq!(cmd_a.size, 2_500_000_000);
    assert_eq!(cmd_a.limit_price, Some(100_000_000_000));
    assert!(!cmd_a.reduce_only);
    assert_eq!(cmd_b.side, OrderSide::Long);
    assert_eq!(cmd_b.size, 10_000_000_000);
}

#[test]
fn entry_commands_round_sizes_down() {
    let cfg = PairTradeConfig::default();
    let snap = snapshot(100_000_000_000);
    let base = "AAA".to_string();
    let quote = "BBB".to_string();
    let (cmd_a, _) = plan_entry_commands(
        &cfg,
        &base,
        &quote,
        PositionDirection::LongSpread,
        2_300_000,
        2_300_000,
        &snap,
        &snap,
    );
    // 0.0023 on a 0.001 step enters as 0.002, never as 0.003.
    assert_eq!(cmd_a.size, 2_000_000);
}

#[test]
fn close_commands_are_reduce_only_and_skip_empty_legs() {
    let cfg = PairTradeConfig::default();
    let snap_a = snapshot(100_000_000_000);
    let snap_b = snapshot(50_000_000_000);
    let base = "AAA".to_string();
    let quote = "BBB".to_string();
    let (cmd_a, cmd_b) = plan_close_commands(
        &cfg,
        &base,
        &quote,
        PositionDirection::LongSpread,
        2_500_000_000,
        0,
        &snap_a,
        &snap_b,
        true,
    );
    let cmd_a = cmd_a.expect("the base leg has size");
    assert_eq!(cmd_a.side, OrderSide::Short);
    assert!(cmd_a.reduce_only);
    assert_eq!(cmd_a.limit_price, None);
    assert!(cmd_b.is_none());
}
