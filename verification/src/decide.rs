//! The entry/exit decision rules: cooldown and cost gating for
//! entries, and the prioritized exit reasons, including the
//! expected-value exit built on the fixed-point AR(1) decay.
//!
//! Every predicate's contract states the integer rule exactly; the
//! host learns nothing here that the contracts do not say.

use vstd::prelude::*;

use crate::config::PairTradeConfig;
use crate::fixed::MAX_AMOUNT;
use crate::regress::pow_fp;
use crate::stats::{div_trunc, div_trunc_i128, STAT_SCALE};
use crate::state::{PairState, Position, PositionDirection, SymbolSnapshot};

verus! {

/// Bound on the magnitude of a z-score handed to the decision rules.
pub const MAX_Z: i64 = 2_000_000_000_000_000;

/// Why a position is being closed.
#[derive(Clone, Copy, Debug, PartialEq, Eq, Structural)]
pub enum ExitReason {
    ForceClose,
    StopLossZ,
    ExitZ,
    MaxLossR,
    RiskBudget,
    ExpectedValue,
}

/// The label of an exit reason.
pub fn exit_reason_label(reason: ExitReason) -> (r: &'static str)
    ensures
        reason == ExitReason::ForceClose ==> r@ == "force_close"@,
        reason == ExitReason::StopLossZ ==> r@ == "stop_loss_z"@,
        reason == ExitReason::ExitZ ==> r@ == "exit_z"@,
        reason == ExitReason::MaxLossR ==> r@ == "max_loss_r"@,
        reason == ExitReason::RiskBudget ==> r@ == "risk_budget"@,
        reason == ExitReason::ExpectedValue ==> r@ == "expected_value"@,
{
    match reason {
        ExitReason::ForceClose => "force_close",
        ExitReason::StopLossZ => "stop_loss_z",
        ExitReason::ExitZ => "exit_z",
        ExitReason::MaxLossR => "max_loss_r",
        ExitReason::RiskBudget => "risk_budget",
        ExitReason::ExpectedValue => "expected_value",
    }
}

/// The round-trip cost in micro standard deviations: the two-leg fee
/// and slippage cost divided by the spread deviation; zero when the
/// deviation vanishes.
pub open spec fn spec_cost_in_sigma(cfg: &PairTradeConfig, std: int) -> int {
    if std <= 0 {
        0
    } else {
        cfg.spec_round_trip_cost_micro_bps() * 100 / std
    }
}

/// The round-trip cost in micro standard deviations.
pub fn cost_in_sigma(cfg: &PairTradeConfig, std: i64) -> (r: i64)
    requires
        cfg.wf(),
        0 <= std <= 2_000_000_000_000,
    ensures
        r == spec_cost_in_sigma(cfg, std as int),
        0 <= r <= 4_000_000_000_000_000,
{
    if std <= 0 {
        return 0;
    }
    let slip_mag: i64 = if cfg.slippage_bps >= 0 {
        cfg.slippage_bps
    } else {
        -cfg.slippage_bps
    };
    let total: i128 = 2 * cfg.fee_bps as i128 + 2 * slip_mag as i128 * STAT_SCALE as i128;
    proof {
        assert(0 <= 2 * (slip_mag as int) * (STAT_SCALE as int) <= 2_000_000_000_000int)
            by (nonlinear_arith)
            requires
                0 <= slip_mag <= 1_000_000,
                STAT_SCALE == 1_000_000,
        ;
    }
    let num: i128 = total * 100;
    let q: i128 = num / std as i128;
    proof {
        assert(0 <= num as int / std as int <= num) by (nonlinear_arith)
            requires
                num >= 0,
                std >= 1,
        ;
        assert(num as int / std as int == div_trunc(num as int, std as int));
    }
    q as i64
}

/// The entry gate: the cooldown has passed, the z-score clears the
/// carry-eased threshold plus costs without already breaching the
/// stop, and the carry clears its floor. The threshold easing takes
/// nine tenths of the dynamic threshold when the carry is positive.
pub open spec fn spec_should_enter(
    cfg: &PairTradeConfig,
    state: &PairState,
    z: int,
    std: int,
    net_funding: int,
    now: int,
) -> bool {
    let in_cooldown = match state.last_exit_at {
        Some(t) => now < t + cfg.cooldown_secs,
        None => false,
    };
    let threshold = if net_funding > 0 {
        state.z_entry * 9 / 10
    } else {
        state.z_entry as int
    };
    let az = if z >= 0 {
        z
    } else {
        -z
    };
    &&& !in_cooldown
    &&& az < cfg.stop_loss_z
    &&& az >= threshold
    &&& az >= threshold + spec_cost_in_sigma(cfg, std)
    &&& net_funding >= cfg.net_funding_min_per_hour
}

/// Whether a flat, eligible pair should be entered now.
pub fn should_enter(
    cfg: &PairTradeConfig,
    state: &PairState,
    z: i64,
    std: i64,
    net_funding: i64,
    now: u64,
) -> (r: bool)
    requires
        cfg.wf(),
        -MAX_Z <= z <= MAX_Z,
        0 <= std <= 2_000_000_000_000,
        -1_000_000_000_000 <= net_funding <= 1_000_000_000_000,
        0 <= state.z_entry <= 1_000_000_000_000,
        now <= 4_000_000_000_000,
        state.last_exit_at matches Some(t) ==> t <= 4_000_000_000_000,
    ensures
        r == spec_should_enter(
            cfg,
            state,
            z as int,
            std as int,
            net_funding as int,
            now as int,
        ),
{
    if let Some(t) = state.last_exit_at {
        if now < t + cfg.cooldown_secs {
            return false;
        }
    }
    let threshold: i64 = if net_funding > 0 {
        state.z_entry * 9 / 10
    } else {
        state.z_entry
    };
    let az: i64 = if z >= 0 {
        z
    } else {
        -z
    };
    if az >= cfg.stop_loss_z {
        return false;
    }
    if az < threshold {
        return false;
    }
    let cost: i64 = cost_in_sigma(cfg, std);
    az >= threshold + cost && net_funding >= cfg.net_funding_min_per_hour
}

/// Cooldown law: within `cooldown_secs` of the last exit, no entry is
/// taken, whatever the market shows.
pub proof fn lemma_cooldown_blocks_entry(
    cfg: &PairTradeConfig,
    state: &PairState,
    z: int,
    std: int,
    net_funding: int,
    now: int,
    t: int,
)
    requires
        state.last_exit_at == Some(t as u64),
        0 <= t <= now,
        now - t < cfg.cooldown_secs,
        t <= u64::MAX,
    ensures
        !spec_should_enter(cfg, state, z, std, net_funding, now),
{
}

/// The mark-to-market profit of a position against exit prices, in
/// atoms; `None` when the entry prices or sizes are unknown. Each
/// leg's profit is its price move times its size, with the sign set by
/// the direction.
pub open spec fn spec_pnl(pos: &Position, exit_price_a: int, exit_price_b: int) -> Option<int> {
    match (pos.entry_price_a, pos.entry_price_b, pos.entry_size_a, pos.entry_size_b) {
        (Some(pa), Some(pb), Some(sa), Some(sb)) => {
            let (da, db) = match pos.direction {
                PositionDirection::LongSpread => (exit_price_a - pa, pb - exit_price_b),
                PositionDirection::ShortSpread => (pa - exit_price_a, exit_price_b - pb),
            };
            Some(div_trunc(da * sa + db * sb, crate::fixed::AMOUNT_SCALE as int))
        },
        _ => None,
    }
}

/// The mark-to-market profit of a position, in atoms.
pub fn compute_pnl(pos: &Position, exit_price_a: u64, exit_price_b: u64) -> (r: Option<i128>)
    requires
        exit_price_a <= MAX_AMOUNT,
        exit_price_b <= MAX_AMOUNT,
        pos.entry_price_a matches Some(p) ==> p <= MAX_AMOUNT,
        pos.entry_price_b matches Some(p) ==> p <= MAX_AMOUNT,
        pos.entry_size_a matches Some(s) ==> s <= MAX_AMOUNT,
        pos.entry_size_b matches Some(s) ==> s <= MAX_AMOUNT,
    ensures
        r is Some <==> spec_pnl(pos, exit_price_a as int, exit_price_b as int) is Some,
        r matches Some(v) ==> Some(v as int) == spec_pnl(
            pos,
            exit_price_a as int,
            exit_price_b as int,
        ),
        r matches Some(v) ==> -4_000_000_000_000_000_000_000_000_000int <= v
            <= 4_000_000_000_000_000_000_000_000_000int,
{
    let (pa, pb, sa, sb): (u64, u64, u64, u64) = match (
        pos.entry_price_a,
        pos.entry_price_b,
        pos.entry_size_a,
        pos.entry_size_b,
    ) {
        (Some(pa), Some(pb), Some(sa), Some(sb)) => (pa, pb, sa, sb),
        _ => {
            return None;
        },
    };
    let (da, db): (i128, i128) = match pos.direction {
        PositionDirection::LongSpread => (
            exit_price_a as i128 - pa as i128,
            pb as i128 - exit_price_b as i128,
        ),
        PositionDirection::ShortSpread => (
            pa as i128 - exit_price_a as i128,
            exit_price_b as i128 - pb as i128,
        ),
    };
    proof {
        assert(-2_000_000_000_000_000_000_000_000_000_000_000_000int <= da * sa
            <= 2_000_000_000_000_000_000_000_000_000_000_000_000int
            && -2_000_000_000_000_000_000_000_000_000_000_000_000int <= db * sb
            <= 2_000_000_000_000_000_000_000_000_000_000_000_000int) by (nonlinear_arith)
            requires
                -2_000_000_000_000_000_000int <= da <= 2_000_000_000_000_000_000int,
                -2_000_000_000_000_000_000int <= db <= 2_000_000_000_000_000_000int,
                0 <= sa <= 1_000_000_000_000_000_000int,
                0 <= sb <= 1_000_000_000_000_000_000int,
        ;
    }
    let num: i128 = da * sa as i128 + db * sb as i128;
    let v: i128 = div_trunc_i128(num, crate::fixed::AMOUNT_SCALE as i128);
    proof {
        assert(-4_000_000_000_000_000_000_000_000_000int <= div_trunc(
            num as int,
            crate::fixed::AMOUNT_SCALE as int,
        ) <= 4_000_000_000_000_000_000_000_000_000int) by (nonlinear_arith)
            requires
                -4_000_000_000_000_000_000_000_000_000_000_000_000int <= num as int
                    <= 4_000_000_000_000_000_000_000_000_000_000_000_000int,
                crate::fixed::AMOUNT_SCALE == 1_000_000_000,
        ;
    }
    Some(v)
}

/// The fixed-point one-half decay after `q` half-lives.
pub fn pow_half(q: u64) -> (r: i64)
    ensures
        r == pow_fp(500_000, q as nat),
        0 <= r <= STAT_SCALE,
{
    let mut p: i64 = STAT_SCALE;
    let mut k: u64 = 0;
    while k < q && p > 0
        invariant
            0 <= k <= q,
            0 <= p <= STAT_SCALE,
            p == pow_fp(500_000, k as nat),
            k < q ==> p >= 0,
        decreases q - k,
    {
        proof {
            assert(0 <= (p as int) * 500_000 / (STAT_SCALE as int) <= p) by (nonlinear_arith)
                requires
                    0 <= p <= STAT_SCALE,
                    STAT_SCALE == 1_000_000,
            ;
        }
        let next: i64 = ((p as i128 * 500_000) / STAT_SCALE as i128) as i64;
        proof {
            assert(pow_fp(500_000, (k + 1) as nat) == pow_fp(500_000, k as nat) * 500_000 / (
            STAT_SCALE as int));
        }
        p = next;
        k = k + 1;
    }
    if k < q {
        proof {
            lemma_pow_zero_stays(500_000, k as nat, q as nat);
        }
        0
    } else {
        p
    }
}

proof fn lemma_pow_zero_stays(ar: int, k: nat, q: nat)
    requires
        0 <= ar,
        k <= q,
        pow_fp(ar, k) == 0,
    ensures
        pow_fp(ar, q) == 0,
    decreases q - k,
{
    if k < q {
        assert(pow_fp(ar, (k + 1) as nat) == pow_fp(ar, k) * ar / (STAT_SCALE as int));
        assert(0 * ar == 0) by (nonlinear_arith);
        assert(0int / (STAT_SCALE as int) == 0);
        lemma_pow_zero_stays(ar, (k + 1) as nat, q);
    }
}

/// The prioritized exit rule, first match wins: force-close on age,
/// stop-loss, mean reversion, the risk budget in either direction,
/// and finally the expected-value exit, which closes a profitable
/// position whose remaining expected improvement, under the
/// fixed-point half-life decay, no longer covers the round-trip cost.
pub open spec fn spec_exit_reason(
    cfg: &PairTradeConfig,
    state: &PairState,
    z: int,
    std: int,
    price_a: int,
    price_b: int,
    equity_base: int,
    now: int,
) -> Option<ExitReason> {
    match state.position {
        None => None,
        Some(pos) => {
            let az = if z >= 0 {
                z
            } else {
                -z
            };
            let pnl = spec_pnl(&pos, price_a, price_b);
            let target = equity_base * cfg.risk_pct_per_trade / (STAT_SCALE as int);
            if now - pos.entered_at >= cfg.force_close_secs {
                Some(ExitReason::ForceClose)
            } else if az >= cfg.stop_loss_z {
                Some(ExitReason::StopLossZ)
            } else if cfg.exit_z > 0 && az <= cfg.exit_z {
                Some(ExitReason::ExitZ)
            } else if (pnl matches Some(p) && target > 0 && cfg.max_loss_r_mult > 0 && p <= -(
            target * cfg.max_loss_r_mult / (STAT_SCALE as int))) {
                Some(ExitReason::MaxLossR)
            } else if (pnl matches Some(p) && target > 0 && p >= target) {
                Some(ExitReason::RiskBudget)
            } else {
                match (pnl, state.half_life_bars) {
                    (Some(p), Some(hl)) => if std >= 1 && p > 0 && hl > 0 {
                        let remaining = cfg.force_close_secs - (now - pos.entered_at);
                        let hl_secs = hl * cfg.trading_period_secs;
                        let decay = pow_fp(500_000, (remaining / hl_secs) as nat);
                        let improvement = az * ((STAT_SCALE as int) - decay) / (
                        STAT_SCALE as int);
                        if improvement <= spec_cost_in_sigma(cfg, std) {
                            Some(ExitReason::ExpectedValue)
                        } else {
                            None
                        }
                    } else {
                        None
                    },
                    _ => None,
                }
            }
        },
    }
}

/// The exit reason for an open position, if any.
pub fn exit_reason(
    cfg: &PairTradeConfig,
    state: &PairState,
    z: i64,
    std: i64,
    price_a: u64,
    price_b: u64,
    equity_base: u64,
    now: u64,
) -> (r: Option<ExitReason>)
    requires
        cfg.wf(),
        -MAX_Z <= z <= MAX_Z,
        0 <= std <= 2_000_000_000_000,
        price_a <= MAX_AMOUNT,
        price_b <= MAX_AMOUNT,
        equity_base <= MAX_AMOUNT,
        now <= 4_000_000_000_000,
        state.position matches Some(pos) ==> {
            &&& pos.entered_at <= now
            &&& (pos.entry_price_a matches Some(p) ==> p <= MAX_AMOUNT)
            &&& (pos.entry_price_b matches Some(p) ==> p <= MAX_AMOUNT)
            &&& (pos.entry_size_a matches Some(s) ==> s <= MAX_AMOUNT)
            &&& (pos.entry_size_b matches Some(s) ==> s <= MAX_AMOUNT)
        },
        state.half_life_bars matches Some(hl) ==> hl <= 1_000_000,
    ensures
        r == spec_exit_reason(
            cfg,
            state,
            z as int,
            std as int,
            price_a as int,
            price_b as int,
            equity_base as int,
            now as int,
        ),
{
    let pos: &Position = match &state.position {
        Some(p) => p,
        None => {
            return None;
        },
    };
    let az: i64 = if z >= 0 {
        z
    } else {
        -z
    };
    let age: u64 = now - pos.entered_at;
    if age >= cfg.force_close_secs {
        return Some(ExitReason::ForceClose);
    }
    if az >= cfg.stop_loss_z {
        return Some(ExitReason::StopLossZ);
    }
    if cfg.exit_z > 0 && az <= cfg.exit_z {
        return Some(ExitReason::ExitZ);
    }
    let pnl: Option<i128> = compute_pnl(pos, price_a, price_b);
    proof {
        assert(0 <= (equity_base as int) * (cfg.risk_pct_per_trade as int)
            <= 1_000_000_000_000_000_000_000_000int) by (nonlinear_arith)
            requires
                0 <= equity_base as int <= 1_000_000_000_000_000_000int,
                0 <= cfg.risk_pct_per_trade <= 1_000_000,
        ;
        assert(0 <= (equity_base as int) * (cfg.risk_pct_per_trade as int) / (STAT_SCALE as int)
            <= 1_000_000_000_000_000_000_000_000int) by (nonlinear_arith)
            requires
                0 <= (equity_base as int) * (cfg.risk_pct_per_trade as int)
                    <= 1_000_000_000_000_000_000_000_000int,
                STAT_SCALE == 1_000_000,
        ;
    }
    let target: i128 = equity_base as i128 * cfg.risk_pct_per_trade as i128
        / STAT_SCALE as i128;
    if let Some(p) = pnl {
        if target > 0 && cfg.max_loss_r_mult > 0 {
            proof {
                assert(0 <= (target as int) * (cfg.max_loss_r_mult as int)
                    <= 1_000_000_000_000_000_000_000_000_000_000_000int) by (nonlinear_arith)
                    requires
                        0 <= target as int <= 1_000_000_000_000_000_000_000_000int,
                        0 <= cfg.max_loss_r_mult <= 1_000_000_000,
                ;
                assert(0 <= (target as int) * (cfg.max_loss_r_mult as int) / (STAT_SCALE as int)
                    <= 1_000_000_000_000_000_000_000_000_000_000_000int) by (nonlinear_arith)
                    requires
                        0 <= (target as int) * (cfg.max_loss_r_mult as int)
                            <= 1_000_000_000_000_000_000_000_000_000_000_000int,
                        STAT_SCALE == 1_000_000,
                ;
            }
            let max_loss_mag: i128 = target * cfg.max_loss_r_mult as i128 / STAT_SCALE as i128;
            if p <= -max_loss_mag {
                return Some(ExitReason::MaxLossR);
            }
        }
        if target > 0 && p >= target {
            return Some(ExitReason::RiskBudget);
        }
    }
    if std >= 1 {
        if let Some(p) = pnl {
            if p > 0 {
                if let Some(hl) = state.half_life_bars {
                    if hl > 0 {
                        let remaining: u64 = cfg.force_close_secs - age;
                        proof {
                            assert(1 <= (hl as int) * (cfg.trading_period_secs as int)
                                <= 1_000_000_000_000int) by (nonlinear_arith)
                                requires
                                    1 <= hl as int <= 1_000_000,
                                    1 <= cfg.trading_period_secs <= 1_000_000,
                            ;
                        }
                        let hl_secs: u64 = hl * cfg.trading_period_secs;
                        let q: u64 = remaining / hl_secs;
                        let decay: i64 = pow_half(q);
                        let gap: i64 = STAT_SCALE - decay;
                        proof {
                            assert(0 <= (az as int) * (gap as int)
                                <= 2_000_000_000_000_000_000_000int) by (nonlinear_arith)
                                requires
                                    0 <= az <= MAX_Z,
                                    0 <= gap <= STAT_SCALE,
                                    MAX_Z == 2_000_000_000_000_000,
                                    STAT_SCALE == 1_000_000,
                            ;
                        }
                        let improvement: i128 = az as i128 * gap as i128 / STAT_SCALE as i128;
                        proof {
                            assert(0 <= (az as int) * (gap as int) / (STAT_SCALE as int)
                                <= 2_000_000_000_000_000_000_000int) by (nonlinear_arith)
                                requires
                                    0 <= (az as int) * (gap as int)
                                        <= 2_000_000_000_000_000_000_000int,
                                    STAT_SCALE == 1_000_000,
                            ;
                        }
                        let cost: i64 = cost_in_sigma(cfg, std);
                        if improvement <= cost as i128 {
                            return Some(ExitReason::ExpectedValue);
                        }
                    }
                }
            }
        }
    }
    None
}

/// The hourly net funding carry of the direction a z-score implies: a
/// positive z plans to short the base and collect its funding.
pub open spec fn spec_net_funding(z: int, funding_a: int, funding_b: int) -> int {
    if z > 0 {
        div_trunc(funding_b - funding_a, 24)
    } else {
        div_trunc(funding_a - funding_b, 24)
    }
}

/// The hourly net funding carry of the direction a z-score implies.
pub fn net_funding_for_direction(z: i64, p1: &SymbolSnapshot, p2: &SymbolSnapshot) -> (r: i64)
    requires
        p1.wf(),
        p2.wf(),
    ensures
        r == spec_net_funding(z as int, p1.funding_rate as int, p2.funding_rate as int),
        -1_000_000_000_000 <= r <= 1_000_000_000_000,
{
    let diff: i128 = if z > 0 {
        p2.funding_rate as i128 - p1.funding_rate as i128
    } else {
        p1.funding_rate as i128 - p2.funding_rate as i128
    };
    let q: i128 = div_trunc_i128(diff, 24);
    proof {
        assert(-1_000_000_000_000int <= div_trunc(diff as int, 24) <= 1_000_000_000_000int)
            by (nonlinear_arith)
            requires
                -2_000_000_000_000int <= diff as int <= 2_000_000_000_000int,
        ;
    }
    q as i64
}

/// The liquidity score of a pair: the smaller touch size of each leg,
/// summed, in atoms.
pub open spec fn spec_liquidity(p1: &SymbolSnapshot, p2: &SymbolSnapshot) -> int {
    let s1 = if p1.bid_size <= p1.ask_size {
        p1.bid_size as int
    } else {
        p1.ask_size as int
    };
    let s2 = if p2.bid_size <= p2.ask_size {
        p2.bid_size as int
    } else {
        p2.ask_size as int
    };
    s1 + s2
}

/// The liquidity score of a pair, in atoms.
pub fn liquidity_score(p1: &SymbolSnapshot, p2: &SymbolSnapshot) -> (r: u64)
    requires
        p1.wf(),
        p2.wf(),
    ensures
        r == spec_liquidity(p1, p2),
{
    let s1: u64 = if p1.bid_size <= p1.ask_size {
        p1.bid_size
    } else {
        p1.ask_size
    };
    let s2: u64 = if p2.bid_size <= p2.ask_size {
        p2.bid_size
    } else {
        p2.ask_size
    };
    s1 + s2
}

/// The dynamic entry threshold: the base threshold scaled by the
/// pair's entry-window volatility relative to the cross-pair median,
/// the ratio clamped to `[0.5, 2.0]` and the product clamped to the
/// configured band. A pair with no measurable volatility uses a unit
/// ratio numerator.
pub open spec fn spec_entry_z(cfg: &PairTradeConfig, vol_pair: int, vol_median: int) -> int {
    let alpha = crate::regress::clamp_int(
        vol_pair * (STAT_SCALE as int) / vol_median,
        500_000,
        2_000_000,
    );
    crate::regress::clamp_int(
        cfg.entry_z_base * alpha / (STAT_SCALE as int),
        cfg.entry_z_min as int,
        cfg.entry_z_max as int,
    )
}

/// The dynamic entry threshold for a pair, from its entry-window
/// volatility and the cross-pair median volatility.
pub fn entry_z_for_pair(cfg: &PairTradeConfig, vol_pair: i64, vol_median: i64) -> (r: i64)
    requires
        cfg.wf(),
        0 <= vol_pair <= 2_000_000_000_000,
        1 <= vol_median <= 2_000_000_000_000,
    ensures
        r == spec_entry_z(cfg, vol_pair as int, vol_median as int),
        cfg.entry_z_min <= r <= cfg.entry_z_max,
{
    proof {
        assert(0 <= (vol_pair as int) * (STAT_SCALE as int) <= 2_000_000_000_000_000_000int)
            by (nonlinear_arith)
            requires
                0 <= vol_pair <= 2_000_000_000_000,
                STAT_SCALE == 1_000_000,
        ;
    }
    let scaled: i128 = vol_pair as i128 * STAT_SCALE as i128;
    let ratio: i128 = scaled / vol_median as i128;
    proof {
        assert(0 <= scaled as int / (vol_median as int) <= scaled) by (nonlinear_arith)
            requires
                scaled >= 0,
                vol_median >= 1,
        ;
        assert(scaled as int / (vol_median as int) == div_trunc(scaled as int, vol_median as int));
    }
    let alpha: i64 = if ratio < 500_000 {
        500_000
    } else if ratio > 2_000_000 {
        2_000_000
    } else {
        ratio as i64
    };
    proof {
        assert(0 <= (cfg.entry_z_base as int) * (alpha as int) <= 2_000_000_000_000_000_000int)
            by (nonlinear_arith)
            requires
                0 <= cfg.entry_z_base <= 1_000_000_000_000,
                500_000 <= alpha <= 2_000_000,
        ;
    }
    let prod: i128 = cfg.entry_z_base as i128 * alpha as i128;
    let zq: i128 = prod / STAT_SCALE as i128;
    proof {
        assert(0 <= prod as int / (STAT_SCALE as int) <= prod) by (nonlinear_arith)
            requires
                prod >= 0,
                STAT_SCALE >= 1,
        ;
        assert(prod as int / (STAT_SCALE as int) == div_trunc(prod as int, STAT_SCALE as int));
    }
    if zq < cfg.entry_z_min as i128 {
        cfg.entry_z_min
    } else if zq > cfg.entry_z_max as i128 {
        cfg.entry_z_max
    } else {
        zq as i64
    }
}

} // verus!
