//! The per-pair step of the control loop: when a pair is re-evaluated,
//! how a fresh evaluation lands in its state, and which action one
//! tick derives for it — a forced close on age, an exit by the
//! prioritized reasons, a gated entry, or nothing.
//!
//! The host performs the venue calls around this; the whole decision
//! tree is a pure function of the pair state and the observed tick.

use vstd::prelude::*;

use crate::config::PairTradeConfig;
use crate::decide::{exit_reason, should_enter, spec_exit_reason, spec_net_funding,
    spec_should_enter, MAX_Z};
use crate::evaluate::PairEvaluation;
use crate::fixed::MAX_AMOUNT;
use crate::state::{PairState, PositionDirection, SymbolSnapshot};
use crate::stats::{div_trunc, spec_isqrt, spec_tail_var, tail_std, STAT_SCALE};

verus! {

/// What one tick asks for on one pair.
#[derive(Clone, Copy, Debug, PartialEq, Eq, Structural)]
pub enum TradeAction {
    /// Open a position on the given side of the spread.
    OpenSpread { direction: PositionDirection },
    /// Close the open position; forced closes ignore the z-score.
    CloseSpread { direction: PositionDirection, force: bool },
    /// Do nothing this tick.
    Hold,
}

/// Seconds between routine re-evaluations of a pair.
pub const REEVALUATION_INTERVAL_SECS: u64 = 3600;

/// Whether a pair's model is re-evaluated this tick: on the routine
/// interval (or when never evaluated), on a z-score jump past the
/// threshold multiple, on a velocity past the velocity ceiling's
/// multiple, or on a volatility spike of the current deviation against
/// the full-window deviation.
pub open spec fn spec_needs_reevaluation(
    cfg: &PairTradeConfig,
    state: &PairState,
    z: Option<(int, int)>,
    now: int,
) -> bool {
    let interval_due = match state.last_evaluated {
        Some(t) => now >= t + REEVALUATION_INTERVAL_SECS,
        None => true,
    };
    let jump = match z {
        Some((zv, _)) => {
            let az = if zv >= 0 {
                zv
            } else {
                -zv
            };
            az >= state.z_entry * cfg.reeval_jump_z_mult / (STAT_SCALE as int)
        },
        None => false,
    };
    let vel = if state.last_velocity_sigma_per_min >= 0 {
        state.last_velocity_sigma_per_min as int
    } else {
        -state.last_velocity_sigma_per_min as int
    };
    let velocity_due = vel >= cfg.spread_velocity_max_sigma_per_min * cfg.reeval_jump_z_mult / (
    STAT_SCALE as int);
    let spike = match z {
        Some((_, std)) => {
            let h = state.spread_history@;
            let full_tail = h.subrange(
                if h.len() >= cfg.metrics_window {
                    h.len() - cfg.metrics_window as int
                } else {
                    0
                },
                h.len() as int,
            );
            let base = spec_isqrt(spec_tail_var(full_tail));
            h.len() > 0 && cfg.metrics_window > 0 && base >= 1 && std * (STAT_SCALE as int) / base
                >= cfg.vol_spike_mult
        },
        None => false,
    };
    interval_due || jump || velocity_due || spike
}

/// Whether a pair's model is re-evaluated this tick.
pub fn needs_reevaluation(
    cfg: &PairTradeConfig,
    state: &PairState,
    z: Option<(i64, i64)>,
    now: u64,
) -> (r: bool)
    requires
        cfg.wf(),
        0 <= state.z_entry <= 1_000_000_000_000,
        state.history_ok(cfg.metrics_window as nat),
        -200_000_000_000_000_000 <= state.last_velocity_sigma_per_min <= 200_000_000_000_000_000,
        z matches Some((zv, std)) ==> -MAX_Z <= zv <= MAX_Z && 0 <= std <= 2_000_000_000_000,
        now <= 4_000_000_000_000,
        state.last_evaluated matches Some(t) ==> t <= 4_000_000_000_000,
    ensures
        r == spec_needs_reevaluation(
            cfg,
            state,
            match z {
                Some((zv, std)) => Some((zv as int, std as int)),
                None => None,
            },
            now as int,
        ),
{
    let interval_due: bool = match state.last_evaluated {
        Some(t) => now >= t + REEVALUATION_INTERVAL_SECS,
        None => true,
    };
    if interval_due {
        return true;
    }
    proof {
        assert(0 <= (state.z_entry as int) * (cfg.reeval_jump_z_mult as int)
            <= 1_000_000_000_000_000_000_000int) by (nonlinear_arith)
            requires
                0 <= state.z_entry <= 1_000_000_000_000,
                0 <= cfg.reeval_jump_z_mult <= 1_000_000_000,
        ;
        assert(0 <= (state.z_entry as int) * (cfg.reeval_jump_z_mult as int) / (STAT_SCALE as int)
            <= 1_000_000_000_000_000_000_000int) by (nonlinear_arith)
            requires
                0 <= (state.z_entry as int) * (cfg.reeval_jump_z_mult as int)
                    <= 1_000_000_000_000_000_000_000int,
                STAT_SCALE == 1_000_000,
        ;
        assert(0 <= (cfg.spread_velocity_max_sigma_per_min as int) * (
        cfg.reeval_jump_z_mult as int) <= 1_000_000_000_000_000_000_000int) by (nonlinear_arith)
            requires
                0 <= cfg.spread_velocity_max_sigma_per_min <= 1_000_000_000_000,
                0 <= cfg.reeval_jump_z_mult <= 1_000_000_000,
        ;
        assert(0 <= (cfg.spread_velocity_max_sigma_per_min as int) * (
        cfg.reeval_jump_z_mult as int) / (STAT_SCALE as int)
            <= 1_000_000_000_000_000_000_000int) by (nonlinear_arith)
            requires
                0 <= (cfg.spread_velocity_max_sigma_per_min as int) * (
                cfg.reeval_jump_z_mult as int) <= 1_000_000_000_000_000_000_000int,
                STAT_SCALE == 1_000_000,
        ;
    }
    if let Some((zv, _)) = z {
        let az: i64 = if zv >= 0 {
            zv
        } else {
            -zv
        };
        let threshold: i128 = state.z_entry as i128 * cfg.reeval_jump_z_mult as i128
            / STAT_SCALE as i128;
        if az as i128 >= threshold {
            return true;
        }
    }
    let vel: i64 = if state.last_velocity_sigma_per_min >= 0 {
        state.last_velocity_sigma_per_min
    } else {
        -state.last_velocity_sigma_per_min
    };
    let vel_threshold: i128 = cfg.spread_velocity_max_sigma_per_min as i128
        * cfg.reeval_jump_z_mult as i128 / STAT_SCALE as i128;
    if vel as i128 >= vel_threshold {
        return true;
    }
    if let Some((_, std)) = z {
        if state.spread_history.len() > 0 && cfg.metrics_window > 0 {
            if let Some(base) = tail_std(&state.spread_history, cfg.metrics_window) {
                if base >= 1 {
                    proof {
                        assert(0 <= (std as int) * (STAT_SCALE as int)
                            <= 2_000_000_000_000_000_000int) by (nonlinear_arith)
                            requires
                                0 <= std <= 2_000_000_000_000,
                                STAT_SCALE == 1_000_000,
                        ;
                        assert(0 <= (std as int) * (STAT_SCALE as int) / (base as int)
                            <= 2_000_000_000_000_000_000int) by (nonlinear_arith)
                            requires
                                0 <= (std as int) * (STAT_SCALE as int)
                                    <= 2_000_000_000_000_000_000int,
                                base >= 1,
                        ;
                        assert((std as int) * (STAT_SCALE as int) / (base as int) == div_trunc(
                            (std as int) * (STAT_SCALE as int),
                            base as int,
                        ));
                    }
                    let ratio: i128 = std as i128 * STAT_SCALE as i128 / base as i128;
                    if ratio >= cfg.vol_spike_mult as i128 {
                        return true;
                    }
                }
            }
        }
    }
    false
}

/// Lands a fresh evaluation in the pair state: hedge ratios,
/// stationarity diagnostics, eligibility and score, and the
/// evaluation clock; nothing else moves.
pub fn apply_evaluation(state: &mut PairState, ev: &PairEvaluation, now: u64)
    ensures
        final(state).beta == ev.beta_eff,
        final(state).beta_short == ev.beta_short,
        final(state).beta_long == ev.beta_long,
        final(state).half_life_bars == ev.half_life_bars,
        final(state).adf_p_value == ev.adf_p_value,
        final(state).eligible == ev.eligible,
        final(state).score == ev.score,
        final(state).last_evaluated == Some(now),
        final(state).spread_history == old(state).spread_history,
        final(state).last_spread == old(state).last_spread,
        final(state).last_velocity_sigma_per_min == old(state).last_velocity_sigma_per_min,
        final(state).position == old(state).position,
        final(state).pending_entry == old(state).pending_entry,
        final(state).pending_exit == old(state).pending_exit,
        final(state).last_exit_at == old(state).last_exit_at,
        final(state).position_guard == old(state).position_guard,
        final(state).z_entry == old(state).z_entry,
        old(state).slots_ok() ==> final(state).slots_ok(),
{
    state.beta = ev.beta_eff;
    state.beta_short = ev.beta_short;
    state.beta_long = ev.beta_long;
    state.half_life_bars = ev.half_life_bars;
    state.adf_p_value = ev.adf_p_value;
    state.eligible = ev.eligible;
    state.score = ev.score;
    state.last_evaluated = Some(now);
}

/// The action one tick takes on one pair, in priority order: a pair
/// with a pending batch waits for reconciliation; an aged position is
/// force-closed even under the guard; a guarded pair otherwise waits;
/// an eligible pair with enough spread history exits by the
/// prioritized reasons, or enters when the entry rule allows it (the
/// entry waits while positions are unknown, any venue position is
/// unaccounted for, or maintenance is near); a position on a pair
/// that lost eligibility is closed.
pub open spec fn spec_pair_action(
    cfg: &PairTradeConfig,
    state: &PairState,
    z: Option<(int, int)>,
    p1: &SymbolSnapshot,
    p2: &SymbolSnapshot,
    equity_base: int,
    positions_ready: bool,
    positions_clear: bool,
    maintenance_block: bool,
    now: int,
) -> TradeAction {
    if state.pending_entry is Some || state.pending_exit is Some {
        TradeAction::Hold
    } else if state.position is Some && now - state.position->0.entered_at
        >= cfg.force_close_secs {
        TradeAction::CloseSpread { direction: state.position->0.direction, force: true }
    } else if state.position_guard {
        TradeAction::Hold
    } else {
        match z {
            None => TradeAction::Hold,
            Some((zv, std)) => {
                let min_points = if cfg.metrics_window / 2 >= 10 {
                    cfg.metrics_window as int / 2
                } else {
                    10
                };
                if state.eligible && state.spread_history@.len() >= min_points {
                    match state.position {
                        Some(pos) => match spec_exit_reason(
                            cfg,
                            state,
                            zv,
                            std,
                            p1.price as int,
                            p2.price as int,
                            equity_base,
                            now,
                        ) {
                            Some(_) => TradeAction::CloseSpread {
                                direction: pos.direction,
                                force: false,
                            },
                            None => TradeAction::Hold,
                        },
                        None => {
                            let net_funding = spec_net_funding(
                                zv,
                                p1.funding_rate as int,
                                p2.funding_rate as int,
                            );
                            if positions_ready && positions_clear && !maintenance_block
                                && spec_should_enter(cfg, state, zv, std, net_funding, now) {
                                TradeAction::OpenSpread {
                                    direction: (if zv > 0 {
                                        PositionDirection::ShortSpread
                                    } else {
                                        PositionDirection::LongSpread
                                    }),
                                }
                            } else {
                                TradeAction::Hold
                            }
                        },
                    }
                } else if state.position is Some && !state.eligible {
                    TradeAction::CloseSpread {
                        direction: state.position->0.direction,
                        force: false,
                    }
                } else {
                    TradeAction::Hold
                }
            },
        }
    }
}

/// The action one tick takes on one pair.
pub fn derive_pair_action(
    cfg: &PairTradeConfig,
    state: &PairState,
    z: Option<(i64, i64)>,
    p1: &SymbolSnapshot,
    p2: &SymbolSnapshot,
    equity_base: u64,
    positions_ready: bool,
    positions_clear: bool,
    maintenance_block: bool,
    now: u64,
) -> (r: TradeAction)
    requires
        cfg.wf(),
        p1.wf(),
        p2.wf(),
        equity_base <= MAX_AMOUNT,
        now <= 4_000_000_000_000,
        0 <= state.z_entry <= 1_000_000_000_000,
        z matches Some((zv, std)) ==> -MAX_Z <= zv <= MAX_Z && 0 <= std <= 2_000_000_000_000,
        state.last_exit_at matches Some(t) ==> t <= 4_000_000_000_000,
        state.half_life_bars matches Some(hl) ==> hl <= 1_000_000,
        state.position matches Some(pos) ==> {
            &&& pos.entered_at <= now
            &&& (pos.entry_price_a matches Some(p) ==> p <= MAX_AMOUNT)
            &&& (pos.entry_price_b matches Some(p) ==> p <= MAX_AMOUNT)
            &&& (pos.entry_size_a matches Some(s) ==> s <= MAX_AMOUNT)
            &&& (pos.entry_size_b matches Some(s) ==> s <= MAX_AMOUNT)
        },
    ensures
        r == spec_pair_action(
            cfg,
            state,
            match z {
                Some((zv, std)) => Some((zv as int, std as int)),
                None => None,
            },
            p1,
            p2,
            equity_base as int,
            positions_ready,
            positions_clear,
            maintenance_block,
            now as int,
        ),
{
    if state.pending_entry.is_some() || state.pending_exit.is_some() {
        return TradeAction::Hold;
    }
    if let Some(pos) = &state.position {
        if now - pos.entered_at >= cfg.force_close_secs {
            return TradeAction::CloseSpread { direction: pos.direction, force: true };
        }
    }
    if state.position_guard {
        return TradeAction::Hold;
    }
    let (zv, std): (i64, i64) = match z {
        Some(pair) => pair,
        None => {
            return TradeAction::Hold;
        },
    };
    let min_points: usize = if cfg.metrics_window / 2 >= 10 {
        cfg.metrics_window / 2
    } else {
        10
    };
    if state.eligible && state.spread_history.len() >= min_points {
        match &state.position {
            Some(pos) => {
                let direction: PositionDirection = pos.direction;
                match exit_reason(cfg, state, zv, std, p1.price, p2.price, equity_base, now) {
                    Some(_) => TradeAction::CloseSpread { direction, force: false },
                    None => TradeAction::Hold,
                }
            },
            None => {
                let net_funding: i64 = crate::decide::net_funding_for_direction(zv, p1, p2);
                if positions_ready && positions_clear && !maintenance_block && should_enter(
                    cfg,
                    state,
                    zv,
                    std,
                    net_funding,
                    now,
                ) {
                    TradeAction::OpenSpread {
                        direction: (if zv > 0 {
                            PositionDirection::ShortSpread
                        } else {
                            PositionDirection::LongSpread
                        }),
                    }
                } else {
                    TradeAction::Hold
                }
            },
        }
    } else {
        match &state.position {
            Some(pos) => if !state.eligible {
                TradeAction::CloseSpread { direction: pos.direction, force: false }
            } else {
                TradeAction::Hold
            },
            None => TradeAction::Hold,
        }
    }
}

} // verus!
