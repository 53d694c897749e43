//! Per-pair trading state: the position, the pending two-leg order
//! slots, the rolling spread window with its z-score, and the OHLC bar
//! builder that samples prices into the history.
//!
//! Spreads, z-scores and hedge ratios are micro-unit fixed-point
//! integers; prices and sizes are atom counts (see `fixed`). Times are
//! plain seconds on the host's clock.

use std::collections::VecDeque;
use vstd::prelude::*;

use crate::regress::MAX_SPREAD;
use crate::stats::{div_trunc, div_trunc_i128, mean_std, spec_isqrt, spec_mean, spec_var,
    MAX_SAMPLES, STAT_SCALE};

verus! {

/// Which side of the spread a pair position is on: long the base leg
/// and short the quote leg, or the opposite.
#[derive(Clone, Copy, Debug, PartialEq, Eq, Structural)]
pub enum PositionDirection {
    LongSpread,
    ShortSpread,
}

/// The side of a single order.
#[derive(Clone, Copy, Debug, PartialEq, Eq, Structural)]
pub enum OrderSide {
    Long,
    Short,
}

/// The side that closes a filled order of the given side.
pub fn opposite_side(side: OrderSide) -> (r: OrderSide)
    ensures
        side == OrderSide::Long <==> r == OrderSide::Short,
{
    match side {
        OrderSide::Long => OrderSide::Short,
        OrderSide::Short => OrderSide::Long,
    }
}

/// The label of a position direction.
pub fn direction_label(direction: PositionDirection) -> (r: &'static str)
    ensures
        direction == PositionDirection::LongSpread ==> r@ == "long_spread"@,
        direction == PositionDirection::ShortSpread ==> r@ == "short_spread"@,
{
    match direction {
        PositionDirection::LongSpread => "long_spread",
        PositionDirection::ShortSpread => "short_spread",
    }
}

/// An open two-leg position. Prices and sizes are atom counts; they
/// are unknown when the venue did not report them.
#[derive(Clone, Debug)]
pub struct Position {
    pub direction: PositionDirection,
    pub entered_at: u64,
    pub entry_price_a: Option<u64>,
    pub entry_price_b: Option<u64>,
    pub entry_size_a: Option<u64>,
    pub entry_size_b: Option<u64>,
}

/// One leg of a pending two-leg order batch.
#[derive(Clone, Debug)]
pub struct PendingLeg {
    pub symbol: String,
    pub order_id: String,
    pub exchange_order_id: Option<String>,
    pub target: u64,
    pub filled: u64,
    pub side: OrderSide,
    pub placed_price: u64,
}

/// A pending two-leg order batch awaiting reconciliation.
#[derive(Clone, Debug)]
pub struct PendingOrders {
    pub legs: Vec<PendingLeg>,
    pub direction: PositionDirection,
    pub placed_at: u64,
    pub hedge_retry_count: u32,
}

/// The rolling state of one tracked pair.
#[derive(Clone, Debug)]
pub struct PairState {
    /// Effective hedge ratio, micro-units.
    pub beta: i64,
    /// Dynamic entry threshold, micro-units.
    pub z_entry: i64,
    /// Bounded FIFO of spread samples, micro-units.
    pub spread_history: VecDeque<i64>,
    pub last_spread: Option<i64>,
    /// Spread velocity in standard deviations per minute, micro-units.
    pub last_velocity_sigma_per_min: i64,
    pub position: Option<Position>,
    pub last_exit_at: Option<u64>,
    pub beta_short: i64,
    pub beta_long: i64,
    /// Half-life of mean reversion in bars; `None` when infinite.
    pub half_life_bars: Option<u64>,
    /// Dickey-Fuller p-value bucket, micro-units.
    pub adf_p_value: i64,
    pub eligible: bool,
    pub last_evaluated: Option<u64>,
    /// Continuous ranking score, micro-units.
    pub score: i64,
    pub pending_entry: Option<PendingOrders>,
    pub pending_exit: Option<PendingOrders>,
    /// Set when the venue reports unhedged or mismatched legs.
    pub position_guard: bool,
}

impl PairState {
    /// A pending entry excludes both an open position and a pending
    /// exit: entry orders are only placed on a flat pair, and the
    /// entry fill hands the batch over to a position atomically.
    pub open spec fn slots_ok(&self) -> bool {
        self.pending_entry is Some ==> (self.position is None && self.pending_exit is None)
    }

    /// The spread window is bounded by the metrics window and holds
    /// bounded samples.
    pub open spec fn history_ok(&self, window: nat) -> bool {
        &&& self.spread_history@.len() <= window
        &&& spreads_bounded(self.spread_history@)
    }

    /// A fresh flat state with unit hedge ratios.
    pub fn new(z_entry: i64) -> (r: PairState)
        ensures
            r.slots_ok(),
            r.spread_history@.len() == 0,
            r.position is None,
            r.pending_entry is None,
            r.pending_exit is None,
            r.last_exit_at is None,
            r.position_guard == false,
            r.eligible == false,
            r.beta == STAT_SCALE,
            r.z_entry == z_entry,
    {
        PairState {
            beta: STAT_SCALE,
            z_entry,
            spread_history: VecDeque::new(),
            last_spread: None,
            last_velocity_sigma_per_min: 0,
            position: None,
            last_exit_at: None,
            beta_short: STAT_SCALE,
            beta_long: STAT_SCALE,
            half_life_bars: None,
            adf_p_value: STAT_SCALE,
            eligible: false,
            last_evaluated: None,
            score: 0,
            pending_entry: None,
            pending_exit: None,
            position_guard: false,
        }
    }

    /// Appends a spread sample, evicting the oldest sample when the
    /// window is full, and refreshes the spread velocity. The window
    /// never grows beyond `window` samples.
    pub fn push_spread(&mut self, spread: i64, window: usize, period_secs: u64)
        requires
            1 <= window <= MAX_SAMPLES,
            1 <= period_secs <= 1_000_000,
            -MAX_SPREAD <= spread <= MAX_SPREAD,
            old(self).history_ok(window as nat),
        ensures
            final(self).spread_history@ == spec_push_window(
                old(self).spread_history@,
                spread,
                window as nat,
            ),
            final(self).history_ok(window as nat),
            final(self).spread_history@.len() >= 1,
            final(self).last_spread == Some(spread),
            final(self).last_velocity_sigma_per_min == spec_velocity(
                final(self).spread_history@,
                period_secs as int,
                old(self).last_velocity_sigma_per_min as int,
            ),
            final(self).position == old(self).position,
            final(self).pending_entry == old(self).pending_entry,
            final(self).pending_exit == old(self).pending_exit,
            final(self).last_exit_at == old(self).last_exit_at,
            final(self).position_guard == old(self).position_guard,
            final(self).eligible == old(self).eligible,
            final(self).beta == old(self).beta,
            final(self).z_entry == old(self).z_entry,
            final(self).beta_short == old(self).beta_short,
            final(self).beta_long == old(self).beta_long,
            final(self).half_life_bars == old(self).half_life_bars,
            final(self).adf_p_value == old(self).adf_p_value,
            final(self).last_evaluated == old(self).last_evaluated,
            final(self).score == old(self).score,
    {
        if self.spread_history.len() >= window {
            self.spread_history.pop_front();
        }
        self.spread_history.push_back(spread);
        self.last_spread = Some(spread);
        proof {
            assert(self.spread_history@ =~= spec_push_window(
                old(self).spread_history@,
                spread,
                window as nat,
            ));
        }
        let n: usize = self.spread_history.len();
        if n > 1 {
            let latest: i64 = self.spread_history[n - 1];
            let past: i64 = self.spread_history[n - 2];
            proof {
                assert(-MAX_SPREAD <= latest <= MAX_SPREAD);
                assert(-MAX_SPREAD <= past <= MAX_SPREAD);
            }
            if let Some((_, std)) = mean_std(&self.spread_history) {
                if std > 0 {
                    let delta: i128 = latest as i128 - past as i128;
                    let num: i128 = delta * 60 * STAT_SCALE as i128;
                    proof {
                        assert(-120_000_000_000_000_000int <= delta * 60 * (STAT_SCALE as int)
                            <= 120_000_000_000_000_000int) by (nonlinear_arith)
                            requires
                                -2_000_000_000 <= delta <= 2_000_000_000,
                                STAT_SCALE == 1_000_000,
                        ;
                        assert(1 <= (period_secs as int) * (std as int)
                            <= 2_100_000_000_000_000_000int) by (nonlinear_arith)
                            requires
                                1 <= period_secs as int <= 1_000_000,
                                1 <= std as int <= 2_000_000_000_000int,
                        ;
                    }
                    let den: i128 = period_secs as i128 * std as i128;
                    let vel: i128 = div_trunc_i128(num, den);
                    proof {
                        assert(-120_000_000_000_000_000int <= div_trunc(num as int, den as int)
                            <= 120_000_000_000_000_000int) by (nonlinear_arith)
                            requires
                                -120_000_000_000_000_000int <= num as int
                                    <= 120_000_000_000_000_000int,
                                den as int >= 1,
                        ;
                    }
                    self.last_velocity_sigma_per_min = vel as i64;
                }
            }
        }
    }

    /// The z-score details of the current spread window: `(z, std,
    /// mean, latest)` in micro-units, or `None` when fewer than two
    /// samples are held.
    pub fn z_score_details(&self) -> (r: Option<(i64, i64, i64, i64)>)
        requires
            spreads_bounded(self.spread_history@),
            self.spread_history@.len() <= MAX_SAMPLES,
        ensures
            r is None <==> self.spread_history@.len() < 2,
            r matches Some((z, std, mean, latest)) ==> {
                let h = self.spread_history@;
                &&& mean == spec_mean(h)
                &&& std == spec_isqrt(spec_var(h))
                &&& latest == h.last()
                &&& z == spec_z(h)
            },
    {
        if self.spread_history.len() < 2 {
            return None;
        }
        let n: usize = self.spread_history.len();
        let latest: i64 = self.spread_history[n - 1];
        proof {
            assert(-MAX_SPREAD <= latest <= MAX_SPREAD);
        }
        let r = mean_std(&self.spread_history);
        let (mean, std): (i64, i64) = r.unwrap();
        proof {
            crate::stats::lemma_isqrt_unique(
                std as int,
                spec_isqrt(spec_var(self.spread_history@)),
                spec_var(self.spread_history@),
            );
        }
        if std == 0 {
            return Some((0, std, mean, latest));
        }
        let diff: i128 = latest as i128 - mean as i128;
        proof {
            assert(-2_000_000_000_000_000int <= diff * (STAT_SCALE as int)
                <= 2_000_000_000_000_000int) by (nonlinear_arith)
                requires
                    -2_000_000_000 <= diff <= 2_000_000_000,
                    STAT_SCALE == 1_000_000,
            ;
        }
        let num: i128 = diff * STAT_SCALE as i128;
        let z: i128 = div_trunc_i128(num, std as i128);
        proof {
            assert(-2_000_000_000_000_000int <= div_trunc(num as int, std as int)
                <= 2_000_000_000_000_000int) by (nonlinear_arith)
                requires
                    -2_000_000_000_000_000int <= num as int <= 2_000_000_000_000_000int,
                    std as int >= 1,
            ;
        }
        Some((z as i64, std, mean, latest))
    }

    /// The z-score and standard deviation of the current window.
    pub fn z_score(&self) -> (r: Option<(i64, i64)>)
        requires
            spreads_bounded(self.spread_history@),
            self.spread_history@.len() <= MAX_SAMPLES,
        ensures
            r is None <==> self.spread_history@.len() < 2,
            r matches Some((z, std)) ==> z == spec_z(self.spread_history@) && std == spec_isqrt(
                spec_var(self.spread_history@),
            ),
    {
        match self.z_score_details() {
            Some((z, std, _, _)) => Some((z, std)),
            None => None,
        }
    }
}

/// Every spread sample's magnitude is at most `MAX_SPREAD`.
pub open spec fn spreads_bounded(s: Seq<i64>) -> bool {
    forall|i: int| 0 <= i < s.len() ==> -MAX_SPREAD <= #[trigger] s[i] <= MAX_SPREAD
}

/// A bounded FIFO append: the oldest sample is evicted first when the
/// window is full.
pub open spec fn spec_push_window(h: Seq<i64>, spread: i64, window: nat) -> Seq<i64> {
    if h.len() >= window {
        h.subrange(1, h.len() as int).push(spread)
    } else {
        h.push(spread)
    }
}

/// The z-score of a spread window in micro-units: the deviation of the
/// latest sample from the mean over the standard deviation, zero when
/// the deviation vanishes.
pub open spec fn spec_z(h: Seq<i64>) -> int {
    let std = spec_isqrt(spec_var(h));
    if std == 0 {
        0
    } else {
        div_trunc((h.last() - spec_mean(h)) * (STAT_SCALE as int), std)
    }
}

/// The spread velocity after a push: the one-bar move per minute over
/// the standard deviation, in micro-units; the previous velocity is
/// kept while the window is too short or flat.
pub open spec fn spec_velocity(h: Seq<i64>, period_secs: int, prev: int) -> int {
    if h.len() >= 2 {
        let std = spec_isqrt(spec_var(h));
        if std >= 1 {
            div_trunc((h.last() - h[h.len() - 2]) * 60 * (STAT_SCALE as int), period_secs * std)
        } else {
            prev
        }
    } else {
        prev
    }
}

/// One venue position as the exchange reports it: a sign, a size in
/// atoms and, when known, the entry price.
#[derive(Clone, Debug)]
pub struct VenuePosition {
    pub symbol: String,
    pub sign: i32,
    pub size: u64,
    pub entry_price: Option<u64>,
}

/// A market snapshot of one symbol: prices and sizes in atoms, the
/// funding rate in micro-units.
#[derive(Clone, Debug)]
pub struct SymbolSnapshot {
    pub price: u64,
    pub funding_rate: i64,
    pub bid_price: Option<u64>,
    pub ask_price: Option<u64>,
    pub bid_size: u64,
    pub ask_size: u64,
    pub min_order: Option<u64>,
    pub min_tick: Option<u64>,
    pub size_decimals: Option<u32>,
}

impl SymbolSnapshot {
    /// The bounds the sizing and pricing arithmetic relies on.
    pub open spec fn wf(&self) -> bool {
        &&& self.price <= crate::fixed::MAX_AMOUNT
        &&& -1_000_000_000_000 <= self.funding_rate <= 1_000_000_000_000
        &&& self.bid_price matches Some(p) ==> p <= crate::fixed::MAX_AMOUNT
        &&& self.ask_price matches Some(p) ==> p <= crate::fixed::MAX_AMOUNT
        &&& self.bid_size <= crate::fixed::MAX_AMOUNT
        &&& self.ask_size <= crate::fixed::MAX_AMOUNT
        &&& self.min_order matches Some(m) ==> m <= crate::fixed::MAX_AMOUNT
        &&& self.min_tick matches Some(t) ==> t <= crate::fixed::MAX_AMOUNT
    }
}

/// One stored price sample: the bar-close log price in micro-units
/// and the bar-close timestamp in seconds.
#[derive(Clone, Copy, Debug, PartialEq, Eq, Structural)]
pub struct PriceSample {
    pub log_price: i64,
    pub ts: i64,
}

/// A reloaded history with the samples older than `max_age_secs`
/// dropped, in their stored order.
pub open spec fn spec_prune_history(entries: Seq<PriceSample>, now: int, max_age_secs: int)
    -> Seq<PriceSample>
    decreases entries.len(),
{
    if entries.len() == 0 {
        Seq::empty()
    } else {
        let rest = spec_prune_history(entries.drop_first(), now, max_age_secs);
        if now - entries[0].ts <= max_age_secs {
            seq![entries[0]] + rest
        } else {
            rest
        }
    }
}

/// Drops the samples of a reloaded history that are older than
/// `max_age_secs` before `now`; the rest keep their order.
pub fn prune_history(entries: &Vec<PriceSample>, now: i64, max_age_secs: i64) -> (r: Vec<
    PriceSample,
>)
    requires
        -1_000_000_000_000 <= now <= 1_000_000_000_000,
        0 <= max_age_secs <= 1_000_000_000_000,
        forall|i: int|
            0 <= i < entries@.len() ==> -1_000_000_000_000 <= (#[trigger] entries@[i]).ts
                <= 1_000_000_000_000,
    ensures
        r@ == spec_prune_history(entries@, now as int, max_age_secs as int),
{
    let mut out: Vec<PriceSample> = Vec::new();
    let mut i: usize = 0;
    let n: usize = entries.len();
    proof {
        assert(entries@.subrange(0, n as int) =~= entries@);
        assert(Seq::empty().add(
            spec_prune_history(entries@, now as int, max_age_secs as int),
        ) =~= spec_prune_history(entries@, now as int, max_age_secs as int));
    }
    while i < n
        invariant
            0 <= i <= n,
            n == entries@.len(),
            -1_000_000_000_000 <= now <= 1_000_000_000_000,
            0 <= max_age_secs <= 1_000_000_000_000,
            forall|k: int|
                0 <= k < entries@.len() ==> -1_000_000_000_000 <= (#[trigger] entries@[k]).ts
                    <= 1_000_000_000_000,
            spec_prune_history(entries@, now as int, max_age_secs as int) =~= out@
                + spec_prune_history(
                entries@.subrange(i as int, n as int),
                now as int,
                max_age_secs as int,
            ),
        decreases n - i,
    {
        proof {
            assert(entries@.subrange(i as int, n as int)[0] == entries@[i as int]);
            assert(entries@.subrange(i as int, n as int).drop_first() =~= entries@.subrange(
                i + 1,
                n as int,
            ));
        }
        let e: PriceSample = entries[i];
        if now - e.ts <= max_age_secs {
            let ghost prev = out@;
            out.push(e);
            proof {
                assert(out@ =~= prev + seq![entries@[i as int]]);
                assert(out@ + spec_prune_history(
                    entries@.subrange(i + 1, n as int),
                    now as int,
                    max_age_secs as int,
                ) =~= prev + spec_prune_history(
                    entries@.subrange(i as int, n as int),
                    now as int,
                    max_age_secs as int,
                ));
            }
        }
        i = i + 1;
    }
    proof {
        assert(spec_prune_history(
            entries@.subrange(n as int, n as int),
            now as int,
            max_age_secs as int,
        ) =~= Seq::<PriceSample>::empty());
        assert(out@ + Seq::<PriceSample>::empty() =~= out@);
    }
    out
}

/// An OHLC bar builder over a fixed time window: emits the previous
/// close when a sample lands past the window end.
#[derive(Clone, Debug)]
pub struct BarBuilder {
    pub window_secs: u64,
    pub start_ts: Option<i64>,
    pub open: u64,
    pub high: u64,
    pub low: u64,
    pub close: u64,
}

impl BarBuilder {
    /// A bar builder for the given window width.
    pub fn new(window_secs: u64) -> (r: BarBuilder)
        ensures
            r.window_secs == window_secs,
            r.start_ts is None,
    {
        BarBuilder { window_secs, start_ts: None, open: 0, high: 0, low: 0, close: 0 }
    }

    /// Feeds one price sample. When the sample falls at or past the
    /// end of the current bar, the previous close and the bar's close
    /// timestamp are emitted and a new bar starts at the sample;
    /// otherwise the bar's high, low and close are updated in place. A
    /// zero low is treated as unset when updating the low.
    pub fn push(&mut self, ts: i64, price: u64) -> (r: Option<(u64, i64)>)
        requires
            -1_000_000_000_000 <= ts <= 1_000_000_000_000,
            old(self).window_secs <= 1_000_000_000_000,
            old(self).start_ts matches Some(s) ==> -1_000_000_000_000 <= s <= 1_000_000_000_000,
        ensures
            final(self).window_secs == old(self).window_secs,
            final(self).start_ts matches Some(s) && (-1_000_000_000_000 <= s
                <= 1_000_000_000_000),
            old(self).start_ts is None ==> {
                &&& r is None
                &&& final(self).start_ts == Some(ts)
                &&& final(self).open == price && final(self).high == price && final(self).low
                    == price && final(self).close == price
            },
            old(self).start_ts matches Some(start) ==> {
                if ts - start >= old(self).window_secs {
                    &&& r == Some((old(self).close, (start + old(self).window_secs) as i64))
                    &&& final(self).start_ts == Some(ts)
                    &&& final(self).open == price
                    &&& final(self).high == price
                    &&& final(self).low == price
                    &&& final(self).close == price
                } else {
                    &&& r is None
                    &&& final(self).start_ts == old(self).start_ts
                    &&& final(self).open == old(self).open
                    &&& final(self).high == (if price > old(self).high {
                        price as int
                    } else {
                        old(self).high as int
                    })
                    &&& final(self).low == (if price < old(self).low || old(self).low == 0 {
                        price as int
                    } else {
                        old(self).low as int
                    })
                    &&& final(self).close == price
                }
            },
    {
        match self.start_ts {
            None => {
                self.start_ts = Some(ts);
                self.open = price;
                self.high = price;
                self.low = price;
                self.close = price;
                None
            },
            Some(start) => {
                let elapsed: i64 = ts - start;
                if elapsed >= 0 && elapsed as u64 >= self.window_secs {
                    let prev_close: u64 = self.close;
                    let bar_close_ts: i64 = start + self.window_secs as i64;
                    self.start_ts = Some(ts);
                    self.open = price;
                    self.high = price;
                    self.low = price;
                    self.close = price;
                    Some((prev_close, bar_close_ts))
                } else {
                    if price > self.high {
                        self.high = price;
                    }
                    if price < self.low || self.low == 0 {
                        self.low = price;
                    }
                    self.close = price;
                    None
                }
            },
        }
    }
}

} // verus!
