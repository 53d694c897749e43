//! The two-leg order coordinator's planning logic: sizing, size and
//! price quantization, slippage, reference prices, fill accounting for
//! pending legs, and the reissue plan for partial fills.
//!
//! The host performs the venue calls; every decision here is a pure
//! function from the pair state and the observed market to order
//! commands, and from venue outcomes back to the next pending state.

use vstd::prelude::*;

use crate::config::PairTradeConfig;
use crate::fixed::{quantize_down, quantize_up, round_price_long, round_price_short,
    spec_quantize_down, spec_quantize_up, spec_round_price_down, spec_round_price_up, AMOUNT_SCALE,
    MAX_AMOUNT};
use crate::state::{OrderSide, PendingLeg, PendingOrders, PositionDirection, SymbolSnapshot};

verus! {

/// One order for the host to place on the venue.
#[derive(Clone, Debug)]
pub struct OrderCommand {
    pub symbol: String,
    pub size: u64,
    pub side: OrderSide,
    pub limit_price: Option<u64>,
    pub post_only: bool,
    pub reduce_only: bool,
}

/// What the venue answered to an order command.
#[derive(Clone, Debug)]
pub enum OrderOutcome {
    /// The order was accepted.
    Placed {
        order_id: String,
        exchange_order_id: Option<String>,
        ordered_price: u64,
        ordered_size: u64,
    },
    /// The order was rejected; for a reduce-only order, whether a
    /// position-missing rejection was confirmed against the venue's
    /// positions.
    Failed { position_confirmed_missing: bool },
}

/// The sides of the two legs opening a position in `direction`.
pub fn entry_sides(direction: PositionDirection) -> (r: (OrderSide, OrderSide))
    ensures
        direction == PositionDirection::LongSpread ==> r == (OrderSide::Long, OrderSide::Short),
        direction == PositionDirection::ShortSpread ==> r == (OrderSide::Short, OrderSide::Long),
{
    match direction {
        PositionDirection::LongSpread => (OrderSide::Long, OrderSide::Short),
        PositionDirection::ShortSpread => (OrderSide::Short, OrderSide::Long),
    }
}

/// The sides of the two legs closing a position in `direction`.
pub fn exit_sides(direction: PositionDirection) -> (r: (OrderSide, OrderSide))
    ensures
        direction == PositionDirection::LongSpread ==> r == (OrderSide::Short, OrderSide::Long),
        direction == PositionDirection::ShortSpread ==> r == (OrderSide::Long, OrderSide::Short),
{
    match direction {
        PositionDirection::LongSpread => (OrderSide::Short, OrderSide::Long),
        PositionDirection::ShortSpread => (OrderSide::Long, OrderSide::Short),
    }
}

/// The reference price for an order: the same-side top of book when
/// passive slippage or post-only placement wants to rest there (the
/// ask for a long, the bid for a short), the last price otherwise or
/// when the book is empty.
pub open spec fn spec_reference_price(
    cfg: &PairTradeConfig,
    side: OrderSide,
    snap: &SymbolSnapshot,
) -> int {
    if cfg.slippage_bps < 0 || cfg.spec_should_post_only() {
        let side_price = if side == OrderSide::Long {
            snap.ask_price
        } else {
            snap.bid_price
        };
        match side_price {
            Some(p) => p as int,
            None => snap.price as int,
        }
    } else {
        snap.price as int
    }
}

/// The reference price for an order on one side.
pub fn order_reference_price(cfg: &PairTradeConfig, side: OrderSide, snap: &SymbolSnapshot) -> (r:
    u64)
    requires
        snap.wf(),
    ensures
        r == spec_reference_price(cfg, side, snap),
        r <= MAX_AMOUNT,
{
    if cfg.slippage_bps < 0 || cfg.should_post_only() {
        let side_price: Option<u64> = match side {
            OrderSide::Long => snap.ask_price,
            OrderSide::Short => snap.bid_price,
        };
        match side_price {
            Some(p) => p,
            None => snap.price,
        }
    } else {
        snap.price
    }
}

/// A price after slippage in whole basis points: an aggressive
/// (nonnegative) slippage moves against the trader, a passive one
/// toward the resting side; division truncates.
pub open spec fn spec_apply_slippage(price: int, slippage_bps: int, side: OrderSide) -> int {
    if slippage_bps == 0 {
        price
    } else {
        let up = price * (10_000 + (if slippage_bps >= 0 {
            slippage_bps
        } else {
            -slippage_bps
        })) / 10_000;
        let down = price * (10_000 - (if slippage_bps >= 0 {
            slippage_bps
        } else {
            -slippage_bps
        })) / 10_000;
        if side == OrderSide::Long {
            if slippage_bps < 0 {
                down
            } else {
                up
            }
        } else {
            if slippage_bps < 0 {
                up
            } else {
                down
            }
        }
    }
}

/// Applies the configured slippage to a reference price.
pub fn apply_slippage(cfg: &PairTradeConfig, price: u64, side: OrderSide) -> (r: u64)
    requires
        cfg.wf(),
        price <= MAX_AMOUNT,
    ensures
        r == spec_apply_slippage(price as int, cfg.slippage_bps as int, side),
        r <= 2 * MAX_AMOUNT,
{
    if cfg.slippage_bps == 0 {
        return price;
    }
    let mag: u64 = if cfg.slippage_bps >= 0 {
        cfg.slippage_bps as u64
    } else {
        (-cfg.slippage_bps) as u64
    };
    proof {
        assert(0 <= (price as int) * (10_000 + mag as int)
            <= 20_000_000_000_000_000_000_000int && 0 <= (price as int) * (10_000 - mag as int)
            <= 20_000_000_000_000_000_000_000int) by (nonlinear_arith)
            requires
                0 <= price as int <= 1_000_000_000_000_000_000int,
                0 <= mag as int <= 10_000,
        ;
        assert((price as int) * (10_000 + mag as int) / 10_000 <= 2_000_000_000_000_000_000int
            && (price as int) * (10_000 - mag as int) / 10_000
            <= 2_000_000_000_000_000_000int) by (nonlinear_arith)
            requires
                0 <= (price as int) * (10_000 + mag as int) <= 20_000_000_000_000_000_000_000int,
                0 <= (price as int) * (10_000 - mag as int) <= 20_000_000_000_000_000_000_000int,
        ;
    }
    let up: u64 = ((price as u128 * (10_000 + mag) as u128) / 10_000) as u64;
    let down: u64 = ((price as u128 * (10_000 - mag) as u128) / 10_000) as u64;
    let passive: bool = cfg.slippage_bps < 0;
    match side {
        OrderSide::Long => if passive {
            down
        } else {
            up
        },
        OrderSide::Short => if passive {
            up
        } else {
            down
        },
    }
}

/// The effective venue tick: the reported one, or one whole unit when
/// the venue reports none and the fallback is configured.
pub open spec fn spec_effective_tick(cfg: &PairTradeConfig, snap: &SymbolSnapshot) -> Option<
    int,
> {
    match snap.min_tick {
        Some(t) => Some(t as int),
        None => if cfg.min_tick_fallback_one {
            Some(AMOUNT_SCALE as int)
        } else {
            None
        },
    }
}

/// The limit price for one side: the reference price with slippage
/// applied, rounded toward the passive side of the venue tick (down
/// for a long, up for a short); unrounded when no tick is known.
pub open spec fn spec_limit_price(
    cfg: &PairTradeConfig,
    side: OrderSide,
    snap: &SymbolSnapshot,
) -> int {
    let adjusted = spec_apply_slippage(
        spec_reference_price(cfg, side, snap),
        cfg.slippage_bps as int,
        side,
    );
    match spec_effective_tick(cfg, snap) {
        Some(t) => if t <= 0 {
            adjusted
        } else if side == OrderSide::Long {
            spec_round_price_down(adjusted, t)
        } else {
            spec_round_price_up(adjusted, t)
        },
        None => adjusted,
    }
}

/// The limit price for one side of a symbol.
pub fn limit_price_for(cfg: &PairTradeConfig, side: OrderSide, snap: &SymbolSnapshot) -> (r: u64)
    requires
        cfg.wf(),
        snap.wf(),
    ensures
        r == spec_limit_price(cfg, side, snap),
{
    let reference: u64 = order_reference_price(cfg, side, snap);
    let adjusted: u64 = apply_slippage(cfg, reference, side);
    let tick: Option<u64> = match snap.min_tick {
        Some(t) => Some(t),
        None => if cfg.min_tick_fallback_one {
            Some(AMOUNT_SCALE)
        } else {
            None
        },
    };
    match tick {
        Some(t) => {
            if t == 0 {
                adjusted
            } else if matches!(side, OrderSide::Long) {
                round_price_long(adjusted, t)
            } else {
                round_price_short(adjusted, t)
            }
        },
        None => adjusted,
    }
}

/// Ten to the `e`-th, for `e` at most nine.
pub open spec fn spec_pow10(e: int) -> int {
    if e <= 0 {
        1
    } else if e == 1 {
        10
    } else if e == 2 {
        100
    } else if e == 3 {
        1_000
    } else if e == 4 {
        10_000
    } else if e == 5 {
        100_000
    } else if e == 6 {
        1_000_000
    } else if e == 7 {
        10_000_000
    } else if e == 8 {
        100_000_000
    } else {
        1_000_000_000
    }
}

/// The venue size step of a symbol: its minimum order size when
/// reported, else one unit at its size precision, else nothing.
pub open spec fn spec_size_step(snap: &SymbolSnapshot) -> Option<int> {
    match snap.min_order {
        Some(mo) => Some(mo as int),
        None => match snap.size_decimals {
            Some(d) => Some(
                spec_pow10(
                    9 - (if d <= 9 {
                        d as int
                    } else {
                        9
                    }),
                ),
            ),
            None => None,
        },
    }
}

fn pow10_atoms(d: u32) -> (r: u64)
    ensures
        r == spec_pow10(
            9 - (if d <= 9 {
                d as int
            } else {
                9
            }),
        ),
        1 <= r <= 1_000_000_000,
{
    let e: u32 = if d <= 9 {
        9 - d
    } else {
        0
    };
    if e == 0 {
        1
    } else if e == 1 {
        10
    } else if e == 2 {
        100
    } else if e == 3 {
        1_000
    } else if e == 4 {
        10_000
    } else if e == 5 {
        100_000
    } else if e == 6 {
        1_000_000
    } else if e == 7 {
        10_000_000
    } else if e == 8 {
        100_000_000
    } else {
        1_000_000_000
    }
}

/// The size step of a symbol, if any.
fn size_step(snap: &SymbolSnapshot) -> (r: Option<u64>)
    requires
        snap.wf(),
    ensures
        r is Some <==> spec_size_step(snap) is Some,
        r matches Some(s) ==> Some(s as int) == spec_size_step(snap),
        r matches Some(s) ==> s <= MAX_AMOUNT,
{
    match snap.min_order {
        Some(mo) => Some(mo),
        None => match snap.size_decimals {
            Some(d) => Some(pow10_atoms(d)),
            None => None,
        },
    }
}

/// An entry size quantized down to the venue step with the venue
/// minimum as a floor; unchanged when the venue reports no step or
/// quantization would vanish.
pub open spec fn spec_quantize_order_size(snap: &SymbolSnapshot, size: int) -> int {
    if size <= 0 {
        size
    } else {
        match spec_size_step(snap) {
            Some(step) => {
                let mo = match snap.min_order {
                    Some(m) => Some(m as int),
                    None => None,
                };
                let q = spec_quantize_down(size, step, mo);
                if q > 0 {
                    q
                } else {
                    size
                }
            },
            None => size,
        }
    }
}

/// Quantizes an entry size for a symbol.
pub fn quantize_order_size(snap: &SymbolSnapshot, size: u64) -> (r: u64)
    requires
        snap.wf(),
        size <= MAX_AMOUNT,
    ensures
        r == spec_quantize_order_size(snap, size as int),
{
    if size == 0 {
        return size;
    }
    match size_step(snap) {
        Some(step) => {
            let q: u64 = quantize_down(size, step, snap.min_order);
            if q > 0 {
                q
            } else {
                size
            }
        },
        None => size,
    }
}

/// An exit size quantized up to the venue step with the venue minimum
/// as a floor; unchanged when the venue reports no step or
/// quantization would vanish.
pub open spec fn spec_quantize_order_size_exit(snap: &SymbolSnapshot, size: int) -> int {
    if size <= 0 {
        size
    } else {
        match spec_size_step(snap) {
            Some(step) => {
                let mo = match snap.min_order {
                    Some(m) => Some(m as int),
                    None => None,
                };
                let q = spec_quantize_up(size, step, mo);
                if q > 0 {
                    q
                } else {
                    size
                }
            },
            None => size,
        }
    }
}

/// Quantizes an exit size for a symbol.
pub fn quantize_order_size_exit(snap: &SymbolSnapshot, size: u64) -> (r: u64)
    requires
        snap.wf(),
        size <= MAX_AMOUNT,
    ensures
        r == spec_quantize_order_size_exit(snap, size as int),
{
    if size == 0 {
        return size;
    }
    match size_step(snap) {
        Some(step) => {
            let q: u64 = quantize_up(size, step, snap.min_order);
            if q > 0 {
                q
            } else {
                size
            }
        },
        None => size,
    }
}

/// A reduce-only close size quantized up to the symbol's size
/// precision (preferring the precision step over the venue minimum,
/// with no minimum floor), so a lone leg can be closed exactly.
pub open spec fn spec_quantize_order_size_close(snap: &SymbolSnapshot, size: int) -> int {
    if size <= 0 {
        size
    } else {
        let step = match snap.size_decimals {
            Some(d) => Some(
                spec_pow10(
                    9 - (if d <= 9 {
                        d as int
                    } else {
                        9
                    }),
                ),
            ),
            None => match snap.min_order {
                Some(m) => Some(m as int),
                None => None,
            },
        };
        match step {
            Some(st) => {
                let q = spec_quantize_up(size, st, None);
                if q > 0 {
                    q
                } else {
                    size
                }
            },
            None => size,
        }
    }
}

/// Quantizes a reduce-only close size for a symbol.
pub fn quantize_order_size_close(snap: &SymbolSnapshot, size: u64) -> (r: u64)
    requires
        snap.wf(),
        size <= MAX_AMOUNT,
    ensures
        r == spec_quantize_order_size_close(snap, size as int),
{
    if size == 0 {
        return size;
    }
    let step: Option<u64> = match snap.size_decimals {
        Some(d) => Some(pow10_atoms(d)),
        None => match snap.min_order {
            Some(m) => Some(m),
            None => None,
        },
    };
    match step {
        Some(st) => {
            let q: u64 = quantize_up(size, st, None);
            if q > 0 {
                q
            } else {
                size
            }
        },
        None => size,
    }
}


/// The first fill reported for an order id, searching front to back.
pub open spec fn spec_fills_lookup(fills: Seq<(String, u64)>, id: Seq<char>) -> Option<u64>
    decreases fills.len(),
{
    if fills.len() == 0 {
        None
    } else if fills[0].0@ == id {
        Some(fills[0].1)
    } else {
        spec_fills_lookup(fills.drop_first(), id)
    }
}

/// Looks an order id up in a fill report.
pub fn fills_lookup(fills: &Vec<(String, u64)>, id: &String) -> (r: Option<u64>)
    ensures
        r == spec_fills_lookup(fills@, id@),
{
    let mut i: usize = 0;
    proof {
        assert(fills@.subrange(0, fills@.len() as int) =~= fills@);
    }
    while i < fills.len()
        invariant
            0 <= i <= fills@.len(),
            spec_fills_lookup(fills@, id@) == spec_fills_lookup(
                fills@.subrange(i as int, fills@.len() as int),
                id@,
            ),
        decreases fills@.len() - i,
    {
        proof {
            assert(fills@.subrange(i as int, fills@.len() as int)[0] == fills@[i as int]);
            assert(fills@.subrange(i as int, fills@.len() as int).drop_first() =~= fills@.subrange(
                i + 1,
                fills@.len() as int,
            ));
        }
        if fills[i].0 == *id {
            return Some(fills[i].1);
        }
        i = i + 1;
    }
    proof {
        assert(fills@.subrange(fills@.len() as int, fills@.len() as int).len() == 0);
    }
    None
}

/// The fill reported for a leg: by its order id first, else by its
/// exchange order id, else zero.
pub open spec fn spec_leg_fill(leg: &PendingLeg, fills: Seq<(String, u64)>) -> int {
    match spec_fills_lookup(fills, leg.order_id@) {
        Some(v) => v as int,
        None => match leg.exchange_order_id {
            Some(ex) => match spec_fills_lookup(fills, ex@) {
                Some(v) => v as int,
                None => 0,
            },
            None => 0,
        },
    }
}

/// The fill reported for a leg.
pub fn leg_fill_from_map(leg: &PendingLeg, fills: &Vec<(String, u64)>) -> (r: u64)
    ensures
        r == spec_leg_fill(leg, fills@),
{
    match fills_lookup(fills, &leg.order_id) {
        Some(v) => v,
        None => match &leg.exchange_order_id {
            Some(ex) => match fills_lookup(fills, ex) {
                Some(v) => v,
                None => 0,
            },
            None => 0,
        },
    }
}

/// A leg's effective fill: the reported fill, no less than what was
/// already recorded and no more than the target.
pub open spec fn spec_filled_for_leg(leg: &PendingLeg, fills: Seq<(String, u64)>) -> int {
    let reported = spec_leg_fill(leg, fills);
    let kept = if reported >= leg.filled {
        reported
    } else {
        leg.filled as int
    };
    if kept <= leg.target {
        kept
    } else {
        leg.target as int
    }
}

/// A leg's effective fill against a fill report.
pub fn filled_for_leg(leg: &PendingLeg, fills: &Vec<(String, u64)>) -> (r: u64)
    ensures
        r == spec_filled_for_leg(leg, fills@),
        r <= leg.target,
{
    let reported: u64 = leg_fill_from_map(leg, fills);
    let kept: u64 = if reported >= leg.filled {
        reported
    } else {
        leg.filled
    };
    if kept <= leg.target {
        kept
    } else {
        leg.target
    }
}

/// Records reported fills on every pending leg, never lowering a
/// recorded fill and never exceeding a target.
pub fn update_pending_fills(pending: &mut PendingOrders, fills: &Vec<(String, u64)>)
    ensures
        final(pending).legs@.len() == old(pending).legs@.len(),
        forall|i: int|
            0 <= i < old(pending).legs@.len() ==> {
                let l = old(pending).legs@[i];
                let reported = spec_leg_fill(&l, fills@);
                #[trigger] final(pending).legs@[i] == PendingLeg {
                    filled: (if reported > l.filled {
                        if reported <= l.target {
                            reported as u64
                        } else {
                            l.target
                        }
                    } else {
                        l.filled
                    }),
                    ..l
                }
            },
        final(pending).direction == old(pending).direction,
        final(pending).placed_at == old(pending).placed_at,
        final(pending).hedge_retry_count == old(pending).hedge_retry_count,
{
    let mut new_legs: Vec<PendingLeg> = Vec::new();
    let mut i: usize = 0;
    let n: usize = pending.legs.len();
    while i < n
        invariant
            0 <= i <= n,
            n == pending.legs@.len(),
            pending == old(pending),
            new_legs@.len() == i,
            forall|j: int|
                0 <= j < i ==> {
                    let l = old(pending).legs@[j];
                    let reported = spec_leg_fill(&l, fills@);
                    #[trigger] new_legs@[j] == PendingLeg {
                        filled: (if reported > l.filled {
                            if reported <= l.target {
                                reported as u64
                            } else {
                                l.target
                            }
                        } else {
                            l.filled
                        }),
                        ..l
                    }
                },
        decreases n - i,
    {
        let leg: &PendingLeg = &pending.legs[i];
        let reported: u64 = leg_fill_from_map(leg, fills);
        let new_filled: u64 = if reported > leg.filled {
            if reported <= leg.target {
                reported
            } else {
                leg.target
            }
        } else {
            leg.filled
        };
        new_legs.push(
            PendingLeg {
                symbol: leg.symbol.clone(),
                order_id: leg.order_id.clone(),
                exchange_order_id: match &leg.exchange_order_id {
                    Some(ex) => Some(ex.clone()),
                    None => None,
                },
                target: leg.target,
                filled: new_filled,
                side: leg.side,
                placed_price: leg.placed_price,
            },
        );
        i = i + 1;
    }
    pending.legs = new_legs;
}

/// Whether every pending leg has reached its target.
pub fn all_filled(pending: &PendingOrders, fills: &Vec<(String, u64)>) -> (r: bool)
    ensures
        r == forall|i: int|
            0 <= i < pending.legs@.len() ==> spec_filled_for_leg(&pending.legs@[i], fills@)
                >= pending.legs@[i].target,
{
    let mut i: usize = 0;
    let n: usize = pending.legs.len();
    while i < n
        invariant
            0 <= i <= n,
            n == pending.legs@.len(),
            forall|j: int|
                0 <= j < i ==> spec_filled_for_leg(&pending.legs@[j], fills@)
                    >= pending.legs@[j].target,
        decreases n - i,
    {
        let f: u64 = filled_for_leg(&pending.legs[i], fills);
        if f < pending.legs[i].target {
            return false;
        }
        i = i + 1;
    }
    true
}

/// Whether any pending leg reports a positive fill.
pub fn any_fills(pending: &PendingOrders, fills: &Vec<(String, u64)>) -> (r: bool)
    ensures
        r == exists|i: int|
            0 <= i < pending.legs@.len() && spec_filled_for_leg(&pending.legs@[i], fills@) > 0,
{
    let mut i: usize = 0;
    let n: usize = pending.legs.len();
    while i < n
        invariant
            0 <= i <= n,
            n == pending.legs@.len(),
            forall|j: int| 0 <= j < i ==> spec_filled_for_leg(&pending.legs@[j], fills@) <= 0,
        decreases n - i,
    {
        let f: u64 = filled_for_leg(&pending.legs[i], fills);
        if f > 0 {
            return true;
        }
        i = i + 1;
    }
    false
}


/// A value rounded to the nearest multiple of `m`, ties to the even
/// multiple.
pub open spec fn spec_round_half_even(v: int, m: int) -> int {
    if m <= 0 {
        v
    } else {
        let q = v / m;
        let rem = v % m;
        if 2 * rem > m {
            (q + 1) * m
        } else if 2 * rem < m {
            q * m
        } else if q % 2 == 0 {
            q * m
        } else {
            (q + 1) * m
        }
    }
}

/// Rounds a size to the nearest step multiple, ties to even.
fn round_half_even(v: u64, m: u64) -> (r: u64)
    requires
        v <= MAX_AMOUNT,
        m <= MAX_AMOUNT,
    ensures
        r == spec_round_half_even(v as int, m as int),
{
    if m == 0 {
        return v;
    }
    let q: u64 = v / m;
    let rem: u64 = v % m;
    proof {
        let vi = v as int;
        let mi = m as int;
        assert((vi / mi) * mi <= vi && 0 <= vi % mi && vi % mi < mi && vi == (vi / mi) * mi + vi
            % mi && (vi / mi + 1) * mi == (vi / mi) * mi + mi) by (nonlinear_arith)
            requires
                0 <= vi,
                mi >= 1,
        ;
    }
    if 2 * (rem as u128) > m as u128 {
        (q + 1) * m
    } else if 2 * (rem as u128) < m as u128 {
        q * m
    } else if q % 2 == 0 {
        q * m
    } else {
        (q + 1) * m
    }
}

/// One leg's entry size in atoms: the notional divided by the price,
/// rounded to the venue's size precision with ties to even, then
/// floored at the venue minimum; zero when the price is zero. Sizes
/// are capped at `MAX_AMOUNT`.
pub open spec fn spec_hedged_size(
    price: int,
    notional: int,
    size_decimals: Option<u32>,
    min_order: Option<int>,
) -> int {
    if price <= 0 {
        0
    } else {
        let raw = notional * (AMOUNT_SCALE as int) / price;
        let capped = if raw > MAX_AMOUNT as int {
            MAX_AMOUNT as int
        } else {
            raw
        };
        let rounded = match size_decimals {
            Some(d) => spec_round_half_even(
                capped,
                spec_pow10(
                    9 - (if d <= 9 {
                        d as int
                    } else {
                        9
                    }),
                ),
            ),
            None => capped,
        };
        match min_order {
            Some(mo) => if 0 < rounded < mo {
                mo
            } else {
                rounded
            },
            None => rounded,
        }
    }
}

fn hedged_size_for(notional: u64, snap: &SymbolSnapshot) -> (r: u64)
    requires
        snap.wf(),
        notional <= MAX_AMOUNT,
    ensures
        r == spec_hedged_size(
            snap.price as int,
            notional as int,
            snap.size_decimals,
            match snap.min_order {
                Some(m) => Some(m as int),
                None => None,
            },
        ),
        r <= 2 * MAX_AMOUNT,
{
    if snap.price == 0 {
        return 0;
    }
    proof {
        assert(0 <= (notional as int) * (AMOUNT_SCALE as int)
            <= 1_000_000_000_000_000_000_000_000_000int) by (nonlinear_arith)
            requires
                0 <= notional as int <= 1_000_000_000_000_000_000int,
                AMOUNT_SCALE == 1_000_000_000,
        ;
        assert(0 <= (notional as int) * (AMOUNT_SCALE as int) / (snap.price as int))
            by (nonlinear_arith)
            requires
                0 <= (notional as int) * (AMOUNT_SCALE as int),
                snap.price as int >= 1,
        ;
    }
    let raw128: u128 = notional as u128 * AMOUNT_SCALE as u128 / snap.price as u128;
    let capped: u64 = if raw128 > MAX_AMOUNT as u128 {
        MAX_AMOUNT
    } else {
        raw128 as u64
    };
    let rounded: u64 = match snap.size_decimals {
        Some(d) => {
            let step: u64 = pow10_atoms(d);
            round_half_even(capped, step)
        },
        None => capped,
    };
    proof {
        assert(spec_round_half_even(capped as int, 1_000_000_000) <= capped as int + 1_000_000_000)
            by (nonlinear_arith)
            requires
                0 <= capped,
        ;
    }
    match snap.min_order {
        Some(mo) => if 0 < rounded && rounded < mo {
            mo
        } else {
            rounded
        },
        None => rounded,
    }
}

/// The per-leg notional in atoms: the equity at risk (the larger of
/// the cached and fallback equity, times the risk fraction and the
/// leverage) split over two legs, floored at ten units and capped at
/// `MAX_AMOUNT`.
pub open spec fn spec_leg_notional(cfg: &PairTradeConfig, equity_cache: int) -> int {
    let equity = if equity_cache >= cfg.equity_usd {
        equity_cache
    } else {
        cfg.equity_usd as int
    };
    let total = equity * cfg.risk_pct_per_trade / (crate::stats::STAT_SCALE as int)
        * cfg.max_leverage / (crate::stats::STAT_SCALE as int);
    let half = total / 2;
    let floored = if half < 10 * (AMOUNT_SCALE as int) {
        10 * (AMOUNT_SCALE as int)
    } else {
        half
    };
    if floored > MAX_AMOUNT as int {
        MAX_AMOUNT as int
    } else {
        floored
    }
}

/// The hedged sizes of the two legs of a new position: the per-leg
/// notional over each price, the quote leg scaled by the hedge ratio.
pub fn hedged_sizes(
    cfg: &PairTradeConfig,
    equity_cache: u64,
    beta: i64,
    p1: &SymbolSnapshot,
    p2: &SymbolSnapshot,
) -> (r: (u64, u64))
    requires
        cfg.wf(),
        p1.wf(),
        p2.wf(),
        equity_cache <= MAX_AMOUNT,
        100_000 <= beta <= 10_000_000,
    ensures
        r.0 == spec_hedged_size(
            p1.price as int,
            spec_leg_notional(cfg, equity_cache as int),
            p1.size_decimals,
            match p1.min_order {
                Some(m) => Some(m as int),
                None => None,
            },
        ),
        r.1 == spec_hedged_size(
            p2.price as int,
            ({
                let nb = spec_leg_notional(cfg, equity_cache as int) * beta / (
                crate::stats::STAT_SCALE as int);
                if nb > MAX_AMOUNT as int {
                    MAX_AMOUNT as int
                } else {
                    nb
                }
            }),
            p2.size_decimals,
            match p2.min_order {
                Some(m) => Some(m as int),
                None => None,
            },
        ),
        r.0 <= 2 * MAX_AMOUNT,
        r.1 <= 2 * MAX_AMOUNT,
{
    let equity: u64 = if equity_cache >= cfg.equity_usd {
        equity_cache
    } else {
        cfg.equity_usd
    };
    proof {
        assert(0 <= (equity as int) * (cfg.risk_pct_per_trade as int)
            <= 1_000_000_000_000_000_000_000_000int) by (nonlinear_arith)
            requires
                0 <= equity as int <= 1_000_000_000_000_000_000int,
                0 <= cfg.risk_pct_per_trade <= 1_000_000,
        ;
        assert(0 <= (equity as int) * (cfg.risk_pct_per_trade as int) / 1_000_000int
            <= 1_000_000_000_000_000_000int) by (nonlinear_arith)
            requires
                0 <= (equity as int) * (cfg.risk_pct_per_trade as int)
                    <= 1_000_000_000_000_000_000_000_000int,
        ;
    }
    let risked: u128 = equity as u128 * cfg.risk_pct_per_trade as u128
        / crate::stats::STAT_SCALE as u128;
    proof {
        assert(0 <= (risked as int) * (cfg.max_leverage as int)
            <= 1_000_000_000_000_000_000_000_000_000int) by (nonlinear_arith)
            requires
                0 <= risked as int <= 1_000_000_000_000_000_000int,
                0 <= cfg.max_leverage <= 1_000_000_000,
        ;
        assert(0 <= (risked as int) * (cfg.max_leverage as int) / 1_000_000int
            <= 1_000_000_000_000_000_000_000_000_000int) by (nonlinear_arith)
            requires
                0 <= (risked as int) * (cfg.max_leverage as int)
                    <= 1_000_000_000_000_000_000_000_000_000int,
        ;
    }
    let total: u128 = risked * cfg.max_leverage as u128 / crate::stats::STAT_SCALE as u128;
    let half: u128 = total / 2;
    let floored: u128 = if half < 10 * AMOUNT_SCALE as u128 {
        10 * AMOUNT_SCALE as u128
    } else {
        half
    };
    let notional: u64 = if floored > MAX_AMOUNT as u128 {
        MAX_AMOUNT
    } else {
        floored as u64
    };
    let qty_a: u64 = hedged_size_for(notional, p1);
    proof {
        assert(0 <= (notional as int) * (beta as int) <= 10_000_000_000_000_000_000_000_000int)
            by (nonlinear_arith)
            requires
                0 <= notional as int <= 1_000_000_000_000_000_000int,
                100_000 <= beta <= 10_000_000,
        ;
        assert(0 <= (notional as int) * (beta as int) / 1_000_000int
            <= 10_000_000_000_000_000_000int) by (nonlinear_arith)
            requires
                0 <= (notional as int) * (beta as int) <= 10_000_000_000_000_000_000_000_000int,
        ;
    }
    let scaled: u128 = notional as u128 * beta as u128 / crate::stats::STAT_SCALE as u128;
    let notional_b: u64 = if scaled > MAX_AMOUNT as u128 {
        MAX_AMOUNT
    } else {
        scaled as u64
    };
    let qty_b: u64 = hedged_size_for(notional_b, p2);
    (qty_a, qty_b)
}


/// The plan for one pending leg during a reissue pass.
#[derive(Clone, Debug)]
pub enum LegPlan {
    /// Keep the leg as it stands, with its effective fill recorded.
    Keep { filled: u64 },
    /// Place a fresh order for the residual; a positive fill is kept
    /// as a separate, already-filled accounting leg.
    Reissue { filled: u64, command: OrderCommand },
}

/// The reissue plan for one leg. A leg is kept unchanged when nothing
/// remains to fill, when a limit reissue has no usable price, or when
/// the residual quantizes away; otherwise the residual is reissued,
/// as a market order when `use_market` is set, else at the leg side's
/// limit price.
pub open spec fn spec_plan_reissue_leg(
    cfg: &PairTradeConfig,
    leg: &PendingLeg,
    fills: Seq<(String, u64)>,
    snap: Option<&SymbolSnapshot>,
    reduce_only: bool,
    use_market: bool,
) -> LegPlan {
    let filled = spec_filled_for_leg(leg, fills);
    let remaining = leg.target - filled;
    if remaining <= 0 {
        LegPlan::Keep { filled: filled as u64 }
    } else if !use_market && (snap is None || snap->0.price == 0) {
        LegPlan::Keep { filled: filled as u64 }
    } else {
        let quantized = match snap {
            Some(sn) => if reduce_only {
                spec_quantize_order_size_close(sn, remaining)
            } else {
                spec_quantize_order_size(sn, remaining)
            },
            None => remaining,
        };
        if quantized <= 0 {
            LegPlan::Keep { filled: filled as u64 }
        } else {
            let limit = if use_market {
                None
            } else {
                Some(spec_limit_price(cfg, leg.side, snap->0) as u64)
            };
            LegPlan::Reissue {
                filled: filled as u64,
                command: OrderCommand {
                    symbol: leg.symbol,
                    size: quantized as u64,
                    side: leg.side,
                    limit_price: limit,
                    post_only: false,
                    reduce_only,
                },
            }
        }
    }
}

/// Plans the reissue of one pending leg.
pub fn plan_reissue_leg(
    cfg: &PairTradeConfig,
    leg: &PendingLeg,
    fills: &Vec<(String, u64)>,
    snap: Option<&SymbolSnapshot>,
    reduce_only: bool,
    use_market: bool,
) -> (r: LegPlan)
    requires
        cfg.wf(),
        leg.target <= MAX_AMOUNT,
        leg.filled <= leg.target,
        snap matches Some(sn) ==> sn.wf(),
    ensures
        r == spec_plan_reissue_leg(cfg, leg, fills@, snap, reduce_only, use_market),
{
    let filled: u64 = filled_for_leg(leg, fills);
    let remaining: u64 = leg.target - filled;
    if remaining == 0 {
        return LegPlan::Keep { filled };
    }
    if !use_market {
        let has_price: bool = match snap {
            Some(sn) => sn.price > 0,
            None => false,
        };
        if !has_price {
            return LegPlan::Keep { filled };
        }
    }
    let quantized: u64 = match snap {
        Some(sn) => if reduce_only {
            quantize_order_size_close(sn, remaining)
        } else {
            quantize_order_size(sn, remaining)
        },
        None => remaining,
    };
    if quantized == 0 {
        return LegPlan::Keep { filled };
    }
    let limit: Option<u64> = if use_market {
        None
    } else {
        match snap {
            Some(sn) => Some(limit_price_for(cfg, leg.side, sn)),
            None => None,
        }
    };
    LegPlan::Reissue {
        filled,
        command: OrderCommand {
            symbol: leg.symbol.clone(),
            size: quantized,
            side: leg.side,
            limit_price: limit,
            post_only: false,
            reduce_only,
        },
    }
}

/// The legs a reissue plan leaves pending once the venue has answered:
/// a kept leg stays with its recorded fill; a reissued leg becomes an
/// accounting leg for what was already filled (when positive) plus a
/// fresh leg for the placed residual; a rejected reduce-only residual
/// whose position the venue confirmed missing is recorded as complete;
/// any other rejection keeps the old leg and its fill.
pub open spec fn spec_legs_after_reissue(
    leg: &PendingLeg,
    plan: &LegPlan,
    outcome: &OrderOutcome,
) -> Seq<PendingLeg> {
    match plan {
        LegPlan::Keep { filled } => seq![PendingLeg { filled: *filled, ..*leg }],
        LegPlan::Reissue { filled, command } => match outcome {
            OrderOutcome::Placed { order_id, exchange_order_id, ordered_price, ordered_size } => {
                let fresh = PendingLeg {
                    symbol: leg.symbol,
                    order_id: *order_id,
                    exchange_order_id: *exchange_order_id,
                    target: command.size,
                    filled: 0u64,
                    side: leg.side,
                    placed_price: *ordered_price,
                };
                if *filled > 0 {
                    seq![PendingLeg { target: *filled, filled: *filled, ..*leg }, fresh]
                } else {
                    seq![fresh]
                }
            },
            OrderOutcome::Failed { position_confirmed_missing } => {
                if command.reduce_only && *position_confirmed_missing {
                    seq![PendingLeg { filled: leg.target, ..*leg }]
                } else {
                    seq![PendingLeg { filled: *filled, ..*leg }]
                }
            },
        },
    }
}

fn clone_leg(leg: &PendingLeg) -> (r: PendingLeg)
    ensures
        r == *leg,
{
    PendingLeg {
        symbol: leg.symbol.clone(),
        order_id: leg.order_id.clone(),
        exchange_order_id: match &leg.exchange_order_id {
            Some(ex) => Some(ex.clone()),
            None => None,
        },
        target: leg.target,
        filled: leg.filled,
        side: leg.side,
        placed_price: leg.placed_price,
    }
}

/// Applies one leg's reissue outcome, yielding the legs that stay
/// pending for it.
pub fn legs_after_reissue(leg: &PendingLeg, plan: &LegPlan, outcome: &OrderOutcome) -> (r: Vec<
    PendingLeg,
>)
    ensures
        r@ == spec_legs_after_reissue(leg, plan, outcome),
{
    let mut out: Vec<PendingLeg> = Vec::new();
    match plan {
        LegPlan::Keep { filled } => {
            let mut kept: PendingLeg = clone_leg(leg);
            kept.filled = *filled;
            out.push(kept);
        },
        LegPlan::Reissue { filled, command } => match outcome {
            OrderOutcome::Placed { order_id, exchange_order_id, ordered_price, ordered_size } => {
                if *filled > 0 {
                    let mut acct: PendingLeg = clone_leg(leg);
                    acct.target = *filled;
                    acct.filled = *filled;
                    out.push(acct);
                }
                out.push(
                    PendingLeg {
                        symbol: leg.symbol.clone(),
                        order_id: order_id.clone(),
                        exchange_order_id: match exchange_order_id {
                            Some(ex) => Some(ex.clone()),
                            None => None,
                        },
                        target: command.size,
                        filled: 0,
                        side: leg.side,
                        placed_price: *ordered_price,
                    },
                );
            },
            OrderOutcome::Failed { position_confirmed_missing } => {
                if command.reduce_only && *position_confirmed_missing {
                    let mut kept: PendingLeg = clone_leg(leg);
                    kept.filled = leg.target;
                    out.push(kept);
                } else {
                    let mut kept: PendingLeg = clone_leg(leg);
                    kept.filled = *filled;
                    out.push(kept);
                }
            },
        },
    }
    proof {
        assert(out@ =~= spec_legs_after_reissue(leg, plan, outcome));
    }
    out
}

/// The two order commands opening a position: the entry sides of the
/// direction, sizes rounded down to the venue step with the venue
/// minimum as a floor, at the sides' limit prices, post-only when
/// configured.
pub fn plan_entry_commands(
    cfg: &PairTradeConfig,
    base: &String,
    quote: &String,
    direction: PositionDirection,
    qty_a: u64,
    qty_b: u64,
    snap_a: &SymbolSnapshot,
    snap_b: &SymbolSnapshot,
) -> (r: (OrderCommand, OrderCommand))
    requires
        cfg.wf(),
        snap_a.wf(),
        snap_b.wf(),
        qty_a <= MAX_AMOUNT,
        qty_b <= MAX_AMOUNT,
    ensures
        ({
            let (side_a, side_b) = match direction {
                PositionDirection::LongSpread => (OrderSide::Long, OrderSide::Short),
                PositionDirection::ShortSpread => (OrderSide::Short, OrderSide::Long),
            };
            &&& r.0.symbol@ == base@
            &&& r.0.side == side_a
            &&& r.0.size == spec_quantize_order_size(snap_a, qty_a as int)
            &&& r.0.limit_price == Some(spec_limit_price(cfg, side_a, snap_a) as u64)
            &&& r.0.post_only == cfg.spec_should_post_only()
            &&& r.0.reduce_only == false
            &&& r.1.symbol@ == quote@
            &&& r.1.side == side_b
            &&& r.1.size == spec_quantize_order_size(snap_b, qty_b as int)
            &&& r.1.limit_price == Some(spec_limit_price(cfg, side_b, snap_b) as u64)
            &&& r.1.post_only == cfg.spec_should_post_only()
            &&& r.1.reduce_only == false
        }),
{
    let (side_a, side_b): (OrderSide, OrderSide) = entry_sides(direction);
    let qa: u64 = quantize_order_size(snap_a, qty_a);
    let qb: u64 = quantize_order_size(snap_b, qty_b);
    let post_only: bool = cfg.should_post_only();
    (
        OrderCommand {
            symbol: base.clone(),
            size: qa,
            side: side_a,
            limit_price: Some(limit_price_for(cfg, side_a, snap_a)),
            post_only,
            reduce_only: false,
        },
        OrderCommand {
            symbol: quote.clone(),
            size: qb,
            side: side_b,
            limit_price: Some(limit_price_for(cfg, side_b, snap_b)),
            post_only,
            reduce_only: false,
        },
    )
}

/// The order commands closing a position: the exit sides of the
/// direction, reduce-only, sizes quantized to the venue precision;
/// market orders under `use_market`, else limit orders with post-only
/// when configured. A leg with no size is omitted.
pub fn plan_close_commands(
    cfg: &PairTradeConfig,
    base: &String,
    quote: &String,
    direction: PositionDirection,
    qty_a: u64,
    qty_b: u64,
    snap_a: &SymbolSnapshot,
    snap_b: &SymbolSnapshot,
    use_market: bool,
) -> (r: (Option<OrderCommand>, Option<OrderCommand>))
    requires
        cfg.wf(),
        snap_a.wf(),
        snap_b.wf(),
        qty_a <= MAX_AMOUNT,
        qty_b <= MAX_AMOUNT,
    ensures
        ({
            let (side_a, side_b) = match direction {
                PositionDirection::LongSpread => (OrderSide::Short, OrderSide::Long),
                PositionDirection::ShortSpread => (OrderSide::Long, OrderSide::Short),
            };
            let qa = spec_quantize_order_size_close(snap_a, qty_a as int);
            let qb = spec_quantize_order_size_close(snap_b, qty_b as int);
            &&& (r.0 is Some <==> qa > 0)
            &&& (r.1 is Some <==> qb > 0)
            &&& (r.0 matches Some(c) ==> {
                &&& c.symbol@ == base@
                &&& c.side == side_a
                &&& c.size == qa
                &&& c.reduce_only == true
                &&& c.limit_price == (if use_market {
                    None
                } else {
                    Some(spec_limit_price(cfg, side_a, snap_a) as u64)
                })
                &&& c.post_only == (!use_market && cfg.spec_should_post_only())
            })
            &&& (r.1 matches Some(c) ==> {
                &&& c.symbol@ == quote@
                &&& c.side == side_b
                &&& c.size == qb
                &&& c.reduce_only == true
                &&& c.limit_price == (if use_market {
                    None
                } else {
                    Some(spec_limit_price(cfg, side_b, snap_b) as u64)
                })
                &&& c.post_only == (!use_market && cfg.spec_should_post_only())
            })
        }),
{
    let (side_a, side_b): (OrderSide, OrderSide) = exit_sides(direction);
    let qa: u64 = quantize_order_size_close(snap_a, qty_a);
    let qb: u64 = quantize_order_size_close(snap_b, qty_b);
    let post_only: bool = !use_market && cfg.should_post_only();
    let cmd_a: Option<OrderCommand> = if qa > 0 {
        Some(
            OrderCommand {
                symbol: base.clone(),
                size: qa,
                side: side_a,
                limit_price: if use_market {
                    None
                } else {
                    Some(limit_price_for(cfg, side_a, snap_a))
                },
                post_only,
                reduce_only: true,
            },
        )
    } else {
        None
    };
    let cmd_b: Option<OrderCommand> = if qb > 0 {
        Some(
            OrderCommand {
                symbol: quote.clone(),
                size: qb,
                side: side_b,
                limit_price: if use_market {
                    None
                } else {
                    Some(limit_price_for(cfg, side_b, snap_b))
                },
                post_only,
                reduce_only: true,
            },
        )
    } else {
        None
    };
    (cmd_a, cmd_b)
}

/// The sizes to close a pair with: the venue's reported leg sizes when
/// either leg is live there, else the sizes recorded at entry. Zero
/// sizes ask the caller to fall back to hedge sizing.
pub fn exit_sizes_for_pair(
    base_pos: Option<&crate::state::VenuePosition>,
    quote_pos: Option<&crate::state::VenuePosition>,
    position: &Option<crate::state::Position>,
) -> (r: (u64, u64))
    ensures
        (base_pos is Some || quote_pos is Some) ==> {
            &&& r.0 == (match base_pos {
                Some(p) => p.size as int,
                None => 0int,
            })
            &&& r.1 == (match quote_pos {
                Some(p) => p.size as int,
                None => 0int,
            })
        },
        base_pos is None && quote_pos is None ==> {
            &&& r.0 == (match position {
                Some(pos) => match pos.entry_size_a {
                    Some(s) => s as int,
                    None => 0int,
                },
                None => 0int,
            })
            &&& r.1 == (match position {
                Some(pos) => match pos.entry_size_b {
                    Some(s) => s as int,
                    None => 0int,
                },
                None => 0int,
            })
        },
{
    match (base_pos, quote_pos) {
        (None, None) => {
            match position {
                Some(pos) => {
                    let a: u64 = match pos.entry_size_a {
                        Some(s) => s,
                        None => 0,
                    };
                    let b: u64 = match pos.entry_size_b {
                        Some(s) => s,
                        None => 0,
                    };
                    (a, b)
                },
                None => (0, 0),
            }
        },
        _ => {
            let a: u64 = match base_pos {
                Some(p) => p.size,
                None => 0,
            };
            let b: u64 = match quote_pos {
                Some(p) => p.size,
                None => 0,
            };
            (a, b)
        },
    }
}


/// The reduce-only market hedge that flattens the filled part of a
/// leg after its sibling was rejected; nothing when nothing filled.
pub fn plan_rollback_hedge(leg: &PendingLeg, filled: u64) -> (r: Option<OrderCommand>)
    ensures
        r is Some <==> filled > 0,
        r matches Some(c) ==> {
            &&& c.symbol@ == leg.symbol@
            &&& c.size == filled
            &&& (c.side == OrderSide::Long <==> leg.side == OrderSide::Short)
            &&& c.limit_price is None
            &&& c.post_only == false
            &&& c.reduce_only == true
        },
{
    if filled == 0 {
        return None;
    }
    let side: OrderSide = match leg.side {
        OrderSide::Long => OrderSide::Short,
        OrderSide::Short => OrderSide::Long,
    };
    Some(
        OrderCommand {
            symbol: leg.symbol.clone(),
            size: filled,
            side,
            limit_price: None,
            post_only: false,
            reduce_only: true,
        },
    )
}

/// Post-only placements are retried this many times before giving up.
pub const POST_ONLY_ATTEMPTS: u32 = 3;

/// Milliseconds between post-only retries.
pub const POST_ONLY_RETRY_DELAY_MS: u64 = 200;

/// Wall-clock cap on one post-only retry run, milliseconds.
pub const POST_ONLY_RETRY_MAX_ELAPSED_MS: u64 = 1500;

/// What to do after a rejected post-only placement.
#[derive(Clone, Copy, Debug, PartialEq, Eq, Structural)]
pub enum PostOnlyRetry {
    /// Refresh the book and place again after the retry delay.
    RetryAfterDelay { delay_ms: u64 },
    /// The budget is spent and the order may cross: place a market
    /// order instead (exits fall back this way).
    FallbackToMarket,
    /// The budget is spent and crossing is not allowed: the placement
    /// failed (entries give up this way).
    GiveUp,
}

/// The retry policy for a rejected post-only placement: retry after
/// the fixed delay while both the attempt budget and the wall-clock
/// cap hold; once either is spent, fall back to a market order when
/// the caller allows crossing, else give up.
pub fn decide_post_only_retry(attempt: u32, elapsed_ms: u64, fallback_to_taker: bool) -> (r:
    PostOnlyRetry)
    ensures
        r == (if attempt < POST_ONLY_ATTEMPTS && elapsed_ms < POST_ONLY_RETRY_MAX_ELAPSED_MS {
            PostOnlyRetry::RetryAfterDelay { delay_ms: POST_ONLY_RETRY_DELAY_MS }
        } else if fallback_to_taker {
            PostOnlyRetry::FallbackToMarket
        } else {
            PostOnlyRetry::GiveUp
        }),
{
    if attempt < POST_ONLY_ATTEMPTS && elapsed_ms < POST_ONLY_RETRY_MAX_ELAPSED_MS {
        PostOnlyRetry::RetryAfterDelay { delay_ms: POST_ONLY_RETRY_DELAY_MS }
    } else if fallback_to_taker {
        PostOnlyRetry::FallbackToMarket
    } else {
        PostOnlyRetry::GiveUp
    }
}

} // verus!
