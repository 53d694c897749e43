//! Reconciliation: syncing venue positions into pair state, the
//! decisions taken over pending two-leg batches (promotion, reissue,
//! timeout handling), and the state transitions they drive.
//!
//! Every transition preserves the slot invariant: a pending entry
//! excludes both an open position and a pending exit.

use vstd::prelude::*;

use crate::config::PairTradeConfig;
use crate::orders::{all_filled, any_fills, limit_price_for, spec_filled_for_leg, spec_limit_price,
    OrderCommand};
use crate::state::{opposite_side, OrderSide, PairState, PendingLeg, PendingOrders, Position,
    PositionDirection, SymbolSnapshot, VenuePosition};

verus! {

/// Exit reissues beyond this count fall back to closing every
/// position on the venue.
pub const MAX_EXIT_RETRIES: u32 = 3;

/// Hedges of a timed-out entry beyond this count are placed as market
/// orders.
pub const MAX_HEDGE_RETRIES: u32 = 3;

/// Venue positions with a zero sign, a zero size, or a size below the
/// venue minimum (dust) are discarded before reconciliation.
pub open spec fn spec_position_kept(p: &VenuePosition, min_order: Option<int>) -> bool {
    &&& p.sign != 0
    &&& p.size > 0
    &&& match min_order {
        Some(mo) => p.size >= mo,
        None => true,
    }
}

/// The venue minimum order size of a symbol, as the price list
/// reports it.
pub open spec fn spec_min_order_at(prices: Seq<(String, SymbolSnapshot)>, symbol: Seq<char>)
    -> Option<int> {
    match spec_snapshot_lookup(prices, symbol) {
        Some(s) => match s.min_order {
            Some(mo) => Some(mo as int),
            None => None,
        },
        None => None,
    }
}

/// Looks a symbol's snapshot up in a price list.
pub open spec fn spec_snapshot_lookup(prices: Seq<(String, SymbolSnapshot)>, symbol: Seq<char>)
    -> Option<SymbolSnapshot>
    decreases prices.len(),
{
    if prices.len() == 0 {
        None
    } else if prices[0].0@ == symbol {
        Some(prices[0].1)
    } else {
        spec_snapshot_lookup(prices.drop_first(), symbol)
    }
}

/// A found snapshot is one of the list's elements.
pub proof fn lemma_snapshot_lookup_element(prices: Seq<(String, SymbolSnapshot)>, symbol: Seq<char>)
    requires
        spec_snapshot_lookup(prices, symbol) is Some,
    ensures
        exists|j: int|
            0 <= j < prices.len() && (#[trigger] prices[j]).1 == spec_snapshot_lookup(
                prices,
                symbol,
            )->0,
    decreases prices.len(),
{
    if prices.len() > 0 {
        if prices[0].0@ == symbol {
            assert(prices[0].1 == spec_snapshot_lookup(prices, symbol)->0);
        } else {
            lemma_snapshot_lookup_element(prices.drop_first(), symbol);
            let j = choose|j: int|
                0 <= j < prices.drop_first().len() && (#[trigger] prices.drop_first()[j]).1
                    == spec_snapshot_lookup(prices.drop_first(), symbol)->0;
            assert(prices[j + 1] == prices.drop_first()[j]);
        }
    }
}

/// Looks a symbol up in a price list.
pub fn snapshot_lookup<'a>(prices: &'a Vec<(String, SymbolSnapshot)>, symbol: &String) -> (r:
    Option<&'a SymbolSnapshot>)
    ensures
        match r {
            Some(s) => spec_snapshot_lookup(prices@, symbol@) == Some(*s),
            None => spec_snapshot_lookup(prices@, symbol@) is None,
        },
{
    let mut i: usize = 0;
    proof {
        assert(prices@.subrange(0, prices@.len() as int) =~= prices@);
    }
    while i < prices.len()
        invariant
            0 <= i <= prices@.len(),
            spec_snapshot_lookup(prices@, symbol@) == spec_snapshot_lookup(
                prices@.subrange(i as int, prices@.len() as int),
                symbol@,
            ),
        decreases prices@.len() - i,
    {
        proof {
            assert(prices@.subrange(i as int, prices@.len() as int)[0] == prices@[i as int]);
            assert(prices@.subrange(i as int, prices@.len() as int).drop_first()
                =~= prices@.subrange(i + 1, prices@.len() as int));
        }
        if prices[i].0 == *symbol {
            return Some(&prices[i].1);
        }
        i = i + 1;
    }
    None
}

/// The venue positions reconciliation works with: the fetched list
/// with flat signs, zero sizes and dust below the venue minimum
/// discarded, in their reported order.
pub open spec fn spec_filter_positions(
    positions: Seq<VenuePosition>,
    prices: Seq<(String, SymbolSnapshot)>,
) -> Seq<VenuePosition>
    decreases positions.len(),
{
    if positions.len() == 0 {
        Seq::empty()
    } else {
        let rest = spec_filter_positions(positions.drop_first(), prices);
        if spec_position_kept(&positions[0], spec_min_order_at(prices, positions[0].symbol@)) {
            seq![positions[0]] + rest
        } else {
            rest
        }
    }
}

/// Discards the venue positions that reconciliation must ignore:
/// flat signs, zero sizes, and dust below the venue minimum. Every
/// other position is kept, in its reported order.
pub fn filter_positions(
    positions: Vec<VenuePosition>,
    prices: &Vec<(String, SymbolSnapshot)>,
) -> (r: Vec<VenuePosition>)
    ensures
        r@ == spec_filter_positions(positions@, prices@),
        forall|i: int|
            0 <= i < r@.len() ==> #[trigger] spec_position_kept(
                &r@[i],
                spec_min_order_at(prices@, r@[i].symbol@),
            ),
        forall|i: int| 0 <= i < r@.len() ==> positions@.contains(#[trigger] r@[i]),
{
    let mut out: Vec<VenuePosition> = Vec::new();
    let mut i: usize = 0;
    let n: usize = positions.len();
    proof {
        assert(positions@.subrange(0, n as int) =~~= positions@);
        assert(Seq::empty().add(spec_filter_positions(positions@, prices@))
            =~~= spec_filter_positions(positions@, prices@));
    }
    while i < n
        invariant
            0 <= i <= n,
            n == positions@.len(),
            spec_filter_positions(positions@, prices@) =~~= out@ + spec_filter_positions(
                positions@.subrange(i as int, n as int),
                prices@,
            ),
            forall|k: int|
                0 <= k < out@.len() ==> #[trigger] spec_position_kept(
                    &out@[k],
                    spec_min_order_at(prices@, out@[k].symbol@),
                ),
            forall|k: int| 0 <= k < out@.len() ==> positions@.contains(#[trigger] out@[k]),
        decreases n - i,
    {
        proof {
            assert(positions@.subrange(i as int, n as int)[0] == positions@[i as int]);
            assert(positions@.subrange(i as int, n as int).drop_first() =~~= positions@.subrange(
                i + 1,
                n as int,
            ));
        }
        let p: &VenuePosition = &positions[i];
        let mut kept: bool = false;
        if p.sign != 0 && p.size > 0 {
            let dust: bool = match snapshot_lookup(prices, &p.symbol) {
                Some(snap) => match snap.min_order {
                    Some(mo) => p.size < mo,
                    None => false,
                },
                None => false,
            };
            kept = !dust;
        }
        proof {
            assert(kept == spec_position_kept(
                &positions@[i as int],
                spec_min_order_at(prices@, positions@[i as int].symbol@),
            ));
        }
        if kept {
            let ghost prev = out@;
            out.push(
                VenuePosition {
                    symbol: p.symbol.clone(),
                    sign: p.sign,
                    size: p.size,
                    entry_price: p.entry_price,
                },
            );
            proof {
                let last = out@.len() - 1;
                assert(out@[last] == positions@[i as int]);
                assert(positions@.contains(out@[last]));
                assert(forall|k: int| 0 <= k < last ==> #[trigger] out@[k] == prev[k]);
                assert(out@ =~~= prev + seq![positions@[i as int]]);
                assert(out@ + spec_filter_positions(positions@.subrange(i + 1, n as int), prices@)
                    =~~= prev + spec_filter_positions(
                    positions@.subrange(i as int, n as int),
                    prices@,
                ));
            }
        }
        i = i + 1;
    }
    proof {
        assert(spec_filter_positions(positions@.subrange(n as int, n as int), prices@)
            =~~= Seq::<VenuePosition>::empty());
        assert(out@ + Seq::<VenuePosition>::empty() =~~= out@);
        assert(out@ =~~= spec_filter_positions(positions@, prices@));
    }
    out
}

/// Looks a symbol's venue position up in a filtered list.
pub fn position_lookup<'a>(positions: &'a Vec<VenuePosition>, symbol: &String) -> (r: Option<
    &'a VenuePosition,
>)
    ensures
        r matches Some(p) ==> exists|j: int|
            0 <= j < positions@.len() && *p == positions@[j] && positions@[j].symbol@ == symbol@,
        r is None ==> forall|j: int|
            0 <= j < positions@.len() ==> #[trigger] positions@[j].symbol@ != symbol@,
{
    let mut i: usize = 0;
    let n: usize = positions.len();
    while i < n
        invariant
            0 <= i <= n,
            n == positions@.len(),
            forall|j: int| 0 <= j < i ==> #[trigger] positions@[j].symbol@ != symbol@,
        decreases n - i,
    {
        if positions[i].symbol == *symbol {
            return Some(&positions[i]);
        }
        i = i + 1;
    }
    None
}

/// Records a freshly placed entry batch. Entries are only placed on a
/// flat pair, so the slot invariant is preserved.
pub fn set_pending_entry(state: &mut PairState, pending: PendingOrders)
    requires
        old(state).position is None,
        old(state).pending_exit is None,
    ensures
        final(state).pending_entry == Some(pending),
        final(state).position is None,
        final(state).pending_exit is None,
        final(state).slots_ok(),
        final(state).spread_history == old(state).spread_history,
        final(state).last_exit_at == old(state).last_exit_at,
        final(state).position_guard == old(state).position_guard,
{
    state.pending_entry = Some(pending);
}

/// Records a freshly placed exit batch; the position stays recorded
/// until its fill is confirmed.
pub fn set_pending_exit(state: &mut PairState, pending: PendingOrders)
    requires
        old(state).pending_entry is None,
    ensures
        final(state).pending_exit == Some(pending),
        final(state).pending_entry is None,
        final(state).position == old(state).position,
        final(state).slots_ok(),
        final(state).spread_history == old(state).spread_history,
        final(state).last_exit_at == old(state).last_exit_at,
{
    state.pending_exit = Some(pending);
}

/// Hands a fully filled entry batch over to an open position in the
/// same step; the entry prices and sizes are left to the venue
/// snapshot to fill in.
pub fn promote_entry_fill(state: &mut PairState, now: u64)
    requires
        old(state).pending_entry matches Some(p),
        old(state).slots_ok(),
    ensures
        final(state).pending_entry is None,
        final(state).pending_exit is None,
        final(state).position == Some(
            Position {
                direction: old(state).pending_entry->0.direction,
                entered_at: now,
                entry_price_a: None,
                entry_price_b: None,
                entry_size_a: None,
                entry_size_b: None,
            },
        ),
        final(state).slots_ok(),
        final(state).spread_history == old(state).spread_history,
        final(state).last_exit_at == old(state).last_exit_at,
{
    let direction: PositionDirection = match &state.pending_entry {
        Some(p) => p.direction,
        None => PositionDirection::LongSpread,
    };
    state.position = Some(
        Position {
            direction,
            entered_at: now,
            entry_price_a: None,
            entry_price_b: None,
            entry_size_a: None,
            entry_size_b: None,
        },
    );
    state.pending_entry = None;
}

/// Clears a confirmed exit: the pair is flat and the cooldown clock
/// starts.
pub fn complete_exit(state: &mut PairState, now: u64)
    ensures
        final(state).position is None,
        final(state).pending_exit is None,
        final(state).pending_entry == old(state).pending_entry,
        final(state).last_exit_at == Some(now),
        final(state).slots_ok(),
        final(state).spread_history == old(state).spread_history,
{
    state.position = None;
    state.pending_exit = None;
    state.last_exit_at = Some(now);
}

/// Abandons a timed-out entry batch after its fills were hedged; the
/// pair is flat and the cooldown clock starts.
pub fn abort_entry(state: &mut PairState, now: u64, flattened: bool)
    ensures
        final(state).pending_entry is None,
        final(state).last_exit_at == Some(now),
        final(state).position == (if flattened {
            None
        } else {
            old(state).position
        }),
        final(state).pending_exit == old(state).pending_exit,
        old(state).slots_ok() ==> final(state).slots_ok(),
        final(state).spread_history == old(state).spread_history,
{
    state.pending_entry = None;
    state.last_exit_at = Some(now);
    if flattened {
        state.position = None;
    }
}

/// Clears pending slots older than `max_age` (the stale-feed guard):
/// the pair is reset flat with its guard lowered. Returns whether the
/// state was cleared.
pub fn clear_stale_pending(state: &mut PairState, now: u64, max_age: u64) -> (cleared: bool)
    requires
        old(state).slots_ok(),
        old(state).pending_entry matches Some(p) ==> p.placed_at <= now,
        old(state).pending_exit matches Some(p) ==> p.placed_at <= now,
    ensures
        cleared == ({
            ||| (old(state).pending_entry matches Some(p) && now - p.placed_at >= max_age)
            ||| (old(state).pending_exit matches Some(p) && now - p.placed_at >= max_age)
        }),
        cleared ==> {
            &&& final(state).pending_entry is None
            &&& final(state).pending_exit is None
            &&& final(state).position is None
            &&& final(state).position_guard == false
            &&& final(state).last_exit_at == Some(now)
        },
        !cleared ==> *final(state) == *old(state),
        final(state).slots_ok(),
        final(state).spread_history == old(state).spread_history,
{
    let entry_stale: bool = match &state.pending_entry {
        Some(p) => now - p.placed_at >= max_age,
        None => false,
    };
    let exit_stale: bool = match &state.pending_exit {
        Some(p) => now - p.placed_at >= max_age,
        None => false,
    };
    if entry_stale || exit_stale {
        state.pending_entry = None;
        state.pending_exit = None;
        state.position = None;
        state.position_guard = false;
        state.last_exit_at = Some(now);
        true
    } else {
        false
    }
}

/// A lone venue leg that reconciliation wants closed: the symbol with
/// its reported sign and size.
#[derive(Clone, Debug)]
pub struct LoneLeg {
    pub symbol: String,
    pub sign: i32,
    pub size: u64,
}

/// Syncs one pair's state with the venue's filtered positions. With
/// both legs live and opposite, the position is set or refreshed from
/// the venue and the guard lowered; with both legs gone, the pair is
/// flat; same-signed legs raise the guard and drop the recorded
/// position; a lone leg is handed back for a reduce-only closure and
/// raises the guard if a position was recorded. Pairs with pending
/// batches are left to order reconciliation. After the call, a
/// recorded position with a lowered guard always has both venue legs
/// live with opposite signs.
pub fn sync_pair_position(
    state: &mut PairState,
    base: Option<&VenuePosition>,
    quote: Option<&VenuePosition>,
    now: u64,
) -> (r: Option<LoneLeg>)
    requires
        old(state).slots_ok(),
    ensures
        final(state).slots_ok(),
        final(state).spread_history == old(state).spread_history,
        final(state).last_exit_at == old(state).last_exit_at,
        final(state).pending_entry == old(state).pending_entry,
        final(state).pending_exit == old(state).pending_exit,
        old(state).pending_entry is Some || old(state).pending_exit is Some ==> *final(state)
            == *old(state) && r is None,
        old(state).pending_entry is None && old(state).pending_exit is None ==> {
            match (base, quote) {
                (None, None) => {
                    &&& final(state).position is None
                    &&& final(state).position_guard == false
                    &&& r is None
                },
                (Some(b), Some(q)) => {
                    if b.sign * q.sign >= 0 {
                        &&& final(state).position is None
                        &&& final(state).position_guard == true
                        &&& r is None
                    } else {
                        &&& final(state).position == Some(
                            Position {
                                direction: (if b.sign > 0 {
                                    PositionDirection::LongSpread
                                } else {
                                    PositionDirection::ShortSpread
                                }),
                                entered_at: (match old(state).position {
                                    Some(p) => p.entered_at,
                                    None => now,
                                }),
                                entry_price_a: b.entry_price,
                                entry_price_b: q.entry_price,
                                entry_size_a: Some(b.size),
                                entry_size_b: Some(q.size),
                            },
                        )
                        &&& final(state).position_guard == false
                        &&& r is None
                    }
                },
                (Some(b), None) => {
                    &&& r == Some(LoneLeg { symbol: b.symbol, sign: b.sign, size: b.size })
                    &&& final(state).position_guard == (old(state).position is Some)
                    &&& final(state).position == old(state).position
                },
                (None, Some(q)) => {
                    &&& r == Some(LoneLeg { symbol: q.symbol, sign: q.sign, size: q.size })
                    &&& final(state).position_guard == (old(state).position is Some)
                    &&& final(state).position == old(state).position
                },
            }
        },
        final(state).position is Some && !final(state).position_guard ==> {
            &&& base matches Some(b)
            &&& quote matches Some(q)
            &&& b.sign * q.sign < 0
        } || (old(state).pending_entry is Some || old(state).pending_exit is Some),
{
    if state.pending_entry.is_some() || state.pending_exit.is_some() {
        return None;
    }
    match (base, quote) {
        (None, None) => {
            state.position = None;
            state.position_guard = false;
            None
        },
        (Some(b), Some(q)) => {
            proof {
                assert(-5_000_000_000_000_000_000int <= (b.sign as int) * (q.sign as int)
                    <= 5_000_000_000_000_000_000int) by (nonlinear_arith)
                    requires
                        -2_147_483_648 <= b.sign as int <= 2_147_483_647,
                        -2_147_483_648 <= q.sign as int <= 2_147_483_647,
                ;
            }
            let sign_product: i64 = b.sign as i64 * q.sign as i64;
            if sign_product >= 0 {
                state.position = None;
                state.position_guard = true;
                None
            } else {
                let direction: PositionDirection = if b.sign > 0 {
                    PositionDirection::LongSpread
                } else {
                    PositionDirection::ShortSpread
                };
                let entered_at: u64 = match &state.position {
                    Some(p) => p.entered_at,
                    None => now,
                };
                state.position = Some(
                    Position {
                        direction,
                        entered_at,
                        entry_price_a: b.entry_price,
                        entry_price_b: q.entry_price,
                        entry_size_a: Some(b.size),
                        entry_size_b: Some(q.size),
                    },
                );
                state.position_guard = false;
                None
            }
        },
        (Some(b), None) => {
            state.position_guard = state.position.is_some();
            Some(LoneLeg { symbol: b.symbol.clone(), sign: b.sign, size: b.size })
        },
        (None, Some(q)) => {
            state.position_guard = state.position.is_some();
            Some(LoneLeg { symbol: q.symbol.clone(), sign: q.sign, size: q.size })
        },
    }
}

/// What to do with a pending entry batch this tick.
#[derive(Clone, Copy, Debug, PartialEq, Eq, Structural)]
pub enum EntryReconcileAction {
    /// Every leg reached its target: promote the batch to a position.
    Promote,
    /// Some legs filled partially: cancel the rest and reissue the
    /// residuals, as market orders once the retry budget is spent.
    Reissue { use_market: bool, next_retry: u32 },
    /// Nothing filled and the batch timed out: cancel and hedge any
    /// late fills.
    TimeoutSweep,
    /// Keep waiting.
    Wait,
}

/// Decides what to do with a pending entry batch: promotion when all
/// legs are at target, a reissue pass on any partial fill, a timeout
/// sweep once the batch is older than the order timeout, else waiting.
pub fn decide_entry_reconcile(
    cfg: &PairTradeConfig,
    pending: &PendingOrders,
    fills: &Vec<(String, u64)>,
    now: u64,
) -> (r: EntryReconcileAction)
    requires
        cfg.wf(),
        pending.placed_at <= now,
    ensures
        r == EntryReconcileAction::Promote <==> forall|i: int|
            0 <= i < pending.legs@.len() ==> spec_filled_for_leg(&pending.legs@[i], fills@)
                >= pending.legs@[i].target,
        r != EntryReconcileAction::Promote ==> {
            let partial = exists|i: int|
                0 <= i < pending.legs@.len() && spec_filled_for_leg(&pending.legs@[i], fills@) > 0;
            if partial {
                r == (EntryReconcileAction::Reissue {
                    use_market: cfg.entry_partial_fill_max_retries > 0 && pending.hedge_retry_count
                        + 1 > cfg.entry_partial_fill_max_retries,
                    next_retry: (if pending.hedge_retry_count == u32::MAX {
                        u32::MAX
                    } else {
                        (pending.hedge_retry_count + 1) as u32
                    }),
                })
            } else if now - pending.placed_at >= cfg.order_timeout_secs {
                r == EntryReconcileAction::TimeoutSweep
            } else {
                r == EntryReconcileAction::Wait
            }
        },
{
    if all_filled(pending, fills) {
        return EntryReconcileAction::Promote;
    }
    if any_fills(pending, fills) {
        let next_retry: u32 = if pending.hedge_retry_count == u32::MAX {
            u32::MAX
        } else {
            pending.hedge_retry_count + 1
        };
        let max_retries: u32 = cfg.entry_partial_fill_max_retries;
        let use_market: bool = max_retries > 0 && pending.hedge_retry_count < u32::MAX
            && pending.hedge_retry_count + 1 > max_retries;
        proof {
            if pending.hedge_retry_count == u32::MAX {
                assert(pending.hedge_retry_count + 1 > cfg.entry_partial_fill_max_retries);
            }
        }
        let use_market_full: bool = if pending.hedge_retry_count == u32::MAX {
            max_retries > 0
        } else {
            use_market
        };
        return EntryReconcileAction::Reissue { use_market: use_market_full, next_retry };
    }
    if now - pending.placed_at >= cfg.order_timeout_secs {
        return EntryReconcileAction::TimeoutSweep;
    }
    EntryReconcileAction::Wait
}

/// What to do with a pending exit batch this tick.
#[derive(Clone, Copy, Debug, PartialEq, Eq, Structural)]
pub enum ExitReconcileAction {
    /// Every leg reached its target and nothing rests open: the exit
    /// is complete.
    Complete,
    /// The retry budget is spent: close every venue position outright.
    ForceCloseAll,
    /// Some legs filled partially: cancel the rest and reissue the
    /// residuals as reduce-only market orders.
    ReissueMarket { next_retry: u32 },
    /// The batch timed out or nothing rests open: retry the missing
    /// legs as reduce-only market orders.
    TimeoutRetry { next_retry: u32 },
    /// Keep waiting.
    Wait,
}

/// Decides what to do with a pending exit batch: like the entry
/// decision, but with the exits' retry budget and the venue's count of
/// still-open orders.
pub fn decide_exit_reconcile(
    cfg: &PairTradeConfig,
    pending: &PendingOrders,
    fills: &Vec<(String, u64)>,
    open_remaining: usize,
    now: u64,
) -> (r: ExitReconcileAction)
    requires
        cfg.wf(),
        pending.placed_at <= now,
    ensures
        ({
            let filled_all = forall|i: int|
                0 <= i < pending.legs@.len() ==> spec_filled_for_leg(&pending.legs@[i], fills@)
                    >= pending.legs@[i].target;
            let partial = exists|i: int|
                0 <= i < pending.legs@.len() && spec_filled_for_leg(&pending.legs@[i], fills@) > 0;
            let next = if pending.hedge_retry_count == u32::MAX {
                u32::MAX as int
            } else {
                pending.hedge_retry_count + 1
            };
            if open_remaining == 0 && filled_all {
                r == ExitReconcileAction::Complete
            } else if partial {
                if next > MAX_EXIT_RETRIES {
                    r == ExitReconcileAction::ForceCloseAll
                } else {
                    r == (ExitReconcileAction::ReissueMarket { next_retry: next as u32 })
                }
            } else if now - pending.placed_at >= cfg.order_timeout_secs || open_remaining == 0 {
                if next > MAX_EXIT_RETRIES {
                    r == ExitReconcileAction::ForceCloseAll
                } else {
                    r == (ExitReconcileAction::TimeoutRetry { next_retry: next as u32 })
                }
            } else {
                r == ExitReconcileAction::Wait
            }
        }),
{
    let filled_all: bool = all_filled(pending, fills);
    if open_remaining == 0 && filled_all {
        return ExitReconcileAction::Complete;
    }
    let next_retry: u32 = if pending.hedge_retry_count == u32::MAX {
        u32::MAX
    } else {
        pending.hedge_retry_count + 1
    };
    if any_fills(pending, fills) {
        if next_retry > MAX_EXIT_RETRIES {
            return ExitReconcileAction::ForceCloseAll;
        }
        return ExitReconcileAction::ReissueMarket { next_retry };
    }
    if now - pending.placed_at >= cfg.order_timeout_secs || open_remaining == 0 {
        if next_retry > MAX_EXIT_RETRIES {
            return ExitReconcileAction::ForceCloseAll;
        }
        return ExitReconcileAction::TimeoutRetry { next_retry };
    }
    ExitReconcileAction::Wait
}

/// The reduce-only hedge commands for a timed-out entry batch, aligned
/// with its legs: a leg with a positive fill and a usable snapshot is
/// hedged on the opposite side for exactly its filled size, as a
/// market order once the hedge retry budget is spent, else at the
/// hedge side's limit price. The flag reports a filled leg that could
/// not be hedged for want of a price.
pub fn plan_timeout_hedges(
    cfg: &PairTradeConfig,
    pending: &PendingOrders,
    fills: &Vec<(String, u64)>,
    prices: &Vec<(String, SymbolSnapshot)>,
) -> (r: (Vec<Option<OrderCommand>>, bool))
    requires
        cfg.wf(),
        forall|i: int|
            0 <= i < prices@.len() ==> (#[trigger] prices@[i].1).wf(),
    ensures
        r.0@.len() == pending.legs@.len(),
        forall|i: int|
            0 <= i < pending.legs@.len() ==> {
                let leg = pending.legs@[i];
                let filled = spec_filled_for_leg(&leg, fills@);
                let use_market = pending.hedge_retry_count + 1 >= MAX_HEDGE_RETRIES;
                match #[trigger] r.0@[i] {
                    Some(cmd) => {
                        &&& filled > 0
                        &&& spec_snapshot_lookup(prices@, leg.symbol@) is Some
                        &&& cmd.symbol@ == leg.symbol@
                        &&& cmd.size == filled
                        &&& (cmd.side == OrderSide::Long <==> leg.side == OrderSide::Short)
                        &&& cmd.reduce_only == true
                        &&& cmd.post_only == false
                        &&& cmd.limit_price == (if use_market {
                            None
                        } else {
                            Some(
                                spec_limit_price(
                                    cfg,
                                    (if leg.side == OrderSide::Long {
                                        OrderSide::Short
                                    } else {
                                        OrderSide::Long
                                    }),
                                    &spec_snapshot_lookup(prices@, leg.symbol@)->0,
                                ) as u64,
                            )
                        })
                    },
                    None => filled <= 0 || spec_snapshot_lookup(prices@, leg.symbol@) is None,
                }
            },
        r.1 == exists|i: int|
            0 <= i < pending.legs@.len() && spec_filled_for_leg(&pending.legs@[i], fills@) > 0
                && spec_snapshot_lookup(prices@, (#[trigger] pending.legs@[i]).symbol@) is None,
{
    let mut out: Vec<Option<OrderCommand>> = Vec::new();
    let mut hedge_failed: bool = false;
    let use_market: bool = pending.hedge_retry_count >= MAX_HEDGE_RETRIES
        || MAX_HEDGE_RETRIES - pending.hedge_retry_count <= 1;
    proof {
        assert(use_market == (pending.hedge_retry_count + 1 >= MAX_HEDGE_RETRIES));
    }
    let mut i: usize = 0;
    let n: usize = pending.legs.len();
    while i < n
        invariant
            0 <= i <= n,
            n == pending.legs@.len(),
            use_market == (pending.hedge_retry_count + 1 >= MAX_HEDGE_RETRIES),
            cfg.wf(),
            forall|k: int|
                0 <= k < prices@.len() ==> (#[trigger] prices@[k].1).wf(),
            out@.len() == i,
            forall|k: int|
                0 <= k < i ==> {
                    let leg = pending.legs@[k];
                    let filled = spec_filled_for_leg(&leg, fills@);
                    match #[trigger] out@[k] {
                        Some(cmd) => {
                            &&& filled > 0
                            &&& spec_snapshot_lookup(prices@, leg.symbol@) is Some
                            &&& cmd.symbol@ == leg.symbol@
                            &&& cmd.size == filled
                            &&& (cmd.side == OrderSide::Long <==> leg.side == OrderSide::Short)
                            &&& cmd.reduce_only == true
                            &&& cmd.post_only == false
                            &&& cmd.limit_price == (if use_market {
                                None
                            } else {
                                Some(
                                    spec_limit_price(
                                        cfg,
                                        (if leg.side == OrderSide::Long {
                                            OrderSide::Short
                                        } else {
                                            OrderSide::Long
                                        }),
                                        &spec_snapshot_lookup(prices@, leg.symbol@)->0,
                                    ) as u64,
                                )
                            })
                        },
                        None => filled <= 0 || spec_snapshot_lookup(prices@, leg.symbol@) is None,
                    }
                },
            hedge_failed == exists|k: int|
                0 <= k < i && spec_filled_for_leg(&pending.legs@[k], fills@) > 0
                    && spec_snapshot_lookup(prices@, (#[trigger] pending.legs@[k]).symbol@) is None,
        decreases n - i,
    {
        let leg: &PendingLeg = &pending.legs[i];
        let filled: u64 = crate::orders::filled_for_leg(leg, fills);
        if filled > 0 {
            match snapshot_lookup(prices, &leg.symbol) {
                Some(snap) => {
                    proof {
                        lemma_snapshot_lookup_element(prices@, leg.symbol@);
                        assert(snap.wf());
                    }
                    let hedge_side: OrderSide = opposite_side(leg.side);
                    let limit: Option<u64> = if use_market {
                        None
                    } else {
                        Some(limit_price_for(cfg, hedge_side, snap))
                    };
                    out.push(
                        Some(
                            OrderCommand {
                                symbol: leg.symbol.clone(),
                                size: filled,
                                side: hedge_side,
                                limit_price: limit,
                                post_only: false,
                                reduce_only: true,
                            },
                        ),
                    );
                },
                None => {
                    out.push(None);
                    hedge_failed = true;
                },
            }
        } else {
            out.push(None);
        }
        i = i + 1;
    }
    (out, hedge_failed)
}


/// A lone venue leg is closed no sooner than this many seconds after
/// the pair's last exit.
pub const LONE_LEG_COOLDOWN_SECS: u64 = 30;

/// The reduce-only market order that closes a lone venue leg: the
/// opposite side of the reported sign, sized to the reported size
/// quantized to the venue precision. Nothing is placed inside the
/// cooldown after the pair's last exit, or when the size quantizes
/// away.
pub fn plan_lone_leg_close(
    lone: &LoneLeg,
    last_exit_at: Option<u64>,
    prices: &Vec<(String, SymbolSnapshot)>,
    now: u64,
) -> (r: Option<OrderCommand>)
    requires
        lone.size <= crate::fixed::MAX_AMOUNT,
        now <= 4_000_000_000_000,
        last_exit_at matches Some(t) ==> t <= 4_000_000_000_000,
        forall|i: int| 0 <= i < prices@.len() ==> (#[trigger] prices@[i].1).wf(),
    ensures
        ({
            let in_cooldown = match last_exit_at {
                Some(t) => now < t + LONE_LEG_COOLDOWN_SECS,
                None => false,
            };
            let qty = match spec_snapshot_lookup(prices@, lone.symbol@) {
                Some(snap) => crate::orders::spec_quantize_order_size_close(
                    &snap,
                    lone.size as int,
                ),
                None => lone.size as int,
            };
            if in_cooldown || qty <= 0 {
                r is None
            } else {
                r matches Some(c) && {
                    &&& c.symbol@ == lone.symbol@
                    &&& c.size == qty
                    &&& (c.side == OrderSide::Short <==> lone.sign >= 0)
                    &&& c.limit_price is None
                    &&& c.post_only == false
                    &&& c.reduce_only == true
                }
            }
        }),
{
    if let Some(t) = last_exit_at {
        if now < t + LONE_LEG_COOLDOWN_SECS {
            return None;
        }
    }
    let qty: u64 = match snapshot_lookup(prices, &lone.symbol) {
        Some(snap) => {
            proof {
                lemma_snapshot_lookup_element(prices@, lone.symbol@);
                assert(snap.wf());
            }
            crate::orders::quantize_order_size_close(snap, lone.size)
        },
        None => lone.size,
    };
    if qty == 0 {
        return None;
    }
    let side: OrderSide = if lone.sign >= 0 {
        OrderSide::Short
    } else {
        OrderSide::Long
    };
    Some(
        OrderCommand {
            symbol: lone.symbol.clone(),
            size: qty,
            side,
            limit_price: None,
            post_only: false,
            reduce_only: true,
        },
    )
}

} // verus!
