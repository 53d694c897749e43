//! Engine configuration: the tuning knobs the decision and execution
//! logic consumes, with the bounds the verified arithmetic relies on.
//!
//! Statistical thresholds are micro-unit fixed-point integers (a
//! z-score of 2.0 is 2_000_000), monetary amounts are atom counts (see
//! `fixed`), and fees are micro-bps. The host program loads its own
//! configuration sources and fills this structure.

use vstd::prelude::*;
use vstd::string::StringExecFns;

use crate::text::{clean_pieces, sanitize_symbol_for_filename, spec_clean_pieces,
    spec_sanitize_char, spec_split, spec_trim, split_char, trim_str};
use vstd::string::StrSliceExecFns;

verus! {

/// One traded pair of venue symbols; the base leg is quoted against
/// the quote leg.
#[derive(Clone, Debug)]
pub struct PairSpec {
    pub base: String,
    pub quote: String,
}

/// How the evaluator treats a partially filled history at startup.
#[derive(Clone, Copy, Debug, PartialEq, Eq, Structural)]
pub enum WarmStartMode {
    /// Require the full long lookback before evaluating.
    Strict,
    /// Evaluate once a configured minimum of bars is available.
    Relaxed,
}

/// Connection settings for a venue driven through its signed-order
/// gateway. The host decrypts and fills the key material.
#[derive(Clone, Debug)]
pub struct LighterConfig {
    pub api_key: String,
    pub private_key: String,
    pub evm_wallet_private_key: Option<String>,
    pub api_key_index: u32,
    pub account_index: u64,
    pub base_url: String,
    pub websocket_url: String,
}

/// Connection settings for a venue driven through an EVM wallet.
#[derive(Clone, Debug)]
pub struct HyperliquidConfig {
    pub private_key: String,
    pub evm_wallet_address: String,
    pub vault_address: Option<String>,
}

/// Connection settings for a venue driven through a vault account.
#[derive(Clone, Debug)]
pub struct ExtendedConfig {
    pub api_key: String,
    pub public_key: String,
    pub private_key: String,
    pub vault: u64,
    pub base_url: Option<String>,
    pub websocket_url: Option<String>,
}

/// The run mode of the host process.
#[derive(Clone, Copy, Debug, PartialEq, Eq, Structural)]
pub enum RunMode {
    Dry,
    RealTrade,
    RealTradeTest,
}

/// The tuning knobs of the pair-trade engine.
#[derive(Clone, Debug)]
pub struct PairTradeConfig {
    /// Control-loop period, seconds.
    pub interval_secs: u64,
    /// Bar width, seconds.
    pub trading_period_secs: u64,
    /// Length of the rolling spread window.
    pub metrics_window: usize,
    /// Base entry threshold, micro z-units.
    pub entry_z_base: i64,
    /// Lower clamp of the dynamic entry threshold, micro z-units.
    pub entry_z_min: i64,
    /// Upper clamp of the dynamic entry threshold, micro z-units.
    pub entry_z_max: i64,
    /// Mean-reversion exit threshold, micro z-units; zero disables it.
    pub exit_z: i64,
    /// Stop-loss threshold, micro z-units.
    pub stop_loss_z: i64,
    /// Maximum holding time, seconds.
    pub force_close_secs: u64,
    /// Re-entry cooldown after an exit, seconds.
    pub cooldown_secs: u64,
    /// Minimum acceptable net funding, micro-units per hour.
    pub net_funding_min_per_hour: i64,
    /// Velocity ceiling, micro standard deviations per minute.
    pub spread_velocity_max_sigma_per_min: i64,
    /// Risk budget per trade as a fraction of equity, micro-units.
    pub risk_pct_per_trade: i64,
    /// Loss multiple of the risk budget that forces an exit,
    /// micro-units.
    pub max_loss_r_mult: i64,
    /// Fallback equity when the venue reports none, atoms.
    pub equity_usd: u64,
    /// The traded universe.
    pub universe: Vec<PairSpec>,
    pub lookback_hours_short: u64,
    pub lookback_hours_long: u64,
    /// Eligibility ceiling on the half-life, micro-hours.
    pub half_life_max_hours: i64,
    /// Eligibility ceiling on the Dickey-Fuller p-value, micro-units.
    pub adf_p_threshold: i64,
    /// Lookback of the entry volatility window, hours.
    pub entry_vol_lookback_hours: u64,
    /// Slippage in whole basis points; negative means passive.
    pub slippage_bps: i64,
    /// Taker fee in micro basis points.
    pub fee_bps: i64,
    /// Leverage applied to the risk budget, micro-units.
    pub max_leverage: i64,
    /// Re-evaluation trigger multiple, micro-units.
    pub reeval_jump_z_mult: i64,
    /// Volatility-spike re-evaluation multiple, micro-units.
    pub vol_spike_mult: i64,
    /// Cap on simultaneously active pairs.
    pub max_active_pairs: usize,
    pub warm_start_mode: WarmStartMode,
    /// Minimum bars before a relaxed evaluation.
    pub warm_start_min_bars: usize,
    /// Age after which pending orders are reconciled as stale,
    /// seconds.
    pub order_timeout_secs: u64,
    /// Limit reissues of a partially filled entry before going to
    /// market.
    pub entry_partial_fill_max_retries: u32,
    pub startup_force_close_attempts: u32,
    pub startup_force_close_wait_secs: u64,
    pub force_close_on_startup: bool,
    /// The venue accepts post-only orders.
    pub post_only_supported: bool,
    /// Round prices to one whole unit when the venue reports no tick.
    pub min_tick_fallback_one: bool,
    pub dry_run: bool,
    pub observe_only: bool,
}

impl PairTradeConfig {
    /// The bounds the verified arithmetic relies on: positive periods
    /// and windows, and thresholds within the fixed-point ranges.
    pub open spec fn wf(&self) -> bool {
        &&& 1 <= self.trading_period_secs <= 1_000_000
        &&& 1 <= self.metrics_window <= crate::stats::MAX_SAMPLES
        &&& 0 <= self.entry_z_min <= self.entry_z_max <= 1_000_000_000_000
        &&& 0 <= self.entry_z_base <= 1_000_000_000_000
        &&& 0 <= self.exit_z <= 1_000_000_000_000
        &&& 0 <= self.stop_loss_z <= 1_000_000_000_000
        &&& 1 <= self.force_close_secs <= 1_000_000_000
        &&& self.cooldown_secs <= 1_000_000_000
        &&& -1_000_000_000 <= self.net_funding_min_per_hour <= 1_000_000_000
        &&& 0 <= self.spread_velocity_max_sigma_per_min <= 1_000_000_000_000
        &&& 0 <= self.risk_pct_per_trade <= 1_000_000
        &&& 0 <= self.max_loss_r_mult <= 1_000_000_000
        &&& self.equity_usd <= crate::fixed::MAX_AMOUNT
        &&& 1 <= self.lookback_hours_short <= 1_000
        &&& 1 <= self.lookback_hours_long <= 1_000
        &&& 0 <= self.half_life_max_hours <= 1_000_000_000_000
        &&& 0 <= self.adf_p_threshold <= 1_000_000
        &&& 1 <= self.entry_vol_lookback_hours <= 1_000
        &&& -10_000 <= self.slippage_bps <= 10_000
        &&& 0 <= self.fee_bps <= 1_000_000_000_000
        &&& 0 <= self.max_leverage <= 1_000_000_000
        &&& 0 <= self.reeval_jump_z_mult <= 1_000_000_000
        &&& 0 <= self.vol_spike_mult <= 1_000_000_000
        &&& 1 <= self.warm_start_min_bars <= crate::stats::MAX_SAMPLES
        &&& 1 <= self.order_timeout_secs <= 1_000_000_000
    }

    /// The cost of a round trip over both legs, in micro basis
    /// points: two leg fees plus two slippages, the slippage counted
    /// by its magnitude whichever side it moves the price.
    pub open spec fn spec_round_trip_cost_micro_bps(&self) -> int {
        2 * self.fee_bps + 2 * (if self.slippage_bps >= 0 {
            self.slippage_bps as int
        } else {
            -self.slippage_bps as int
        }) * 1_000_000
    }

    /// Post-only placement is used when the venue supports it and a
    /// positive taker fee makes it worthwhile.
    pub open spec fn spec_should_post_only(&self) -> bool {
        self.post_only_supported && self.fee_bps > 0
    }

    /// Whether orders are placed post-only.
    pub fn should_post_only(&self) -> (r: bool)
        ensures
            r == self.spec_should_post_only(),
    {
        self.post_only_supported && self.fee_bps > 0
    }

    /// Bars per long lookback window, at least one.
    pub fn desired_long_bars(&self) -> (r: usize)
        requires
            self.wf(),
        ensures
            r == spec_lookback_bars(
                self.lookback_hours_long as int,
                self.trading_period_secs as int,
            ),
            1 <= r <= 1_000_000,
    {
        let bars: u64 = (self.lookback_hours_long * 3600) / self.trading_period_secs;
        if bars < 1 {
            1
        } else if bars > 1_000_000 {
            1_000_000
        } else {
            bars as usize
        }
    }

    /// Bars per short lookback window, at least one.
    pub fn desired_short_bars(&self) -> (r: usize)
        requires
            self.wf(),
        ensures
            r == spec_lookback_bars(
                self.lookback_hours_short as int,
                self.trading_period_secs as int,
            ),
            1 <= r <= 1_000_000,
    {
        let bars: u64 = (self.lookback_hours_short * 3600) / self.trading_period_secs;
        if bars < 1 {
            1
        } else if bars > 1_000_000 {
            1_000_000
        } else {
            bars as usize
        }
    }

    /// Bars in the entry volatility window, at least one.
    pub fn entry_vol_window(&self) -> (r: usize)
        requires
            self.wf(),
        ensures
            r == spec_lookback_bars(
                self.entry_vol_lookback_hours as int,
                self.trading_period_secs as int,
            ),
            1 <= r <= 1_000_000,
    {
        let bars: u64 = (self.entry_vol_lookback_hours * 3600) / self.trading_period_secs;
        if bars < 1 {
            1
        } else if bars > 1_000_000 {
            1_000_000
        } else {
            bars as usize
        }
    }

    /// Bound on the price history kept per symbol: the longer lookback
    /// in bars, but no less than the metrics window.
    pub fn max_history_len(&self) -> (r: usize)
        requires
            self.wf(),
        ensures
            r == spec_max_history_len(self),
            1 <= r <= 1_000_000,
    {
        let max_hrs: u64 = if self.lookback_hours_long >= self.lookback_hours_short {
            self.lookback_hours_long
        } else {
            self.lookback_hours_short
        };
        let needed: u64 = (max_hrs * 3600) / self.trading_period_secs;
        let needed_us: usize = needed as usize;
        let base: usize = if needed_us >= self.metrics_window {
            needed_us
        } else {
            self.metrics_window
        };
        if base < 1 {
            1
        } else if base > 1_000_000 {
            1_000_000
        } else {
            base
        }
    }
}

/// Whole bars in a lookback of `hours`, at least one and at most the
/// kernel's sample bound.
pub open spec fn spec_lookback_bars(hours: int, period_secs: int) -> int {
    let bars = (hours * 3600) / period_secs;
    if bars < 1 {
        1
    } else if bars > crate::stats::MAX_SAMPLES as int {
        crate::stats::MAX_SAMPLES as int
    } else {
        bars
    }
}

/// The history bound: the longer lookback in bars, no less than the
/// metrics window, clamped to the kernel's sample bound.
///
pub open spec fn spec_max_history_len(cfg: &PairTradeConfig) -> int {
    let max_hrs = if cfg.lookback_hours_long >= cfg.lookback_hours_short {
        cfg.lookback_hours_long as int
    } else {
        cfg.lookback_hours_short as int
    };
    let needed = (max_hrs * 3600) / (cfg.trading_period_secs as int);
    let base = if needed >= cfg.metrics_window as int {
        needed
    } else {
        cfg.metrics_window as int
    };
    if base < 1 {
        1
    } else if base > 1_000_000 {
        1_000_000
    } else {
        base
    }
}

impl Default for PairTradeConfig {
    /// The stock configuration: one-minute bars, a 240-bar metrics
    /// window, entry band 1.8 to 2.3 with base 2.0, exit at 0.5,
    /// stop at 3.3, an hour force-close, 1% risk at 5x leverage and a
    /// 10000-unit fallback equity.
    fn default() -> (r: PairTradeConfig)
        ensures
            r.wf(),
            r.universe@.len() == 0,
            r.dry_run == false,
            r.observe_only == false,
    {
        PairTradeConfig {
            interval_secs: 20,
            trading_period_secs: 60,
            metrics_window: 240,
            entry_z_base: 2_000_000,
            entry_z_min: 1_800_000,
            entry_z_max: 2_300_000,
            exit_z: 500_000,
            stop_loss_z: 3_300_000,
            force_close_secs: 3600,
            cooldown_secs: 30,
            net_funding_min_per_hour: -5_000,
            spread_velocity_max_sigma_per_min: 100_000,
            risk_pct_per_trade: 10_000,
            max_loss_r_mult: 1_000_000,
            equity_usd: 10_000_000_000_000,
            universe: Vec::new(),
            lookback_hours_short: 4,
            lookback_hours_long: 24,
            half_life_max_hours: 1_500_000,
            adf_p_threshold: 50_000,
            entry_vol_lookback_hours: 24,
            slippage_bps: 0,
            fee_bps: 0,
            max_leverage: 5_000_000,
            reeval_jump_z_mult: 1_500_000,
            vol_spike_mult: 2_500_000,
            max_active_pairs: 3,
            warm_start_mode: WarmStartMode::Strict,
            warm_start_min_bars: 60,
            order_timeout_secs: 120,
            entry_partial_fill_max_retries: 3,
            startup_force_close_attempts: 3,
            startup_force_close_wait_secs: 3,
            force_close_on_startup: true,
            post_only_supported: false,
            min_tick_fallback_one: false,
            dry_run: false,
            observe_only: false,
        }
    }
}


/// Why a universe description was rejected.
#[derive(Clone, Copy, Debug, PartialEq, Eq, Structural)]
pub enum ParseError {
    /// A pair entry lacks the separator between its legs.
    InvalidPair,
    /// The description yields no pair at all.
    EmptyUniverse,
}

/// A universe given either as one comma-separated string or as a list
/// of entries.
#[derive(Clone, Debug)]
pub enum StringOrVec {
    Single(String),
    Many(Vec<String>),
}

impl StringOrVec {
    /// The cleaned entries: a single string is split on commas, and
    /// every entry is trimmed with empties dropped.
    pub fn into_vec(self) -> (r: Vec<String>)
        ensures
            r.deep_view() == (match self {
                StringOrVec::Single(value) => spec_clean_pieces(spec_split(value@, ',')),
                StringOrVec::Many(values) => spec_clean_pieces(values.deep_view()),
            }),
    {
        match self {
            StringOrVec::Single(value) => {
                let pieces: Vec<String> = split_char(value.as_str(), ',');
                clean_pieces(&pieces)
            },
            StringOrVec::Many(values) => clean_pieces(&values),
        }
    }
}

/// One comma-separated entry parsed as a pair: the leg before the
/// first slash and the leg between the first and second slash; no
/// slash is a malformed entry.
pub open spec fn spec_parse_piece(p: Seq<char>) -> Option<(Seq<char>, Seq<char>)> {
    let segs = spec_split(p, '/');
    if segs.len() < 2 {
        None
    } else {
        Some((segs[0], segs[1]))
    }
}

/// The pairs of a piece list: pieces are trimmed, empty pieces are
/// skipped, and one malformed piece rejects the whole list.
pub open spec fn spec_pairs_of(pieces: Seq<Seq<char>>) -> Option<Seq<(Seq<char>, Seq<char>)>>
    decreases pieces.len(),
{
    if pieces.len() == 0 {
        Some(Seq::empty())
    } else {
        let t = spec_trim(pieces[0]);
        let rest = spec_pairs_of(pieces.drop_first());
        if t.len() == 0 {
            rest
        } else {
            match (spec_parse_piece(t), rest) {
                (Some(pr), Some(rs)) => Some(seq![pr] + rs),
                _ => None,
            }
        }
    }
}

/// The pairs described by a comma-separated universe string.
pub open spec fn spec_parse_pairs(s: Seq<char>) -> Option<Seq<(Seq<char>, Seq<char>)>> {
    spec_pairs_of(spec_split(s, ','))
}

/// Parses a comma-separated list of slash-separated pairs. A piece
/// without a slash is rejected as malformed; a list with no piece left
/// after trimming is rejected as empty.
pub fn parse_pairs_list(raw: &str) -> (r: Result<Vec<PairSpec>, ParseError>)
    ensures
        spec_parse_pairs(raw@) is None ==> r == Err::<Vec<PairSpec>, ParseError>(
            ParseError::InvalidPair,
        ),
        spec_parse_pairs(raw@) matches Some(ps) ==> {
            if ps.len() == 0 {
                r == Err::<Vec<PairSpec>, ParseError>(ParseError::EmptyUniverse)
            } else {
                &&& r is Ok
                &&& r->Ok_0@.len() == ps.len()
                &&& forall|i: int|
                    0 <= i < ps.len() ==> (#[trigger] r->Ok_0@[i]).base@ == ps[i].0
                        && r->Ok_0@[i].quote@ == ps[i].1
            }
        },
{
    let pieces: Vec<String> = split_char(raw, ',');
    let ghost pdv = pieces.deep_view();
    let mut out: Vec<PairSpec> = Vec::new();
    let ghost mut ov: Seq<(Seq<char>, Seq<char>)> = Seq::empty();
    let mut i: usize = 0;
    let n: usize = pieces.len();
    proof {
        assert(pdv.subrange(0, n as int) =~~= pdv);
        assert(Seq::empty().add(pdv) =~~= pdv);
    }
    while i < n
        invariant
            0 <= i <= n,
            n == pieces@.len(),
            pdv == pieces.deep_view(),
            pdv == spec_split(raw@, ','),
            out@.len() == ov.len(),
            forall|k: int|
                0 <= k < ov.len() ==> (#[trigger] out@[k]).base@ == ov[k].0 && out@[k].quote@
                    == ov[k].1,
            spec_pairs_of(pdv) == (match spec_pairs_of(pdv.subrange(i as int, n as int)) {
                Some(ts) => Some(ov + ts),
                None => None::<Seq<(Seq<char>, Seq<char>)>>,
            }),
        decreases n - i,
    {
        proof {
            assert(pdv.subrange(i as int, n as int)[0] == pdv[i as int]);
            assert(pdv.subrange(i as int, n as int).drop_first() =~~= pdv.subrange(i + 1, n as int));
            assert(pdv[i as int] == pieces@[i as int]@);
        }
        let t: String = trim_str(pieces[i].as_str());
        if !t.as_str().is_empty() {
            let segs: Vec<String> = split_char(t.as_str(), '/');
            proof {
                assert(segs.deep_view().len() >= 2 ==> segs.deep_view()[0] == segs@[0]@
                    && segs.deep_view()[1] == segs@[1]@);
            }
            if segs.len() < 2 {
                proof {
                    assert(t@ == spec_trim(pdv[i as int]));
                    assert(segs.deep_view() == spec_split(t@, '/'));
                    assert(segs.deep_view().len() == segs@.len());
                    assert(spec_parse_piece(spec_trim(pdv[i as int])) is None);
                    assert(spec_trim(pdv[i as int]).len() != 0);
                    assert(spec_pairs_of(pdv.subrange(i as int, n as int)) is None);
                    assert(spec_pairs_of(pdv) is None);
                    assert(pdv == spec_split(raw@, ','));
                    assert(spec_parse_pairs(raw@) is None);
                }
                return Err(ParseError::InvalidPair);
            }
            let base: String = segs[0].clone();
            let quote: String = segs[1].clone();
            proof {
                let pr = spec_parse_piece(spec_trim(pdv[i as int]))->0;
                assert(base@ == pr.0 && quote@ == pr.1);
            }
            out.push(PairSpec { base, quote });
            proof {
                let pr = spec_parse_piece(spec_trim(pdv[i as int]))->0;
                ov = ov + seq![pr];
                assert forall|ts: Seq<(Seq<char>, Seq<char>)>| true implies (ov + ts =~~= (ov.drop_last()
                    + (seq![pr] + ts))) by {
                    assert(ov.drop_last() =~~= ov.subrange(0, ov.len() - 1));
                }
            }
        }
        i = i + 1;
    }
    proof {
        assert(pdv.subrange(n as int, n as int).len() == 0);
        assert(spec_pairs_of(pdv.subrange(n as int, n as int)) == Some(
            Seq::<(Seq<char>, Seq<char>)>::empty(),
        ));
        assert(ov + Seq::<(Seq<char>, Seq<char>)>::empty() =~~= ov);
    }
    if out.len() == 0 {
        return Err(ParseError::EmptyUniverse);
    }
    Ok(out)
}

/// Joining entries with commas, for re-parsing a list form of the
/// universe.
pub open spec fn spec_join_commas(views: Seq<Seq<char>>) -> Seq<char>
    decreases views.len(),
{
    if views.len() == 0 {
        Seq::empty()
    } else if views.len() == 1 {
        views[0]
    } else {
        views[0] + seq![','] + spec_join_commas(views.drop_first())
    }
}

/// Parses a universe given as a list of pair entries, by joining the
/// entries with commas and parsing the joined list.
pub fn parse_pairs_vec(pairs: &Vec<String>) -> (r: Result<Vec<PairSpec>, ParseError>)
    ensures
        ({
            let joined = spec_join_commas(pairs.deep_view());
            &&& (spec_parse_pairs(joined) is None ==> r == Err::<Vec<PairSpec>, ParseError>(
                ParseError::InvalidPair,
            ))
            &&& (spec_parse_pairs(joined) matches Some(ps) ==> {
                if ps.len() == 0 {
                    r == Err::<Vec<PairSpec>, ParseError>(ParseError::EmptyUniverse)
                } else {
                    &&& r is Ok
                    &&& r->Ok_0@.len() == ps.len()
                    &&& forall|i: int|
                        0 <= i < ps.len() ==> (#[trigger] r->Ok_0@[i]).base@ == ps[i].0
                            && r->Ok_0@[i].quote@ == ps[i].1
                }
            })
        }),
{
    let ghost pdv = pairs.deep_view();
    let mut joined: String = String::new();
    let mut i: usize = 0;
    let n: usize = pairs.len();
    while i < n
        invariant
            0 <= i <= n,
            n == pairs@.len(),
            pdv == pairs.deep_view(),
            joined@ =~= spec_join_prefix(pdv, i as int),
        decreases n - i,
    {
        if i > 0 {
            joined.append(",");
            proof {
                reveal_strlit(",");
            }
        }
        joined.append(pairs[i].as_str());
        proof {
            assert(pdv[i as int] == pairs@[i as int]@);
            assert(joined@ =~= spec_join_prefix(pdv, i + 1));
        }
        i = i + 1;
    }
    proof {
        lemma_join_prefix_full(pdv);
    }
    parse_pairs_list(joined.as_str())
}

/// The first `k` entries joined with commas.
pub open spec fn spec_join_prefix(views: Seq<Seq<char>>, k: int) -> Seq<char>
    decreases k,
{
    if k <= 0 {
        Seq::empty()
    } else if k == 1 {
        views[0]
    } else {
        spec_join_prefix(views, k - 1) + seq![','] + views[k - 1]
    }
}

proof fn lemma_join_prefix_full(views: Seq<Seq<char>>)
    ensures
        spec_join_prefix(views, views.len() as int) =~= spec_join_commas(views),
    decreases views.len(),
{
    if views.len() > 1 {
        lemma_join_prefix_full(views.drop_first());
        lemma_join_shift(views, views.len() as int);
    }
}

proof fn lemma_join_shift(views: Seq<Seq<char>>, k: int)
    requires
        2 <= k <= views.len(),
    ensures
        spec_join_prefix(views, k) =~= views[0] + seq![','] + spec_join_prefix(
            views.drop_first(),
            k - 1,
        ),
    decreases k,
{
    if k == 2 {
        assert(views.drop_first()[0] == views[1]);
        assert(spec_join_prefix(views, 2) =~= spec_join_prefix(views, 1) + seq![','] + views[1]);
        assert(spec_join_prefix(views.drop_first(), 1) =~= views.drop_first()[0]);
    } else {
        lemma_join_shift(views, k - 1);
        assert(views.drop_first()[k - 2] == views[k - 1]);
        assert(spec_join_prefix(views, k) =~= spec_join_prefix(views, k - 1) + seq![','] + views[k
            - 1]);
        assert(spec_join_prefix(views.drop_first(), k - 1) =~= spec_join_prefix(
            views.drop_first(),
            k - 2,
        ) + seq![','] + views.drop_first()[k - 2]);
        assert(spec_join_prefix(views, k - 1) + seq![','] + views[k - 1] =~= views[0] + seq![',']
            + (spec_join_prefix(views.drop_first(), k - 2) + seq![','] + views.drop_first()[k
            - 2]));
    }
}


/// Lexicographic order on character sequences.
pub open spec fn spec_str_lt(a: Seq<char>, b: Seq<char>) -> bool
    decreases a.len(),
{
    if b.len() == 0 {
        false
    } else if a.len() == 0 {
        true
    } else if a[0] != b[0] {
        a[0] < b[0]
    } else {
        spec_str_lt(a.drop_first(), b.drop_first())
    }
}

proof fn lemma_str_lt_skip(a: Seq<char>, b: Seq<char>, i: int)
    requires
        0 <= i <= a.len(),
        i <= b.len(),
        forall|k: int| 0 <= k < i ==> a[k] == b[k],
    ensures
        spec_str_lt(a, b) == spec_str_lt(
            a.subrange(i, a.len() as int),
            b.subrange(i, b.len() as int),
        ),
    decreases i,
{
    if i == 0 {
        assert(a.subrange(0, a.len() as int) =~= a);
        assert(b.subrange(0, b.len() as int) =~= b);
    } else {
        assert(a[0] == b[0]);
        assert(a.len() >= 1 && b.len() >= 1);
        assert(forall|k: int| 0 <= k < i - 1 ==> #[trigger] a.drop_first()[k] == b.drop_first()[k]);
        lemma_str_lt_skip(a.drop_first(), b.drop_first(), i - 1);
        assert(a.drop_first().subrange(i - 1, a.drop_first().len() as int) =~= a.subrange(
            i,
            a.len() as int,
        ));
        assert(b.drop_first().subrange(i - 1, b.drop_first().len() as int) =~= b.subrange(
            i,
            b.len() as int,
        ));
    }
}

/// Lexicographic comparison of two names.
pub fn str_lt(a: &str, b: &str) -> (r: bool)
    ensures
        r == spec_str_lt(a@, b@),
{
    let na: usize = a.unicode_len();
    let nb: usize = b.unicode_len();
    let mut i: usize = 0;
    while i < na && i < nb && a.get_char(i) == b.get_char(i)
        invariant
            0 <= i <= na,
            i <= nb,
            na == a@.len(),
            nb == b@.len(),
            forall|k: int| 0 <= k < i ==> a@[k] == b@[k],
        decreases na - i,
    {
        i = i + 1;
    }
    proof {
        lemma_str_lt_skip(a@, b@, i as int);
    }
    if i == nb {
        false
    } else if i == na {
        true
    } else {
        a.get_char(i) < b.get_char(i)
    }
}

/// The legs of a pair of names in lexicographic order.
pub open spec fn spec_ordered_pair(a: Seq<char>, b: Seq<char>) -> (Seq<char>, Seq<char>) {
    if spec_str_lt(a, b) {
        (a, b)
    } else {
        (b, a)
    }
}

/// The ordered pairs of one name against every later name.
pub open spec fn spec_pairs_with(a: Seq<char>, rest: Seq<Seq<char>>) -> Seq<
    (Seq<char>, Seq<char>),
>
    decreases rest.len(),
{
    if rest.len() == 0 {
        Seq::empty()
    } else {
        seq![spec_ordered_pair(a, rest[0])] + spec_pairs_with(a, rest.drop_first())
    }
}

/// All unordered pairs of a symbol list, each with its legs in
/// lexicographic order, enumerated by the first leg's position.
pub open spec fn spec_all_pairs(syms: Seq<Seq<char>>) -> Seq<(Seq<char>, Seq<char>)>
    decreases syms.len(),
{
    if syms.len() == 0 {
        Seq::empty()
    } else {
        spec_pairs_with(syms[0], syms.drop_first()) + spec_all_pairs(syms.drop_first())
    }
}

/// Parses a universe given as a symbol list: entries are trimmed with
/// empties dropped, and every unordered pair of the remaining symbols
/// is traded, each pair's legs in lexicographic order. Fewer than two
/// symbols yield no pair and are rejected.
pub fn parse_symbols_vec(symbols: &Vec<String>) -> (r: Result<Vec<PairSpec>, ParseError>)
    ensures
        ({
            let fs = spec_clean_pieces(symbols.deep_view());
            let ps = spec_all_pairs(fs);
            if fs.len() == 0 || ps.len() == 0 {
                r == Err::<Vec<PairSpec>, ParseError>(ParseError::EmptyUniverse)
            } else {
                &&& r is Ok
                &&& r->Ok_0@.len() == ps.len()
                &&& forall|i: int|
                    0 <= i < ps.len() ==> (#[trigger] r->Ok_0@[i]).base@ == ps[i].0
                        && r->Ok_0@[i].quote@ == ps[i].1
            }
        }),
{
    let syms: Vec<String> = clean_pieces(symbols);
    let ghost fs = spec_clean_pieces(symbols.deep_view());
    proof {
        assert(syms.deep_view() == fs);
    }
    if syms.len() == 0 {
        return Err(ParseError::EmptyUniverse);
    }
    let n: usize = syms.len();
    let mut out: Vec<PairSpec> = Vec::new();
    let ghost mut ov: Seq<(Seq<char>, Seq<char>)> = Seq::empty();
    let mut i: usize = 0;
    proof {
        assert(fs.subrange(0, n as int) =~~= fs);
        assert(Seq::empty().add(spec_all_pairs(fs)) =~~= spec_all_pairs(fs));
    }
    while i < n
        invariant
            0 <= i <= n,
            n == syms@.len(),
            fs == syms.deep_view(),
            out@.len() == ov.len(),
            forall|k: int|
                0 <= k < ov.len() ==> (#[trigger] out@[k]).base@ == ov[k].0 && out@[k].quote@
                    == ov[k].1,
            spec_all_pairs(fs) =~~= ov + spec_all_pairs(fs.subrange(i as int, n as int)),
        decreases n - i,
    {
        proof {
            assert(fs.subrange(i as int, n as int)[0] == fs[i as int]);
            assert(fs.subrange(i as int, n as int).drop_first() =~~= fs.subrange(i + 1, n as int));
        }
        let ghost row = spec_pairs_with(fs[i as int], fs.subrange(i + 1, n as int));
        let ghost ov_outer = ov;
        let mut j: usize = i + 1;
        while j < n
            invariant
                i < j <= n,
                i < n,
                n == syms@.len(),
                fs == syms.deep_view(),
                out@.len() == ov.len(),
                forall|k: int|
                    0 <= k < ov.len() ==> (#[trigger] out@[k]).base@ == ov[k].0 && out@[k].quote@
                        == ov[k].1,
                row == spec_pairs_with(fs[i as int], fs.subrange(i + 1, n as int)),
                row =~~= (ov.subrange(ov_outer.len() as int, ov.len() as int)) + spec_pairs_with(
                    fs[i as int],
                    fs.subrange(j as int, n as int),
                ),
                ov.subrange(0, ov_outer.len() as int) =~~= ov_outer,
                ov.len() >= ov_outer.len(),
            decreases n - j,
        {
            proof {
                assert(fs.subrange(j as int, n as int)[0] == fs[j as int]);
                assert(fs.subrange(j as int, n as int).drop_first() =~~= fs.subrange(
                    j + 1,
                    n as int,
                ));
                assert(fs[i as int] == syms@[i as int]@);
                assert(fs[j as int] == syms@[j as int]@);
            }
            let a_first: bool = str_lt(syms[i].as_str(), syms[j].as_str());
            let (base, quote): (String, String) = if a_first {
                (syms[i].clone(), syms[j].clone())
            } else {
                (syms[j].clone(), syms[i].clone())
            };
            out.push(PairSpec { base, quote });
            proof {
                let pr = spec_ordered_pair(fs[i as int], fs[j as int]);
                ov = ov + seq![pr];
                assert(ov.subrange(0, ov_outer.len() as int) =~~= ov_outer);
                assert(ov.subrange(ov_outer.len() as int, ov.len() as int) =~~= ov.subrange(
                    ov_outer.len() as int,
                    ov.len() - 1,
                ) + seq![pr]);
                assert(ov.subrange(ov_outer.len() as int, ov.len() - 1) =~~= ov.drop_last()
                    .subrange(ov_outer.len() as int, ov.drop_last().len() as int));
                assert(row =~~= (ov.subrange(ov_outer.len() as int, ov.len() as int))
                    + spec_pairs_with(fs[i as int], fs.subrange(j + 1, n as int)));
            }
            j = j + 1;
        }
        proof {
            assert(spec_pairs_with(fs[i as int], fs.subrange(n as int, n as int)) =~~= Seq::<
                (Seq<char>, Seq<char>),
            >::empty());
            assert(row =~~= ov.subrange(ov_outer.len() as int, ov.len() as int));
            assert(spec_all_pairs(fs.subrange(i as int, n as int)) =~~= row + spec_all_pairs(
                fs.subrange(i + 1, n as int),
            ));
            assert(ov =~~= ov_outer + ov.subrange(ov_outer.len() as int, ov.len() as int));
            assert(spec_all_pairs(fs) =~~= ov + spec_all_pairs(fs.subrange(i + 1, n as int)));
        }
        i = i + 1;
    }
    proof {
        assert(spec_all_pairs(fs.subrange(n as int, n as int)) =~~= Seq::<
            (Seq<char>, Seq<char>),
        >::empty());
        assert(ov + Seq::<(Seq<char>, Seq<char>)>::empty() =~~= ov);
    }
    if out.len() == 0 {
        return Err(ParseError::EmptyUniverse);
    }
    Ok(out)
}


/// Strictly ascending adjacent names: sorted with no duplicates.
pub open spec fn strictly_sorted(s: Seq<Seq<char>>) -> bool {
    forall|i: int| 0 <= i < s.len() - 1 ==> spec_str_lt(#[trigger] s[i], s[i + 1])
}

/// Whether a name occurs in a list.
pub open spec fn seq_has(s: Seq<Seq<char>>, x: Seq<char>) -> bool {
    exists|i: int| 0 <= i < s.len() && s[i] == x
}

/// Whether a name is one of the universe's symbols.
pub open spec fn spec_universe_symbol(universe: Seq<PairSpec>, x: Seq<char>) -> bool {
    exists|i: int|
        0 <= i < universe.len() && ((#[trigger] universe[i]).base@ == x || universe[i].quote@ == x)
}

/// The symbol views of a universe, pairwise.
pub open spec fn spec_symbol_views(universe: Seq<PairSpec>) -> Seq<(Seq<char>, Seq<char>)> {
    universe.map_values(|p: PairSpec| (p.base@, p.quote@))
}

/// The lexicographic order is total on distinct names.
proof fn lemma_str_lt_total(a: Seq<char>, b: Seq<char>)
    requires
        a != b,
    ensures
        spec_str_lt(a, b) || spec_str_lt(b, a),
    decreases a.len(),
{
    if b.len() == 0 {
        if a.len() == 0 {
            assert(a =~= b);
        }
    } else if a.len() == 0 {
    } else if a[0] != b[0] {
    } else {
        if a.drop_first() == b.drop_first() {
            assert(a.drop_first().len() == a.len() - 1);
            assert(b.drop_first().len() == b.len() - 1);
            assert(a.drop_first().len() == b.drop_first().len());
            assert(a.len() == b.len());
            assert forall|i: int| 0 <= i < a.len() implies a[i] == b[i] by {
                if i >= 1 {
                    assert(a.drop_first()[i - 1] == b.drop_first()[i - 1]);
                }
            }
            assert(a =~= b);
        } else {
            lemma_str_lt_total(a.drop_first(), b.drop_first());
        }
    }
}

/// Inserts a name into a strictly sorted list, keeping it sorted and
/// duplicate-free; the list's names afterwards are the old names plus
/// the new one.
fn insert_sorted_unique(v: &mut Vec<String>, x: String)
    requires
        strictly_sorted(old(v).deep_view()),
    ensures
        strictly_sorted(final(v).deep_view()),
        forall|y: Seq<char>|
            #[trigger] seq_has(final(v).deep_view(), y) <==> (seq_has(old(v).deep_view(), y) || y
                == x@),
{
    let ghost dv = v.deep_view();
    let mut pos: usize = 0;
    let n: usize = v.len();
    while pos < n && str_lt(v[pos].as_str(), x.as_str())
        invariant
            0 <= pos <= n,
            n == v@.len(),
            dv == v.deep_view(),
            strictly_sorted(dv),
            forall|j: int| 0 <= j < pos ==> spec_str_lt(#[trigger] dv[j], x@),
        decreases n - pos,
    {
        proof {
            assert(dv[pos as int] == v@[pos as int]@);
        }
        pos = pos + 1;
    }
    if pos < n && v[pos] == x {
        proof {
            assert(dv[pos as int] == v@[pos as int]@);
            assert(seq_has(dv, x@));
            assert forall|y: Seq<char>| #[trigger] seq_has(v.deep_view(), y) implies (seq_has(
                dv,
                y,
            ) || y == x@) by {}
        }
        return;
    }
    proof {
        if pos < n {
            assert(dv[pos as int] == v@[pos as int]@);
            if dv[pos as int] != x@ {
                lemma_str_lt_total(dv[pos as int], x@);
            }
            assert(spec_str_lt(x@, dv[pos as int]));
        }
    }
    v.insert(pos, x);
    proof {
        let ndv = v.deep_view();
        assert(ndv.len() == dv.len() + 1);
        assert(forall|j: int| 0 <= j < pos ==> #[trigger] ndv[j] == dv[j]);
        assert(ndv[pos as int] == x@);
        assert(forall|j: int| pos < j < ndv.len() ==> #[trigger] ndv[j] == dv[j - 1]);
        assert forall|i: int| 0 <= i < ndv.len() - 1 implies spec_str_lt(
            #[trigger] ndv[i],
            ndv[i + 1],
        ) by {
            if i + 1 < pos {
                assert(ndv[i] == dv[i] && ndv[i + 1] == dv[i + 1]);
            } else if i + 1 == pos {
                assert(ndv[i] == dv[i] && ndv[i + 1] == x@);
            } else if i == pos {
                assert(ndv[i] == x@ && ndv[i + 1] == dv[i]);
            } else {
                assert(ndv[i] == dv[i - 1] && ndv[i + 1] == dv[i]);
            }
        }
        assert forall|y: Seq<char>| #[trigger] seq_has(ndv, y) implies (seq_has(dv, y) || y == x@)
            by {
            let i = choose|i: int| 0 <= i < ndv.len() && ndv[i] == y;
            if i < pos {
                assert(dv[i] == y);
            } else if i > pos {
                assert(dv[i - 1] == y);
            }
        }
        assert forall|y: Seq<char>| (seq_has(dv, y) || y == x@) implies #[trigger] seq_has(
            ndv,
            y,
        ) by {
            if y == x@ {
                assert(ndv[pos as int] == y);
            } else {
                let i = choose|i: int| 0 <= i < dv.len() && dv[i] == y;
                if i < pos {
                    assert(ndv[i] == y);
                } else {
                    assert(ndv[i + 1] == y);
                }
            }
        }
    }
}

/// The sanitized, nonempty file-name parts of a symbol list, in order.
pub open spec fn spec_name_parts(syms: Seq<Seq<char>>) -> Seq<Seq<char>>
    decreases syms.len(),
{
    if syms.len() == 0 {
        Seq::empty()
    } else {
        let part = syms[0].map_values(|c: char| spec_sanitize_char(c));
        let rest = spec_name_parts(syms.drop_first());
        if part.len() == 0 {
            rest
        } else {
            seq![part] + rest
        }
    }
}

/// Parts joined with underscores.
pub open spec fn spec_join_under(parts: Seq<Seq<char>>) -> Seq<char>
    decreases parts.len(),
{
    if parts.len() == 0 {
        Seq::empty()
    } else if parts.len() == 1 {
        parts[0]
    } else {
        parts[0] + seq!['_'] + spec_join_under(parts.drop_first())
    }
}

/// The history file name a symbol list yields: the sanitized symbols
/// joined with underscores between a fixed prefix and extension, or a
/// fixed fallback name when nothing is left.
pub open spec fn spec_history_file_name(syms: Seq<Seq<char>>) -> Seq<char> {
    let parts = spec_name_parts(syms);
    if parts.len() == 0 {
        "pairtrade_history.json"@
    } else {
        "pairtrade_history_"@ + spec_join_under(parts) + ".json"@
    }
}

spec fn spec_join_under_prefix(parts: Seq<Seq<char>>, k: int) -> Seq<char>
    decreases k,
{
    if k <= 0 {
        Seq::empty()
    } else if k == 1 {
        parts[0]
    } else {
        spec_join_under_prefix(parts, k - 1) + seq!['_'] + parts[k - 1]
    }
}

proof fn lemma_join_under_shift(parts: Seq<Seq<char>>, k: int)
    requires
        2 <= k <= parts.len(),
    ensures
        spec_join_under_prefix(parts, k) =~= parts[0] + seq!['_'] + spec_join_under_prefix(
            parts.drop_first(),
            k - 1,
        ),
    decreases k,
{
    if k == 2 {
        assert(parts.drop_first()[0] == parts[1]);
        assert(spec_join_under_prefix(parts, 2) =~= spec_join_under_prefix(parts, 1) + seq!['_']
            + parts[1]);
        assert(spec_join_under_prefix(parts.drop_first(), 1) =~= parts.drop_first()[0]);
    } else {
        lemma_join_under_shift(parts, k - 1);
        assert(parts.drop_first()[k - 2] == parts[k - 1]);
        assert(spec_join_under_prefix(parts, k) =~= spec_join_under_prefix(parts, k - 1)
            + seq!['_'] + parts[k - 1]);
        assert(spec_join_under_prefix(parts.drop_first(), k - 1) =~= spec_join_under_prefix(
            parts.drop_first(),
            k - 2,
        ) + seq!['_'] + parts.drop_first()[k - 2]);
        assert(spec_join_under_prefix(parts, k - 1) + seq!['_'] + parts[k - 1] =~= parts[0]
            + seq!['_'] + (spec_join_under_prefix(parts.drop_first(), k - 2) + seq!['_']
            + parts.drop_first()[k - 2]));
    }
}

proof fn lemma_join_under_full(parts: Seq<Seq<char>>)
    ensures
        spec_join_under_prefix(parts, parts.len() as int) =~= spec_join_under(parts),
    decreases parts.len(),
{
    if parts.len() > 1 {
        lemma_join_under_full(parts.drop_first());
        lemma_join_under_shift(parts, parts.len() as int);
    }
}

/// The default history file name for a universe: each symbol once, in
/// lexicographic order, sanitized for a filename and joined with
/// underscores; a fixed name when the universe has no usable symbol.
pub fn default_history_file(universe: &Vec<PairSpec>) -> (r: String)
    ensures
        exists|syms: Seq<Seq<char>>|
            {
                &&& strictly_sorted(syms)
                &&& (forall|y: Seq<char>|
                    #[trigger] seq_has(syms, y) <==> spec_universe_symbol(universe@, y))
                &&& r@ == spec_history_file_name(syms)
            },
{
    let mut sorted: Vec<String> = Vec::new();
    let mut i: usize = 0;
    let n: usize = universe.len();
    while i < n
        invariant
            0 <= i <= n,
            n == universe@.len(),
            strictly_sorted(sorted.deep_view()),
            forall|y: Seq<char>|
                #[trigger] seq_has(sorted.deep_view(), y) <==> exists|j: int|
                    0 <= j < i && ((#[trigger] universe@[j]).base@ == y || universe@[j].quote@
                        == y),
        decreases n - i,
    {
        insert_sorted_unique(&mut sorted, universe[i].base.clone());
        insert_sorted_unique(&mut sorted, universe[i].quote.clone());
        proof {
            assert forall|y: Seq<char>| #[trigger] seq_has(sorted.deep_view(), y) implies exists|
                j: int,
            |
                0 <= j < i + 1 && ((#[trigger] universe@[j]).base@ == y || universe@[j].quote@
                    == y) by {
                if y == universe@[i as int].base@ || y == universe@[i as int].quote@ {
                    let w = i as int;
                    assert(0 <= w && w < i + 1 && (universe@[w].base@ == y || universe@[w].quote@
                        == y));
                }
            }
        }
        i = i + 1;
    }
    let ghost syms = sorted.deep_view();
    proof {
        assert forall|y: Seq<char>| #[trigger] seq_has(syms, y) implies spec_universe_symbol(
            universe@,
            y,
        ) by {}
        assert forall|y: Seq<char>| spec_universe_symbol(universe@, y) implies #[trigger] seq_has(
            syms,
            y,
        ) by {}
    }
    // Sanitize each symbol and keep the nonempty parts, in order.
    let mut parts: Vec<String> = Vec::new();
    let mut k: usize = 0;
    let m: usize = sorted.len();
    proof {
        assert(syms.subrange(0, m as int) =~~= syms);
    }
    while k < m
        invariant
            0 <= k <= m,
            m == sorted@.len(),
            syms == sorted.deep_view(),
            spec_name_parts(syms) =~~= parts.deep_view() + spec_name_parts(
                syms.subrange(k as int, m as int),
            ),
        decreases m - k,
    {
        let ghost prev = parts.deep_view();
        proof {
            assert(syms.subrange(k as int, m as int)[0] == syms[k as int]);
            assert(syms.subrange(k as int, m as int).drop_first() =~~= syms.subrange(
                k + 1,
                m as int,
            ));
            assert(syms[k as int] == sorted@[k as int]@);
        }
        let part: String = sanitize_symbol_for_filename(sorted[k].as_str());
        if !part.as_str().is_empty() {
            parts.push(part);
            proof {
                assert(parts.deep_view() =~~= prev + seq![
                    syms[k as int].map_values(|c: char| spec_sanitize_char(c)),
                ]);
                assert(parts.deep_view() + spec_name_parts(syms.subrange(k + 1, m as int))
                    =~~= prev + spec_name_parts(syms.subrange(k as int, m as int)));
            }
        }
        k = k + 1;
    }
    proof {
        assert(spec_name_parts(syms.subrange(m as int, m as int)) =~~= Seq::<Seq<char>>::empty());
        assert(parts.deep_view() + Seq::<Seq<char>>::empty() =~~= parts.deep_view());
        assert(parts.deep_view() =~~= spec_name_parts(syms));
    }
    if parts.len() == 0 {
        let out: String = String::from_str("pairtrade_history.json");
        proof {
            assert(out@ == spec_history_file_name(syms));
        }
        return out;
    }
    let mut joined: String = String::from_str("pairtrade_history_");
    let ghost pv = parts.deep_view();
    let mut j: usize = 0;
    let p: usize = parts.len();
    while j < p
        invariant
            0 <= j <= p,
            p == parts@.len(),
            pv == parts.deep_view(),
            joined@ =~= "pairtrade_history_"@ + spec_join_under_prefix(pv, j as int),
        decreases p - j,
    {
        if j > 0 {
            joined.append("_");
            proof {
                reveal_strlit("_");
            }
        }
        joined.append(parts[j].as_str());
        proof {
            assert(pv[j as int] == parts@[j as int]@);
            assert(joined@ =~= "pairtrade_history_"@ + spec_join_under_prefix(pv, j + 1));
        }
        j = j + 1;
    }
    joined.append(".json");
    proof {
        lemma_join_under_full(pv);
        assert(joined@ =~= spec_history_file_name(syms));
    }
    joined
}

} // verus!
