//! Bot configuration (read from TOML by the application).
//!
//! Durations are returned as nanosecond counts.
use vstd::prelude::*;

use crate::decimal::Dec;
use crate::strategy::StrategyParams;

verus! {

/// Nanoseconds in a second.
pub const NANOS_PER_SEC: u128 = 1_000_000_000;

/// Wallet signing mode for CLOB authentication.
#[derive(Debug, Clone, Copy, PartialEq, Eq, Structural)]
pub enum SignatureKind {
    Eoa,
    /// Browser-wallet style proxy (Magic/email flows often use this path).
    Proxy,
    /// Gnosis Safe-style wallet derived from the signing EOA.
    GnosisSafe,
}

impl Default for SignatureKind {
    fn default() -> (r: Self)
        ensures
            r == SignatureKind::Eoa,
    {
        SignatureKind::Eoa
    }
}

#[derive(Debug, Clone, Copy)]
pub struct WalletConfig {
    pub signature_type: SignatureKind,
}

impl Default for WalletConfig {
    fn default() -> (r: Self)
        ensures
            r.signature_type == SignatureKind::Eoa,
    {
        WalletConfig { signature_type: SignatureKind::Eoa }
    }
}

#[derive(Debug, Clone)]
pub struct TokenRef {
    /// Human-readable label for logs only (e.g. `Up`, `Down`).
    pub label: String,
    /// Outcome token id as decimal digits.
    pub token_id: String,
}

#[derive(Debug, Clone)]
pub struct MarketConfig {
    pub outcome_a: TokenRef,
    pub outcome_b: TokenRef,
}

#[derive(Debug, Clone, Copy)]
pub struct StrategyConfig {
    /// Model-implied probability that outcome **A** resolves YES (0–1).
    pub fair_probability_a: Dec,
    /// Require `ask_a + ask_b <= 1 - min_locked_edge` before quoting.
    pub min_locked_edge: Dec,
    /// Cap total USDC spent this cycle (`qty_a * price_a + qty_b * price_b`).
    pub max_usdc_notional: Dec,
    /// Maximum paired hedge size (the arb shell) on **each** outcome before tilt.
    pub base_pair_shares: Dec,
    /// Maximum extra shares on the favored outcome beyond the paired hedge.
    pub max_tilt_extra_shares: Dec,
    /// Minimum `(edge_favored - edge_other)` required to apply tilt.
    pub tilt_edge_gap: Dec,
    /// Improve maker price by N ticks below best ask on each BUY limit (0 = join ask).
    pub price_improve_ticks: u32,
}

impl StrategyConfig {
    pub open spec fn params_spec(self) -> StrategyParams {
        StrategyParams {
            min_locked_edge: self.min_locked_edge,
            max_usdc_notional: self.max_usdc_notional,
            base_pair_shares: self.base_pair_shares,
            max_tilt_extra_shares: self.max_tilt_extra_shares,
            tilt_edge_gap: self.tilt_edge_gap,
        }
    }

    /// The sizing parameters of this configuration.
    pub fn params(&self) -> (r: StrategyParams)
        ensures
            r == self.params_spec(),
            r.min_locked_edge == self.min_locked_edge,
            r.max_usdc_notional == self.max_usdc_notional,
            r.base_pair_shares == self.base_pair_shares,
            r.max_tilt_extra_shares == self.max_tilt_extra_shares,
            r.tilt_edge_gap == self.tilt_edge_gap,
    {
        StrategyParams {
            min_locked_edge: self.min_locked_edge,
            max_usdc_notional: self.max_usdc_notional,
            base_pair_shares: self.base_pair_shares,
            max_tilt_extra_shares: self.max_tilt_extra_shares,
            tilt_edge_gap: self.tilt_edge_gap,
        }
    }
}

#[derive(Debug, Clone, Copy)]
pub struct PollingConfig {
    pub interval_ms: u64,
}

pub fn default_interval_ms() -> (r: u64)
    ensures
        r == 1500,
{
    1500
}

impl Default for PollingConfig {
    fn default() -> (r: Self)
        ensures
            r.interval_ms == 1500,
    {
        PollingConfig { interval_ms: default_interval_ms() }
    }
}

#[derive(Debug, Clone, Copy)]
pub struct TwapConfig {
    /// Rolling window used to average asks before sizing (seconds).
    pub window_secs: u64,
    /// Child clips spread across the same window once TWAP is ready.
    pub slices: u32,
    /// Wait this long after a TWAP window finishes before starting another.
    pub cooldown_secs: u64,
}

pub fn default_twap_window_secs() -> (r: u64)
    ensures
        r == 60,
{
    60
}

pub fn default_twap_slices() -> (r: u32)
    ensures
        r == 6,
{
    6
}

impl Default for TwapConfig {
    fn default() -> (r: Self)
        ensures
            r.window_secs == 60,
            r.slices == 6,
            r.cooldown_secs == 0,
    {
        TwapConfig {
            window_secs: default_twap_window_secs(),
            slices: default_twap_slices(),
            cooldown_secs: 0,
        }
    }
}

impl TwapConfig {
    pub open spec fn window_spec(self) -> u128 {
        ((if self.window_secs >= 1 {
            self.window_secs
        } else {
            1
        }) * NANOS_PER_SEC) as u128
    }

    pub open spec fn cooldown_spec(self) -> u128 {
        (self.cooldown_secs * NANOS_PER_SEC) as u128
    }

    pub open spec fn slice_count_spec(self) -> u32 {
        if self.slices >= 1 {
            self.slices
        } else {
            1
        }
    }

    /// The averaging window in nanoseconds; a window of zero seconds counts as one.
    pub fn window(&self) -> (r: u128)
        ensures
            r == (if self.window_secs >= 1 {
                self.window_secs
            } else {
                1
            }) * NANOS_PER_SEC,
            r >= NANOS_PER_SEC,
            r == self.window_spec(),
    {
        let secs: u64 = if self.window_secs >= 1 {
            self.window_secs
        } else {
            1
        };
        (secs as u128) * NANOS_PER_SEC
    }

    /// The number of clips; zero counts as one.
    pub fn slice_count(&self) -> (r: u32)
        ensures
            r == (if self.slices >= 1 {
                self.slices
            } else {
                1
            }),
            r >= 1,
            r == self.slice_count_spec(),
    {
        if self.slices >= 1 {
            self.slices
        } else {
            1
        }
    }

    /// The cooldown after a finished or aborted TWAP run, in nanoseconds.
    pub fn cooldown(&self) -> (r: u128)
        ensures
            r == self.cooldown_secs * NANOS_PER_SEC,
            r == self.cooldown_spec(),
    {
        (self.cooldown_secs as u128) * NANOS_PER_SEC
    }
}

#[derive(Debug, Clone)]
pub struct BotConfig {
    /// `https://clob.polymarket.com` (USDC.e / legacy) or `https://clob-v2.polymarket.com` (pUSD / V2).
    pub clob_host: String,
    pub wallet: WalletConfig,
    pub market: MarketConfig,
    pub strategy: StrategyConfig,
    pub polling: PollingConfig,
    pub twap: TwapConfig,
}

/// The CLOB host used when the configuration names none.
pub fn default_clob_host() -> (r: String)
    ensures
        r@ == "https://clob.polymarket.com"@,
{
    String::from_str("https://clob.polymarket.com")
}

} // verus!
