//! Pure sizing logic: arb shell + directional tilt from modeled edge.
//!
//! The arithmetic is `rust_decimal`'s: exact where the result is
//! representable, rounded to 96 bits otherwise. Where an intermediate amount
//! overflows the decimal range, the plan is `None`.
use vstd::prelude::*;

use crate::decimal::{
    add_opt, dec_max, dec_min, dec_one, dec_zero, lemma_add_rep, lemma_mul_rep, lemma_pow10_pos,
    lemma_sub_rep, lemma_opt_wf, lemma_trunc_rep, lemma_trunc_val_nonneg, mul_opt, quotient_wf, sub_fits, sub_opt,
    trunc_rep, trunc_val, unit, opt_wf, add_rep, sub_rep, add_fits, pow10, quotient_is_close, ulp, Dec,
    MAX_SCALE,
};

verus! {

/// Maximum outcome-share decimals enforced by the venue (its lot size scale).
pub const SHARE_DECIMALS: u32 = 2;

#[derive(Debug, Clone, Copy, PartialEq, Eq, Structural)]
pub enum FavoredOutcome {
    /// Outcome A token is favored (more modeled edge vs ask).
    A,
    /// Outcome B token is favored.
    B,
    /// Edge gap too small — remain symmetric paired hedge only.
    Neutral,
}

#[derive(Debug, Clone, Copy)]
pub struct StrategyParams {
    pub min_locked_edge: Dec,
    pub max_usdc_notional: Dec,
    pub base_pair_shares: Dec,
    pub max_tilt_extra_shares: Dec,
    pub tilt_edge_gap: Dec,
}

#[derive(Debug, Clone, Copy)]
pub struct SizePlan {
    pub favored: FavoredOutcome,
    pub paired_shares: Dec,
    pub qty_a: Dec,
    pub qty_b: Dec,
}

/// `max(x, 0)` truncated toward zero to whole cents of a share.
pub open spec fn spec_trunc_shares(x: Dec) -> Dec {
    trunc_rep(dec_max(x, dec_zero()), SHARE_DECIMALS as nat)
}

/// Clamp to zero, then truncate to the share precision.
pub fn trunc_shares(x: Dec) -> (r: Dec)
    ensures
        r == spec_trunc_shares(x),
        r.val() == trunc_val(if x.val() < 0 {
            0
        } else {
            x.val()
        }, SHARE_DECIMALS as nat),
        r.val() >= 0,
        r.sc() <= SHARE_DECIMALS,
{
    let z = Dec::zero();
    let m = x.max(z);
    let r = m.trunc_with_scale(SHARE_DECIMALS);
    proof {
        lemma_trunc_val_nonneg(m.val(), SHARE_DECIMALS as nat);
    }
    r
}

/// The inputs can form a locked pair: positive asks, a probability in
/// `[0, 1]`, a locked edge in `(0, 1)`, positive caps, and non-negative gap
/// and tilt size.
pub open spec fn spec_inputs_are_tradable(
    ask_a: Dec,
    ask_b: Dec,
    fair_prob_a: Dec,
    params: StrategyParams,
) -> bool {
    &&& ask_a.val() > 0
    &&& ask_b.val() > 0
    &&& 0 <= fair_prob_a.val() <= unit()
    &&& 0 < params.min_locked_edge.val() < unit()
    &&& params.max_usdc_notional.val() > 0
    &&& params.base_pair_shares.val() > 0
    &&& params.tilt_edge_gap.val() >= 0
    &&& params.max_tilt_extra_shares.val() >= 0
}

/// False when asks, model probability, or caps cannot form a locked pair.
pub fn inputs_are_tradable(
    ask_a: Dec,
    ask_b: Dec,
    fair_prob_a: Dec,
    params: &StrategyParams,
) -> (r: bool)
    ensures
        r == spec_inputs_are_tradable(ask_a, ask_b, fair_prob_a, *params),
{
    let zero = Dec::zero();
    let one = Dec::one();
    if ask_a.le(&zero) || ask_b.le(&zero) {
        return false;
    }
    if fair_prob_a.lt(&zero) || fair_prob_a.gt(&one) {
        return false;
    }
    if params.min_locked_edge.le(&zero) || params.min_locked_edge.ge(&one) {
        return false;
    }
    if params.max_usdc_notional.le(&zero) || params.base_pair_shares.le(&zero) {
        return false;
    }
    if params.tilt_edge_gap.lt(&zero) || params.max_tilt_extra_shares.lt(&zero) {
        return false;
    }
    true
}

/// Which side to tilt toward, from the two edges; `None` when a difference
/// of the edges overflows.
pub open spec fn spec_favored(edge_a: Dec, edge_b: Dec, gap: Dec) -> Option<FavoredOutcome> {
    match sub_opt(edge_a, edge_b) {
        None => None,
        Some(d_ab) => if d_ab.val() >= gap.val() {
            Some(FavoredOutcome::A)
        } else {
            match sub_opt(edge_b, edge_a) {
                None => None,
                Some(d_ba) => if d_ba.val() >= gap.val() {
                    Some(FavoredOutcome::B)
                } else {
                    Some(FavoredOutcome::Neutral)
                },
            }
        },
    }
}

fn favored_side(edge_a: Dec, edge_b: Dec, gap: Dec) -> (r: Option<FavoredOutcome>)
    ensures
        r == spec_favored(edge_a, edge_b, gap),
{
    let d_ab = match edge_a.checked_sub(edge_b) {
        Some(d) => d,
        None => return None,
    };
    if d_ab.ge(&gap) {
        return Some(FavoredOutcome::A);
    }
    let d_ba = match edge_b.checked_sub(edge_a) {
        Some(d) => d,
        None => return None,
    };
    if d_ba.ge(&gap) {
        Some(FavoredOutcome::B)
    } else {
        Some(FavoredOutcome::Neutral)
    }
}

/// The paired hedge size from the notional-capped size `max_q`.
pub open spec fn spec_paired_shares(max_q: Dec, base_pair_shares: Dec) -> Dec {
    spec_trunc_shares(dec_min(max_q, base_pair_shares))
}

/// The paired hedge size: the smaller of the notional-capped size `max_q`
/// (the cap divided by the bundle price) and the base pair size, truncated to
/// share precision.
pub fn paired_shares(max_q: Dec, base_pair_shares: Dec) -> (r: Dec)
    ensures
        r == spec_paired_shares(max_q, base_pair_shares),
        r.val() >= 0,
        r.val() <= base_pair_shares.val() || r.val() == 0,
        r.val() <= max_q.val() || r.val() == 0,
        r.sc() <= SHARE_DECIMALS,
{
    let m = max_q.min(base_pair_shares);
    let r = trunc_shares(m);
    proof {
        if m.val() >= 0 {
            lemma_trunc_val_nonneg(m.val(), SHARE_DECIMALS as nat);
        } else {
            lemma_trunc_val_nonneg(0, SHARE_DECIMALS as nat);
        }
    }
    r
}

/// The tilt size on the favored side: the configured maximum, capped by
/// `cap_shares` (the remaining notional divided by the favored ask) truncated
/// to share precision, truncated to share precision itself, and dropped to
/// zero when it is dust below the venue minimum.
pub open spec fn spec_tilt_extra(max_tilt: Dec, cap_shares: Dec, min_order_size: Dec) -> Dec {
    let e1 = spec_trunc_shares(dec_min(max_tilt, spec_trunc_shares(cap_shares)));
    if e1.val() > 0 && e1.val() < min_order_size.val() {
        dec_zero()
    } else {
        e1
    }
}

/// The tilt size on the favored side (see [`spec_tilt_extra`]).
pub fn tilt_extra(max_tilt: Dec, cap_shares: Dec, min_order_size: Dec) -> (r: Dec)
    ensures
        r == spec_tilt_extra(max_tilt, cap_shares, min_order_size),
        r.val() >= 0,
        r.sc() <= SHARE_DECIMALS,
        r.val() == 0 || r.val() >= min_order_size.val(),
        max_tilt.val() >= 0 ==> r.val() <= max_tilt.val(),
        r.val() <= cap_shares.val() || r.val() == 0,
{
    let cap_extra = trunc_shares(cap_shares);
    let e0 = max_tilt.min(cap_extra);
    let extra = trunc_shares(e0);
    proof {
        if e0.val() >= 0 {
            lemma_trunc_val_nonneg(e0.val(), SHARE_DECIMALS as nat);
        } else {
            lemma_trunc_val_nonneg(0, SHARE_DECIMALS as nat);
        }
        if cap_shares.val() >= 0 {
            lemma_trunc_val_nonneg(cap_shares.val(), SHARE_DECIMALS as nat);
        } else {
            lemma_trunc_val_nonneg(0, SHARE_DECIMALS as nat);
        }
    }
    let zero = Dec::zero();
    if extra.gt(&zero) && extra.lt(&min_order_size) {
        zero
    } else {
        extra
    }
}

/// The tilt size on the side whose ask is `ask`, after the paired hedge
/// `q_pair` at `bundle` per pair has been paid for: zero when no notional is
/// left, else capped by what the remaining notional buys at `ask`; `None`
/// when an intermediate amount overflows or the cap division fails.
pub open spec fn spec_leg_extra(
    q_pair: Dec,
    bundle: Dec,
    ask: Dec,
    params: StrategyParams,
    min_order_size: Dec,
) -> Option<Dec> {
    match mul_opt(q_pair, bundle) {
        None => None,
        Some(spent_pair) => match sub_opt(params.max_usdc_notional, spent_pair) {
            None => None,
            Some(raw) => {
                let remaining = dec_max(raw, dec_zero());
                if remaining.val() > 0 && ask.val() > 0 {
                    match quotient_wf(remaining, ask) {
                        None => None,
                        Some(c) => Some(
                            spec_tilt_extra(params.max_tilt_extra_shares, c, min_order_size),
                        ),
                    }
                } else {
                    Some(dec_zero())
                }
            },
        },
    }
}

fn leg_extra(q_pair: Dec, bundle: Dec, ask: Dec, params: &StrategyParams, min_order_size: Dec) -> (r:
    Option<Dec>)
    ensures
        r == spec_leg_extra(q_pair, bundle, ask, *params, min_order_size),
{
    let spent_pair = match q_pair.checked_mul(bundle) {
        Some(x) => x,
        None => return None,
    };
    let raw = match params.max_usdc_notional.checked_sub(spent_pair) {
        Some(x) => x,
        None => return None,
    };
    let zero = Dec::zero();
    let remaining = raw.max(zero);
    if remaining.gt(&zero) && ask.gt(&zero) {
        match remaining.checked_div(ask) {
            Some(c) => Some(tilt_extra(params.max_tilt_extra_shares, c, min_order_size)),
            None => None,
        }
    } else {
        Some(Dec::zero())
    }
}

/// The final quantities from the favored side, the paired size and the tilt.
pub open spec fn spec_finish(
    favored: FavoredOutcome,
    q_pair: Dec,
    extra: Dec,
    min_order_size: Dec,
) -> Option<SizePlan> {
    let qty = match favored {
        FavoredOutcome::A => match add_opt(q_pair, extra) {
            None => None,
            Some(x) => Some((x, q_pair)),
        },
        FavoredOutcome::B => match add_opt(q_pair, extra) {
            None => None,
            Some(x) => Some((q_pair, x)),
        },
        FavoredOutcome::Neutral => Some((q_pair, q_pair)),
    };
    match qty {
        None => None,
        Some((qty_a, qty_b)) => if qty_a.val() < min_order_size.val() || qty_b.val()
            < min_order_size.val() {
            None
        } else {
            Some(SizePlan { favored, paired_shares: q_pair, qty_a, qty_b })
        },
    }
}

fn finish(favored: FavoredOutcome, q_pair: Dec, extra: Dec, min_order_size: Dec) -> (r: Option<
    SizePlan,
>)
    ensures
        r == spec_finish(favored, q_pair, extra, min_order_size),
{
    let (qty_a, qty_b) = match favored {
        FavoredOutcome::A => match q_pair.checked_add(extra) {
            Some(x) => (x, q_pair),
            None => return None,
        },
        FavoredOutcome::B => match q_pair.checked_add(extra) {
            Some(x) => (q_pair, x),
            None => return None,
        },
        FavoredOutcome::Neutral => (q_pair, q_pair),
    };
    if qty_a.lt(&min_order_size) || qty_b.lt(&min_order_size) {
        return None;
    }
    Some(SizePlan { favored, paired_shares: q_pair, qty_a, qty_b })
}

/// The tilt size for the favored side (zero when neutral).
pub open spec fn spec_extra_for(
    favored: FavoredOutcome,
    q_pair: Dec,
    bundle: Dec,
    ask_a: Dec,
    ask_b: Dec,
    params: StrategyParams,
    min_order_size: Dec,
) -> Option<Dec> {
    match favored {
        FavoredOutcome::A => spec_leg_extra(q_pair, bundle, ask_a, params, min_order_size),
        FavoredOutcome::B => spec_leg_extra(q_pair, bundle, ask_b, params, min_order_size),
        FavoredOutcome::Neutral => Some(dec_zero()),
    }
}

/// The whole sizing decision (see [`plan_sizes`]).
pub open spec fn spec_plan_sizes(
    ask_a: Dec,
    ask_b: Dec,
    fair_prob_a: Dec,
    params: StrategyParams,
    min_order_size: Dec,
) -> Option<SizePlan> {
    if !spec_inputs_are_tradable(ask_a, ask_b, fair_prob_a, params) {
        None
    } else {
        match add_opt(ask_a, ask_b) {
            None => None,
            Some(bundle) => match sub_opt(dec_one(), params.min_locked_edge) {
                None => None,
                Some(max_bundle) => if bundle.val() > max_bundle.val() {
                    None
                } else {
                    match spec_edges_and_side(ask_a, ask_b, fair_prob_a, params) {
                        None => None,
                        Some(favored) => match quotient_wf(params.max_usdc_notional, bundle) {
                            None => None,
                            Some(max_q) => {
                                let q_pair = spec_paired_shares(max_q, params.base_pair_shares);
                                if q_pair.val() < min_order_size.val() {
                                    None
                                } else {
                                    match spec_extra_for(
                                        favored,
                                        q_pair,
                                        bundle,
                                        ask_a,
                                        ask_b,
                                        params,
                                        min_order_size,
                                    ) {
                                        None => None,
                                        Some(extra) => spec_finish(
                                            favored,
                                            q_pair,
                                            extra,
                                            min_order_size,
                                        ),
                                    }
                                }
                            },
                        },
                    }
                },
            },
        }
    }
}

/// Edges `p - ask_a` and `(1 - p) - ask_b`, and the side they favor.
pub open spec fn spec_edges_and_side(
    ask_a: Dec,
    ask_b: Dec,
    fair_prob_a: Dec,
    params: StrategyParams,
) -> Option<FavoredOutcome> {
    match sub_opt(fair_prob_a, ask_a) {
        None => None,
        Some(edge_a) => match sub_opt(dec_one(), fair_prob_a) {
            None => None,
            Some(one_minus_p) => match sub_opt(one_minus_p, ask_b) {
                None => None,
                Some(edge_b) => spec_favored(edge_a, edge_b, params.tilt_edge_gap),
            },
        },
    }
}

fn edges_and_side(ask_a: Dec, ask_b: Dec, fair_prob_a: Dec, params: &StrategyParams) -> (r: Option<
    FavoredOutcome,
>)
    ensures
        r == spec_edges_and_side(ask_a, ask_b, fair_prob_a, *params),
{
    let one = Dec::one();
    let edge_a = match fair_prob_a.checked_sub(ask_a) {
        Some(x) => x,
        None => return None,
    };
    let one_minus_p = match one.checked_sub(fair_prob_a) {
        Some(x) => x,
        None => return None,
    };
    let edge_b = match one_minus_p.checked_sub(ask_b) {
        Some(x) => x,
        None => return None,
    };
    favored_side(edge_a, edge_b, params.tilt_edge_gap)
}

/// Decide quantities only (limit prices are derived later from the book).
///
/// `None` when the inputs are not tradable, when the asks do not lock at
/// least `min_locked_edge` below one, when the paired size or a leg falls
/// below `min_order_size`, or when an intermediate amount overflows the
/// decimal range (where `rust_decimal`'s operators would panic).
pub fn plan_sizes(
    ask_a: Dec,
    ask_b: Dec,
    fair_prob_a: Dec,
    params: &StrategyParams,
    min_order_size: Dec,
) -> (r: Option<SizePlan>)
    ensures
        r == spec_plan_sizes(ask_a, ask_b, fair_prob_a, *params, min_order_size),
{
    if !inputs_are_tradable(ask_a, ask_b, fair_prob_a, params) {
        return None;
    }
    let one = Dec::one();
    let bundle = match ask_a.checked_add(ask_b) {
        Some(x) => x,
        None => return None,
    };
    let max_bundle = match one.checked_sub(params.min_locked_edge) {
        Some(x) => x,
        None => return None,
    };
    if bundle.gt(&max_bundle) {
        return None;
    }
    let favored = match edges_and_side(ask_a, ask_b, fair_prob_a, params) {
        Some(f) => f,
        None => return None,
    };
    let max_q = match params.max_usdc_notional.checked_div(bundle) {
        Some(x) => x,
        None => return None,
    };
    let q_pair = paired_shares(max_q, params.base_pair_shares);
    if q_pair.lt(&min_order_size) {
        return None;
    }
    let extra = match favored {
        FavoredOutcome::A => match leg_extra(q_pair, bundle, ask_a, params, min_order_size) {
            Some(x) => x,
            None => return None,
        },
        FavoredOutcome::B => match leg_extra(q_pair, bundle, ask_b, params, min_order_size) {
            Some(x) => x,
            None => return None,
        },
        FavoredOutcome::Neutral => Dec::zero(),
    };
    finish(favored, q_pair, extra, min_order_size)
}


impl StrategyParams {
    /// Every parameter is a valid decimal.
    pub open spec fn wf(self) -> bool {
        &&& self.min_locked_edge.wf()
        &&& self.max_usdc_notional.wf()
        &&& self.base_pair_shares.wf()
        &&& self.max_tilt_extra_shares.wf()
        &&& self.tilt_edge_gap.wf()
    }
}

pub proof fn lemma_dec_consts()
    ensures
        dec_zero().wf(),
        dec_zero().val() == 0,
        dec_zero().sc() == 0,
        dec_one().wf(),
        dec_one().val() == unit(),
        dec_one().sc() == 0,
{
    Dec::lemma_from_parts(0, 0);
    Dec::lemma_from_parts(1, 0);
}

pub proof fn lemma_spec_trunc_shares(x: Dec)
    requires
        x.wf(),
    ensures
        spec_trunc_shares(x).wf(),
        spec_trunc_shares(x).sc() <= SHARE_DECIMALS,
        spec_trunc_shares(x).val() >= 0,
        x.val() >= 0 ==> spec_trunc_shares(x).val() <= x.val(),
        x.val() <= 0 ==> spec_trunc_shares(x).val() == 0,
{
    lemma_dec_consts();
    let m = dec_max(x, dec_zero());
    lemma_trunc_rep(m, SHARE_DECIMALS as nat);
    if m.val() >= 0 {
        lemma_trunc_val_nonneg(m.val(), SHARE_DECIMALS as nat);
    }
    if x.val() <= 0 {
        lemma_trunc_val_nonneg(0, SHARE_DECIMALS as nat);
    }
}

pub proof fn lemma_spec_tilt_extra(max_tilt: Dec, cap_shares: Dec, min_order_size: Dec)
    requires
        max_tilt.wf(),
        cap_shares.wf(),
    ensures
        spec_tilt_extra(max_tilt, cap_shares, min_order_size).wf(),
        spec_tilt_extra(max_tilt, cap_shares, min_order_size).sc() <= SHARE_DECIMALS,
        spec_tilt_extra(max_tilt, cap_shares, min_order_size).val() >= 0,
        max_tilt.val() >= 0 ==> spec_tilt_extra(max_tilt, cap_shares, min_order_size).val()
            <= max_tilt.val(),
        spec_tilt_extra(max_tilt, cap_shares, min_order_size).val() <= cap_shares.val()
            || spec_tilt_extra(max_tilt, cap_shares, min_order_size).val() == 0,
{
    lemma_dec_consts();
    lemma_spec_trunc_shares(cap_shares);
    lemma_spec_trunc_shares(dec_min(max_tilt, spec_trunc_shares(cap_shares)));
}

pub proof fn lemma_spec_leg_extra(
    q_pair: Dec,
    bundle: Dec,
    ask: Dec,
    params: StrategyParams,
    min_order_size: Dec,
)
    requires
        q_pair.wf(),
        bundle.wf(),
        ask.wf(),
        params.wf(),
    ensures
        spec_leg_extra(q_pair, bundle, ask, params, min_order_size) matches Some(e) ==> {
            &&& e.wf()
            &&& e.sc() <= SHARE_DECIMALS
            &&& e.val() >= 0
            &&& params.max_tilt_extra_shares.val() >= 0 ==> e.val()
                <= params.max_tilt_extra_shares.val()
        },
{
    lemma_dec_consts();
    match mul_opt(q_pair, bundle) {
        None => {},
        Some(spent_pair) => {
            lemma_opt_wf(q_pair, bundle);
            lemma_opt_wf(params.max_usdc_notional, spent_pair);
            match sub_opt(params.max_usdc_notional, spent_pair) {
                None => {},
                Some(raw) => {
                    let remaining = dec_max(raw, dec_zero());
                    if remaining.val() > 0 && ask.val() > 0 {
                        match quotient_wf(remaining, ask) {
                            None => {},
                            Some(c) => {
                                lemma_spec_tilt_extra(params.max_tilt_extra_shares, c, min_order_size);
                            },
                        }
                    }
                },
            }
        },
    }
}

/// The shape every plan has: both legs and the paired size at least the
/// venue minimum, the paired size between zero and the base pair size, all
/// quantities in whole cents of a share, the favored leg the paired size plus
/// at most `max_tilt_extra_shares`, the other leg (or both, when neutral)
/// exactly the paired size.
pub open spec fn plan_shape(plan: SizePlan, params: StrategyParams, min_order_size: Dec) -> bool {
    &&& plan.qty_a.val() >= min_order_size.val()
    &&& plan.qty_b.val() >= min_order_size.val()
    &&& plan.paired_shares.val() >= min_order_size.val()
    &&& 0 <= plan.paired_shares.val() <= params.base_pair_shares.val()
    &&& plan.paired_shares.sc() <= SHARE_DECIMALS
    &&& plan.qty_a.sc() <= SHARE_DECIMALS
    &&& plan.qty_b.sc() <= SHARE_DECIMALS
    &&& match plan.favored {
        FavoredOutcome::A => {
            &&& plan.qty_b == plan.paired_shares
            &&& plan.paired_shares.val() <= plan.qty_a.val() <= plan.paired_shares.val()
                + params.max_tilt_extra_shares.val()
        },
        FavoredOutcome::B => {
            &&& plan.qty_a == plan.paired_shares
            &&& plan.paired_shares.val() <= plan.qty_b.val() <= plan.paired_shares.val()
                + params.max_tilt_extra_shares.val()
        },
        FavoredOutcome::Neutral => {
            &&& plan.qty_a == plan.paired_shares
            &&& plan.qty_b == plan.paired_shares
        },
    }
}

/// Modeled edge of outcome A: `p - ask_a`, in units of `10^-28`.
pub open spec fn edge_a_val(ask_a: Dec, fair_prob_a: Dec) -> int {
    fair_prob_a.val() - ask_a.val()
}

/// Modeled edge of outcome B: `(1 - p) - ask_b`, in units of `10^-28`.
pub open spec fn edge_b_val(ask_b: Dec, fair_prob_a: Dec) -> int {
    unit() - fair_prob_a.val() - ask_b.val()
}

/// The favored leg's quantity `q_pair + extra` is computed exactly.
pub open spec fn leg_sum_is_exact(
    q_pair: Dec,
    bundle: Dec,
    ask: Dec,
    params: StrategyParams,
    min_order_size: Dec,
) -> bool {
    spec_leg_extra(q_pair, bundle, ask, params, min_order_size) matches Some(e) ==> add_fits(
        q_pair,
        e,
    )
}

/// Every sum and difference that sizing a plan computes is exact (none of
/// them is rounded): the bundle price, `1 - min_locked_edge`, the two edges
/// and their differences, and the favored leg's quantity.
pub open spec fn plan_arithmetic_is_exact(
    ask_a: Dec,
    ask_b: Dec,
    fair_prob_a: Dec,
    params: StrategyParams,
    min_order_size: Dec,
) -> bool {
    let edge_a = sub_rep(fair_prob_a, ask_a);
    let edge_b = sub_rep(sub_rep(dec_one(), fair_prob_a), ask_b);
    let bundle = add_rep(ask_a, ask_b);
    &&& add_fits(ask_a, ask_b)
    &&& sub_fits(dec_one(), params.min_locked_edge)
    &&& sub_fits(fair_prob_a, ask_a)
    &&& sub_fits(dec_one(), fair_prob_a)
    &&& sub_fits(sub_rep(dec_one(), fair_prob_a), ask_b)
    &&& sub_fits(edge_a, edge_b)
    &&& sub_fits(edge_b, edge_a)
    &&& quotient_wf(params.max_usdc_notional, bundle) matches Some(max_q) ==> {
        let q_pair = spec_paired_shares(max_q, params.base_pair_shares);
        &&& leg_sum_is_exact(q_pair, bundle, ask_a, params, min_order_size)
        &&& leg_sum_is_exact(q_pair, bundle, ask_b, params, min_order_size)
    }
}

/// A plan is produced only from tradable inputs whose asks lock at least
/// `min_locked_edge` below one (`ask_a + ask_b <= 1 - min_locked_edge`); it
/// has the shape of [`plan_shape`]; and it tilts toward A exactly when A's
/// edge exceeds B's by at least `tilt_edge_gap`, toward B exactly when that
/// does not hold and B's edge exceeds A's by at least the gap, and stays
/// neutral otherwise. Stated where the sums and differences involved are
/// exact, so that no rounding can move a comparison.
pub proof fn law_plan_is_locked_and_shaped(
    ask_a: Dec,
    ask_b: Dec,
    fair_prob_a: Dec,
    params: StrategyParams,
    min_order_size: Dec,
)
    requires
        ask_a.wf(),
        ask_b.wf(),
        fair_prob_a.wf(),
        params.wf(),
        min_order_size.wf(),
        plan_arithmetic_is_exact(ask_a, ask_b, fair_prob_a, params, min_order_size),
    ensures
        spec_plan_sizes(ask_a, ask_b, fair_prob_a, params, min_order_size) matches Some(plan) ==> {
            &&& spec_inputs_are_tradable(ask_a, ask_b, fair_prob_a, params)
            &&& ask_a.val() + ask_b.val() <= unit() - params.min_locked_edge.val()
            &&& plan_shape(plan, params, min_order_size)
            &&& (plan.favored == FavoredOutcome::A) == (edge_a_val(ask_a, fair_prob_a) - edge_b_val(
                ask_b,
                fair_prob_a,
            ) >= params.tilt_edge_gap.val())
            &&& (plan.favored == FavoredOutcome::B) == (edge_a_val(ask_a, fair_prob_a) - edge_b_val(
                ask_b,
                fair_prob_a,
            ) < params.tilt_edge_gap.val() && edge_b_val(ask_b, fair_prob_a) - edge_a_val(
                ask_a,
                fair_prob_a,
            ) >= params.tilt_edge_gap.val())
        },
{
    lemma_dec_consts();
    let r = spec_plan_sizes(ask_a, ask_b, fair_prob_a, params, min_order_size);
    if r is Some && spec_inputs_are_tradable(ask_a, ask_b, fair_prob_a, params) {
        let bundle = add_opt(ask_a, ask_b)->0;
        lemma_add_rep(ask_a, ask_b);
        let max_bundle = sub_opt(dec_one(), params.min_locked_edge)->0;
        lemma_sub_rep(dec_one(), params.min_locked_edge);
        let edge_a = sub_opt(fair_prob_a, ask_a)->0;
        lemma_sub_rep(fair_prob_a, ask_a);
        let omp = sub_opt(dec_one(), fair_prob_a)->0;
        lemma_sub_rep(dec_one(), fair_prob_a);
        let edge_b = sub_opt(omp, ask_b)->0;
        lemma_sub_rep(omp, ask_b);
        lemma_sub_rep(edge_a, edge_b);
        lemma_sub_rep(edge_b, edge_a);
        let favored = spec_favored(edge_a, edge_b, params.tilt_edge_gap)->0;
        let max_q = quotient_wf(params.max_usdc_notional, bundle)->0;
        let q_pair = spec_paired_shares(max_q, params.base_pair_shares);
        lemma_spec_trunc_shares(dec_min(max_q, params.base_pair_shares));
        let extra = spec_extra_for(
            favored,
            q_pair,
            bundle,
            ask_a,
            ask_b,
            params,
            min_order_size,
        )->0;
        match favored {
            FavoredOutcome::A => {
                lemma_spec_leg_extra(q_pair, bundle, ask_a, params, min_order_size);
                lemma_add_rep(q_pair, extra);
            },
            FavoredOutcome::B => {
                lemma_spec_leg_extra(q_pair, bundle, ask_b, params, min_order_size);
                lemma_add_rep(q_pair, extra);
            },
            FavoredOutcome::Neutral => {},
        }
    }
}

/// Sizing the leg whose ask is `ask` overflows nowhere: the pair spend, the
/// remaining notional and, when notional is left, the cap division all give a result.
pub open spec fn leg_does_not_overflow(
    q_pair: Dec,
    bundle: Dec,
    ask: Dec,
    params: StrategyParams,
) -> bool {
    match mul_opt(q_pair, bundle) {
        None => false,
        Some(spent_pair) => match sub_opt(params.max_usdc_notional, spent_pair) {
            None => false,
            Some(raw) => {
                let remaining = dec_max(raw, dec_zero());
                (remaining.val() > 0 && ask.val() > 0) ==> quotient_wf(remaining, ask) is Some
            },
        },
    }
}

/// Sizing a plan overflows nowhere: the notional cap divided by the bundle
/// price gives a result, and so does each leg's arithmetic.
pub open spec fn plan_does_not_overflow(ask_a: Dec, ask_b: Dec, params: StrategyParams) -> bool {
    let bundle = add_rep(ask_a, ask_b);
    match quotient_wf(params.max_usdc_notional, bundle) {
        None => false,
        Some(max_q) => {
            let q_pair = spec_paired_shares(max_q, params.base_pair_shares);
            &&& leg_does_not_overflow(q_pair, bundle, ask_a, params)
            &&& leg_does_not_overflow(q_pair, bundle, ask_b, params)
        },
    }
}

/// Where no rounding and no overflow occur, there is no plan exactly when the
/// inputs are not tradable, or the asks do not lock `min_locked_edge` below
/// one (`ask_a + ask_b > 1 - min_locked_edge`), or the paired size (the cap
/// over the bundle price, at most the base pair size, truncated to share
/// precision) is below `min_order_size`.
pub proof fn law_no_plan_exactly_when(
    ask_a: Dec,
    ask_b: Dec,
    fair_prob_a: Dec,
    params: StrategyParams,
    min_order_size: Dec,
)
    requires
        ask_a.wf(),
        ask_b.wf(),
        fair_prob_a.wf(),
        params.wf(),
        min_order_size.wf(),
        plan_arithmetic_is_exact(ask_a, ask_b, fair_prob_a, params, min_order_size),
        plan_does_not_overflow(ask_a, ask_b, params),
    ensures
        spec_plan_sizes(ask_a, ask_b, fair_prob_a, params, min_order_size) is None <==> {
            ||| !spec_inputs_are_tradable(ask_a, ask_b, fair_prob_a, params)
            ||| ask_a.val() + ask_b.val() > unit() - params.min_locked_edge.val()
            ||| spec_paired_shares(
                quotient_wf(params.max_usdc_notional, add_rep(ask_a, ask_b))->0,
                params.base_pair_shares,
            ).val() < min_order_size.val()
        },
{
    lemma_dec_consts();
    if spec_inputs_are_tradable(ask_a, ask_b, fair_prob_a, params) {
        let bundle = add_opt(ask_a, ask_b)->0;
        lemma_add_rep(ask_a, ask_b);
        lemma_sub_rep(dec_one(), params.min_locked_edge);
        let edge_a = sub_opt(fair_prob_a, ask_a)->0;
        lemma_sub_rep(fair_prob_a, ask_a);
        let omp = sub_opt(dec_one(), fair_prob_a)->0;
        lemma_sub_rep(dec_one(), fair_prob_a);
        let edge_b = sub_opt(omp, ask_b)->0;
        lemma_sub_rep(omp, ask_b);
        lemma_sub_rep(edge_a, edge_b);
        lemma_sub_rep(edge_b, edge_a);
        let max_q = quotient_wf(params.max_usdc_notional, bundle)->0;
        let q_pair = spec_paired_shares(max_q, params.base_pair_shares);
        lemma_spec_trunc_shares(dec_min(max_q, params.base_pair_shares));
        let favored = spec_favored(edge_a, edge_b, params.tilt_edge_gap)->0;
        if ask_a.val() + ask_b.val() <= unit() - params.min_locked_edge.val()
            && q_pair.val() >= min_order_size.val() {
            match favored {
                FavoredOutcome::A => {
                    lemma_spec_leg_extra(q_pair, bundle, ask_a, params, min_order_size);
                    let extra = spec_leg_extra(q_pair, bundle, ask_a, params, min_order_size)->0;
                    lemma_add_rep(q_pair, extra);
                },
                FavoredOutcome::B => {
                    lemma_spec_leg_extra(q_pair, bundle, ask_b, params, min_order_size);
                    let extra = spec_leg_extra(q_pair, bundle, ask_b, params, min_order_size)->0;
                    lemma_add_rep(q_pair, extra);
                },
                FavoredOutcome::Neutral => {},
            }
        }
    }
}

/// One cent (0.01), in units of `10^-28`: the step of share quantities.
pub open spec fn cent() -> int {
    pow10((MAX_SCALE - SHARE_DECIMALS) as nat) as int
}

/// `k` cents, in units of `10^-28`.
pub open spec fn cents(k: int) -> int {
    k * cent()
}

/// No whole number of cents `x` has `lo < x * b <= lo + slack`: a quotient
/// by `b` above the exact `lo / b` by at most `slack / b` does not reach the
/// next cent (all amounts in units of `10^-56`).
pub open spec fn no_cent_in_window(lo: int, slack: int, b: int) -> bool {
    forall|k: int| !(lo < #[trigger] cents(k) * b && cents(k) * b <= lo + slack)
}

/// A quantity truncated to share precision is a whole number of cents.
pub proof fn lemma_trunc_shares_cents(x: Dec)
    requires
        x.wf(),
    ensures
        spec_trunc_shares(x).val() == cents(spec_trunc_shares(x).val() / cent()),
{
    lemma_dec_consts();
    let m = dec_max(x, dec_zero());
    lemma_trunc_rep(m, SHARE_DECIMALS as nat);
    let p = cent();
    lemma_pow10_pos((MAX_SCALE - SHARE_DECIMALS) as nat);
    let v = m.val();
    assert(v >= 0);
    let q = v / p;
    assert(spec_trunc_shares(x).val() == q * p);
    vstd::arithmetic::div_mod::lemma_div_multiples_vanish(q, p);
    assert((p * q) / p == q);
    assert(q * p == p * q) by (nonlinear_arith);
}

/// The rounding in sizing the leg whose ask is `ask` cannot reach a new cent
/// of tilt: the sum `max_usdc_notional - q_pair * bundle` is exact, and no
/// whole number of cents lies above the exact remaining notional divided by
/// the ask and within the rounding of the pair spend and of the cap division.
pub open spec fn leg_rounding_stays_within_cent(
    q_pair: Dec,
    bundle: Dec,
    ask: Dec,
    params: StrategyParams,
) -> bool {
    match mul_opt(q_pair, bundle) {
        None => true,
        Some(spent_pair) => {
            &&& sub_fits(params.max_usdc_notional, spent_pair)
            &&& {
                let remaining = dec_max(sub_rep(params.max_usdc_notional, spent_pair), dec_zero());
                (remaining.val() > 0 && ask.val() > 0) ==> match quotient_wf(remaining, ask) {
                    None => true,
                    Some(c) => no_cent_in_window(
                        params.max_usdc_notional.val() * unit() - q_pair.val() * bundle.val(),
                        ulp(spent_pair) * unit() + ask.val() * ulp(c),
                        ask.val(),
                    ),
                }
            }
        },
    }
}

/// Rounding cannot carry a plan over the notional cap: the bundle price and
/// each leg's quantity are exact sums, no whole number of cents of pair size
/// lies above the exact `max_usdc_notional / (ask_a + ask_b)` and within the
/// rounding of that division, and each leg is as in
/// [`leg_rounding_stays_within_cent`].
pub open spec fn plan_rounding_stays_within_cent(
    ask_a: Dec,
    ask_b: Dec,
    params: StrategyParams,
    min_order_size: Dec,
) -> bool {
    let bundle = add_rep(ask_a, ask_b);
    &&& add_fits(ask_a, ask_b)
    &&& match quotient_wf(params.max_usdc_notional, bundle) {
        None => true,
        Some(max_q) => {
            let q_pair = spec_paired_shares(max_q, params.base_pair_shares);
            &&& no_cent_in_window(
                params.max_usdc_notional.val() * unit(),
                bundle.val() * ulp(max_q),
                bundle.val(),
            )
            &&& leg_rounding_stays_within_cent(q_pair, bundle, ask_a, params)
            &&& leg_rounding_stays_within_cent(q_pair, bundle, ask_b, params)
            &&& leg_sum_is_exact(q_pair, bundle, ask_a, params, min_order_size)
            &&& leg_sum_is_exact(q_pair, bundle, ask_b, params, min_order_size)
        },
    }
}

proof fn lemma_pair_cost(q_pair: Dec, max_q: Dec, base: Dec, bundle: Dec, cap: Dec)
    requires
        q_pair == spec_paired_shares(max_q, base),
        max_q.wf(),
        base.wf(),
        bundle.val() > 0,
        cap.val() > 0,
        quotient_is_close(cap, bundle, max_q),
        no_cent_in_window(cap.val() * unit(), bundle.val() * ulp(max_q), bundle.val()),
    ensures
        0 <= q_pair.val() * bundle.val() <= cap.val() * unit(),
{
    let m = dec_min(max_q, base);
    lemma_spec_trunc_shares(m);
    lemma_trunc_shares_cents(m);
    vstd::arithmetic::mul::lemma_mul_nonnegative(cap.val(), unit());
    lemma_pow10_pos(MAX_SCALE as nat);
    let q = q_pair.val();
    let b = bundle.val();
    let x = max_q.val();
    let cu = cap.val() * unit();
    let e = ulp(max_q);
    assert(q * b >= 0) by (nonlinear_arith)
        requires
            q >= 0,
            b > 0,
    ;
    if m.val() <= 0 {
        assert(q == 0);
        assert(q * b == 0) by (nonlinear_arith)
            requires
                q == 0,
        ;
    } else {
        assert(q <= x);
        assert(q * b <= x * b) by (nonlinear_arith)
            requires
                q <= x,
                b > 0,
        ;
        assert(x * b <= cu + b * e);
        let k = q / cent();
        assert(!(cu < cents(k) * b && cents(k) * b <= cu + b * e));
        assert(b * e == e * b) by (nonlinear_arith);
    }
}

/// Where rounding cannot reach a new cent of pair size (see
/// [`plan_rounding_stays_within_cent`]), the paired hedge costs at most the
/// notional cap: `paired_shares * (ask_a + ask_b) <= max_usdc_notional`.
pub proof fn law_pair_within_notional(
    ask_a: Dec,
    ask_b: Dec,
    fair_prob_a: Dec,
    params: StrategyParams,
    min_order_size: Dec,
)
    requires
        ask_a.wf(),
        ask_b.wf(),
        fair_prob_a.wf(),
        params.wf(),
        min_order_size.wf(),
        plan_rounding_stays_within_cent(ask_a, ask_b, params, min_order_size),
    ensures
        spec_plan_sizes(ask_a, ask_b, fair_prob_a, params, min_order_size) matches Some(plan)
            ==> plan.paired_shares.val() * (ask_a.val() + ask_b.val())
            <= params.max_usdc_notional.val() * unit(),
{
    let r = spec_plan_sizes(ask_a, ask_b, fair_prob_a, params, min_order_size);
    if r is Some && spec_inputs_are_tradable(ask_a, ask_b, fair_prob_a, params) {
        let bundle = add_opt(ask_a, ask_b)->0;
        lemma_add_rep(ask_a, ask_b);
        let max_q = quotient_wf(params.max_usdc_notional, bundle)->0;
        lemma_pair_cost(
            spec_paired_shares(max_q, params.base_pair_shares),
            max_q,
            params.base_pair_shares,
            bundle,
            params.max_usdc_notional,
        );
    }
}

proof fn lemma_leg_cost(
    q_pair: Dec,
    bundle: Dec,
    ask: Dec,
    params: StrategyParams,
    min_order_size: Dec,
)
    requires
        q_pair.wf(),
        bundle.wf(),
        ask.wf(),
        params.wf(),
        ask.val() > 0,
        q_pair.val() >= 0,
        leg_rounding_stays_within_cent(q_pair, bundle, ask, params),
        q_pair.val() * bundle.val() <= params.max_usdc_notional.val() * unit(),
        spec_leg_extra(q_pair, bundle, ask, params, min_order_size) is Some,
    ensures
        q_pair.val() * bundle.val() + spec_leg_extra(
            q_pair,
            bundle,
            ask,
            params,
            min_order_size,
        )->0.val() * ask.val() <= params.max_usdc_notional.val() * unit(),
{
    lemma_dec_consts();
    let spent = mul_opt(q_pair, bundle)->0;
    lemma_opt_wf(q_pair, bundle);
    lemma_sub_rep(params.max_usdc_notional, spent);
    let raw = sub_opt(params.max_usdc_notional, spent)->0;
    let u = unit();
    lemma_pow10_pos(MAX_SCALE as nat);
    let remaining = dec_max(raw, dec_zero());
    let e = spec_leg_extra(q_pair, bundle, ask, params, min_order_size)->0.val();
    let a = ask.val();
    let qb = q_pair.val() * bundle.val();
    let nv = params.max_usdc_notional.val();
    let sv = spent.val();
    let rv = remaining.val();
    let x = nv * u - qb;
    if rv > 0 {
        let c = quotient_wf(remaining, ask)->0;
        lemma_spec_tilt_extra(params.max_tilt_extra_shares, c, min_order_size);
        let cv = c.val();
        let es = ulp(spent) * u;
        let ec = a * ulp(c);
        assert(cv * a <= rv * u + ec);
        assert(sv * u >= qb - es);
        assert(rv == nv - sv);
        assert(rv * u <= x + es) by (nonlinear_arith)
            requires
                rv == nv - sv,
                sv * u >= qb - es,
                x == nv * u - qb,
        ;
        let tilt = spec_tilt_extra(params.max_tilt_extra_shares, c, min_order_size);
        if e > 0 {
            assert(e <= cv);
            assert(e * a <= cv * a) by (nonlinear_arith)
                requires
                    0 < e <= cv,
                    a > 0,
            ;
            if tilt != dec_zero() {
                lemma_spec_trunc_shares(c);
                lemma_trunc_shares_cents(
                    dec_min(params.max_tilt_extra_shares, spec_trunc_shares(c)),
                );
            }
            let k = e / cent();
            assert(e == cents(k));
            assert(!(x < cents(k) * a && cents(k) * a <= x + (es + ec)));
        } else {
            assert(e * a == 0) by (nonlinear_arith)
                requires
                    e == 0,
            ;
        }
    } else {
        assert(mul_opt(q_pair, bundle) == Some(spent));
        assert(sub_opt(params.max_usdc_notional, spent) == Some(raw));
        assert(spec_leg_extra(q_pair, bundle, ask, params, min_order_size) == Some(dec_zero()));
        assert(e == 0);
        assert(e * a == 0) by (nonlinear_arith)
            requires
                e == 0,
        ;
    }
}

/// Where rounding cannot carry a plan over the cap (see
/// [`plan_rounding_stays_within_cent`]), every plan spends at most the
/// notional cap: `qty_a * ask_a + qty_b * ask_b <= max_usdc_notional`.
pub proof fn law_plan_within_notional(
    ask_a: Dec,
    ask_b: Dec,
    fair_prob_a: Dec,
    params: StrategyParams,
    min_order_size: Dec,
)
    requires
        ask_a.wf(),
        ask_b.wf(),
        fair_prob_a.wf(),
        params.wf(),
        min_order_size.wf(),
        plan_rounding_stays_within_cent(ask_a, ask_b, params, min_order_size),
    ensures
        spec_plan_sizes(ask_a, ask_b, fair_prob_a, params, min_order_size) matches Some(plan)
            ==> plan.qty_a.val() * ask_a.val() + plan.qty_b.val() * ask_b.val()
            <= params.max_usdc_notional.val() * unit(),
{
    lemma_dec_consts();
    let r = spec_plan_sizes(ask_a, ask_b, fair_prob_a, params, min_order_size);
    if r is Some && spec_inputs_are_tradable(ask_a, ask_b, fair_prob_a, params) {
        let plan = r->0;
        let bundle = add_opt(ask_a, ask_b)->0;
        lemma_add_rep(ask_a, ask_b);
        let max_q = quotient_wf(params.max_usdc_notional, bundle)->0;
        let q_pair = spec_paired_shares(max_q, params.base_pair_shares);
        lemma_spec_trunc_shares(dec_min(max_q, params.base_pair_shares));
        lemma_pair_cost(q_pair, max_q, params.base_pair_shares, bundle, params.max_usdc_notional);
        let edge_a = sub_opt(fair_prob_a, ask_a)->0;
        let omp = sub_opt(dec_one(), fair_prob_a)->0;
        let edge_b = sub_opt(omp, ask_b)->0;
        let favored = spec_favored(edge_a, edge_b, params.tilt_edge_gap)->0;
        let extra = spec_extra_for(
            favored,
            q_pair,
            bundle,
            ask_a,
            ask_b,
            params,
            min_order_size,
        )->0;
        let q = q_pair.val();
        let a = ask_a.val();
        let b = ask_b.val();
        let x = extra.val();
        assert(q * (a + b) == q * a + q * b) by (nonlinear_arith);
        match favored {
            FavoredOutcome::A => {
                lemma_spec_leg_extra(q_pair, bundle, ask_a, params, min_order_size);
                lemma_leg_cost(q_pair, bundle, ask_a, params, min_order_size);
                lemma_add_rep(q_pair, extra);
                assert((q + x) * a == q * a + x * a) by (nonlinear_arith);
            },
            FavoredOutcome::B => {
                lemma_spec_leg_extra(q_pair, bundle, ask_b, params, min_order_size);
                lemma_leg_cost(q_pair, bundle, ask_b, params, min_order_size);
                lemma_add_rep(q_pair, extra);
                assert((q + x) * b == q * b + x * b) by (nonlinear_arith);
            },
            FavoredOutcome::Neutral => {},
        }
    }
}

} // verus!
