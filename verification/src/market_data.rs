//! Order book helpers (best ask, passive BUY limit derivation).
use vstd::prelude::*;

use crate::decimal::{
    dec_max, lemma_mul_rep, lemma_pow10_pos, lemma_sub_rep, lemma_trunc_identity, lemma_trunc_rep,
    lemma_trunc_val_mono, mul_fits, mul_opt, mul_rep, pow10, sub_fits, sub_opt, trunc_rep, unit,
    Dec, MAX_SCALE,
};
use crate::twap::dec_from_u64;

verus! {

/// One price level of an order book side.
#[derive(Debug, Clone, Copy)]
pub struct BookLevel {
    pub price: Dec,
    pub size: Dec,
}

/// The smallest price among the levels of positive size (the first such
/// level on ties), scanning the first `k` levels.
pub open spec fn spec_best_ask_prefix(levels: Seq<BookLevel>, k: nat) -> Option<Dec>
    decreases k,
{
    if k == 0 {
        None
    } else {
        let best = spec_best_ask_prefix(levels, (k - 1) as nat);
        let lvl = levels[k - 1];
        if lvl.size.val() > 0 {
            match best {
                None => Some(lvl.price),
                Some(b) => if b.val() <= lvl.price.val() {
                    Some(b)
                } else {
                    Some(lvl.price)
                },
            }
        } else {
            best
        }
    }
}

pub open spec fn spec_best_ask(levels: Seq<BookLevel>) -> Option<Dec> {
    spec_best_ask_prefix(levels, levels.len())
}

/// Best price to lift asks immediately (smallest ask quote).
pub fn best_ask(asks: &Vec<BookLevel>) -> (r: Option<Dec>)
    ensures
        r == spec_best_ask(asks@),
{
    let zero = Dec::zero();
    let mut best: Option<Dec> = None;
    let mut i: usize = 0;
    while i < asks.len()
        invariant
            i <= asks@.len(),
            best == spec_best_ask_prefix(asks@, i as nat),
            zero.val() == 0,
        decreases asks@.len() - i,
    {
        let lvl = asks[i];
        if lvl.size.gt(&zero) {
            best = match best {
                None => Some(lvl.price),
                Some(b) => if b.le(&lvl.price) {
                    Some(b)
                } else {
                    Some(lvl.price)
                },
            };
        }
        i = i + 1;
    }
    best
}

/// The best ask is the price of a level of positive size and no level of
/// positive size asks less; there is none exactly when no level has positive size.
pub proof fn law_best_ask_is_lowest_live_level(levels: Seq<BookLevel>, k: nat)
    requires
        k <= levels.len(),
    ensures
        spec_best_ask_prefix(levels, k) is None <==> (forall|i: int|
            0 <= i < k ==> #[trigger] levels[i].size.val() <= 0),
        spec_best_ask_prefix(levels, k) matches Some(b) ==> {
            &&& exists|i: int|
                0 <= i < k && #[trigger] levels[i].size.val() > 0 && levels[i].price == b
            &&& forall|i: int|
                0 <= i < k && #[trigger] levels[i].size.val() > 0 ==> b.val()
                    <= levels[i].price.val()
        },
    decreases k,
{
    if k > 0 {
        law_best_ask_is_lowest_live_level(levels, (k - 1) as nat);
        let best = spec_best_ask_prefix(levels, (k - 1) as nat);
        if levels[k - 1].size.val() > 0 {
            match best {
                None => {},
                Some(b) => {
                    let i0 = choose|i: int|
                        0 <= i < k - 1 && #[trigger] levels[i].size.val() > 0 && levels[i].price
                            == b;
                    assert(0 <= i0 < k && levels[i0].size.val() > 0 && levels[i0].price == b);
                },
            }
        } else {
            match best {
                None => {},
                Some(b) => {
                    let i0 = choose|i: int|
                        0 <= i < k - 1 && #[trigger] levels[i].size.val() > 0 && levels[i].price
                            == b;
                    assert(0 <= i0 < k && levels[i0].size.val() > 0 && levels[i0].price == b);
                },
            }
        }
    }
}

#[derive(Debug, Clone, Copy, PartialEq, Eq, Structural)]
pub enum PriceError {
    /// The tick size is zero or negative.
    NonPositiveTick,
    /// `best_ask - improve_ticks * tick` overflows the decimal range.
    Overflow,
}

/// The largest multiple of `tick` that is at most `c`, when `c` is at least
/// one tick: `t` is `c` truncated to the tick's places, and the mantissa of
/// the result is the mantissa of `t` rounded down to a multiple of the
/// tick's mantissa. A `c` too large to be written with the tick's places
/// has fewer places than the tick and is kept as it is.
pub open spec fn snap_down(c: Dec, tick: Dec) -> Dec {
    let t = trunc_rep(c, tick.sc());
    if t.sc() == tick.sc() {
        Dec::from_parts_spec((t.mant() / tick.mant()) * tick.mant(), tick.sc())
    } else {
        t
    }
}

/// See [`passive_buy_limit`].
pub open spec fn spec_passive_buy_limit(best_ask: Dec, tick: Dec, improve_ticks: u32) -> Result<
    Dec,
    PriceError,
> {
    if tick.val() <= 0 {
        Err(PriceError::NonPositiveTick)
    } else {
        match mul_opt(tick, dec_from_u64(improve_ticks as u64)) {
            None => Err(PriceError::Overflow),
            Some(step) => match sub_opt(best_ask, step) {
                None => Err(PriceError::Overflow),
                Some(raw) => Ok(snap_down(dec_max(raw, tick), tick)),
            },
        }
    }
}

/// Facts on snapping a price `c` of at least one tick down to the tick grid.
proof fn lemma_snap_down(c: Dec, tick: Dec)
    requires
        c.wf(),
        tick.wf(),
        tick.val() > 0,
        c.val() >= tick.val(),
    ensures
        ({
            let px = snap_down(c, tick);
            &&& px.wf()
            &&& px.sc() <= tick.sc()
            &&& tick.val() <= px.val() <= c.val()
            &&& c.val() - px.val() < tick.val()
            &&& px.sc() == tick.sc() ==> px.val() % tick.val() == 0
            &&& px.sc() < tick.sc() ==> px.val() == c.val()
            &&& tick.mant() == 1 ==> px.val() % tick.val() == 0
        }),
{
    let s = tick.sc();
    let t = trunc_rep(c, s);
    lemma_trunc_rep(c, s);
    if t.sc() < s {
        assert(c.sc() < s);
        lemma_trunc_identity(c, s);
        if tick.mant() == 1 {
            let k = t.sc();
            crate::decimal::lemma_pow10_add((s - k) as nat, (MAX_SCALE - s) as nat);
            assert((s - k) as nat + (MAX_SCALE - s) as nat == (MAX_SCALE - k) as nat);
            let a = pow10((s - k) as nat) as int;
            let b = pow10((MAX_SCALE - s) as nat) as int;
            assert(tick.val() == b);
            assert(t.val() == (t.mant() * a) * b) by (nonlinear_arith)
                requires
                    t.val() == t.mant() * pow10((MAX_SCALE - k) as nat),
                    pow10((MAX_SCALE - k) as nat) == a * b,
            ;
            vstd::arithmetic::div_mod::lemma_mod_multiples_basic(t.mant() * a, b);
        }
    }
    if t.sc() == s {
        lemma_trunc_identity(tick, s);
        lemma_trunc_val_mono(tick.val(), c.val(), s);
        crate::decimal::lemma_trunc_val_le(c.val(), s);
        let e = pow10((MAX_SCALE - s) as nat) as int;
        lemma_pow10_pos((MAX_SCALE - s) as nat);
        let tm = tick.mant();
        let m = t.mant();
        assert(tick.val() == tm * e);
        assert(t.val() == m * e);
        assert(tm > 0) by (nonlinear_arith)
            requires
                tm * e > 0,
                e >= 1,
        ;
        assert(m >= tm) by (nonlinear_arith)
            requires
                m * e >= tm * e,
                e >= 1,
        ;
        let k = m / tm;
        vstd::arithmetic::div_mod::lemma_fundamental_div_mod(m, tm);
        vstd::arithmetic::div_mod::lemma_mod_pos_bound(m, tm);
        assert(k >= 1) by (nonlinear_arith)
            requires
                m == tm * k + m % tm,
                0 <= m % tm < tm,
                m >= tm,
        ;
        let pm = k * tm;
        assert(tm <= pm <= m) by (nonlinear_arith)
            requires
                m == tm * k + m % tm,
                0 <= m % tm,
                k >= 1,
                tm > 0,
                pm == k * tm,
        ;
        Dec::lemma_from_parts(pm, s);
        let px = Dec::from_parts_spec(pm, s);
        assert(px.val() == pm * e);
        assert(px.val() == k * tick.val()) by (nonlinear_arith)
            requires
                px.val() == pm * e,
                pm == k * tm,
                tick.val() == tm * e,
        ;
        vstd::arithmetic::div_mod::lemma_mod_multiples_basic(k, tick.val());
        assert(tick.val() <= px.val() <= t.val()) by (nonlinear_arith)
            requires
                tm <= pm <= m,
                e >= 1,
                px.val() == pm * e,
                tick.val() == tm * e,
                t.val() == m * e,
        ;
        assert(t.val() - px.val() <= tick.val() - e) by (nonlinear_arith)
            requires
                m - pm == m % tm,
                m % tm <= tm - 1,
                e >= 1,
                px.val() == pm * e,
                tick.val() == tm * e,
                t.val() == m * e,
        ;
    }
}

/// BUY limit price snapped to tick, optionally stepping inside the spread by whole ticks.
///
/// The price `best_ask - improve_ticks * tick`, raised to one tick when
/// lower, is snapped down to the largest multiple of the tick that does not
/// exceed it, written with the tick's decimal places. A price too large to
/// be written with the tick's places already has fewer places than the tick
/// and is returned as it is.
pub fn passive_buy_limit(best_ask: Dec, tick: Dec, improve_ticks: u32) -> (r: Result<
    Dec,
    PriceError,
>)
    ensures
        r == spec_passive_buy_limit(best_ask, tick, improve_ticks),
{
    let zero = Dec::zero();
    if tick.le(&zero) {
        return Err(PriceError::NonPositiveTick);
    }
    let decimals = tick.scale();
    proof {
        use_type_invariant(&tick);
        use_type_invariant(&best_ask);
    }
    let n = Dec::from_u64(improve_ticks as u64);
    proof {
        Dec::lemma_from_parts(improve_ticks as int, 0);
        Dec::lemma_parts_determine(n, dec_from_u64(improve_ticks as u64));
    }
    let step = match tick.checked_mul(n) {
        Some(x) => x,
        None => return Err(PriceError::Overflow),
    };
    let raw = match best_ask.checked_sub(step) {
        Some(x) => x,
        None => return Err(PriceError::Overflow),
    };
    let clamped = raw.max(tick);
    let t = clamped.trunc_with_scale(decimals);
    if t.scale() != decimals {
        proof {
            use_type_invariant(&t);
        }
        return Ok(t);
    }
    proof {
        use_type_invariant(&raw);
        use_type_invariant(&clamped);
        use_type_invariant(&t);
        lemma_snap_down(clamped, tick);
        let e = pow10((MAX_SCALE - tick.sc()) as nat) as int;
        lemma_pow10_pos((MAX_SCALE - tick.sc()) as nat);
        lemma_trunc_identity(tick, tick.sc());
        lemma_trunc_val_mono(tick.val(), clamped.val(), tick.sc());
        assert(tick.mant() > 0) by (nonlinear_arith)
            requires
                tick.mant() * e > 0,
                e >= 1,
        ;
        assert(t.mant() >= tick.mant()) by (nonlinear_arith)
            requires
                t.mant() * e >= tick.mant() * e,
                e >= 1,
        ;
    }
    let tm = tick.mantissa() as u128;
    let k = (t.mantissa() as u128) / tm;
    proof {
        vstd::arithmetic::div_mod::lemma_fundamental_div_mod(t.mant(), tick.mant());
        vstd::arithmetic::div_mod::lemma_mod_pos_bound(t.mant(), tick.mant());
        assert(k * tm <= t.mant()) by (nonlinear_arith)
            requires
                t.mant() == tick.mant() * k + t.mant() % tick.mant(),
                0 <= t.mant() % tick.mant(),
                tm == tick.mant(),
        ;
    }
    let pm = (k * tm) as i128;
    proof {
        assert(k >= 1) by (nonlinear_arith)
            requires
                t.mant() == tick.mant() * k + t.mant() % tick.mant(),
                t.mant() % tick.mant() < tick.mant(),
                t.mant() >= tick.mant(),
        ;
        assert(pm >= tm) by (nonlinear_arith)
            requires
                k >= 1,
                tm > 0,
                pm == k * tm,
        ;
        assert(pm == (t.mant() / tick.mant()) * tick.mant());
    }
    match Dec::from_parts(pm, decimals) {
        Some(px) => {
            proof {
                Dec::lemma_from_parts(pm as int, decimals as nat);
                Dec::lemma_parts_determine(px, Dec::from_parts_spec(pm as int, decimals as nat));
            }
            Ok(px)
        },
        None => Err(PriceError::Overflow),
    }
}

/// Where `improve_ticks * tick` and `best_ask - improve_ticks * tick` are
/// exact, a limit price is at least one tick, and is the largest multiple of
/// the tick, written with the tick's places, not above `best_ask -
/// improve_ticks * tick` when that is a tick or more, and exactly one tick
/// otherwise. The one exception is a price too large to be written with the
/// tick's places: it is the stepped-in price itself, with fewer places than
/// the tick, and so on the grid of a tick of the form `10^-k`.
pub proof fn law_limit_price_on_tick_grid(best_ask: Dec, tick: Dec, improve_ticks: u32)
    requires
        best_ask.wf(),
        tick.wf(),
        mul_fits(tick, dec_from_u64(improve_ticks as u64)),
        sub_fits(best_ask, mul_rep(tick, dec_from_u64(improve_ticks as u64))),
    ensures
        spec_passive_buy_limit(best_ask, tick, improve_ticks) matches Ok(px) ==> {
            let raw = best_ask.val() - improve_ticks * tick.val();
            &&& px.sc() <= tick.sc()
            &&& (px.sc() == tick.sc() || tick.mant() == 1) ==> px.val() % tick.val() == 0
            &&& px.sc() < tick.sc() ==> px.val() == raw
            &&& tick.val() <= px.val()
            &&& raw >= tick.val() ==> px.val() <= raw && raw - px.val() < tick.val()
            &&& raw < tick.val() ==> px.val() == tick.val()
        },
{
    if spec_passive_buy_limit(best_ask, tick, improve_ticks) is Ok {
        let n = dec_from_u64(improve_ticks as u64);
        Dec::lemma_from_parts(improve_ticks as int, 0);
        let step = mul_opt(tick, n)->0;
        lemma_mul_rep(tick, n);
        let raw = sub_opt(best_ask, step)->0;
        lemma_sub_rep(best_ask, step);
        let u = unit();
        lemma_pow10_pos(MAX_SCALE as nat);
        assert(n.val() == improve_ticks * u);
        assert(step.val() * u == tick.val() * (improve_ticks * u));
        assert(step.val() == improve_ticks * tick.val()) by (nonlinear_arith)
            requires
                step.val() * u == tick.val() * (improve_ticks * u),
                u >= 1,
        ;
        lemma_snap_down(dec_max(raw, tick), tick);
        assert(raw.val() == best_ask.val() - improve_ticks * tick.val());
        if raw.val() < tick.val() {
            assert(trunc_rep(tick, tick.sc()) == tick);
            let tm = tick.mant();
            let e = pow10((MAX_SCALE - tick.sc()) as nat) as int;
            lemma_pow10_pos((MAX_SCALE - tick.sc()) as nat);
            assert(tm > 0) by (nonlinear_arith)
                requires
                    tm * e > 0,
                    e >= 1,
            ;
            assert((tm / tm) * tm == tm) by (nonlinear_arith)
                requires
                    tm > 0,
            ;
            Dec::lemma_from_parts(tm, tick.sc());
            assert(snap_down(tick, tick).sc() == tick.sc());
        }
    }
}

} // verus!
