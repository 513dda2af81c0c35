//! Fixed-point decimal numbers with the representation of `rust_decimal`
//! (a 96-bit signed mantissa and a decimal scale of at most 28).
//!
//! Every arithmetic step is carried out by `rust_decimal`. When the exact
//! result is representable it is what comes back; otherwise `rust_decimal`
//! rounds it to the precision that 96 bits allow, and `None` reports only an
//! overflow of the whole range. The rounded results are named, not spelled out.
//!
//! A value `d` stands for `d.mant() / 10^d.sc()`. The spec function `val`
//! expresses it as an integer number of units of `10^-28`, the finest step
//! that any representable decimal can have.
use vstd::prelude::*;

use rust_decimal::Decimal;

verus! {

/// `2^96`: every mantissa is strictly smaller than this in magnitude.
pub const MANTISSA_LIMIT: i128 = 0x1_0000_0000_0000_0000_0000_0000;

/// Largest scale (number of decimal places) of a decimal.
pub const MAX_SCALE: u32 = 28;

pub open spec fn pow10(n: nat) -> nat
    decreases n,
{
    if n == 0 {
        1
    } else {
        10 * pow10((n - 1) as nat)
    }
}

pub open spec fn abs(x: int) -> nat {
    if x < 0 {
        (-x) as nat
    } else {
        x as nat
    }
}

pub open spec fn in_mantissa_range(m: int) -> bool {
    -MANTISSA_LIMIT < m < MANTISSA_LIMIT
}

/// Division of integers rounding toward zero (as Rust's `/` on integers).
pub open spec fn tdiv(x: int, d: int) -> int {
    if x >= 0 {
        x / d
    } else {
        -((-x) / d)
    }
}

pub proof fn lemma_pow10_pos(n: nat)
    ensures
        pow10(n) >= 1,
    decreases n,
{
    if n > 0 {
        lemma_pow10_pos((n - 1) as nat);
    }
}

pub proof fn lemma_pow10_add(a: nat, b: nat)
    ensures
        pow10(a + b) == pow10(a) * pow10(b),
    decreases a,
{
    if a > 0 {
        lemma_pow10_add((a - 1) as nat, b);
        let x = pow10((a - 1) as nat) as int;
        let y = pow10(b) as int;
        assert(pow10(a + b) == 10 * pow10((a - 1 + b) as nat));
        assert(10 * (x * y) == (10 * x) * y) by (nonlinear_arith);
    } else {
        assert(pow10(a) == 1);
    }
}

/// A decimal number: `mantissa / 10^scale`.
#[derive(Clone, Copy, Debug)]
pub struct Dec {
    pub(crate) mantissa: i128,
    pub(crate) scale: u32,
}

impl Dec {
    /// The mantissa, as an integer.
    pub closed spec fn mant(self) -> int {
        self.mantissa as int
    }

    /// The scale: the number of decimal places.
    pub closed spec fn sc(self) -> nat {
        self.scale as nat
    }

    #[verifier::type_invariant]
    pub open spec fn wf(self) -> bool {
        &&& self.sc() <= MAX_SCALE
        &&& in_mantissa_range(self.mant())
    }

    /// The value in units of `10^-28`.
    pub open spec fn val(self) -> int {
        self.mant() * pow10((MAX_SCALE - self.sc()) as nat)
    }

    /// The decimal with the given mantissa and scale.
    pub closed spec fn from_parts_spec(m: int, s: nat) -> Dec {
        Dec { mantissa: m as i128, scale: s as u32 }
    }

    pub proof fn lemma_from_parts(m: int, s: nat)
        requires
            in_mantissa_range(m),
            s <= MAX_SCALE,
        ensures
            Self::from_parts_spec(m, s).mant() == m,
            Self::from_parts_spec(m, s).sc() == s,
            Self::from_parts_spec(m, s).wf(),
    {
    }

    pub proof fn lemma_parts_determine(a: Dec, b: Dec)
        requires
            a.mant() == b.mant(),
            a.sc() == b.sc(),
        ensures
            a == b,
    {
    }
}


pub open spec fn max_nat(a: nat, b: nat) -> nat {
    if a >= b {
        a
    } else {
        b
    }
}

/// Mantissa of `d` written at the (larger or equal) scale `s`.
pub open spec fn aligned(d: Dec, s: nat) -> int {
    d.mant() * pow10((s - d.sc()) as nat)
}

/// The exact sum is representable at the larger of the two scales.
pub open spec fn add_fits(a: Dec, b: Dec) -> bool {
    let s = max_nat(a.sc(), b.sc());
    a.mant() == 0 || b.mant() == 0 || in_mantissa_range(aligned(a, s) + aligned(b, s))
}

/// The representation of `a + b` when it fits: a zero operand gives the
/// other operand back unchanged, otherwise the sum at the larger scale.
pub open spec fn add_rep(a: Dec, b: Dec) -> Dec {
    let s = max_nat(a.sc(), b.sc());
    if a.mant() == 0 {
        b
    } else if b.mant() == 0 {
        a
    } else {
        Dec::from_parts_spec(aligned(a, s) + aligned(b, s), s)
    }
}

/// The exact difference is representable at the larger of the two scales.
pub open spec fn sub_fits(a: Dec, b: Dec) -> bool {
    let s = max_nat(a.sc(), b.sc());
    a.mant() == 0 || b.mant() == 0 || in_mantissa_range(aligned(a, s) - aligned(b, s))
}

/// The representation of `a - b` when it fits.
pub open spec fn sub_rep(a: Dec, b: Dec) -> Dec {
    let s = max_nat(a.sc(), b.sc());
    if a.mant() == 0 {
        Dec::from_parts_spec(-b.mant(), b.sc())
    } else if b.mant() == 0 {
        a
    } else {
        Dec::from_parts_spec(aligned(a, s) - aligned(b, s), s)
    }
}

/// The exact product is representable: its scale is at most 28 and its
/// mantissa fits in 96 bits.
pub open spec fn mul_fits(a: Dec, b: Dec) -> bool {
    a.mant() == 0 || b.mant() == 0 || (a.sc() + b.sc() <= MAX_SCALE && in_mantissa_range(
        a.mant() * b.mant(),
    ))
}

/// The representation of `a * b` when it fits: zero (at scale 0) when an
/// operand is zero, otherwise the product of the mantissas at the sum of the scales.
pub open spec fn mul_rep(a: Dec, b: Dec) -> Dec {
    if a.mant() == 0 || b.mant() == 0 {
        Dec::from_parts_spec(0, 0)
    } else {
        Dec::from_parts_spec(a.mant() * b.mant(), a.sc() + b.sc())
    }
}

/// Name for what `rust_decimal::Decimal::checked_add` returns on two
/// decimals: the sum, rounded when it is not representable exactly, or
/// `None` on overflow.
pub uninterp spec fn checked_sum(a: Dec, b: Dec) -> Option<Dec>;

/// Name for what `rust_decimal::Decimal::checked_sub` returns on two decimals.
pub uninterp spec fn checked_difference(a: Dec, b: Dec) -> Option<Dec>;

/// Name for what `rust_decimal::Decimal::checked_mul` returns on two decimals.
pub uninterp spec fn checked_product(a: Dec, b: Dec) -> Option<Dec>;

/// The result of an operation, when there is one, is a valid decimal.
pub open spec fn opt_wf(r: Option<Dec>) -> bool {
    r matches Some(c) ==> c.wf()
}

/// One unit in the last place of `d`, in units of `10^-28`.
pub open spec fn ulp(d: Dec) -> int {
    pow10((MAX_SCALE - d.sc()) as nat) as int
}

/// `c` is within one unit in its last place of the exact product `a * b`.
pub open spec fn product_is_close(a: Dec, b: Dec, c: Dec) -> bool {
    abs(c.val() * unit() - a.val() * b.val()) <= ulp(c) * unit()
}

/// `q` is within one unit in its last place of the exact quotient `a / b`:
/// `|q * b - a| <= |b| * ulp(q)`.
pub open spec fn quotient_is_close(a: Dec, b: Dec, q: Dec) -> bool {
    abs(q.val() * b.val() - a.val() * unit()) <= abs(b.val()) * ulp(q)
}

/// `r` when it is `None` or a valid decimal (which `rust_decimal` guarantees).
pub open spec fn valid_or_none(r: Option<Dec>) -> Option<Dec> {
    if opt_wf(r) {
        r
    } else {
        None
    }
}

/// `a + b` as `Decimal::checked_add` gives it: the exact sum when it is
/// representable at the larger scale, else the rounded sum (or `None`).
pub open spec fn add_opt(a: Dec, b: Dec) -> Option<Dec> {
    if add_fits(a, b) {
        Some(add_rep(a, b))
    } else {
        valid_or_none(checked_sum(a, b))
    }
}

/// `a - b` as `Decimal::checked_sub` gives it.
pub open spec fn sub_opt(a: Dec, b: Dec) -> Option<Dec> {
    if sub_fits(a, b) {
        Some(sub_rep(a, b))
    } else {
        valid_or_none(checked_difference(a, b))
    }
}

/// `a * b` as `Decimal::checked_mul` gives it.
pub open spec fn mul_opt(a: Dec, b: Dec) -> Option<Dec> {
    if mul_fits(a, b) {
        Some(mul_rep(a, b))
    } else {
        match checked_product(a, b) {
            Some(c) => if c.wf() && product_is_close(a, b, c) {
                Some(c)
            } else {
                None
            },
            None => None,
        }
    }
}

pub open spec fn dec_zero() -> Dec {
    Dec::from_parts_spec(0, 0)
}

pub open spec fn dec_one() -> Dec {
    Dec::from_parts_spec(1, 0)
}

/// `Decimal::max`: the larger value, the first operand when equal.
pub open spec fn dec_max(a: Dec, b: Dec) -> Dec {
    if a.val() < b.val() {
        b
    } else {
        a
    }
}

/// `Decimal::min`: the smaller value, the first operand when equal.
pub open spec fn dec_min(a: Dec, b: Dec) -> Dec {
    if a.val() > b.val() {
        b
    } else {
        a
    }
}

/// One whole unit, in units of `10^-28`.
pub open spec fn unit() -> int {
    pow10(MAX_SCALE as nat) as int
}

/// How many times `m` can be multiplied by ten, at most `room` times, and
/// still stay below `2^96`.
pub open spec fn upscale_steps(m: nat, room: nat) -> nat
    decreases room,
{
    if room == 0 || m * 10 >= MANTISSA_LIMIT {
        0
    } else {
        1 + upscale_steps(m * 10, (room - 1) as nat)
    }
}

/// The representation of `a` truncated (toward zero) to `s` decimal places.
/// A value with fewer places is brought up to scale `s` as far as its
/// mantissa allows; the value itself is then unchanged.
pub open spec fn trunc_rep(a: Dec, s: nat) -> Dec {
    if a.sc() == s {
        a
    } else if a.mant() == 0 {
        Dec::from_parts_spec(0, s)
    } else if a.sc() > s {
        Dec::from_parts_spec(tdiv(a.mant(), pow10((a.sc() - s) as nat) as int), s)
    } else {
        let k = upscale_steps(abs(a.mant()), (s - a.sc()) as nat);
        Dec::from_parts_spec(a.mant() * pow10(k), a.sc() + k)
    }
}

/// `v` truncated toward zero to `s` decimal places, in units of `10^-28`.
pub open spec fn trunc_val(v: int, s: nat) -> int {
    tdiv(v, pow10((MAX_SCALE - s) as nat) as int) * pow10((MAX_SCALE - s) as nat)
}

pub proof fn lemma_aligned_val(d: Dec, s: nat)
    requires
        d.sc() <= s <= MAX_SCALE,
    ensures
        aligned(d, s) * pow10((MAX_SCALE - s) as nat) == d.val(),
{
    lemma_pow10_add((s - d.sc()) as nat, (MAX_SCALE - s) as nat);
    assert((s - d.sc()) as nat + (MAX_SCALE - s) as nat == (MAX_SCALE - d.sc()) as nat);
    let m = d.mant();
    let x = pow10((s - d.sc()) as nat) as int;
    let y = pow10((MAX_SCALE - s) as nat) as int;
    assert((m * x) * y == m * (x * y)) by (nonlinear_arith);
}

pub proof fn lemma_add_rep(a: Dec, b: Dec)
    requires
        a.wf(),
        b.wf(),
        add_fits(a, b),
    ensures
        add_rep(a, b).wf(),
        add_rep(a, b).val() == a.val() + b.val(),
        add_rep(a, b).sc() <= max_nat(a.sc(), b.sc()),
{
    let s = max_nat(a.sc(), b.sc());
    if a.mant() == 0 {
        assert(a.val() == 0);
    } else if b.mant() == 0 {
        assert(b.val() == 0);
    } else {
        let m = aligned(a, s) + aligned(b, s);
        Dec::lemma_from_parts(m, s);
        lemma_aligned_val(a, s);
        lemma_aligned_val(b, s);
        let p = pow10((MAX_SCALE - s) as nat) as int;
        assert((aligned(a, s) + aligned(b, s)) * p == aligned(a, s) * p + aligned(b, s) * p)
            by (nonlinear_arith);
    }
}

pub proof fn lemma_sub_rep(a: Dec, b: Dec)
    requires
        a.wf(),
        b.wf(),
        sub_fits(a, b),
    ensures
        sub_rep(a, b).wf(),
        sub_rep(a, b).val() == a.val() - b.val(),
        sub_rep(a, b).sc() <= max_nat(a.sc(), b.sc()),
{
    let s = max_nat(a.sc(), b.sc());
    if a.mant() == 0 {
        assert(a.val() == 0);
        Dec::lemma_from_parts(-b.mant(), b.sc());
        let p = pow10((MAX_SCALE - b.sc()) as nat) as int;
        assert((-b.mant()) * p == -(b.mant() * p)) by (nonlinear_arith);
    } else if b.mant() == 0 {
        assert(b.val() == 0);
    } else {
        let m = aligned(a, s) - aligned(b, s);
        Dec::lemma_from_parts(m, s);
        lemma_aligned_val(a, s);
        lemma_aligned_val(b, s);
        let p = pow10((MAX_SCALE - s) as nat) as int;
        assert((aligned(a, s) - aligned(b, s)) * p == aligned(a, s) * p - aligned(b, s) * p)
            by (nonlinear_arith);
    }
}

pub proof fn lemma_mul_rep(a: Dec, b: Dec)
    requires
        a.wf(),
        b.wf(),
        mul_fits(a, b),
    ensures
        mul_rep(a, b).wf(),
        mul_rep(a, b).val() * pow10(MAX_SCALE as nat) == a.val() * b.val(),
        mul_rep(a, b).sc() <= a.sc() + b.sc(),
{
    if a.mant() == 0 || b.mant() == 0 {
        Dec::lemma_from_parts(0, 0);
        assert(a.val() == 0 || b.val() == 0);
        assert(a.val() * b.val() == 0) by (nonlinear_arith)
            requires
                a.val() == 0 || b.val() == 0,
        ;
    } else {
        let s = a.sc() + b.sc();
        Dec::lemma_from_parts(a.mant() * b.mant(), s);
        let pa = pow10((MAX_SCALE - a.sc()) as nat) as int;
        let pb = pow10((MAX_SCALE - b.sc()) as nat) as int;
        let pr = pow10((MAX_SCALE - s) as nat) as int;
        let p28 = pow10(MAX_SCALE as nat) as int;
        lemma_pow10_add((MAX_SCALE - a.sc()) as nat, (MAX_SCALE - b.sc()) as nat);
        lemma_pow10_add((MAX_SCALE - s) as nat, MAX_SCALE as nat);
        assert((MAX_SCALE - a.sc()) as nat + (MAX_SCALE - b.sc()) as nat == (MAX_SCALE - s) as nat
            + MAX_SCALE as nat);
        assert(pa * pb == pr * p28);
        let ma = a.mant();
        let mb = b.mant();
        assert((ma * mb * pr) * p28 == (ma * pa) * (mb * pb)) by (nonlinear_arith)
            requires
                pa * pb == pr * p28,
        ;
    }
}

pub proof fn lemma_upscale_steps(m: nat, room: nat)
    requires
        m < MANTISSA_LIMIT,
    ensures
        upscale_steps(m, room) <= room,
        m * pow10(upscale_steps(m, room)) < MANTISSA_LIMIT,
    decreases room,
{
    if room == 0 || m * 10 >= MANTISSA_LIMIT {
        assert(pow10(0) == 1);
        assert(m * 1 == m);
    } else {
        let k = upscale_steps(m * 10, (room - 1) as nat);
        lemma_upscale_steps(m * 10, (room - 1) as nat);
        assert(pow10(k + 1) == 10 * pow10(k));
        assert(m * (10 * pow10(k)) == (m * 10) * pow10(k)) by (nonlinear_arith);
    }
}

pub proof fn lemma_tdiv_cancel(x: int, c: int, d: int)
    requires
        c > 0,
        d > 0,
    ensures
        tdiv(x * c, d * c) == tdiv(x, d),
{
    if x >= 0 {
        assert(x * c >= 0) by (nonlinear_arith)
            requires
                x >= 0,
                c > 0,
        ;
        vstd::arithmetic::div_mod::lemma_div_denominator(x * c, c, d);
        assert(c * d == d * c) by (nonlinear_arith);
        vstd::arithmetic::div_mod::lemma_div_multiples_vanish(x, c);
        assert(c * x == x * c) by (nonlinear_arith);
    } else {
        assert(x * c < 0) by (nonlinear_arith)
            requires
                x < 0,
                c > 0,
        ;
        assert((-x) * c == -(x * c)) by (nonlinear_arith);
        vstd::arithmetic::div_mod::lemma_div_denominator((-x) * c, c, d);
        assert(c * d == d * c) by (nonlinear_arith);
        vstd::arithmetic::div_mod::lemma_div_multiples_vanish(-x, c);
        assert(c * (-x) == (-x) * c) by (nonlinear_arith);
    }
}

pub proof fn lemma_tdiv_exact(q: int, d: int)
    requires
        d > 0,
    ensures
        tdiv(q * d, d) == q,
{
    lemma_tdiv_cancel(q, d, 1);
    assert(1 * d == d);
    assert(tdiv(q, 1) == q);
}

pub proof fn lemma_trunc_rep(a: Dec, s: nat)
    requires
        a.wf(),
        s <= MAX_SCALE,
    ensures
        trunc_rep(a, s).wf(),
        trunc_rep(a, s).sc() <= s,
        a.sc() >= s ==> trunc_rep(a, s).sc() == s,
        trunc_rep(a, s).val() == trunc_val(a.val(), s),
{
    let r = trunc_rep(a, s);
    let ps = pow10((MAX_SCALE - s) as nat) as int;
    lemma_pow10_pos((MAX_SCALE - s) as nat);
    if a.sc() == s {
        lemma_tdiv_exact(a.mant(), ps);
    } else if a.mant() == 0 {
        Dec::lemma_from_parts(0, s);
        assert(a.val() == 0);
        assert(tdiv(0, ps) == 0);
    } else if a.sc() > s {
        let d = pow10((a.sc() - s) as nat) as int;
        let c = pow10((MAX_SCALE - a.sc()) as nat) as int;
        lemma_pow10_pos((a.sc() - s) as nat);
        lemma_pow10_pos((MAX_SCALE - a.sc()) as nat);
        lemma_pow10_add((a.sc() - s) as nat, (MAX_SCALE - a.sc()) as nat);
        assert((a.sc() - s) as nat + (MAX_SCALE - a.sc()) as nat == (MAX_SCALE - s) as nat);
        assert(ps == d * c);
        lemma_tdiv_cancel(a.mant(), c, d);
        let q = tdiv(a.mant(), d);
        // |q| <= |m|
        if a.mant() >= 0 {
            assert(a.mant() / d <= a.mant()) by {
                vstd::arithmetic::div_mod::lemma_div_is_ordered_by_denominator(a.mant(), 1, d);
            }
            assert(a.mant() / d >= 0) by {
                vstd::arithmetic::div_mod::lemma_div_pos_is_pos(a.mant(), d);
            }
        } else {
            assert((-a.mant()) / d <= -a.mant()) by {
                vstd::arithmetic::div_mod::lemma_div_is_ordered_by_denominator(-a.mant(), 1, d);
            }
            assert((-a.mant()) / d >= 0) by {
                vstd::arithmetic::div_mod::lemma_div_pos_is_pos(-a.mant(), d);
            }
        }
        Dec::lemma_from_parts(q, s);
    } else {
        let k = upscale_steps(abs(a.mant()), (s - a.sc()) as nat);
        lemma_upscale_steps(abs(a.mant()), (s - a.sc()) as nat);
        let pk = pow10(k) as int;
        lemma_pow10_pos(k);
        let m2 = a.mant() * pk;
        assert(abs(m2) == abs(a.mant()) * pk) by (nonlinear_arith)
            requires
                m2 == a.mant() * pk,
                pk >= 1,
        ;
        Dec::lemma_from_parts(m2, a.sc() + k);
        // value unchanged
        let c = pow10((MAX_SCALE - a.sc() - k) as nat) as int;
        lemma_pow10_add(k, (MAX_SCALE - a.sc() - k) as nat);
        assert(k + (MAX_SCALE - a.sc() - k) as nat == (MAX_SCALE - a.sc()) as nat);
        assert(m2 * c == a.mant() * (pk * c)) by (nonlinear_arith)
            requires
                m2 == a.mant() * pk,
        ;
        // the value is a multiple of 10^(28 - s)
        let e = pow10((s - a.sc()) as nat) as int;
        lemma_pow10_add((s - a.sc()) as nat, (MAX_SCALE - s) as nat);
        assert((s - a.sc()) as nat + (MAX_SCALE - s) as nat == (MAX_SCALE - a.sc()) as nat);
        assert(a.val() == (a.mant() * e) * ps) by (nonlinear_arith)
            requires
                a.val() == a.mant() * (e * ps),
        ;
        lemma_tdiv_exact(a.mant() * e, ps);
    }
}


pub proof fn lemma_trunc_val_nonneg(v: int, s: nat)
    requires
        v >= 0,
        s <= MAX_SCALE,
    ensures
        0 <= trunc_val(v, s) <= v,
{
    let p = pow10((MAX_SCALE - s) as nat) as int;
    lemma_pow10_pos((MAX_SCALE - s) as nat);
    vstd::arithmetic::div_mod::lemma_div_pos_is_pos(v, p);
    vstd::arithmetic::div_mod::lemma_fundamental_div_mod(v, p);
    vstd::arithmetic::div_mod::lemma_mod_pos_bound(v, p);
    assert((v / p) * p >= 0) by (nonlinear_arith)
        requires
            v / p >= 0,
            p >= 1,
    ;
    assert(p * (v / p) == (v / p) * p) by (nonlinear_arith);
}

pub proof fn lemma_trunc_identity(x: Dec, s: nat)
    requires
        x.wf(),
        x.sc() <= s <= MAX_SCALE,
    ensures
        trunc_val(x.val(), s) == x.val(),
{
    let e = pow10((s - x.sc()) as nat) as int;
    let p = pow10((MAX_SCALE - s) as nat) as int;
    lemma_pow10_add((s - x.sc()) as nat, (MAX_SCALE - s) as nat);
    assert((s - x.sc()) as nat + (MAX_SCALE - s) as nat == (MAX_SCALE - x.sc()) as nat);
    lemma_pow10_pos((MAX_SCALE - s) as nat);
    assert(x.val() == (x.mant() * e) * p) by (nonlinear_arith)
        requires
            x.val() == x.mant() * (e * p),
    ;
    lemma_tdiv_exact(x.mant() * e, p);
}

pub proof fn lemma_trunc_val_mono(x: int, y: int, s: nat)
    requires
        0 <= x <= y,
        s <= MAX_SCALE,
    ensures
        trunc_val(x, s) <= trunc_val(y, s),
{
    let p = pow10((MAX_SCALE - s) as nat) as int;
    lemma_pow10_pos((MAX_SCALE - s) as nat);
    vstd::arithmetic::div_mod::lemma_div_is_ordered(x, y, p);
    vstd::arithmetic::div_mod::lemma_div_pos_is_pos(x, p);
    let a = x / p;
    let b = y / p;
    assert(a * p <= b * p) by (nonlinear_arith)
        requires
            a <= b,
            p >= 1,
    ;
}

pub proof fn lemma_trunc_val_le(v: int, s: nat)
    requires
        v >= 0,
        s <= MAX_SCALE,
    ensures
        trunc_val(v, s) <= v,
        v - trunc_val(v, s) < pow10((MAX_SCALE - s) as nat),
{
    lemma_trunc_val_nonneg(v, s);
    let p = pow10((MAX_SCALE - s) as nat) as int;
    lemma_pow10_pos((MAX_SCALE - s) as nat);
    vstd::arithmetic::div_mod::lemma_fundamental_div_mod(v, p);
    vstd::arithmetic::div_mod::lemma_mod_pos_bound(v, p);
    assert((v / p) * p == p * (v / p)) by (nonlinear_arith);
}

/// Results of the arithmetic on valid decimals are valid decimals.
pub proof fn lemma_opt_wf(a: Dec, b: Dec)
    requires
        a.wf(),
        b.wf(),
    ensures
        opt_wf(add_opt(a, b)),
        opt_wf(sub_opt(a, b)),
        opt_wf(mul_opt(a, b)),
        mul_opt(a, b) matches Some(c) ==> product_is_close(a, b, c),
{
    if add_fits(a, b) {
        lemma_add_rep(a, b);
    }
    if sub_fits(a, b) {
        lemma_sub_rep(a, b);
    }
    if mul_fits(a, b) {
        lemma_mul_rep(a, b);
        lemma_pow10_pos((MAX_SCALE - mul_rep(a, b).sc()) as nat);
        lemma_pow10_pos(MAX_SCALE as nat);
        assert(ulp(mul_rep(a, b)) * unit() >= 0) by (nonlinear_arith)
            requires
                ulp(mul_rep(a, b)) >= 1,
                unit() >= 1,
        ;
    }
}

/// Name for what `rust_decimal::Decimal::checked_div` returns on two
/// decimals (a quotient rounded to the precision that 96 bits allow, or
/// `None` on division by zero or overflow).
pub uninterp spec fn quotient(a: Dec, b: Dec) -> Option<Dec>;

/// The quotient when it is a valid decimal within one unit in its last
/// place of the exact quotient (both of which `checked_div` guarantees).
pub open spec fn quotient_wf(a: Dec, b: Dec) -> Option<Dec> {
    match quotient(a, b) {
        Some(q) => if q.wf() && quotient_is_close(a, b, q) {
            Some(q)
        } else {
            None
        },
        None => None,
    }
}

/// `rust_decimal::Decimal::checked_add`; its result is named `checked_sum`.
/// Claimed besides: when the exact sum fits in 96 bits at the larger of the
/// two scales, the result is that exact sum at that scale (an operand equal
/// to zero gives the other operand back unchanged); a result is a valid decimal.
#[verifier::external_body]
fn rd_checked_add(a: Dec, b: Dec) -> (r: Option<Dec>)
    requires
        a.wf(),
        b.wf(),
    ensures
        r == checked_sum(a, b),
        add_fits(a, b) ==> r == Some(add_rep(a, b)),
        opt_wf(r),
{
    match Decimal::from_i128_with_scale(a.mantissa, a.scale).checked_add(
        Decimal::from_i128_with_scale(b.mantissa, b.scale),
    ) {
        Some(x) => Some(Dec { mantissa: x.mantissa(), scale: x.scale() }),
        None => None,
    }
}

/// `rust_decimal::Decimal::checked_sub`; its result is named
/// `checked_difference`. Claimed besides: when the exact difference fits in
/// 96 bits at the larger of the two scales, the result is that exact
/// difference at that scale (`0 - b` is `b` negated at `b`'s scale, `a - 0`
/// is `a`); a result is a valid decimal.
#[verifier::external_body]
fn rd_checked_sub(a: Dec, b: Dec) -> (r: Option<Dec>)
    requires
        a.wf(),
        b.wf(),
    ensures
        r == checked_difference(a, b),
        sub_fits(a, b) ==> r == Some(sub_rep(a, b)),
        opt_wf(r),
{
    match Decimal::from_i128_with_scale(a.mantissa, a.scale).checked_sub(
        Decimal::from_i128_with_scale(b.mantissa, b.scale),
    ) {
        Some(x) => Some(Dec { mantissa: x.mantissa(), scale: x.scale() }),
        None => None,
    }
}

/// `rust_decimal::Decimal::checked_mul`; its result is named
/// `checked_product`. Claimed besides: a zero operand gives zero at scale 0;
/// when the scales add up to at most 28 and the product of the mantissas fits
/// in 96 bits, the result is that product at the summed scale; a result is a
/// valid decimal, and otherwise the product rounded at its last place, so
/// within one unit in its last place of the exact product.
#[verifier::external_body]
fn rd_checked_mul(a: Dec, b: Dec) -> (r: Option<Dec>)
    requires
        a.wf(),
        b.wf(),
    ensures
        r == checked_product(a, b),
        mul_fits(a, b) ==> r == Some(mul_rep(a, b)),
        opt_wf(r),
        r matches Some(c) ==> product_is_close(a, b, c),
{
    match Decimal::from_i128_with_scale(a.mantissa, a.scale).checked_mul(
        Decimal::from_i128_with_scale(b.mantissa, b.scale),
    ) {
        Some(x) => Some(Dec { mantissa: x.mantissa(), scale: x.scale() }),
        None => None,
    }
}

/// `rust_decimal::Decimal::checked_div`. Its result is named `quotient`.
/// Claimed besides: division by zero gives `None`; a divisor of magnitude at
/// least one cannot overflow, so it gives `Some`; a result is a valid decimal
/// rounded at its last place, so within one unit in its last place of the
/// exact quotient. Which scale the quotient gets is not stated.
#[verifier::external_body]
fn rd_checked_div(a: Dec, b: Dec) -> (r: Option<Dec>)
    requires
        a.wf(),
        b.wf(),
    ensures
        r == quotient(a, b),
        b.mant() == 0 ==> r is None,
        abs(b.val()) >= pow10(MAX_SCALE as nat) ==> r is Some,
        r matches Some(q) ==> q.wf(),
        r matches Some(q) ==> quotient_is_close(a, b, q),
{
    match Decimal::from_i128_with_scale(a.mantissa, a.scale).checked_div(
        Decimal::from_i128_with_scale(b.mantissa, b.scale),
    ) {
        Some(x) => Some(Dec { mantissa: x.mantissa(), scale: x.scale() }),
        None => None,
    }
}

/// `rust_decimal::Decimal::trunc_with_scale`. Claimed: the result is the value
/// truncated toward zero to `s` places, with scale `s` when the operand had at
/// least `s` places (or was zero); an operand with fewer places keeps its
/// value and gains as many places, up to `s`, as its mantissa can take.
#[verifier::external_body]
fn rd_trunc_with_scale(a: Dec, s: u32) -> (r: Dec)
    requires
        a.wf(),
        s <= MAX_SCALE,
    ensures
        r == trunc_rep(a, s as nat),
{
    let x = Decimal::from_i128_with_scale(a.mantissa, a.scale).trunc_with_scale(s);
    Dec { mantissa: x.mantissa(), scale: x.scale() }
}

/// `rust_decimal`'s `<` on two decimals. Claimed: it compares the values exactly.
#[verifier::external_body]
fn rd_lt(a: Dec, b: Dec) -> (r: bool)
    requires
        a.wf(),
        b.wf(),
    ensures
        r == (a.val() < b.val()),
{
    Decimal::from_i128_with_scale(a.mantissa, a.scale) < Decimal::from_i128_with_scale(
        b.mantissa,
        b.scale,
    )
}

/// `rust_decimal`'s `==` on two decimals. Claimed: it compares the values
/// exactly, whatever the scales.
#[verifier::external_body]
fn rd_eq(a: Dec, b: Dec) -> (r: bool)
    requires
        a.wf(),
        b.wf(),
    ensures
        r == (a.val() == b.val()),
{
    Decimal::from_i128_with_scale(a.mantissa, a.scale) == Decimal::from_i128_with_scale(
        b.mantissa,
        b.scale,
    )
}

impl Dec {
    /// The decimal `mantissa / 10^scale` (as `Decimal::new`).
    pub fn new(mantissa: i64, scale: u32) -> (r: Dec)
        requires
            scale <= MAX_SCALE,
        ensures
            r.mant() == mantissa,
            r.sc() == scale,
    {
        Dec { mantissa: mantissa as i128, scale }
    }

    /// The decimal `mantissa / 10^scale`, or `None` when the scale exceeds 28
    /// or the mantissa does not fit in 96 bits.
    pub fn from_parts(mantissa: i128, scale: u32) -> (r: Option<Dec>)
        ensures
            r is Some <==> (scale <= MAX_SCALE && in_mantissa_range(mantissa as int)),
            r matches Some(d) ==> d.mant() == mantissa && d.sc() == scale,
    {
        if scale <= MAX_SCALE && -MANTISSA_LIMIT < mantissa && mantissa < MANTISSA_LIMIT {
            Some(Dec { mantissa, scale })
        } else {
            None
        }
    }

    pub fn mantissa(&self) -> (r: i128)
        ensures
            r == self.mant(),
    {
        self.mantissa
    }

    pub fn scale(&self) -> (r: u32)
        ensures
            r == self.sc(),
    {
        self.scale
    }

    pub fn zero() -> (r: Dec)
        ensures
            r == dec_zero(),
            r.mant() == 0,
            r.sc() == 0,
            r.val() == 0,
    {
        Dec { mantissa: 0, scale: 0 }
    }

    pub fn one() -> (r: Dec)
        ensures
            r == dec_one(),
            r.mant() == 1,
            r.sc() == 0,
            r.val() == pow10(MAX_SCALE as nat),
    {
        Dec { mantissa: 1, scale: 0 }
    }

    /// The integer `n` as a decimal of scale 0 (as `Decimal::from(n)`).
    pub fn from_u64(n: u64) -> (r: Dec)
        ensures
            r.mant() == n,
            r.sc() == 0,
            r.val() == n * pow10(MAX_SCALE as nat),
    {
        proof {
            assert(n < MANTISSA_LIMIT);
        }
        Dec { mantissa: n as i128, scale: 0 }
    }

    pub fn lt(&self, other: &Dec) -> (r: bool)
        ensures
            r == (self.val() < other.val()),
    {
        proof {
            use_type_invariant(self);
            use_type_invariant(other);
        }
        rd_lt(*self, *other)
    }

    pub fn le(&self, other: &Dec) -> (r: bool)
        ensures
            r == (self.val() <= other.val()),
    {
        !other.lt(self)
    }

    pub fn gt(&self, other: &Dec) -> (r: bool)
        ensures
            r == (self.val() > other.val()),
    {
        other.lt(self)
    }

    pub fn ge(&self, other: &Dec) -> (r: bool)
        ensures
            r == (self.val() >= other.val()),
    {
        !self.lt(other)
    }

    /// Value equality (as `rust_decimal`'s `==`: `0.5` equals `0.50`).
    pub fn value_eq(&self, other: &Dec) -> (r: bool)
        ensures
            r == (self.val() == other.val()),
    {
        proof {
            use_type_invariant(self);
            use_type_invariant(other);
        }
        rd_eq(*self, *other)
    }

    /// The larger value; `self` when the two are equal (as `Decimal::max`).
    pub fn max(self, other: Dec) -> (r: Dec)
        ensures
            r == dec_max(self, other),
    {
        if self.lt(&other) {
            other
        } else {
            self
        }
    }

    /// The smaller value; `self` when the two are equal (as `Decimal::min`).
    pub fn min(self, other: Dec) -> (r: Dec)
        ensures
            r == dec_min(self, other),
    {
        if self.gt(&other) {
            other
        } else {
            self
        }
    }

    /// `Decimal::checked_add`: the exact sum when it is representable at the
    /// larger scale, else the sum rounded by `rust_decimal`; `None` on overflow.
    pub fn checked_add(self, other: Dec) -> (r: Option<Dec>)
        ensures
            r == add_opt(self, other),
            opt_wf(r),
            add_fits(self, other) ==> (r matches Some(c) && c.val() == self.val() + other.val()
                && c.sc() <= max_nat(self.sc(), other.sc())),
    {
        proof {
            use_type_invariant(&self);
            use_type_invariant(&other);
            if add_fits(self, other) {
                lemma_add_rep(self, other);
            }
        }
        rd_checked_add(self, other)
    }

    /// `Decimal::checked_sub`: the exact difference when it is representable
    /// at the larger scale, else the rounded difference; `None` on overflow.
    pub fn checked_sub(self, other: Dec) -> (r: Option<Dec>)
        ensures
            r == sub_opt(self, other),
            opt_wf(r),
            sub_fits(self, other) ==> (r matches Some(c) && c.val() == self.val() - other.val()
                && c.sc() <= max_nat(self.sc(), other.sc())),
    {
        proof {
            use_type_invariant(&self);
            use_type_invariant(&other);
            if sub_fits(self, other) {
                lemma_sub_rep(self, other);
            }
        }
        rd_checked_sub(self, other)
    }

    /// `Decimal::checked_mul`: the exact product when it is representable,
    /// else the product rounded by `rust_decimal`; `None` on overflow.
    pub fn checked_mul(self, other: Dec) -> (r: Option<Dec>)
        ensures
            r == mul_opt(self, other),
            opt_wf(r),
            r matches Some(c) ==> product_is_close(self, other, c),
            mul_fits(self, other) ==> (r matches Some(c) && c.val() * pow10(MAX_SCALE as nat)
                == self.val() * other.val() && c.sc() <= self.sc() + other.sc()),
    {
        proof {
            use_type_invariant(&self);
            use_type_invariant(&other);
            if mul_fits(self, other) {
                lemma_mul_rep(self, other);
            }
        }
        rd_checked_mul(self, other)
    }

    /// `Decimal::checked_div`: the quotient (named `quotient`), `None` on
    /// division by zero or overflow.
    pub fn checked_div(self, other: Dec) -> (r: Option<Dec>)
        ensures
            r == quotient(self, other),
            r == quotient_wf(self, other),
            r matches Some(q) ==> q.wf() && quotient_is_close(self, other, q),
            other.val() == 0 ==> r is None,
            abs(other.val()) >= pow10(MAX_SCALE as nat) ==> r is Some,
    {
        proof {
            use_type_invariant(&self);
            use_type_invariant(&other);
            lemma_pow10_pos((MAX_SCALE - other.sc()) as nat);
            if other.val() == 0 {
                assert(other.mant() == 0) by (nonlinear_arith)
                    requires
                        other.val() == other.mant() * pow10((MAX_SCALE - other.sc()) as nat),
                        pow10((MAX_SCALE - other.sc()) as nat) >= 1,
                        other.val() == 0,
                ;
            }
        }
        rd_checked_div(self, other)
    }

    /// The value truncated toward zero to `s` decimal places (as `Decimal::trunc_with_scale`).
    pub fn trunc_with_scale(self, s: u32) -> (r: Dec)
        requires
            s <= MAX_SCALE,
        ensures
            r == trunc_rep(self, s as nat),
            r.val() == trunc_val(self.val(), s as nat),
            r.sc() <= s,
    {
        proof {
            use_type_invariant(&self);
            lemma_trunc_rep(self, s as nat);
        }
        rd_trunc_with_scale(self, s)
    }
}

impl PartialEq for Dec {
    fn eq(&self, other: &Dec) -> (r: bool) {
        self.value_eq(other)
    }
}

impl vstd::std_specs::cmp::PartialEqSpecImpl for Dec {
    open spec fn obeys_eq_spec() -> bool {
        true
    }

    open spec fn eq_spec(&self, other: &Dec) -> bool {
        self.val() == other.val()
    }
}

} // verus!
