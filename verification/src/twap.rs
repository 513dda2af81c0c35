//! Rolling time-weighted average of complementary asks, plus clip sizing for
//! sliced execution.
//!
//! Instants and durations are nanosecond counts (`u128`) on a monotonic clock.
use std::collections::VecDeque;

use vstd::prelude::*;

use crate::decimal::{
    add_fits, add_opt, dec_max, dec_zero, lemma_add_rep, lemma_mul_rep, lemma_pow10_pos, lemma_sub_rep, mul_fits,
    mul_opt, mul_rep, quotient_is_close, quotient_wf, sub_fits, sub_opt, ulp, unit, Dec, MAX_SCALE,
};
use crate::strategy::{
    cent, cents, lemma_dec_consts, lemma_spec_trunc_shares, lemma_trunc_shares_cents,
    spec_trunc_shares, trunc_shares, SHARE_DECIMALS,
};

verus! {

broadcast use vstd::std_specs::vecdeque::group_vec_dequeue_axioms;

/// Nanoseconds in a millisecond.
pub const NANOS_PER_MILLI: u128 = 1_000_000;

#[derive(Debug, Clone, Copy)]
pub struct QuoteSample {
    /// When the quote was seen (nanoseconds).
    pub at: u128,
    pub ask_a: Dec,
    pub ask_b: Dec,
}

#[derive(Debug, Clone, Copy)]
pub struct TwapQuote {
    pub ask_a: Dec,
    pub ask_b: Dec,
    pub sample_count: usize,
    /// Time from the oldest retained sample to the evaluation instant (nanoseconds).
    pub span: u128,
}

/// `later - earlier`, or zero when `later` is not after `earlier`.
pub open spec fn since(later: u128, earlier: u128) -> u128 {
    if later >= earlier {
        (later - earlier) as u128
    } else {
        0
    }
}

impl TwapQuote {
    /// `ask_a + ask_b` (rounded by `rust_decimal` where it must be), or
    /// `None` when the sum overflows.
    pub fn bundle(self) -> (r: Option<Dec>)
        ensures
            r == add_opt(self.ask_a, self.ask_b),
            add_fits(self.ask_a, self.ask_b) ==> (r matches Some(b) && b.val() == self.ask_a.val()
                + self.ask_b.val()),
    {
        self.ask_a.checked_add(self.ask_b)
    }
}

/// Rolling time-weighted average of both outcome asks.
#[derive(Debug, Clone)]
pub struct QuoteTwap {
    window: u128,
    samples: VecDeque<QuoteSample>,
}

/// The samples left after dropping, from the front, every sample older than
/// `window` at instant `now`.
pub open spec fn spec_evict(samples: Seq<QuoteSample>, now: u128, window: u128) -> Seq<QuoteSample>
    decreases samples.len(),
{
    if samples.len() > 0 && since(now, samples[0].at) > window {
        spec_evict(samples.drop_first(), now, window)
    } else {
        samples
    }
}

impl View for QuoteTwap {
    type V = (u128, Seq<QuoteSample>);

    closed spec fn view(&self) -> (u128, Seq<QuoteSample>) {
        (self.window, self.samples@)
    }
}

impl QuoteTwap {
    pub fn new(window: u128) -> (r: Self)
        ensures
            r@ == (window, Seq::<QuoteSample>::empty()),
    {
        QuoteTwap { window, samples: VecDeque::new() }
    }

    pub fn window(&self) -> (r: u128)
        ensures
            r == self@.0,
    {
        self.window
    }

    pub fn sample_count(&self) -> (r: usize)
        ensures
            r == self@.1.len(),
    {
        self.samples.len()
    }

    /// Append a sample, then drop the samples at the front that are older
    /// than the window at the new sample's instant.
    pub fn push(&mut self, sample: QuoteSample)
        ensures
            final(self)@.0 == old(self)@.0,
            final(self)@.1 == spec_evict(old(self)@.1.push(sample), sample.at, old(self)@.0),
    {
        self.samples.push_back(sample);
        self.evict(sample.at);
    }

    fn evict(&mut self, now: u128)
        ensures
            final(self)@.0 == old(self)@.0,
            final(self)@.1 == spec_evict(old(self)@.1, now, old(self)@.0),
    {
        loop
            invariant
                self.window == old(self).window,
                spec_evict(self.samples@, now, self.window) == spec_evict(
                    old(self).samples@,
                    now,
                    self.window,
                ),
            ensures
                self.window == old(self).window,
                self.samples@ == spec_evict(old(self).samples@, now, self.window),
            decreases self.samples@.len(),
        {
            if self.samples.len() == 0 {
                break;
            }
            let front_at = self.samples[0].at;
            let age = if now >= front_at {
                now - front_at
            } else {
                0
            };
            if age > self.window {
                let ghost before = self.samples@;
                self.samples.pop_front();
                proof {
                    assert(self.samples@ =~= before.drop_first());
                }
            } else {
                break;
            }
        }
    }

    /// The time-weighted averages of both asks at instant `now`, over the
    /// retained samples; `None` without samples, or when an intermediate sum
    /// overflows.
    pub fn value(&self, now: u128) -> (r: Option<TwapQuote>)
        ensures
            r == spec_twap_value(self@.1, now),
    {
        if self.samples.len() == 0 {
            return None;
        }
        let first_at = self.samples[0].at;
        let span = if now >= first_at {
            now - first_at
        } else {
            0
        };
        let mut pts_a: Vec<(u128, Dec)> = Vec::new();
        let mut pts_b: Vec<(u128, Dec)> = Vec::new();
        let n = self.samples.len();
        let mut i: usize = 0;
        while i < n
            invariant
                n == self.samples@.len(),
                i <= n,
                pts_a@ =~= points_a(self.samples@).take(i as int),
                pts_b@ =~= points_b(self.samples@).take(i as int),
            decreases n - i,
        {
            let s = self.samples[i];
            pts_a.push((s.at, s.ask_a));
            pts_b.push((s.at, s.ask_b));
            proof {
                assert(points_a(self.samples@).take(i + 1) =~= points_a(self.samples@).take(
                    i as int,
                ).push((s.at, s.ask_a)));
                assert(points_b(self.samples@).take(i + 1) =~= points_b(self.samples@).take(
                    i as int,
                ).push((s.at, s.ask_b)));
            }
            i = i + 1;
        }
        proof {
            assert(points_a(self.samples@).take(n as int) =~= points_a(self.samples@));
            assert(points_b(self.samples@).take(n as int) =~= points_b(self.samples@));
        }
        let ask_a = match time_weighted(&pts_a, now) {
            Some(x) => x,
            None => return None,
        };
        let ask_b = match time_weighted(&pts_b, now) {
            Some(x) => x,
            None => return None,
        };
        Some(TwapQuote { ask_a, ask_b, sample_count: n, span })
    }
}

/// The (instant, ask A) points of the samples.
pub open spec fn points_a(samples: Seq<QuoteSample>) -> Seq<(u128, Dec)> {
    samples.map_values(|s: QuoteSample| (s.at, s.ask_a))
}

/// The (instant, ask B) points of the samples.
pub open spec fn points_b(samples: Seq<QuoteSample>) -> Seq<(u128, Dec)> {
    samples.map_values(|s: QuoteSample| (s.at, s.ask_b))
}

/// See [`QuoteTwap::value`].
pub open spec fn spec_twap_value(samples: Seq<QuoteSample>, now: u128) -> Option<TwapQuote> {
    if samples.len() == 0 {
        None
    } else {
        match spec_time_weighted(points_a(samples), now) {
            None => None,
            Some(ask_a) => match spec_time_weighted(points_b(samples), now) {
                None => None,
                Some(ask_b) => Some(
                    TwapQuote {
                        ask_a,
                        ask_b,
                        sample_count: samples.len() as usize,
                        span: since(now, samples[0].at),
                    },
                ),
            },
        }
    }
}

/// Whole milliseconds between two instants (zero when `t1` is not after
/// `t0`), cut to 64 bits.
pub open spec fn millis_between(t0: u128, t1: u128) -> u64 {
    (since(t1, t0) / NANOS_PER_MILLI) as u64
}

/// The end of the interval during which point `i` is the current quote.
pub open spec fn interval_end(pts: Seq<(u128, Dec)>, i: int, now: u128) -> u128 {
    if i + 1 < pts.len() {
        pts[i + 1].0
    } else {
        now
    }
}

/// The integer `n` as a decimal of scale 0.
pub open spec fn dec_from_u64(n: u64) -> Dec {
    Dec::from_parts_spec(n as int, 0)
}

/// The weighted sum of prices and the sum of weights over the first `k`
/// points, each point weighted by the milliseconds it stayed current;
/// `None` when a partial sum overflows.
pub open spec fn weighted_sums(pts: Seq<(u128, Dec)>, now: u128, k: nat) -> Option<(Dec, Dec)>
    decreases k,
{
    if k == 0 {
        Some((dec_zero(), dec_zero()))
    } else {
        match weighted_sums(pts, now, (k - 1) as nat) {
            None => None,
            Some((num, den)) => {
                let i = k - 1;
                let dt_ms = millis_between(pts[i].0, interval_end(pts, i, now));
                if dt_ms == 0 {
                    Some((num, den))
                } else {
                    let w = dec_from_u64(dt_ms);
                    match mul_opt(pts[i].1, w) {
                        None => None,
                        Some(pw) => match add_opt(num, pw) {
                            None => None,
                            Some(num2) => match add_opt(den, w) {
                                None => None,
                                Some(den2) => Some((num2, den2)),
                            },
                        },
                    }
                }
            },
        }
    }
}

/// The time-weighted average price of the points at instant `now`: the
/// price itself for a single point; the last price when no point lasted a
/// whole millisecond; otherwise the weighted sum divided by the total weight.
pub open spec fn spec_time_weighted(pts: Seq<(u128, Dec)>, now: u128) -> Option<Dec> {
    if pts.len() == 0 {
        None
    } else if pts.len() == 1 {
        Some(pts[0].1)
    } else {
        match weighted_sums(pts, now, pts.len()) {
            None => None,
            Some((num, den)) => if den.val() == 0 {
                Some(pts.last().1)
            } else {
                quotient_wf(num, den)
            },
        }
    }
}

proof fn lemma_weighted_sums_none(pts: Seq<(u128, Dec)>, now: u128, k: nat, k2: nat)
    requires
        k <= k2,
        weighted_sums(pts, now, k) is None,
    ensures
        weighted_sums(pts, now, k2) is None,
    decreases k2 - k,
{
    if k < k2 {
        lemma_weighted_sums_none(pts, now, k, (k2 - 1) as nat);
    }
}

fn time_weighted(pts: &Vec<(u128, Dec)>, now: u128) -> (r: Option<Dec>)
    ensures
        r == spec_time_weighted(pts@, now),
{
    let n = pts.len();
    if n == 0 {
        return None;
    }
    if n == 1 {
        return Some(pts[0].1);
    }
    let mut num = Dec::zero();
    let mut den = Dec::zero();
    let mut i: usize = 0;
    while i < n
        invariant
            n == pts@.len(),
            n >= 2,
            i <= n,
            weighted_sums(pts@, now, i as nat) == Some((num, den)),
        decreases n - i,
    {
        let t0 = pts[i].0;
        let t1 = if i + 1 < n {
            pts[i + 1].0
        } else {
            now
        };
        let dt = if t1 >= t0 {
            t1 - t0
        } else {
            0
        };
        let dt_ms: u64 = #[verifier::truncate] ((dt / NANOS_PER_MILLI) as u64);
        if dt_ms != 0 {
            let w = Dec::from_u64(dt_ms);
            proof {
                Dec::lemma_from_parts(dt_ms as int, 0);
                Dec::lemma_parts_determine(w, dec_from_u64(dt_ms));
            }
            let pw = match pts[i].1.checked_mul(w) {
                Some(x) => x,
                None => {
                    proof {
                        lemma_weighted_sums_none(pts@, now, (i + 1) as nat, n as nat);
                    }
                    return None;
                },
            };
            num = match num.checked_add(pw) {
                Some(x) => x,
                None => {
                    proof {
                        lemma_weighted_sums_none(pts@, now, (i + 1) as nat, n as nat);
                    }
                    return None;
                },
            };
            den = match den.checked_add(w) {
                Some(x) => x,
                None => {
                    proof {
                        lemma_weighted_sums_none(pts@, now, (i + 1) as nat, n as nat);
                    }
                    return None;
                },
            };
        }
        i = i + 1;
    }
    if den.value_eq(&Dec::zero()) {
        return Some(pts[n - 1].1);
    }
    num.checked_div(den)
}

/// See [`slice_quantity`].
pub open spec fn spec_slice_quantity(total: Dec, slice_idx: u32, slices: u32) -> Option<Dec> {
    let n: u32 = if slices >= 1 {
        slices
    } else {
        1
    };
    let t = spec_trunc_shares(total);
    if n == 1 || slice_idx >= n {
        if slice_idx == 0 || slice_idx + 1 == n {
            Some(t)
        } else {
            Some(dec_zero())
        }
    } else {
        match quotient_wf(t, dec_from_u64(n as u64)) {
            None => None,
            Some(q) => {
                let base = spec_trunc_shares(q);
                if slice_idx + 1 == n {
                    match mul_opt(base, dec_from_u64((n - 1) as u64)) {
                        None => None,
                        Some(spent) => match sub_opt(t, spent) {
                            None => None,
                            Some(rest) => Some(dec_max(spec_trunc_shares(rest), dec_zero())),
                        },
                    }
                } else {
                    Some(base)
                }
            },
        }
    }
}

/// Split `total` into `slices` clips (2-dp shares). Last clip absorbs remainder.
///
/// A slice count of zero counts as one. Indices past the last clip get
/// zero. `None` when an intermediate amount overflows the decimal range.
pub fn slice_quantity(total: Dec, slice_idx: u32, slices: u32) -> (r: Option<Dec>)
    ensures
        r == spec_slice_quantity(total, slice_idx, slices),
{
    let slices = if slices >= 1 {
        slices
    } else {
        1
    };
    let total = trunc_shares(total);
    let idx_next: u64 = slice_idx as u64 + 1;
    if slices == 1 || slice_idx >= slices {
        return if slice_idx == 0 || idx_next == slices as u64 {
            Some(total)
        } else {
            Some(Dec::zero())
        };
    }
    let n = Dec::from_u64(slices as u64);
    proof {
        Dec::lemma_from_parts(slices as int, 0);
        Dec::lemma_parts_determine(n, dec_from_u64(slices as u64));
    }
    let q = match total.checked_div(n) {
        Some(x) => x,
        None => return None,
    };
    let base = trunc_shares(q);
    if idx_next == slices as u64 {
        let m = Dec::from_u64((slices - 1) as u64);
        proof {
            Dec::lemma_from_parts((slices - 1) as int, 0);
            Dec::lemma_parts_determine(m, dec_from_u64((slices - 1) as u64));
        }
        let spent = match base.checked_mul(m) {
            Some(x) => x,
            None => return None,
        };
        let rest = match total.checked_sub(spent) {
            Some(x) => x,
            None => return None,
        };
        Some(trunc_shares(rest).max(Dec::zero()))
    } else {
        Some(base)
    }
}

/// When clip `slice_idx` of `slices` should fire: that fraction of the
/// window, rounded down to the nanosecond (the first clip at once).
pub open spec fn spec_slice_due_at(window: u128, slice_idx: u32, slices: u32) -> int {
    let n = if slices >= 1 {
        slices
    } else {
        1
    };
    if slice_idx == 0 {
        0
    } else {
        (window * slice_idx) / (n as int)
    }
}

/// Elapsed TWAP window fraction at which clip `slice_idx` should fire (0-based).
pub fn slice_due_at(window: u128, slice_idx: u32, slices: u32) -> (r: u128)
    requires
        window * slice_idx <= u128::MAX,
    ensures
        r == spec_slice_due_at(window, slice_idx, slices),
        r * (if slices >= 1 {
            slices as int
        } else {
            1
        }) <= window * slice_idx < (r + 1) * (if slices >= 1 {
            slices as int
        } else {
            1
        }),
{
    proof {
        law_clip_due_times_are_evenly_spaced(window, slice_idx, slices);
    }
    let slices = if slices >= 1 {
        slices
    } else {
        1
    };
    if slice_idx == 0 {
        return 0;
    }
    window * (slice_idx as u128) / (slices as u128)
}


/// The samples are in time order.
pub open spec fn time_ordered(samples: Seq<QuoteSample>) -> bool {
    forall|i: int, j: int| 0 <= i <= j < samples.len() ==> samples[i].at <= samples[j].at
}

proof fn lemma_evict_suffix(samples: Seq<QuoteSample>, now: u128, window: u128) -> (k: int)
    ensures
        0 <= k <= samples.len(),
        spec_evict(samples, now, window) == samples.subrange(k, samples.len() as int),
        forall|i: int| 0 <= i < k ==> since(now, #[trigger] samples[i].at) > window,
        k < samples.len() ==> since(now, samples[k].at) <= window,
    decreases samples.len(),
{
    if samples.len() > 0 && since(now, samples[0].at) > window {
        let k1 = lemma_evict_suffix(samples.drop_first(), now, window);
        assert(samples.drop_first().subrange(k1, samples.len() - 1) =~= samples.subrange(
            k1 + 1,
            samples.len() as int,
        ));
        assert forall|i: int| 0 <= i < k1 + 1 implies since(now, #[trigger] samples[i].at)
            > window by {
            if i > 0 {
                assert(samples[i] == samples.drop_first()[i - 1]);
            }
        }
        k1 + 1
    } else {
        assert(samples.subrange(0, samples.len() as int) =~= samples);
        0
    }
}

/// With time-ordered samples and a new sample that is not older than the
/// last one, `push` keeps exactly the samples of the last `window`: the
/// result is a time-ordered suffix of the old samples followed by the new
/// one, every dropped sample is older than `window` at the new instant, and
/// every kept one is not.
pub proof fn law_push_keeps_the_recent_window(
    samples: Seq<QuoteSample>,
    window: u128,
    sample: QuoteSample,
)
    requires
        time_ordered(samples.push(sample)),
    ensures
        ({
            let all = samples.push(sample);
            let kept = spec_evict(all, sample.at, window);
            &&& time_ordered(kept)
            &&& kept.len() >= 1
            &&& kept.last() == sample
            &&& exists|k: int|
                0 <= k < all.len() && kept == all.subrange(k, all.len() as int) && (forall|i: int|
                    0 <= i < k ==> since(sample.at, #[trigger] all[i].at) > window)
            &&& forall|i: int| 0 <= i < kept.len() ==> since(sample.at, #[trigger] kept[i].at) <= window
        }),
{
    let all = samples.push(sample);
    let now = sample.at;
    let k = lemma_evict_suffix(all, now, window);
    let kept = spec_evict(all, now, window);
    assert(all[all.len() - 1] == sample);
    assert(since(now, sample.at) == 0);
    assert(k < all.len());
    assert(kept.last() == sample);
    assert forall|i: int| 0 <= i < kept.len() implies since(now, #[trigger] kept[i].at) <= window by {
        assert(kept[i] == all[k + i]);
        assert(all[k].at <= all[k + i].at);
        assert(all[k + i].at <= all[all.len() - 1].at);
    }
    assert forall|i: int, j: int| 0 <= i <= j < kept.len() implies kept[i].at <= kept[j].at by {
        assert(kept[i] == all[k + i]);
        assert(kept[j] == all[k + j]);
    }
}

/// A single retained sample is its own average, whatever the instant; no
/// sample, no average.
pub proof fn law_single_sample_is_its_own_average(samples: Seq<QuoteSample>, now: u128)
    ensures
        samples.len() == 0 ==> spec_twap_value(samples, now) is None,
        samples.len() == 1 ==> spec_twap_value(samples, now) == Some(
            TwapQuote {
                ask_a: samples[0].ask_a,
                ask_b: samples[0].ask_b,
                sample_count: 1,
                span: since(now, samples[0].at),
            },
        ),
{
}

/// There is no average exactly when there is no sample or an average's
/// arithmetic overflows; an average of two or more points fails only when
/// its weighted sums overflow or their division gives nothing.
pub proof fn law_value_missing_only_when_empty_or_overflowing(
    samples: Seq<QuoteSample>,
    now: u128,
)
    ensures
        spec_twap_value(samples, now) is None <==> (samples.len() == 0 || spec_time_weighted(
            points_a(samples),
            now,
        ) is None || spec_time_weighted(points_b(samples), now) is None),
        forall|pts: Seq<(u128, Dec)>|
            #![trigger spec_time_weighted(pts, now)]
            pts.len() >= 2 && spec_time_weighted(pts, now) is None ==> (weighted_sums(
                pts,
                now,
                pts.len(),
            ) is None || (weighted_sums(pts, now, pts.len()) matches Some((num, den)) && den.val()
                != 0 && quotient_wf(num, den) is None)),
{
}

/// The points with every instant moved `d` later.
pub open spec fn shift_times(pts: Seq<(u128, Dec)>, d: u128) -> Seq<(u128, Dec)> {
    pts.map_values(|p: (u128, Dec)| ((p.0 + d) as u128, p.1))
}

proof fn lemma_weighted_sums_shift(pts: Seq<(u128, Dec)>, now: u128, d: u128, k: nat)
    requires
        k <= pts.len(),
        now + d <= u128::MAX,
        forall|i: int| 0 <= i < pts.len() ==> #[trigger] pts[i].0 + d <= u128::MAX,
    ensures
        weighted_sums(shift_times(pts, d), (now + d) as u128, k) == weighted_sums(pts, now, k),
    decreases k,
{
    if k > 0 {
        lemma_weighted_sums_shift(pts, now, d, (k - 1) as nat);
        let q = shift_times(pts, d);
        let i = k - 1;
        assert(q[i].0 == pts[i].0 + d);
        assert(q[i].1 == pts[i].1);
        if i + 1 < pts.len() {
            assert(q[i + 1].0 == pts[i + 1].0 + d);
        }
        assert(interval_end(q, i, (now + d) as u128) == interval_end(pts, i, now) + d);
        assert(since(interval_end(q, i, (now + d) as u128), q[i].0) == since(
            interval_end(pts, i, now),
            pts[i].0,
        ));
    }
}

/// Moving every instant, and the evaluation instant, by the same amount
/// leaves the time-weighted average unchanged: only the time between the
/// points matters.
pub proof fn law_average_ignores_a_time_shift(pts: Seq<(u128, Dec)>, now: u128, d: u128)
    requires
        now + d <= u128::MAX,
        forall|i: int| 0 <= i < pts.len() ==> #[trigger] pts[i].0 + d <= u128::MAX,
    ensures
        spec_time_weighted(shift_times(pts, d), (now + d) as u128) == spec_time_weighted(pts, now),
{
    let q = shift_times(pts, d);
    lemma_weighted_sums_shift(pts, now, d, pts.len());
    if pts.len() >= 1 {
        assert(q[0].1 == pts[0].1);
        assert(q.last().1 == pts.last().1);
    }
}

/// Every step of the weighted sums over the first `k` points is exact.
pub open spec fn weighted_sums_exact(pts: Seq<(u128, Dec)>, now: u128, k: nat) -> bool
    decreases k,
{
    if k == 0 {
        true
    } else {
        &&& weighted_sums_exact(pts, now, (k - 1) as nat)
        &&& match weighted_sums(pts, now, (k - 1) as nat) {
            None => true,
            Some((num, den)) => {
                let i = k - 1;
                let dt_ms = millis_between(pts[i].0, interval_end(pts, i, now));
                let w = dec_from_u64(dt_ms);
                dt_ms == 0 || {
                    &&& mul_fits(pts[i].1, w)
                    &&& add_fits(num, mul_rep(pts[i].1, w))
                    &&& add_fits(den, w)
                }
            },
        }
    }
}

/// Where the weighted sums are exact and every price of the first `k` points
/// lies between `lo` and `hi`, the weighted sum of prices lies between `lo`
/// and `hi` times the total weight.
pub proof fn law_weighted_sum_within_price_range(
    pts: Seq<(u128, Dec)>,
    now: u128,
    k: nat,
    lo: int,
    hi: int,
)
    requires
        k <= pts.len(),
        forall|i: int| 0 <= i < k ==> (#[trigger] pts[i].1).wf(),
        forall|i: int| 0 <= i < k ==> lo <= (#[trigger] pts[i].1).val() <= hi,
        weighted_sums_exact(pts, now, k),
    ensures
        weighted_sums(pts, now, k) matches Some((num, den)) && {
            &&& num.wf()
            &&& den.wf()
            &&& den.val() >= 0
            &&& lo * den.val() <= num.val() * unit() <= hi * den.val()
        },
    decreases k,
{
    lemma_dec_consts();
    if k > 0 {
        lemma_weighted_sums_range(pts, now, k, lo, hi);
    }
}

proof fn lemma_weighted_sums_range(
    pts: Seq<(u128, Dec)>,
    now: u128,
    k: nat,
    lo: int,
    hi: int,
)
    requires
        0 < k <= pts.len(),
        forall|i: int| 0 <= i < k ==> (#[trigger] pts[i].1).wf(),
        forall|i: int| 0 <= i < k ==> lo <= (#[trigger] pts[i].1).val() <= hi,
        weighted_sums_exact(pts, now, k),
    ensures
        weighted_sums(pts, now, k) matches Some((num, den)) && {
            &&& num.wf()
            &&& den.wf()
            &&& den.val() >= 0
            &&& lo * den.val() <= num.val() * unit() <= hi * den.val()
        },
    decreases k,
{
    lemma_dec_consts();
    let km = (k - 1) as nat;
    if km > 0 {
        lemma_weighted_sums_range(pts, now, km, lo, hi);
    }
    let (num, den) = weighted_sums(pts, now, km)->0;
    let i = k - 1;
    let dt_ms = millis_between(pts[i].0, interval_end(pts, i, now));
    if dt_ms != 0 {
        let v = pts[i].1;
        let w = dec_from_u64(dt_ms);
        Dec::lemma_from_parts(dt_ms as int, 0);
        lemma_mul_rep(v, w);
        let pw = mul_rep(v, w);
        lemma_add_rep(num, pw);
        lemma_add_rep(den, w);
        let u = unit();
        lemma_pow10_pos(MAX_SCALE as nat);
        let t = dt_ms as int;
        assert(w.val() == t * u);
        let vv = v.val();
        assert(pw.val() * u == vv * (t * u));
        assert(pw.val() == vv * t) by (nonlinear_arith)
            requires
                pw.val() * u == vv * (t * u),
                u >= 1,
        ;
        let nv = num.val();
        let dv = den.val();
        assert(lo * (dv + t * u) <= (nv + vv * t) * u <= hi * (dv + t * u)) by (nonlinear_arith)
            requires
                lo * dv <= nv * u <= hi * dv,
                lo <= vv <= hi,
                t >= 0,
                u >= 1,
        ;
    }
}

/// Whole milliseconds that point `i` stayed the current quote.
pub open spec fn point_weight(pts: Seq<(u128, Dec)>, now: u128, i: int) -> int {
    millis_between(pts[i].0, interval_end(pts, i, now)) as int
}

/// The sum, over the first `k` points, of price times weight.
pub open spec fn price_weight_total(pts: Seq<(u128, Dec)>, now: u128, k: nat) -> int
    decreases k,
{
    if k == 0 {
        0
    } else {
        price_weight_total(pts, now, (k - 1) as nat) + pts[k - 1].1.val() * point_weight(
            pts,
            now,
            k - 1,
        )
    }
}

/// The sum of the weights of the first `k` points.
pub open spec fn weight_total(pts: Seq<(u128, Dec)>, now: u128, k: nat) -> int
    decreases k,
{
    if k == 0 {
        0
    } else {
        weight_total(pts, now, (k - 1) as nat) + point_weight(pts, now, k - 1)
    }
}

proof fn lemma_weighted_sums_totals(pts: Seq<(u128, Dec)>, now: u128, k: nat)
    requires
        k <= pts.len(),
        forall|i: int| 0 <= i < k ==> (#[trigger] pts[i].1).wf(),
        weighted_sums_exact(pts, now, k),
    ensures
        weighted_sums(pts, now, k) matches Some((num, den)) && {
            &&& num.wf()
            &&& den.wf()
            &&& num.val() == price_weight_total(pts, now, k)
            &&& den.val() == weight_total(pts, now, k) * unit()
        },
    decreases k,
{
    lemma_dec_consts();
    if k > 0 {
        let km = (k - 1) as nat;
        lemma_weighted_sums_totals(pts, now, km);
        let (num, den) = weighted_sums(pts, now, km)->0;
        let i = k - 1;
        let dt_ms = millis_between(pts[i].0, interval_end(pts, i, now));
        let vv = pts[i].1.val();
        let t = dt_ms as int;
        if dt_ms != 0 {
            let v = pts[i].1;
            let w = dec_from_u64(dt_ms);
            Dec::lemma_from_parts(dt_ms as int, 0);
            lemma_mul_rep(v, w);
            let pw = mul_rep(v, w);
            lemma_add_rep(num, pw);
            lemma_add_rep(den, w);
            let u = unit();
            lemma_pow10_pos(MAX_SCALE as nat);
            assert(w.val() == t * u);
            assert(pw.val() * u == vv * (t * u));
            assert(pw.val() == vv * t) by (nonlinear_arith)
                requires
                    pw.val() * u == vv * (t * u),
                    u >= 1,
            ;
            assert((weight_total(pts, now, km) + t) * u == weight_total(pts, now, km) * u + t * u)
                by (nonlinear_arith);
        } else {
            assert(vv * t == 0) by (nonlinear_arith)
                requires
                    t == 0,
            ;
        }
    }
}

/// The time-weighted average, stated directly, where its weighted sums are
/// exact: no points give nothing, one point gives its price; with two or
/// more, each point weighs the whole milliseconds until the next point (the
/// last one until `now`), and the average is the sum of price times weight
/// divided by the total weight, or the last price when the total weight is zero.
pub proof fn law_time_weighted_formula(pts: Seq<(u128, Dec)>, now: u128)
    requires
        forall|i: int| 0 <= i < pts.len() ==> (#[trigger] pts[i].1).wf(),
        weighted_sums_exact(pts, now, pts.len()),
    ensures
        pts.len() == 0 ==> spec_time_weighted(pts, now) is None,
        pts.len() == 1 ==> spec_time_weighted(pts, now) == Some(pts[0].1),
        pts.len() >= 2 && weight_total(pts, now, pts.len()) == 0 ==> spec_time_weighted(pts, now)
            == Some(pts.last().1),
        pts.len() >= 2 && weight_total(pts, now, pts.len()) != 0 ==> (weighted_sums(
            pts,
            now,
            pts.len(),
        ) matches Some((num, den)) && num.val() == price_weight_total(pts, now, pts.len())
            && den.val() == weight_total(pts, now, pts.len()) * unit() && spec_time_weighted(
            pts,
            now,
        ) == quotient_wf(num, den)),
{
    lemma_weighted_sums_totals(pts, now, pts.len());
    lemma_pow10_pos(MAX_SCALE as nat);
    let w = weight_total(pts, now, pts.len());
    let u = unit();
    assert(w == 0 <==> w * u == 0) by (nonlinear_arith)
        requires
            u >= 1,
    ;
}

proof fn lemma_weight_total_nonneg(pts: Seq<(u128, Dec)>, now: u128, k: nat)
    ensures
        weight_total(pts, now, k) >= 0,
    decreases k,
{
    if k > 0 {
        lemma_weight_total_nonneg(pts, now, (k - 1) as nat);
    }
}

/// Where the weighted sums are exact and every price lies between `lo` and
/// `hi`, the time-weighted average lies between them too, up to the rounding
/// of its final division (one unit in its last place): an average never
/// leaves the range of the prints it averages.
pub proof fn law_average_within_price_range(pts: Seq<(u128, Dec)>, now: u128, lo: int, hi: int)
    requires
        forall|i: int| 0 <= i < pts.len() ==> (#[trigger] pts[i].1).wf(),
        forall|i: int| 0 <= i < pts.len() ==> lo <= (#[trigger] pts[i].1).val() <= hi,
        weighted_sums_exact(pts, now, pts.len()),
    ensures
        spec_time_weighted(pts, now) matches Some(avg) ==> lo - ulp(avg) <= avg.val() <= hi
            + ulp(avg),
{
    if pts.len() >= 2 {
        law_weighted_sum_within_price_range(pts, now, pts.len(), lo, hi);
        lemma_weighted_sums_totals(pts, now, pts.len());
        lemma_weight_total_nonneg(pts, now, pts.len());
        let (num, den) = weighted_sums(pts, now, pts.len())->0;
        assert(pts.last() == pts[pts.len() - 1]);
        if den.val() != 0 {
            if let Some(avg) = quotient_wf(num, den) {
                let d = den.val();
                let a = avg.val();
                let e = ulp(avg);
                let nu = num.val() * unit();
                lemma_pow10_pos(MAX_SCALE as nat);
                assert(d > 0) by (nonlinear_arith)
                    requires
                        d == weight_total(pts, now, pts.len()) * unit(),
                        weight_total(pts, now, pts.len()) >= 0,
                        d != 0,
                ;
                assert(a * d - nu <= d * e && nu - a * d <= d * e);
                assert(lo - e <= a <= hi + e) by (nonlinear_arith)
                    requires
                        a * d - nu <= d * e,
                        nu - a * d <= d * e,
                        lo * d <= nu <= hi * d,
                        d > 0,
                ;
            }
        }
    }
    if pts.len() >= 1 {
        lemma_pow10_pos((MAX_SCALE - pts[0].1.sc()) as nat);
        lemma_pow10_pos((MAX_SCALE - pts.last().1.sc()) as nat);
    }
}

/// Clip `i` of `n` (a clip count of zero counting as one) comes due at
/// `floor(window * i / n)`: the largest instant `d` with `d * n <= window *
/// i`. Clips are spread evenly, `window / n` apart, the first at once.
pub proof fn law_clip_due_times_are_evenly_spaced(window: u128, slice_idx: u32, slices: u32)
    ensures
        ({
            let n: int = if slices >= 1 {
                slices as int
            } else {
                1
            };
            let d = spec_slice_due_at(window, slice_idx, slices);
            &&& d >= 0
            &&& d * n <= window * slice_idx < (d + 1) * n
        }),
{
    let n: int = if slices >= 1 {
        slices as int
    } else {
        1
    };
    let w = window as int;
    let i = slice_idx as int;
    let d = spec_slice_due_at(window, slice_idx, slices);
    assert(w * i >= 0) by (nonlinear_arith)
        requires
            w >= 0,
            i >= 0,
    ;
    vstd::arithmetic::div_mod::lemma_fundamental_div_mod(w * i, n);
    vstd::arithmetic::div_mod::lemma_mod_pos_bound(w * i, n);
    vstd::arithmetic::div_mod::lemma_div_pos_is_pos(w * i, n);
    if i == 0 {
        assert(w * i == 0) by (nonlinear_arith)
            requires
                i == 0,
        ;
        assert(d == 0);
    } else {
        assert(d == (w * i) / n);
    }
    assert(d * n <= w * i < (d + 1) * n) by (nonlinear_arith)
        requires
            w * i == n * ((w * i) / n) + (w * i) % n,
            0 <= (w * i) % n < n,
            d == (w * i) / n,
    ;
}

/// The first clip is due at once, clips come due in order, and clip
/// `slices` (one past the last) is due exactly at the end of the window.
pub proof fn law_clips_come_due_across_the_window(window: u128, slice_idx: u32, slices: u32)
    requires
        slices >= 1,
    ensures
        spec_slice_due_at(window, 0, slices) == 0,
        spec_slice_due_at(window, slices, slices) == window,
        spec_slice_due_at(window, slice_idx, slices) <= spec_slice_due_at(
            window,
            (slice_idx + 1) as u32,
            slices,
        ) || slice_idx == u32::MAX,
        slice_idx <= slices ==> spec_slice_due_at(window, slice_idx, slices) <= window,
{
    let n = slices as int;
    let w = window as int;
    let i = slice_idx as int;
    assert((w * n) / n == w) by (nonlinear_arith)
        requires
            n >= 1,
    ;
    if slice_idx < u32::MAX {
        if i > 0 {
            assert(w * i <= w * (i + 1)) by (nonlinear_arith)
                requires
                    w >= 0,
                    i >= 0,
            ;
            vstd::arithmetic::div_mod::lemma_div_is_ordered(w * i, w * (i + 1), n);
        } else {
            assert(w * (i + 1) >= 0) by (nonlinear_arith)
                requires
                    w >= 0,
                    i >= 0,
            ;
            vstd::arithmetic::div_mod::lemma_div_pos_is_pos(w * (i + 1), n);
        }
    }
    if i <= n && i > 0 {
        assert(w * i <= w * n) by (nonlinear_arith)
            requires
                w >= 0,
                i <= n,
        ;
        vstd::arithmetic::div_mod::lemma_div_is_ordered(w * i, w * n, n);
    }
}

/// Clips past the last one are empty.
pub proof fn law_clips_past_the_end_are_empty(total: Dec, slice_idx: u32, slices: u32)
    requires
        slice_idx >= slices,
        slice_idx >= 1,
    ensures
        spec_slice_quantity(total, slice_idx, slices) == Some(dec_zero()),
{
}

/// Sum of the first `k` clips of a split of `total` into `slices` clips, in
/// units of `10^-28` (a clip that is `None` counts as zero).
pub open spec fn clips_sum(total: Dec, slices: u32, k: nat) -> int
    decreases k,
{
    if k == 0 {
        0
    } else {
        clips_sum(total, slices, (k - 1) as nat) + match spec_slice_quantity(
            total,
            (k - 1) as u32,
            slices,
        ) {
            Some(c) => c.val(),
            None => 0,
        }
    }
}

/// The split's division cannot round a clip up to a cent it does not reach:
/// the quotient of the (truncated) total by the clip count either does not
/// exceed the exact quotient, or keeps enough places that one unit in its
/// last place, times the clip count, stays below a cent. And the last clip's
/// arithmetic (the total of the other clips, and what the total leaves after
/// them) is exact.
pub open spec fn clip_split_is_precise(total: Dec, slices: u32) -> bool {
    let t = spec_trunc_shares(total);
    quotient_wf(t, dec_from_u64(slices as u64)) matches Some(q) ==> {
        let base = spec_trunc_shares(q);
        let others = dec_from_u64((slices - 1) as u64);
        &&& q.val() * slices <= t.val() || ulp(q) * slices < cent()
        &&& mul_fits(base, others)
        &&& sub_fits(t, mul_rep(base, others))
    }
}

/// The base clip, taken the clip count times, fits in the total.
proof fn lemma_base_clips_fit(t: Dec, q: Dec, n: u32)
    requires
        n >= 2,
        t.wf(),
        q.wf(),
        t.val() >= 0,
        t.val() == cents(t.val() / cent()),
        quotient_is_close(t, dec_from_u64(n as u64), q),
        q.val() * n <= t.val() || ulp(q) * n < cent(),
    ensures
        spec_trunc_shares(q).val() * n <= t.val(),
{
    let base = spec_trunc_shares(q);
    lemma_spec_trunc_shares(q);
    lemma_trunc_shares_cents(q);
    Dec::lemma_from_parts(n as int, 0);
    let u = unit();
    lemma_pow10_pos(MAX_SCALE as nat);
    lemma_pow10_pos((MAX_SCALE - SHARE_DECIMALS) as nat);
    let c = cent();
    let bv = base.val();
    let qv = q.val();
    let tv = t.val();
    let nn = n as int;
    let e = ulp(q);
    assert(dec_from_u64(n as u64).val() == nn * u);
    assert(qv * (nn * u) - tv * u <= (nn * u) * e);
    assert(qv * nn - tv <= nn * e) by (nonlinear_arith)
        requires
            qv * (nn * u) - tv * u <= (nn * u) * e,
            u >= 1,
    ;
    assert(bv <= qv || bv == 0);
    assert(bv >= 0);
    if bv == 0 {
        assert(bv * nn == 0) by (nonlinear_arith)
            requires
                bv == 0,
        ;
    } else {
        assert(bv * nn <= qv * nn) by (nonlinear_arith)
            requires
                0 <= bv <= qv,
                nn >= 2,
        ;
        if qv * nn > tv {
            assert(e * nn < c);
            let kb = bv / c;
            let kt = tv / c;
            assert(bv == kb * c);
            assert(tv == kt * c);
            assert(kb * nn * c < kt * c + c) by (nonlinear_arith)
                requires
                    bv * nn <= qv * nn,
                    qv * nn - tv <= nn * e,
                    e * nn < c,
                    bv == kb * c,
                    tv == kt * c,
            ;
            assert(kb * nn < kt + 1) by (nonlinear_arith)
                requires
                    kb * nn * c < kt * c + c,
                    c >= 1,
            ;
            assert(bv * nn <= tv) by (nonlinear_arith)
                requires
                    kb * nn <= kt,
                    bv == kb * c,
                    tv == kt * c,
                    c >= 1,
            ;
        }
    }
}

proof fn lemma_clips_sum_base(total: Dec, slices: u32, base: Dec, k: nat)
    requires
        slices >= 2,
        k <= slices - 1,
        forall|i: u32| i < slices - 1 ==> spec_slice_quantity(total, i, slices) == Some(base),
    ensures
        clips_sum(total, slices, k) == k * base.val(),
    decreases k,
{
    if k > 0 {
        lemma_clips_sum_base(total, slices, base, (k - 1) as nat);
        assert(spec_slice_quantity(total, (k - 1) as u32, slices) == Some(base));
        assert((k - 1) * base.val() + base.val() == k * base.val()) by (nonlinear_arith);
    } else {
        assert(0 * base.val() == 0);
    }
}

/// When the split's division cannot round a clip up to a new cent (see
/// [`clip_split_is_precise`]), the last clip's arithmetic is exact, and no
/// clip overflows, the clips add up to the total truncated to
/// share precision: the last clip absorbs the remainder.
pub proof fn law_clips_add_up_to_total(total: Dec, slices: u32)
    requires
        total.wf(),
        slices >= 1,
        clip_split_is_precise(total, slices),
        forall|i: u32| i < slices ==> spec_slice_quantity(total, i, slices) is Some,
    ensures
        clips_sum(total, slices, slices as nat) == spec_trunc_shares(total).val(),
        forall|i: u32|
            i < slices ==> (#[trigger] spec_slice_quantity(total, i, slices))->0.val() >= 0
                && spec_slice_quantity(total, i, slices)->0.sc() <= SHARE_DECIMALS,
        slices >= 2 ==> {
            let first = spec_slice_quantity(total, 0, slices)->0;
            &&& forall|i: u32|
                i + 1 < slices ==> #[trigger] spec_slice_quantity(total, i, slices) == Some(first)
            &&& spec_slice_quantity(total, (slices - 1) as u32, slices)->0.val() >= first.val()
        },
{
    lemma_dec_consts();
    let t = spec_trunc_shares(total);
    lemma_spec_trunc_shares(total);
    if slices == 1 {
        assert(spec_slice_quantity(total, 0, 1) == Some(t));
        assert(clips_sum(total, 1, 1) == clips_sum(total, 1, 0) + t.val());
    } else {
        let n = dec_from_u64(slices as u64);
        Dec::lemma_from_parts(slices as int, 0);
        assert(spec_slice_quantity(total, 0, slices) is Some);
        let q = quotient_wf(t, n)->0;
        let base = spec_trunc_shares(q);
        lemma_spec_trunc_shares(q);
        assert forall|i: u32| i < slices - 1 implies spec_slice_quantity(total, i, slices) == Some(
            base,
        ) by {}
        lemma_clips_sum_base(total, slices, base, (slices - 1) as nat);
        let last_idx = (slices - 1) as u32;
        assert(spec_slice_quantity(total, last_idx, slices) is Some);
        let m = dec_from_u64((slices - 1) as u64);
        Dec::lemma_from_parts((slices - 1) as int, 0);
        let spent = mul_opt(base, m)->0;
        lemma_mul_rep(base, m);
        let rest = sub_opt(t, spent)->0;
        lemma_sub_rep(t, spent);
        let u = unit();
        lemma_pow10_pos(MAX_SCALE as nat);
        assert(m.val() == (slices - 1) * u);
        // spent = base * (slices - 1)
        assert(spent.val() * u == base.val() * ((slices - 1) * u));
        assert(spent.val() == base.val() * (slices - 1)) by (nonlinear_arith)
            requires
                spent.val() * u == base.val() * ((slices - 1) * u),
                u >= 1,
        ;
        // spent <= t
        let bv = base.val();
        let qv = q.val();
        let tv = t.val();
        let nv = slices as int;
        assert(tv >= 0);
        lemma_trunc_shares_cents(total);
        lemma_base_clips_fit(t, q, slices);
        assert(bv >= 0);
        assert(bv * nv == bv * (nv - 1) + bv) by (nonlinear_arith);
        assert(bv * (nv - 1) <= tv);
        assert(rest.val() >= 0);
        assert(rest.sc() <= 2);
        crate::decimal::lemma_trunc_identity(rest, 2);
        crate::decimal::lemma_trunc_rep(rest, 2);
        crate::decimal::lemma_trunc_val_nonneg(rest.val(), 2);
        assert(spec_trunc_shares(rest).val() == rest.val());
        assert(clips_sum(total, slices, slices as nat) == clips_sum(
            total,
            slices,
            (slices - 1) as nat,
        ) + rest.val());
        assert((nv - 1) * bv == bv * (nv - 1)) by (nonlinear_arith);
        assert(spec_slice_quantity(total, last_idx, slices)->0.val() == rest.val());
        assert forall|i: u32|
            i < slices implies (#[trigger] spec_slice_quantity(total, i, slices))->0.val() >= 0
                && spec_slice_quantity(total, i, slices)->0.sc() <= SHARE_DECIMALS by {
            if i + 1 < slices {
                assert(spec_slice_quantity(total, i, slices) == Some(base));
            }
        }
    }
}


/// Whether the clips left in a run should be skipped instead of fired late:
/// the run has lasted its whole window.
pub fn leftover_clips_expired(elapsed: u128, window: u128) -> (r: bool)
    ensures
        r == (elapsed >= window),
{
    elapsed >= window
}

/// Clip `slice_idx` of `slices` for both legs of a plan: each leg split with
/// [`slice_quantity`] (a leg whose split overflows gets no clip),
/// and a positive clip below the venue minimum dropped to zero.
pub open spec fn spec_paired_slice(
    qty_a: Dec,
    qty_b: Dec,
    slice_idx: u32,
    slices: u32,
    min_order_size: Dec,
) -> (Dec, Dec) {
    (
        spec_leg_clip(qty_a, slice_idx, slices, min_order_size),
        spec_leg_clip(qty_b, slice_idx, slices, min_order_size),
    )
}

pub open spec fn spec_leg_clip(qty: Dec, slice_idx: u32, slices: u32, min_order_size: Dec) -> Dec {
    match spec_slice_quantity(qty, slice_idx, slices) {
        None => dec_zero(),
        Some(c) => if c.val() > 0 && c.val() < min_order_size.val() {
            dec_zero()
        } else {
            c
        },
    }
}

fn leg_clip(qty: Dec, slice_idx: u32, slices: u32, min_order_size: Dec) -> (r: Dec)
    ensures
        r == spec_leg_clip(qty, slice_idx, slices, min_order_size),
{
    let zero = Dec::zero();
    match slice_quantity(qty, slice_idx, slices) {
        None => zero,
        Some(c) => if c.gt(&zero) && c.lt(&min_order_size) {
            zero
        } else {
            c
        },
    }
}

/// The clip quantities of both legs for clip `slice_idx` of `slices` (see
/// [`spec_paired_slice`]).
pub fn paired_slice(qty_a: Dec, qty_b: Dec, slice_idx: u32, slices: u32, min_order_size: Dec) -> (r:
    (Dec, Dec))
    ensures
        r == spec_paired_slice(qty_a, qty_b, slice_idx, slices, min_order_size),
{
    (
        leg_clip(qty_a, slice_idx, slices, min_order_size),
        leg_clip(qty_b, slice_idx, slices, min_order_size),
    )
}

} // verus!
