//! The decisions of one polling cycle: sample books → TWAP → size plan →
//! sliced limit orders.
//!
//! The application fetches order books and posts orders; [`EngineCore`]
//! decides, from the quotes it is handed, what to post and how its state
//! moves on. A cycle is `observe`, then `advance`; when `advance` asks for a
//! clip to be placed, the application places its missing legs and reports
//! the outcome with `settle_clip`.
use vstd::prelude::*;

use crate::config::{PollingConfig, StrategyConfig, TwapConfig};
use crate::decimal::{add_fits, add_opt, dec_max, dec_zero, Dec};
use crate::market_data::{
    best_ask, passive_buy_limit, spec_best_ask, spec_passive_buy_limit, BookLevel, PriceError,
};
use crate::strategy::{plan_sizes, spec_plan_sizes, SizePlan};
use crate::twap::{
    leftover_clips_expired, NANOS_PER_MILLI, paired_slice, slice_due_at, spec_evict, spec_paired_slice,
    spec_slice_due_at, spec_twap_value, QuoteSample, QuoteTwap,
};

verus! {

/// The legs of one clip and the order ids obtained so far.
#[derive(Debug, Clone)]
pub struct ClipFill {
    pub id_a: Option<String>,
    pub id_b: Option<String>,
    pub qty_a: Dec,
    pub qty_b: Dec,
}

impl ClipFill {
    /// Every leg with a positive quantity has an order id.
    pub open spec fn spec_complete(&self) -> bool {
        (self.qty_a.val() <= 0 || self.id_a is Some) && (self.qty_b.val() <= 0 || self.id_b is Some)
    }

    pub fn complete(&self) -> (r: bool)
        ensures
            r == self.spec_complete(),
    {
        let zero = Dec::zero();
        (self.qty_a.le(&zero) || self.id_a.is_some()) && (self.qty_b.le(&zero)
            || self.id_b.is_some())
    }

    /// Leg A still has to be posted.
    pub fn needs_a(&self) -> (r: bool)
        ensures
            r == (self.qty_a.val() > 0 && self.id_a is None),
    {
        let zero = Dec::zero();
        self.qty_a.gt(&zero) && self.id_a.is_none()
    }

    /// Leg B still has to be posted.
    pub fn needs_b(&self) -> (r: bool)
        ensures
            r == (self.qty_b.val() > 0 && self.id_b is None),
    {
        let zero = Dec::zero();
        self.qty_b.gt(&zero) && self.id_b.is_none()
    }
}

/// A TWAP execution run in progress.
#[derive(Debug, Clone)]
pub struct TwapRun {
    /// When the run started (nanoseconds).
    pub started: u128,
    pub plan: SizePlan,
    /// Index of the next clip to fire.
    pub next_slice: u32,
    pub slices: u32,
    /// In-flight clip after one leg filled and the other failed.
    pub open_clip: Option<ClipFill>,
}

/// The execution state that the cycles move on.
#[derive(Debug, Clone)]
pub struct RunState {
    pub current: Option<TwapRun>,
    /// Shares submitted on each leg in the current (or last) run.
    pub submitted_a: Dec,
    pub submitted_b: Dec,
    pub last_order_a: Option<String>,
    pub last_order_b: Option<String>,
    /// No new run starts before this instant (nanoseconds).
    pub cooldown_until: Option<u128>,
}

impl RunState {
    /// A run in progress has a clip left to fire.
    pub open spec fn wf(self) -> bool {
        self.current matches Some(run) ==> run.next_slice < run.slices
    }
}

/// What a cycle ended with.
#[derive(Debug, Clone, Copy, PartialEq, Eq, Structural)]
pub enum Status {
    /// The cycle failed and will be retried.
    RetryingAfterError,
    /// The run's window elapsed; its leftover clips were skipped.
    WindowElapsed,
    /// The bundle no longer locks an edge; the run was aborted.
    Aborted,
    /// A run is in progress; clip `next_clip` (1-based) is not yet due.
    InProgress { next_clip: u32, slices: u32 },
    /// The TWAP window is still filling: `span` nanoseconds of `window_secs` seconds.
    Warming { span: u128, window_secs: u64 },
    /// A run finished recently; waiting for the cooldown to pass.
    Cooldown,
    /// No locked edge on the TWAP.
    Watching,
    /// The last clip of a run was submitted.
    WindowComplete { slices: u32 },
    /// Clip `clip` (1-based) of `slices` was submitted.
    ClipSubmitted { clip: u32, slices: u32 },
    /// A clip is missing a leg; only the missing leg will be retried.
    HedgeIncomplete,
}

/// What the application has to do after [`EngineCore::advance`].
#[derive(Debug, Clone)]
pub enum Advance {
    /// Nothing to post; the cycle ended with this status.
    Done(Status),
    /// Post the missing legs of this clip, then call [`EngineCore::settle_clip`].
    Place(ClipFill),
}

/// Best asks, tick sizes and venue minimum of the two outcome books.
#[derive(Debug, Clone, Copy)]
pub struct LiveQuote {
    pub ask_a: Dec,
    pub ask_b: Dec,
    pub tick_a: Dec,
    pub tick_b: Dec,
    pub min_order_size: Dec,
}

/// An outcome book without a live ask.
#[derive(Debug, Clone, Copy, PartialEq, Eq, Structural)]
pub enum SnapshotError {
    /// No level of positive size on outcome A's ask side.
    EmptyAsksA,
    /// No level of positive size on outcome B's ask side.
    EmptyAsksB,
}

/// See [`LiveQuote::from_books`].
pub open spec fn spec_live_quote(
    asks_a: Seq<BookLevel>,
    asks_b: Seq<BookLevel>,
    tick_a: Dec,
    tick_b: Dec,
    min_a: Dec,
    min_b: Dec,
) -> Result<LiveQuote, SnapshotError> {
    match (spec_best_ask(asks_a), spec_best_ask(asks_b)) {
        (None, _) => Err(SnapshotError::EmptyAsksA),
        (Some(_), None) => Err(SnapshotError::EmptyAsksB),
        (Some(a), Some(b)) => Ok(
            LiveQuote { ask_a: a, ask_b: b, tick_a, tick_b, min_order_size: dec_max(min_a, min_b) },
        ),
    }
}

impl LiveQuote {
    /// The live quote of the two outcome books: the best ask of each side,
    /// each book's tick size, and the larger of the two books' minimum order
    /// sizes; an error names the first book without a live ask.
    pub fn from_books(
        asks_a: &Vec<BookLevel>,
        asks_b: &Vec<BookLevel>,
        tick_a: Dec,
        tick_b: Dec,
        min_a: Dec,
        min_b: Dec,
    ) -> (r: Result<LiveQuote, SnapshotError>)
        ensures
            r == spec_live_quote(asks_a@, asks_b@, tick_a, tick_b, min_a, min_b),
    {
        let ask_a = match best_ask(asks_a) {
            Some(a) => a,
            None => return Err(SnapshotError::EmptyAsksA),
        };
        let ask_b = match best_ask(asks_b) {
            Some(b) => b,
            None => return Err(SnapshotError::EmptyAsksB),
        };
        Ok(LiveQuote { ask_a, ask_b, tick_a, tick_b, min_order_size: min_a.max(min_b) })
    }
}

/// What a cycle computed from the live quotes.
#[derive(Debug, Clone, Copy)]
pub struct Observation {
    pub plan: Option<SizePlan>,
    pub ready: bool,
    /// The asks that sized the plan (TWAP when available, else live).
    pub size_ask_a: Dec,
    pub size_ask_b: Dec,
    /// BUY limit prices from the live asks.
    pub px_a: Dec,
    pub px_b: Dec,
}

pub struct EngineCore {
    pub twap_cfg: TwapConfig,
    pub strategy: StrategyConfig,
    pub polling: PollingConfig,
    pub dry_run: bool,
    pub tolerate_errors: bool,
    /// One-shot mode: the live snapshot is a one-sample TWAP.
    pub oneshot: bool,
    pub twap: QuoteTwap,
    pub run: RunState,
    pub last_error: Option<String>,
}

impl EngineCore {
    /// The configuration and the mode flags are those of `other`; no step of
    /// the engine changes them.
    pub open spec fn same_settings(self, other: EngineCore) -> bool {
        &&& self.twap_cfg == other.twap_cfg
        &&& self.strategy == other.strategy
        &&& self.polling == other.polling
        &&& self.dry_run == other.dry_run
        &&& self.tolerate_errors == other.tolerate_errors
        &&& self.oneshot == other.oneshot
    }
}

/// The TWAP is ready: one sample in one-shot mode, otherwise a full window of samples.
pub open spec fn spec_twap_ready(
    samples: Seq<QuoteSample>,
    oneshot: bool,
    window: u128,
    now: u128,
) -> bool {
    if oneshot {
        samples.len() >= 1
    } else {
        match spec_twap_value(samples, now) {
            Some(q) => q.span >= window,
            None => false,
        }
    }
}

/// The clip to fire next: the open clip of the run if any, else the next
/// slice of the plan.
pub open spec fn spec_next_fill(run: TwapRun, min_order_size: Dec) -> ClipFill {
    match run.open_clip {
        Some(open) => open,
        None => {
            let (qty_a, qty_b) = spec_paired_slice(
                run.plan.qty_a,
                run.plan.qty_b,
                run.next_slice,
                run.slices,
                min_order_size,
            );
            ClipFill { id_a: None, id_b: None, qty_a, qty_b }
        },
    }
}

/// `a + b`, or `a` when the sum overflows.
pub open spec fn add_or_keep(a: Dec, b: Dec) -> Dec {
    match add_opt(a, b) {
        Some(s) => s,
        None => a,
    }
}

/// An order id to remember: a posted id, not a dry-run marker.
pub open spec fn remembered(id: Option<String>, marker: Seq<char>, previous: Option<String>) -> Option<
    String,
> {
    match id {
        Some(s) => if s@ != marker {
            Some(s)
        } else {
            previous
        },
        None => previous,
    }
}

/// `now + d`, saturating.
pub open spec fn later(now: u128, d: u128) -> u128 {
    if now + d <= u128::MAX {
        (now + d) as u128
    } else {
        u128::MAX
    }
}

/// The state and status after a clip is settled: the ids are remembered,
/// the quantities added to the submitted totals, and the run moves to its
/// next clip, finishing (and starting the cooldown) after the last one.
pub open spec fn spec_finalize(
    st: RunState,
    run: TwapRun,
    fill: ClipFill,
    cooldown: u128,
    now: u128,
) -> (RunState, Status) {
    let next = (run.next_slice + 1) as u32;
    let finished = next >= run.slices;
    let st2 = RunState {
        current: if finished {
            None
        } else {
            Some(TwapRun { next_slice: next, open_clip: None, ..run })
        },
        submitted_a: add_or_keep(st.submitted_a, fill.qty_a),
        submitted_b: add_or_keep(st.submitted_b, fill.qty_b),
        last_order_a: remembered(fill.id_a, "dry-run-a"@, st.last_order_a),
        last_order_b: remembered(fill.id_b, "dry-run-b"@, st.last_order_b),
        cooldown_until: if finished {
            Some(later(now, cooldown))
        } else {
            st.cooldown_until
        },
    };
    let status = if finished {
        Status::WindowComplete { slices: run.slices }
    } else {
        Status::ClipSubmitted { clip: next, slices: run.slices }
    };
    (st2, status)
}

/// Firing the next clip of `run`: in dry-run mode, or with nothing to post,
/// it is settled at once; otherwise it is handed out to be posted.
pub open spec fn spec_fire(
    st: RunState,
    run: TwapRun,
    dry_run: bool,
    cooldown: u128,
    now: u128,
    min_order_size: Dec,
) -> (RunState, Advance) {
    let fill = spec_next_fill(run, min_order_size);
    if !dry_run && (fill.qty_a.val() > 0 || fill.qty_b.val() > 0) {
        (RunState { current: Some(TwapRun { open_clip: None, ..run }), ..st }, Advance::Place(fill))
    } else {
        let settled = ClipFill { id_a: None, id_b: None, ..fill };
        let (st2, status) = spec_finalize(st, run, settled, cooldown, now);
        (st2, Advance::Done(status))
    }
}

/// Aborting a run: no run, and the cooldown starts now.
pub open spec fn spec_abort(st: RunState, cooldown: u128, now: u128) -> RunState {
    RunState { current: None, cooldown_until: Some(later(now, cooldown)), ..st }
}

/// The decision of one cycle (see [`EngineCore::advance`]).
pub open spec fn spec_advance(
    st: RunState,
    cfg: TwapConfig,
    dry_run: bool,
    samples: Seq<QuoteSample>,
    now: u128,
    ready: bool,
    plan: Option<SizePlan>,
    min_order_size: Dec,
) -> (RunState, Advance) {
    let window = cfg.window_spec();
    let cooldown = cfg.cooldown_spec();
    match st.current {
        Some(run) => {
            let elapsed = crate::twap::since(now, run.started);
            if elapsed >= window && run.open_clip is None {
                (spec_abort(st, cooldown, now), Advance::Done(Status::WindowElapsed))
            } else if plan is None {
                (spec_abort(st, cooldown, now), Advance::Done(Status::Aborted))
            } else if elapsed >= spec_slice_due_at(window, run.next_slice, run.slices) {
                spec_fire(st, run, dry_run, cooldown, now, min_order_size)
            } else {
                (
                    st,
                    Advance::Done(
                        Status::InProgress {
                            next_clip: (run.next_slice + 1) as u32,
                            slices: run.slices,
                        },
                    ),
                )
            }
        },
        None => {
            if !ready {
                let span = match spec_twap_value(samples, now) {
                    Some(q) => q.span,
                    None => 0,
                };
                (st, Advance::Done(Status::Warming { span, window_secs: cfg.window_secs }))
            } else if st.cooldown_until matches Some(until) && now < until {
                (st, Advance::Done(Status::Cooldown))
            } else {
                match plan {
                    None => (st, Advance::Done(Status::Watching)),
                    Some(p) => {
                        let run = TwapRun {
                            started: now,
                            plan: p,
                            next_slice: 0,
                            slices: cfg.slice_count_spec(),
                            open_clip: None,
                        };
                        let st2 = RunState {
                            current: Some(run),
                            submitted_a: dec_zero(),
                            submitted_b: dec_zero(),
                            ..st
                        };
                        spec_fire(st2, run, dry_run, cooldown, now, min_order_size)
                    },
                }
            }
        },
    }
}

fn is_posted_id(id: &Option<String>, marker: &str) -> (r: bool)
    ensures
        r == (id matches Some(s) && s@ != marker@),
{
    match id {
        Some(s) => {
            let m = String::from_str(marker);
            !(*s == m)
        },
        None => false,
    }
}

impl EngineCore {
    pub open spec fn wf(&self) -> bool {
        self.run.wf()
    }

    /// An engine with no samples, no run and no submissions.
    pub fn new(
        twap_cfg: TwapConfig,
        strategy: StrategyConfig,
        polling: PollingConfig,
        dry_run: bool,
        tolerate_errors: bool,
    ) -> (r: Self)
        ensures
            r.wf(),
            r.twap_cfg == twap_cfg,
            r.strategy == strategy,
            r.polling == polling,
            r.dry_run == dry_run,
            r.tolerate_errors == tolerate_errors,
            !r.oneshot,
            r.twap@ == (twap_cfg.window_spec(), Seq::<QuoteSample>::empty()),
            r.run.current is None,
            r.run.submitted_a == dec_zero(),
            r.run.submitted_b == dec_zero(),
            r.run.last_order_a is None,
            r.run.last_order_b is None,
            r.run.cooldown_until is None,
            r.last_error is None,
    {
        let window = twap_cfg.window();
        EngineCore {
            twap_cfg,
            strategy,
            polling,
            dry_run,
            tolerate_errors,
            oneshot: false,
            twap: QuoteTwap::new(window),
            run: RunState {
                current: None,
                submitted_a: Dec::zero(),
                submitted_b: Dec::zero(),
                last_order_a: None,
                last_order_b: None,
                cooldown_until: None,
            },
            last_error: None,
        }
    }

    /// An engine for a single evaluation: the live snapshot is a one-sample
    /// TWAP and the whole plan goes out as one clip.
    pub fn new_oneshot(
        twap_cfg: TwapConfig,
        strategy: StrategyConfig,
        polling: PollingConfig,
        dry_run: bool,
    ) -> (r: Self)
        ensures
            r.wf(),
            r.oneshot,
            !r.tolerate_errors,
            r.dry_run == dry_run,
            r.twap_cfg == (TwapConfig { slices: 1, ..twap_cfg }),
            r.twap@ == (twap_cfg.window_spec(), Seq::<QuoteSample>::empty()),
            r.run.current is None,
            r.run.cooldown_until is None,
    {
        let mut e = EngineCore::new(twap_cfg, strategy, polling, dry_run, false);
        e.oneshot = true;
        e.twap_cfg.slices = 1;
        e
    }

    /// The pause between cycles in nanoseconds: the polling interval, at least 200 ms.
    pub fn poll_interval(&self) -> (r: u128)
        ensures
            r == (if self.polling.interval_ms >= 200 {
                self.polling.interval_ms
            } else {
                200
            }) * NANOS_PER_MILLI,
    {
        let ms: u64 = if self.polling.interval_ms >= 200 {
            self.polling.interval_ms
        } else {
            200
        };
        (ms as u128) * NANOS_PER_MILLI
    }

    pub fn is_twap_ready(&self, now: u128) -> (r: bool)
        ensures
            r == spec_twap_ready(self.twap@.1, self.oneshot, self.twap_cfg.window_spec(), now),
            self.oneshot ==> (r <==> self.twap@.1.len() >= 1),
            !self.oneshot ==> (r <==> (spec_twap_value(self.twap@.1, now) is Some
                && self.twap@.1.len() >= 1 && (if now >= self.twap@.1[0].at {
                now - self.twap@.1[0].at
            } else {
                0
            }) >= self.twap_cfg.window_spec())),
    {
        if self.oneshot {
            return self.twap.sample_count() >= 1;
        }
        let window = self.twap_cfg.window();
        match self.twap.value(now) {
            Some(q) => q.span >= window,
            None => false,
        }
    }

    /// Record the live quotes at `now` in the TWAP, size a plan off the TWAP
    /// asks (the live asks when there is no TWAP value), and derive the limit
    /// prices from the live asks.
    pub fn observe(&mut self, now: u128, live: &LiveQuote) -> (r: Result<Observation, PriceError>)
        ensures
            final(self).twap@.0 == old(self).twap@.0,
            final(self).twap@.1 == spec_evict(
                old(self).twap@.1.push(QuoteSample { at: now, ask_a: live.ask_a, ask_b: live.ask_b }),
                now,
                old(self).twap@.0,
            ),
            final(self).run == old(self).run,
            final(self).twap_cfg == old(self).twap_cfg,
            final(self).strategy == old(self).strategy,
            final(self).dry_run == old(self).dry_run,
            final(self).oneshot == old(self).oneshot,
            final(self).tolerate_errors == old(self).tolerate_errors,
            final(self).last_error == old(self).last_error,
            final(self).same_settings(*old(self)),
            ({
                let samples = final(self).twap@.1;
                let (size_a, size_b) = match spec_twap_value(samples, now) {
                    Some(q) => (q.ask_a, q.ask_b),
                    None => (live.ask_a, live.ask_b),
                };
                let ticks = old(self).strategy.price_improve_ticks;
                match (
                    spec_passive_buy_limit(live.ask_a, live.tick_a, ticks),
                    spec_passive_buy_limit(live.ask_b, live.tick_b, ticks),
                ) {
                    (Err(e), _) => r == Err::<Observation, PriceError>(e),
                    (Ok(_), Err(e)) => r == Err::<Observation, PriceError>(e),
                    (Ok(px_a), Ok(px_b)) => r == Ok::<Observation, PriceError>(
                        Observation {
                            plan: spec_plan_sizes(
                                size_a,
                                size_b,
                                old(self).strategy.fair_probability_a,
                                old(self).strategy.params_spec(),
                                live.min_order_size,
                            ),
                            ready: spec_twap_ready(
                                samples,
                                old(self).oneshot,
                                old(self).twap_cfg.window_spec(),
                                now,
                            ),
                            size_ask_a: size_a,
                            size_ask_b: size_b,
                            px_a,
                            px_b,
                        },
                    ),
                }
            }),
    {
        self.twap.push(QuoteSample { at: now, ask_a: live.ask_a, ask_b: live.ask_b });
        let tw = self.twap.value(now);
        let ready = self.is_twap_ready(now);
        let (size_ask_a, size_ask_b) = match tw {
            Some(q) => (q.ask_a, q.ask_b),
            None => (live.ask_a, live.ask_b),
        };
        let params = self.strategy.params();
        let plan = plan_sizes(
            size_ask_a,
            size_ask_b,
            self.strategy.fair_probability_a,
            &params,
            live.min_order_size,
        );
        let improve = self.strategy.price_improve_ticks;
        let px_a = match passive_buy_limit(live.ask_a, live.tick_a, improve) {
            Ok(p) => p,
            Err(e) => return Err(e),
        };
        let px_b = match passive_buy_limit(live.ask_b, live.tick_b, improve) {
            Ok(p) => p,
            Err(e) => return Err(e),
        };
        Ok(Observation { plan, ready, size_ask_a, size_ask_b, px_a, px_b })
    }

    fn abort_run(&mut self, now: u128)
        ensures
            final(self).run == spec_abort(
                old(self).run,
                old(self).twap_cfg.cooldown_spec(),
                now,
            ),
            final(self).tolerate_errors == old(self).tolerate_errors,
            final(self).twap_cfg == old(self).twap_cfg,
            final(self).dry_run == old(self).dry_run,
            final(self).twap@ == old(self).twap@,
            final(self).same_settings(*old(self)),
            final(self).last_error == old(self).last_error,
    {
        let cooldown = self.twap_cfg.cooldown();
        self.run.current = None;
        self.run.cooldown_until = Some(now.saturating_add(cooldown));
    }

    /// Decide what the cycle does with the run, given whether the TWAP is
    /// ready and the plan sized this cycle.
    ///
    /// With a run in progress: skip the leftover clips once the run has
    /// lasted its window (unless a clip is half posted), abort when the
    /// bundle no longer locks, fire the next clip when it is due. Without
    /// one: wait for the TWAP, then for the cooldown, then start a run with
    /// the plan and fire its first clip.
    pub fn advance(&mut self, now: u128, ready: bool, plan: Option<SizePlan>, min_order_size: Dec) -> (r:
        Advance)
        requires
            old(self).wf(),
        ensures
            final(self).wf(),
            (final(self).run, r) == spec_advance(
                old(self).run,
                old(self).twap_cfg,
                old(self).dry_run,
                old(self).twap@.1,
                now,
                ready,
                plan,
                min_order_size,
            ),
            final(self).twap@ == old(self).twap@,
            final(self).twap_cfg == old(self).twap_cfg,
            final(self).dry_run == old(self).dry_run,
            final(self).tolerate_errors == old(self).tolerate_errors,
            final(self).same_settings(*old(self)),
            final(self).last_error == old(self).last_error,
    {
        let window = self.twap_cfg.window();
        if self.run.current.is_some() {
            let (elapsed, next_slice, slices, has_open) = match &self.run.current {
                Some(run) => (
                    if now >= run.started {
                        now - run.started
                    } else {
                        0
                    },
                    run.next_slice,
                    run.slices,
                    run.open_clip.is_some(),
                ),
                None => (0, 0, 1, false),
            };
            if leftover_clips_expired(elapsed, window) && !has_open {
                self.abort_run(now);
                return Advance::Done(Status::WindowElapsed);
            }
            if plan.is_none() {
                self.abort_run(now);
                return Advance::Done(Status::Aborted);
            }
            proof {
                assert(window * next_slice <= u128::MAX) by (nonlinear_arith)
                    requires
                        window <= 0xffff_ffff_ffff_ffff * 1_000_000_000,
                        next_slice <= 0xffff_ffff,
                ;
            }
            let due = slice_due_at(window, next_slice, slices);
            if elapsed >= due {
                return self.fire_next_clip(now, min_order_size);
            }
            return Advance::Done(Status::InProgress { next_clip: next_slice + 1, slices });
        }
        if !ready {
            let span = match self.twap.value(now) {
                Some(q) => q.span,
                None => 0,
            };
            return Advance::Done(Status::Warming { span, window_secs: self.twap_cfg.window_secs });
        }
        match self.run.cooldown_until {
            Some(until) => {
                if now < until {
                    return Advance::Done(Status::Cooldown);
                }
            },
            None => {},
        }
        let p = match plan {
            Some(p) => p,
            None => return Advance::Done(Status::Watching),
        };
        self.run.current = Some(
            TwapRun {
                started: now,
                plan: p,
                next_slice: 0,
                slices: self.twap_cfg.slice_count(),
                open_clip: None,
            },
        );
        self.run.submitted_a = Dec::zero();
        self.run.submitted_b = Dec::zero();
        self.fire_next_clip(now, min_order_size)
    }

    fn fire_next_clip(&mut self, now: u128, min_order_size: Dec) -> (r: Advance)
        requires
            old(self).run.current is Some,
            old(self).wf(),
        ensures
            final(self).wf(),
            (final(self).run, r) == spec_fire(
                old(self).run,
                old(self).run.current->0,
                old(self).dry_run,
                old(self).twap_cfg.cooldown_spec(),
                now,
                min_order_size,
            ),
            final(self).twap@ == old(self).twap@,
            final(self).twap_cfg == old(self).twap_cfg,
            final(self).dry_run == old(self).dry_run,
            final(self).same_settings(*old(self)),
            final(self).last_error == old(self).last_error,
            final(self).tolerate_errors == old(self).tolerate_errors,
    {
        let run = match self.run.current.take() {
            Some(run) => run,
            None => {
                proof {
                    assert(false);
                }
                return Advance::Done(Status::Watching);
            },
        };
        let bare = TwapRun {
            started: run.started,
            plan: run.plan,
            next_slice: run.next_slice,
            slices: run.slices,
            open_clip: None,
        };
        let fill = match run.open_clip {
            Some(open) => open,
            None => {
                let (qty_a, qty_b) = paired_slice(
                    run.plan.qty_a,
                    run.plan.qty_b,
                    run.next_slice,
                    run.slices,
                    min_order_size,
                );
                ClipFill { id_a: None, id_b: None, qty_a, qty_b }
            },
        };
        let zero = Dec::zero();
        if !self.dry_run && (fill.qty_a.gt(&zero) || fill.qty_b.gt(&zero)) {
            self.run.current = Some(bare);
            return Advance::Place(fill);
        }
        let settled = ClipFill { id_a: None, id_b: None, qty_a: fill.qty_a, qty_b: fill.qty_b };
        let status = self.finalize(bare, settled, now);
        Advance::Done(status)
    }

    fn finalize(&mut self, run: TwapRun, fill: ClipFill, now: u128) -> (r: Status)
        requires
            run.next_slice < run.slices,
        ensures
            final(self).wf(),
            (final(self).run, r) == spec_finalize(
                old(self).run,
                run,
                fill,
                old(self).twap_cfg.cooldown_spec(),
                now,
            ),
            final(self).twap@ == old(self).twap@,
            final(self).twap_cfg == old(self).twap_cfg,
            final(self).dry_run == old(self).dry_run,
            final(self).tolerate_errors == old(self).tolerate_errors,
            final(self).same_settings(*old(self)),
            final(self).last_error == old(self).last_error,
    {
        if is_posted_id(&fill.id_a, "dry-run-a") {
            self.run.last_order_a = fill.id_a.clone();
        }
        if is_posted_id(&fill.id_b, "dry-run-b") {
            self.run.last_order_b = fill.id_b.clone();
        }
        match self.run.submitted_a.checked_add(fill.qty_a) {
            Some(s) => {
                self.run.submitted_a = s;
            },
            None => {},
        }
        match self.run.submitted_b.checked_add(fill.qty_b) {
            Some(s) => {
                self.run.submitted_b = s;
            },
            None => {},
        }
        let next = run.next_slice + 1;
        let slices = run.slices;
        if next >= slices {
            let cooldown = self.twap_cfg.cooldown();
            self.run.current = None;
            self.run.cooldown_until = Some(now.saturating_add(cooldown));
            return Status::WindowComplete { slices };
        }
        self.run.current = Some(
            TwapRun {
                started: run.started,
                plan: run.plan,
                next_slice: next,
                slices,
                open_clip: None,
            },
        );
        Status::ClipSubmitted { clip: next, slices }
    }

    /// Settle a clip handed out by [`EngineCore::advance`], with the ids the
    /// application obtained. When the posting failed, the clip is kept open
    /// so that only its missing legs are retried; the status is
    /// `HedgeIncomplete` when errors are tolerated, `None` (the cycle fails)
    /// otherwise.
    pub fn settle_clip(&mut self, fill: ClipFill, posting_failed: bool, now: u128) -> (r: Option<
        Status,
    >)
        requires
            old(self).wf(),
        ensures
            final(self).wf(),
            final(self).twap@ == old(self).twap@,
            final(self).twap_cfg == old(self).twap_cfg,
            final(self).same_settings(*old(self)),
            final(self).last_error == old(self).last_error,
            old(self).run.current matches Some(run) ==> {
                if posting_failed {
                    &&& final(self).run == (RunState {
                        current: Some(TwapRun { open_clip: Some(fill), ..run }),
                        ..old(self).run
                    })
                    &&& r == (if old(self).tolerate_errors {
                        Some(Status::HedgeIncomplete)
                    } else {
                        None
                    })
                } else {
                    let (st, status) = spec_finalize(
                        old(self).run,
                        run,
                        fill,
                        old(self).twap_cfg.cooldown_spec(),
                        now,
                    );
                    final(self).run == st && r == Some(status)
                }
            },
            old(self).run.current is None ==> final(self).run == old(self).run && r is None,
    {
        let run = match self.run.current.take() {
            Some(run) => run,
            None => return None,
        };
        if posting_failed {
            self.run.current = Some(
                TwapRun {
                    started: run.started,
                    plan: run.plan,
                    next_slice: run.next_slice,
                    slices: run.slices,
                    open_clip: Some(fill),
                },
            );
            if self.tolerate_errors {
                return Some(Status::HedgeIncomplete);
            }
            return None;
        }
        let status = self.finalize(run, fill, now);
        Some(status)
    }

    /// A cycle succeeded: the last error is cleared.
    pub fn tick_succeeded(&mut self)
        ensures
            final(self).last_error is None,
            final(self).run == old(self).run,
            final(self).twap@ == old(self).twap@,
            final(self).twap_cfg == old(self).twap_cfg,
            final(self).tolerate_errors == old(self).tolerate_errors,
            final(self).same_settings(*old(self)),
    {
        self.last_error = None;
    }

    /// A cycle failed with `message`: when errors are tolerated the message
    /// is kept for display and `true` is returned (the cycle reports
    /// `RetryingAfterError`); otherwise nothing changes and the error ends the cycle.
    pub fn tick_failed(&mut self, message: String) -> (r: bool)
        ensures
            r == old(self).tolerate_errors,
            final(self).last_error == (if r {
                Some(message)
            } else {
                old(self).last_error
            }),
            final(self).run == old(self).run,
            final(self).twap@ == old(self).twap@,
            final(self).twap_cfg == old(self).twap_cfg,
            final(self).tolerate_errors == old(self).tolerate_errors,
            final(self).same_settings(*old(self)),
    {
        if self.tolerate_errors {
            self.last_error = Some(message);
            true
        } else {
            false
        }
    }
}


/// In dry-run mode no clip is ever handed out for posting, and a clip that
/// is handed out always has something to post on at least one leg.
pub proof fn law_dry_run_never_posts(
    st: RunState,
    cfg: TwapConfig,
    dry_run: bool,
    samples: Seq<QuoteSample>,
    now: u128,
    ready: bool,
    plan: Option<SizePlan>,
    min_order_size: Dec,
)
    ensures
        dry_run ==> !(spec_advance(st, cfg, dry_run, samples, now, ready, plan, min_order_size).1 is Place),
        spec_advance(st, cfg, dry_run, samples, now, ready, plan, min_order_size).1 matches Advance::Place(
            fill,
        ) ==> fill.qty_a.val() > 0 || fill.qty_b.val() > 0,
{
}

/// Outside one-shot mode the engine is ready exactly when the TWAP has an
/// average at `now` and its span, from the oldest retained sample to `now`
/// (zero when that sample is not older), is at least a full window.
pub proof fn law_ready_only_after_a_full_window(
    samples: Seq<QuoteSample>,
    window: u128,
    now: u128,
)
    ensures
        spec_twap_ready(samples, false, window, now) <==> (spec_twap_value(samples, now) is Some
            && samples.len() >= 1 && (if now >= samples[0].at {
            now - samples[0].at
        } else {
            0
        }) >= window),
{
}

/// In one-shot mode a single sample makes the engine ready.
pub proof fn law_one_shot_ready_with_one_sample(samples: Seq<QuoteSample>, window: u128, now: u128)
    ensures
        spec_twap_ready(samples, true, window, now) <==> samples.len() >= 1,
{
}

/// A run whose window has elapsed, with no half-posted clip, is cleared: its
/// leftover clips are skipped, not fired late. The cooldown starts at `now`,
/// nothing is handed out, the cycle reports `WindowElapsed`, and the rest of
/// the state is kept.
pub proof fn law_elapsed_window_skips_leftover_clips(
    st: RunState,
    cfg: TwapConfig,
    dry_run: bool,
    samples: Seq<QuoteSample>,
    now: u128,
    ready: bool,
    plan: Option<SizePlan>,
    min_order_size: Dec,
)
    requires
        st.current matches Some(run) && now >= run.started && now - run.started
            >= cfg.window_spec() && run.open_clip is None,
    ensures
        ({
            let (st2, adv) = spec_advance(st, cfg, dry_run, samples, now, ready, plan, min_order_size);
            &&& adv == Advance::Done(Status::WindowElapsed)
            &&& st2.current is None
            &&& st2.cooldown_until == Some(
                if now + cfg.cooldown_spec() <= u128::MAX {
                    (now + cfg.cooldown_spec()) as u128
                } else {
                    u128::MAX
                },
            )
            &&& st2.submitted_a == st.submitted_a
            &&& st2.submitted_b == st.submitted_b
            &&& st2.last_order_a == st.last_order_a
            &&& st2.last_order_b == st.last_order_b
        }),
{
}

/// Outside dry run, when the next clip of a run in progress is fired and has
/// a positive quantity on either leg, that clip is handed out for posting,
/// unchanged, and the run keeps it as its next clip: nothing is counted as
/// submitted and the run does not move on.
pub proof fn law_live_clips_are_handed_out(
    st: RunState,
    cfg: TwapConfig,
    samples: Seq<QuoteSample>,
    now: u128,
    ready: bool,
    plan: Option<SizePlan>,
    min_order_size: Dec,
)
    requires
        st.current matches Some(run) && plan is Some && !(now >= run.started && now - run.started
            >= cfg.window_spec() && run.open_clip is None) && crate::twap::since(now, run.started)
            >= spec_slice_due_at(cfg.window_spec(), run.next_slice, run.slices),
    ensures
        ({
            let run = st.current->0;
            let fill = spec_next_fill(run, min_order_size);
            let (st2, adv) = spec_advance(st, cfg, false, samples, now, ready, plan, min_order_size);
            (fill.qty_a.val() > 0 || fill.qty_b.val() > 0) ==> {
                &&& adv == Advance::Place(fill)
                &&& st2.current == Some(TwapRun { open_clip: None, ..run })
                &&& st2.submitted_a == st.submitted_a
                &&& st2.submitted_b == st.submitted_b
            }
        }),
{
}

/// While a run is in progress and its next clip is not yet due (and the run
/// is neither aborted nor out of time), a cycle changes nothing, hands
/// nothing out, and reports the 1-based number of the clip that is waiting.
pub proof fn law_clips_wait_until_due(
    st: RunState,
    cfg: TwapConfig,
    dry_run: bool,
    samples: Seq<QuoteSample>,
    now: u128,
    ready: bool,
    plan: Option<SizePlan>,
    min_order_size: Dec,
)
    requires
        st.current matches Some(run) && plan is Some && !(now >= run.started && now - run.started
            >= cfg.window_spec() && run.open_clip is None) && crate::twap::since(now, run.started)
            < spec_slice_due_at(cfg.window_spec(), run.next_slice, run.slices),
    ensures
        ({
            let run = st.current->0;
            let (st2, adv) = spec_advance(st, cfg, dry_run, samples, now, ready, plan, min_order_size);
            &&& st2 == st
            &&& adv == Advance::Done(
                Status::InProgress { next_clip: (run.next_slice + 1) as u32, slices: run.slices },
            )
        }),
{
}

/// Outside dry run, the first clip of a newly started run is handed out for
/// posting whenever it has a positive quantity on either leg.
pub proof fn law_first_live_clip_is_handed_out(
    st: RunState,
    cfg: TwapConfig,
    samples: Seq<QuoteSample>,
    now: u128,
    plan: SizePlan,
    min_order_size: Dec,
)
    requires
        st.current is None,
        !(st.cooldown_until matches Some(until) && now < until),
    ensures
        ({
            let run = TwapRun {
                started: now,
                plan,
                next_slice: 0,
                slices: cfg.slice_count_spec(),
                open_clip: None,
            };
            let fill = spec_next_fill(run, min_order_size);
            let (st2, adv) = spec_advance(
                st,
                cfg,
                false,
                samples,
                now,
                true,
                Some(plan),
                min_order_size,
            );
            (fill.qty_a.val() > 0 || fill.qty_b.val() > 0) ==> {
                &&& adv == Advance::Place(fill)
                &&& st2.current == Some(run)
            }
        }),
{
}

/// When the TWAP bundle stops locking while a run is in progress (and the
/// run's window has not elapsed with no clip half posted), the remaining
/// clips are aborted: no run is left, the cooldown starts, nothing is posted.
pub proof fn law_lost_lock_aborts_the_run(
    st: RunState,
    cfg: TwapConfig,
    dry_run: bool,
    samples: Seq<QuoteSample>,
    now: u128,
    ready: bool,
    min_order_size: Dec,
)
    requires
        st.current is Some,
        !(crate::twap::since(now, st.current->0.started) >= cfg.window_spec()
            && st.current->0.open_clip is None),
    ensures
        ({
            let (st2, adv) = spec_advance(
                st,
                cfg,
                dry_run,
                samples,
                now,
                ready,
                None,
                min_order_size,
            );
            &&& st2.current is None
            &&& st2.cooldown_until == Some(later(now, cfg.cooldown_spec()))
            &&& adv == Advance::Done(Status::Aborted)
        }),
{
}

/// No run starts while the TWAP window is still filling or during the
/// cooldown: the state is left as it was and nothing is posted.
pub proof fn law_no_run_while_warming_or_cooling(
    st: RunState,
    cfg: TwapConfig,
    dry_run: bool,
    samples: Seq<QuoteSample>,
    now: u128,
    ready: bool,
    plan: Option<SizePlan>,
    min_order_size: Dec,
)
    requires
        st.current is None,
        !ready || (st.cooldown_until matches Some(until) && now < until),
    ensures
        ({
            let (st2, adv) = spec_advance(st, cfg, dry_run, samples, now, ready, plan, min_order_size);
            &&& st2 == st
            &&& adv is Done
        }),
{
}

/// A run starts only from a ready TWAP, outside the cooldown, with a plan:
/// it starts at `now` with the plan and the configured clip count, and its
/// first clip is fired at once (handed out to be posted, or settled).
pub proof fn law_run_starts_only_when_ready_with_a_plan(
    st: RunState,
    cfg: TwapConfig,
    dry_run: bool,
    samples: Seq<QuoteSample>,
    now: u128,
    ready: bool,
    plan: Option<SizePlan>,
    min_order_size: Dec,
)
    requires
        st.current is None,
    ensures
        ({
            let (st2, adv) = spec_advance(st, cfg, dry_run, samples, now, ready, plan, min_order_size);
            (adv is Place || adv matches Advance::Done(Status::WindowComplete { .. })
                || adv matches Advance::Done(Status::ClipSubmitted { .. })) ==> {
                &&& ready
                &&& !(st.cooldown_until matches Some(until) && now < until)
                &&& plan is Some
                &&& st2.current matches Some(run) ==> run.started == now && run.plan == plan->0
                    && run.slices == cfg.slice_count_spec() && run.next_slice <= 1
            }
        }),
{
}

/// A clip whose posting failed stays open with the ids it obtained, and the
/// next clip handed out for the run is that same clip: only its missing legs
/// are posted again, never the leg that already has an order.
pub proof fn law_failed_clip_is_retried_as_is(run: TwapRun, fill: ClipFill, min_order_size: Dec)
    ensures
        spec_next_fill(TwapRun { open_clip: Some(fill), ..run }, min_order_size) == fill,
{
}

/// Settling a clip moves the run to its next clip; the run ends, and the
/// cooldown starts, exactly after its last clip; the submitted totals grow
/// by the clip's quantities (exactly, where the sums are exact).
pub proof fn law_settled_clips_advance_the_run(
    st: RunState,
    run: TwapRun,
    fill: ClipFill,
    cooldown: u128,
    now: u128,
)
    requires
        run.next_slice < run.slices,
        st.submitted_a.wf(),
        st.submitted_b.wf(),
        fill.qty_a.wf(),
        fill.qty_b.wf(),
    ensures
        ({
            let (st2, status) = spec_finalize(st, run, fill, cooldown, now);
            &&& (run.next_slice + 1 >= run.slices) ==> (st2.current is None && st2.cooldown_until
                == Some(later(now, cooldown)) && status == Status::WindowComplete {
                slices: run.slices,
            })
            &&& (run.next_slice + 1 < run.slices) ==> (st2.current matches Some(r2) && r2.next_slice
                == run.next_slice + 1 && r2.slices == run.slices && r2.plan == run.plan
                && r2.started == run.started && r2.open_clip is None)
            &&& add_fits(st.submitted_a, fill.qty_a) ==> st2.submitted_a.val() == st.submitted_a.val()
                + fill.qty_a.val()
            &&& add_fits(st.submitted_b, fill.qty_b) ==> st2.submitted_b.val() == st.submitted_b.val()
                + fill.qty_b.val()
            &&& st2.wf()
        }),
{
    if add_fits(st.submitted_a, fill.qty_a) {
        crate::decimal::lemma_add_rep(st.submitted_a, fill.qty_a);
    }
    if add_fits(st.submitted_b, fill.qty_b) {
        crate::decimal::lemma_add_rep(st.submitted_b, fill.qty_b);
    }
}

} // verus!
