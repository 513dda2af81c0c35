use directional_arbitrage_bot::config::{PollingConfig, StrategyConfig, TwapConfig};
use directional_arbitrage_bot::decimal::Dec;
use directional_arbitrage_bot::market_data::{best_ask, passive_buy_limit, BookLevel, PriceError};
use directional_arbitrage_bot::strategy::{paired_shares, plan_sizes, tilt_extra, FavoredOutcome, StrategyParams};
use directional_arbitrage_bot::twap::{leftover_clips_expired, paired_slice, slice_due_at, slice_quantity, QuoteSample, QuoteTwap};
use directional_arbitrage_bot::ui::{plan_notional, truncate, LogBuffer, LOG_CAP};
use directional_arbitrage_bot::workflow::{Advance, ClipFill, EngineCore, LiveQuote, SnapshotError, Status};
use std::time::Duration;

fn d(m: i64, s: u32) -> Dec {
    Dec::new(m, s)
}

fn secs(n: u64) -> u128 {
    Duration::from_secs(n).as_nanos()
}

#[test]
fn decimal_sum_is_exact_at_the_larger_scale() {
    let s = d(5, 1).checked_add(d(25, 2)).unwrap();
    assert_eq!(s, d(75, 2));
    assert_eq!(s.scale(), 2);
    assert_eq!(s.mantissa(), 75);
}

#[test]
fn decimal_difference_and_product_are_exact() {
    assert_eq!(d(1, 0).checked_sub(d(2, 2)).unwrap(), d(98, 2));
    let p = d(5, 1).checked_mul(d(5, 1)).unwrap();
    assert_eq!(p, d(25, 2));
    assert_eq!(p.scale(), 2);
}

#[test]
fn decimal_quotient_is_computed() {
    assert_eq!(d(1, 0).checked_div(d(4, 0)).unwrap(), d(25, 2));
    assert_eq!(d(27, 0).checked_div(d(60, 0)).unwrap(), d(45, 2));
    assert!(d(1, 0).checked_div(Dec::zero()).is_none());
}

#[test]
fn decimal_out_of_range_results_are_none() {
    let big = Dec::from_parts(1i128 << 95, 0).unwrap();
    assert!(big.checked_add(big).is_none());
    // 1e-30 is below the finest step: the product rounds to zero.
    assert_eq!(d(1, 15).checked_mul(d(1, 15)), Some(Dec::zero()));
    assert!(Dec::from_parts(1i128 << 96, 0).is_none());
    assert!(Dec::from_parts(1, 29).is_none());
}

#[test]
fn decimal_results_beyond_28_places_are_rounded() {
    let ask = Dec::from_parts(4466666666666666666666666667i128, 28).unwrap();
    let p = d(5, 1).checked_mul(ask).unwrap();
    assert_eq!(p.scale(), 28);
    let m = p.mantissa();
    assert!(m == 2233333333333333333333333333 || m == 2233333333333333333333333334);
    let s = ask.checked_add(Dec::from_parts(1, 28).unwrap()).unwrap();
    assert_eq!(s.mantissa(), 4466666666666666666666666668);
    let spent = d(50, 0).checked_mul(ask.checked_add(d(49, 2)).unwrap()).unwrap();
    assert_eq!(spent, Dec::from_parts(46833333333333333333333333335i128, 27).unwrap());
}

#[test]
fn decimal_quotient_is_within_its_last_place() {
    let q = d(10, 0).checked_div(d(97, 2)).unwrap();
    assert_eq!(q, Dec::from_parts(10309278350515463917525773196i128, 27).unwrap());
    assert_eq!(d(100, 0).checked_div(d(2, 0)).unwrap(), d(50, 0));
}

#[test]
fn log_decodes_written_bytes() {
    let mut log = LogBuffer::new();
    log.write_bytes(b"caf\xc3\xa9  \nbad \xff byte\n");
    assert_eq!(log.lines(), vec!["caf\u{e9}".to_string(), "bad \u{fffd} byte".to_string()]);
}

#[test]
fn log_trims_exactly_the_white_space_characters() {
    for u in 0u32..=0x3100 {
        if let Some(c) = char::from_u32(u) {
            let text = format!("x{c}");
            let mut log = LogBuffer::new();
            log.write_text(&text);
            let expected: Vec<String> =
                if c == '\n' { vec!["x".to_string()] } else { vec![text.trim_end().to_string()] };
            assert_eq!(log.lines(), expected, "character {u:#x}");
        }
    }
}

#[test]
fn decimal_truncates_toward_zero() {
    assert_eq!(d(1239, 3).trunc_with_scale(2), d(123, 2));
    assert_eq!(d(-1239, 3).trunc_with_scale(2), d(-123, 2));
    let up = d(4, 0).trunc_with_scale(2);
    assert_eq!(up.mantissa(), 400);
    assert_eq!(up.scale(), 2);
}

#[test]
fn decimal_comparisons_are_by_value() {
    assert_eq!(d(5, 1), d(50, 2));
    assert!(d(5, 1).lt(&d(51, 2)));
    assert!(!d(5, 1).lt(&d(50, 2)));
    assert!(d(5, 1).ge(&d(50, 2)));
    let m = d(5, 1).max(d(50, 2));
    assert_eq!(m.scale(), 1);
    assert_eq!(d(3, 0).min(d(2, 0)), d(2, 0));
}

fn tilt_params() -> StrategyParams {
    StrategyParams {
        min_locked_edge: d(2, 2),
        max_usdc_notional: d(100, 0),
        base_pair_shares: d(50, 0),
        max_tilt_extra_shares: d(25, 0),
        tilt_edge_gap: d(2, 2),
    }
}

#[test]
fn plan_sizes_exact_tilted_plan() {
    // bundle 0.94, cap 100 / 0.94 = 106.38..., pair 50, spent 47, remaining 53,
    // 53 / 0.45 = 117.77..., tilt min(25, 117.77) = 25
    let plan = plan_sizes(d(45, 2), d(49, 2), d(62, 2), &tilt_params(), d(1, 0)).unwrap();
    assert_eq!(plan.favored, FavoredOutcome::A);
    assert_eq!(plan.paired_shares, d(50, 0));
    assert_eq!(plan.qty_a, d(75, 0));
    assert_eq!(plan.qty_b, d(50, 0));
}

#[test]
fn plan_spends_at_most_the_notional_cap() {
    let p = StrategyParams { max_usdc_notional: d(60, 0), ..tilt_params() };
    let plan = plan_sizes(d(45, 2), d(49, 2), d(62, 2), &p, d(1, 0)).unwrap();
    let cost = plan
        .qty_a
        .checked_mul(d(45, 2))
        .unwrap()
        .checked_add(plan.qty_b.checked_mul(d(49, 2)).unwrap())
        .unwrap();
    assert!(cost.le(&d(60, 0)));
    assert!(plan.qty_a.ge(&plan.qty_b));
}

#[test]
fn no_tilt_when_the_pair_spends_the_whole_cap() {
    let p = StrategyParams {
        min_locked_edge: d(2, 2),
        max_usdc_notional: d(49, 0),
        base_pair_shares: d(60, 0),
        max_tilt_extra_shares: d(5, 0),
        tilt_edge_gap: d(2, 2),
    };
    let plan = plan_sizes(d(45, 2), d(53, 2), d(70, 2), &p, d(1, 0)).unwrap();
    assert_eq!(plan.paired_shares, d(50, 0));
    assert_eq!(plan.qty_a, d(50, 0));
    assert_eq!(plan.qty_b, d(50, 0));
}

#[test]
fn tilt_respects_the_notional_cap() {
    let p50 = StrategyParams {
        min_locked_edge: d(2, 2),
        max_usdc_notional: d(50, 0),
        base_pair_shares: d(50, 0),
        max_tilt_extra_shares: d(25, 0),
        tilt_edge_gap: d(2, 2),
    };
    let plan = plan_sizes(d(45, 2), d(49, 2), d(62, 2), &p50, d(1, 0)).unwrap();
    assert_eq!(plan.favored, FavoredOutcome::A);
    assert_eq!(plan.paired_shares, d(50, 0));
    assert_eq!(plan.qty_a, d(5666, 2));
    assert_eq!(plan.qty_b, d(50, 0));
    let p47 = StrategyParams { max_usdc_notional: d(47, 0), ..p50 };
    let plan = plan_sizes(d(45, 2), d(49, 2), d(62, 2), &p47, d(1, 0)).unwrap();
    assert_eq!(plan.favored, FavoredOutcome::A);
    assert_eq!(plan.paired_shares, d(50, 0));
    assert_eq!(plan.qty_a, d(50, 0));
    assert_eq!(plan.qty_b, d(50, 0));
}

#[test]
fn plan_from_an_average_ask_with_28_places() {
    let ask_a = Dec::from_parts(4466666666666666666666666667i128, 28).unwrap();
    let plan = plan_sizes(ask_a, d(49, 2), d(62, 2), &tilt_params(), d(1, 0)).unwrap();
    assert_eq!(plan.favored, FavoredOutcome::A);
    assert_eq!(plan.paired_shares, d(50, 0));
    assert_eq!(plan.qty_a, d(75, 0));
    assert_eq!(plan.qty_b, d(50, 0));
}

#[test]
fn plan_helpers_follow_the_caps() {
    assert_eq!(paired_shares(d(106383, 3), d(50, 0)), d(50, 0));
    assert_eq!(paired_shares(d(123456, 4), d(50, 0)), d(1234, 2));
    assert_eq!(tilt_extra(d(25, 0), d(117777, 3), d(1, 0)), d(25, 0));
    assert_eq!(tilt_extra(d(25, 0), d(3339, 3), d(1, 0)), d(333, 2));
    assert_eq!(tilt_extra(d(25, 0), d(5, 1), d(1, 0)), Dec::zero());
}

#[test]
fn limit_price_steps_inside_by_whole_ticks() {
    assert_eq!(passive_buy_limit(d(50, 2), d(1, 2), 2).unwrap(), d(48, 2));
    assert_eq!(passive_buy_limit(d(505, 3), d(1, 2), 0).unwrap(), d(50, 2));
    assert_eq!(passive_buy_limit(d(50, 2), d(1, 2), 0).unwrap(), d(50, 2));
    assert_eq!(passive_buy_limit(d(50, 2), Dec::zero(), 0), Err(PriceError::NonPositiveTick));
    let huge_tick = Dec::from_parts(1i128 << 95, 0).unwrap();
    assert_eq!(passive_buy_limit(d(50, 2), huge_tick, 4), Err(PriceError::Overflow));
}

#[test]
fn limit_price_snaps_down_to_the_tick_grid() {
    let px = passive_buy_limit(d(53, 2), d(5, 2), 0).unwrap();
    assert_eq!(px, d(50, 2));
    assert_eq!(px.scale(), 2);
    assert_eq!(passive_buy_limit(d(53, 2), d(5, 2), 1).unwrap(), d(45, 2));
    assert_eq!(passive_buy_limit(d(7, 2), d(5, 2), 1).unwrap(), d(5, 2));
    assert_eq!(passive_buy_limit(d(1, 0), d(25, 2), 0).unwrap(), d(100, 2));
    let largest = Dec::from_parts((1i128 << 96) - 1, 0).unwrap();
    assert_eq!(passive_buy_limit(largest, d(1, 2), 0), Ok(largest));
}

#[test]
fn live_quote_from_both_books() {
    let a = vec![
        BookLevel { price: d(46, 2), size: d(5, 0) },
        BookLevel { price: d(45, 2), size: d(3, 0) },
    ];
    let b = vec![BookLevel { price: d(49, 2), size: d(1, 0) }];
    let q = LiveQuote::from_books(&a, &b, d(1, 2), d(1, 3), d(5, 0), d(15, 0)).unwrap();
    assert_eq!(q.ask_a, d(45, 2));
    assert_eq!(q.ask_b, d(49, 2));
    assert_eq!(q.tick_a, d(1, 2));
    assert_eq!(q.tick_b, d(1, 3));
    assert_eq!(q.min_order_size, d(15, 0));
    let empty = vec![BookLevel { price: d(40, 2), size: Dec::zero() }];
    assert_eq!(
        LiveQuote::from_books(&empty, &b, d(1, 2), d(1, 2), d(5, 0), d(5, 0)).err(),
        Some(SnapshotError::EmptyAsksA)
    );
    assert_eq!(
        LiveQuote::from_books(&a, &empty, d(1, 2), d(1, 2), d(5, 0), d(5, 0)).err(),
        Some(SnapshotError::EmptyAsksB)
    );
}

#[test]
fn best_ask_skips_empty_levels() {
    let levels = vec![
        BookLevel { price: d(40, 2), size: Dec::zero() },
        BookLevel { price: d(45, 2), size: d(10, 0) },
        BookLevel { price: d(44, 2), size: d(1, 0) },
        BookLevel { price: d(47, 2), size: d(3, 0) },
    ];
    assert_eq!(best_ask(&levels), Some(d(44, 2)));
    let empty = vec![BookLevel { price: d(40, 2), size: Dec::zero() }];
    assert_eq!(best_ask(&empty), None);
}

#[test]
fn clips_add_up_to_the_total() {
    let clips: Vec<Dec> = (0..3).map(|i| slice_quantity(d(10, 0), i, 3).unwrap()).collect();
    assert_eq!(clips[0], d(333, 2));
    assert_eq!(clips[1], d(333, 2));
    assert_eq!(clips[2], d(334, 2));
    assert_eq!(slice_quantity(d(10, 0), 0, 0), Some(d(10, 0)));
}

#[test]
fn clips_come_due_across_the_window() {
    let w = secs(60);
    assert_eq!(slice_due_at(w, 6, 6), w);
    assert!(slice_due_at(w, 2, 6) <= slice_due_at(w, 3, 6));
    assert_eq!(slice_due_at(w, 2, 0), 2 * w);
    assert!(leftover_clips_expired(w, w));
    assert!(!leftover_clips_expired(w - 1, w));
}

#[test]
fn paired_slice_drops_dust_legs() {
    let (a, b) = paired_slice(d(75, 0), d(50, 0), 0, 6, d(1, 0));
    assert_eq!(a, d(125, 1));
    assert_eq!(b, d(833, 2));
    let (a, b) = paired_slice(d(3, 0), d(12, 0), 0, 6, d(1, 0));
    assert_eq!(a, Dec::zero());
    assert_eq!(b, d(2, 0));
}

#[test]
fn twap_keeps_the_recent_window() {
    let mut tw = QuoteTwap::new(secs(60));
    for k in 0..5u64 {
        tw.push(QuoteSample { at: secs(30 * k), ask_a: d(40, 2), ask_b: d(50, 2) });
    }
    assert_eq!(tw.sample_count(), 3);
    assert_eq!(tw.window(), secs(60));
    let q = tw.value(secs(150)).unwrap();
    assert_eq!(q.span, secs(90));
    assert_eq!(q.ask_a, d(40, 2));
    assert_eq!(q.bundle(), Some(d(90, 2)));
}

#[test]
fn twap_ignores_a_shift_of_all_instants() {
    let mut early = QuoteTwap::new(secs(60));
    let mut late = QuoteTwap::new(secs(60));
    let asks = [(d(40, 2), d(50, 2)), (d(44, 2), d(52, 2)), (d(41, 2), d(55, 2))];
    for (k, (a, b)) in asks.iter().enumerate() {
        let t = secs(10 * k as u64);
        early.push(QuoteSample { at: t, ask_a: *a, ask_b: *b });
        late.push(QuoteSample { at: t + secs(1000), ask_a: *a, ask_b: *b });
    }
    let x = early.value(secs(40)).unwrap();
    let y = late.value(secs(1040)).unwrap();
    assert_eq!(x.ask_a, y.ask_a);
    assert_eq!(x.ask_b, y.ask_b);
    // (0.40 * 10 + 0.44 * 10 + 0.41 * 20) / 40 = 0.415
    assert_eq!(x.ask_a, d(415, 3));
    assert!(x.ask_a.ge(&d(40, 2)) && x.ask_a.le(&d(44, 2)));
}

#[test]
fn log_keeps_trimmed_nonempty_lines() {
    let mut log = LogBuffer::new();
    log.write_text("first  \n\n  second\t\nthird");
    let lines = log.lines();
    assert_eq!(lines, vec!["first".to_string(), "  second".to_string(), "third".to_string()]);
}

#[test]
fn log_trims_unicode_whitespace() {
    let mut log = LogBuffer::new();
    log.write_text("wide\u{3000}\u{2003}\nonly\u{a0}\n\u{3000}\n");
    assert_eq!(log.lines(), vec!["wide".to_string(), "only".to_string()]);
}

#[test]
fn log_keeps_the_last_lines_of_old_and_new() {
    let mut log = LogBuffer::new();
    for k in 0..(LOG_CAP - 2) {
        log.write_text(&format!("old {k}"));
    }
    log.write_text("new 0\n \nnew 1\nnew 2\nnew 3");
    let lines = log.lines();
    assert_eq!(lines.len(), LOG_CAP);
    assert_eq!(lines[0], "old 2");
    assert_eq!(lines[LOG_CAP - 5], format!("old {}", LOG_CAP - 3));
    assert_eq!(lines[LOG_CAP - 4], "new 0");
    assert_eq!(lines[LOG_CAP - 1], "new 3");
}

#[test]
fn log_drops_the_oldest_lines_when_full() {
    let mut log = LogBuffer::new();
    for k in 0..(LOG_CAP + 5) {
        log.write_text(&format!("line {k}\n"));
    }
    let lines = log.lines();
    assert_eq!(lines.len(), LOG_CAP);
    assert_eq!(lines[0], "line 5");
    assert_eq!(lines[LOG_CAP - 1], format!("line {}", LOG_CAP + 4));
}

#[test]
fn truncate_adds_an_ellipsis() {
    assert_eq!(truncate("abcdef", 4), "abc\u{2026}");
    assert_eq!(truncate("abcd", 4), "abcd");
    assert_eq!(truncate("ab", 0), "\u{2026}");
}

#[test]
fn plan_notional_prices_both_legs() {
    let plan = plan_sizes(d(48, 2), d(49, 2), d(50, 2), &tilt_params(), d(1, 0)).unwrap();
    assert_eq!(plan_notional(&plan, Some(d(48, 2)), Some(d(49, 2))), Some(d(485, 1)));
    assert_eq!(plan_notional(&plan, None, Some(d(49, 2))), None);
}

fn strategy_cfg() -> StrategyConfig {
    StrategyConfig {
        fair_probability_a: d(62, 2),
        min_locked_edge: d(2, 2),
        max_usdc_notional: d(100, 0),
        base_pair_shares: d(50, 0),
        max_tilt_extra_shares: d(25, 0),
        tilt_edge_gap: d(2, 2),
        price_improve_ticks: 0,
    }
}

fn live() -> LiveQuote {
    LiveQuote { ask_a: d(45, 2), ask_b: d(49, 2), tick_a: d(1, 2), tick_b: d(1, 2), min_order_size: d(1, 0) }
}

#[test]
fn one_shot_dry_run_submits_the_whole_plan_as_one_clip() {
    let twap = TwapConfig { window_secs: 60, slices: 6, cooldown_secs: 5 };
    let mut engine = EngineCore::new_oneshot(twap, strategy_cfg(), PollingConfig { interval_ms: 100 }, true);
    assert_eq!(engine.poll_interval(), Duration::from_millis(200).as_nanos());
    let now = secs(10);
    let obs = engine.observe(now, &live()).unwrap();
    assert!(obs.ready);
    assert_eq!(obs.px_a, d(45, 2));
    let plan = obs.plan.unwrap();
    match engine.advance(now, obs.ready, obs.plan, d(1, 0)) {
        Advance::Done(status) => assert_eq!(status, Status::WindowComplete { slices: 1 }),
        Advance::Place(_) => panic!("dry run posts nothing"),
    }
    assert_eq!(engine.run.submitted_a, plan.qty_a);
    assert_eq!(engine.run.submitted_b, plan.qty_b);
    assert!(engine.run.current.is_none());
    assert_eq!(engine.run.cooldown_until, Some(now + secs(5)));
    assert!(engine.run.last_order_a.is_none());
}

#[test]
fn daemon_warms_up_then_retries_only_the_missing_leg() {
    let twap = TwapConfig { window_secs: 60, slices: 6, cooldown_secs: 0 };
    let mut engine = EngineCore::new(twap, strategy_cfg(), PollingConfig { interval_ms: 1500 }, false, true);
    let obs = engine.observe(secs(0), &live()).unwrap();
    assert!(!obs.ready);
    match engine.advance(secs(0), obs.ready, obs.plan, d(1, 0)) {
        Advance::Done(Status::Warming { span, window_secs }) => {
            assert_eq!(span, 0);
            assert_eq!(window_secs, 60);
        }
        _ => panic!("still warming"),
    }
    let now = secs(60);
    let obs = engine.observe(now, &live()).unwrap();
    assert!(obs.ready);
    let fill = match engine.advance(now, obs.ready, obs.plan, d(1, 0)) {
        Advance::Place(fill) => fill,
        Advance::Done(s) => panic!("expected a clip, got {s:?}"),
    };
    assert_eq!(fill.qty_a, d(125, 1));
    assert_eq!(fill.qty_b, d(833, 2));
    let half = ClipFill { id_a: Some("0xabc".to_string()), ..fill };
    assert_eq!(engine.settle_clip(half.clone(), true, now), Some(Status::HedgeIncomplete));
    let retry = match engine.advance(now, true, obs.plan, d(1, 0)) {
        Advance::Place(fill) => fill,
        Advance::Done(s) => panic!("expected the open clip, got {s:?}"),
    };
    assert_eq!(retry.id_a, Some("0xabc".to_string()));
    assert!(!retry.needs_a());
    assert!(retry.needs_b());
    let done = ClipFill { id_b: Some("0xdef".to_string()), ..retry };
    assert_eq!(engine.settle_clip(done, false, now), Some(Status::ClipSubmitted { clip: 1, slices: 6 }));
    assert_eq!(engine.run.last_order_a, Some("0xabc".to_string()));
    assert_eq!(engine.run.last_order_b, Some("0xdef".to_string()));
    match engine.advance(now + secs(1), true, obs.plan, d(1, 0)) {
        Advance::Done(status) => assert_eq!(status, Status::InProgress { next_clip: 2, slices: 6 }),
        _ => panic!("clip 2 is not due yet"),
    }
    match engine.advance(now + secs(2), true, None, d(1, 0)) {
        Advance::Done(status) => assert_eq!(status, Status::Aborted),
        _ => panic!("lost lock aborts"),
    }
    assert!(engine.run.current.is_none());
}

#[test]
fn tolerated_failures_are_recorded() {
    let twap = TwapConfig { window_secs: 60, slices: 6, cooldown_secs: 0 };
    let mut engine = EngineCore::new(twap, strategy_cfg(), PollingConfig { interval_ms: 1500 }, false, true);
    assert!(engine.tick_failed("book fetch failed".to_string()));
    assert_eq!(engine.last_error, Some("book fetch failed".to_string()));
    engine.tick_succeeded();
    assert!(engine.last_error.is_none());
}
