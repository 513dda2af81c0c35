use directional_arbitrage_bot::decimal::Dec;
use directional_arbitrage_bot::twap::{slice_quantity, QuoteSample, QuoteTwap};
use std::time::Duration;

fn d(m: i64, s: u32) -> Dec {
    Dec::new(m, s)
}

fn secs(n: u64) -> u128 {
    Duration::from_secs(n).as_nanos()
}

#[test]
fn equal_interval_twap_is_mean() {
    let t0: u128 = secs(1_000);
    let mut tw = QuoteTwap::new(secs(60));
    tw.push(QuoteSample { at: t0, ask_a: d(40, 2), ask_b: d(50, 2) });
    tw.push(QuoteSample { at: t0 + secs(30), ask_a: d(50, 2), ask_b: d(40, 2) });
    let q = tw.value(t0 + secs(60)).unwrap();
    assert_eq!(q.ask_a, d(45, 2));
    assert_eq!(q.ask_b, d(45, 2));
    assert_eq!(q.sample_count, 2);
}

#[test]
fn evicts_samples_older_than_window() {
    let t0: u128 = secs(1_000);
    let mut tw = QuoteTwap::new(secs(60));
    tw.push(QuoteSample { at: t0, ask_a: d(10, 2), ask_b: d(90, 2) });
    tw.push(QuoteSample { at: t0 + secs(61), ask_a: d(50, 2), ask_b: d(50, 2) });
    let q = tw.value(t0 + secs(61)).unwrap();
    assert_eq!(q.ask_a, d(50, 2));
    assert_eq!(q.sample_count, 1);
}

#[test]
fn last_slice_absorbs_remainder() {
    assert_eq!(slice_quantity(d(40, 0), 0, 6), Some(d(666, 2)));
    assert_eq!(slice_quantity(d(40, 0), 5, 6), Some(d(670, 2)));
    let mut sum = Dec::zero();
    for i in 0..6 {
        sum = sum.checked_add(slice_quantity(d(40, 0), i, 6).unwrap()).unwrap();
    }
    assert_eq!(sum, d(40, 0));
}

#[test]
fn single_slice_is_full_size() {
    assert_eq!(slice_quantity(d(1234, 2), 0, 1), Some(d(1234, 2)));
}
