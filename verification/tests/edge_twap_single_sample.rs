use directional_arbitrage_bot::decimal::Dec;
use directional_arbitrage_bot::twap::{QuoteSample, QuoteTwap};
use std::time::Duration;

#[test]
fn single_sample_twap_equals_that_print() {
    let t0 = Duration::from_secs(1_000).as_nanos();
    let mut tw = QuoteTwap::new(Duration::from_secs(60).as_nanos());
    tw.push(QuoteSample { at: t0, ask_a: Dec::new(41, 2), ask_b: Dec::new(55, 2) });
    let q = tw.value(t0 + Duration::from_secs(5).as_nanos()).unwrap();
    assert_eq!(q.ask_a, Dec::new(41, 2));
    assert_eq!(q.ask_b, Dec::new(55, 2));
    assert_eq!(q.sample_count, 1);
}
