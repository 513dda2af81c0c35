use directional_arbitrage_bot::decimal::Dec;
use directional_arbitrage_bot::twap::{QuoteSample, QuoteTwap};
use std::time::Duration;

#[test]
fn simultaneous_samples_use_the_last_print() {
    let t0 = Duration::from_secs(1_000).as_nanos();
    let mut tw = QuoteTwap::new(Duration::from_secs(60).as_nanos());
    tw.push(QuoteSample { at: t0, ask_a: Dec::new(10, 2), ask_b: Dec::new(90, 2) });
    tw.push(QuoteSample { at: t0, ask_a: Dec::new(40, 2), ask_b: Dec::new(50, 2) });
    let q = tw.value(t0 + Duration::from_millis(1).as_nanos()).unwrap();
    assert_eq!(q.ask_a, Dec::new(40, 2));
    assert_eq!(q.ask_b, Dec::new(50, 2));
}
