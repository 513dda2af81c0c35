use directional_arbitrage_bot::twap::QuoteTwap;
use std::time::Duration;

#[test]
fn empty_twap_window_has_no_value() {
    let tw = QuoteTwap::new(Duration::from_secs(60).as_nanos());
    assert!(tw.value(Duration::from_secs(5).as_nanos()).is_none());
    assert_eq!(tw.sample_count(), 0);
}
