use directional_arbitrage_bot::twap::slice_due_at;
use std::time::Duration;

#[test]
fn first_twap_clip_is_due_immediately() {
    let window = Duration::from_secs(60).as_nanos();
    assert_eq!(slice_due_at(window, 0, 6), 0);
    assert_eq!(slice_due_at(window, 3, 6), Duration::from_secs(30).as_nanos());
    assert_eq!(slice_due_at(window, 1, 6), Duration::from_secs(10).as_nanos());
}
