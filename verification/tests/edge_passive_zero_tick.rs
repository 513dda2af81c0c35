use directional_arbitrage_bot::decimal::Dec;
use directional_arbitrage_bot::market_data::passive_buy_limit;

#[test]
fn passive_buy_limit_rejects_non_positive_tick() {
    assert!(passive_buy_limit(Dec::new(50, 2), Dec::zero(), 0).is_err());
    assert!(passive_buy_limit(Dec::new(50, 2), Dec::new(-1, 2), 0).is_err());
}
