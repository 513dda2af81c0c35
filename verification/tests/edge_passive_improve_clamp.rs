use directional_arbitrage_bot::decimal::Dec;
use directional_arbitrage_bot::market_data::passive_buy_limit;

#[test]
fn passive_buy_limit_clamps_to_one_tick_when_improve_overshoots() {
    let px = passive_buy_limit(Dec::new(50, 2), Dec::new(1, 2), 100).unwrap();
    assert_eq!(px, Dec::new(1, 2));
    assert!(px.lt(&Dec::new(50, 2)));
}
