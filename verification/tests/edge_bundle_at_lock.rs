use directional_arbitrage_bot::decimal::Dec;
use directional_arbitrage_bot::strategy::{plan_sizes, StrategyParams};

#[test]
fn bundle_exactly_at_locked_edge_is_tradable() {
    let params = StrategyParams {
        min_locked_edge: Dec::new(2, 2),
        max_usdc_notional: Dec::new(100, 0),
        base_pair_shares: Dec::new(50, 0),
        max_tilt_extra_shares: Dec::new(0, 0),
        tilt_edge_gap: Dec::new(1, 0),
    };
    let plan = plan_sizes(Dec::new(49, 2), Dec::new(49, 2), Dec::new(50, 2), &params, Dec::new(1, 0));
    assert!(plan.is_some(), "ask_a + ask_b == 1 - min_locked_edge must still quote");
}
