use directional_arbitrage_bot::decimal::Dec;
use directional_arbitrage_bot::strategy::{plan_sizes, StrategyParams};

#[test]
fn rejects_when_paired_size_is_below_venue_minimum() {
    let params = StrategyParams {
        min_locked_edge: Dec::new(2, 2),
        max_usdc_notional: Dec::new(5, 0),
        base_pair_shares: Dec::new(50, 0),
        max_tilt_extra_shares: Dec::new(0, 0),
        tilt_edge_gap: Dec::new(2, 2),
    };
    assert!(plan_sizes(Dec::new(48, 2), Dec::new(49, 2), Dec::new(50, 2), &params, Dec::new(10, 0)).is_none());
}
