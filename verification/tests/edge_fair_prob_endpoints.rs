use directional_arbitrage_bot::decimal::Dec;
use directional_arbitrage_bot::strategy::{plan_sizes, StrategyParams};

fn params() -> StrategyParams {
    StrategyParams {
        min_locked_edge: Dec::new(2, 2),
        max_usdc_notional: Dec::new(100, 0),
        base_pair_shares: Dec::new(50, 0),
        max_tilt_extra_shares: Dec::new(0, 0),
        tilt_edge_gap: Dec::new(1, 0),
    }
}

#[test]
fn fair_probability_zero_and_one_are_allowed() {
    assert!(plan_sizes(Dec::new(48, 2), Dec::new(49, 2), Dec::new(0, 0), &params(), Dec::new(1, 0)).is_some());
    assert!(plan_sizes(Dec::new(48, 2), Dec::new(49, 2), Dec::new(1, 0), &params(), Dec::new(1, 0)).is_some());
    assert!(plan_sizes(Dec::new(48, 2), Dec::new(49, 2), Dec::new(5, 1), &params(), Dec::new(1, 0)).is_some());
}
