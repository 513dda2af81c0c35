use directional_arbitrage_bot::decimal::Dec;
use directional_arbitrage_bot::strategy::{plan_sizes, FavoredOutcome, StrategyParams};

fn params() -> StrategyParams {
    StrategyParams {
        min_locked_edge: Dec::new(2, 2),
        max_usdc_notional: Dec::new(100, 0),
        base_pair_shares: Dec::new(50, 0),
        max_tilt_extra_shares: Dec::new(25, 0),
        tilt_edge_gap: Dec::new(2, 2),
    }
}

#[test]
fn tilts_to_b_when_model_prefers_b() {
    let plan = plan_sizes(Dec::new(49, 2), Dec::new(45, 2), Dec::new(38, 2), &params(), Dec::new(1, 0)).unwrap();
    assert_eq!(plan.favored, FavoredOutcome::B);
    assert!(plan.qty_b.gt(&plan.qty_a));
    assert_eq!(plan.qty_a, plan.paired_shares);
    assert!(plan.qty_b.gt(&plan.paired_shares));
}
