use directional_arbitrage_bot::decimal::Dec;
use directional_arbitrage_bot::strategy::{plan_sizes, FavoredOutcome, StrategyParams};

#[test]
fn dust_tilt_extra_is_dropped_to_keep_the_pair() {
    let params = StrategyParams {
        min_locked_edge: Dec::new(2, 2),
        max_usdc_notional: Dec::new(100, 0),
        base_pair_shares: Dec::new(50, 0),
        max_tilt_extra_shares: Dec::new(50, 2),
        tilt_edge_gap: Dec::new(2, 2),
    };
    let plan = plan_sizes(Dec::new(45, 2), Dec::new(49, 2), Dec::new(62, 2), &params, Dec::new(1, 0)).unwrap();
    assert_eq!(plan.favored, FavoredOutcome::A);
    assert_eq!(plan.qty_a, plan.qty_b);
    assert_eq!(plan.qty_a, plan.paired_shares);
    assert!(plan.paired_shares.ge(&Dec::new(1, 0)));
}
