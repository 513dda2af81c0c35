use directional_arbitrage_bot::decimal::Dec;
use directional_arbitrage_bot::strategy::{plan_sizes, StrategyParams};

#[test]
fn usdc_notional_cap_shrinks_paired_size_below_base() {
    let params = StrategyParams {
        min_locked_edge: Dec::new(2, 2),
        max_usdc_notional: Dec::new(10, 0),
        base_pair_shares: Dec::new(50, 0),
        max_tilt_extra_shares: Dec::new(0, 0),
        tilt_edge_gap: Dec::new(2, 2),
    };
    let plan = plan_sizes(Dec::new(48, 2), Dec::new(49, 2), Dec::new(50, 2), &params, Dec::new(1, 0)).unwrap();
    assert!(plan.paired_shares.lt(&params.base_pair_shares));
    let bundle = Dec::new(48, 2).checked_add(Dec::new(49, 2)).unwrap();
    let cost = plan.paired_shares.checked_mul(bundle).unwrap();
    assert!(cost.le(&params.max_usdc_notional));
    assert_eq!(plan.qty_a, plan.qty_b);
}
