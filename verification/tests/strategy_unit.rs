use directional_arbitrage_bot::decimal::Dec;
use directional_arbitrage_bot::strategy::{plan_sizes, FavoredOutcome, StrategyParams};

fn d(m: i64, s: u32) -> Dec {
    Dec::new(m, s)
}

fn params() -> StrategyParams {
    StrategyParams {
        min_locked_edge: d(2, 2),
        max_usdc_notional: d(100, 0),
        base_pair_shares: d(50, 0),
        max_tilt_extra_shares: d(25, 0),
        tilt_edge_gap: d(2, 2),
    }
}

#[test]
fn rejects_when_bundle_too_wide() {
    let p = params();
    assert!(plan_sizes(d(55, 2), d(55, 2), d(5, 1), &p, d(1, 0)).is_none());
}

#[test]
fn symmetric_when_edge_gap_small() {
    let p = params();
    let plan = plan_sizes(d(48, 2), d(49, 2), d(50, 2), &p, d(1, 0)).unwrap();
    assert_eq!(plan.favored, FavoredOutcome::Neutral);
    assert_eq!(plan.qty_a, plan.qty_b);
}

#[test]
fn tilts_to_a_when_model_prefers_a() {
    let p = params();
    let plan = plan_sizes(d(45, 2), d(49, 2), d(62, 2), &p, d(1, 0)).unwrap();
    assert_eq!(plan.favored, FavoredOutcome::A);
    assert!(plan.qty_a.gt(&plan.qty_b));
    assert_eq!(plan.qty_b, plan.paired_shares);
}

#[test]
fn rejects_zero_or_negative_asks() {
    let p = params();
    assert!(plan_sizes(d(0, 0), d(40, 2), d(50, 2), &p, d(1, 0)).is_none());
    assert!(plan_sizes(d(-10, 2), d(40, 2), d(50, 2), &p, d(1, 0)).is_none());
    assert!(plan_sizes(d(40, 2), d(0, 0), d(50, 2), &p, d(1, 0)).is_none());
}

#[test]
fn rejects_fair_probability_outside_unit_interval() {
    let p = params();
    assert!(plan_sizes(d(45, 2), d(45, 2), d(-1, 2), &p, d(1, 0)).is_none());
    assert!(plan_sizes(d(45, 2), d(45, 2), d(101, 2), &p, d(1, 0)).is_none());
}

#[test]
fn rejects_locked_edge_outside_open_unit_interval() {
    let mut p = params();
    p.min_locked_edge = d(0, 0);
    assert!(plan_sizes(d(40, 2), d(40, 2), d(50, 2), &p, d(1, 0)).is_none());
    p.min_locked_edge = d(1, 0);
    assert!(plan_sizes(d(40, 2), d(40, 2), d(50, 2), &p, d(1, 0)).is_none());
}
