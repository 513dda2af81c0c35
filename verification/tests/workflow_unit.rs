use directional_arbitrage_bot::decimal::Dec;
use directional_arbitrage_bot::workflow::ClipFill;

#[test]
fn retries_only_the_unfilled_hedge_leg() {
    let fill = ClipFill {
        id_a: Some("0xabc".into()),
        id_b: None,
        qty_a: Dec::new(10, 0),
        qty_b: Dec::new(10, 0),
    };
    assert!(!fill.needs_a());
    assert!(fill.needs_b());
    assert!(!fill.complete());
}

#[test]
fn zero_qty_leg_does_not_need_an_order_id() {
    let fill = ClipFill {
        id_a: Some("0xabc".into()),
        id_b: None,
        qty_a: Dec::new(10, 0),
        qty_b: Dec::zero(),
    };
    assert!(fill.complete());
    assert!(!fill.needs_b());
}
