use directional_arbitrage_bot::decimal::Dec;
use directional_arbitrage_bot::strategy::trunc_shares;

#[test]
fn trunc_shares_clamps_negative_to_zero() {
    assert_eq!(trunc_shares(Dec::new(-125, 2)), Dec::zero());
    assert_eq!(trunc_shares(Dec::new(1239, 3)), Dec::new(123, 2));
    assert_eq!(trunc_shares(Dec::zero()), Dec::zero());
}
