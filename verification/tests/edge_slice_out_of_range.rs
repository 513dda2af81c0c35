use directional_arbitrage_bot::decimal::Dec;
use directional_arbitrage_bot::twap::slice_quantity;

#[test]
fn slice_index_past_the_end_is_zero() {
    assert_eq!(slice_quantity(Dec::new(10, 0), 5, 3), Some(Dec::zero()));
    assert_eq!(slice_quantity(Dec::new(10, 0), 99, 6), Some(Dec::zero()));
}
