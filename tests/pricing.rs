use patraswap::pricing::{get_input_price, get_output_price, mul_div};
use patraswap::ExchangeError;

#[test]
fn output_price_scenario() {
    assert_eq!(get_output_price(1000, 10_000, 2000), Ok(10_001));
}

#[test]
fn input_price_scenario() {
    assert_eq!(get_input_price(100_000, 1_000_000, 500_000), Ok(45_454));
}

#[test]
fn input_price_rejects_empty_reserves() {
    assert_eq!(get_input_price(5, 0, 10), Err(ExchangeError::InvalidReserve));
    assert_eq!(get_input_price(5, 10, 0), Err(ExchangeError::InvalidReserve));
}

#[test]
fn output_price_rejects_empty_reserves() {
    assert_eq!(get_output_price(1, 0, 10), Err(ExchangeError::InvalidReserve));
    assert_eq!(get_output_price(1, 10, 0), Err(ExchangeError::InvalidReserve));
}

#[test]
fn output_price_needs_enough_reserve() {
    assert_eq!(get_output_price(2000, 10_000, 2000), Err(ExchangeError::InsufficientReserve));
    assert_eq!(get_output_price(2001, 10_000, 2000), Err(ExchangeError::InsufficientReserve));
}

#[test]
fn input_price_of_zero_is_zero() {
    assert_eq!(get_input_price(0, 7, 9), Ok(0));
}

#[test]
fn output_price_rounds_up() {
    // 10 * 5 / (10 - 5) = 10 exactly; one more is charged.
    assert_eq!(get_output_price(5, 10, 10), Ok(11));
}

#[test]
fn output_price_rejects_overflow() {
    assert_eq!(get_output_price(2, u128::MAX, 3), Err(ExchangeError::ArithmeticOverflow));
}

#[test]
fn input_price_with_wide_denominator() {
    // input_reserve + input_amount does not fit in 128 bits.
    assert_eq!(get_input_price(u128::MAX, 1, 2), Ok(1));
    assert_eq!(get_input_price(1, u128::MAX, 1), Ok(0));
    assert_eq!(get_input_price(u128::MAX, u128::MAX, u128::MAX), Ok(u128::MAX / 2));
    assert_eq!(get_input_price(u128::MAX, u128::MAX / 2 + 7, 1000), Ok(666));
}

#[test]
fn input_price_keeps_product_on_samples() {
    let cases: [(u128, u128, u128); 5] = [
        (1, 1, 1),
        (100_000, 1_000_000, 500_000),
        (7, 3, 1000),
        (999_999, 1, 1),
        (12_345, 678, 91_011),
    ];
    for (amount, input_reserve, output_reserve) in cases {
        let out = get_input_price(amount, input_reserve, output_reserve).unwrap();
        assert!(out < output_reserve);
        assert!((input_reserve + amount) * (output_reserve - out) >= input_reserve * output_reserve);
    }
}

#[test]
fn round_trip_never_favours_trader_on_samples() {
    // 100_000 * 500_000 is not a multiple of 1_100_000.
    let out = get_input_price(100_000, 1_000_000, 500_000).unwrap();
    let back = get_output_price(out, 1_000_000, 500_000).unwrap();
    assert!(back <= 100_000);
    // 7 * 1000 is not a multiple of 4 + 7.
    let out = get_input_price(7, 4, 1000).unwrap();
    let back = get_output_price(out, 4, 1000).unwrap();
    assert!(back <= 7);
}

#[test]
fn round_trip_costs_one_more_on_even_division() {
    // 1 * 2 / (1 + 1) = 1 exactly: buying it back costs 2.
    let out = get_input_price(1, 1, 2).unwrap();
    assert_eq!(out, 1);
    assert_eq!(get_output_price(out, 1, 2), Ok(2));
}

#[test]
fn mul_div_uses_full_width() {
    assert_eq!(mul_div(10, 20, 7), Some(28));
    assert_eq!(mul_div(u128::MAX, u128::MAX, u128::MAX), Some(u128::MAX));
    assert_eq!(mul_div(u128::MAX, 2, 1), None);
    assert_eq!(mul_div(0, u128::MAX, 1), Some(0));
    let big: u128 = 1_000_000_000_000_000_000_000_000_000_000;
    assert_eq!(mul_div(big, big, 30_000_000_000_000_000_000_000_000), Some(33_333_333_333_333_333_333_333_333_333_333_333));
}

#[test]
fn input_price_with_wide_product() {
    let half = u128::MAX / 2;
    // half * half does not fit in 128 bits; the price does.
    assert_eq!(get_input_price(half, half, half), Ok(85_070_591_730_234_615_865_843_651_857_942_052_863));
}

#[test]
fn output_price_with_wide_product() {
    let half = u128::MAX / 2;
    // half * 7 / (half / 3 - 7) fits after division.
    let third = half / 3;
    let expected = mul_div(half, 7, third - 7).unwrap() + 1;
    assert_eq!(get_output_price(7, half, third), Ok(expected));
    assert_eq!(expected, 22);
}
