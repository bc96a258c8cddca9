use subswap::market::{swap_output, to_u256, Error};
use subswap::math::{absdiff, min, sqrt, sqrt_wide};
use subswap::wide::Wide;

#[test]
fn sqrt_small_inputs() {
    assert_eq!(sqrt(0), 0);
    assert_eq!(sqrt(1), 1);
    assert_eq!(sqrt(2), 1);
    assert_eq!(sqrt(3), 1);
}

#[test]
fn sqrt_exact_and_between_squares() {
    assert_eq!(sqrt(4), 2);
    assert_eq!(sqrt(8), 2);
    assert_eq!(sqrt(9), 3);
    assert_eq!(sqrt(15), 3);
    assert_eq!(sqrt(16), 4);
    assert_eq!(sqrt(1_000_000), 1000);
    assert_eq!(sqrt(999_999), 999);
}

#[test]
fn sqrt_largest_input() {
    assert_eq!(sqrt(u128::MAX), u64::MAX as u128);
}

#[test]
fn min_and_absdiff() {
    assert_eq!(min(3, 7), 3);
    assert_eq!(min(7, 3), 3);
    assert_eq!(min(5, 5), 5);
    assert_eq!(absdiff(3, 7), 4);
    assert_eq!(absdiff(7, 3), 4);
    assert_eq!(absdiff(0, u128::MAX), u128::MAX);
}

#[test]
fn to_u256_splits_words() {
    let w = to_u256(&5);
    assert_eq!((w.w0, w.w1, w.w2, w.w3), (5, 0, 0, 0));
    let w = to_u256(&((7u128 << 64) + 9));
    assert_eq!((w.w0, w.w1, w.w2, w.w3), (9, 7, 0, 0));
}

#[test]
fn swap_output_reference_value() {
    assert_eq!(swap_output(100, 1000, 1000), Ok(90));
}

#[test]
fn swap_output_formula_values() {
    // floor(1000 * 997 * 5000 / (2000 * 1000 + 1000 * 997)) = floor(4_985_000_000 / 2_997_000)
    assert_eq!(swap_output(1000, 2000, 5000), Ok(1663));
    assert_eq!(swap_output(0, 1000, 1000), Ok(0));
    assert_eq!(swap_output(1, 1_000_000, 1_000_000), Ok(0));
}

#[test]
fn swap_output_beyond_u128_intermediates() {
    // the numerator exceeds 128 bits but fits in 256
    let big = 1u128 << 100;
    assert_eq!(swap_output(big, big, big), Ok(((big * 997) / 1997) as u128));
}

#[test]
fn swap_output_zero_denominator() {
    assert_eq!(swap_output(0, 0, 1000), Err(Error::InsufficientLiquidity));
}

#[test]
fn swap_output_numerator_overflow() {
    assert_eq!(swap_output(u128::MAX, 1, u128::MAX), Err(Error::ArithmeticOverflow));
}

#[test]
fn sqrt_wide_values() {
    assert_eq!(sqrt_wide(Wide { w0: 0, w1: 0, w2: 0, w3: 0 }), 0);
    assert_eq!(sqrt_wide(Wide { w0: 3, w1: 0, w2: 0, w3: 0 }), 1);
    assert_eq!(sqrt_wide(Wide { w0: 16, w1: 0, w2: 0, w3: 0 }), 4);
    assert_eq!(sqrt_wide(Wide { w0: 0, w1: 0, w2: 0, w3: 1 }), 1u128 << 96);
    let max = u64::MAX;
    assert_eq!(sqrt_wide(Wide { w0: max, w1: max, w2: max, w3: max }), u128::MAX);
}
