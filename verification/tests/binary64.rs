use speed::binary64::{sort, Binary64};
use speed::binary64::{FIVE_HUNDRED_BITS, HUNDRED_BITS, TEN_BITS, TWENTY_FIVE_BITS};

fn of(x: f64) -> Binary64 {
    Binary64 { bits: x.to_bits() }
}

fn numbers() -> Vec<f64> {
    let mut v = vec![
        0.0,
        -0.0,
        f64::MIN_POSITIVE,
        f64::from_bits(1),
        -f64::from_bits(1),
        f64::from_bits(0x000f_ffff_ffff_ffff),
        f64::MAX,
        f64::MIN,
        f64::INFINITY,
        f64::NEG_INFINITY,
        f64::NAN,
        -f64::NAN,
        f64::EPSILON,
        0.49999999999999994,
        0.5,
        0.5000000000000001,
        4503599627370495.5,
        4503599627370496.0,
        9007199254740991.0,
        9007199254740993.0,
        18446744073709549568.0,
        18446744073709551616.0,
        1e300,
        1.0015 * 1000.0,
    ];
    for i in 0..200 {
        v.push(i as f64 * 0.25);
        v.push(-(i as f64) * 0.25);
        v.push(1.7f64.powi(i - 100));
        v.push(i as f64 * 12.345);
    }
    v
}

#[test]
fn named_patterns_are_the_numbers_they_name() {
    assert_eq!(TEN_BITS, 10.0f64.to_bits());
    assert_eq!(TWENTY_FIVE_BITS, 25.0f64.to_bits());
    assert_eq!(HUNDRED_BITS, 100.0f64.to_bits());
    assert_eq!(FIVE_HUNDRED_BITS, 500.0f64.to_bits());
}

#[test]
fn comparisons_agree_with_the_numbers() {
    for a in numbers() {
        assert_eq!(of(a).is_nan(), a.is_nan());
        assert_eq!(of(a).is_zero(), a == 0.0);
        assert_eq!(of(a).is_positive(), a > 0.0);
        for b in numbers() {
            assert_eq!(of(a).at_least(of(b)), a >= b, "{a} {b}");
            assert_eq!(of(a).precedes(of(b)), a.total_cmp(&b).is_le(), "{a} {b}");
        }
    }
}

#[test]
fn rounding_agrees_with_the_numbers() {
    for a in numbers() {
        assert_eq!(of(a).to_nearest(), a.round() as u64, "{a}");
    }
    assert_eq!(of(2.5).to_nearest(), 3);
    assert_eq!(of(12.49).to_nearest(), 12);
    assert_eq!(of(-3.0).to_nearest(), 0);
    assert_eq!(of(f64::INFINITY).to_nearest(), u64::MAX);
    assert_eq!(of(f64::NAN).to_nearest(), 0);
}

#[test]
fn sorting_agrees_with_the_total_order() {
    let mut expected = numbers();
    let sorted = sort(numbers().into_iter().map(of).collect());
    expected.sort_by(f64::total_cmp);
    let expected: Vec<Binary64> = expected.into_iter().map(of).collect();
    assert_eq!(sorted, expected);
    assert!(sort(Vec::new()).is_empty());
}
