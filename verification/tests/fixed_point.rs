use image_quantization::fixed::{div_round, isqrt, saturate, ONE};

#[test]
fn one_is_two_to_the_sixteenth() {
    assert_eq!(ONE, 65536);
}

#[test]
fn saturate_keeps_what_fits_and_clamps_the_rest() {
    assert_eq!(saturate(0), 0);
    assert_eq!(saturate(-12345), -12345);
    assert_eq!(saturate(i32::MAX as i128), i32::MAX);
    assert_eq!(saturate(i32::MAX as i128 + 1), i32::MAX);
    assert_eq!(saturate(i32::MIN as i128), i32::MIN);
    assert_eq!(saturate(i32::MIN as i128 - 1), i32::MIN);
    assert_eq!(saturate(1i128 << 100), i32::MAX);
    assert_eq!(saturate(-(1i128 << 100)), i32::MIN);
}

#[test]
fn div_round_rounds_to_nearest_and_ties_away_from_zero() {
    assert_eq!(div_round(7, 2), 4);
    assert_eq!(div_round(-7, 2), -4);
    assert_eq!(div_round(5, 4), 1);
    assert_eq!(div_round(-5, 4), -1);
    assert_eq!(div_round(6, 4), 2);
    assert_eq!(div_round(-6, 4), -2);
    assert_eq!(div_round(0, 9), 0);
    assert_eq!(div_round(4, 9), 0);
    assert_eq!(div_round(5, 9), 1);
    assert_eq!(div_round(123456, 1), 123456);
}

#[test]
fn isqrt_rounds_down() {
    assert_eq!(isqrt(0), 0);
    assert_eq!(isqrt(1), 1);
    assert_eq!(isqrt(3), 1);
    assert_eq!(isqrt(4), 2);
    assert_eq!(isqrt(24), 4);
    assert_eq!(isqrt(25), 5);
    assert_eq!(isqrt(1u128 << 64), 1u64 << 32);
    assert_eq!(isqrt((1u128 << 64) - 1), (1u64 << 32) - 1);
    assert_eq!(isqrt(u128::MAX), u64::MAX);
}

#[test]
fn isqrt_brackets_its_argument() {
    let mut n: u128 = 1;
    while n < (1u128 << 100) {
        let r = isqrt(n) as u128;
        assert!(r * r <= n);
        assert!((r + 1) * (r + 1) > n);
        n = n * 3 + 7;
    }
}
