use image_quantization::fixed::ONE;
use image_quantization::vector::{Vector3, WideVector};

fn norm2(v: Vector3) -> i128 {
    let (x, y, z) = (v.x as i128, v.y as i128, v.z as i128);
    x * x + y * y + z * z
}

#[test]
fn new_and_zero_hold_what_they_were_given() {
    let v = Vector3::new(1, -2, 3);
    assert_eq!((v.x, v.y, v.z), (1, -2, 3));
    assert_eq!(Vector3::zero(), Vector3::new(0, 0, 0));
}

#[test]
fn plus_and_minus_work_by_component() {
    let a = Vector3::new(10, -20, 30);
    let b = Vector3::new(1, 2, -3);
    assert_eq!(a.plus(b), Vector3::new(11, -18, 27));
    assert_eq!(a.minus(b), Vector3::new(9, -22, 33));
}

#[test]
fn plus_and_minus_saturate() {
    let high = Vector3::new(i32::MAX, i32::MAX, 5);
    let low = Vector3::new(i32::MIN, -1, i32::MIN);
    assert_eq!(high.plus(Vector3::new(1, 0, 0)), Vector3::new(i32::MAX, i32::MAX, 5));
    assert_eq!(high.minus(low), Vector3::new(i32::MAX, i32::MAX, i32::MAX));
    assert_eq!(low.minus(high), Vector3::new(i32::MIN, i32::MIN, i32::MIN));
}

#[test]
fn offset_from_is_exact_beyond_the_i32_range() {
    let w: WideVector = Vector3::new(i32::MAX, 0, i32::MIN).offset_from(Vector3::new(i32::MIN, 7, i32::MAX));
    assert_eq!((w.x, w.y, w.z), (4294967295, -7, -4294967295));
}

#[test]
fn distance_squared_is_the_sum_of_squared_differences() {
    let a = Vector3::new(1, 2, 3);
    let b = Vector3::new(4, 6, 3);
    assert_eq!(a.distance_squared(b), 25);
    assert_eq!(b.distance_squared(a), 25);
    assert_eq!(a.distance_squared(a), 0);
    let far = Vector3::new(i32::MAX, i32::MAX, i32::MAX).distance_squared(Vector3::new(i32::MIN, i32::MIN, i32::MIN));
    assert_eq!(far, 3 * 4294967295u128 * 4294967295u128);
}

#[test]
fn normalized_gives_length_one() {
    assert_eq!(Vector3::new(3, 4, 0).normalized(), Vector3::new(39322, 52429, 0));
    assert_eq!(Vector3::new(1, 1, 1).normalized(), Vector3::new(37837, 37837, 37837));
    assert_eq!(Vector3::new(1, 2, 2).normalized(), Vector3::new(21845, 43691, 43691));
    assert_eq!(Vector3::new(-5 * ONE, 0, 0).normalized(), Vector3::new(-ONE, 0, 0));
    assert_eq!(Vector3::new(1, 0, 0).normalized(), Vector3::new(ONE, 0, 0));
    assert_eq!(
        Vector3::new(i32::MAX, i32::MIN, i32::MAX).normalized(),
        Vector3::new(37837, -37837, 37837)
    );
}

#[test]
fn normalized_leaves_zero_at_zero() {
    assert_eq!(Vector3::zero().normalized(), Vector3::zero());
}

#[test]
fn normalized_length_is_one_within_rounding() {
    let low = (ONE as i128 - 2) * (ONE as i128 - 2);
    let high = (ONE as i128 + 3) * (ONE as i128 + 3);
    let mut seed: u64 = 0x2545_f491_4f6c_dd1d;
    for _ in 0..2000 {
        let mut parts = [0i32; 3];
        for part in parts.iter_mut() {
            seed ^= seed << 13;
            seed ^= seed >> 7;
            seed ^= seed << 17;
            *part = (seed % 200_001) as i32 - 100_000;
        }
        let v = Vector3::new(parts[0], parts[1], parts[2]);
        if v == Vector3::zero() {
            continue;
        }
        let n = norm2(v.normalized());
        assert!(low <= n && n <= high, "{:?} has unit length squared {}", v, n);
    }
}

#[test]
fn wide_vector_saturates_to_a_vector() {
    let w = WideVector { x: 1i128 << 40, y: -(1i128 << 40), z: 17 };
    assert_eq!(w.saturated(), Vector3::new(i32::MAX, i32::MIN, 17));
    assert_eq!(w.norm2(), (1u128 << 81) + 289);
}
