use image_quantization::color::{to_color, to_point};
use image_quantization::fixed::ONE;
use image_quantization::{Color, ColorHash, Vector3};
use std::collections::HashSet;

const RADIUS: i32 = 20 * ONE;

fn rgb(r: u8, g: u8, b: u8) -> Color {
    Color { r, g, b, a: 255 }
}

#[test]
fn to_point_scales_each_channel_to_the_radius() {
    assert_eq!(to_point(rgb(0, 1, 128), RADIUS), Vector3::new(0, 5140, 657930));
    assert_eq!(to_point(rgb(200, 255, 0), RADIUS), Vector3::new(1028016, RADIUS, 0));
}

#[test]
fn to_point_ignores_alpha() {
    let opaque = Color { r: 9, g: 8, b: 7, a: 255 };
    let clear = Color { r: 9, g: 8, b: 7, a: 0 };
    assert_eq!(to_point(opaque, RADIUS), to_point(clear, RADIUS));
}

#[test]
fn to_color_scales_back_and_is_opaque() {
    assert_eq!(to_color(Vector3::new(0, 5140, 657930), RADIUS), rgb(0, 0, 127));
    assert_eq!(to_color(Vector3::new(RADIUS, RADIUS / 2, RADIUS / 4), RADIUS), rgb(255, 127, 63));
    assert_eq!(to_color(Vector3::new(1, 2, 3), RADIUS).a, 255);
}

#[test]
fn to_color_clamps_a_point_outside_the_cube() {
    assert_eq!(to_color(Vector3::new(-1, RADIUS + 1, 2 * RADIUS), RADIUS), rgb(0, 255, 255));
    assert_eq!(to_color(Vector3::new(i32::MIN, i32::MAX, -RADIUS), RADIUS), rgb(0, 255, 0));
}

#[test]
fn to_color_at_a_radius_of_zero_saturates() {
    assert_eq!(to_color(Vector3::new(1, 0, -1), 0), rgb(255, 0, 0));
}

#[test]
fn to_color_at_a_negative_radius_mirrors_the_cube() {
    assert_eq!(to_color(Vector3::new(-RADIUS, RADIUS, -RADIUS / 2), -RADIUS), rgb(255, 0, 127));
}

#[test]
fn every_channel_value_survives_the_round_trip_within_one_step() {
    for radius in [85, 102, 119, 120, 125, 126, 127, 128, 1000, ONE, RADIUS, i32::MAX] {
        for value in 0..=255u8 {
            let back = to_color(to_point(rgb(value, 255 - value, value / 2), radius), radius);
            assert!((back.r as i32 - value as i32).abs() <= 1, "radius {} value {}", radius, value);
            assert!((back.g as i32 - (255 - value) as i32).abs() <= 1);
            assert!((back.b as i32 - (value / 2) as i32).abs() <= 1);
            assert_eq!(back.a, 255);
        }
    }
}

#[test]
fn a_cube_too_small_loses_channel_values() {
    let back = to_color(to_point(rgb(3, 0, 0), 64), 64);
    assert_eq!(back.r, 3);
    let lost = to_color(to_point(rgb(5, 0, 0), 64), 64);
    assert_eq!(lost.r, 3);
    assert_eq!(to_color(to_point(rgb(100, 100, 100), 1), 1), rgb(0, 0, 0));
}

#[test]
fn color_hash_keys_a_set_by_all_four_channels() {
    let pixels = [
        Color { r: 1, g: 2, b: 3, a: 255 },
        Color { r: 1, g: 2, b: 3, a: 255 },
        Color { r: 1, g: 2, b: 3, a: 254 },
        Color { r: 3, g: 2, b: 1, a: 255 },
    ];
    let unique: HashSet<ColorHash> = pixels.iter().map(|pixel| ColorHash(*pixel)).collect();
    assert_eq!(unique.len(), 3);
    assert!(unique.contains(&ColorHash(Color { r: 3, g: 2, b: 1, a: 255 })));
    assert!(!unique.contains(&ColorHash(Color { r: 3, g: 2, b: 1, a: 0 })));
}

#[test]
fn color_hash_gives_its_colour_back() {
    let key = ColorHash(Color { r: 10, g: 20, b: 30, a: 40 });
    assert_eq!(key.color(), Color { r: 10, g: 20, b: 30, a: 40 });
    assert_eq!(key.r, 10);
    assert_eq!(key.a, 40);
}
