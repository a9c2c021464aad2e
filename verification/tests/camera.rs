use image_quantization::camera::{
    camera_move_forward, camera_move_right, camera_move_to_target, camera_move_up, camera_pitch,
    camera_yaw, get_camera_forward, get_camera_right, get_camera_up, handle_camera_controls,
    vector3_rotate_by_axis_angle, Angle, Camera3D, CameraInput, CAMERA_SPEED, CAMERA_UP_SPEED,
    DOLLY_FLOOR,
};
use image_quantization::fixed::ONE;
use image_quantization::Vector3;

fn v(x: i32, y: i32, z: i32) -> Vector3 {
    Vector3::new(x, y, z)
}

/// Thirty degrees: the sine and cosine of fifteen.
fn thirty() -> Angle {
    Angle::new(16962, 63303).unwrap()
}

/// Ninety degrees: the sine and cosine of forty-five.
fn quarter() -> Angle {
    Angle::new(46341, 46341).unwrap()
}

fn start() -> Camera3D {
    Camera3D {
        position: v(0, 60 * ONE, 60 * ONE),
        target: v(10 * ONE, 10 * ONE, 10 * ONE),
        up: v(0, ONE, 0),
    }
}

fn norm2(a: Vector3) -> i128 {
    let (x, y, z) = (a.x as i128, a.y as i128, a.z as i128);
    x * x + y * y + z * z
}

fn is_unit(a: Vector3) -> bool {
    let low = (ONE as i128 - 2) * (ONE as i128 - 2);
    let high = (ONE as i128 + 3) * (ONE as i128 + 3);
    low <= norm2(a) && norm2(a) <= high
}

fn idle() -> CameraInput {
    CameraInput {
        look: false,
        orbit: false,
        yaw: Angle::zero(),
        pitch: Angle::zero(),
        forward: false,
        backward: false,
        left: false,
        right: false,
        rise: false,
        sink: false,
        frame_time: 0,
        wheel: 0,
    }
}

#[test]
fn angle_takes_a_sine_and_cosine_and_nothing_larger() {
    assert_eq!(Angle::new(0, ONE), Some(Angle { sin_half: 0, cos_half: ONE }));
    assert_eq!(Angle::new(-ONE, 0), Some(Angle { sin_half: -ONE, cos_half: 0 }));
    assert_eq!(Angle::new(46341, -46341), Some(Angle { sin_half: 46341, cos_half: -46341 }));
    assert_eq!(Angle::new(-ONE, -ONE), None);
    assert_eq!(Angle::new(0, 0), None);
    assert_eq!(Angle::new(1, ONE), Some(Angle { sin_half: 1, cos_half: ONE }));
    assert_eq!(Angle::new(363, ONE), None);
    assert_eq!(Angle::new(0, ONE - 2), None);
    assert_eq!(Angle::new(ONE + 1, 0), None);
    assert_eq!(Angle::new(0, -ONE - 1), None);
    assert_eq!(Angle::new(i32::MIN, i32::MAX), None);
    assert_eq!(Angle::zero(), Angle { sin_half: 0, cos_half: ONE });
}

#[test]
fn angle_and_input_tell_whether_they_are_valid() {
    assert!(Angle::zero().is_valid());
    assert!(thirty().is_valid());
    assert!(!Angle { sin_half: ONE + 1, cos_half: 0 }.is_valid());
    assert!(!Angle { sin_half: 0, cos_half: i32::MIN }.is_valid());
    assert!(idle().is_valid());
    assert!(!CameraInput { pitch: Angle { sin_half: -ONE - 1, cos_half: 0 }, ..idle() }.is_valid());
    assert!(!CameraInput { yaw: Angle { sin_half: 0, cos_half: ONE + 1 }, ..idle() }.is_valid());
}

#[test]
fn rotation_by_a_quarter_turn_swaps_axes() {
    assert_eq!(vector3_rotate_by_axis_angle(v(ONE, 0, 0), v(0, 0, ONE), quarter()), v(0, ONE, 0));
    assert_eq!(vector3_rotate_by_axis_angle(v(ONE, 0, 0), v(0, 0, 5), quarter()), v(0, ONE, 0));
}

#[test]
fn rotation_by_a_half_turn_mirrors_through_the_axis() {
    let half = Angle::new(ONE, 0).unwrap();
    assert_eq!(
        vector3_rotate_by_axis_angle(v(3 * ONE, 2 * ONE, ONE), v(0, 7, 0), half),
        v(-3 * ONE, 2 * ONE, -ONE)
    );
}

#[test]
fn rotation_by_zero_changes_nothing() {
    assert_eq!(vector3_rotate_by_axis_angle(v(123, -456, 789), v(1, 2, 3), Angle::zero()), v(123, -456, 789));
    assert_eq!(
        vector3_rotate_by_axis_angle(v(i32::MAX, i32::MIN, 0), v(0, 0, 0), Angle::zero()),
        v(i32::MAX, i32::MIN, 0)
    );
}

#[test]
fn rotation_about_a_slanted_axis() {
    assert_eq!(
        vector3_rotate_by_axis_angle(v(10 * ONE, 0, 0), v(1, 1, 1), thirty()),
        v(596826, 218453, -159919)
    );
}

#[test]
fn rotation_about_no_axis_only_scales_by_rounding() {
    assert_eq!(vector3_rotate_by_axis_angle(v(5, 6, 7), v(0, 0, 0), quarter()), v(5, 6, 7));
}

#[test]
fn rotation_keeps_the_length() {
    let turned = vector3_rotate_by_axis_angle(v(10 * ONE, 0, 0), v(1, 1, 1), thirty());
    let before = (10 * ONE as i128) * (10 * ONE as i128);
    let after = norm2(turned);
    assert!((after - before).abs() * 10000 < before, "{} against {}", after, before);
}

#[test]
fn derived_vectors_of_the_start_pose() {
    let camera = start();
    assert_eq!(get_camera_forward(&camera), v(9177, -45884, -45884));
    assert_eq!(get_camera_up(&camera), v(0, ONE, 0));
    assert_eq!(get_camera_right(&camera), v(64263, 0, 12853));
}

#[test]
fn derived_vectors_are_unit_vectors() {
    let mut camera = start();
    for step in 0..40 {
        camera_yaw(&mut camera, thirty(), step % 3 == 0);
        camera_pitch(&mut camera, thirty(), step % 2 == 0);
        assert!(is_unit(get_camera_forward(&camera)));
        assert!(is_unit(get_camera_up(&camera)));
        assert!(is_unit(get_camera_right(&camera)));
        assert_eq!(camera.up, v(0, ONE, 0));
    }
}

#[test]
fn derived_vectors_of_a_camera_on_its_target_are_zero() {
    let camera = Camera3D { position: v(5, 5, 5), target: v(5, 5, 5), up: v(0, 0, 0) };
    assert_eq!(get_camera_forward(&camera), v(0, 0, 0));
    assert_eq!(get_camera_up(&camera), v(0, 0, 0));
    assert_eq!(get_camera_right(&camera), v(0, 0, 0));
}

#[test]
fn yaw_and_pitch_from_where_the_camera_stands_move_the_target() {
    let mut camera = start();
    camera_yaw(&mut camera, thirty(), false);
    assert_eq!(camera.position, start().position);
    assert_eq!(camera.target, v(-1070848, 655360, 766689));
    camera_pitch(&mut camera, thirty(), false);
    assert_eq!(camera.position, start().position);
    assert_eq!(camera.target, v(-1452408, 2765223, -361222));
    assert_eq!(camera.up, start().up);
}

#[test]
fn yaw_and_pitch_around_the_target_move_the_position() {
    let mut camera = start();
    camera_yaw(&mut camera, thirty(), false);
    camera_pitch(&mut camera, thirty(), false);
    let target = camera.target;
    camera_yaw(&mut camera, thirty(), true);
    assert_eq!(camera.target, target);
    assert_eq!(camera.position, v(1952112, 3932160, 2630747));
    camera_pitch(&mut camera, thirty(), true);
    assert_eq!(camera.target, target);
    assert_eq!(camera.position, v(1934264, 1509604, 2615062));
    assert_eq!(camera.up, start().up);
}

#[test]
fn yaw_keeps_the_distance_to_the_pivot() {
    let mut camera = start();
    let before = norm2(camera.target.minus(camera.position));
    camera_yaw(&mut camera, thirty(), true);
    let after = norm2(camera.target.minus(camera.position));
    assert!((after - before).abs() * 10000 < before);
}

#[test]
fn moves_shift_position_and_target_alike() {
    let mut camera = Camera3D {
        position: v(1934264, 1509604, 2615062),
        target: v(-1452408, 2765223, -361222),
        up: v(0, ONE, 0),
    };
    let view = camera.target.minus(camera.position);
    camera_move_forward(&mut camera, 5 * ONE / 2);
    assert_eq!(camera.position, v(1815706, 1553559, 2510872));
    assert_eq!(camera.target, v(-1570966, 2809178, -465412));
    camera_move_right(&mut camera, -ONE);
    assert_eq!(camera.position, v(1772444, 1553559, 2560100));
    assert_eq!(camera.target, v(-1614228, 2809178, -416184));
    camera_move_up(&mut camera, 3 * ONE);
    assert_eq!(camera.position, v(1772444, 1750167, 2560100));
    assert_eq!(camera.target, v(-1614228, 3005786, -416184));
    assert_eq!(camera.target.minus(camera.position), view);
    assert_eq!(camera.up, v(0, ONE, 0));
}

#[test]
fn dolly_changes_the_distance_along_the_line_of_sight() {
    let mut camera = Camera3D {
        position: v(1772444, 1750167, 2560100),
        target: v(-1614228, 3005786, -416184),
        up: v(0, ONE, 0),
    };
    camera_move_to_target(&mut camera, -10 * ONE);
    assert_eq!(camera.position, v(1298226, 1925999, 2143321));
    assert_eq!(camera.target, v(-1614228, 3005786, -416184));
    camera_move_to_target(&mut camera, -1000 * ONE);
    assert_eq!(camera.position, v(-1614180, 3005768, -416142));
    assert_eq!(norm2(camera.position.minus(camera.target)), 4392);
    camera_move_to_target(&mut camera, 5 * ONE);
    assert_eq!(camera.position, v(-1376845, 2916768, -208477));
    assert_eq!(camera.target, v(-1614228, 3005786, -416184));
}

#[test]
fn dolly_never_reaches_the_target() {
    let low = (DOLLY_FLOOR as i128 - 1) * (DOLLY_FLOOR as i128 - 1);
    let high = (DOLLY_FLOOR as i128 + 1) * (DOLLY_FLOOR as i128 + 1);
    for delta in [-61 * ONE, -60 * ONE, -1000 * ONE, i32::MIN] {
        for position in [v(0, 60 * ONE, 0), v(7, -3, 2), v(-ONE, ONE, 5 * ONE), v(1, 0, 0)] {
            let mut camera = Camera3D { position, target: v(0, 0, 0), up: v(0, ONE, 0) };
            camera_move_to_target(&mut camera, delta);
            let span = norm2(camera.position);
            assert!(low <= span && span <= high, "{:?} by {} ends at {:?}", position, delta, camera.position);
            assert_eq!(camera.target, v(0, 0, 0));
        }
    }
}

#[test]
fn dolly_by_exactly_the_distance_falls_back_to_the_floor() {
    let mut camera = Camera3D { position: v(0, 0, 3 * ONE), target: v(0, 0, 0), up: v(0, ONE, 0) };
    camera_move_to_target(&mut camera, -3 * ONE);
    assert_eq!(camera.position, v(0, 0, DOLLY_FLOOR));
    camera_move_to_target(&mut camera, 1 - DOLLY_FLOOR);
    assert_eq!(camera.position, v(0, 0, 1));
}

#[test]
fn dolly_of_a_camera_on_its_target_stays_there() {
    let mut camera = Camera3D { position: v(4, 4, 4), target: v(4, 4, 4), up: v(0, ONE, 0) };
    camera_move_to_target(&mut camera, -ONE);
    assert_eq!(camera.position, v(4, 4, 4));
}

#[test]
fn controls_without_input_only_dolly_by_nothing() {
    let mut camera = Camera3D { position: v(0, 0, 3 * ONE), target: v(0, 0, 0), up: v(0, ONE, 0) };
    handle_camera_controls(&mut camera, &idle());
    assert_eq!(camera, Camera3D { position: v(0, 0, 3 * ONE), target: v(0, 0, 0), up: v(0, ONE, 0) });
}

#[test]
fn controls_ignore_the_keys_unless_the_primary_button_is_held() {
    let mut camera = start();
    let mut expected = start();
    let input = CameraInput { forward: true, left: true, rise: true, frame_time: ONE, yaw: thirty(), ..idle() };
    handle_camera_controls(&mut camera, &input);
    camera_move_to_target(&mut expected, 0);
    assert_eq!(camera, expected);
}

#[test]
fn controls_turn_then_move_then_orbit_then_dolly() {
    let input = CameraInput {
        look: true,
        orbit: true,
        yaw: thirty(),
        pitch: Angle::new(-16962, 63303).unwrap(),
        forward: true,
        backward: false,
        left: true,
        right: false,
        rise: false,
        sink: true,
        frame_time: ONE / 50,
        wheel: 2 * ONE,
    };
    let mut camera = start();
    handle_camera_controls(&mut camera, &input);
    let mut expected = start();
    let pace = CAMERA_SPEED * (ONE / 50);
    let climb = CAMERA_UP_SPEED * (ONE / 50);
    camera_yaw(&mut expected, input.yaw, false);
    camera_pitch(&mut expected, input.pitch, false);
    camera_move_forward(&mut expected, pace);
    camera_move_right(&mut expected, -pace);
    camera_move_up(&mut expected, -climb);
    camera_yaw(&mut expected, input.yaw, true);
    camera_pitch(&mut expected, input.pitch, true);
    camera_move_to_target(&mut expected, -2 * ONE);
    assert_eq!(camera, expected);
    assert_ne!(camera, start());
}

#[test]
fn controls_with_opposite_keys_step_there_and_back() {
    let input = CameraInput {
        look: true,
        forward: true,
        backward: true,
        left: true,
        right: true,
        rise: true,
        sink: true,
        frame_time: ONE / 60,
        ..idle()
    };
    let mut camera = Camera3D { position: v(0, 0, 3 * ONE), target: v(0, 0, 0), up: v(0, ONE, 0) };
    handle_camera_controls(&mut camera, &input);
    assert_eq!(camera, Camera3D { position: v(0, 0, 3 * ONE), target: v(0, 0, 0), up: v(0, ONE, 0) });
}

#[test]
fn controls_saturate_a_frame_that_lasts_too_long() {
    let input = CameraInput { look: true, rise: true, frame_time: i32::MAX, ..idle() };
    let mut camera = Camera3D { position: v(0, 0, 3 * ONE), target: v(0, 0, 0), up: v(0, ONE, 0) };
    handle_camera_controls(&mut camera, &input);
    assert_eq!(camera.target, v(0, i32::MAX, 0));
    assert_eq!(camera.up, v(0, ONE, 0));
}
