use cube_fountain::camera::{displacement, Camera, KeyState, LookAt, PITCH_LIMIT};
use cube_fountain::fixed::ONE;
use cube_fountain::vec3::Vec3;

fn v(x: i64, y: i64, z: i64) -> Vec3 {
    Vec3 { x, y, z }
}

fn no_keys() -> KeyState {
    KeyState { forward: false, back: false, right: false, left: false, up: false, down: false }
}

fn dot(a: Vec3, b: Vec3) -> i128 {
    a.x as i128 * b.x as i128 + a.y as i128 * b.y as i128 + a.z as i128 * b.z as i128
}

#[test]
fn a_new_camera_sits_at_the_origin() {
    let camera = Camera::new();
    assert_eq!(camera.position, v(0, 0, 0));
    assert_eq!(camera.theta, 0);
    assert_eq!(camera.phi, 0);
}

#[test]
fn a_new_camera_looks_along_x_with_minus_y_up() {
    let camera = Camera::new();
    assert_eq!(Camera::up_world(), v(0, -ONE, 0));
    assert_eq!(camera.front(), v(ONE, 0, 0));
    assert_eq!(camera.right(), v(0, 0, -ONE));
    assert_eq!(camera.up(), v(0, -ONE, 0));
}

#[test]
fn the_basis_of_a_tilted_camera() {
    let camera = Camera { position: v(0, 0, 0), theta: 3_000, phi: 4_500 };
    assert_eq!(camera.front(), v(612_372, 500_000, 612_372));
    assert_eq!(camera.right(), v(707_106, 0, -707_107));
    assert_eq!(camera.up(), v(353_553, -866_026, 353_553));
}

#[test]
fn the_basis_at_the_steepest_pitch() {
    let camera = Camera { position: v(0, 0, 0), theta: PITCH_LIMIT, phi: 0 };
    assert_eq!(camera.front(), v(1_745, 999_998, 0));
    assert_eq!(camera.right(), v(0, 0, -ONE));
    assert_eq!(camera.up(), v(999_998, -1_746, 0));
}

#[test]
fn right_is_of_length_one_at_the_steepest_pitch_and_any_yaw() {
    let camera = Camera { position: v(0, 0, 0), theta: PITCH_LIMIT, phi: 4_500 };
    assert_eq!(camera.front(), v(1_233, 999_998, 1_233));
    assert_eq!(camera.right(), v(707_106, 0, -707_107));
    assert_eq!(dot(camera.right(), camera.right()), 999_999_204_685);
    let mut phi: i64 = 0;
    while phi < 36_000 {
        for theta in [PITCH_LIMIT, -PITCH_LIMIT, PITCH_LIMIT - 1, 1 - PITCH_LIMIT] {
            let right = Camera { position: v(0, 0, 0), theta, phi }.right();
            let off = dot(right, right) - ONE as i128 * ONE as i128;
            assert!(off.abs() <= 7_000_000, "at {theta} {phi}");
        }
        phi += 1;
    }
}

#[test]
fn front_follows_the_two_angles_between_the_entries_of_the_table() {
    let camera = Camera { position: v(0, 0, 0), theta: 4_500, phi: 50 };
    assert_eq!(camera.front(), v(707_079, 707_107, 6_170));
    let camera = Camera { position: v(9, 9, 9), theta: -5_180, phi: 450 };
    assert_eq!(camera.front(), v(616_500, -785_859, 48_519));
    let mut theta: i64 = -PITCH_LIMIT;
    while theta <= PITCH_LIMIT {
        let mut phi: i64 = 0;
        while phi < 36_000 {
            let front = Camera { position: v(0, 0, 0), theta, phi }.front();
            let (t, p) = ((theta as f64 / 100.).to_radians(), (phi as f64 / 100.).to_radians());
            let truth = [p.cos() * t.cos(), t.sin(), p.sin() * t.cos()];
            for (ours, theirs) in [front.x, front.y, front.z].into_iter().zip(truth) {
                assert!((ours as f64 / ONE as f64 - theirs).abs() < 6e-6, "at {theta} {phi}");
            }
            assert_eq!(front.y.signum(), theta.signum());
            phi += 53;
        }
        theta += 31;
    }
}

#[test]
fn level_directions_are_level_and_up_points_up() {
    let mut phi: i64 = -36_000;
    while phi < 72_000 {
        for theta in [-PITCH_LIMIT, -4_500, -1, 0, 1, 3_000, PITCH_LIMIT] {
            let camera = Camera { position: v(1, 2, 3), theta, phi };
            assert_eq!(camera.front_flat().y, 0);
            assert_eq!(camera.right().y, 0);
            assert_eq!(camera.right_flat(), camera.right());
            assert_eq!(camera.up_flat(), Camera::up_world());
            assert!(camera.up().y < 0);
            assert_eq!(camera.front().y.signum(), theta.signum());
            let side = camera.front().cross(Camera::up_world());
            assert!(dot(camera.right(), side) >= 1_000 * ONE as i128);
        }
        phi += 11;
    }
}

#[test]
fn the_flat_basis_ignores_the_pitch() {
    let level = Camera { position: v(0, 0, 0), theta: 0, phi: 3_000 };
    let steep = Camera { position: v(0, 0, 0), theta: 8_000, phi: 3_000 };
    assert_eq!(steep.front(), v(150_382, 984_808, 86_823));
    assert_eq!(steep.right_flat(), steep.right());
    assert_eq!(steep.front_flat().y, 0);
    assert_eq!(steep.front_flat(), v(866_025, 0, 500_000));
    assert_eq!(steep.right_flat(), v(500_000, 0, -866_026));
    assert_eq!(steep.up_flat(), v(0, -ONE, 0));
    assert_eq!(steep.front_flat(), level.front());
    assert_eq!(steep.right_flat(), level.right());
    assert_eq!(steep.up_flat(), level.up());
}

#[test]
fn the_basis_is_orthonormal_at_every_pitch_within_the_limits() {
    let unit: i128 = ONE as i128 * ONE as i128;
    let mut theta: i64 = -PITCH_LIMIT;
    while theta <= PITCH_LIMIT {
        let mut phi: i64 = -36_000;
        while phi < 72_000 {
            let camera = Camera { position: v(0, 0, 0), theta, phi };
            let (front, right, up) = (camera.front(), camera.right(), camera.up());
            for axis in [front, right, up] {
                let off = dot(axis, axis) - unit;
                assert!(off.abs() <= unit / 100_000, "length at {theta} {phi}");
            }
            for (a, b) in [(front, right), (front, up), (right, up)] {
                assert!(dot(a, b).abs() <= unit / 100_000, "angle at {theta} {phi}");
            }
            phi += 730;
        }
        theta += if theta.abs() > 8_900 { 1 } else { 37 };
    }
}

#[test]
fn the_view_looks_from_the_position_along_front() {
    let camera = Camera { position: v(ONE, 2 * ONE, 3 * ONE), theta: 3_000, phi: 4_500 };
    assert_eq!(
        camera.view(),
        LookAt {
            eye: v(ONE, 2 * ONE, 3 * ONE),
            center: v(1_612_372, 2_500_000, 3_612_372),
            up: v(353_553, -866_026, 353_553),
        }
    );
}

#[test]
fn the_mouse_turns_the_camera_by_a_twentieth_of_a_degree_per_unit() {
    let mut camera = Camera::new();
    camera.input_mouse(10, 20);
    assert_eq!(camera.phi, -50);
    assert_eq!(camera.theta, 100);
    camera.input_mouse(-30, -50);
    assert_eq!(camera.phi, 100);
    assert_eq!(camera.theta, -150);
    assert_eq!(camera.position, v(0, 0, 0));
}

#[test]
fn moving_the_mouse_down_the_screen_raises_front_along_y() {
    let mut camera = Camera::new();
    camera.input_mouse(0, 200);
    assert!(camera.front().y > 0);
    let mut other = Camera::new();
    other.input_mouse(200, 0);
    assert!(other.front().z < 0);
}

#[test]
fn the_pitch_stops_exactly_at_the_limit() {
    let mut camera = Camera::new();
    camera.input_mouse(0, 1_797);
    assert_eq!(camera.theta, 8_985);
    camera.input_mouse(0, 1);
    assert_eq!(camera.theta, 8_990);
    camera.input_mouse(0, 1);
    assert_eq!(camera.theta, 8_990);
    camera.input_mouse(0, i32::MAX);
    assert_eq!(camera.theta, 8_990);
    camera.input_mouse(0, i32::MIN);
    assert_eq!(camera.theta, -8_990);
    camera.input_mouse(0, -1);
    assert_eq!(camera.theta, -8_990);
    camera.input_mouse(0, 1);
    assert_eq!(camera.theta, -8_985);
}

#[test]
fn the_pitch_of_a_camera_beyond_the_limit_is_brought_back() {
    let mut camera = Camera { position: v(0, 0, 0), theta: i64::MAX, phi: 0 };
    camera.input_mouse(0, 5);
    assert_eq!(camera.theta, 8_990);
}

#[test]
fn the_yaw_is_not_limited_and_stops_only_at_the_end_of_the_numbers() {
    let mut camera = Camera::new();
    camera.input_mouse(-100_000, 0);
    assert_eq!(camera.phi, 500_000);
    let mut far = Camera { position: v(0, 0, 0), theta: 0, phi: i64::MIN + 3 };
    far.input_mouse(1, 0);
    assert_eq!(far.phi, i64::MIN);
}

#[test]
fn a_step_is_speed_times_time_along_the_direction() {
    assert_eq!(displacement(v(ONE, 0, 0), 500_000), v(4_000_000, 0, 0));
    assert_eq!(displacement(v(866_025, 0, 500_000), 250_000), v(1_732_050, 0, 1_000_000));
    assert_eq!(displacement(v(500_000, 0, -866_026), 250_000), v(1_000_000, 0, -1_732_052));
    assert_eq!(displacement(v(ONE, 0, 0), 0), v(0, 0, 0));
}

#[test]
fn holding_forward_moves_along_the_flat_front() {
    let mut camera = Camera { position: v(ONE, 2 * ONE, 3 * ONE), theta: 8_000, phi: 3_000 };
    camera.input_kb(KeyState { forward: true, ..no_keys() }, 250_000);
    assert_eq!(camera.position, v(2_732_050, 2 * ONE, 4 * ONE));
    assert_eq!(camera.theta, 8_000);
    assert_eq!(camera.phi, 3_000);
}

#[test]
fn holding_forward_and_left_adds_both_steps() {
    let mut camera = Camera { position: v(ONE, 2 * ONE, 3 * ONE), theta: 8_000, phi: 3_000 };
    camera.input_kb(KeyState { forward: true, left: true, ..no_keys() }, 250_000);
    assert_eq!(camera.position, v(1_732_050, 2 * ONE, 5_732_052));
    let moved = camera.position.minus(v(ONE, 2 * ONE, 3 * ONE));
    assert!(moved.length() > 2 * ONE + 800_000);
}

#[test]
fn each_key_moves_its_own_way() {
    let start = Camera { position: v(0, 0, 0), theta: -2_000, phi: 3_000 };
    let cases = [
        (KeyState { forward: true, ..no_keys() }, v(1_732_050, 0, 1_000_000)),
        (KeyState { back: true, ..no_keys() }, v(-1_732_050, 0, -1_000_000)),
        (KeyState { right: true, ..no_keys() }, v(1_000_000, 0, -1_732_052)),
        (KeyState { left: true, ..no_keys() }, v(-1_000_000, 0, 1_732_052)),
        (KeyState { up: true, ..no_keys() }, v(0, -2_000_000, 0)),
        (KeyState { down: true, ..no_keys() }, v(0, 2_000_000, 0)),
    ];
    for (keys, expected) in cases {
        let mut camera = start;
        camera.input_kb(keys, 250_000);
        assert_eq!(camera.position, expected);
    }
}

#[test]
fn the_single_moves_agree_with_the_keys() {
    let start = Camera { position: v(5, 6, 7), theta: 1_234, phi: -7_777 };
    let mut by_key = start;
    by_key.input_kb(KeyState { back: true, right: true, up: true, ..no_keys() }, 123_456);
    let mut by_hand = start;
    by_hand.move_back(123_456);
    by_hand.move_right(123_456);
    by_hand.move_up(123_456);
    assert_eq!(by_key, by_hand);
    let mut forth = start;
    forth.move_front(99_999);
    forth.move_left(99_999);
    forth.move_down(99_999);
    let mut keys = start;
    keys.input_kb(KeyState { forward: true, left: true, down: true, ..no_keys() }, 99_999);
    assert_eq!(forth, keys);
}

#[test]
fn opposite_keys_cancel_and_no_key_or_no_time_leaves_the_camera() {
    let start = Camera { position: v(1, 2, 3), theta: 500, phi: 12_345 };
    let mut camera = start;
    camera.input_kb(KeyState { forward: true, back: true, ..no_keys() }, 777_777);
    assert_eq!(camera, start);
    camera.input_kb(no_keys(), 1_000_000);
    assert_eq!(camera, start);
    let all = KeyState { forward: true, back: false, right: true, left: false, up: true, down: false };
    camera.input_kb(all, 0);
    assert_eq!(camera, start);
}

#[test]
fn a_position_at_the_end_of_the_numbers_stays_there() {
    let mut camera = Camera { position: v(i64::MAX - 5, 0, 0), theta: 0, phi: 0 };
    camera.input_kb(KeyState { forward: true, ..no_keys() }, 1_000_000);
    assert_eq!(camera.position, v(i64::MAX, 0, 0));
}

fn to_float(a: Vec3) -> glm::Vec3 {
    glm::vec3(a.x as f32 / ONE as f32, a.y as f32 / ONE as f32, a.z as f32 / ONE as f32)
}

fn float_front(theta: f32, phi: f32) -> glm::Vec3 {
    glm::normalize(glm::vec3(
        glm::radians(phi).cos() * glm::radians(theta).cos(),
        glm::radians(theta).sin(),
        glm::radians(phi).sin() * glm::radians(theta).cos(),
    ))
}

fn near(a: glm::Vec3, b: glm::Vec3, slack: f32) -> bool {
    (a.x - b.x).abs() <= slack && (a.y - b.y).abs() <= slack && (a.z - b.z).abs() <= slack
}

#[test]
fn the_basis_agrees_with_the_same_formulas_in_floating_point() {
    let mut theta: i64 = -PITCH_LIMIT;
    while theta <= PITCH_LIMIT {
        let mut phi: i64 = -18_000;
        while phi <= 54_000 {
            let camera = Camera { position: v(0, 0, 0), theta, phi };
            let front = float_front(theta as f32 / 100., phi as f32 / 100.);
            let right = glm::normalize(glm::cross(front, glm::vec3(0., -1., 0.)));
            let up = glm::normalize(glm::cross(right, front));
            assert!(near(to_float(camera.front()), front, 1e-5), "front at {theta} {phi}");
            assert!(near(to_float(camera.right()), right, 1e-5), "right at {theta} {phi}");
            assert!(near(to_float(camera.up()), up, 1e-5), "up at {theta} {phi}");
            let flat = float_front(0., phi as f32 / 100.);
            assert!(near(to_float(camera.front_flat()), flat, 1e-5), "flat at {phi}");
            phi += 1_111;
        }
        theta += 29;
    }
}

#[test]
fn the_view_matrix_agrees_with_the_one_built_in_floating_point() {
    let camera = Camera { position: v(3 * ONE, -2 * ONE, 5 * ONE), theta: -2_500, phi: 13_000 };
    let look = camera.view();
    let ours = glm::ext::look_at(to_float(look.eye), to_float(look.center), to_float(look.up));
    let eye = glm::vec3(3., -2., 5.);
    let front = float_front(-25., 130.);
    let right = glm::normalize(glm::cross(front, glm::vec3(0., -1., 0.)));
    let up = glm::normalize(glm::cross(right, front));
    let theirs = glm::ext::look_at(eye, eye + front, up);
    for (a, b) in [(ours.c0, theirs.c0), (ours.c1, theirs.c1), (ours.c2, theirs.c2), (ours.c3, theirs.c3)] {
        assert!((a.x - b.x).abs() < 1e-3 && (a.y - b.y).abs() < 1e-3);
        assert!((a.z - b.z).abs() < 1e-3 && (a.w - b.w).abs() < 1e-3);
    }
}
