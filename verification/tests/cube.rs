use cube_fountain::cube::{
    Cube, SpawnSample, TransformOp, CUBE_SCALE, RESPAWN_HEIGHT, SPEED_SQUARED_MAX,
    SPEED_SQUARED_MIN, SPIN_MAX, THROW_PITCH_MAX, THROW_PITCH_MIN, THROW_SPEED_MAX,
    THROW_SPEED_MIN,
};
use cube_fountain::fixed::ONE;
use cube_fountain::vec3::Vec3;

fn v(x: i64, y: i64, z: i64) -> Vec3 {
    Vec3 { x, y, z }
}

fn sample(r: i64, phi: i64, theta: i64, rot_phi: i64, rot_theta: i64, rot_speed: i64) -> SpawnSample {
    SpawnSample { r, phi, theta, rot_phi, rot_theta, rot_speed }
}

fn flying() -> Cube {
    Cube {
        position: v(0, -ONE, 0),
        velocity: v(ONE, -12 * ONE, 2 * ONE),
        rot_axis: v(0, ONE, 0),
        rotation: 0,
        rot_speed: 3 * ONE,
        scale: CUBE_SCALE,
    }
}

fn square(a: Vec3) -> i128 {
    a.x as i128 * a.x as i128 + a.y as i128 * a.y as i128 + a.z as i128 * a.z as i128
}

fn in_ranges(cube: &Cube) -> bool {
    let speed = square(cube.velocity);
    let flat = square(v(cube.velocity.x, 0, cube.velocity.z));
    cube.position == v(0, -ONE, 0)
        && SPEED_SQUARED_MIN as i128 <= speed
        && speed <= SPEED_SQUARED_MAX as i128
        && cube.velocity.y < 0
        && speed - flat >= 3 * flat
        && cube.rotation == 0
        && 0 <= cube.rot_speed
        && cube.rot_speed < SPIN_MAX
        && cube.scale == CUBE_SCALE
        && (square(cube.rot_axis) - ONE as i128 * ONE as i128).abs() <= 10_000_000
}

/// A source of throws that gives the same ones every time.
struct Throws {
    state: u64,
}

impl Throws {
    fn below(&mut self, low: i64, high: i64) -> i64 {
        self.state = self.state.wrapping_mul(6_364_136_223_846_793_005).wrapping_add(1_442_695_040_888_963_407);
        low + ((self.state >> 33) % (high - low) as u64) as i64
    }

    fn next(&mut self) -> SpawnSample {
        SpawnSample {
            r: self.below(THROW_SPEED_MIN, THROW_SPEED_MAX),
            phi: self.below(-18_000, 18_000),
            theta: self.below(THROW_PITCH_MIN, THROW_PITCH_MAX),
            rot_phi: self.below(-18_000, 18_000),
            rot_theta: self.below(-9_000, 9_000),
            rot_speed: self.below(0, SPIN_MAX),
        }
    }
}

#[test]
fn a_throw_decides_the_cube() {
    let cube = Cube::from_sample(sample(18_000_000, 4_500, -7_500, -12_000, 3_000, 2_500_000));
    assert_eq!(
        cube,
        Cube {
            position: v(0, -ONE, 0),
            velocity: v(3_294_198, -17_386_686, 3_294_198),
            rot_axis: v(-433_014, 499_999, -750_001),
            rotation: 0,
            rot_speed: 2_500_000,
            scale: 750_000,
        }
    );
}

#[test]
fn the_slowest_throw_straight_up() {
    let cube = Cube::from_sample(sample(THROW_SPEED_MIN, 0, THROW_PITCH_MIN, 0, 0, 0));
    assert_eq!(cube.velocity, v(0, -12 * ONE, 0));
    assert_eq!(cube.rot_axis, v(ONE, 0, 0));
    assert_eq!(cube.rot_speed, 0);
}

#[test]
fn the_throws_at_the_ends_of_the_ranges_stay_within_the_bounds() {
    for r in [THROW_SPEED_MIN, THROW_SPEED_MAX - 1] {
        for theta in [THROW_PITCH_MIN, THROW_PITCH_MAX - 1] {
            for phi in [-18_000, -9_000, 0, 4_500, 17_999] {
                let cube = Cube::from_sample(sample(r, phi, theta, phi, 8_999, SPIN_MAX - 1));
                assert!(in_ranges(&cube), "{r} {theta} {phi}");
            }
        }
    }
    let flattest = Cube::from_sample(sample(THROW_SPEED_MIN, 0, THROW_PITCH_MAX - 1, 0, 0, 0));
    assert_eq!(flattest.velocity, v(5_998_176, -10_393_356, 0));
}

#[test]
fn a_throw_between_two_entries_of_the_sine_table_keeps_its_speed() {
    let cube = Cube::from_sample(sample(12_000_100, 0, -7_550, 0, 4_550, 0));
    assert_eq!(cube.velocity, v(3_004_561, -11_617_873, 0));
    assert_eq!(square(cube.velocity), 144_002_359_846_850);
    assert_eq!(cube.rot_axis, v(700_909, 713_250, 0));
    assert_eq!(square(cube.rot_axis), 999_998_988_781);
    assert!(in_ranges(&cube));
}

#[test]
fn every_throw_flies_as_fast_as_it_was_thrown_and_within_the_cone() {
    let mut throws = Throws { state: 7 };
    for _ in 0..20_000 {
        let throw = throws.next();
        let cube = Cube::from_sample(throw);
        assert!(in_ranges(&cube), "{throw:?}");
        let (speed, r) = (square(cube.velocity), throw.r as i128 * throw.r as i128);
        assert!(99_999 * r <= 100_000 * speed && 100_000 * speed <= 100_001 * r, "{throw:?}");
    }
}

#[test]
fn drawn_throws_lie_in_their_ranges_and_differ() {
    let first = SpawnSample::random();
    let mut differ = false;
    for _ in 0..200 {
        let s = SpawnSample::random();
        assert!(THROW_SPEED_MIN <= s.r && s.r < THROW_SPEED_MAX);
        assert!(-18_000 <= s.phi && s.phi < 18_000);
        assert!(THROW_PITCH_MIN <= s.theta && s.theta < THROW_PITCH_MAX);
        assert!(-18_000 <= s.rot_phi && s.rot_phi < 18_000);
        assert!(-9_000 <= s.rot_theta && s.rot_theta < 9_000);
        assert!(0 <= s.rot_speed && s.rot_speed < SPIN_MAX);
        differ = differ || s != first;
        assert!(s.r != THROW_SPEED_MAX && s.theta != THROW_PITCH_MAX);
    }
    assert!(differ);
}

#[test]
fn drawn_speeds_are_not_all_the_lowest_of_the_range() {
    let mut above = false;
    for _ in 0..200 {
        let s = SpawnSample::random();
        above = above || (s.r != THROW_SPEED_MIN && s.rot_speed != 0 && s.phi != -18_000);
    }
    assert!(above);
}

#[test]
fn new_cubes_fly_within_the_ranges() {
    for _ in 0..200 {
        let cube = Cube::new();
        assert!(in_ranges(&cube));
    }
}

#[test]
fn the_floor_is_a_huge_cube_at_rest() {
    assert_eq!(
        Cube::floor(),
        Cube {
            position: v(0, 500_500_000, 0),
            velocity: v(0, 0, 0),
            rot_axis: v(ONE, ONE, ONE),
            rotation: 0,
            rot_speed: 0,
            scale: 1_000 * ONE,
        }
    );
}

#[test]
fn free_flight_follows_the_hand_computed_steps() {
    let mut cube = flying();
    let expected = [
        (v(16_667, -1_197_227, 33_334), v(ONE, -11_833_330, 2 * ONE), 50_001),
        (v(33_334, -1_391_676, 66_668), v(ONE, -11_666_660, 2 * ONE), 100_002),
        (v(50_001, -1_583_347, 100_002), v(ONE, -11_499_990, 2 * ONE), 150_003),
        (v(66_668, -1_772_240, 133_336), v(ONE, -11_333_320, 2 * ONE), 200_004),
        (v(83_335, -1_958_355, 166_670), v(ONE, -11_166_650, 2 * ONE), 250_005),
    ];
    for (n, (position, velocity, rotation)) in expected.into_iter().enumerate() {
        cube.update_with(16_667, v(0, 0, 0), sample(THROW_SPEED_MIN, 0, THROW_PITCH_MIN, 0, 0, 0));
        assert_eq!(cube.position, position);
        assert_eq!(cube.velocity, velocity);
        assert_eq!(cube.velocity.y, -12 * ONE + (n as i64 + 1) * 166_670);
        assert_eq!(cube.rotation, rotation);
        assert_eq!(cube.rot_axis, v(0, ONE, 0));
        assert_eq!(cube.rot_speed, 3 * ONE);
        assert_eq!(cube.scale, CUBE_SCALE);
    }
}

#[test]
fn the_random_update_flies_like_the_given_one() {
    let mut a = flying();
    let mut b = flying();
    for _ in 0..50 {
        a.update(16_667, v(1_000, -2_000, 3_000));
        b.update_with(16_667, v(1_000, -2_000, 3_000), sample(THROW_SPEED_MIN, 0, THROW_PITCH_MIN, 0, 0, 0));
        assert_eq!(a, b);
    }
}

#[test]
fn a_force_adds_to_gravity() {
    let mut cube = flying();
    cube.update(16_667, v(3 * ONE, -4 * ONE, -500_000));
    assert_eq!(cube.velocity, v(1_050_001, -11_899_998, 1_991_666));
    assert_eq!(cube.position, v(17_500, -1_198_338, 33_195));
    assert_eq!(cube.rotation, 50_001);
}

#[test]
fn a_tick_of_no_time_changes_nothing() {
    let mut cube = flying();
    cube.update(0, v(5 * ONE, 5 * ONE, 5 * ONE));
    assert_eq!(cube, flying());
}

#[test]
fn a_spent_cube_is_thrown_anew_and_feels_no_gravity_in_that_tick() {
    let throw = sample(18_000_000, 4_500, -7_500, -12_000, 3_000, 2_500_000);
    let mut cube = flying();
    cube.position = v(7 * ONE, RESPAWN_HEIGHT + 1, -3 * ONE);
    cube.rotation = 123;
    cube.update_with(16_667, v(9 * ONE, 9 * ONE, 9 * ONE), throw);
    assert_eq!(cube, Cube::from_sample(throw));
    assert_eq!(cube.position, v(0, -ONE, 0));
    assert_eq!(cube.velocity, v(3_294_198, -17_386_686, 3_294_198));
    cube.update_with(16_667, v(0, 0, 0), throw);
    assert_eq!(cube.velocity.y, -17_386_686 + 166_670);
}

#[test]
fn a_spent_cube_gets_a_random_throw_within_the_ranges() {
    for _ in 0..100 {
        let mut cube = flying();
        cube.position.y = RESPAWN_HEIGHT + 1;
        cube.update(16_667, v(ONE, ONE, ONE));
        assert!(in_ranges(&cube));
    }
}

#[test]
fn a_cube_exactly_at_the_height_flies_on() {
    let mut cube = flying();
    cube.position.y = RESPAWN_HEIGHT;
    cube.update(16_667, v(0, 0, 0));
    assert_eq!(cube.velocity, v(ONE, -11_833_330, 2 * ONE));
    assert_eq!(cube.position.y, RESPAWN_HEIGHT - 197_227);
}

#[test]
fn a_cube_at_the_end_of_the_numbers_stays_there() {
    let mut cube = flying();
    cube.position = v(i64::MIN, i64::MIN, i64::MAX);
    cube.velocity = v(-ONE, -ONE, ONE);
    cube.rotation = i64::MAX;
    cube.update(ONE, v(0, -10 * ONE, 0));
    assert_eq!(cube.velocity, v(-ONE, -ONE, ONE));
    assert_eq!(cube.position, v(i64::MIN, i64::MIN, i64::MAX));
    assert_eq!(cube.rotation, i64::MAX);
}

#[test]
fn the_model_matrix_is_built_by_moving_then_sizing_then_turning() {
    let mut cube = flying();
    cube.position = v(ONE, 2 * ONE, 3 * ONE);
    cube.rotation = 1_250_000;
    let ops = cube.draw();
    assert_eq!(
        ops,
        vec![
            TransformOp::Translate(v(ONE, 2 * ONE, 3 * ONE)),
            TransformOp::Scale(v(750_000, 750_000, 750_000)),
            TransformOp::Rotate { angle: 1_250_000, axis: v(0, ONE, 0) },
        ]
    );
    let floor = Cube::floor().draw();
    assert_eq!(floor[0], TransformOp::Translate(v(0, 500_500_000, 0)));
    assert_eq!(floor[1], TransformOp::Scale(v(1_000 * ONE, 1_000 * ONE, 1_000 * ONE)));
    assert_eq!(floor[2], TransformOp::Rotate { angle: 0, axis: v(ONE, ONE, ONE) });
}

fn to_float(x: i64) -> f32 {
    x as f32 / ONE as f32
}

fn to_glm(a: Vec3) -> glm::Vec3 {
    glm::vec3(to_float(a.x), to_float(a.y), to_float(a.z))
}

fn model_matrix(ops: &[TransformOp]) -> glm::Mat4 {
    let mut model = glm::mat4(1., 0., 0., 0., 0., 1., 0., 0., 0., 0., 1., 0., 0., 0., 0., 1.);
    for op in ops {
        model = match *op {
            TransformOp::Translate(by) => glm::ext::translate(&model, to_glm(by)),
            TransformOp::Scale(by) => glm::ext::scale(&model, to_glm(by)),
            TransformOp::Rotate { angle, axis } => {
                glm::ext::rotate(&model, to_float(angle), to_glm(axis))
            }
        };
    }
    model
}

fn close(a: glm::Vec4, x: f32, y: f32, z: f32) -> bool {
    (a.x - x).abs() < 1e-5 && (a.y - y).abs() < 1e-5 && (a.z - z).abs() < 1e-5 && a.w == 1.
}

#[test]
fn the_model_matrix_puts_the_mesh_in_place_at_half_size() {
    let cube = Cube {
        position: v(ONE, 2 * ONE, 3 * ONE),
        velocity: v(0, 0, 0),
        rot_axis: v(0, ONE, 0),
        rotation: 0,
        rot_speed: 0,
        scale: 500_000,
    };
    let model = model_matrix(&cube.draw());
    assert!(close(model * glm::vec4(0., 0., 0., 1.), 1., 2., 3.));
    assert!(close(model * glm::vec4(0.5, 0.5, 0.5, 1.), 1.25, 2.25, 3.25));
    assert!(close(model * glm::vec4(-0.5, 0.5, -0.5, 1.), 0.75, 2.25, 2.75));
}

#[test]
fn the_model_matrix_turns_before_it_sizes_and_moves() {
    let cube = Cube {
        position: v(ONE, 2 * ONE, 3 * ONE),
        velocity: v(0, 0, 0),
        rot_axis: v(0, ONE, 0),
        rotation: 1_570_796,
        rot_speed: 0,
        scale: 500_000,
    };
    let model = model_matrix(&cube.draw());
    // A quarter turn about y takes x to -z; then the corner is halved and moved.
    assert!(close(model * glm::vec4(1., 0., 0., 1.), 1., 2., 2.5));
    assert!(close(model * glm::vec4(0., 1., 0., 1.), 1., 2.5, 3.));
}

#[test]
fn four_cubes_over_many_ticks() {
    let dt: i64 = 16_667;
    let mut throws = Throws { state: 2024 };
    let mut cubes: Vec<Cube> = (0..4).map(|_| Cube::from_sample(throws.next())).collect();
    let mut respawns = [0u32; 4];
    for tick in 0..400 {
        for (i, cube) in cubes.iter_mut().enumerate() {
            let spent = cube.position.y > RESPAWN_HEIGHT;
            let throw = throws.next();
            cube.update_with(dt, v(0, 0, 0), throw);
            if spent {
                respawns[i] += 1;
                assert_eq!(*cube, Cube::from_sample(throw));
            }
            // A cube is never further past the height than its last tick took it.
            let last_tick = cube.velocity.y * dt / ONE + 1;
            assert!(cube.position.y <= RESPAWN_HEIGHT + last_tick.max(0), "tick {tick}");
        }
        if tick == 99 {
            // No throw comes down again within a hundred ticks of a sixtieth of a second.
            assert_eq!(respawns, [0, 0, 0, 0]);
        }
    }
    assert!(respawns.iter().all(|n| *n >= 1), "{respawns:?}");
}

#[test]
fn flight_agrees_with_the_same_steps_in_floating_point() {
    let mut cube = flying();
    let force = v(1_500_000, -250_000, -3 * ONE);
    let (mut position, mut velocity) = (glm::vec3(0., -1., 0.), glm::vec3(1., -12., 2.));
    let mut rotation = 0f32;
    let dt = 1. / 240.;
    for _ in 0..480 {
        cube.update(4_167, force);
        velocity = velocity + (glm::vec3(1.5, -0.25, -3.) + glm::vec3(0., 10., 0.)) * dt;
        position = position + velocity * dt;
        rotation += 3. * dt;
        let ours = to_glm(cube.position);
        assert!((ours.x - position.x).abs() < 5e-3);
        assert!((ours.y - position.y).abs() < 5e-3);
        assert!((ours.z - position.z).abs() < 5e-3);
        assert!((to_float(cube.rotation) - rotation).abs() < 5e-3);
    }
}

#[test]
fn a_throw_agrees_with_the_same_formula_in_floating_point() {
    let throw = sample(17_250_000, -3_300, -6_650, 10_100, 2_500, 4 * ONE);
    let cube = Cube::from_sample(throw);
    let (theta, phi) = (glm::radians(-66.5f32), glm::radians(-33f32));
    let velocity = glm::vec3(phi.cos() * theta.cos(), theta.sin(), phi.sin() * theta.cos()) * 17.25;
    let ours = to_glm(cube.velocity);
    assert!((ours.x - velocity.x).abs() < 1e-3);
    assert!((ours.y - velocity.y).abs() < 1e-3);
    assert!((ours.z - velocity.z).abs() < 1e-3);
}
