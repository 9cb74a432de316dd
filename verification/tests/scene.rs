use cube_fountain::camera::{Camera, KeyState};
use cube_fountain::cube::{Cube, TransformOp, RESPAWN_HEIGHT};
use cube_fountain::fixed::ONE;
use cube_fountain::scene::{
    ambient_color, attraction, fog_color, force_multiplier, light_color, light_colors,
    light_marker, light_position, light_positions, object_color, Event, MouseButtons, Scene,
    CUBES, ESCAPE, LIGHTS,
};
use cube_fountain::vec3::Vec3;

fn v(x: i64, y: i64, z: i64) -> Vec3 {
    Vec3 { x, y, z }
}

fn no_keys() -> KeyState {
    KeyState { forward: false, back: false, right: false, left: false, up: false, down: false }
}

fn no_buttons() -> MouseButtons {
    MouseButtons { left: false, right: false }
}

#[test]
fn a_new_scene_holds_fresh_cubes_a_new_camera_and_the_floor() {
    let scene = Scene::new(CUBES);
    assert_eq!(scene.cubes.len(), 256);
    assert_eq!(scene.camera, Camera::new());
    assert_eq!(scene.floor, Cube::floor());
    for cube in &scene.cubes {
        assert_eq!(cube.position, v(0, -ONE, 0));
        assert!(cube.velocity.y < 0);
    }
    assert_eq!(Scene::new(0).cubes.len(), 0);
}

#[test]
fn closing_the_window_and_escape_end_the_demo() {
    let mut scene = Scene::new(2);
    let before = scene.cubes.clone();
    assert!(!scene.handle_event(Event::Quit));
    assert!(!scene.handle_event(Event::KeyDown { keycode: Some(ESCAPE) }));
    assert!(scene.handle_event(Event::KeyDown { keycode: Some(ESCAPE + 1) }));
    assert!(scene.handle_event(Event::KeyDown { keycode: None }));
    assert!(scene.handle_event(Event::Other));
    assert_eq!(scene.camera, Camera::new());
    assert_eq!(scene.cubes, before);
}

#[test]
fn a_motion_of_the_mouse_turns_the_camera() {
    let mut scene = Scene::new(1);
    assert!(scene.handle_event(Event::MouseMotion { xrel: 4, yrel: -6 }));
    assert_eq!(scene.camera.phi, -20);
    assert_eq!(scene.camera.theta, -30);
    assert!(scene.handle_event(Event::MouseMotion { xrel: 0, yrel: -1_000_000 }));
    assert_eq!(scene.camera.theta, -8_990);
}

#[test]
fn the_buttons_choose_the_pull() {
    assert_eq!(force_multiplier(MouseButtons { left: true, right: false }), 1_000 * ONE);
    assert_eq!(force_multiplier(MouseButtons { left: false, right: true }), -1_000 * ONE);
    assert_eq!(force_multiplier(MouseButtons { left: true, right: true }), 1_000 * ONE);
    assert_eq!(force_multiplier(no_buttons()), 0);
}

#[test]
fn the_pull_points_to_the_spot_ahead_and_fades_with_the_distance() {
    let camera = Camera::new();
    let at = v(16 * ONE, -4 * ONE, 3 * ONE);
    assert_eq!(attraction(camera, at, 1_000 * ONE), v(0, 160 * ONE, -120 * ONE));
    assert_eq!(attraction(camera, at, -1_000 * ONE), v(0, -160 * ONE, 120 * ONE));
    assert_eq!(attraction(camera, at, 0), v(0, 0, 0));
    assert_eq!(attraction(camera, v(16 * ONE, 0, 0), 1_000 * ONE), v(0, 0, 0));
    let turned = Camera { position: v(ONE, ONE, ONE), theta: 0, phi: 9_000 };
    assert_eq!(attraction(turned, v(ONE, ONE, 7 * ONE), 1_000 * ONE), v(0, 0, 100 * ONE));
}

#[test]
fn a_tick_moves_the_camera_first_and_then_every_cube() {
    let mut scene = Scene::new(3);
    scene.cubes[1].position.y = RESPAWN_HEIGHT + 1;
    let before = scene.cubes.clone();
    let keys = KeyState { forward: true, ..no_keys() };
    let buttons = MouseButtons { left: true, right: false };
    scene.update(16_667, keys, buttons);
    let mut camera = Camera::new();
    camera.input_kb(keys, 16_667);
    assert_eq!(scene.camera, camera);
    assert_eq!(scene.camera.position, v(133_336, 0, 0));
    assert_eq!(scene.floor, Cube::floor());
    assert_eq!(scene.cubes.len(), 3);
    for i in [0, 2] {
        let mut cube = before[i];
        cube.update(16_667, attraction(camera, before[i].position, 1_000 * ONE));
        assert_eq!(scene.cubes[i], cube);
    }
    assert_eq!(scene.cubes[1].position, v(0, -ONE, 0));
    assert_eq!(scene.cubes[1].rotation, 0);
}

#[test]
fn without_buttons_the_cubes_fall_freely() {
    let mut scene = Scene::new(4);
    let before = scene.cubes.clone();
    scene.update(10_000, no_keys(), no_buttons());
    for (after, cube) in scene.cubes.iter().zip(before) {
        assert_eq!(after.velocity, cube.velocity.plus(v(0, 100_000, 0)));
        assert_eq!(after.position, cube.position.plus(after.velocity.scaled(10_000)));
    }
    assert_eq!(scene.camera, Camera::new());
}

#[test]
fn the_lights_stand_in_a_square_around_the_origin() {
    assert_eq!(LIGHTS, 225);
    assert_eq!(light_position(0), v(-84 * ONE, 0, -84 * ONE));
    assert_eq!(light_position(1), v(-84 * ONE, 0, -72 * ONE));
    assert_eq!(light_position(14), v(-84 * ONE, 0, 84 * ONE));
    assert_eq!(light_position(15), v(-72 * ONE, 0, -84 * ONE));
    assert_eq!(light_position(112), v(0, 0, 0));
    assert_eq!(light_position(224), v(84 * ONE, 0, 84 * ONE));
    assert_eq!(light_position(225), v(96 * ONE, 0, -84 * ONE));
    assert_eq!(light_position(usize::MAX).x, i64::MAX);
    let all = light_positions();
    assert_eq!(all.len(), 225);
    for (i, place) in all.iter().enumerate() {
        assert_eq!(*place, light_position(i));
    }
}

#[test]
fn the_colour_of_a_light_follows_its_hue() {
    assert_eq!(light_color(0), v(750_000, 966_506, 533_493));
    assert_eq!(light_color(9_000), v(ONE, 624_999, 624_999));
    assert_eq!(light_color(17_777), v(759_727, 528_793, 961_478));
    assert_eq!(light_color(35_999).x, 749_956);
}

#[test]
fn every_light_gets_a_colour_between_half_and_full() {
    let colors = light_colors();
    assert_eq!(colors.len(), 225);
    for c in &colors {
        for channel in [c.x, c.y, c.z] {
            assert!(500_000 <= channel && channel <= ONE);
        }
        assert!((c.x + c.y + c.z - 2_250_000).abs() <= 3);
    }
    assert!(colors.iter().any(|c| *c != colors[0]));
    assert!(colors.iter().any(|c| *c != light_color(0)));
}

#[test]
fn the_colours_of_the_scene() {
    assert_eq!(object_color(), v(ONE, ONE, ONE));
    assert_eq!(fog_color(), v(200_000, 250_000, 300_000));
    assert_eq!(ambient_color(), v(40_000, 50_000, 60_000));
}

#[test]
fn a_light_marker_is_a_small_cube_at_the_light() {
    assert_eq!(
        light_marker(v(12 * ONE, 0, -24 * ONE)),
        vec![
            TransformOp::Translate(v(12 * ONE, 0, -24 * ONE)),
            TransformOp::Scale(v(100_000, 100_000, 100_000)),
        ]
    );
}
