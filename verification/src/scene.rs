//! One frame of the demo: what the events of a frame do to the camera, what
//! a tick does to every cube, and where the lights stand.
//!
//! The loop that polls the window, reads the clock and draws is not here; it
//! hands in the events and the time that has passed, and draws what it finds
//! afterwards.

use crate::camera::{Camera, KeyState};
use crate::cube::{Cube, TransformOp};
use crate::fixed::{fixed_mul, narrow, product, sat_add, saturate, ONE};
use crate::random::uniform;
use crate::table::first_turn;
use crate::trig::{lemma_sine_periodic, lemma_sine_range, sin, sine};
use crate::vec3::Vec3;
use vstd::prelude::*;

verus! {

/// How many cubes fly.
pub const CUBES: usize = 256;

/// How many lights stand on the ground.
pub const LIGHTS: usize = 225;

/// How many lights stand in one row.
pub const LIGHTS_PER_ROW: usize = 15;

/// The distance from one light to the next.
pub const LIGHT_SPACING: i64 = 12_000_000;

/// The size of the marker that shows a light.
pub const LIGHT_MARKER_SCALE: i64 = 100_000;

/// The key code of the escape key.
pub const ESCAPE: i32 = 27;

/// How far ahead of the camera the point lies that pulls or pushes the cubes.
pub const REACH: i64 = 16_000_000;

/// The strength of that pull.
pub const PULL: i64 = 1_000_000_000;

/// The opening of the view, in hundredths of a degree.
pub const FIELD_OF_VIEW: i64 = 9_000;

/// The nearest distance that is drawn.
pub const NEAR: i64 = 100_000;

/// The farthest distance that is drawn.
pub const FAR: i64 = 100_000_000;

/// What the window reports.
#[derive(Clone, Copy, Debug, PartialEq, Eq, Structural)]
pub enum Event {
    /// The window was closed.
    Quit,
    /// A key went down; `keycode` is its code where it has one.
    KeyDown { keycode: Option<i32> },
    /// The mouse moved.
    MouseMotion { xrel: i32, yrel: i32 },
    /// Anything else.
    Other,
}

/// Which mouse buttons are held.
#[derive(Clone, Copy, Debug, PartialEq, Eq, Structural)]
pub struct MouseButtons {
    pub left: bool,
    pub right: bool,
}

/// Everything that changes from frame to frame, and the ground.
#[derive(Debug)]
pub struct Scene {
    pub camera: Camera,
    pub cubes: Vec<Cube>,
    pub floor: Cube,
}

pub open spec fn spec_force_multiplier(buttons: MouseButtons) -> i64 {
    if buttons.left {
        PULL
    } else if buttons.right {
        (-PULL) as i64
    } else {
        0
    }
}

/// The strength with which the cubes are drawn to the point ahead of the
/// camera: the left button pulls, the right one pushes, and the left one
/// wins where both are held.
#[verifier::when_used_as_spec(spec_force_multiplier)]
pub fn force_multiplier(buttons: MouseButtons) -> (r: i64)
    ensures
        r == spec_force_multiplier(buttons),
{
    if buttons.left {
        PULL
    } else if buttons.right {
        -PULL
    } else {
        0
    }
}

pub open spec fn spec_attraction(camera: Camera, position: Vec3, multiplier: i64) -> Vec3 {
    let target = camera.position.plus(camera.front().scaled(REACH));
    let diff = target.minus(position);
    diff.normalized().divided(diff.length()).scaled(multiplier)
}

/// The force on a cube at `position`: it points to the spot `REACH` ahead of
/// the camera and is `multiplier` divided by the distance to that spot. A
/// cube on the spot itself feels none.
#[verifier::when_used_as_spec(spec_attraction)]
pub fn attraction(camera: Camera, position: Vec3, multiplier: i64) -> (r: Vec3)
    ensures
        r == spec_attraction(camera, position, multiplier),
{
    let target = camera.position.plus(camera.front().scaled(REACH));
    let diff = target.minus(position);
    diff.normalized().divided(diff.length()).scaled(multiplier)
}

pub open spec fn spec_light_position(i: usize) -> Vec3 {
    Vec3 {
        x: saturate((i / LIGHTS_PER_ROW - 7) * LIGHT_SPACING),
        y: 0,
        z: saturate((i % LIGHTS_PER_ROW - 7) * LIGHT_SPACING),
    }
}

/// The place of light `i`: the lights stand in a square grid on the ground,
/// row after row, with the origin under the middle one of the first
/// `LIGHTS`.
#[verifier::when_used_as_spec(spec_light_position)]
pub fn light_position(i: usize) -> (r: Vec3)
    ensures
        r == spec_light_position(i),
        i < LIGHTS ==> r.x == (i / LIGHTS_PER_ROW - 7) * LIGHT_SPACING && r.z == (i
            % LIGHTS_PER_ROW - 7) * LIGHT_SPACING,
{
    let row: i128 = (i / LIGHTS_PER_ROW) as i128 - 7;
    let column: i128 = (i % LIGHTS_PER_ROW) as i128 - 7;
    Vec3 {
        x: narrow(row * (LIGHT_SPACING as i128)),
        y: 0,
        z: narrow(column * (LIGHT_SPACING as i128)),
    }
}

/// The places of all lights.
pub fn light_positions() -> (r: Vec<Vec3>)
    ensures
        r.len() == LIGHTS,
        forall|i: int| 0 <= i < LIGHTS ==> r[i] == spec_light_position(i as usize),
{
    let mut r: Vec<Vec3> = Vec::new();
    let mut i: usize = 0;
    while i < LIGHTS
        invariant
            i <= LIGHTS,
            r.len() == i,
            forall|j: int| 0 <= j < i ==> r[j] == spec_light_position(j as usize),
        decreases LIGHTS - i,
    {
        r.push(light_position(i));
        i += 1;
    }
    r
}

/// One channel of a light's colour: three quarters, and a quarter more or
/// less as the sine of `angle` says.
pub open spec fn channel(angle: int) -> i64 {
    saturate(750_000 + saturate(product(250_000, sine(angle))))
}

pub open spec fn spec_light_color(theta: i64) -> Vec3 {
    Vec3 { x: channel(theta as int), y: channel(theta + 12_000), z: channel(theta + 24_000) }
}

/// Every channel of a light's colour lies between a half and one.
pub proof fn lemma_channel_range(angle: int)
    ensures
        500_000 <= channel(angle) <= ONE,
{
    lemma_sine_range(angle);
    assert(-250_000 <= product(250_000, sine(angle)) <= 250_000) by (nonlinear_arith)
        requires
            -1_000_000 <= sine(angle) <= 1_000_000,
    ;
}

/// The colour of a light whose hue is the angle `theta`, in hundredths of a
/// degree: red, green and blue follow the same wave, a third of a turn apart.
#[verifier::when_used_as_spec(spec_light_color)]
pub fn light_color(theta: i64) -> (r: Vec3)
    ensures
        r == spec_light_color(theta),
{
    let hue: i64 = first_turn(theta);
    proof {
        let turns = (theta as int) / 36_000;
        assert(theta == hue + turns * 36_000) by (nonlinear_arith)
            requires
                hue == (theta as int) % 36_000,
                turns == (theta as int) / 36_000,
        ;
        lemma_sine_periodic(hue as int, turns);
        lemma_sine_periodic(hue + 12_000, turns);
        lemma_sine_periodic(hue + 24_000, turns);
    }
    Vec3 {
        x: sat_add(750_000, fixed_mul(250_000, sin(hue))),
        y: sat_add(750_000, fixed_mul(250_000, sin(hue + 12_000))),
        z: sat_add(750_000, fixed_mul(250_000, sin(hue + 24_000))),
    }
}

/// `color` is the colour of some hue.
pub open spec fn is_light_color(color: Vec3) -> bool {
    exists|theta: i64| 0 <= theta < 36_000 && color == spec_light_color(theta)
}

/// A colour of random hue for every light.
pub fn light_colors() -> (r: Vec<Vec3>)
    ensures
        r.len() == LIGHTS,
        forall|i: int| 0 <= i < LIGHTS ==> is_light_color(r[i]),
{
    let mut r: Vec<Vec3> = Vec::new();
    let mut i: usize = 0;
    while i < LIGHTS
        invariant
            i <= LIGHTS,
            r.len() == i,
            forall|j: int| 0 <= j < i ==> is_light_color(r[j]),
        decreases LIGHTS - i,
    {
        let theta: i64 = uniform(0, 36_000);
        r.push(light_color(theta));
        i += 1;
    }
    r
}

/// The steps that build the model matrix of the marker of a light at
/// `position`, in the order in which they are multiplied onto the identity.
pub fn light_marker(position: Vec3) -> (ops: Vec<TransformOp>)
    ensures
        ops@ == seq![
            TransformOp::Translate(position),
            TransformOp::Scale(Vec3 { x: ONE, y: ONE, z: ONE }.scaled(LIGHT_MARKER_SCALE)),
        ],
{
    let mut ops: Vec<TransformOp> = Vec::new();
    ops.push(TransformOp::Translate(position));
    ops.push(TransformOp::Scale(Vec3::splat(ONE).scaled(LIGHT_MARKER_SCALE)));
    assert(ops@ =~= seq![
        TransformOp::Translate(position),
        TransformOp::Scale(Vec3 { x: ONE, y: ONE, z: ONE }.scaled(LIGHT_MARKER_SCALE)),
    ]);
    ops
}

/// The colour of everything that is lit.
pub fn object_color() -> (r: Vec3)
    ensures
        r == (Vec3 { x: ONE, y: ONE, z: ONE }),
{
    Vec3::splat(ONE)
}

/// The colour of the fog, which is also that of the sky.
pub fn fog_color() -> (r: Vec3)
    ensures
        r == (Vec3 { x: 200_000, y: 250_000, z: 300_000 }),
{
    Vec3 { x: 200_000, y: 250_000, z: 300_000 }
}

/// The light that reaches every face: a fifth of the fog's colour.
pub fn ambient_color() -> (r: Vec3)
    ensures
        r == (Vec3 { x: 40_000, y: 50_000, z: 60_000 }),
{
    fog_color().scaled(200_000)
}

impl Scene {
    /// The event ends the demo: the window was closed or escape was pressed.
    pub open spec fn ends(event: Event) -> bool {
        event == Event::Quit || event == (Event::KeyDown { keycode: Some(ESCAPE) })
    }

    /// The camera after `event`.
    pub open spec fn camera_after(camera: Camera, event: Event) -> Camera {
        match event {
            Event::MouseMotion { xrel, yrel } => camera.after_mouse(xrel, yrel),
            _ => camera,
        }
    }

    /// The camera's pitch is within its limits.
    pub open spec fn wf(self) -> bool {
        self.camera.wf()
    }

    /// A scene of `count` freshly thrown cubes, seen by a new camera.
    pub fn new(count: usize) -> (r: Scene)
        ensures
            r.wf(),
            r.camera == Camera::new(),
            r.floor == Cube::floor(),
            r.cubes.len() == count,
            forall|i: int| 0 <= i < count ==> r.cubes[i].fresh() && r.cubes[i].just_thrown(),
    {
        let mut cubes: Vec<Cube> = Vec::new();
        let mut i: usize = 0;
        while i < count
            invariant
                i <= count,
                cubes.len() == i,
                forall|j: int| 0 <= j < i ==> cubes[j].fresh() && cubes[j].just_thrown(),
            decreases count - i,
        {
            cubes.push(Cube::new());
            i += 1;
        }
        Scene { camera: Camera::new(), cubes, floor: Cube::floor() }
    }

    /// Takes in one event and says whether the demo goes on. Closing the
    /// window and pressing escape end it; a motion of the mouse turns the
    /// camera; nothing else has any effect.
    pub fn handle_event(&mut self, event: Event) -> (running: bool)
        ensures
            running == !Self::ends(event),
            old(self).wf() ==> final(self).wf(),
            final(self).camera == Self::camera_after(old(self).camera, event),
            final(self).cubes == old(self).cubes,
            final(self).floor == old(self).floor,
    {
        match event {
            Event::Quit => false,
            Event::KeyDown { keycode } => match keycode {
                Some(code) => code != ESCAPE,
                None => true,
            },
            Event::MouseMotion { xrel, yrel } => {
                self.camera.input_mouse(xrel, yrel);
                true
            },
            Event::Other => true,
        }
    }

    /// Advances the scene by one tick of `dt` microseconds: first the held
    /// keys move the camera, then every cube is advanced, the force on each
    /// taken from where the camera then is and where the cube was.
    pub fn update(&mut self, dt: i64, keys: KeyState, buttons: MouseButtons)
        ensures
            old(self).wf() ==> final(self).wf(),
            forall|i: int| 0 <= i < final(self).cubes.len() ==> final(self).cubes[i].caught(dt),
            final(self).camera == old(self).camera.after_keys(keys, dt),
            final(self).floor == old(self).floor,
            final(self).cubes.len() == old(self).cubes.len(),
            forall|i: int|
                0 <= i < old(self).cubes.len() ==> (#[trigger] old(self).cubes[i]).advanced(
                    final(self).cubes[i],
                    dt,
                    attraction(
                        final(self).camera,
                        old(self).cubes[i].position,
                        force_multiplier(buttons),
                    ),
                ),
    {
        self.camera.input_kb(keys, dt);
        let multiplier: i64 = force_multiplier(buttons);
        let camera = self.camera;
        let count: usize = self.cubes.len();
        let mut i: usize = 0;
        while i < count
            invariant
                i <= count,
                count == old(self).cubes.len(),
                self.cubes.len() == count,
                self.camera == camera,
                self.floor == old(self).floor,
                multiplier == force_multiplier(buttons),
                forall|j: int| i <= j < count ==> self.cubes[j] == old(self).cubes[j],
                forall|j: int| 0 <= j < i ==> self.cubes[j].caught(dt),
                forall|j: int|
                    0 <= j < i ==> (#[trigger] old(self).cubes[j]).advanced(
                        self.cubes[j],
                        dt,
                        attraction(camera, old(self).cubes[j].position, multiplier),
                    ),
            decreases count - i,
        {
            let mut cube = self.cubes[i];
            let force = attraction(camera, cube.position, multiplier);
            cube.update(dt, force);
            self.cubes.set(i, cube);
            i += 1;
        }
    }
}

} // verus!
