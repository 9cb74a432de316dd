//! The free-fly camera.
//!
//! The camera looks along a direction given by two angles, both in
//! hundredths of a degree: the pitch `theta`, kept within `PITCH_LIMIT` of
//! the horizon, and the yaw `phi`. The world's up direction is the negative
//! `y` axis, here and in every other module.

use crate::basis::{
    lemma_basis_orthonormal, lemma_front_flat_level, lemma_front_side, lemma_level_stays_level,
    lemma_up_flat, lemma_up_side, level_right,
};
use crate::fixed::{product, sat_add, sat_sub, saturate, ONE};
use crate::geometry::{lemma_normalized_bounded, nearly_orthogonal, nearly_unit, within};
use crate::trig::{lemma_sine_range, sin_cos};
use crate::util::{bearing, sphere};
use crate::vec3::Vec3;
use vstd::prelude::*;

verus! {

/// Distance covered per second of held key.
pub const SPEED: i64 = 8_000_000;

/// Hundredths of a degree turned per unit of mouse motion.
pub const SENSITIVITY: i64 = 5;

/// The steepest pitch, up or down, in hundredths of a degree.
pub const PITCH_LIMIT: i64 = 8_990;

/// Which of the six movement keys are held.
#[derive(Clone, Copy, Debug, PartialEq, Eq, Structural)]
pub struct KeyState {
    pub forward: bool,
    pub back: bool,
    pub right: bool,
    pub left: bool,
    pub up: bool,
    pub down: bool,
}

/// The three arguments from which a view matrix is built.
#[derive(Clone, Copy, Debug, PartialEq, Eq, Structural)]
pub struct LookAt {
    pub eye: Vec3,
    pub center: Vec3,
    pub up: Vec3,
}

/// The viewer: where it is and where it looks.
#[derive(Clone, Copy, Debug, PartialEq, Eq, Structural)]
pub struct Camera {
    pub position: Vec3,
    pub theta: i64,
    pub phi: i64,
}

/// `v` brought into the range of pitches.
pub open spec fn clamp_pitch(v: int) -> i64 {
    if v < -PITCH_LIMIT {
        (-PITCH_LIMIT) as i64
    } else if v > PITCH_LIMIT {
        PITCH_LIMIT
    } else {
        v as i64
    }
}

pub open spec fn spec_displacement(direction: Vec3, delta: i64) -> Vec3 {
    direction.scaled(SPEED).scaled(delta)
}

/// The way covered in `delta` microseconds along `direction`: `SPEED` times
/// the time, in that direction.
#[verifier::when_used_as_spec(spec_displacement)]
pub fn displacement(direction: Vec3, delta: i64) -> (r: Vec3)
    ensures
        r == spec_displacement(direction, delta),
{
    direction.scaled(SPEED).scaled(delta)
}

impl Camera {
    /// The pitch is within its limits.
    pub open spec fn wf(self) -> bool {
        -PITCH_LIMIT <= self.theta <= PITCH_LIMIT
    }

    pub open spec fn spec_new() -> Camera {
        Camera { position: Vec3 { x: 0, y: 0, z: 0 }, theta: 0, phi: 0 }
    }

    /// A camera at the origin that looks level along `x`.
    #[verifier::when_used_as_spec(spec_new)]
    pub fn new() -> (r: Camera)
        ensures
            r == Camera::spec_new(),
            r.wf(),
    {
        Camera { position: Vec3::zero(), theta: 0, phi: 0 }
    }

    pub open spec fn spec_up_world() -> Vec3 {
        Vec3 { x: 0, y: (-ONE) as i64, z: 0 }
    }

    /// The world's up direction.
    #[verifier::when_used_as_spec(spec_up_world)]
    pub fn up_world() -> (r: Vec3)
        ensures
            r == Self::spec_up_world(),
    {
        Vec3 { x: 0, y: -ONE, z: 0 }
    }

    pub open spec fn spec_front(&self) -> Vec3 {
        sphere(self.theta, self.phi)
    }

    /// The direction in which the camera looks; it is of length one, up to
    /// rounding, and while the pitch is within its limits it lies above the
    /// horizon, below it or on it as the pitch does.
    #[verifier::when_used_as_spec(spec_front)]
    pub fn front(&self) -> (r: Vec3)
        ensures
            r == self.spec_front(),
            nearly_unit(r),
            self.wf() && self.theta > 0 ==> r.y > 0,
            self.wf() && self.theta < 0 ==> r.y < 0,
            self.wf() && self.theta == 0 ==> r.y == 0,
    {
        proof {
            if self.wf() {
                lemma_front_side(*self);
            }
        }
        sphere(self.theta, self.phi)
    }

    pub open spec fn spec_right(&self) -> Vec3 {
        level_right(self.phi).normalized()
    }

    /// The direction to the camera's right: the level direction at right
    /// angles to `front`, on the side to which the cross product of `front`
    /// and the world's up points. It is taken from the yaw alone, so that a
    /// steep pitch costs it no accuracy. It is level, of length one and at
    /// right angles to `front`, up to rounding.
    #[verifier::when_used_as_spec(spec_right)]
    pub fn right(&self) -> (r: Vec3)
        ensures
            r == self.spec_right(),
            r.y == 0,
            nearly_unit(r),
            nearly_orthogonal(self.front(), r),
    {
        proof {
            lemma_basis_orthonormal(*self);
            lemma_sine_range(self.phi as int);
            lemma_level_stays_level(level_right(self.phi));
        }
        let (across, along) = sin_cos(self.phi);
        Vec3 { x: across, y: 0, z: -along }.normalized()
    }

    pub open spec fn spec_up(&self) -> Vec3 {
        self.right().cross(self.front()).normalized()
    }

    /// The direction towards the top of the picture. It is of length one
    /// and at right angles to `front` and to `right`, up to rounding.
    #[verifier::when_used_as_spec(spec_up)]
    pub fn up(&self) -> (r: Vec3)
        ensures
            r == self.spec_up(),
            nearly_unit(r),
            nearly_orthogonal(self.front(), r),
            nearly_orthogonal(self.right(), r),
            self.wf() ==> r.y < 0,
    {
        proof {
            lemma_basis_orthonormal(*self);
            if self.wf() {
                lemma_up_side(*self);
            }
        }
        self.right().cross(self.front()).normalized()
    }

    pub open spec fn spec_front_flat(&self) -> Vec3 {
        sphere(0, self.phi)
    }

    /// The direction in which the camera would look if its pitch were zero;
    /// it is level and of length one, up to rounding.
    #[verifier::when_used_as_spec(spec_front_flat)]
    pub fn front_flat(&self) -> (r: Vec3)
        ensures
            r == self.spec_front_flat(),
            r.y == 0,
            nearly_unit(r),
    {
        proof {
            lemma_basis_orthonormal(Camera { theta: 0, ..*self });
            lemma_front_flat_level(*self);
        }
        sphere(0, self.phi)
    }

    pub open spec fn spec_right_flat(&self) -> Vec3 {
        self.right()
    }

    /// The direction to the right of `front_flat`, which is `right`: the
    /// pitch does not turn it. It is level, of length one and at right
    /// angles to `front_flat`, up to rounding.
    #[verifier::when_used_as_spec(spec_right_flat)]
    pub fn right_flat(&self) -> (r: Vec3)
        ensures
            r == self.spec_right_flat(),
            r.y == 0,
            nearly_unit(r),
            nearly_orthogonal(self.front_flat(), r),
    {
        proof {
            lemma_basis_orthonormal(Camera { theta: 0, ..*self });
        }
        self.right()
    }

    pub open spec fn spec_up_flat(&self) -> Vec3 {
        self.right_flat().cross(self.front_flat()).normalized()
    }

    /// The upward direction that goes with `front_flat` and `right_flat`,
    /// which is the world's up.
    #[verifier::when_used_as_spec(spec_up_flat)]
    pub fn up_flat(&self) -> (r: Vec3)
        ensures
            r == self.spec_up_flat(),
            r == Self::up_world(),
            nearly_unit(r),
            nearly_orthogonal(self.front_flat(), r),
            nearly_orthogonal(self.right_flat(), r),
    {
        proof {
            lemma_basis_orthonormal(Camera { theta: 0, ..*self });
            lemma_up_flat(*self);
        }
        self.right_flat().cross(self.front_flat()).normalized()
    }

    pub open spec fn spec_view(&self) -> LookAt {
        LookAt { eye: self.position, center: self.position.plus(self.front()), up: self.up() }
    }

    /// What the view matrix is built from: the eye at the camera's position,
    /// a point straight ahead of it, and the picture's upward direction.
    #[verifier::when_used_as_spec(spec_view)]
    pub fn view(&self) -> (r: LookAt)
        ensures
            r == self.spec_view(),
    {
        LookAt { eye: self.position, center: self.position.plus(self.front()), up: self.up() }
    }

    /// The camera moved by `step`, looking as before.
    pub open spec fn shifted(self, step: Vec3) -> Camera {
        Camera { position: self.position.plus(step), ..self }
    }

    /// The camera moved against `step`, looking as before.
    pub open spec fn shifted_back(self, step: Vec3) -> Camera {
        Camera { position: self.position.minus(step), ..self }
    }

    /// Moves forward, level, for `delta` microseconds.
    pub fn move_front(&mut self, delta: i64)
        ensures
            *final(self) == old(self).shifted(displacement(old(self).front_flat(), delta)),
    {
        self.position = self.position.plus(displacement(self.front_flat(), delta));
    }

    /// Moves backward, level, for `delta` microseconds.
    pub fn move_back(&mut self, delta: i64)
        ensures
            *final(self) == old(self).shifted_back(displacement(old(self).front_flat(), delta)),
    {
        self.position = self.position.minus(displacement(self.front_flat(), delta));
    }

    /// Moves to the right, level, for `delta` microseconds.
    pub fn move_right(&mut self, delta: i64)
        ensures
            *final(self) == old(self).shifted(displacement(old(self).right_flat(), delta)),
    {
        self.position = self.position.plus(displacement(self.right_flat(), delta));
    }

    /// Moves to the left, level, for `delta` microseconds.
    pub fn move_left(&mut self, delta: i64)
        ensures
            *final(self) == old(self).shifted_back(displacement(old(self).right_flat(), delta)),
    {
        self.position = self.position.minus(displacement(self.right_flat(), delta));
    }

    /// Moves straight up for `delta` microseconds.
    pub fn move_up(&mut self, delta: i64)
        ensures
            *final(self) == old(self).shifted(displacement(old(self).up_flat(), delta)),
    {
        self.position = self.position.plus(displacement(self.up_flat(), delta));
    }

    /// Moves straight down for `delta` microseconds.
    pub fn move_down(&mut self, delta: i64)
        ensures
            *final(self) == old(self).shifted_back(displacement(old(self).up_flat(), delta)),
    {
        self.position = self.position.minus(displacement(self.up_flat(), delta));
    }

    /// The camera after the held keys have acted for `delta` microseconds:
    /// each key adds its own step, one after the other, and none of them
    /// turns the camera.
    pub open spec fn after_keys(self, keys: KeyState, delta: i64) -> Camera {
        let front = displacement(self.front_flat(), delta);
        let right = displacement(self.right_flat(), delta);
        let up = displacement(self.up_flat(), delta);
        let c1 = if keys.forward { self.shifted(front) } else { self };
        let c2 = if keys.back { c1.shifted_back(front) } else { c1 };
        let c3 = if keys.right { c2.shifted(right) } else { c2 };
        let c4 = if keys.left { c3.shifted_back(right) } else { c3 };
        let c5 = if keys.up { c4.shifted(up) } else { c4 };
        if keys.down { c5.shifted_back(up) } else { c5 }
    }

    /// Applies the held movement keys for `delta` microseconds.
    pub fn input_kb(&mut self, keys: KeyState, delta: i64)
        ensures
            *final(self) == old(self).after_keys(keys, delta),
            final(self).theta == old(self).theta,
            final(self).phi == old(self).phi,
    {
        if keys.forward {
            self.move_front(delta);
        }
        if keys.back {
            self.move_back(delta);
        }
        if keys.right {
            self.move_right(delta);
        }
        if keys.left {
            self.move_left(delta);
        }
        if keys.up {
            self.move_up(delta);
        }
        if keys.down {
            self.move_down(delta);
        }
    }

    /// The camera after the mouse has moved by `dx` and `dy`.
    pub open spec fn after_mouse(self, dx: i32, dy: i32) -> Camera {
        Camera {
            position: self.position,
            theta: clamp_pitch(self.theta + SENSITIVITY * dy),
            phi: saturate(self.phi - SENSITIVITY * dx),
        }
    }

    /// Turns the camera by a mouse motion: `dx` turns the yaw, `dy` the
    /// pitch, which stops at `PITCH_LIMIT` above and below the horizon.
    pub fn input_mouse(&mut self, dx: i32, dy: i32)
        ensures
            *final(self) == old(self).after_mouse(dx, dy),
            final(self).wf(),
            old(self).theta + SENSITIVITY * dy >= PITCH_LIMIT ==> final(self).theta == PITCH_LIMIT,
            old(self).theta + SENSITIVITY * dy <= -PITCH_LIMIT ==> final(self).theta
                == -PITCH_LIMIT,
    {
        let turned: i64 = sat_sub(self.phi, SENSITIVITY * (dx as i64));
        let raised: i64 = sat_add(self.theta, SENSITIVITY * (dy as i64));
        self.phi = turned;
        self.theta = if raised < -PITCH_LIMIT {
            -PITCH_LIMIT
        } else if raised > PITCH_LIMIT {
            PITCH_LIMIT
        } else {
            raised
        };
    }
}

/// The longest time span, in microseconds, for which the laws of movement
/// are stated.
pub const LONGEST_TICK: i64 = 1_000_000_000_000;

/// The largest coordinate for which the laws of movement are stated; further
/// out a sum may stop at the end of `i64`.
pub const FARTHEST: i64 = 4_000_000_000_000_000_000;

/// The keys of which none is held.
pub open spec fn no_keys() -> KeyState {
    KeyState { forward: false, back: false, right: false, left: false, up: false, down: false }
}

proof fn lemma_step_coordinate(a: int, delta: int)
    requires
        -ONE <= a <= ONE,
        -LONGEST_TICK <= delta <= LONGEST_TICK,
    ensures
        product(a, SPEED as int) == 8 * a,
        product(8 * a, delta) == 8 * a * delta / (ONE as int),
        -8 * LONGEST_TICK <= 8 * a * delta / (ONE as int) <= 8 * LONGEST_TICK,
{
    assert(a * 8_000_000 / 1_000_000 == 8 * a);
    assert((8 * a) * delta == 8 * a * delta) by (nonlinear_arith);
    assert(-8_000_000 * 1_000_000_000_000 <= 8 * a * delta <= 8_000_000 * 1_000_000_000_000)
        by (nonlinear_arith)
        requires
            -1_000_000 <= a <= 1_000_000,
            -1_000_000_000_000 <= delta <= 1_000_000_000_000,
    ;
}

/// A step along a direction that is no longer than one covers `SPEED` times
/// the time, rounded down once.
pub proof fn lemma_displacement(direction: Vec3, delta: i64)
    requires
        within(direction, ONE as int),
        -LONGEST_TICK <= delta <= LONGEST_TICK,
    ensures
        displacement(direction, delta).x == 8 * direction.x * delta / (ONE as int),
        displacement(direction, delta).y == 8 * direction.y * delta / (ONE as int),
        displacement(direction, delta).z == 8 * direction.z * delta / (ONE as int),
        within(displacement(direction, delta), 8 * LONGEST_TICK),
{
    lemma_step_coordinate(direction.x as int, delta as int);
    lemma_step_coordinate(direction.y as int, delta as int);
    lemma_step_coordinate(direction.z as int, delta as int);
}

/// The flat directions are the directions of the camera with its pitch set
/// to zero, and moving level does not depend on the pitch.
pub proof fn lemma_flat_basis(c: Camera)
    ensures
        ({
            let level = Camera { theta: 0, ..c };
            &&& level.wf()
            &&& c.front_flat() == level.front()
            &&& c.right_flat() == level.right()
            &&& c.up_flat() == level.up()
        }),
{
}

/// Holding no key leaves the camera where it is, and so does any key held
/// for no time.
pub proof fn lemma_no_movement(c: Camera, keys: KeyState, delta: i64)
    ensures
        c.after_keys(no_keys(), delta) == c,
        c.after_keys(keys, 0) == c,
{
    let front = displacement(c.front_flat(), 0);
    let right = displacement(c.right_flat(), 0);
    let up = displacement(c.up_flat(), 0);
    lemma_stands_still(c.front_flat());
    lemma_stands_still(c.right_flat());
    lemma_stands_still(c.up_flat());
}

proof fn lemma_stands_still(direction: Vec3)
    ensures
        displacement(direction, 0) == (Vec3 { x: 0, y: 0, z: 0 }),
{
    let fast = direction.scaled(SPEED);
    assert(product(fast.x as int, 0) == 0 && product(fast.y as int, 0) == 0 && product(
        fast.z as int,
        0,
    ) == 0) by (nonlinear_arith);
}

/// Holding the forward key alone for `delta` microseconds moves the camera by
/// `SPEED` times `delta` along `front_flat`, and does not turn it.
pub proof fn lemma_forward(c: Camera, delta: i64)
    requires
        within(c.position, FARTHEST as int),
        0 <= delta <= LONGEST_TICK,
    ensures
        ({
            let front = c.front_flat();
            let after = c.after_keys(KeyState { forward: true, ..no_keys() }, delta);
            &&& after.position.x == c.position.x + 8 * front.x * delta / (ONE as int)
            &&& after.position.y == c.position.y + 8 * front.y * delta / (ONE as int)
            &&& after.position.z == c.position.z + 8 * front.z * delta / (ONE as int)
            &&& after.theta == c.theta
            &&& after.phi == c.phi
        }),
{
    lemma_normalized_bounded(bearing(0, c.phi));
    lemma_displacement(c.front_flat(), delta);
}

/// Holding forward and left together moves the camera by the sum of the two
/// steps, each as long as it would be alone.
pub proof fn lemma_forward_left(c: Camera, delta: i64)
    requires
        within(c.position, FARTHEST as int),
        0 <= delta <= LONGEST_TICK,
    ensures
        ({
            let front = c.front_flat();
            let right = c.right_flat();
            let after = c.after_keys(KeyState { forward: true, left: true, ..no_keys() }, delta);
            &&& after.position.x == c.position.x + 8 * front.x * delta / (ONE as int) - 8
                * right.x * delta / (ONE as int)
            &&& after.position.y == c.position.y + 8 * front.y * delta / (ONE as int) - 8
                * right.y * delta / (ONE as int)
            &&& after.position.z == c.position.z + 8 * front.z * delta / (ONE as int) - 8
                * right.z * delta / (ONE as int)
            &&& after.theta == c.theta
            &&& after.phi == c.phi
        }),
{
    lemma_normalized_bounded(bearing(0, c.phi));
    lemma_normalized_bounded(level_right(c.phi));
    lemma_displacement(c.front_flat(), delta);
    lemma_displacement(c.right_flat(), delta);
}

} // verus!
