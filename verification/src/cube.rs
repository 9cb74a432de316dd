//! The falling cubes.
//!
//! A cube is thrown upwards from a fixed place, turns about a fixed axis
//! while gravity pulls it back, and is thrown anew once it has fallen past
//! `RESPAWN_HEIGHT`. Up is the negative `y` axis, so gravity adds to `y` and
//! a cube has fallen too far when its `y` is too large.
//!
//! The turning of a cube is kept as one axis and the angle turned about it,
//! in radians; the angles from which a throw is made are in hundredths of a
//! degree.

use crate::fixed::{fixed_mul, product, sat_add, saturate, ONE};
use crate::random::uniform;
use crate::geometry::{
    lemma_normalized_bounded, lemma_normalized_length, lemma_normalized_steep,
    lemma_scaled_length, lemma_scaled_steep, nearly_unit, steepness, within,
};
use crate::trig::{cosine, lemma_sine_range, lemma_throw_pitch, lemma_unit_circle, sine};
use crate::util::{bearing, lemma_bearing, sphere};
use crate::vec3::Vec3;
use vstd::prelude::*;

verus! {

/// The downward acceleration.
pub const GRAVITY: i64 = 10_000_000;

/// The `y` beyond which a cube is thrown anew.
pub const RESPAWN_HEIGHT: i64 = 5_000_000;

/// The size of a flying cube.
pub const CUBE_SCALE: i64 = 750_000;

/// The slowest throw.
pub const THROW_SPEED_MIN: i64 = 12_000_000;

/// The bound below which every throw stays.
pub const THROW_SPEED_MAX: i64 = 24_000_000;

/// The steepest throw: straight up.
pub const THROW_PITCH_MIN: i64 = -9_000;

/// The bound above which no throw is flatter.
pub const THROW_PITCH_MAX: i64 = -6_000;

/// The bound below which every turning rate stays, in radians per second.
pub const SPIN_MAX: i64 = 8_000_000;

/// The square of the slowest throw, less the hundred-thousandth of it that
/// rounding may cost.
pub const SPEED_SQUARED_MIN: i64 = 143_998_560_000_000;

/// The square of the bound on the speed of a throw, and the
/// hundred-thousandth of it that rounding may add.
pub const SPEED_SQUARED_MAX: i64 = 576_005_760_000_000;

/// The six numbers that decide a throw.
#[derive(Clone, Copy, Debug, PartialEq, Eq, Structural)]
pub struct SpawnSample {
    /// The speed of the throw.
    pub r: i64,
    /// The heading of the throw.
    pub phi: i64,
    /// The elevation of the throw.
    pub theta: i64,
    /// The heading of the axis about which the cube turns.
    pub rot_phi: i64,
    /// The elevation of that axis.
    pub rot_theta: i64,
    /// The turning rate.
    pub rot_speed: i64,
}

/// One step of building a cube's model matrix.
#[derive(Clone, Copy, Debug, PartialEq, Eq, Structural)]
pub enum TransformOp {
    Translate(Vec3),
    Scale(Vec3),
    Rotate { angle: i64, axis: Vec3 },
}

impl TransformOp {
    /// Where this step puts a point. Moving adds to the point and sizing
    /// multiplies it, coordinate by coordinate; a turn by no angle leaves
    /// the point where it is. Where any other turn puts a point is for the
    /// renderer to say, and is not said here.
    pub open spec fn applied(self, point: Vec3) -> Option<Vec3> {
        match self {
            TransformOp::Translate(by) => Some(point.plus(by)),
            TransformOp::Scale(by) => Some(
                Vec3 {
                    x: saturate(product(point.x as int, by.x as int)),
                    y: saturate(product(point.y as int, by.y as int)),
                    z: saturate(product(point.z as int, by.z as int)),
                },
            ),
            TransformOp::Rotate { angle, axis } => if angle == 0 {
                Some(point)
            } else {
                None
            },
        }
    }
}

/// Where a model matrix built from `steps` puts a point of the mesh: the
/// steps are multiplied onto the identity one after the other, so the last
/// of them meets the point first.
pub open spec fn landing(steps: Seq<TransformOp>, point: Vec3) -> Option<Vec3>
    decreases steps.len(),
{
    if steps.len() == 0 {
        Some(point)
    } else {
        match landing(steps.drop_first(), point) {
            Some(placed) => steps[0].applied(placed),
            None => None,
        }
    }
}

/// One cube: where it is, how it flies, and how it turns.
#[derive(Clone, Copy, Debug, PartialEq, Eq, Structural)]
pub struct Cube {
    pub position: Vec3,
    pub velocity: Vec3,
    pub rot_axis: Vec3,
    pub rotation: i64,
    pub rot_speed: i64,
    pub scale: i64,
}

impl SpawnSample {
    /// Each number lies in the range from which it is drawn.
    pub open spec fn in_range(self) -> bool {
        &&& THROW_SPEED_MIN <= self.r < THROW_SPEED_MAX
        &&& -18_000 <= self.phi < 18_000
        &&& THROW_PITCH_MIN <= self.theta < THROW_PITCH_MAX
        &&& -18_000 <= self.rot_phi < 18_000
        &&& -9_000 <= self.rot_theta < 9_000
        &&& 0 <= self.rot_speed < SPIN_MAX
    }

    /// Draws the six numbers, each evenly from its range.
    pub fn random() -> (s: SpawnSample)
        ensures
            s.in_range(),
    {
        let r: i64 = uniform(THROW_SPEED_MIN, THROW_SPEED_MAX);
        let phi: i64 = uniform(-18_000, 18_000);
        let theta: i64 = uniform(THROW_PITCH_MIN, THROW_PITCH_MAX);
        let rot_phi: i64 = uniform(-18_000, 18_000);
        let rot_theta: i64 = uniform(-9_000, 9_000);
        let rot_speed: i64 = uniform(0, SPIN_MAX);
        SpawnSample { r, phi, theta, rot_phi, rot_theta, rot_speed }
    }
}

impl Cube {
    /// The cube that the throw `sample` makes.
    pub open spec fn spawned(sample: SpawnSample) -> Cube {
        Cube {
            position: Vec3 { x: 0, y: (-ONE) as i64, z: 0 },
            velocity: sphere(sample.theta, sample.phi).scaled(sample.r),
            rot_axis: sphere(sample.rot_theta, sample.rot_phi),
            rotation: 0,
            rot_speed: sample.rot_speed,
            scale: CUBE_SCALE,
        }
    }

    /// Makes the cube of a given throw.
    pub fn from_sample(sample: SpawnSample) -> (r: Cube)
        ensures
            r == Cube::spawned(sample),
            sample.in_range() ==> r.just_thrown(),
    {
        proof {
            if sample.in_range() {
                lemma_spawn_ranges(sample);
            }
        }
        Cube {
            position: Vec3 { x: 0, y: -ONE, z: 0 },
            velocity: sphere(sample.theta, sample.phi).scaled(sample.r),
            rot_axis: sphere(sample.rot_theta, sample.rot_phi),
            rotation: 0,
            rot_speed: sample.rot_speed,
            scale: CUBE_SCALE,
        }
    }

    /// The cube is what some throw within the ranges makes.
    pub open spec fn fresh(self) -> bool {
        exists|sample: SpawnSample| sample.in_range() && self == Cube::spawned(sample)
    }

    /// The cube lies where cubes are thrown and has not turned yet; it flies
    /// as fast as a throw is, between `THROW_SPEED_MIN` and `THROW_SPEED_MAX`
    /// up to a two-hundred-thousandth, and upwards within thirty degrees of
    /// straight up; and it turns by less than `SPIN_MAX` about an axis of
    /// length one.
    pub open spec fn just_thrown(self) -> bool {
        &&& self.position == Vec3 { x: 0, y: (-ONE) as i64, z: 0 }
        &&& !self.spent()
        &&& SPEED_SQUARED_MIN <= self.velocity.norm_squared() <= SPEED_SQUARED_MAX
        &&& self.velocity.y < 0
        &&& steepness(self.velocity) >= 0
        &&& self.rotation == 0
        &&& 0 <= self.rot_speed < SPIN_MAX
        &&& self.scale == CUBE_SCALE
        &&& nearly_unit(self.rot_axis)
        &&& within(self.rot_axis, ONE as int)
    }

    /// Makes a cube from a random throw.
    pub fn new() -> (r: Cube)
        ensures
            r.fresh(),
            r.just_thrown(),
    {
        let sample = SpawnSample::random();
        proof {
            lemma_spawn_ranges(sample);
        }
        Cube::from_sample(sample)
    }

    pub open spec fn spec_floor() -> Cube {
        Cube {
            position: Vec3 { x: 0, y: 500_500_000, z: 0 },
            velocity: Vec3 { x: 0, y: 0, z: 0 },
            rot_axis: Vec3 { x: ONE, y: ONE, z: ONE },
            rotation: 0,
            rot_speed: 0,
            scale: 1_000_000_000,
        }
    }

    /// The ground: one huge cube at rest whose top face lies just below the
    /// place from which the others are thrown.
    #[verifier::when_used_as_spec(spec_floor)]
    pub fn floor() -> (r: Cube)
        ensures
            r == Cube::spec_floor(),
    {
        Cube {
            position: Vec3 { x: 0, y: 500_500_000, z: 0 },
            velocity: Vec3::zero(),
            rot_axis: Vec3::splat(ONE),
            rotation: 0,
            rot_speed: 0,
            scale: 1_000_000_000,
        }
    }

    /// The pull of gravity.
    pub open spec fn gravity() -> Vec3 {
        Vec3 { x: 0, y: GRAVITY, z: 0 }
    }

    /// The cube should be thrown anew.
    pub open spec fn spent(self) -> bool {
        self.position.y > RESPAWN_HEIGHT
    }

    /// The cube after `dt` microseconds of flight under gravity and `force`:
    /// first the velocity changes, then the new velocity moves the cube, and
    /// the cube turns on.
    pub open spec fn stepped(self, dt: i64, force: Vec3) -> Cube {
        let velocity = self.velocity.plus(force.plus(Self::gravity()).scaled(dt));
        Cube {
            position: self.position.plus(velocity.scaled(dt)),
            velocity,
            rot_axis: self.rot_axis,
            rotation: saturate(self.rotation + saturate(product(self.rot_speed as int, dt as int))),
            rot_speed: self.rot_speed,
            scale: self.scale,
        }
    }

    /// The cube after one tick for which the throw `sample` lay ready.
    pub open spec fn updated(self, dt: i64, force: Vec3, sample: SpawnSample) -> Cube {
        if self.spent() {
            Cube::spawned(sample)
        } else {
            self.stepped(dt, force)
        }
    }

    /// The cube lies below `RESPAWN_HEIGHT`, or past it by no more than its
    /// speed took it in one tick of `dt` microseconds.
    pub open spec fn caught(self, dt: i64) -> bool {
        self.position.y <= RESPAWN_HEIGHT || self.position.y <= RESPAWN_HEIGHT + product(
            self.velocity.y as int,
            dt as int,
        )
    }

    /// `after` is what one tick may make of this cube: a fresh cube from
    /// some throw within the ranges if this one was spent, else this cube
    /// flown on.
    pub open spec fn advanced(self, after: Cube, dt: i64, force: Vec3) -> bool {
        if self.spent() {
            after.fresh() && after.just_thrown()
        } else {
            after == self.stepped(dt, force)
        }
    }

    fn step(&mut self, dt: i64, force: Vec3)
        ensures
            *final(self) == old(self).stepped(dt, force),
    {
        let pull = Vec3 { x: 0, y: GRAVITY, z: 0 };
        self.velocity = self.velocity.plus(force.plus(pull).scaled(dt));
        self.position = self.position.plus(self.velocity.scaled(dt));
        self.rotation = sat_add(self.rotation, fixed_mul(self.rot_speed, dt));
    }

    /// Advances the cube by one tick of `dt` microseconds. A spent cube is
    /// replaced by a freshly thrown one and neither moves nor feels gravity
    /// or `force` in this tick; any other cube flies on.
    pub fn update(&mut self, dt: i64, force: Vec3)
        ensures
            old(self).advanced(*final(self), dt, force),
            old(self).spent() ==> final(self).fresh() && final(self).just_thrown(),
            !old(self).spent() ==> *final(self) == old(self).stepped(dt, force),
            final(self).caught(dt),
    {
        if self.position.y > RESPAWN_HEIGHT {
            *self = Cube::new();
        } else {
            self.step(dt, force);
        }
    }

    /// Advances the cube by one tick as `update` does, with the throw to use
    /// for a spent cube given by the caller.
    pub fn update_with(&mut self, dt: i64, force: Vec3, sample: SpawnSample)
        ensures
            *final(self) == old(self).updated(dt, force, sample),
            old(self).spent() && sample.in_range() ==> final(self).just_thrown(),
            final(self).caught(dt),
    {
        if self.position.y > RESPAWN_HEIGHT {
            *self = Cube::from_sample(sample);
        } else {
            self.step(dt, force);
        }
    }

    /// The steps that build the cube's model matrix, in the order in which
    /// they are multiplied onto the identity.
    pub open spec fn transform(self) -> Seq<TransformOp> {
        seq![
            TransformOp::Translate(self.position),
            TransformOp::Scale(Vec3 { x: ONE, y: ONE, z: ONE }.scaled(self.scale)),
            TransformOp::Rotate { angle: self.rotation, axis: self.rot_axis },
        ]
    }

    /// What is handed to the renderer for this cube: the model matrix as the
    /// product of a translation to the cube's place, a scaling to its size
    /// and a rotation by its angle about its axis, so that a corner of the
    /// mesh is turned first, then sized, then put in place.
    pub fn draw(&self) -> (ops: Vec<TransformOp>)
        ensures
            ops@ == self.transform(),
    {
        let mut ops: Vec<TransformOp> = Vec::new();
        ops.push(TransformOp::Translate(self.position));
        ops.push(TransformOp::Scale(Vec3::splat(ONE).scaled(self.scale)));
        ops.push(TransformOp::Rotate { angle: self.rotation, axis: self.rot_axis });
        assert(ops@ =~= self.transform());
        ops
    }
}

proof fn lemma_level_square(turn: int, level: int)
    requires
        -ONE <= turn <= ONE,
        0 <= level <= 499_868,
    ensures
        ({
            let side = product(turn, level);
            &&& -500_000 <= side <= 500_000
            &&& (side * side) * 1_000_000_000_000 <= (turn * turn) * (level * level)
                + 2_000_000_000_000 * level + 1_000_000_000_000
        }),
{
    let p = turn * level;
    let side = p / 1_000_000;
    let rest = p % 1_000_000;
    assert(-1_000_000 * level <= p <= 1_000_000 * level) by (nonlinear_arith)
        requires
            p == turn * level,
            -1_000_000 <= turn <= 1_000_000,
            0 <= level,
    ;
    assert((side * side) * 1_000_000_000_000 == p * p - 2 * (p * rest) + rest * rest)
        by (nonlinear_arith)
        requires
            p == side * 1_000_000 + rest,
    ;
    assert(p * p == (turn * turn) * (level * level)) by (nonlinear_arith)
        requires
            p == turn * level,
    ;
    assert(-1_000_000_000_000 * level <= p * rest <= 1_000_000_000_000 * level)
        by (nonlinear_arith)
        requires
            -1_000_000 * level <= p <= 1_000_000 * level,
            0 <= rest < 1_000_000,
            0 <= level,
    ;
    assert(rest * rest <= 1_000_000_000_000) by (nonlinear_arith)
        requires
            0 <= rest < 1_000_000,
    ;
}

proof fn lemma_level_total(circle: int, level: int, flat: int)
    by (nonlinear_arith)
    requires
        0 <= circle <= 1_000_006_000_931,
        0 <= level <= 499_868,
        flat * 1_000_000_000_000 <= circle * (level * level) + 4_000_000_000_000 * level
            + 2_000_000_000_000,
    ensures
        flat <= 249_872_000_000,
        flat <= level * level + 3_600_000,
{
    assert(level * level <= 499_868 * 499_868);
}

proof fn lemma_rise_square(rise: int, level: int)
    by (nonlinear_arith)
    requires
        -1_000_000 <= rise <= -866_110,
        0 <= level,
        rise * rise + level * level <= 1_000_006_000_931,
    ensures
        rise * rise >= 750_146_532_100,
        rise * rise + level * level + 3_600_000 <= 1_000_010_000_000,
{
}

/// The bearing of a throw within the ranges points upwards within thirty
/// degrees of straight up, with room to spare, and is no longer than one.
proof fn lemma_bearing_of_throw(theta: i64, phi: i64)
    requires
        THROW_PITCH_MIN <= theta < THROW_PITCH_MAX,
    ensures
        ({
            let b = bearing(theta, phi);
            &&& -ONE <= b.y <= -866_110
            &&& -500_000 <= b.x <= 500_000
            &&& -500_000 <= b.z <= 500_000
            &&& steepness(b) >= 530_000_000
            &&& b.norm_squared() <= ONE * ONE + 10_000_000
        }),
{
    let b = bearing(theta, phi);
    let angle = theta as int;
    lemma_throw_pitch(angle);
    let rise = sine(angle);
    let level = cosine(angle);
    lemma_sine_range(phi as int);
    lemma_unit_circle(phi as int);
    lemma_unit_circle(angle);
    let (along, across) = (cosine(phi as int), sine(phi as int));
    lemma_level_square(along, level);
    lemma_level_square(across, level);
    let flat = b.x * b.x + b.z * b.z;
    let circle = across * across + along * along;
    assert(circle >= 0) by (nonlinear_arith)
        requires
            circle == across * across + along * along,
    ;
    assert(circle * (level * level) == (along * along) * (level * level) + (across * across) * (
    level * level)) by (nonlinear_arith)
        requires
            circle == across * across + along * along,
    ;
    assert(flat * 1_000_000_000_000 == (b.x * b.x) * 1_000_000_000_000 + (b.z * b.z)
        * 1_000_000_000_000) by (nonlinear_arith)
        requires
            flat == b.x * b.x + b.z * b.z,
    ;
    lemma_level_total(circle, level, flat);
    lemma_rise_square(rise, level);
}

/// Every throw within the ranges makes a cube that lies where cubes are
/// thrown and flies and turns within the bounds of `just_thrown`; its speed
/// is that of the throw up to a two-hundred-thousandth.
pub proof fn lemma_spawn_ranges(sample: SpawnSample)
    requires
        sample.in_range(),
    ensures
        Cube::spawned(sample).just_thrown(),
        99_999 * (sample.r * sample.r) <= 100_000 * Cube::spawned(sample).velocity.norm_squared()
            <= 100_001 * (sample.r * sample.r),
{
    let cube = Cube::spawned(sample);
    let b = bearing(sample.theta, sample.phi);
    let u = sphere(sample.theta, sample.phi);
    lemma_bearing(sample.theta, sample.phi);
    lemma_bearing_of_throw(sample.theta, sample.phi);
    lemma_normalized_bounded(b);
    lemma_normalized_length(b);
    lemma_normalized_steep(b);
    lemma_scaled_length(u, sample.r);
    lemma_scaled_steep(u, sample.r);
    let speed = cube.velocity.norm_squared();
    let r = sample.r as int;
    let unit = u.norm_squared();
    assert(99_999 * (r * r) <= 100_000 * speed <= 100_001 * (r * r)) by (nonlinear_arith)
        requires
            -6_000_000_000_000 * r <= speed * 1_000_000_000_000 - unit * (r * r)
                <= 6_000_000_000_000 * r + 3_000_000_000_000,
            1_000_000_000_000 - 6_000_003 <= unit <= 1_000_000_000_000 + 6_000_931,
            12_000_000 <= r < 24_000_000,
    ;
    assert(144_000_000_000_000 <= r * r <= 576_000_000_000_000) by (nonlinear_arith)
        requires
            12_000_000 <= r < 24_000_000,
    ;
    lemma_bearing(sample.rot_theta, sample.rot_phi);
    lemma_normalized_bounded(bearing(sample.rot_theta, sample.rot_phi));
    lemma_normalized_length(bearing(sample.rot_theta, sample.rot_phi));
}

/// A cube that has not turned puts every point of the mesh at the cube's
/// place plus the point times the cube's size: the origin of the mesh lands
/// on the cube's place, and a cube of size one half halves the mesh.
pub proof fn lemma_unturned_landing(c: Cube, point: Vec3)
    requires
        c.rotation == 0,
    ensures
        landing(c.transform(), point) == Some(point.scaled(c.scale).plus(c.position)),
        landing(c.transform(), Vec3 { x: 0, y: 0, z: 0 }) == Some(c.position),
{
    reveal_with_fuel(landing, 4);
    let steps = c.transform();
    let tail = steps.drop_first();
    let last = tail.drop_first();
    assert(tail =~= seq![steps[1], steps[2]]);
    assert(last =~= seq![steps[2]]);
    assert(last.drop_first() =~= Seq::<TransformOp>::empty());
    assert(product(ONE as int, c.scale as int) == c.scale) by (nonlinear_arith)
        requires
            ONE == 1_000_000,
    ;
    assert(product(0, c.scale as int) == 0) by (nonlinear_arith);
}

/// A spent cube is thrown anew at once: after any tick a cube lies below
/// `RESPAWN_HEIGHT`, or past it by no more than its speed took it in that
/// one tick.
pub proof fn lemma_prompt_respawn(c: Cube, after: Cube, dt: i64, force: Vec3)
    requires
        c.advanced(after, dt, force) || exists|sample: SpawnSample|
            after == c.updated(dt, force, sample),
    ensures
        after.caught(dt),
{
}

/// A tick of no time leaves a cube that is not spent as it is, whatever the
/// force.
pub proof fn lemma_zero_tick(c: Cube, force: Vec3)
    ensures
        c.stepped(0, force) == c,
{
    let pull = force.plus(Cube::gravity());
    assert(product(pull.x as int, 0) == 0 && product(pull.y as int, 0) == 0 && product(
        pull.z as int,
        0,
    ) == 0 && product(c.rot_speed as int, 0) == 0 && product(c.velocity.x as int, 0) == 0
        && product(c.velocity.y as int, 0) == 0 && product(c.velocity.z as int, 0) == 0)
        by (nonlinear_arith);
}

proof fn lemma_gains_add(speed: int, gain: int, n: nat)
    requires
        i64::MIN <= speed <= i64::MAX,
        0 <= gain,
        n >= 1,
    ensures
        saturate(saturate(speed + (n - 1) * gain) + gain) == saturate(speed + n * gain),
{
    assert((n - 1) * gain >= 0 && n * gain == (n - 1) * gain + gain) by (nonlinear_arith)
        requires
            0 <= gain,
            n >= 1,
    ;
}

/// Free fall changes nothing but the place, the downward speed and the
/// angle: over `n` ticks of `dt` microseconds, however many and however
/// long, the speeds to the sides, the axis, the turning rate and the size
/// stay, and the downward speed grows by `n` times the gain of one tick,
/// which is `GRAVITY` times `dt`, or stops at the end of `i64`.
pub proof fn lemma_free_fall(c: Cube, dt: i64, n: nat)
    requires
        0 <= dt,
    ensures
        ({
            let gain = saturate(product(GRAVITY as int, dt as int));
            let after = c.flown(dt, n);
            &&& after.velocity.x == c.velocity.x
            &&& after.velocity.y == saturate(c.velocity.y + n * gain)
            &&& after.velocity.z == c.velocity.z
            &&& after.rot_axis == c.rot_axis
            &&& after.rot_speed == c.rot_speed
            &&& after.scale == c.scale
        }),
    decreases n,
{
    let gain = saturate(product(GRAVITY as int, dt as int));
    lemma_gravity_gain(dt as int);
    assert(gain >= 0);
    if n > 0 {
        lemma_free_fall(c, dt, (n - 1) as nat);
        lemma_gains_add(c.velocity.y as int, gain as int, n);
    } else {
        assert(n * gain == 0) by (nonlinear_arith)
            requires
                n == 0,
        ;
    }
}

/// The most ticks for which the law of free flight is stated.
pub const LONGEST_FLIGHT: u64 = 100_000;

/// The largest speed and turning rate for which the law of free flight is
/// stated.
pub const FASTEST: i64 = 1_000_000_000_000;

/// The largest coordinate and angle for which the law of free flight is
/// stated; further out a sum may stop at the end of `i64`.
pub const FARTHEST: i64 = 1_000_000_000_000_000_000;

/// What explicit Euler integration adds to a coordinate in `n` ticks of `dt`
/// microseconds, when the speed along it is `v0` at first and grows by `gain`
/// with every tick: each tick goes at the speed reached at its end.
pub open spec fn euler_travel(v0: int, gain: int, dt: int, n: nat) -> int
    decreases n,
{
    if n == 0 {
        0
    } else {
        euler_travel(v0, gain, dt, (n - 1) as nat) + product(v0 + n * gain, dt)
    }
}

impl Cube {
    /// The cube after `n` ticks of `dt` microseconds each in which it was not
    /// thrown anew and nothing but gravity acted on it.
    pub open spec fn flown(self, dt: i64, n: nat) -> Cube
        decreases n,
    {
        if n == 0 {
            self
        } else {
            self.flown(dt, (n - 1) as nat).stepped(dt, Vec3 { x: 0, y: 0, z: 0 })
        }
    }

    /// The cube is slow and near enough for the law of free flight.
    pub open spec fn calm(self) -> bool {
        &&& -FASTEST <= self.velocity.x <= FASTEST
        &&& -FASTEST <= self.velocity.y <= FASTEST
        &&& -FASTEST <= self.velocity.z <= FASTEST
        &&& -FASTEST <= self.rot_speed <= FASTEST
        &&& -FARTHEST <= self.position.x <= FARTHEST
        &&& -FARTHEST <= self.position.y <= FARTHEST
        &&& -FARTHEST <= self.position.z <= FARTHEST
        &&& -FARTHEST <= self.rotation <= FARTHEST
    }
}

proof fn lemma_tick_travel(v: int, dt: int)
    requires
        -2 * FASTEST <= v <= 2 * FASTEST,
        0 <= dt <= ONE,
    ensures
        -2 * FASTEST <= product(v, dt) <= 2 * FASTEST,
{
    assert(-2_000_000_000_000 * 1_000_000 <= v * dt <= 2_000_000_000_000 * 1_000_000)
        by (nonlinear_arith)
        requires
            -2_000_000_000_000 <= v <= 2_000_000_000_000,
            0 <= dt <= 1_000_000,
    ;
}

proof fn lemma_gravity_gain(dt: int)
    ensures
        product(GRAVITY as int, dt) == 10 * dt,
        product(0, dt) == 0,
{
    assert(10_000_000 * dt / 1_000_000 == 10 * dt);
    assert(0 * dt == 0);
}

proof fn lemma_travel_bounded(v0: int, gain: int, dt: int, n: nat)
    requires
        -FASTEST <= v0 <= FASTEST,
        0 <= gain <= 10_000_000,
        0 <= dt <= ONE,
        n <= LONGEST_FLIGHT,
    ensures
        -2_000_000_000_000 * n <= euler_travel(v0, gain, dt, n) <= 2_000_000_000_000 * n,
    decreases n,
{
    if n > 0 {
        lemma_travel_bounded(v0, gain, dt, (n - 1) as nat);
        assert(0 <= n * gain <= 100_000 * 10_000_000) by (nonlinear_arith)
            requires
                0 <= gain <= 10_000_000,
                0 <= n <= 100_000,
        ;
        lemma_tick_travel(v0 + n * gain, dt);
    }
}

/// Free flight is explicit Euler integration. Over `n` ticks of `dt`
/// microseconds the downward speed grows by `n` times the gain of one tick,
/// which is `GRAVITY` times `dt`, and the speeds to the sides stay; the
/// height changes by what `euler_travel` adds up, tick after tick, from the
/// speed at the end of each tick; to the sides the cube drifts evenly; and
/// the angle grows evenly with the turning rate.
pub proof fn lemma_free_flight(c: Cube, dt: i64, n: nat)
    requires
        c.calm(),
        0 <= dt <= ONE,
        n <= LONGEST_FLIGHT,
    ensures
        ({
            let gain = product(GRAVITY as int, dt as int);
            let after = c.flown(dt, n);
            &&& after.velocity.x == c.velocity.x
            &&& after.velocity.y == c.velocity.y + n * gain
            &&& after.velocity.z == c.velocity.z
            &&& after.position.x == c.position.x + n * product(c.velocity.x as int, dt as int)
            &&& after.position.y == c.position.y + euler_travel(
                c.velocity.y as int,
                gain,
                dt as int,
                n,
            )
            &&& after.position.z == c.position.z + n * product(c.velocity.z as int, dt as int)
            &&& after.rotation == c.rotation + n * product(c.rot_speed as int, dt as int)
            &&& after.rot_axis == c.rot_axis
            &&& after.rot_speed == c.rot_speed
            &&& after.scale == c.scale
        }),
    decreases n,
{
    let gain = product(GRAVITY as int, dt as int);
    lemma_gravity_gain(dt as int);
    if n > 0 {
        let m = (n - 1) as nat;
        lemma_free_flight(c, dt, m);
        assert(0 <= m * gain <= 100_000 * 10_000_000 && n * gain == m * gain + gain)
            by (nonlinear_arith)
            requires
                0 <= gain <= 10_000_000,
                0 <= m <= 100_000,
                n == m + 1,
        ;
        assert(0 <= n * gain <= 100_000 * 10_000_000) by (nonlinear_arith)
            requires
                0 <= gain <= 10_000_000,
                0 <= n <= 100_000,
        ;
        lemma_tick_travel(c.velocity.x as int, dt as int);
        lemma_tick_travel(c.velocity.y + n * gain, dt as int);
        lemma_tick_travel(c.velocity.z as int, dt as int);
        lemma_tick_travel(c.rot_speed as int, dt as int);
        let (dx, dz, turn) = (
            product(c.velocity.x as int, dt as int),
            product(c.velocity.z as int, dt as int),
            product(c.rot_speed as int, dt as int),
        );
        assert(-2_000_000_000_000 * 100_000 <= m * dx <= 2_000_000_000_000 * 100_000 && n * dx
            == m * dx + dx) by (nonlinear_arith)
            requires
                -2_000_000_000_000 <= dx <= 2_000_000_000_000,
                0 <= m <= 100_000,
                n == m + 1,
        ;
        assert(-2_000_000_000_000 * 100_000 <= m * dz <= 2_000_000_000_000 * 100_000 && n * dz
            == m * dz + dz) by (nonlinear_arith)
            requires
                -2_000_000_000_000 <= dz <= 2_000_000_000_000,
                0 <= m <= 100_000,
                n == m + 1,
        ;
        assert(-2_000_000_000_000 * 100_000 <= m * turn <= 2_000_000_000_000 * 100_000 && n
            * turn == m * turn + turn) by (nonlinear_arith)
            requires
                -2_000_000_000_000 <= turn <= 2_000_000_000_000,
                0 <= m <= 100_000,
                n == m + 1,
        ;
        lemma_travel_bounded(c.velocity.y as int, gain, dt as int, m);
    } else {
        assert(n * gain == 0 && n * product(c.velocity.x as int, dt as int) == 0 && n * product(
            c.velocity.z as int,
            dt as int,
        ) == 0 && n * product(c.rot_speed as int, dt as int) == 0) by (nonlinear_arith)
            requires
                n == 0,
        ;
    }
}

} // verus!
