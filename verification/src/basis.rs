//! The camera's three directions are of length one and at right angles, as
//! nearly as rounding allows, and the level ones are level.
//!
//! Lengths and angles are measured exactly here: the square of a length and
//! a dot product count millionths of millionths, so that a vector of length
//! one has the squared length `ONE * ONE`.

use crate::camera::Camera;
use crate::fixed::{product, ONE};
use crate::geometry::{
    lemma_cross_length, lemma_cross_orthogonal, lemma_normalized_axis, lemma_normalized_bounded,
    lemma_normalized_dot_bound, lemma_normalized_keeps_down, lemma_normalized_length,
    lemma_normalized_near_right_angle, lemma_normalized_steady, nearly_orthogonal, nearly_unit,
    within,
};
use crate::table::circle_gap;
use crate::trig::{
    cosine, lemma_cosine_of_pitch, lemma_sine_level, lemma_sine_range, lemma_unit_circle, sine,
};
use crate::util::{bearing, lemma_bearing};
use crate::vec3::Vec3;
use vstd::prelude::*;

verus! {

proof fn lemma_dot_commutes(a: Vec3, b: Vec3)
    ensures
        a.dot(b) == b.dot(a),
{
    assert(a.x * b.x == b.x * a.x && a.y * b.y == b.y * a.y && a.z * b.z == b.z * a.z)
        by (nonlinear_arith);
}

/// What rounding the two level coordinates of the bearing costs: with `bx`
/// and `bz` the rounded products of the level with cosine and sine of the
/// yaw, the bearing is at right angles to the level direction `(s, 0, -c)`
/// up to twice `ONE`, and its level part is about as long as the level.
proof fn lemma_level_part(s: int, c: int, k: int)
    requires
        -ONE <= s <= ONE,
        -ONE <= c <= ONE,
        -ONE <= k <= ONE,
        -6_000_003 <= circle_gap(s, c) <= 6_000_931,
    ensures
        ({
            let bx = product(c, k);
            let bz = product(s, k);
            &&& -2 * ONE <= s * bx - c * bz <= 2 * ONE
            &&& k * k - 10_000_003 <= bx * bx + bz * bz <= k * k + 10_001_000
            &&& k >= 1_744 ==> c * bx + s * bz >= 1_740 * ONE
        }),
{
    let bx = c * k / 1_000_000;
    let bz = s * k / 1_000_000;
    let ex = (c * k) % 1_000_000;
    let ez = (s * k) % 1_000_000;
    let (p, q) = (c * k, s * k);
    assert(-1_000_000_000_000 <= p <= 1_000_000_000_000 && -1_000_000_000_000 <= q
        <= 1_000_000_000_000) by (nonlinear_arith)
        requires
            p == c * k,
            q == s * k,
            -1_000_000 <= s <= 1_000_000,
            -1_000_000 <= c <= 1_000_000,
            -1_000_000 <= k <= 1_000_000,
    ;
    assert((s * bx - c * bz) * 1_000_000 == c * ez - s * ex) by (nonlinear_arith)
        requires
            c * k == bx * 1_000_000 + ex,
            s * k == bz * 1_000_000 + ez,
    ;
    assert(-2_000_000_000_000 < c * ez - s * ex < 2_000_000_000_000) by (nonlinear_arith)
        requires
            0 <= ex < 1_000_000,
            0 <= ez < 1_000_000,
            -1_000_000 <= s <= 1_000_000,
            -1_000_000 <= c <= 1_000_000,
    ;
    assert((bx * bx) * 1_000_000_000_000 >= p * p - 2_000_000_000_000_000_000 && (bz * bz)
        * 1_000_000_000_000 >= q * q - 2_000_000_000_000_000_000) by (nonlinear_arith)
        requires
            p == bx * 1_000_000 + ex,
            q == bz * 1_000_000 + ez,
            0 <= ex < 1_000_000,
            0 <= ez < 1_000_000,
            -1_000_000_000_000 <= p <= 1_000_000_000_000,
            -1_000_000_000_000 <= q <= 1_000_000_000_000,
    ;
    assert(p * p + q * q == (s * s + c * c) * (k * k)) by (nonlinear_arith)
        requires
            p == c * k,
            q == s * k,
    ;
    let flat = bx * bx + bz * bz;
    assert(flat * 1_000_000_000_000 == (bx * bx) * 1_000_000_000_000 + (bz * bz)
        * 1_000_000_000_000) by (nonlinear_arith)
        requires
            flat == bx * bx + bz * bz,
    ;
    let circle = s * s + c * c;
    assert(flat >= k * k - 10_000_003) by (nonlinear_arith)
        requires
            flat * 1_000_000_000_000 >= circle * (k * k) - 4_000_000_000_000_000_000,
            circle >= 1_000_000_000_000 - 6_000_003,
            -1_000_000 <= k <= 1_000_000,
    ;
    assert((bx * bx) * 1_000_000_000_000 <= p * p + 2_000_001_000_000_000_000 && (bz * bz)
        * 1_000_000_000_000 <= q * q + 2_000_001_000_000_000_000) by (nonlinear_arith)
        requires
            p == bx * 1_000_000 + ex,
            q == bz * 1_000_000 + ez,
            0 <= ex < 1_000_000,
            0 <= ez < 1_000_000,
            -1_000_000_000_000 <= p <= 1_000_000_000_000,
            -1_000_000_000_000 <= q <= 1_000_000_000_000,
    ;
    assert(flat <= k * k + 10_001_000) by (nonlinear_arith)
        requires
            flat * 1_000_000_000_000 <= circle * (k * k) + 4_000_002_000_000_000_000,
            0 <= circle <= 1_000_000_000_000 + 6_000_931,
            -1_000_000 <= k <= 1_000_000,
    ;
    if k >= 1_744 {
        assert((c * bx + s * bz) * 1_000_000 == circle * k - (c * ex + s * ez))
            by (nonlinear_arith)
            requires
                c * k == bx * 1_000_000 + ex,
                s * k == bz * 1_000_000 + ez,
                circle == s * s + c * c,
        ;
        assert(c * ex + s * ez <= 2_000_000_000_000) by (nonlinear_arith)
            requires
                0 <= ex < 1_000_000,
                0 <= ez < 1_000_000,
                -1_000_000 <= s <= 1_000_000,
                -1_000_000 <= c <= 1_000_000,
        ;
        assert(circle * k >= 999_993_999_997 * 1_744) by (nonlinear_arith)
            requires
                circle >= 999_993_999_997,
                k >= 1_744,
        ;
    }
}

/// The level direction of a yaw: its sine along `x`, its cosine against `z`.
pub open spec fn level_right(phi: i64) -> Vec3 {
    Vec3 { x: sine(phi as int) as i64, y: 0, z: (-cosine(phi as int)) as i64 }
}

/// The bearing is about as long as one, whatever the angles, and at right
/// angles to the level direction of its yaw up to twice `ONE`.
proof fn lemma_bearing_long(theta: i64, phi: i64)
    ensures
        ({
            let b = bearing(theta, phi);
            &&& ONE * ONE - 16_000_006 <= b.norm_squared() <= ONE * ONE + 17_000_000
            &&& -2 * ONE <= level_right(phi).dot(b) <= 2 * ONE
            &&& within(level_right(phi), ONE as int)
            &&& ONE * ONE - 6 * ONE - 3 <= level_right(phi).norm_squared()
        }),
{
    let b = bearing(theta, phi);
    let flat = level_right(phi);
    lemma_bearing(theta, phi);
    lemma_sine_range(theta as int);
    lemma_sine_range(phi as int);
    lemma_unit_circle(theta as int);
    lemma_unit_circle(phi as int);
    let (s, c, k) = (sine(phi as int), cosine(phi as int), cosine(theta as int));
    lemma_level_part(s, c, k);
    assert(flat.dot(b) == s * b.x - c * b.z) by (nonlinear_arith)
        requires
            flat.dot(b) == s * b.x + 0 * b.y + (-c) * b.z,
    ;
    assert(flat.norm_squared() == s * s + c * c) by (nonlinear_arith)
        requires
            flat.norm_squared() == s * s + 0 * 0 + (-c) * (-c),
    ;
}

/// What is known of `front`: it is no longer than one in any coordinate and
/// of length one up to the slack.
proof fn lemma_front(c: Camera)
    ensures
        within(c.front(), ONE as int),
        ONE * ONE - 6 * ONE - 3 <= c.front().norm_squared() <= ONE * ONE + 6 * ONE + 931,
{
    let a = bearing(c.theta, c.phi);
    lemma_bearing(c.theta, c.phi);
    lemma_normalized_bounded(a);
    lemma_normalized_length(a);
}

/// What is known of `right`: it is level, no longer than one in any
/// coordinate, of length one up to the slack, and at right angles to `front`
/// up to the slack.
proof fn lemma_right(c: Camera)
    ensures
        ({
            let r = c.right();
            &&& within(r, ONE as int)
            &&& r.y == 0
            &&& ONE * ONE - 6 * ONE - 3 <= r.norm_squared() <= ONE * ONE + 6 * ONE + 931
            &&& -8_100_000 <= r.dot(c.front()) <= 8_100_000
        }),
{
    let b = bearing(c.theta, c.phi);
    let flat = level_right(c.phi);
    let r = c.right();
    lemma_bearing(c.theta, c.phi);
    lemma_bearing_long(c.theta, c.phi);
    assert(flat.short());
    lemma_normalized_bounded(flat);
    lemma_normalized_length(flat);
    lemma_level_stays_level(flat);
    lemma_normalized_dot_bound(flat, b, 2_000_000);
    lemma_dot_commutes(r, b);
    assert(b.short());
    lemma_normalized_dot_bound(b, r, 5_005_001);
    lemma_dot_commutes(c.front(), r);
}

/// Normalizing a level vector leaves it level.
pub proof fn lemma_level_stays_level(v: Vec3)
    requires
        v.y == 0,
    ensures
        v.normalized().y == 0,
{
    let long = v.magnified();
    assert(long.y == 0) by (nonlinear_arith)
        requires
            long.y == v.y * 0x8000_0000 || long.y == v.y,
            v.y == 0,
    ;
    let length = crate::fixed::int_sqrt(long.norm_squared());
    if length != 0 {
        assert(0 * ONE / length == 0 && (-0 * ONE) / (-length) == 0) by (nonlinear_arith)
            requires
                length != 0,
        ;
    }
}

/// `front` lies on the side of its pitch: above the horizon for a pitch
/// above it, below for one below, and level for a level pitch.
pub proof fn lemma_front_side(c: Camera)
    requires
        c.wf(),
    ensures
        c.theta > 0 ==> c.front().y > 0,
        c.theta < 0 ==> c.front().y < 0,
        c.theta == 0 ==> c.front().y == 0,
{
    let b = bearing(c.theta, c.phi);
    lemma_bearing(c.theta, c.phi);
    lemma_bearing_long(c.theta, c.phi);
    lemma_cosine_of_pitch(c.theta as int);
    lemma_normalized_steady(b);
    if c.theta == 0 {
        lemma_level_stays_level(b);
    }
}

/// The level look direction is level.
pub proof fn lemma_front_flat_level(c: Camera)
    ensures
        c.front_flat().y == 0,
{
    lemma_sine_level();
    lemma_sine_range(0);
    lemma_level_stays_level(bearing(0, c.phi));
}

proof fn lemma_turned(c: int, s: int, bx: int, bz: int, fx: int, fz: int, rx: int, rz: int)
    requires
        -ONE <= c <= ONE,
        -ONE <= s <= ONE,
        -ONE <= bx <= ONE,
        -ONE <= bz <= ONE,
        c * bx + s * bz >= 1_740 * ONE,
        bx - 10 <= fx <= bx + 10,
        bz - 10 <= fz <= bz + 10,
        s - 10 <= rx <= s + 10,
        -c - 10 <= rz <= -c + 10,
    ensures
        rz * fx - rx * fz <= -1_000 * ONE,
{
    let (d1, d3, e1, e3) = (rz + c, rx - s, fx - bx, fz - bz);
    assert(rz * fx == -(c * bx) - c * e1 + d1 * bx + d1 * e1) by (nonlinear_arith)
        requires
            rz == -c + d1,
            fx == bx + e1,
    ;
    assert(rx * fz == s * bz + s * e3 + d3 * bz + d3 * e3) by (nonlinear_arith)
        requires
            rx == s + d3,
            fz == bz + e3,
    ;
    assert(-10_000_000 <= c * e1 <= 10_000_000 && -10_000_000 <= d1 * bx <= 10_000_000 && -100
        <= d1 * e1 <= 100) by (nonlinear_arith)
        requires
            -1_000_000 <= c <= 1_000_000,
            -1_000_000 <= bx <= 1_000_000,
            -10 <= d1 <= 10,
            -10 <= e1 <= 10,
    ;
    assert(-10_000_000 <= s * e3 <= 10_000_000 && -10_000_000 <= d3 * bz <= 10_000_000 && -100
        <= d3 * e3 <= 100) by (nonlinear_arith)
        requires
            -1_000_000 <= s <= 1_000_000,
            -1_000_000 <= bz <= 1_000_000,
            -10 <= d3 <= 10,
            -10 <= e3 <= 10,
    ;
}

/// Before it is normalized, `up` points up: where the cosine of the pitch
/// is positive and not small, the cross product of `right` and `front`
/// reaches up the world's up axis by at least a thousandth of `ONE`.
proof fn lemma_up_before(c: Camera)
    requires
        cosine(c.theta as int) >= 1_744,
    ensures
        c.right().cross(c.front()).y <= -1_000,
        c.right().z * c.front().x - c.right().x * c.front().z <= -1_000 * ONE,
{
    let b = bearing(c.theta, c.phi);
    let flat = level_right(c.phi);
    let (f, r) = (c.front(), c.right());
    lemma_bearing(c.theta, c.phi);
    lemma_bearing_long(c.theta, c.phi);
    lemma_sine_range(c.theta as int);
    lemma_sine_range(c.phi as int);
    lemma_unit_circle(c.phi as int);
    let (s, co, k) = (sine(c.phi as int), cosine(c.phi as int), cosine(c.theta as int));
    lemma_level_part(s, co, k);
    assert(flat.norm_squared() == s * s + co * co) by (nonlinear_arith)
        requires
            flat.norm_squared() == s * s + 0 * 0 + (-co) * (-co),
    ;
    lemma_normalized_steady(b);
    lemma_normalized_steady(flat);
    lemma_normalized_bounded(b);
    lemma_normalized_bounded(flat);
    lemma_turned(co, s, b.x as int, b.z as int, f.x as int, f.z as int, r.x as int, r.z as int);
    let turn = r.z * f.x - r.x * f.z;
    assert(-2_000_000_000_000 <= turn) by (nonlinear_arith)
        requires
            turn == r.z * f.x - r.x * f.z,
            -1_000_000 <= r.x <= 1_000_000,
            -1_000_000 <= r.z <= 1_000_000,
            -1_000_000 <= f.x <= 1_000_000,
            -1_000_000 <= f.z <= 1_000_000,
    ;
}

/// The cross product of a direction and the world's up is the direction
/// laid flat and turned by a quarter.
proof fn lemma_cross_with_up(f: Vec3)
    requires
        within(f, ONE as int),
    ensures
        f.cross(Camera::up_world()) == (Vec3 { x: f.z, y: 0, z: (-f.x) as i64 }),
{
    assert(f.y * 0 - f.z * (-ONE) == f.z * ONE && (f.z * ONE) / (ONE as int) == f.z);
    assert(f.z * 0 - f.x * 0 == 0);
    assert(f.x * (-ONE) - f.y * 0 == (-f.x) * ONE && ((-f.x) * ONE) / (ONE as int) == -f.x);
}

/// `right` lies on the side to which the cross product of `front` and the
/// world's up points: while the pitch is within its limits, the two make a
/// dot product of at least a thousandth of `ONE * ONE`.
pub proof fn lemma_right_side(c: Camera)
    requires
        c.wf(),
    ensures
        c.right().dot(c.front().cross(Camera::up_world())) >= 1_000 * ONE,
{
    let (f, r) = (c.front(), c.right());
    lemma_front(c);
    lemma_cosine_of_pitch(c.theta as int);
    lemma_up_before(c);
    lemma_cross_with_up(f);
    let side = Vec3 { x: f.z, y: 0, z: (-f.x) as i64 };
    assert(r.dot(side) == -(r.z * f.x - r.x * f.z)) by (nonlinear_arith)
        requires
            r.dot(side) == r.x * f.z + r.y * 0 + r.z * (-f.x),
    ;
}

/// `up` points up while the pitch is within its limits.
pub proof fn lemma_up_side(c: Camera)
    requires
        c.wf(),
    ensures
        c.up().y < 0,
{
    lemma_cosine_of_pitch(c.theta as int);
    lemma_up_before(c);
    lemma_normalized_keeps_down(c.right().cross(c.front()));
}

/// The level upward direction is the world's up.
pub proof fn lemma_up_flat(c: Camera)
    ensures
        c.up_flat() == Camera::up_world(),
{
    let level = Camera { theta: 0, ..c };
    lemma_cosine_of_pitch(0);
    lemma_up_before(level);
    lemma_front_flat_level(c);
    lemma_level_stays_level(level_right(c.phi));
    let (f, r) = (c.front_flat(), c.right_flat());
    let before = r.cross(f);
    assert(before.x == 0 && before.z == 0) by (nonlinear_arith)
        requires
            before.x == crate::vec3::cross_term(r.y as int, f.z as int, r.z as int, f.y as int),
            before.z == crate::vec3::cross_term(r.x as int, f.y as int, r.y as int, f.x as int),
            r.y == 0,
            f.y == 0,
    ;
    lemma_normalized_axis(before);
}

proof fn lemma_parallelogram(first: int, second: int, across: int)
    by (nonlinear_arith)
    requires
        first >= 1_000_000_000_000 - 6_000_003,
        second >= 1_000_000_000_000 - 6_000_003,
        -10_000_000 <= across <= 10_000_000,
    ensures
        first * second - across * across >= 999_000_000_000 * 1_000_000_000_000,
{
}

/// What is known of `up`: it is of length one up to the slack and at right
/// angles to `front` and to `right` up to the slack.
proof fn lemma_up(c: Camera)
    ensures
        ({
            let u = c.up();
            &&& nearly_unit(u)
            &&& nearly_orthogonal(u, c.front())
            &&& nearly_orthogonal(u, c.right())
        }),
{
    let f = c.front();
    let r = c.right();
    lemma_front(c);
    lemma_right(c);
    let before = r.cross(f);
    lemma_cross_orthogonal(r, f);
    lemma_cross_length(r, f);
    lemma_parallelogram(r.norm_squared(), f.norm_squared(), r.dot(f));
    let total = before.norm_squared();
    assert(total >= 998_000 * 998_000);
    assert(before.short());
    lemma_normalized_length(before);
    lemma_normalized_near_right_angle(before, f);
    lemma_normalized_near_right_angle(before, r);
}

/// For every pitch and every yaw, `front`, `right` and `up` are each of
/// length one and stand at right angles to one another, up to the slack
/// that rounding needs.
pub proof fn lemma_basis_orthonormal(c: Camera)
    ensures
        nearly_unit(c.front()),
        nearly_unit(c.right()),
        nearly_unit(c.up()),
        nearly_orthogonal(c.front(), c.right()),
        nearly_orthogonal(c.front(), c.up()),
        nearly_orthogonal(c.right(), c.up()),
{
    lemma_front(c);
    lemma_right(c);
    lemma_up(c);
    lemma_dot_commutes(c.front(), c.right());
    lemma_dot_commutes(c.front(), c.up());
    lemma_dot_commutes(c.right(), c.up());
}

} // verus!
