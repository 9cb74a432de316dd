//! Sine and cosine of angles measured in hundredths of a degree.
//!
//! Sine and cosine of an angle are taken together: the table gives a point
//! near the circle, and that point is normalized. What comes out lies on the
//! circle up to rounding and is within a few millionths of `ONE` of the true
//! sine and cosine.

use crate::fixed::{int_sqrt, lemma_int_sqrt, saturate, ONE};
use crate::geometry::{
    lemma_distribute, lemma_magnified, lemma_normalized_bounded, lemma_normalized_length,
    lemma_root_at_least, lemma_root_under, lemma_scaled_square,
};
use crate::table::{
    circle_gap, lemma_table_level, lemma_table_near_circle, lemma_table_periodic,
    lemma_table_pitch, lemma_table_range, lemma_table_throw, table_cos, table_cosine, table_sin,
    table_sine,
};
use crate::vec3::{Vec3, MAGNIFIER};
use vstd::prelude::*;

verus! {

/// The point near the circle that the table gives for the angle `a`.
pub open spec fn pair(a: int) -> Vec3 {
    Vec3 { x: saturate(table_cosine(a)), y: saturate(table_sine(a)), z: 0 }
}

/// The sine of `a` hundredths of a degree.
pub open spec fn sine(a: int) -> int {
    pair(a).normalized().y as int
}

/// The cosine of `a` hundredths of a degree.
pub open spec fn cosine(a: int) -> int {
    pair(a).normalized().x as int
}

/// The point of the table lies in the plane, near the circle.
pub proof fn lemma_pair(a: int)
    ensures
        pair(a).x == table_cosine(a),
        pair(a).y == table_sine(a),
        pair(a).z == 0,
        pair(a).short(),
        ONE * ONE - 81_000_000 <= pair(a).norm_squared() <= ONE * ONE + 1_130_000,
{
    lemma_table_range(a);
    lemma_table_near_circle(a);
    assert(0 * 0 == 0int);
}

/// How the length of the magnified point of the table is rounded, and that
/// sine and cosine are the coordinates of the table divided by it.
proof fn lemma_unit_pair(a: int)
    ensures
        ({
            let length = int_sqrt(pair(a).magnified().norm_squared());
            &&& MAGNIFIER * (ONE - 41) <= length < MAGNIFIER * (ONE + 1)
            &&& sine(a) == (table_sine(a) * MAGNIFIER) * ONE / length
            &&& cosine(a) == (table_cosine(a) * MAGNIFIER) * ONE / length
            &&& pair(a).normalized().z == 0
        }),
{
    let p = pair(a);
    let m = MAGNIFIER as int;
    lemma_pair(a);
    lemma_magnified(p);
    lemma_normalized_bounded(p);
    let long = p.magnified();
    let total = long.norm_squared();
    let length = int_sqrt(total);
    lemma_int_sqrt(total);
    lemma_scaled_square(p.x as int, m);
    lemma_scaled_square(p.y as int, m);
    lemma_scaled_square(p.z as int, m);
    lemma_distribute(m * m, p.x * p.x, p.y * p.y, p.z * p.z);
    assert(total == (m * m) * p.norm_squared());
    let n = p.norm_squared();
    assert((m * 999_959) * (m * 999_959) <= total && total < (m * 1_000_001) * (m * 1_000_001))
        by (nonlinear_arith)
        requires
            total == (m * m) * n,
            999_919_000_000 <= n <= 1_000_001_130_000,
            m > 0,
    ;
    lemma_root_at_least(total, length, m * 999_959);
    lemma_root_under(total, length, m * 1_000_001);
    assert(0 * ONE / length == 0) by (nonlinear_arith)
        requires
            length >= 1,
    ;
    assert(long.z == 0);
}

/// What dividing by the rounded length makes of one coordinate of the table.
proof fn lemma_unit_value(t: int, length: int, m: int)
    by (nonlinear_arith)
    requires
        m > 0,
        m * 999_959 <= length < m * 1_000_001,
        -1_000_000 <= t <= 1_000_000,
    ensures
        ({
            let v = (t * m) * 1_000_000 / length;
            &&& t >= 0 ==> v >= 0 && t - 1 <= v && v * 999_959 <= t * 1_000_000
            &&& t <= 0 ==> v <= 0 && v * 1_000_001 <= t * 1_000_000 && t * 1_000_000 <= (v + 1)
                * 999_959
        }),
{
}

/// Sine and cosine lie between `-ONE` and `ONE`.
pub proof fn lemma_sine_range(a: int)
    ensures
        -ONE <= sine(a) <= ONE,
        -ONE <= cosine(a) <= ONE,
{
    lemma_normalized_bounded(pair(a));
}

/// The squares of the sine and the cosine of any angle add up to the square
/// of `ONE`, up to the six millionths of it that rounding the two may cost.
pub proof fn lemma_unit_circle(a: int)
    ensures
        -6 * ONE - 3 <= circle_gap(sine(a), cosine(a)) <= 6 * ONE + 931,
{
    lemma_pair(a);
    lemma_unit_pair(a);
    lemma_normalized_length(pair(a));
    assert(0 * 0 == 0int);
}

/// Angles that differ by whole turns have the same sine and the same cosine.
pub proof fn lemma_sine_periodic(a: int, turns: int)
    ensures
        sine(a + turns * 36_000) == sine(a),
        cosine(a + turns * 36_000) == cosine(a),
{
    lemma_table_periodic(a, turns);
    assert(pair(a + turns * 36_000) == pair(a));
}

/// At the angle zero the sine is zero.
pub proof fn lemma_sine_level()
    ensures
        sine(0) == 0,
{
    lemma_table_level();
    lemma_unit_pair(0);
    let length = int_sqrt(pair(0).magnified().norm_squared());
    assert((0 * MAGNIFIER) * ONE / length == 0) by (nonlinear_arith)
        requires
            length >= 1,
    ;
}

/// Of the sine and the cosine of an angle, one is at least seven tenths of
/// `ONE`, up or down.
pub proof fn lemma_sine_or_cosine_large(a: int)
    ensures
        sine(a) >= 707_000 || sine(a) <= -707_000 || cosine(a) >= 707_000 || cosine(a)
            <= -707_000,
{
    lemma_unit_circle(a);
    let (s, c) = (sine(a), cosine(a));
    assert(s >= 707_000 || s <= -707_000 || c >= 707_000 || c <= -707_000) by (nonlinear_arith)
        requires
            s * s + c * c - 1_000_000_000_000 >= -6_000_003,
    ;
}

/// A pitch within a tenth of a degree of a quarter turn either way has a
/// cosine that is positive and not small, and a sine on the side of the
/// pitch.
pub proof fn lemma_cosine_of_pitch(a: int)
    requires
        -8_990 <= a <= 8_990,
    ensures
        1_744 <= cosine(a) <= ONE,
        a > 0 ==> sine(a) >= 173,
        a < 0 ==> sine(a) <= -174,
        a == 0 ==> sine(a) == 0,
{
    lemma_table_pitch(a);
    lemma_unit_pair(a);
    lemma_sine_range(a);
    let length = int_sqrt(pair(a).magnified().norm_squared());
    lemma_unit_value(table_cosine(a), length, MAGNIFIER as int);
    lemma_unit_value(table_sine(a), length, MAGNIFIER as int);
    if a == 0 {
        lemma_sine_level();
    }
}

/// The pitch of a throw, from straight up to thirty degrees short of it,
/// not included: the sine is at least what it is a hundredth of a degree
/// inside that range, downwards, and the cosine little more than what it is
/// there.
pub proof fn lemma_throw_pitch(a: int)
    requires
        -9_000 <= a < -6_000,
    ensures
        -ONE <= sine(a) <= -866_110,
        0 <= cosine(a) <= 499_868,
{
    lemma_table_throw(a);
    lemma_unit_pair(a);
    lemma_sine_range(a);
    let length = int_sqrt(pair(a).magnified().norm_squared());
    lemma_unit_value(table_cosine(a), length, MAGNIFIER as int);
    lemma_unit_value(table_sine(a), length, MAGNIFIER as int);
}

/// The sine and the cosine of `a` hundredths of a degree, in this order.
pub fn sin_cos(a: i64) -> (r: (i64, i64))
    ensures
        r.0 == sine(a as int),
        r.1 == cosine(a as int),
        -ONE <= r.0 <= ONE,
        -ONE <= r.1 <= ONE,
        -6 * ONE - 3 <= circle_gap(r.0 as int, r.1 as int) <= 6 * ONE + 931,
{
    proof {
        lemma_sine_range(a as int);
        lemma_unit_circle(a as int);
    }
    let point = Vec3 { x: table_cos(a), y: table_sin(a), z: 0 };
    let unit = point.normalized();
    (unit.y, unit.x)
}

/// The sine of `a` hundredths of a degree.
pub fn sin(a: i64) -> (r: i64)
    ensures
        r == sine(a as int),
        -ONE <= r <= ONE,
{
    sin_cos(a).0
}

/// The cosine of `a` hundredths of a degree.
pub fn cos(a: i64) -> (r: i64)
    ensures
        r == cosine(a as int),
        -ONE <= r <= ONE,
{
    sin_cos(a).1
}

} // verus!
