//! What rounding does to lengths and angles.
//!
//! Normalizing a vector, stretching it and taking a cross product all round
//! down, so a normalized vector is not exactly of length one and a cross
//! product not exactly at right angles to its factors. The lemmas here say
//! by how much they can be off. Squared lengths and dot products are exact
//! integers that count millionths of millionths.
//!
//! A vector is magnified before it is normalized, so that the rounding of
//! its length costs less than a thousandth of a millionth of `ONE * ONE`;
//! what is left is the rounding of the three coordinates, which costs at
//! most six millionths of it.

use crate::fixed::{int_sqrt, is_int_sqrt, lemma_int_sqrt, ONE};
use crate::vec3::{cross_term, Vec3, MAGNIFIER};
use vstd::prelude::*;

verus! {

/// By how much the squared length of a normalized vector may differ from
/// `ONE * ONE`: a hundred-thousandth of it, which is a two-hundred-thousandth
/// in the length.
pub const LENGTH_SLACK: i64 = 10_000_000;

/// How large the dot product of two directions that stand at right angles
/// may be, either way: a hundred-thousandth of `ONE * ONE`.
pub const ANGLE_SLACK: i64 = 10_000_000;

/// The length of `v` is one, up to the slack.
pub open spec fn nearly_unit(v: Vec3) -> bool {
    ONE * ONE - LENGTH_SLACK <= v.norm_squared() <= ONE * ONE + LENGTH_SLACK
}

/// `a` and `b` are at right angles, up to the slack.
pub open spec fn nearly_orthogonal(a: Vec3, b: Vec3) -> bool {
    -ANGLE_SLACK <= a.dot(b) <= ANGLE_SLACK
}

/// No coordinate of `v` is larger than `bound`, either way.
pub open spec fn within(v: Vec3, bound: int) -> bool {
    &&& -bound <= v.x <= bound
    &&& -bound <= v.y <= bound
    &&& -bound <= v.z <= bound
}

/// No coordinate of a vector is longer than the vector.
pub proof fn lemma_coordinates_within_length(v: Vec3)
    ensures
        ({
            let length = int_sqrt(v.norm_squared());
            &&& is_int_sqrt(v.norm_squared(), length)
            &&& -length <= v.x <= length
            &&& -length <= v.y <= length
            &&& -length <= v.z <= length
        }),
{
    let (x, y, z) = (v.x as int, v.y as int, v.z as int);
    let n = v.norm_squared();
    assert(0 <= x * x && 0 <= y * y && 0 <= z * z) by (nonlinear_arith);
    lemma_int_sqrt(n);
    let length = int_sqrt(n);
    lemma_square_below(x, y * y + z * z, length);
    lemma_square_below(y, x * x + z * z, length);
    lemma_square_below(z, x * x + y * y, length);
}

pub proof fn lemma_scaled_square(a: int, k: int)
    by (nonlinear_arith)
    ensures
        (a * k) * (a * k) == (k * k) * (a * a),
{
}

pub proof fn lemma_distribute(k: int, a: int, b: int, c: int)
    by (nonlinear_arith)
    ensures
        k * (a + b + c) == k * a + k * b + k * c,
        (a + b + c) * k == a * k + b * k + c * k,
        a * k == k * a,
        b * k == k * b,
        c * k == k * c,
{
}

proof fn lemma_square_below(a: int, rest: int, length: int)
    by (nonlinear_arith)
    requires
        0 <= rest,
        0 <= length,
        a * a + rest < (length + 1) * (length + 1),
    ensures
        -length <= a <= length,
{
}

/// What rounding costs one coordinate of a normalized vector: with `n` the
/// rounded quotient of `a * ONE` by `length`, the squares of `a * ONE` and of
/// `n * length` differ by at most `2 * ONE + 1` squares of `length`.
pub proof fn lemma_quotient_error(a: int, length: int)
    requires
        1 <= length,
        -length <= a <= length,
    ensures
        ({
            let n = a * ONE / length;
            &&& -ONE <= n <= ONE
            &&& -2_000_000 * (length * length) <= (a * ONE) * (a * ONE) - (n * n) * (length
                * length) <= 2_000_001 * (length * length)
        }),
{
    let s = ONE as int;
    let p = a * s;
    let n = p / length;
    let rho = p % length;
    assert(p == length * n + rho && 0 <= rho < length) by (nonlinear_arith)
        requires
            n == p / length,
            rho == p % length,
            1 <= length,
    ;
    assert(-s <= n <= s) by (nonlinear_arith)
        requires
            p == length * n + rho,
            0 <= rho < length,
            p == a * s,
            -length <= a <= length,
            s > 0,
    ;
    assert(p * p - (n * n) * (length * length) == 2 * (n * rho) * length + rho * rho)
        by (nonlinear_arith)
        requires
            p == length * n + rho,
    ;
    assert(-s * length <= n * rho <= s * length) by (nonlinear_arith)
        requires
            -s <= n <= s,
            0 <= rho < length,
    ;
    assert(0 <= rho * rho <= length * length) by (nonlinear_arith)
        requires
            0 <= rho < length,
    ;
    assert(-2_000_000 * (length * length) <= 2 * (n * rho) * length <= 2_000_000 * (length
        * length)) by (nonlinear_arith)
        requires
            -s * length <= n * rho <= s * length,
            1 <= length,
            s == 1_000_000,
    ;
}

proof fn lemma_over_length_bounded(v: Vec3)
    ensures
        -ONE <= v.over_length().x <= ONE,
        -ONE <= v.over_length().y <= ONE,
        -ONE <= v.over_length().z <= ONE,
{
    lemma_coordinates_within_length(v);
    let length = int_sqrt(v.norm_squared());
    if length > 0 {
        lemma_quotient_error(v.x as int, length);
        lemma_quotient_error(v.y as int, length);
        lemma_quotient_error(v.z as int, length);
    }
}

/// A vector divided by its rounded length has length one, as nearly as
/// rounding allows: the square of its length falls short of `ONE * ONE` by
/// at most `6 * ONE + 3`, and exceeds it by at most `6 * ONE` and a share of
/// `2 * ONE * ONE` that shrinks as the vector that was divided grows.
proof fn lemma_over_length_unit(v: Vec3)
    requires
        v.norm_squared() >= 1,
    ensures
        ({
            let length = int_sqrt(v.norm_squared());
            let unit = v.over_length().norm_squared();
            &&& length >= 1
            &&& unit >= ONE * ONE - 6 * ONE - 3
            &&& (unit - ONE * ONE - 6 * ONE) * length <= 2 * ONE * ONE
        }),
{
    lemma_coordinates_within_length(v);
    let total = v.norm_squared();
    let length = int_sqrt(total);
    assert(length >= 1) by (nonlinear_arith)
        requires
            total >= 1,
            0 <= length,
            total < (length + 1) * (length + 1),
    ;
    lemma_quotient_error(v.x as int, length);
    lemma_quotient_error(v.y as int, length);
    lemma_quotient_error(v.z as int, length);
    let n = v.over_length();
    let (nx, ny, nz) = (n.x as int, n.y as int, n.z as int);
    assert(nx == v.x * ONE / length && ny == v.y * ONE / length && nz == v.z * ONE / length);
    let unit = n.norm_squared();
    let square = length * length;
    let (ex, ey, ez) = (
        (v.x * ONE) * (v.x * ONE) - (nx * nx) * square,
        (v.y * ONE) * (v.y * ONE) - (ny * ny) * square,
        (v.z * ONE) * (v.z * ONE) - (nz * nz) * square,
    );
    lemma_scaled_square(v.x as int, ONE as int);
    lemma_scaled_square(v.y as int, ONE as int);
    lemma_scaled_square(v.z as int, ONE as int);
    lemma_distribute(ONE * ONE, v.x * v.x, v.y * v.y, v.z * v.z);
    lemma_distribute(square, nx * nx, ny * ny, nz * nz);
    let gap = (ONE * ONE) * total - unit * square;
    assert(gap == ex + ey + ez);
    assert(-6_000_000 * square <= gap <= 6_000_003 * square);
    assert(square >= 1) by (nonlinear_arith)
        requires
            square == length * length,
            length >= 1,
    ;
    assert(unit >= 1_000_000_000_000 - 6_000_003) by (nonlinear_arith)
        requires
            1_000_000_000_000 * total - unit * square <= 6_000_003 * square,
            square <= total,
            square >= 1,
    ;
    assert((unit - 1_000_000_000_000 - 6_000_000) * length <= 2_000_000_000_000)
        by (nonlinear_arith)
        requires
            1_000_000_000_000 * total - unit * square >= -6_000_000 * square,
            total < (length + 1) * (length + 1),
            square == length * length,
            length >= 1,
    ;
}

proof fn lemma_remainder_weighed(a: int, length: int, w: int)
    requires
        1 <= length,
        -ONE <= w <= ONE,
    ensures
        ({
            let n = a * ONE / length;
            -1_000_000 * length <= (a * w) * ONE - (n * w) * length <= 1_000_000 * length
        }),
{
    let p = a * ONE;
    let n = p / length;
    let rho = p % length;
    assert(p == length * n + rho && 0 <= rho < length) by (nonlinear_arith)
        requires
            n == p / length,
            rho == p % length,
            1 <= length,
    ;
    assert((a * w) * ONE - (n * w) * length == rho * w) by (nonlinear_arith)
        requires
            a * ONE == length * n + rho,
    ;
    assert(-1_000_000 * length <= rho * w <= 1_000_000 * length) by (nonlinear_arith)
        requires
            0 <= rho < length,
            -1_000_000 <= w <= 1_000_000,
    ;
}

/// Dividing a vector by its rounded length changes its dot product with a
/// second vector that is no longer than one as dividing by the length would,
/// up to three times `ONE`.
proof fn lemma_over_length_dot(v: Vec3, w: Vec3)
    requires
        v.norm_squared() >= 1,
        within(w, ONE as int),
    ensures
        ({
            let length = int_sqrt(v.norm_squared());
            let turned = v.over_length().dot(w) * length - v.dot(w) * ONE;
            &&& length >= 1
            &&& -3_000_000 * length <= turned <= 3_000_000 * length
        }),
{
    lemma_over_length_unit(v);
    lemma_coordinates_within_length(v);
    let length = int_sqrt(v.norm_squared());
    lemma_quotient_error(v.x as int, length);
    lemma_quotient_error(v.y as int, length);
    lemma_quotient_error(v.z as int, length);
    lemma_remainder_weighed(v.x as int, length, w.x as int);
    lemma_remainder_weighed(v.y as int, length, w.y as int);
    lemma_remainder_weighed(v.z as int, length, w.z as int);
    let n = v.over_length();
    assert(n.x == v.x * ONE / length && n.y == v.y * ONE / length && n.z == v.z * ONE / length);
    lemma_distribute(length, n.x * w.x, n.y * w.y, n.z * w.z);
    lemma_distribute(ONE as int, v.x * w.x, v.y * w.y, v.z * w.z);
}

proof fn lemma_cross_coordinate(a: int, d: int, b: int, c: int)
    requires
        -ONE <= a <= ONE,
        -ONE <= b <= ONE,
        -ONE <= c <= ONE,
        -ONE <= d <= ONE,
    ensures
        ({
            let exact = a * d - b * c;
            let rounded = cross_term(a, d, b, c);
            &&& -2_000_000 <= rounded <= 2_000_000
            &&& 0 <= exact - rounded * ONE < ONE
            &&& -2_000_000_000_000 <= exact <= 2_000_000_000_000
        }),
{
    assert(-1_000_000_000_000 <= a * d <= 1_000_000_000_000) by (nonlinear_arith)
        requires
            -1_000_000 <= a <= 1_000_000,
            -1_000_000 <= d <= 1_000_000,
    ;
    assert(-1_000_000_000_000 <= b * c <= 1_000_000_000_000) by (nonlinear_arith)
        requires
            -1_000_000 <= b <= 1_000_000,
            -1_000_000 <= c <= 1_000_000,
    ;
}

proof fn lemma_difference_weighed(u: int, v: int, w: int)
    by (nonlinear_arith)
    ensures
        (u - v) * w == u * w - v * w,
{
}

proof fn lemma_factors_swapped(a: int, b: int, c: int)
    by (nonlinear_arith)
    ensures
        (a * b) * c == (c * b) * a,
        (a * b) * c == (a * c) * b,
{
}

/// The exact cross product is at right angles to both of its factors.
proof fn lemma_triple_vanishes(ax: int, ay: int, az: int, bx: int, by: int, bz: int)
    ensures
        (ay * bz - az * by) * ax + (az * bx - ax * bz) * ay + (ax * by - ay * bx) * az == 0,
        (ay * bz - az * by) * bx + (az * bx - ax * bz) * by + (ax * by - ay * bx) * bz == 0,
{
    lemma_difference_weighed(ay * bz, az * by, ax);
    lemma_difference_weighed(az * bx, ax * bz, ay);
    lemma_difference_weighed(ax * by, ay * bx, az);
    lemma_factors_swapped(ay, bz, ax);
    lemma_factors_swapped(az, by, ax);
    lemma_factors_swapped(az, bx, ay);
    lemma_difference_weighed(ay * bz, az * by, bx);
    lemma_difference_weighed(az * bx, ax * bz, by);
    lemma_difference_weighed(ax * by, ay * bx, bz);
    lemma_factors_swapped(ay, bz, bx);
    lemma_factors_swapped(az, by, bx);
    lemma_factors_swapped(ax, bz, by);
}

proof fn lemma_rounded_weighed(exact: int, rounded: int, w: int)
    by (nonlinear_arith)
    requires
        0 <= exact - rounded * 1_000_000 < 1_000_000,
        -1_000_000 <= w <= 1_000_000,
    ensures
        -1_000_000_000_000 <= exact * w - (rounded * w) * 1_000_000 <= 1_000_000_000_000,
{
}

/// The cross product of two vectors that are no longer than one is at right
/// angles to both, up to three times `ONE`.
pub proof fn lemma_cross_orthogonal(a: Vec3, b: Vec3)
    requires
        within(a, ONE as int),
        within(b, ONE as int),
    ensures
        within(a.cross(b), 2 * ONE),
        -3 * ONE <= a.cross(b).dot(a) <= 3 * ONE,
        -3 * ONE <= a.cross(b).dot(b) <= 3 * ONE,
{
    let c = a.cross(b);
    let (ex, ey, ez) = (a.y * b.z - a.z * b.y, a.z * b.x - a.x * b.z, a.x * b.y - a.y * b.x);
    lemma_cross_coordinate(a.y as int, b.z as int, a.z as int, b.y as int);
    lemma_cross_coordinate(a.z as int, b.x as int, a.x as int, b.z as int);
    lemma_cross_coordinate(a.x as int, b.y as int, a.y as int, b.x as int);
    lemma_triple_vanishes(
        a.x as int,
        a.y as int,
        a.z as int,
        b.x as int,
        b.y as int,
        b.z as int,
    );
    lemma_rounded_weighed(ex, c.x as int, a.x as int);
    lemma_rounded_weighed(ey, c.y as int, a.y as int);
    lemma_rounded_weighed(ez, c.z as int, a.z as int);
    lemma_rounded_weighed(ex, c.x as int, b.x as int);
    lemma_rounded_weighed(ey, c.y as int, b.y as int);
    lemma_rounded_weighed(ez, c.z as int, b.z as int);
    assert(ex * a.x + ey * a.y + ez * a.z == 0);
    assert(ex * b.x + ey * b.y + ez * b.z == 0);
    assert(-3_000_000_000_000 <= c.dot(a) * 1_000_000 <= 3_000_000_000_000);
    assert(-3_000_000_000_000 <= c.dot(b) * 1_000_000 <= 3_000_000_000_000);
}

proof fn lemma_square_of_difference(u: int, v: int)
    by (nonlinear_arith)
    ensures
        (u - v) * (u - v) == u * u - 2 * (u * v) + v * v,
{
}

proof fn lemma_square_of_sum(u: int, v: int, w: int)
    by (nonlinear_arith)
    ensures
        (u + v + w) * (u + v + w) == u * u + v * v + w * w + 2 * (u * v) + 2 * (u * w) + 2 * (v
            * w),
{
}

proof fn lemma_product_of_sums(x: int, y: int, z: int, u: int, v: int, w: int)
    by (nonlinear_arith)
    ensures
        (x + y + z) * (u + v + w) == x * u + x * v + x * w + y * u + y * v + y * w + z * u + z
            * v + z * w,
{
}

proof fn lemma_square_of_product(a: int, b: int)
    by (nonlinear_arith)
    ensures
        (a * a) * (b * b) == (a * b) * (a * b),
{
}

proof fn lemma_products_swapped(a: int, b: int, c: int, d: int)
    by (nonlinear_arith)
    ensures
        (a * b) * (c * d) == (a * d) * (c * b),
{
}

/// Lagrange's identity: the squared length of the exact cross product is the
/// product of the squared lengths less the square of the dot product.
proof fn lemma_lagrange(ax: int, ay: int, az: int, bx: int, by: int, bz: int)
    ensures
        (ay * bz - az * by) * (ay * bz - az * by) + (az * bx - ax * bz) * (az * bx - ax * bz) + (
        ax * by - ay * bx) * (ax * by - ay * bx) == (ax * ax + ay * ay + az * az) * (bx * bx
            + by * by + bz * bz) - (ax * bx + ay * by + az * bz) * (ax * bx + ay * by + az * bz),
{
    lemma_square_of_difference(ay * bz, az * by);
    lemma_square_of_difference(az * bx, ax * bz);
    lemma_square_of_difference(ax * by, ay * bx);
    lemma_square_of_sum(ax * bx, ay * by, az * bz);
    lemma_product_of_sums(ax * ax, ay * ay, az * az, bx * bx, by * by, bz * bz);
    lemma_square_of_product(ax, bx);
    lemma_square_of_product(ax, by);
    lemma_square_of_product(ax, bz);
    lemma_square_of_product(ay, bx);
    lemma_square_of_product(ay, by);
    lemma_square_of_product(ay, bz);
    lemma_square_of_product(az, bx);
    lemma_square_of_product(az, by);
    lemma_square_of_product(az, bz);
    lemma_products_swapped(ay, bz, az, by);
    lemma_products_swapped(az, bx, ax, bz);
    lemma_products_swapped(ax, by, ay, bx);
    assert((ay * by) * (az * bz) == (az * bz) * (ay * by)) by (nonlinear_arith);
    assert((az * bz) * (ax * bx) == (ax * bx) * (az * bz)) by (nonlinear_arith);
}

proof fn lemma_rounded_square(exact: int, rounded: int)
    by (nonlinear_arith)
    requires
        0 <= exact - rounded * 1_000_000 < 1_000_000,
        -2_000_000_000_000 <= exact <= 2_000_000_000_000,
    ensures
        (rounded * rounded) * 1_000_000_000_000 >= exact * exact - 4_000_000_000_000_000_000,
{
}

/// The cross product of two vectors that are no longer than one is about as
/// long as the parallelogram that they span is large: the square of its
/// length, times the square of `ONE`, falls short of the product of their
/// squared lengths less the square of their dot product by at most twelve
/// times the cube of `ONE`.
pub proof fn lemma_cross_length(a: Vec3, b: Vec3)
    requires
        within(a, ONE as int),
        within(b, ONE as int),
    ensures
        a.cross(b).norm_squared() * 1_000_000_000_000 >= a.norm_squared() * b.norm_squared()
            - a.dot(b) * a.dot(b) - 12_000_000_000_000_000_000,
{
    let c = a.cross(b);
    let (ex, ey, ez) = (a.y * b.z - a.z * b.y, a.z * b.x - a.x * b.z, a.x * b.y - a.y * b.x);
    lemma_cross_coordinate(a.y as int, b.z as int, a.z as int, b.y as int);
    lemma_cross_coordinate(a.z as int, b.x as int, a.x as int, b.z as int);
    lemma_cross_coordinate(a.x as int, b.y as int, a.y as int, b.x as int);
    lemma_rounded_square(ex, c.x as int);
    lemma_rounded_square(ey, c.y as int);
    lemma_rounded_square(ez, c.z as int);
    lemma_lagrange(a.x as int, a.y as int, a.z as int, b.x as int, b.y as int, b.z as int);
    lemma_distribute(1_000_000_000_000, c.x * c.x, c.y * c.y, c.z * c.z);
}

pub proof fn lemma_root_at_least(total: int, root: int, low: int)
    by (nonlinear_arith)
    requires
        is_int_sqrt(total, root),
        0 <= low,
        low * low <= total,
    ensures
        low <= root,
{
}

proof fn lemma_square_reaches(a: int, bound: int)
    by (nonlinear_arith)
    requires
        0 <= bound,
        a >= bound || a <= -bound,
    ensures
        a * a >= bound * bound,
{
}

proof fn lemma_stretched_square(a: int, k: int)
    by (nonlinear_arith)
    requires
        a != 0,
        k >= 0,
    ensures
        (a * k) * (a * k) >= k * k,
{
}

/// What magnifying does: it multiplies a short vector by `MAGNIFIER` and
/// leaves any other alone, and of a vector other than the origin it makes
/// one that is at least `MAGNIFIER` long.
pub proof fn lemma_magnified(v: Vec3)
    ensures
        ({
            let long = v.magnified();
            &&& v.short() ==> long.x == v.x * MAGNIFIER && long.y == v.y * MAGNIFIER && long.z
                == v.z * MAGNIFIER
            &&& !v.short() ==> long == v
            &&& long.norm_squared() >= 0
            &&& v.norm_squared() >= 1 ==> int_sqrt(long.norm_squared()) >= MAGNIFIER
            &&& v.norm_squared() < 1 ==> long == v && int_sqrt(long.norm_squared()) == 0
        }),
{
    let long = v.magnified();
    let m = MAGNIFIER as int;
    if v.short() {
        assert(-0x4000_0000_0000_0000 < v.x * m < 0x4000_0000_0000_0000 && -0x4000_0000_0000_0000
            < v.y * m < 0x4000_0000_0000_0000 && -0x4000_0000_0000_0000 < v.z * m
            < 0x4000_0000_0000_0000) by (nonlinear_arith)
            requires
                m == 0x8000_0000,
                -m < v.x < m,
                -m < v.y < m,
                -m < v.z < m,
        ;
    }
    assert(long.x * long.x >= 0 && long.y * long.y >= 0 && long.z * long.z >= 0)
        by (nonlinear_arith);
    assert(v.x * v.x >= 0 && v.y * v.y >= 0 && v.z * v.z >= 0) by (nonlinear_arith);
    let total = long.norm_squared();
    lemma_int_sqrt(total);
    if v.norm_squared() >= 1 {
        assert(v.x != 0 || v.y != 0 || v.z != 0) by {
            if v.x == 0 && v.y == 0 && v.z == 0 {
                assert(v.x * v.x == 0 && v.y * v.y == 0 && v.z * v.z == 0) by (nonlinear_arith)
                    requires
                        v.x == 0 && v.y == 0 && v.z == 0,
                ;
            }
        }
        if v.short() {
            if v.x != 0 {
                lemma_stretched_square(v.x as int, m);
            } else if v.y != 0 {
                lemma_stretched_square(v.y as int, m);
            } else {
                lemma_stretched_square(v.z as int, m);
            }
        } else {
            if v.x >= m || v.x <= -m {
                lemma_square_reaches(v.x as int, m);
            } else if v.y >= m || v.y <= -m {
                lemma_square_reaches(v.y as int, m);
            } else {
                lemma_square_reaches(v.z as int, m);
            }
        }
        assert(m * m <= total);
        lemma_root_at_least(total, int_sqrt(total), m);
    } else {
        assert(v.x == 0 && v.y == 0 && v.z == 0) by (nonlinear_arith)
            requires
                v.x * v.x + v.y * v.y + v.z * v.z < 1,
        ;
        assert(long == v);
        assert(is_int_sqrt(0, 0));
        crate::fixed::lemma_int_sqrt_unique(0, 0);
    }
}

/// Every coordinate of a normalized vector lies between `-ONE` and `ONE`.
pub proof fn lemma_normalized_bounded(v: Vec3)
    ensures
        within(v.normalized(), ONE as int),
{
    lemma_over_length_bounded(v.magnified());
}

/// A normalized vector has length one, as nearly as rounding allows: the
/// square of its length falls short of `ONE * ONE` by at most `6 * ONE + 3`
/// and exceeds it by at most `6 * ONE + 931`, whatever vector other than the
/// origin was normalized.
pub proof fn lemma_normalized_length(v: Vec3)
    requires
        v.norm_squared() >= 1,
    ensures
        ONE * ONE - 6 * ONE - 3 <= v.normalized().norm_squared() <= ONE * ONE + 6 * ONE + 931,
        nearly_unit(v.normalized()),
{
    lemma_magnified(v);
    let long = v.magnified();
    let length = int_sqrt(long.norm_squared());
    assert(long.norm_squared() >= 1) by {
        lemma_int_sqrt(long.norm_squared());
        assert(long.norm_squared() >= length * length >= 1) by (nonlinear_arith)
            requires
                length >= 1,
                length * length <= long.norm_squared(),
        ;
    }
    lemma_over_length_unit(long);
    let unit = v.normalized().norm_squared();
    assert(unit <= 1_000_000_000_000 + 6_000_000 + 931) by (nonlinear_arith)
        requires
            (unit - 1_000_000_000_000 - 6_000_000) * length <= 2_000_000_000_000,
            length >= 0x8000_0000,
    ;
}

proof fn lemma_stretched_dot(v: Vec3, long: Vec3, w: Vec3, k: int)
    requires
        long.x == v.x * k,
        long.y == v.y * k,
        long.z == v.z * k,
    ensures
        long.dot(w) == k * v.dot(w),
{
    assert((v.x * k) * w.x == k * (v.x * w.x)) by (nonlinear_arith);
    assert((v.y * k) * w.y == k * (v.y * w.y)) by (nonlinear_arith);
    assert((v.z * k) * w.z == k * (v.z * w.z)) by (nonlinear_arith);
    lemma_distribute(k, v.x * w.x, v.y * w.y, v.z * w.z);
}

/// Normalizing changes a small dot product little: where a short vector
/// about as long as one makes a dot product of at most `e` with a vector no
/// longer than one, the normalized vector makes one of at most `e` and a
/// four-hundredth of it and three times `ONE`.
pub proof fn lemma_normalized_dot_bound(v: Vec3, w: Vec3, e: int)
    requires
        v.short(),
        v.norm_squared() >= 998_000 * 998_000,
        0 <= e <= 10_000_000,
        -e <= v.dot(w) <= e,
        within(w, ONE as int),
    ensures
        -(e + e / 400 + 3 * ONE + 1) <= v.normalized().dot(w) <= e + e / 400 + 3 * ONE + 1,
{
    lemma_magnified(v);
    let long = v.magnified();
    let m = MAGNIFIER as int;
    let total = long.norm_squared();
    let length = int_sqrt(total);
    lemma_stretched_dot(v, long, w, m);
    lemma_scaled_square(v.x as int, m);
    lemma_scaled_square(v.y as int, m);
    lemma_scaled_square(v.z as int, m);
    lemma_distribute(m * m, v.x * v.x, v.y * v.y, v.z * v.z);
    assert(total == (m * m) * v.norm_squared());
    assert((998_000 * m) * (998_000 * m) <= total) by (nonlinear_arith)
        requires
            total == (m * m) * v.norm_squared(),
            v.norm_squared() >= 998_000 * 998_000,
            m > 0,
    ;
    lemma_int_sqrt(total);
    lemma_root_at_least(total, length, 998_000 * m);
    lemma_over_length_dot(long, w);
    let across = v.normalized().dot(w);
    let exact = v.dot(w);
    let part = e / 400;
    assert(-(e + part + 3_000_001) <= across <= e + part + 3_000_001) by (nonlinear_arith)
        requires
            -3_000_000 * length <= across * length - (m * exact) * 1_000_000 <= 3_000_000
                * length,
            length >= 998_000 * m,
            m > 0,
            -e <= exact <= e,
            0 <= e,
            400 * part <= e < 400 * part + 400,
    ;
}

/// Normalizing nearly keeps a near right angle: where a short vector about
/// as long as one makes a dot product of at most three times `ONE` with a
/// vector no longer than one, the normalized vector makes one of at most
/// `ANGLE_SLACK`.
pub proof fn lemma_normalized_near_right_angle(v: Vec3, w: Vec3)
    requires
        v.short(),
        v.norm_squared() >= 998_000 * 998_000,
        -3 * ONE <= v.dot(w) <= 3 * ONE,
        within(w, ONE as int),
    ensures
        nearly_orthogonal(v.normalized(), w),
{
    lemma_normalized_dot_bound(v, w, 3_000_000);
}

proof fn lemma_scaled_coordinate(a: int, r: int)
    requires
        -ONE <= a <= ONE,
        0 <= r,
    ensures
        ({
            let scaled = a * r / (ONE as int);
            &&& -r <= scaled <= r
            &&& -2_000_000_000_000 * r <= (scaled * scaled) * 1_000_000_000_000 - (a * a) * (r
                * r) <= 2_000_000_000_000 * r + 1_000_000_000_000
        }),
{
    let p = a * r;
    let scaled = p / 1_000_000;
    let rest = p % 1_000_000;
    assert(-1_000_000 * r <= p <= 1_000_000 * r) by (nonlinear_arith)
        requires
            p == a * r,
            -1_000_000 <= a <= 1_000_000,
            0 <= r,
    ;
    assert((scaled * 1_000_000) * (scaled * 1_000_000) == p * p - 2 * (p * rest) + rest * rest)
        by (nonlinear_arith)
        requires
            p == scaled * 1_000_000 + rest,
    ;
    assert((scaled * 1_000_000) * (scaled * 1_000_000) == (scaled * scaled) * 1_000_000_000_000)
        by (nonlinear_arith);
    assert(p * p == (a * a) * (r * r)) by (nonlinear_arith)
        requires
            p == a * r,
    ;
    assert(-1_000_000_000_000 * r <= p * rest <= 1_000_000_000_000 * r) by (nonlinear_arith)
        requires
            -1_000_000 * r <= p <= 1_000_000 * r,
            0 <= rest < 1_000_000,
            0 <= r,
    ;
    assert(0 <= rest * rest <= 1_000_000_000_000) by (nonlinear_arith)
        requires
            0 <= rest < 1_000_000,
    ;
}

/// Stretching a vector that is no longer than one by a factor that is not
/// negative stretches its length by that factor, as nearly as rounding
/// allows: the squared length, times the square of `ONE`, differs from the
/// product of the two squares by at most six times the factor and three,
/// times the square of `ONE`.
pub proof fn lemma_scaled_length(u: Vec3, r: i64)
    requires
        within(u, ONE as int),
        0 <= r,
    ensures
        ({
            let v = u.scaled(r);
            &&& within(v, r as int)
            &&& -6_000_000_000_000 * r <= v.norm_squared() * 1_000_000_000_000
                - u.norm_squared() * (r * r) <= 6_000_000_000_000 * r + 3_000_000_000_000
        }),
{
    let v = u.scaled(r);
    lemma_scaled_coordinate(u.x as int, r as int);
    lemma_scaled_coordinate(u.y as int, r as int);
    lemma_scaled_coordinate(u.z as int, r as int);
    lemma_distribute(1_000_000_000_000, v.x * v.x, v.y * v.y, v.z * v.z);
    lemma_distribute(r * r, u.x * u.x, u.y * u.y, u.z * u.z);
}

/// How far `v` lies inside the cone of thirty degrees about the `y` axis:
/// not negative just when `v` makes an angle of at most thirty degrees with
/// that axis, one way or the other.
pub open spec fn steepness(v: Vec3) -> int {
    v.y * v.y - 3 * (v.x * v.x + v.z * v.z)
}

proof fn lemma_floor_square(p: int, l: int, bound: int)
    requires
        l >= 1,
        -bound <= p <= bound,
    ensures
        ({
            let q = p / l;
            &&& (q * q) * (l * l) <= p * p + 2 * (bound * l) + l * l
            &&& p <= 0 ==> (q * q) * (l * l) >= p * p && q * l <= p
        }),
{
    let q = p / l;
    let rest = p % l;
    assert(p == q * l + rest && 0 <= rest < l) by (nonlinear_arith)
        requires
            q == p / l,
            rest == p % l,
            l >= 1,
    ;
    assert((q * q) * (l * l) == (q * l) * (q * l)) by (nonlinear_arith);
    assert((q * l) * (q * l) == p * p - 2 * (p * rest) + rest * rest) by (nonlinear_arith)
        requires
            p == q * l + rest,
    ;
    assert(-(bound * l) <= p * rest <= bound * l) by (nonlinear_arith)
        requires
            -bound <= p <= bound,
            0 <= rest < l,
    ;
    assert(rest * rest <= l * l) by (nonlinear_arith)
        requires
            0 <= rest < l,
    ;
    if p <= 0 {
        assert(p * rest <= 0) by (nonlinear_arith)
            requires
                p <= 0,
                0 <= rest,
        ;
        assert(rest * rest >= 0) by (nonlinear_arith);
    }
}

proof fn lemma_steep_share(steep: int, square: int, unit: int, gain: int, least: int, most: int)
    by (nonlinear_arith)
    requires
        0 < square <= most * unit,
        0 <= unit,
        steep * square >= gain * unit,
        0 <= least,
        least * most <= gain,
    ensures
        steep >= least,
{
}

/// Normalizing keeps a vector inside the cone: a vector no longer than one
/// that points at least as far down the `y` axis as the cone asks, with
/// room to spare, still lies inside the cone once it is normalized.
pub proof fn lemma_normalized_steep(b: Vec3)
    requires
        -ONE <= b.y <= -866_110,
        -500_000 <= b.x <= 500_000,
        -500_000 <= b.z <= 500_000,
        steepness(b) >= 530_000_000,
        b.norm_squared() <= ONE * ONE + 10_000_000,
    ensures
        b.normalized().y <= -800_000,
        steepness(b.normalized()) >= 520_000_000,
{
    let m = MAGNIFIER as int;
    let u = b.normalized();
    lemma_magnified(b);
    assert(b.short());
    assert(b.y * b.y >= 1) by (nonlinear_arith)
        requires
            b.y <= -1,
    ;
    assert(b.x * b.x >= 0 && b.z * b.z >= 0) by (nonlinear_arith);
    let long = b.magnified();
    let total = long.norm_squared();
    let l = int_sqrt(total);
    lemma_int_sqrt(total);
    lemma_scaled_square(b.x as int, m);
    lemma_scaled_square(b.y as int, m);
    lemma_scaled_square(b.z as int, m);
    lemma_distribute(m * m, b.x * b.x, b.y * b.y, b.z * b.z);
    assert(total == (m * m) * b.norm_squared());
    assert(total < (1_000_005 * m) * (1_000_005 * m)) by (nonlinear_arith)
        requires
            total == (m * m) * b.norm_squared(),
            b.norm_squared() <= 1_000_010_000_000,
            m > 0,
    ;
    lemma_root_under(total, l, 1_000_005 * m);
    assert(u.x == long.x * ONE / l && u.y == long.y * ONE / l && u.z == long.z * ONE / l) by {
        lemma_over_length_bounded(long);
        lemma_coordinates_within_length(long);
        lemma_quotient_error(long.x as int, l);
        lemma_quotient_error(long.y as int, l);
        lemma_quotient_error(long.z as int, l);
    }
    let (px, py, pz) = (long.x * ONE, long.y * ONE, long.z * ONE);
    let side = 500_000_000_000 * m;
    assert(-side <= px <= side && -side <= pz <= side && -(2 * side) <= py <= -866_110_000_000
        * m) by (nonlinear_arith)
        requires
            px == (b.x * m) * 1_000_000,
            py == (b.y * m) * 1_000_000,
            pz == (b.z * m) * 1_000_000,
            side == 500_000_000_000 * m,
            m > 0,
            -1_000_000 <= b.y <= -866_110,
            -500_000 <= b.x <= 500_000,
            -500_000 <= b.z <= 500_000,
    ;
    lemma_floor_square(px, l, side);
    lemma_floor_square(py, l, 2 * side);
    lemma_floor_square(pz, l, side);
    // The rise.
    assert(u.y <= -800_000) by (nonlinear_arith)
        requires
            u.y * l <= py,
            py <= -866_110_000_000 * m,
            1 <= l < 1_000_005 * m,
            m > 0,
    ;
    // The cone.
    let square = l * l;
    let unit = m * m;
    lemma_scaled_square(b.x * m, 1_000_000);
    lemma_scaled_square(b.y * m, 1_000_000);
    lemma_scaled_square(b.z * m, 1_000_000);
    assert(py * py - 3 * (px * px + pz * pz) == 1_000_000_000_000 * (unit * steepness(b)))
        by (nonlinear_arith)
        requires
            px * px == 1_000_000_000_000 * ((b.x * m) * (b.x * m)),
            py * py == 1_000_000_000_000 * ((b.y * m) * (b.y * m)),
            pz * pz == 1_000_000_000_000 * ((b.z * m) * (b.z * m)),
            (b.x * m) * (b.x * m) == unit * (b.x * b.x),
            (b.y * m) * (b.y * m) == unit * (b.y * b.y),
            (b.z * m) * (b.z * m) == unit * (b.z * b.z),
            steepness(b) == b.y * b.y - 3 * (b.x * b.x + b.z * b.z),
    ;
    assert(unit * steepness(b) >= 530_000_000 * unit) by (nonlinear_arith)
        requires
            steepness(b) >= 530_000_000,
            unit >= 0,
    ;
    assert(side * l <= 500_002_500_000_000_000 * unit && square <= 1_000_010_000_025
        * unit && square > 0) by (nonlinear_arith)
        requires
            side == 500_000_000_000 * m,
            1 <= l < 1_000_005 * m,
            unit == m * m,
            square == l * l,
            m > 0,
    ;
    let steep = steepness(u);
    assert(steep * square == (u.y * u.y) * square - 3 * ((u.x * u.x) * square + (u.z * u.z)
        * square)) by (nonlinear_arith)
        requires
            steep == u.y * u.y - 3 * (u.x * u.x + u.z * u.z),
    ;
    assert(steep * square >= 523_000_000_000_000_000_000 * unit);
    lemma_steep_share(
        steep,
        square,
        unit,
        523_000_000_000_000_000_000,
        520_000_000,
        1_000_010_000_025,
    );
}

pub proof fn lemma_root_under(total: int, root: int, bound: int)
    by (nonlinear_arith)
    requires
        is_int_sqrt(total, root),
        0 <= bound,
        total < bound * bound,
    ensures
        root < bound,
{
}

/// Stretching keeps a vector inside the cone: a vector no longer than one
/// that lies inside the cone with room to spare and points down the `y`
/// axis still does both once it is stretched by a factor of twelve or more.
pub proof fn lemma_scaled_steep(u: Vec3, r: i64)
    requires
        within(u, ONE as int),
        u.y <= -800_000,
        steepness(u) >= 520_000_000,
        12_000_000 <= r <= 24_000_000,
    ensures
        u.scaled(r).y <= -9_600_000,
        steepness(u.scaled(r)) >= 0,
{
    let v = u.scaled(r);
    let (px, py, pz) = (u.x * r, u.y * r, u.z * r);
    let side = 1_000_000 * r;
    assert(-side <= px <= side && -side <= pz <= side && -side <= py <= -800_000 * r)
        by (nonlinear_arith)
        requires
            px == u.x * r,
            py == u.y * r,
            pz == u.z * r,
            side == 1_000_000 * r,
            r > 0,
            -1_000_000 <= u.x <= 1_000_000,
            -1_000_000 <= u.y <= -800_000,
            -1_000_000 <= u.z <= 1_000_000,
    ;
    lemma_floor_square(px, 1_000_000, side);
    lemma_floor_square(py, 1_000_000, side);
    lemma_floor_square(pz, 1_000_000, side);
    lemma_scaled_length(u, r);
    assert(v.x == px / 1_000_000 && v.y == py / 1_000_000 && v.z == pz / 1_000_000);
    lemma_scaled_square(u.x as int, r as int);
    lemma_scaled_square(u.y as int, r as int);
    lemma_scaled_square(u.z as int, r as int);
    let gain = r * r;
    assert(py * py - 3 * (px * px + pz * pz) == gain * steepness(u)) by (nonlinear_arith)
        requires
            px * px == gain * (u.x * u.x),
            py * py == gain * (u.y * u.y),
            pz * pz == gain * (u.z * u.z),
            steepness(u) == u.y * u.y - 3 * (u.x * u.x + u.z * u.z),
    ;
    assert(gain * steepness(u) >= 6_240_000_000_000_000 * r) by (nonlinear_arith)
        requires
            gain == r * r,
            r >= 12_000_000,
            steepness(u) >= 520_000_000,
    ;
    let steep = steepness(v);
    assert(steep * 1_000_000_000_000 == (v.y * v.y) * 1_000_000_000_000 - 3 * ((v.x * v.x)
        * 1_000_000_000_000 + (v.z * v.z) * 1_000_000_000_000)) by (nonlinear_arith)
        requires
            steep == v.y * v.y - 3 * (v.x * v.x + v.z * v.z),
    ;
    let (qx, qy, qz) = (px / 1_000_000, py / 1_000_000, pz / 1_000_000);
    assert((qy * qy) * 1_000_000_000_000 >= py * py);
    assert((qx * qx) * 1_000_000_000_000 <= px * px + 2 * (side * 1_000_000)
        + 1_000_000_000_000);
    assert((qz * qz) * 1_000_000_000_000 <= pz * pz + 2 * (side * 1_000_000)
        + 1_000_000_000_000);
    assert(steep * 1_000_000_000_000 >= gain * steepness(u) - 12_000_000 * side
        - 6_000_000_000_000);
    assert(steep * 1_000_000_000_000 >= 0);
}

proof fn lemma_steady_value(t: int, length: int, m: int)
    by (nonlinear_arith)
    requires
        m > 0,
        m * 999_991 <= length < m * 1_000_009,
        -1_000_000 <= t <= 1_000_000,
    ensures
        t - 10 <= (t * m) * 1_000_000 / length <= t + 10,
        t > 10 ==> (t * m) * 1_000_000 / length > 0,
        t < 0 ==> (t * m) * 1_000_000 / length < 0,
{
}

/// Normalizing a vector that is about as long as one moves each of its
/// coordinates by at most ten, and takes none that is larger than ten or
/// below zero across zero.
pub proof fn lemma_normalized_steady(v: Vec3)
    requires
        within(v, ONE as int),
        ONE * ONE - 17_000_000 <= v.norm_squared() <= ONE * ONE + 17_000_000,
    ensures
        ({
            let n = v.normalized();
            &&& v.x - 10 <= n.x <= v.x + 10
            &&& v.y - 10 <= n.y <= v.y + 10
            &&& v.z - 10 <= n.z <= v.z + 10
            &&& v.y > 10 ==> n.y > 0
            &&& v.y < 0 ==> n.y < 0
        }),
{
    let m = MAGNIFIER as int;
    lemma_magnified(v);
    lemma_normalized_bounded(v);
    let long = v.magnified();
    let total = long.norm_squared();
    let length = int_sqrt(total);
    lemma_int_sqrt(total);
    lemma_scaled_square(v.x as int, m);
    lemma_scaled_square(v.y as int, m);
    lemma_scaled_square(v.z as int, m);
    lemma_distribute(m * m, v.x * v.x, v.y * v.y, v.z * v.z);
    let n = v.norm_squared();
    assert((m * 999_991) * (m * 999_991) <= total && total < (m * 1_000_009) * (m * 1_000_009))
        by (nonlinear_arith)
        requires
            total == (m * m) * n,
            999_983_000_000 <= n <= 1_000_017_000_000,
            m > 0,
    ;
    lemma_root_at_least(total, length, m * 999_991);
    lemma_root_under(total, length, m * 1_000_009);
    lemma_steady_value(v.x as int, length, m);
    lemma_steady_value(v.y as int, length, m);
    lemma_steady_value(v.z as int, length, m);
}

/// A vector that points straight down the `y` axis normalizes to the one
/// of length one that does.
pub proof fn lemma_normalized_axis(v: Vec3)
    requires
        v.x == 0,
        v.z == 0,
        v.y < 0,
    ensures
        v.normalized() == (Vec3 { x: 0, y: (-ONE) as i64, z: 0 }),
{
    lemma_magnified(v);
    let long = v.magnified();
    let total = long.norm_squared();
    assert(long.x == 0 && long.z == 0 && long.y < 0) by (nonlinear_arith)
        requires
            v.x == 0,
            v.z == 0,
            v.y < 0,
            (long.x == v.x * 0x8000_0000 && long.y == v.y * 0x8000_0000 && long.z == v.z
                * 0x8000_0000) || long == v,
    ;
    let size = -long.y;
    assert(total == size * size && is_int_sqrt(total, size)) by (nonlinear_arith)
        requires
            total == long.x * long.x + long.y * long.y + long.z * long.z,
            long.x == 0,
            long.z == 0,
            size == -long.y,
            size > 0,
    ;
    crate::fixed::lemma_int_sqrt_unique(total, size);
    assert(long.y * ONE / size == -ONE && 0 * ONE / size == 0) by (nonlinear_arith)
        requires
            size == -long.y,
            size > 0,
    ;
}

/// Normalizing keeps a vector that points down the `y` axis pointing down.
pub proof fn lemma_normalized_keeps_down(v: Vec3)
    requires
        v.y < 0,
    ensures
        v.normalized().y < 0,
{
    lemma_magnified(v);
    lemma_normalized_bounded(v);
    assert(v.y * v.y >= 1) by (nonlinear_arith)
        requires
            v.y < 0,
    ;
    assert(v.x * v.x >= 0 && v.z * v.z >= 0) by (nonlinear_arith);
    let long = v.magnified();
    let length = int_sqrt(long.norm_squared());
    assert(long.y < 0) by (nonlinear_arith)
        requires
            long.y == v.y * 0x8000_0000 || long.y == v.y,
            v.y < 0,
    ;
    assert(long.y * ONE / length < 0) by (nonlinear_arith)
        requires
            long.y < 0,
            length >= 1,
    ;
}

} // verus!
