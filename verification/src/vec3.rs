//! Three-component vectors of fixed-point numbers.

use crate::fixed::{
    fixed_div, fixed_mul, floor_div, int_sqrt, isqrt, lemma_product_range, narrow, product,
    quotient, sat_add, sat_sub, saturate, ONE,
};
use crate::geometry::{lemma_normalized_bounded, lemma_normalized_length, nearly_unit, within};
use vstd::prelude::*;

verus! {

/// A vector of which no coordinate reaches this, either way, is stretched by
/// it before it is normalized.
pub const MAGNIFIER: i64 = 0x8000_0000;

/// A point or a direction in space; each coordinate counts millionths.
#[derive(Clone, Copy, Debug, PartialEq, Eq, Structural)]
pub struct Vec3 {
    pub x: i64,
    pub y: i64,
    pub z: i64,
}

/// One coordinate of a cross product: `a * d - b * c`, as a fixed-point number.
pub open spec fn cross_term(a: int, d: int, b: int, c: int) -> i64 {
    saturate((a * d - b * c) / (ONE as int))
}

fn cross_component(a: i64, d: i64, b: i64, c: i64) -> (r: i64)
    ensures
        r == cross_term(a as int, d as int, b as int, c as int),
{
    proof {
        lemma_product_range(a as int, d as int);
        lemma_product_range(b as int, c as int);
    }
    let p: i128 = (a as i128) * (d as i128);
    let q: i128 = (b as i128) * (c as i128);
    narrow(floor_div(p - q, ONE as i128))
}

fn square(a: i64) -> (r: u128)
    ensures
        r == a * a,
        r <= 0x4000_0000_0000_0000_0000_0000_0000_0000,
{
    proof {
        lemma_product_range(a as int, a as int);
        assert(a * a >= 0) by (nonlinear_arith);
    }
    let p: i128 = (a as i128) * (a as i128);
    p as u128
}

fn normalized_component(a: i64, length: u64) -> (r: i64)
    requires
        length > 0,
    ensures
        r == saturate(quotient(a as int, length as int)),
{
    proof {
        lemma_product_range(a as int, ONE as int);
    }
    narrow(floor_div((a as i128) * (ONE as i128), length as i128))
}

impl Vec3 {
    /// The vector with the given coordinates.
    pub fn new(x: i64, y: i64, z: i64) -> (r: Vec3)
        ensures
            r == (Vec3 { x, y, z }),
    {
        Vec3 { x, y, z }
    }

    /// The origin.
    pub fn zero() -> (r: Vec3)
        ensures
            r == (Vec3 { x: 0, y: 0, z: 0 }),
    {
        Vec3 { x: 0, y: 0, z: 0 }
    }

    /// The vector whose three coordinates are all `v`.
    pub fn splat(v: i64) -> (r: Vec3)
        ensures
            r == (Vec3 { x: v, y: v, z: v }),
    {
        Vec3 { x: v, y: v, z: v }
    }

    pub open spec fn spec_plus(self, other: Vec3) -> Vec3 {
        Vec3 {
            x: saturate(self.x + other.x),
            y: saturate(self.y + other.y),
            z: saturate(self.z + other.z),
        }
    }

    /// The sum of two vectors.
    #[verifier::when_used_as_spec(spec_plus)]
    pub fn plus(self, other: Vec3) -> (r: Vec3)
        ensures
            r == self.spec_plus(other),
    {
        Vec3 {
            x: sat_add(self.x, other.x),
            y: sat_add(self.y, other.y),
            z: sat_add(self.z, other.z),
        }
    }

    pub open spec fn spec_minus(self, other: Vec3) -> Vec3 {
        Vec3 {
            x: saturate(self.x - other.x),
            y: saturate(self.y - other.y),
            z: saturate(self.z - other.z),
        }
    }

    /// The difference of two vectors.
    #[verifier::when_used_as_spec(spec_minus)]
    pub fn minus(self, other: Vec3) -> (r: Vec3)
        ensures
            r == self.spec_minus(other),
    {
        Vec3 {
            x: sat_sub(self.x, other.x),
            y: sat_sub(self.y, other.y),
            z: sat_sub(self.z, other.z),
        }
    }

    pub open spec fn spec_scaled(self, k: i64) -> Vec3 {
        Vec3 {
            x: saturate(product(self.x as int, k as int)),
            y: saturate(product(self.y as int, k as int)),
            z: saturate(product(self.z as int, k as int)),
        }
    }

    /// The vector stretched by the fixed-point factor `k`.
    #[verifier::when_used_as_spec(spec_scaled)]
    pub fn scaled(self, k: i64) -> (r: Vec3)
        ensures
            r == self.spec_scaled(k),
    {
        Vec3 { x: fixed_mul(self.x, k), y: fixed_mul(self.y, k), z: fixed_mul(self.z, k) }
    }

    pub open spec fn spec_divided(self, k: i64) -> Vec3 {
        Vec3 {
            x: saturate(quotient(self.x as int, k as int)),
            y: saturate(quotient(self.y as int, k as int)),
            z: saturate(quotient(self.z as int, k as int)),
        }
    }

    /// The vector shrunk by the fixed-point divisor `k`; the origin where `k` is zero.
    #[verifier::when_used_as_spec(spec_divided)]
    pub fn divided(self, k: i64) -> (r: Vec3)
        ensures
            r == self.spec_divided(k),
    {
        Vec3 { x: fixed_div(self.x, k), y: fixed_div(self.y, k), z: fixed_div(self.z, k) }
    }

    pub open spec fn spec_cross(self, other: Vec3) -> Vec3 {
        Vec3 {
            x: cross_term(self.y as int, other.z as int, self.z as int, other.y as int),
            y: cross_term(self.z as int, other.x as int, self.x as int, other.z as int),
            z: cross_term(self.x as int, other.y as int, self.y as int, other.x as int),
        }
    }

    /// The cross product `self x other`.
    #[verifier::when_used_as_spec(spec_cross)]
    pub fn cross(self, other: Vec3) -> (r: Vec3)
        ensures
            r == self.spec_cross(other),
    {
        Vec3 {
            x: cross_component(self.y, other.z, self.z, other.y),
            y: cross_component(self.z, other.x, self.x, other.z),
            z: cross_component(self.x, other.y, self.y, other.x),
        }
    }

    /// The exact dot product, in millionths of millionths.
    pub open spec fn dot(self, other: Vec3) -> int {
        self.x * other.x + self.y * other.y + self.z * other.z
    }

    /// The exact square of the length, in millionths of millionths.
    pub open spec fn norm_squared(self) -> int {
        self.x * self.x + self.y * self.y + self.z * self.z
    }

    fn sum_of_squares(self) -> (r: u128)
        ensures
            r == self.norm_squared(),
    {
        square(self.x) + square(self.y) + square(self.z)
    }

    pub open spec fn spec_length(self) -> i64 {
        saturate(int_sqrt(self.norm_squared()))
    }

    /// The length of the vector, rounded down.
    #[verifier::when_used_as_spec(spec_length)]
    pub fn length(self) -> (r: i64)
        ensures
            r == self.spec_length(),
    {
        let root: u64 = isqrt(self.sum_of_squares());
        narrow(root as i128)
    }

    /// No coordinate reaches `MAGNIFIER`, either way.
    pub open spec fn short(self) -> bool {
        &&& -MAGNIFIER < self.x < MAGNIFIER
        &&& -MAGNIFIER < self.y < MAGNIFIER
        &&& -MAGNIFIER < self.z < MAGNIFIER
    }

    pub open spec fn spec_magnified(self) -> Vec3 {
        if self.short() {
            Vec3 {
                x: (self.x * MAGNIFIER) as i64,
                y: (self.y * MAGNIFIER) as i64,
                z: (self.z * MAGNIFIER) as i64,
            }
        } else {
            self
        }
    }

    /// A vector that points the same way and is long enough for its length
    /// to be rounded without loss: a short vector is stretched by
    /// `MAGNIFIER`, any other is left as it is.
    #[verifier::when_used_as_spec(spec_magnified)]
    pub fn magnified(self) -> (r: Vec3)
        ensures
            r == self.spec_magnified(),
    {
        if -MAGNIFIER < self.x && self.x < MAGNIFIER && -MAGNIFIER < self.y && self.y < MAGNIFIER
            && -MAGNIFIER < self.z && self.z < MAGNIFIER {
            Vec3 { x: self.x * MAGNIFIER, y: self.y * MAGNIFIER, z: self.z * MAGNIFIER }
        } else {
            self
        }
    }

    /// Each coordinate divided by the rounded length of the vector; the
    /// origin stays the origin.
    pub open spec fn over_length(self) -> Vec3 {
        let length = int_sqrt(self.norm_squared());
        if length == 0 {
            self
        } else {
            Vec3 {
                x: saturate(quotient(self.x as int, length)),
                y: saturate(quotient(self.y as int, length)),
                z: saturate(quotient(self.z as int, length)),
            }
        }
    }

    pub open spec fn spec_normalized(self) -> Vec3 {
        self.magnified().over_length()
    }

    /// The vector of length one that points the same way, each coordinate
    /// rounded down; the origin stays the origin. Of any other vector the
    /// result is of length one up to `LENGTH_SLACK`, however short or long
    /// the vector is.
    #[verifier::when_used_as_spec(spec_normalized)]
    pub fn normalized(self) -> (r: Vec3)
        ensures
            r == self.spec_normalized(),
            within(r, ONE as int),
            self.norm_squared() >= 1 ==> nearly_unit(r),
    {
        proof {
            lemma_normalized_bounded(self);
            if self.norm_squared() >= 1 {
                lemma_normalized_length(self);
            }
        }
        let long = self.magnified();
        let root: u64 = isqrt(long.sum_of_squares());
        if root == 0 {
            long
        } else {
            Vec3 {
                x: normalized_component(long.x, root),
                y: normalized_component(long.y, root),
                z: normalized_component(long.z, root),
            }
        }
    }
}

} // verus!
