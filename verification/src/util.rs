//! Helpers shared by the camera and the cubes.

use crate::fixed::{fixed_mul, product, saturate, ONE};
use crate::geometry::{nearly_unit, within};
use crate::trig::{
    cosine, lemma_sine_or_cosine_large, lemma_sine_range, lemma_unit_circle, sin_cos, sine,
};
use crate::vec3::Vec3;
use vstd::prelude::*;
use vstd::utf8::{decode_utf8, valid_utf8};

verus! {

/// The direction with elevation `theta` and heading `phi` as sine and
/// cosine give it, before its length is set right.
pub open spec fn bearing(theta: i64, phi: i64) -> Vec3 {
    Vec3 {
        x: saturate(product(cosine(phi as int), cosine(theta as int))),
        y: saturate(sine(theta as int)),
        z: saturate(product(sine(phi as int), cosine(theta as int))),
    }
}

proof fn lemma_level_reaches(turn: int, level: int)
    by (nonlinear_arith)
    requires
        turn >= 707_000 || turn <= -707_000,
        level >= 999_996 || level <= -999_996,
    ensures
        turn * level / 1_000_000 != 0,
{
}

/// Whatever the angles, the bearing is no longer than one in any coordinate
/// and is not the origin.
pub proof fn lemma_bearing(theta: i64, phi: i64)
    ensures
        within(bearing(theta, phi), ONE as int),
        bearing(theta, phi).norm_squared() >= 1,
{
    let b = bearing(theta, phi);
    let (rise, level) = (sine(theta as int), cosine(theta as int));
    let (along, across) = (cosine(phi as int), sine(phi as int));
    lemma_sine_range(theta as int);
    lemma_sine_range(phi as int);
    assert(-1_000_000 <= along * level / 1_000_000 <= 1_000_000) by (nonlinear_arith)
        requires
            -1_000_000 <= along <= 1_000_000,
            -1_000_000 <= level <= 1_000_000,
    ;
    assert(-1_000_000 <= across * level / 1_000_000 <= 1_000_000) by (nonlinear_arith)
        requires
            -1_000_000 <= across <= 1_000_000,
            -1_000_000 <= level <= 1_000_000,
    ;
    assert(b.x * b.x >= 0 && b.y * b.y >= 0 && b.z * b.z >= 0) by (nonlinear_arith);
    if rise != 0 {
        assert(b.y * b.y >= 1) by (nonlinear_arith)
            requires
                b.y != 0,
        ;
    } else {
        lemma_unit_circle(theta as int);
        assert(level >= 999_996 || level <= -999_996) by (nonlinear_arith)
            requires
                0 * 0 + level * level - 1_000_000_000_000 >= -6_000_003,
        ;
        lemma_sine_or_cosine_large(phi as int);
        if along >= 707_000 || along <= -707_000 {
            lemma_level_reaches(along, level);
            assert(b.x * b.x >= 1) by (nonlinear_arith)
                requires
                    b.x != 0,
            ;
        } else {
            lemma_level_reaches(across, level);
            assert(b.z * b.z >= 1) by (nonlinear_arith)
                requires
                    b.z != 0,
            ;
        }
    }
}

pub open spec fn spec_sphere(theta: i64, phi: i64) -> Vec3 {
    bearing(theta, phi).normalized()
}

/// The direction with elevation `theta` and heading `phi`, both in hundredths
/// of a degree, as a vector of length one up to `LENGTH_SLACK`. At elevation
/// zero it lies in the horizontal plane; heading zero points along `x`.
#[verifier::when_used_as_spec(spec_sphere)]
pub fn sphere(theta: i64, phi: i64) -> (r: Vec3)
    ensures
        r == spec_sphere(theta, phi),
        within(r, ONE as int),
        nearly_unit(r),
{
    proof {
        lemma_bearing(theta, phi);
    }
    let (rise, level) = sin_cos(theta);
    let (across, along) = sin_cos(phi);
    let raw = Vec3 { x: fixed_mul(along, level), y: rise, z: fixed_mul(across, level) };
    raw.normalized()
}

/// The number of the first of the named drivers that is called `opengl`,
/// where that number fits the result.
pub fn find_sdl_gl_driver(names: &Vec<String>) -> (r: Option<u32>)
    ensures
        match r {
            Some(index) => {
                &&& index < names.len()
                &&& names[index as int]@ == "opengl"@
                &&& forall|j: int| 0 <= j < index ==> names[j]@ != "opengl"@
            },
            None => forall|j: int|
                0 <= j < names.len() && j <= u32::MAX ==> names[j]@ != "opengl"@,
        },
{
    let wanted: String = "opengl".to_owned();
    let mut i: u32 = 0;
    loop
        invariant
            wanted@ == "opengl"@,
            forall|j: int| 0 <= j < i && j < names.len() ==> names[j]@ != "opengl"@,
        ensures
            forall|j: int| 0 <= j < names.len() && j <= u32::MAX ==> names[j]@ != "opengl"@,
        decreases u32::MAX - i,
    {
        if i as usize >= names.len() {
            break ;
        }
        if names[i as usize] == wanted {
            return Some(i);
        }
        if i == u32::MAX {
            break ;
        }
        i += 1;
    }
    None
}

/// Why a buffer does not hold a text that ends with a zero byte.
#[derive(Clone, Copy, Debug, PartialEq, Eq, Structural)]
pub enum LogError {
    /// The byte at `position`, before the end, is zero.
    InteriorNul { position: usize },
    /// The last byte is not zero.
    NotNulTerminated,
    /// The bytes before the closing zero are not UTF-8.
    InvalidUtf8,
}

/// Reads bytes as a text with `String::from_utf8`, which gives the text
/// just when the bytes are valid UTF-8; the text is then the one that these
/// bytes encode. The contract says so in vstd's terms for UTF-8; none of it
/// is proved.
#[verifier::external_body]
fn text_of(bytes: Vec<u8>) -> (r: Option<String>)
    ensures
        r is Some <==> valid_utf8(bytes@),
        r matches Some(text) ==> text@ == decode_utf8(bytes@),
{
    String::from_utf8(bytes).ok()
}

/// Looks for the first zero byte among the first `count` bytes.
pub fn find_nul(bytes: &[u8], count: usize) -> (r: Option<usize>)
    requires
        count <= bytes.len(),
    ensures
        match r {
            Some(i) => i < count && bytes[i as int] == 0 && forall|j: int|
                0 <= j < i ==> bytes[j] != 0,
            None => forall|j: int| 0 <= j < count ==> bytes[j] != 0,
        },
{
    let mut i: usize = 0;
    while i < count
        invariant
            i <= count <= bytes.len(),
            forall|j: int| 0 <= j < i ==> bytes[j] != 0,
        decreases count - i,
    {
        if bytes[i] == 0 {
            return Some(i);
        }
        i += 1;
    }
    None
}

/// The text that a driver has written into `buf`, of which it says that it
/// is `length` bytes long and followed by a zero byte: the first `length`
/// bytes read as UTF-8, if none of them is zero and the one after them is.
pub fn get_log(buf: &[u8], length: usize) -> (r: Result<String, LogError>)
    requires
        length < buf.len(),
    ensures
        match r {
            Ok(text) => {
                &&& forall|j: int| 0 <= j < length ==> buf[j] != 0
                &&& buf[length as int] == 0
                &&& valid_utf8(buf@.subrange(0, length as int))
                &&& text@ == decode_utf8(buf@.subrange(0, length as int))
            },
            Err(LogError::InteriorNul { position }) => {
                &&& position < length
                &&& buf[position as int] == 0
                &&& forall|j: int| 0 <= j < position ==> buf[j] != 0
            },
            Err(LogError::NotNulTerminated) => forall|j: int| 0 <= j <= length ==> buf[j] != 0,
            Err(LogError::InvalidUtf8) => {
                &&& forall|j: int| 0 <= j < length ==> buf[j] != 0
                &&& buf[length as int] == 0
                &&& !valid_utf8(buf@.subrange(0, length as int))
            },
        },
{
    match find_nul(buf, length + 1) {
        None => Err(LogError::NotNulTerminated),
        Some(position) => {
            if position < length {
                Err(LogError::InteriorNul { position })
            } else {
                let mut bytes: Vec<u8> = Vec::new();
                let mut i: usize = 0;
                while i < length
                    invariant
                        i <= length < buf.len(),
                        bytes@ == buf@.subrange(0, i as int),
                    decreases length - i,
                {
                    bytes.push(buf[i]);
                    assert(bytes@ =~= buf@.subrange(0, i + 1));
                    i += 1;
                }
                match text_of(bytes) {
                    Some(text) => Ok(text),
                    None => Err(LogError::InvalidUtf8),
                }
            }
        },
    }
}

} // verus!
