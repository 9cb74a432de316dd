//! The layout of the cube mesh and the two ways in which it is drawn.
//!
//! A mesh is a run of numbers, six to a corner: three for the place of the
//! corner and three for the normal there. A mesh drawn with lighting hands
//! both to its shader, a light marker only the places.

use std::marker::PhantomData;
use vstd::prelude::*;

verus! {

/// How many numbers describe one corner of a mesh.
pub const FLOATS_PER_VERTEX: usize = 6;

/// The size in bytes of one number of a mesh.
pub const FLOAT_SIZE: usize = 4;

/// Marks a mesh that is drawn with lighting.
#[derive(Debug)]
pub struct Lighting;

/// Marks a mesh that is drawn as a light marker.
#[derive(Debug)]
pub struct LightCube;

/// One vertex attribute: where the shader finds it in the mesh.
#[derive(Clone, Copy, Debug, PartialEq, Eq, Structural)]
pub struct Attribute {
    /// The number under which the shader knows the attribute.
    pub index: u32,
    /// How many numbers make up the attribute.
    pub components: usize,
    /// The distance in bytes from one corner to the next.
    pub stride: usize,
    /// The distance in bytes from the start of a corner to the attribute.
    pub offset: usize,
}

/// A request to draw `count` corners as triangles, starting with `first`.
#[derive(Clone, Copy, Debug, PartialEq, Eq, Structural)]
pub struct DrawCall {
    pub vao: u32,
    pub first: usize,
    pub count: usize,
}

/// A mesh that has been handed to the graphics card.
#[derive(Debug)]
pub struct Graphics<T> {
    pub vbo: u32,
    pub vao: u32,
    pub vertex_count: usize,
    pub _t: PhantomData<T>,
}

/// The place of a corner: the first three numbers.
pub open spec fn position_attribute() -> Attribute {
    Attribute { index: 0, components: 3, stride: 24, offset: 0 }
}

/// The normal at a corner: the last three numbers.
pub open spec fn normal_attribute() -> Attribute {
    Attribute { index: 1, components: 3, stride: 24, offset: 12 }
}

impl<T> Graphics<T> {
    /// The request that draws the whole mesh.
    pub fn draw(&self) -> (call: DrawCall)
        ensures
            call == (DrawCall { vao: self.vao, first: 0, count: self.vertex_count }),
    {
        DrawCall { vao: self.vao, first: 0, count: self.vertex_count }
    }
}

impl Graphics<Lighting> {
    /// Records a mesh of `floats` numbers that lies in the buffer `vbo` and
    /// is described by the vertex array `vao`.
    pub fn new(vbo: u32, vao: u32, floats: usize) -> (r: Self)
        ensures
            r.vbo == vbo,
            r.vao == vao,
            r.vertex_count == floats / FLOATS_PER_VERTEX,
    {
        Graphics { vbo, vao, vertex_count: floats / FLOATS_PER_VERTEX, _t: PhantomData }
    }

    /// The attributes bound for a lit mesh: places and normals.
    pub fn attributes() -> (r: Vec<Attribute>)
        ensures
            r@ == seq![position_attribute(), normal_attribute()],
    {
        let mut r: Vec<Attribute> = Vec::new();
        r.push(
            Attribute {
                index: 0,
                components: 3,
                stride: FLOATS_PER_VERTEX * FLOAT_SIZE,
                offset: 0,
            },
        );
        r.push(
            Attribute {
                index: 1,
                components: 3,
                stride: FLOATS_PER_VERTEX * FLOAT_SIZE,
                offset: 3 * FLOAT_SIZE,
            },
        );
        assert(r@ =~= seq![position_attribute(), normal_attribute()]);
        r
    }
}

impl Graphics<LightCube> {
    /// Records a mesh of `floats` numbers that lies in the buffer `vbo` and
    /// is described by the vertex array `vao`.
    pub fn new(vbo: u32, vao: u32, floats: usize) -> (r: Self)
        ensures
            r.vbo == vbo,
            r.vao == vao,
            r.vertex_count == floats / FLOATS_PER_VERTEX,
    {
        Graphics { vbo, vao, vertex_count: floats / FLOATS_PER_VERTEX, _t: PhantomData }
    }

    /// The attributes bound for a light marker: places only.
    pub fn attributes() -> (r: Vec<Attribute>)
        ensures
            r@ == seq![position_attribute()],
    {
        let mut r: Vec<Attribute> = Vec::new();
        r.push(
            Attribute {
                index: 0,
                components: 3,
                stride: FLOATS_PER_VERTEX * FLOAT_SIZE,
                offset: 0,
            },
        );
        assert(r@ =~= seq![position_attribute()]);
        r
    }
}

} // verus!
