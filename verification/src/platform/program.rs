//! The types of shader data and the source of a shader program.

use vstd::prelude::*;

verus! {

/// The type of a value that a shader takes.
#[derive(Clone, Copy, Debug)]
pub enum ShaderDataType {
    Uint1,
    Uint2,
    Uint3,
    Uint4,
    Int1,
    Int2,
    Int3,
    Int4,
    Float1,
    Float2,
    Float3,
    Float4,
    Mat2f,
    Mat3f,
    Mat4f,
}

/// The kind of scalar that a shader value is made of.
#[derive(Clone, Copy, Debug, PartialEq, Eq, Structural)]
pub enum ScalarKind {
    UnsignedInt,
    Int,
    Float,
}

impl ShaderDataType {
    /// The kind of scalar that a value of the type is made of.
    pub fn scalar_kind(&self) -> (kind: ScalarKind)
        ensures
            kind == (match *self {
                ShaderDataType::Uint1
                | ShaderDataType::Uint2
                | ShaderDataType::Uint3
                | ShaderDataType::Uint4 => ScalarKind::UnsignedInt,
                ShaderDataType::Int1
                | ShaderDataType::Int2
                | ShaderDataType::Int3
                | ShaderDataType::Int4 => ScalarKind::Int,
                _ => ScalarKind::Float,
            }),
    {
        match self {
            ShaderDataType::Uint1
            | ShaderDataType::Uint2
            | ShaderDataType::Uint3
            | ShaderDataType::Uint4 => ScalarKind::UnsignedInt,
            ShaderDataType::Int1
            | ShaderDataType::Int2
            | ShaderDataType::Int3
            | ShaderDataType::Int4 => ScalarKind::Int,
            ShaderDataType::Float1
            | ShaderDataType::Float2
            | ShaderDataType::Float3
            | ShaderDataType::Float4
            | ShaderDataType::Mat2f
            | ShaderDataType::Mat3f
            | ShaderDataType::Mat4f => ScalarKind::Float,
        }
    }

    /// The number of scalars in a value of the type.
    pub open spec fn spec_element_count(self) -> nat {
        match self {
            ShaderDataType::Uint1 | ShaderDataType::Int1 | ShaderDataType::Float1 => 1,
            ShaderDataType::Uint2 | ShaderDataType::Int2 | ShaderDataType::Float2 => 2,
            ShaderDataType::Uint3 | ShaderDataType::Int3 | ShaderDataType::Float3 => 3,
            ShaderDataType::Uint4 | ShaderDataType::Int4 | ShaderDataType::Float4 => 4,
            ShaderDataType::Mat2f => 4,
            ShaderDataType::Mat3f => 9,
            ShaderDataType::Mat4f => 16,
        }
    }

    /// The number of scalars in a value of the type.
    pub fn element_count(&self) -> (n: u32)
        ensures
            n == self.spec_element_count(),
    {
        match self {
            ShaderDataType::Uint1 => 1,
            ShaderDataType::Uint2 => 2,
            ShaderDataType::Uint3 => 3,
            ShaderDataType::Uint4 => 4,
            ShaderDataType::Int1 => 1,
            ShaderDataType::Int2 => 2,
            ShaderDataType::Int3 => 3,
            ShaderDataType::Int4 => 4,
            ShaderDataType::Float1 => 1,
            ShaderDataType::Float2 => 2,
            ShaderDataType::Float3 => 3,
            ShaderDataType::Float4 => 4,
            ShaderDataType::Mat2f => 4,
            ShaderDataType::Mat3f => 9,
            ShaderDataType::Mat4f => 16,
        }
    }

    /// The size of a value of the type in bytes: four for each scalar.
    pub fn size_bytes(&self) -> (n: u32)
        ensures
            n == 4 * self.spec_element_count(),
    {
        match self {
            ShaderDataType::Uint1 => 1 * 4,
            ShaderDataType::Uint2 => 2 * 4,
            ShaderDataType::Uint3 => 3 * 4,
            ShaderDataType::Uint4 => 4 * 4,
            ShaderDataType::Int1 => 1 * 4,
            ShaderDataType::Int2 => 2 * 4,
            ShaderDataType::Int3 => 3 * 4,
            ShaderDataType::Int4 => 4 * 4,
            ShaderDataType::Float1 => 1 * 4,
            ShaderDataType::Float2 => 2 * 4,
            ShaderDataType::Float3 => 3 * 4,
            ShaderDataType::Float4 => 4 * 4,
            ShaderDataType::Mat2f => 4 * 4,
            ShaderDataType::Mat3f => 9 * 4,
            ShaderDataType::Mat4f => 16 * 4,
        }
    }
}

/// The text of a vertex shader and of a fragment shader.
pub struct ShaderSource<'a> {
    pub vertex: &'a str,
    pub fragment: &'a str,
}

impl<'a> ShaderSource<'a> {
    /// The source of a program from the text of its two shaders.
    pub fn new(vertex: &'a str, fragment: &'a str) -> (r: Self)
        ensures
            r.vertex@ == vertex@,
            r.fragment@ == fragment@,
    {
        Self { vertex, fragment }
    }
}

} // verus!
