//! The layout of interleaved vertex data in a buffer of the graphics device.

use super::program::{ScalarKind, ShaderDataType};
use vstd::prelude::*;

verus! {

/// What a buffer is used for, and how often it is written.
#[derive(Clone, Copy, Debug)]
pub enum BufferUsage {
    StaticDraw,
    StaticRead,
    StaticCopy,
    DynamicDraw,
    DynamicRead,
    DynamicCopy,
    StreamDraw,
    StreamRead,
    StreamCopy,
}

/// One kind of value in a buffer, such as an input of a shader.
pub struct BufferElement {
    pub name: &'static str,
    pub data_type: ShaderDataType,
    pub count: u32,
    pub offset: u32,
    pub normalised: bool,
}

impl BufferElement {
    /// An element of the given type at offset zero, not normalised.
    pub fn new(data_type: ShaderDataType, name: &'static str) -> (r: Self)
        ensures
            r.name@ == name@,
            r.data_type == data_type,
            r.count == data_type.spec_element_count(),
            r.offset == 0,
            !r.normalised,
    {
        let count = data_type.element_count();
        Self { name, data_type, count, offset: 0, normalised: false }
    }
}

/// The layout of one buffer: its elements, interleaved, one record after the
/// other.
pub struct BufferLayout {
    pub elements: Vec<BufferElement>,
    pub stride: u32,
    pub buffer_size: u32,
    pub divisor: u32,
    pub usage: BufferUsage,
}

/// The size in bytes of the first `n` of `elements`.
pub open spec fn bytes_before(elements: Seq<BufferElement>, n: int) -> int
    decreases n,
{
    if n <= 0 {
        0
    } else {
        bytes_before(elements, n - 1) + 4 * elements[n - 1].data_type.spec_element_count()
    }
}

/// The sizes add up: more elements take no fewer bytes.
pub proof fn lemma_bytes_before_monotonic(elements: Seq<BufferElement>, j: int, k: int)
    requires
        0 <= j <= k,
    ensures
        0 <= bytes_before(elements, j) <= bytes_before(elements, k),
    decreases k,
{
    if k > 0 {
        if j < k {
            lemma_bytes_before_monotonic(elements, j, k - 1);
        } else {
            lemma_bytes_before_monotonic(elements, j - 1, k - 1);
        }
    }
}

impl BufferLayout {
    /// Lays the elements out one after the other: each one starts where the
    /// one before it ends, a record takes `stride` bytes, and the buffer
    /// holds `capacity` records.
    pub fn new(elements: Vec<BufferElement>, capacity: u32, divisor: u32, usage: BufferUsage) -> (r:
        Self)
        requires
            bytes_before(elements@, elements@.len() as int) * capacity <= u32::MAX,
            bytes_before(elements@, elements@.len() as int) <= u32::MAX,
        ensures
            r.elements@.len() == elements@.len(),
            forall|i: int|
                0 <= i < elements@.len() ==> (#[trigger] r.elements@[i]).offset == bytes_before(
                    elements@,
                    i,
                ) && r.elements@[i].name == elements@[i].name && r.elements@[i].data_type
                    == elements@[i].data_type && r.elements@[i].count == elements@[i].count
                    && r.elements@[i].normalised == elements@[i].normalised,
            r.stride == bytes_before(elements@, elements@.len() as int),
            r.buffer_size == r.stride * capacity,
            r.divisor == divisor,
            r.usage == usage,
    {
        let ghost given = elements@;
        let mut elements = elements;
        let mut offset: u32 = 0;
        let mut i: usize = 0;
        while i < elements.len()
            invariant
                i <= elements@.len(),
                elements@.len() == given.len(),
                bytes_before(given, given.len() as int) <= u32::MAX,
                offset == bytes_before(given, i as int),
                forall|j: int|
                    0 <= j < i ==> (#[trigger] elements@[j]).offset == bytes_before(given, j),
                forall|j: int|
                    0 <= j < given.len() ==> (#[trigger] elements@[j]).name == given[j].name
                        && elements@[j].data_type == given[j].data_type && elements@[j].count
                        == given[j].count && elements@[j].normalised == given[j].normalised,
            decreases elements@.len() - i,
        {
            proof {
                lemma_bytes_before_monotonic(given, i + 1, given.len() as int);
            }
            let size = elements[i].data_type.size_bytes();
            elements[i].offset = offset;
            offset += size;
            i += 1;
        }
        let buffer_size = offset * capacity;
        Self { elements, stride: offset, buffer_size, divisor, usage }
    }
}

/// One input of a vertex array: where in which buffer the values of an
/// attribute lie.
#[derive(Clone, Copy, Debug)]
pub struct VertexAttribute {
    /// The number of the attribute.
    pub index: u32,
    /// The place of the buffer among the buffers of the vertex array.
    pub buffer: usize,
    /// The number of scalars in a value.
    pub count: u32,
    /// The kind of the scalars.  Floats are handed on as they are, integers as
    /// integers.
    pub kind: ScalarKind,
    /// Whether integers are scaled to the unit range.
    pub normalised: bool,
    /// The distance in bytes from one record of the buffer to the next.
    pub stride: u32,
    /// The place of the value in its record, in bytes.
    pub offset: u32,
    /// The number of instances that share one value; `None` where every
    /// vertex has its own.
    pub divisor: Option<u32>,
}

/// The number of elements in the first `n` of `layouts`.
pub open spec fn elements_before(layouts: Seq<BufferLayout>, n: int) -> int
    decreases n,
{
    if n <= 0 {
        0
    } else {
        elements_before(layouts, n - 1) + layouts[n - 1].elements@.len()
    }
}

/// The attribute of element `e` of buffer `b`.
pub open spec fn attribute_of(layouts: Seq<BufferLayout>, b: int, e: int) -> VertexAttribute {
    let layout = layouts[b];
    let element = layout.elements@[e];
    VertexAttribute {
        index: (elements_before(layouts, b) + e) as u32,
        buffer: b as usize,
        count: element.count,
        kind: (match element.data_type {
            ShaderDataType::Uint1
            | ShaderDataType::Uint2
            | ShaderDataType::Uint3
            | ShaderDataType::Uint4 => ScalarKind::UnsignedInt,
            ShaderDataType::Int1
            | ShaderDataType::Int2
            | ShaderDataType::Int3
            | ShaderDataType::Int4 => ScalarKind::Int,
            _ => ScalarKind::Float,
        }),
        normalised: element.normalised,
        stride: layout.stride,
        offset: element.offset,
        divisor: if layout.divisor > 0 {
            Some(layout.divisor)
        } else {
            None
        },
    }
}

/// The numbers of elements add up: more buffers hold no fewer elements.
pub proof fn lemma_elements_before_monotonic(layouts: Seq<BufferLayout>, j: int, k: int)
    requires
        0 <= j <= k,
    ensures
        0 <= elements_before(layouts, j) <= elements_before(layouts, k),
    decreases k,
{
    if k > 0 {
        if j < k {
            lemma_elements_before_monotonic(layouts, j, k - 1);
        } else {
            lemma_elements_before_monotonic(layouts, j - 1, k - 1);
        }
    }
}

/// The attributes of a vertex array with the given buffers: one for each
/// element of each buffer, numbered through in the order of the buffers and,
/// in each buffer, of its elements.
pub fn vertex_attributes(layouts: &[BufferLayout]) -> (attributes: Vec<VertexAttribute>)
    requires
        elements_before(layouts@, layouts@.len() as int) <= u32::MAX,
    ensures
        attributes@.len() == elements_before(layouts@, layouts@.len() as int),
        forall|b: int, e: int|
            0 <= b < layouts@.len() && 0 <= e < layouts@[b].elements@.len() ==> attributes@[elements_before(
                layouts@,
                b,
            ) + e] == #[trigger] attribute_of(layouts@, b, e),
{
    let mut attributes: Vec<VertexAttribute> = Vec::new();
    let mut attrib_index: u32 = 0;
    let mut b: usize = 0;
    while b < layouts.len()
        invariant
            b <= layouts@.len(),
            elements_before(layouts@, layouts@.len() as int) <= u32::MAX,
            attrib_index == elements_before(layouts@, b as int),
            attributes@.len() == attrib_index,
            forall|cb: int, ce: int|
                0 <= cb < b && 0 <= ce < layouts@[cb].elements@.len() ==> attributes@[elements_before(
                    layouts@,
                    cb,
                ) + ce] == #[trigger] attribute_of(layouts@, cb, ce),
        decreases layouts@.len() - b,
    {
        let layout = &layouts[b];
        let ghost start = attrib_index as int;
        proof {
            lemma_elements_before_monotonic(layouts@, b + 1, layouts@.len() as int);
        }
        let mut e: usize = 0;
        while e < layout.elements.len()
            invariant
                b < layouts@.len(),
                *layout == layouts@[b as int],
                e <= layout.elements@.len(),
                start == elements_before(layouts@, b as int),
                0 <= start,
                start + layout.elements@.len() <= u32::MAX,
                attrib_index == start + e,
                attributes@.len() == attrib_index,
                forall|cb: int, ce: int|
                    0 <= cb < b && 0 <= ce < layouts@[cb].elements@.len() ==> attributes@[elements_before(
                        layouts@,
                        cb,
                    ) + ce] == #[trigger] attribute_of(layouts@, cb, ce),
                forall|ce: int|
                    0 <= ce < e ==> attributes@[start + ce] == #[trigger] attribute_of(
                        layouts@,
                        b as int,
                        ce,
                    ),
            decreases layout.elements@.len() - e,
        {
            let element = &layout.elements[e];
            let ghost before = attributes@;
            attributes.push(
                VertexAttribute {
                    index: attrib_index,
                    buffer: b,
                    count: element.count,
                    kind: element.data_type.scalar_kind(),
                    normalised: element.normalised,
                    stride: layout.stride,
                    offset: element.offset,
                    divisor: if layout.divisor > 0 {
                        Some(layout.divisor)
                    } else {
                        None
                    },
                },
            );
            proof {
                assert(before.len() == start + e);
                assert(attributes@.len() == before.len() + 1);
                assert(forall|i: int| 0 <= i < before.len() ==> attributes@[i] == before[i]);
                assert forall|cb: int, ce: int|
                    0 <= cb < b && 0 <= ce < layouts@[cb].elements@.len() implies attributes@[elements_before(
                    layouts@,
                    cb,
                ) + ce] == #[trigger] attribute_of(layouts@, cb, ce) by {
                    lemma_elements_before_monotonic(layouts@, cb + 1, b as int);
                    lemma_elements_before_monotonic(layouts@, cb, cb);
                    assert(elements_before(layouts@, cb + 1) == elements_before(layouts@, cb)
                        + layouts@[cb].elements@.len());
                    assert(attributes@[elements_before(layouts@, cb) + ce]
                        == before[elements_before(layouts@, cb) + ce]);
                }
                assert forall|ce: int| 0 <= ce < e + 1 implies attributes@[start + ce]
                    == #[trigger] attribute_of(layouts@, b as int, ce) by {
                    if ce < e {
                        assert(attributes@[start + ce] == before[start + ce]);
                    }
                }
            }
            attrib_index += 1;
            e += 1;
        }
        b += 1;
    }
    attributes
}

} // verus!
