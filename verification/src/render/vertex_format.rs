//! Vertex layout descriptions: which attribute lives at which byte offset
//! of a vertex, and the vertex stride.
use vstd::prelude::*;

verus! {

/// The wire type of one vertex attribute.
#[derive(PartialEq, Eq, Structural, Clone, Copy, Debug)]
pub enum VertexItemType {
    UByte4,
    Float2,
    Float3,
    Float4,
    Half2,
    Half4,
}

/// One vertex attribute: the shader input it feeds, its type, and its
/// byte offset inside a vertex.
#[derive(Clone, Debug)]
pub struct VertexFormatItem {
    pub shader_name: &'static str,
    pub item_type: VertexItemType,
    pub offset: usize,
}

impl VertexFormatItem {
    /// Describes the attribute feeding `shader_name`.
    pub fn new(shader_name: &'static str, item_type: VertexItemType, offset: usize) -> (r:
        VertexFormatItem)
        ensures
            r.shader_name@ == shader_name@,
            r.item_type == item_type,
            r.offset == offset,
    {
        VertexFormatItem { shader_name, item_type, offset }
    }
}

/// A whole vertex layout: its attributes and the bytes from one vertex to
/// the next.
#[derive(Clone, Debug)]
pub struct VertexFormat {
    pub items: Vec<VertexFormatItem>,
    pub stride: usize,
}

impl VertexFormat {
    /// Describes a vertex of `stride` bytes laid out as `items`.
    pub fn new(items: Vec<VertexFormatItem>, stride: usize) -> (r: VertexFormat)
        ensures
            r.items@ == items@,
            r.stride == stride,
    {
        VertexFormat { items, stride }
    }
}

} // verus!
