//! Shader binding descriptions as plain data: the GPU-facing conversions
//! live with the rendering layer, outside this crate's verified core.
use vstd::prelude::*;

verus! {

/// What a shader binding slot holds.
#[derive(PartialEq, Eq, Structural, Clone, Copy, Debug)]
pub enum ShaderBindingType {
    UniformBuffer,
    Texture2D,
    Sampler,
}

/// Which pipeline stage a shader runs in.
#[derive(PartialEq, Eq, Structural, Clone, Copy, Debug)]
pub enum ShaderStage {
    Vertex,
    Fragment,
}

/// One binding slot of a shader: its index and what it holds.
#[derive(PartialEq, Eq, Structural, Clone, Copy, Debug)]
pub struct ShaderBinding {
    pub binding: u32,
    pub binding_type: ShaderBindingType,
}

impl ShaderBinding {
    /// Describes binding slot `binding` holding `binding_type`.
    pub fn new(binding: u32, binding_type: ShaderBindingType) -> (r: ShaderBinding)
        ensures
            r.binding == binding,
            r.binding_type == binding_type,
    {
        ShaderBinding { binding, binding_type }
    }
}

} // verus!
