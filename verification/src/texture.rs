//! Texture pixel formats as plain data: the GPU-facing conversions live
//! with the rendering layer, outside this crate's verified core.
use vstd::prelude::*;

verus! {

/// An uncompressed texture format.
#[derive(PartialEq, Eq, Structural, Clone, Copy, Debug)]
pub enum TextureFormat {
    Rgba8Unorm,
    Bgra8Unorm,
    Rgba16Float,
    Depth32,
}

/// Bytes one pixel of the format occupies in a row.
pub open spec fn spec_bytes_per_pixel(f: TextureFormat) -> nat {
    match f {
        TextureFormat::Rgba8Unorm => 4,
        TextureFormat::Bgra8Unorm => 4,
        TextureFormat::Rgba16Float => 8,
        TextureFormat::Depth32 => 4,
    }
}

impl TextureFormat {
    /// Bytes one pixel occupies in a row of this format.
    pub fn bytes_per_row(&self) -> (r: usize)
        ensures
            r == spec_bytes_per_pixel(*self),
    {
        match self {
            TextureFormat::Rgba8Unorm => 4,
            TextureFormat::Bgra8Unorm => 4,
            TextureFormat::Rgba16Float => 8,
            TextureFormat::Depth32 => 4,
        }
    }
}

/// A block-compressed texture format, decoded on upload.
#[derive(PartialEq, Eq, Structural, Clone, Copy, Debug)]
pub enum CompressedTextureFormat {
    BC1,
    BC2,
    BC3,
}

impl CompressedTextureFormat {
    /// The uncompressed format this one decodes to.
    pub fn decoded_format(&self) -> (r: TextureFormat)
        ensures
            r == TextureFormat::Rgba8Unorm,
    {
        match self {
            CompressedTextureFormat::BC1 => TextureFormat::Rgba8Unorm,
            CompressedTextureFormat::BC2 => TextureFormat::Rgba8Unorm,
            CompressedTextureFormat::BC3 => TextureFormat::Rgba8Unorm,
        }
    }
}

} // verus!
