//! Texture pixel formats used by the rendering layer's resource pool.
use vstd::prelude::*;

verus! {

/// An uncompressed texture format.
#[derive(PartialEq, Eq, Structural, Clone, Copy, Debug)]
pub enum TextureFormat {
    Rgba8Unorm,
    Bgra8Unorm,
    Rgba16Float,
    Depth32,
}

impl TextureFormat {
    /// Bytes one pixel occupies in a row of this format.
    pub fn bytes_per_row(&self) -> (r: usize)
        ensures
            r == match *self {
                TextureFormat::Rgba8Unorm => 4usize,
                TextureFormat::Bgra8Unorm => 4usize,
                TextureFormat::Rgba16Float => 8usize,
                TextureFormat::Depth32 => 4usize,
            },
    {
        match self {
            TextureFormat::Rgba8Unorm => 4,
            TextureFormat::Bgra8Unorm => 4,
            TextureFormat::Rgba16Float => 8,
            TextureFormat::Depth32 => 4,
        }
    }
}

/// A block-compressed texture format, decoded on upload.
#[derive(PartialEq, Eq, Structural, Clone, Copy, Debug)]
pub enum CompressedTextureFormat {
    BC1,
    BC2,
    BC3,
}

impl CompressedTextureFormat {
    /// The uncompressed format this one decodes to.
    pub fn decoded_format(&self) -> (r: TextureFormat)
        ensures
            r == TextureFormat::Rgba8Unorm,
    {
        match self {
            CompressedTextureFormat::BC1 => TextureFormat::Rgba8Unorm,
            CompressedTextureFormat::BC2 => TextureFormat::Rgba8Unorm,
            CompressedTextureFormat::BC3 => TextureFormat::Rgba8Unorm,
        }
    }
}

} // verus!
