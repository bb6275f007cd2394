//! Fixed choices the rendering layer builds its internal attachments
//! from.
use vstd::prelude::*;

use crate::texture::TextureFormat;

verus! {

/// The format of the internal color attachment.
pub const INTERNAL_COLOR_ATTACHMENT_FORMAT: TextureFormat = TextureFormat::Rgba8Unorm;

/// The format of the internal depth attachment.
pub const INTERNAL_DEPTH_ATTACHMENT_FORMAT: TextureFormat = TextureFormat::Depth32;

} // verus!
