//! Camera descriptions.  The projection matrices are floating-point work
//! done by the rendering layer; the verified core holds the dimensions.
use vstd::prelude::*;

verus! {

/// An orthographic camera over a pixel area.
#[derive(PartialEq, Eq, Structural, Clone, Copy, Debug)]
pub struct OrthographicCamera {
    pub width: u32,
    pub height: u32,
}

impl OrthographicCamera {
    /// A camera projecting the given pixel area.
    pub fn new(width: u32, height: u32) -> (r: OrthographicCamera)
        ensures
            r.width == width,
            r.height == height,
    {
        OrthographicCamera { width, height }
    }
}

} // verus!
