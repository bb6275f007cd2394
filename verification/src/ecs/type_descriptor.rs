//! Per-component-type metadata captured once per type, so that the generic
//! storage never needs compile-time knowledge of concrete types.
use vstd::prelude::*;

use crate::utils::{round_up, spec_round_up};

verus! {

/// Size metadata for one component type.  `item_size` is the payload size
/// rounded up to the type's alignment, so successive instances stay
/// correctly aligned when packed back to back; a zero-sized type is
/// represented by `item_size == 0`.
#[derive(PartialEq, Eq, Structural, Clone, Copy, Debug)]
pub struct TypeDescriptor {
    pub item_size: usize,
}

impl TypeDescriptor {
    /// Describes a type of the given size and alignment.
    pub fn new(size: usize, align: usize) -> (r: TypeDescriptor)
        requires
            size + align <= usize::MAX,
        ensures
            r.item_size == spec_round_up(size as nat, align as nat),
    {
        TypeDescriptor { item_size: round_up(size, align) }
    }

    /// Rebuilds a descriptor from raw size and alignment values, as when a
    /// payload arrives through the command protocol.
    pub fn from_raw(size: usize, align: usize) -> (r: TypeDescriptor)
        requires
            size + align <= usize::MAX,
        ensures
            r.item_size == spec_round_up(size as nat, align as nat),
    {
        TypeDescriptor { item_size: round_up(size, align) }
    }
}

} // verus!
