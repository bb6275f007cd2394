//! The entity-component store and its supporting machinery: type-erased
//! dense storage addressed by byte offsets, sparse indexed stores keyed by
//! entity id, the world, a deferred-mutation command protocol, and
//! data-driven system descriptors.
pub mod any_storage;
pub mod any_vec;
pub mod codec;
pub mod command;
pub mod component;
pub mod event;
pub mod hierarchy;
pub mod raw_vec;
pub mod sparse_any_vec;
pub mod sparse_raw_vec;
pub mod sparse_vec;
pub mod system;
pub mod tag_index;
pub mod type_descriptor;
pub mod world;

use vstd::prelude::*;

verus! {

/// An opaque identifier naming a bundle of components.  Ids are allocated
/// monotonically by the world and never reused within a run; their order
/// carries no meaning beyond supporting binary search in sparse stores.
#[derive(PartialEq, Eq, Structural, PartialOrd, Ord, Clone, Copy, Debug)]
pub struct Entity {
    pub id: u32,
}

} // verus!
