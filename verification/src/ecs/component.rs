//! Components and the owned, type-erased payloads that carry them through
//! the command protocol.
use vstd::prelude::*;

use super::type_descriptor::TypeDescriptor;

verus! {

/// Marks a plain value type as attachable to entities.  A component needs
/// no interface beyond being describable by a type descriptor.
pub trait Component {

}

/// A fully-owned, type-erased component value: the runtime tag of its
/// type, the type's descriptor, and the instance's payload bytes.  It can
/// be produced while the world is only borrowed and applied later.
pub struct ComponentContainer {
    pub component_type: u64,
    pub type_descriptor: TypeDescriptor,
    pub data: Vec<u8>,
}

impl ComponentContainer {
    /// The payload length matches the described item size.
    pub open spec fn wf(&self) -> bool {
        self.data@.len() == self.type_descriptor.item_size
    }

    /// Wraps one component instance's payload under its type tag.
    pub fn new(component_type: u64, type_descriptor: TypeDescriptor, data: Vec<u8>) -> (r:
        ComponentContainer)
        requires
            data@.len() == type_descriptor.item_size,
        ensures
            r.component_type == component_type,
            r.type_descriptor == type_descriptor,
            r.data@ == data@,
            r.wf(),
    {
        ComponentContainer { component_type, type_descriptor, data }
    }

    /// The runtime tag of the carried component type.
    pub fn to_component_type(&self) -> (r: u64)
        ensures
            r == self.component_type,
    {
        self.component_type
    }
}

} // verus!
