//! The marker component carried by user-interface entities.
use vstd::prelude::*;

use crate::ecs::component::Component;

verus! {

/// Marks an entity as part of the user interface.
pub struct UiComponent {

}

impl Component for UiComponent {

}

} // verus!
