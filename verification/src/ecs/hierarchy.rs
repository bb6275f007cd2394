//! Parent/child bookkeeping over a world.  Each child entity records the
//! entity it hangs beneath as a fixed-size parent-link component; an
//! entity's children are exactly the entities recording it.
use vstd::prelude::*;

use super::codec::{decode_u32, encode_u32, spec_u32_le, spec_u32_of_le};
use super::component::{Component, ComponentContainer};
use super::type_descriptor::TypeDescriptor;
use super::world::{world_add_component, World, WorldModel};
use super::Entity;

verus! {

/// The component type tag reserved for parent links.
pub const PARENT_COMPONENT: u64 = 0xffff_ffff_ffff_ff01;

/// The entities attached beneath an entity.
pub struct Children {
    pub children: Vec<Entity>,
}

impl Component for Children {

}

/// The entity another entity is attached beneath.
pub struct Parent {
    pub parent: Entity,
}

impl Component for Parent {

}

impl Parent {
    /// This link as a component payload under the reserved tag.
    pub fn to_container(&self) -> (r: ComponentContainer)
        ensures
            r.component_type == PARENT_COMPONENT,
            r.type_descriptor.item_size == 4,
            r.data@ == spec_u32_le(self.parent.id),
            r.wf(),
    {
        ComponentContainer::new(
            PARENT_COMPONENT,
            TypeDescriptor { item_size: 4 },
            encode_u32(self.parent.id),
        )
    }
}

/// The parent link `e` holds, as far as the world records a well-formed
/// one.
pub open spec fn spec_parent_of(m: WorldModel, e: u32) -> Option<u32> {
    if m.components.dom().contains(PARENT_COMPONENT) && m.components[PARENT_COMPONENT].dom(
    ).contains(e) && m.components[PARENT_COMPONENT][e].len() == 4 {
        Some(spec_u32_of_le(m.components[PARENT_COMPONENT][e]))
    } else {
        None
    }
}

/// Parent/child bookkeeping over a component store.
pub trait HierarchyExt {
    /// The store as the hierarchy sees it.
    spec fn hierarchy_model(&self) -> WorldModel;

    /// The store is fit to be used.
    spec fn hierarchy_wf(&self) -> bool;

    /// Attaches `child` beneath `entity`, replacing any parent link the
    /// child held.
    fn add_child(&mut self, entity: Entity, child: Entity)
        requires
            old(self).hierarchy_wf(),
        ensures
            final(self).hierarchy_wf(),
            final(self).hierarchy_model() == world_add_component(
                old(self).hierarchy_model(),
                child.id,
                PARENT_COMPONENT,
                4,
                spec_u32_le(entity.id),
            ),
    ;

    /// Detaches `child` from `entity`; reports whether it hung there, and
    /// changes nothing when it did not.
    fn remove_child(&mut self, entity: Entity, child: Entity) -> (r: bool)
        requires
            old(self).hierarchy_wf(),
        ensures
            final(self).hierarchy_wf(),
            r == (spec_parent_of(old(self).hierarchy_model(), child.id) == Some(entity.id)),
            r ==> spec_parent_of(final(self).hierarchy_model(), child.id) is None,
            !r ==> final(self).hierarchy_model() == old(self).hierarchy_model(),
    ;

    /// The entities attached beneath `entity`, in ascending id order.
    fn children(&self, entity: Entity) -> (r: Vec<Entity>)
        requires
            self.hierarchy_wf(),
        ensures
            forall|i: int, j: int| 0 <= i < j < r@.len() ==> r@[i].id < r@[j].id,
            forall|i: int|
                0 <= i < r@.len() ==> spec_parent_of(self.hierarchy_model(), (#[trigger] r@[i]).id)
                    == Some(entity.id),
            forall|k: u32|
                spec_parent_of(self.hierarchy_model(), k) == Some(entity.id) ==> exists|i: int|
                    0 <= i < r@.len() && (#[trigger] r@[i]).id == k,
    ;

    /// The entity `entity` hangs beneath, if any.
    fn parent(&self, entity: Entity) -> (r: Option<Entity>)
        requires
            self.hierarchy_wf(),
        ensures
            match spec_parent_of(self.hierarchy_model(), entity.id) {
                Some(p) => r is Some && r->Some_0.id == p,
                None => r is None,
            },
    ;
}

impl HierarchyExt for World {
    open spec fn hierarchy_model(&self) -> WorldModel {
        self@
    }

    open spec fn hierarchy_wf(&self) -> bool {
        self.wf()
    }

    fn add_child(&mut self, entity: Entity, child: Entity) {
        let link = Parent { parent: entity };
        let container = link.to_container();
        self.add_component(child, &container);
    }

    fn remove_child(&mut self, entity: Entity, child: Entity) -> (r: bool) {
        let link = self.component(PARENT_COMPONENT, child);
        match link {
            Some(v) => {
                if v.len() == 4 && decode_u32(&v) == entity.id {
                    self.remove_component(PARENT_COMPONENT, child);
                    true
                } else {
                    false
                }
            },
            None => false,
        }
    }

    #[verifier::rlimit(50)]
    fn children(&self, entity: Entity) -> (r: Vec<Entity>) {
        if !self.has_component_type(PARENT_COMPONENT) {
            let r: Vec<Entity> = Vec::new();
            return r;
        }
        let pairs = self.components(PARENT_COMPONENT);
        let n = pairs.len();
        let mut r: Vec<Entity> = Vec::new();
        let mut i: usize = 0;
        while i < n
            invariant
                i <= n,
                n == pairs@.len(),
                self.wf(),
                self@.components.dom().contains(PARENT_COMPONENT),
                forall|a: int, b: int| 0 <= a < b < pairs@.len() ==> pairs@[a].0.id < pairs@[b].0.id,
                forall|a: int|
                    0 <= a < pairs@.len() ==> self@.components[PARENT_COMPONENT].dom().contains(
                        (#[trigger] pairs@[a]).0.id,
                    ) && pairs@[a].1@ == self@.components[PARENT_COMPONENT][pairs@[a].0.id],
                forall|k: u32|
                    self@.components[PARENT_COMPONENT].dom().contains(k) ==> exists|a: int|
                        0 <= a < pairs@.len() && (#[trigger] pairs@[a]).0.id == k,
                forall|a: int, b: int| 0 <= a < b < r@.len() ==> r@[a].id < r@[b].id,
                forall|a: int|
                    0 <= a < r@.len() ==> spec_parent_of(self@, (#[trigger] r@[a]).id) == Some(
                        entity.id,
                    ),
                forall|a: int|
                    0 <= a < r@.len() ==> exists|m: int|
                        0 <= m < i && (#[trigger] pairs@[m]).0.id == (#[trigger] r@[a]).id,
                forall|m: int|
                    0 <= m < i && spec_parent_of(self@, (#[trigger] pairs@[m]).0.id) == Some(
                        entity.id,
                    ) ==> exists|a: int| 0 <= a < r@.len() && (#[trigger] r@[a]).id == pairs@[m].0.id,
            decreases n - i,
        {
            let ghost prev_r = r@;
            let key = pairs[i].0;
            let hit = pairs[i].1.len() == 4 && decode_u32(&pairs[i].1) == entity.id;
            if hit {
                proof {
                    assert forall|a: int| 0 <= a < r@.len() implies (#[trigger] r@[a]).id
                        < key.id by {
                        let m = choose|m: int|
                            0 <= m < i && (#[trigger] pairs@[m]).0.id == r@[a].id;
                        assert(pairs@[m].0.id < pairs@[i as int].0.id);
                    }
                }
                r.push(key);
            }
            proof {
                assert forall|m: int|
                    0 <= m < i + 1 && spec_parent_of(self@, (#[trigger] pairs@[m]).0.id) == Some(
                        entity.id,
                    ) implies exists|a: int|
                    0 <= a < r@.len() && (#[trigger] r@[a]).id == pairs@[m].0.id by {
                    if m == i {
                        assert(hit);
                        assert(r@[r@.len() - 1].id == pairs@[m].0.id);
                    } else {
                        let a = choose|a: int|
                            0 <= a < prev_r.len() && (#[trigger] prev_r[a]).id == pairs@[m].0.id;
                        assert(r@[a].id == pairs@[m].0.id);
                    }
                }
            }
            i += 1;
        }
        proof {
            assert forall|k: u32|
                spec_parent_of(self@, k) == Some(entity.id) implies exists|a: int|
                0 <= a < r@.len() && (#[trigger] r@[a]).id == k by {
                let m = choose|m: int| 0 <= m < pairs@.len() && (#[trigger] pairs@[m]).0.id == k;
                assert(spec_parent_of(self@, pairs@[m].0.id) == Some(entity.id));
            }
        }
        r
    }

    fn parent(&self, entity: Entity) -> (r: Option<Entity>) {
        let link = self.component(PARENT_COMPONENT, entity);
        match link {
            Some(v) => {
                if v.len() == 4 {
                    Some(Entity { id: decode_u32(&v) })
                } else {
                    None
                }
            },
            None => None,
        }
    }
}

} // verus!
