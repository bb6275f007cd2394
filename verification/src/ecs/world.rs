//! The world: owner of all per-type component stores, the type-keyed
//! resource singletons, the entity id allocator, transient events, and the
//! registered system descriptors; and the per-tick command application
//! that keeps mutation deferred and deterministic.
use vstd::prelude::*;

use vstd::arithmetic::div_mod::lemma_fundamental_div_mod;
use vstd::arithmetic::mul::lemma_mul_inequality;

use super::command::{Command, CommandList};
use super::component::ComponentContainer;
use super::sparse_raw_vec::SparseRawVec;
use super::system::{SystemInput, SystemSpec};
use super::tag_index::TagIndex;
use super::type_descriptor::TypeDescriptor;
use super::Entity;

verus! {

/// The world as the contracts see it: per-type component maps keyed by
/// entity id, the item size each component store was created with, the
/// resource and event singletons, and the next entity id.
#[verifier::ext_equal]
pub struct WorldModel {
    pub components: Map<u64, Map<u32, Seq<u8>>>,
    pub sizes: Map<u64, nat>,
    pub resources: Map<u64, Seq<u8>>,
    pub events: Map<u64, Seq<u8>>,
    pub entities: u32,
}

/// The bytes one instance occupies in a store: its payload size, or one
/// placeholder byte for a zero-sized type.
pub open spec fn store_unit(size: nat) -> nat {
    if size == 0 {
        1
    } else {
        size
    }
}

/// The world just after creation: nothing stored, no id allocated.
pub open spec fn initial_world_model() -> WorldModel {
    WorldModel {
        components: Map::empty(),
        sizes: Map::empty(),
        resources: Map::empty(),
        events: Map::empty(),
        entities: 0,
    }
}

/// Attaching one type-erased component payload to an entity.  A payload
/// that contradicts its own descriptor, or the store's established item
/// size, or would overflow the store's byte capacity, is a programming
/// error and leaves the world unchanged.
pub open spec fn world_add_component(
    m: WorldModel,
    e: u32,
    ct: u64,
    size: nat,
    data: Seq<u8>,
) -> WorldModel {
    if data.len() != size {
        m
    } else if !m.components.dom().contains(ct) {
        WorldModel {
            components: m.components.insert(ct, Map::<u32, Seq<u8>>::empty().insert(e, data)),
            sizes: m.sizes.insert(ct, size),
            ..m
        }
    } else if m.sizes[ct] != size {
        m
    } else if (m.components[ct].dom().len() + 1) * store_unit(size) > usize::MAX {
        m
    } else {
        WorldModel { components: m.components.insert(ct, m.components[ct].insert(e, data)), ..m }
    }
}

/// Removing an entity from every component store.
pub open spec fn world_destroy(m: WorldModel, e: u32) -> WorldModel {
    WorldModel {
        components: Map::new(
            |t: u64| m.components.dom().contains(t),
            |t: u64| m.components[t].remove(e),
        ),
        ..m
    }
}

/// Overwriting the resource singleton of a type.
pub open spec fn world_add_resource(m: WorldModel, rt: u64, data: Seq<u8>) -> WorldModel {
    WorldModel { resources: m.resources.insert(rt, data), ..m }
}

/// Attaching every payload of a bundle to one entity, in order.
pub open spec fn world_add_containers(
    m: WorldModel,
    e: u32,
    cs: Seq<ComponentContainer>,
) -> WorldModel
    decreases cs.len(),
{
    if cs.len() == 0 {
        m
    } else {
        world_add_containers(
            world_add_component(
                m,
                e,
                cs[0].component_type,
                cs[0].type_descriptor.item_size as nat,
                cs[0].data@,
            ),
            e,
            cs.drop_first(),
        )
    }
}

/// Applying one recorded command.  Creating an entity allocates the next
/// id and attaches the carried components to it; a recorded removal of a
/// component type set names no entity and applies no change.
pub open spec fn world_apply_command(m: WorldModel, c: Command) -> WorldModel {
    match c {
        Command::CreateEntity(cs) => world_add_containers(
            WorldModel { entities: (m.entities + 1) as u32, ..m },
            m.entities,
            cs@,
        ),
        Command::DestroyEntity(e) => world_destroy(m, e.id),
        Command::CreateComponent(e, cs) => world_add_containers(m, e.id, cs@),
        Command::DestroyComponent(_) => m,
    }
}

/// Applying recorded commands in the order they were produced.
pub open spec fn world_apply_commands(m: WorldModel, cs: Seq<Command>) -> WorldModel
    decreases cs.len(),
{
    if cs.len() == 0 {
        m
    } else {
        world_apply_commands(world_apply_command(m, cs[0]), cs.drop_first())
    }
}

/// How many fresh entity ids the commands will allocate.
pub open spec fn count_creates(cs: Seq<Command>) -> nat
    decreases cs.len(),
{
    if cs.len() == 0 {
        0
    } else {
        (if cs[0] is CreateEntity {
            1nat
        } else {
            0nat
        }) + count_creates(cs.drop_first())
    }
}

/// The commands of a batch of command lists, in production order.
pub open spec fn concat_lists(ls: Seq<CommandList>) -> Seq<Command>
    decreases ls.len(),
{
    if ls.len() == 0 {
        Seq::empty()
    } else {
        ls[0].commands@ + concat_lists(ls.drop_first())
    }
}

/// Applying one more command continues from the state the first `i` left.
pub proof fn lemma_apply_commands_take_step(m: WorldModel, s: Seq<Command>, i: int)
    requires
        0 <= i < s.len(),
    ensures
        world_apply_commands(m, s.take(i + 1)) == world_apply_command(
            world_apply_commands(m, s.take(i)),
            s[i],
        ),
    decreases i,
{
    if i == 0 {
        let t1 = s.take(1);
        assert(t1.len() == 1 && t1[0] == s[0]);
        assert(t1.drop_first() =~= Seq::<Command>::empty());
        assert(world_apply_commands(m, t1) == world_apply_commands(
            world_apply_command(m, s[0]),
            t1.drop_first(),
        ));
        assert(world_apply_commands(world_apply_command(m, s[0]), t1.drop_first())
            == world_apply_command(m, s[0]));
        assert(s.take(0).len() == 0);
        assert(world_apply_commands(m, s.take(0)) == m);
    } else {
        let m1 = world_apply_command(m, s[0]);
        assert(s.take(i + 1)[0] == s[0]);
        assert(s.take(i)[0] == s[0]);
        assert(s.take(i + 1).drop_first() =~= s.drop_first().take(i));
        assert(s.take(i).drop_first() =~= s.drop_first().take(i - 1));
        assert(world_apply_commands(m, s.take(i + 1)) == world_apply_commands(
            m1,
            s.drop_first().take(i),
        ));
        assert(world_apply_commands(m, s.take(i)) == world_apply_commands(
            m1,
            s.drop_first().take(i - 1),
        ));
        lemma_apply_commands_take_step(m1, s.drop_first(), i - 1);
        assert(s.drop_first()[i - 1] == s[i]);
    }
}

/// Attaching one more payload continues from the state the first `j` left.
pub proof fn lemma_add_containers_take_step(
    m: WorldModel,
    e: u32,
    cs: Seq<ComponentContainer>,
    j: int,
)
    requires
        0 <= j < cs.len(),
    ensures
        world_add_containers(m, e, cs.take(j + 1)) == world_add_component(
            world_add_containers(m, e, cs.take(j)),
            e,
            cs[j].component_type,
            cs[j].type_descriptor.item_size as nat,
            cs[j].data@,
        ),
    decreases j,
{
    if j == 0 {
        let t1 = cs.take(1);
        assert(t1.len() == 1 && t1[0] == cs[0]);
        assert(t1.drop_first() =~= Seq::<ComponentContainer>::empty());
        assert(world_add_containers(m, e, t1) == world_add_containers(
            world_add_component(
                m,
                e,
                cs[0].component_type,
                cs[0].type_descriptor.item_size as nat,
                cs[0].data@,
            ),
            e,
            t1.drop_first(),
        ));
        assert(cs.take(0).len() == 0);
        assert(world_add_containers(m, e, cs.take(0)) == m);
    } else {
        let m1 = world_add_component(
            m,
            e,
            cs[0].component_type,
            cs[0].type_descriptor.item_size as nat,
            cs[0].data@,
        );
        assert(cs.take(j + 1)[0] == cs[0]);
        assert(cs.take(j)[0] == cs[0]);
        assert(cs.take(j + 1).drop_first() =~= cs.drop_first().take(j));
        assert(cs.take(j).drop_first() =~= cs.drop_first().take(j - 1));
        assert(world_add_containers(m, e, cs.take(j + 1)) == world_add_containers(
            m1,
            e,
            cs.drop_first().take(j),
        ));
        assert(world_add_containers(m, e, cs.take(j)) == world_add_containers(
            m1,
            e,
            cs.drop_first().take(j - 1),
        ));
        lemma_add_containers_take_step(m1, e, cs.drop_first(), j - 1);
        assert(cs.drop_first()[j - 1] == cs[j]);
    }
}

/// Attaching components never touches ids, resources, events or sizes of
/// other state.
pub proof fn lemma_add_containers_entities(m: WorldModel, e: u32, cs: Seq<ComponentContainer>)
    ensures
        world_add_containers(m, e, cs).entities == m.entities,
        world_add_containers(m, e, cs).resources == m.resources,
        world_add_containers(m, e, cs).events == m.events,
    decreases cs.len(),
{
    if cs.len() > 0 {
        lemma_add_containers_entities(
            world_add_component(
                m,
                e,
                cs[0].component_type,
                cs[0].type_descriptor.item_size as nat,
                cs[0].data@,
            ),
            e,
            cs.drop_first(),
        );
    }
}

/// An entity matches a query when it holds every required component type.
pub open spec fn entity_matches(m: WorldModel, required: Seq<u64>, e: u32) -> bool {
    forall|i: int|
        0 <= i < required.len() ==> m.components.dom().contains(#[trigger] required[i])
            && m.components[required[i]].dom().contains(e)
}

/// An input is available when the world can materialize it this tick.
pub open spec fn input_available(m: WorldModel, i: SystemInput) -> bool {
    match i {
        SystemInput::Resource(t) => m.resources.dom().contains(t),
        SystemInput::Event(t) => m.events.dom().contains(t),
        _ => true,
    }
}

/// A system is available when every input it declares is.
pub open spec fn system_available(m: WorldModel, s: SystemSpec) -> bool {
    forall|i: int| 0 <= i < s.inputs@.len() ==> input_available(m, #[trigger] s.inputs@[i])
}

/// The world: all application state, reached only through typed
/// operations and the deferred command protocol.
pub struct World {
    component_index: TagIndex,
    stores: Vec<SparseRawVec>,
    resource_index: TagIndex,
    resource_slots: Vec<Option<Vec<u8>>>,
    event_index: TagIndex,
    event_slots: Vec<Vec<u8>>,
    entities: u32,
    systems: Vec<SystemSpec>,
}

impl View for World {
    type V = WorldModel;

    closed spec fn view(&self) -> WorldModel {
        WorldModel {
            components: Map::new(
                |t: u64| self.component_index@.dom().contains(t),
                |t: u64| self.stores@[self.component_index@[t] as int]@,
            ),
            sizes: Map::new(
                |t: u64| self.component_index@.dom().contains(t),
                |t: u64| self.stores@[self.component_index@[t] as int].spec_item_size(),
            ),
            resources: Map::new(
                |t: u64|
                    self.resource_index@.dom().contains(t)
                        && self.resource_slots@[self.resource_index@[t] as int] is Some,
                |t: u64| self.resource_slots@[self.resource_index@[t] as int]->Some_0@,
            ),
            events: Map::new(
                |t: u64| self.event_index@.dom().contains(t),
                |t: u64| self.event_slots@[self.event_index@[t] as int]@,
            ),
            entities: self.entities,
        }
    }
}

impl World {
    /// The registered systems, in registration order.
    pub closed spec fn spec_systems(&self) -> Seq<SystemSpec> {
        self.systems@
    }

    /// Every tag index points at a live, well-formed slot, and no two
    /// tags share one.
    pub closed spec fn wf(&self) -> bool {
        &&& forall|t: u64|
            self.component_index@.dom().contains(t) ==> #[trigger] self.component_index@[t]
                < self.stores@.len()
        &&& forall|t1: u64, t2: u64|
            #![trigger self.component_index@[t1], self.component_index@[t2]]
            self.component_index@.dom().contains(t1) && self.component_index@.dom().contains(t2)
                && t1 != t2 ==> self.component_index@[t1] != self.component_index@[t2]
        &&& forall|i: int| 0 <= i < self.stores@.len() ==> (#[trigger] self.stores@[i]).wf()
        &&& forall|t: u64|
            self.resource_index@.dom().contains(t) ==> #[trigger] self.resource_index@[t]
                < self.resource_slots@.len()
        &&& forall|t1: u64, t2: u64|
            #![trigger self.resource_index@[t1], self.resource_index@[t2]]
            self.resource_index@.dom().contains(t1) && self.resource_index@.dom().contains(t2)
                && t1 != t2 ==> self.resource_index@[t1] != self.resource_index@[t2]
        &&& forall|t: u64|
            self.event_index@.dom().contains(t) ==> #[trigger] self.event_index@[t]
                < self.event_slots@.len()
        &&& forall|t1: u64, t2: u64|
            #![trigger self.event_index@[t1], self.event_index@[t2]]
            self.event_index@.dom().contains(t1) && self.event_index@.dom().contains(t2) && t1
                != t2 ==> self.event_index@[t1] != self.event_index@[t2]
    }

    /// An empty world.
    pub fn new() -> (r: World)
        ensures
            r.wf(),
            r@ == initial_world_model(),
            r.spec_systems() =~= Seq::<SystemSpec>::empty(),
    {
        let r = World {
            component_index: TagIndex::new(),
            stores: Vec::new(),
            resource_index: TagIndex::new(),
            resource_slots: Vec::new(),
            event_index: TagIndex::new(),
            event_slots: Vec::new(),
            entities: 0,
            systems: Vec::new(),
        };
        proof {
            assert(r@.components =~= initial_world_model().components);
            assert(r@.sizes =~= initial_world_model().sizes);
            assert(r@.resources =~= initial_world_model().resources);
            assert(r@.events =~= initial_world_model().events);
            assert(r@ =~= initial_world_model());
        }
        r
    }

    /// Allocates a fresh entity id; the caller attaches components to it
    /// afterwards.
    pub fn spawn(&mut self) -> (r: Entity)
        requires
            old(self).wf(),
            old(self)@.entities < u32::MAX,
        ensures
            final(self).wf(),
            r.id == old(self)@.entities,
            final(self)@ == (WorldModel { entities: (old(self)@.entities + 1) as u32, ..old(self)@ }),
            final(self).spec_systems() == old(self).spec_systems(),
    {
        let id = self.entities;
        self.entities = self.entities + 1;
        proof {
            assert(final(self)@ =~= WorldModel {
                entities: (old(self)@.entities + 1) as u32,
                ..old(self)@
            });
        }
        Entity { id }
    }

    /// How many entity ids have been allocated.
    pub fn entity_count(&self) -> (r: u32)
        ensures
            r == self@.entities,
    {
        self.entities
    }

    /// Every allocated entity id, in allocation order.
    pub fn entities(&self) -> (r: Vec<Entity>)
        ensures
            r@.len() == self@.entities,
            forall|i: int| 0 <= i < r@.len() ==> (#[trigger] r@[i]).id == i,
    {
        let count = self.entities;
        let mut r: Vec<Entity> = Vec::new();
        let mut id: u32 = 0;
        while id < count
            invariant
                id <= count,
                r@.len() == id,
                forall|i: int| 0 <= i < r@.len() ==> (#[trigger] r@[i]).id == i,
            decreases count - id,
        {
            r.push(Entity { id });
            id = id + 1;
        }
        r
    }

    /// Attaches `container`'s payload to `entity`, creating the per-type
    /// store lazily on first use of the type, and overwriting any payload
    /// the entity already held under that type.
    pub fn add_component(&mut self, entity: Entity, container: &ComponentContainer)
        requires
            old(self).wf(),
        ensures
            final(self).wf(),
            final(self)@ == world_add_component(
                old(self)@,
                entity.id,
                container.component_type,
                container.type_descriptor.item_size as nat,
                container.data@,
            ),
            final(self).spec_systems() == old(self).spec_systems(),
    {
        let ghost old_self = *self;
        let ct = container.component_type;
        let size = container.type_descriptor.item_size;
        if container.data.len() != size {
            return;
        }
        let found = self.component_index.get(ct);
        match found {
            Some(idx) => {
                proof {
                    assert(self.component_index@.dom().contains(ct));
                }
                if self.stores[idx].item_size() != size {
                    return;
                }
                let unit = if size == 0 { 1usize } else { size };
                let cur_len = self.stores[idx].len();
                proof {
                    self.stores@[idx as int].lemma_dom();
                    assert(old(self)@.components[ct].dom().len() == self.stores@[
                        idx as int].spec_len());
                }
                if cur_len > (usize::MAX - unit) / unit {
                    proof {
                        lemma_capacity_large(cur_len as int, unit as int);
                    }
                    return;
                }
                proof {
                    lemma_capacity_small(cur_len as int, unit as int);
                    assert((cur_len + 1) * unit <= usize::MAX);
                    assert((self.stores@[idx as int].spec_len() + 1) * (
                    if self.stores@[idx as int].spec_item_size() == 0 {
                        1nat
                    } else {
                        self.stores@[idx as int].spec_item_size()
                    }) <= usize::MAX);
                }
                vstd::std_specs::vec::vec_index_mut(&mut self.stores, idx).insert(
                    entity.id,
                    &container.data,
                );
                proof {
                    self.lemma_store_changed(old_self, idx as int, ct);
                    assert(final(self)@ =~= world_add_component(
                        old(self)@,
                        entity.id,
                        ct,
                        size as nat,
                        container.data@,
                    ));
                }
            },
            None => {
                let mut store = SparseRawVec::new(TypeDescriptor { item_size: size });
                proof {
                    let unit: nat = if size == 0 { 1nat } else { size as nat };
                    assert((store.spec_len() + 1) * unit == unit) by (nonlinear_arith)
                        requires store.spec_len() == 0;
                }
                store.insert(entity.id, &container.data);
                let ghost gstore = store;
                let idx = self.stores.len();
                self.stores.push(store);
                self.component_index.insert(ct, idx);
                proof {
                    self.lemma_store_added(old_self, ct, gstore, idx);
                    assert(final(self)@.components[ct] =~= Map::<u32, Seq<u8>>::empty().insert(
                        entity.id,
                        container.data@,
                    ));
                    assert(final(self)@ =~= world_add_component(
                        old(self)@,
                        entity.id,
                        ct,
                        size as nat,
                        container.data@,
                    ));
                }
            },
        }
    }

    /// After mutating only store `idx`, bound to `ct`, every other type's
    /// map is untouched.
    proof fn lemma_store_changed(&self, prev: World, idx: int, ct: u64)
        requires
            prev.wf(),
            prev.component_index@.dom().contains(ct),
            prev.component_index@[ct] == idx,
            0 <= idx < prev.stores@.len(),
            self.component_index@ == prev.component_index@,
            self.stores@.len() == prev.stores@.len(),
            self.stores@ == prev.stores@.update(idx, self.stores@[idx]),
            self.stores@[idx].wf(),
            self.resource_index@ == prev.resource_index@,
            self.resource_slots@ == prev.resource_slots@,
            self.event_index@ == prev.event_index@,
            self.event_slots@ == prev.event_slots@,
            self.entities == prev.entities,
        ensures
            self.wf(),
            self@.components =~= prev@.components.insert(ct, self.stores@[idx]@),
            self@.sizes =~= prev@.sizes.insert(ct, self.stores@[idx].spec_item_size()),
            self@.resources =~= prev@.resources,
            self@.events =~= prev@.events,
            self@.entities == prev@.entities,
    {
        assert forall|t: u64| #[trigger]
            self.component_index@.dom().contains(t) && t != ct implies self.stores@[
            self.component_index@[t] as int] == prev.stores@[prev.component_index@[t] as int] by {
            assert(self.component_index@[t] != idx);
        }
    }

    /// After pushing a fresh store and binding `ct` to it, every other
    /// type's map is untouched and the invariant still holds.
    proof fn lemma_store_added(&self, prev: World, ct: u64, store: SparseRawVec, idx: usize)
        requires
            prev.wf(),
            !prev.component_index@.dom().contains(ct),
            idx == prev.stores@.len(),
            self.component_index@ == prev.component_index@.insert(ct, idx),
            self.stores@ == prev.stores@.push(store),
            store.wf(),
            self.resource_index@ == prev.resource_index@,
            self.resource_slots@ == prev.resource_slots@,
            self.event_index@ == prev.event_index@,
            self.event_slots@ == prev.event_slots@,
            self.entities == prev.entities,
        ensures
            self.wf(),
            self@.components =~= prev@.components.insert(ct, store@),
            self@.sizes =~= prev@.sizes.insert(ct, store.spec_item_size()),
            self@.resources =~= prev@.resources,
            self@.events =~= prev@.events,
            self@.entities == prev@.entities,
    {
        let n = prev.stores@.len() as int;
        assert forall|t: u64| #[trigger]
            self.component_index@.dom().contains(t) && t != ct implies self.component_index@[t]
            < prev.stores@.len() && self.stores@[self.component_index@[t] as int] == prev.stores@[
            prev.component_index@[t] as int] by {
            assert(prev.component_index@.dom().contains(t));
            assert(self.component_index@[t] == prev.component_index@[t]);
            assert(prev.component_index@[t] < prev.stores@.len());
        }
        assert forall|t: u64|
            self.component_index@.dom().contains(t) implies #[trigger] self.component_index@[t]
            < self.stores@.len() by {
            if t != ct {
                assert(self.component_index@[t] < prev.stores@.len());
            }
        }
        assert forall|t1: u64, t2: u64|
            #![trigger self.component_index@[t1], self.component_index@[t2]]
            self.component_index@.dom().contains(t1) && self.component_index@.dom().contains(t2)
                && t1 != t2 implies self.component_index@[t1] != self.component_index@[t2] by {
            if t1 != ct && t2 != ct {
                assert(prev.component_index@.dom().contains(t1));
                assert(prev.component_index@.dom().contains(t2));
                assert(self.component_index@[t1] == prev.component_index@[t1]);
                assert(self.component_index@[t2] == prev.component_index@[t2]);
                assert(prev.component_index@[t1] != prev.component_index@[t2]);
            } else if t1 == ct {
                assert(self.component_index@[t1] == idx);
                assert(self.component_index@[t2] < prev.stores@.len());
            } else {
                assert(self.component_index@[t2] == idx);
                assert(self.component_index@[t1] < prev.stores@.len());
            }
        }
        assert(self.wf());
    }

    /// The payload `entity` holds under type `ctype`, copied out; absent
    /// when it holds none.
    pub fn component(&self, ctype: u64, entity: Entity) -> (r: Option<Vec<u8>>)
        requires
            self.wf(),
        ensures
            (self@.components.dom().contains(ctype) && self@.components[ctype].dom().contains(
                entity.id,
            )) ==> r is Some && r->Some_0@ == self@.components[ctype][entity.id],
            !(self@.components.dom().contains(ctype) && self@.components[ctype].dom().contains(
                entity.id,
            )) ==> r is None,
    {
        let found = self.component_index.get(ctype);
        match found {
            Some(idx) => {
                proof {
                    assert(self.component_index@.dom().contains(ctype));
                    assert(self.component_index@[ctype] == idx);
                }
                self.stores[idx].get(entity.id)
            },
            None => None,
        }
    }

    /// Whether `entity` holds a component of type `ctype`.
    pub fn has_component(&self, ctype: u64, entity: Entity) -> (r: bool)
        requires
            self.wf(),
        ensures
            r == (self@.components.dom().contains(ctype) && self@.components[ctype].dom().contains(
                entity.id,
            )),
    {
        let found = self.component_index.get(ctype);
        match found {
            Some(idx) => {
                proof {
                    assert(self.component_index@.dom().contains(ctype));
                    assert(self.component_index@[ctype] == idx);
                }
                self.stores[idx].contains(entity.id)
            },
            None => false,
        }
    }

    /// Overwrites in place the payload `entity` holds under `ctype`;
    /// reports whether there was one of the right size to overwrite.
    pub fn set_component(&mut self, ctype: u64, entity: Entity, value: &Vec<u8>) -> (r: bool)
        requires
            old(self).wf(),
        ensures
            final(self).wf(),
            r == (old(self)@.components.dom().contains(ctype) && old(self)@.sizes[ctype]
                == value@.len() && old(self)@.components[ctype].dom().contains(entity.id)),
            r ==> final(self)@ == (WorldModel {
                components: old(self)@.components.insert(
                    ctype,
                    old(self)@.components[ctype].insert(entity.id, value@),
                ),
                ..old(self)@
            }),
            !r ==> final(self)@ == old(self)@,
            final(self).spec_systems() == old(self).spec_systems(),
    {
        let ghost old_self = *self;
        let found = self.component_index.get(ctype);
        match found {
            Some(idx) => {
                proof {
                    assert(self.component_index@.dom().contains(ctype));
                    assert(self.component_index@[ctype] == idx);
                }
                if self.stores[idx].item_size() != value.len() {
                    return false;
                }
                let r = vstd::std_specs::vec::vec_index_mut(&mut self.stores, idx).set(
                    entity.id,
                    value,
                );
                proof {
                    if r {
                        self.lemma_store_changed(old_self, idx as int, ctype);
                        assert(final(self)@ =~= WorldModel {
                            components: old(self)@.components.insert(
                                ctype,
                                old(self)@.components[ctype].insert(entity.id, value@),
                            ),
                            ..old(self)@
                        });
                    } else {
                        assert forall|t: u64| #[trigger]
                            self.component_index@.dom().contains(t) implies self.stores@[
                            self.component_index@[t] as int]@ == old_self.stores@[
                            old_self.component_index@[t] as int]@ && self.stores@[
                            self.component_index@[t] as int].spec_item_size() == old_self.stores@[
                            old_self.component_index@[t] as int].spec_item_size() by {}
                        assert(final(self)@.components =~= old(self)@.components);
                        assert(final(self)@.sizes =~= old(self)@.sizes);
                        assert(final(self)@.resources =~= old(self)@.resources);
                        assert(final(self)@.events =~= old(self)@.events);
                        assert(final(self)@ =~= old(self)@);
                    }
                }
                r
            },
            None => false,
        }
    }

    /// Every (entity, payload) pair of type `ctype`, in ascending entity
    /// order regardless of insertion order.
    pub fn components(&self, ctype: u64) -> (r: Vec<(Entity, Vec<u8>)>)
        requires
            self.wf(),
            self@.components.dom().contains(ctype),
        ensures
            r@.len() == self@.components[ctype].dom().len(),
            forall|i: int|
                0 <= i < r@.len() ==> self@.components[ctype].dom().contains(
                    (#[trigger] r@[i]).0.id,
                ) && r@[i].1@ == self@.components[ctype][r@[i].0.id],
            forall|i: int, j: int| 0 <= i < j < r@.len() ==> r@[i].0.id < r@[j].0.id,
            forall|k: u32| self@.components[ctype].dom().contains(k) ==> exists|i: int|
                0 <= i < r@.len() && (#[trigger] r@[i]).0.id == k,
    {
        let found = self.component_index.get(ctype);
        let idx = match found {
            Some(idx) => idx,
            None => {
                proof {
                    assert(false);
                }
                0
            },
        };
        proof {
            assert(self.component_index@.dom().contains(ctype));
            assert(self.component_index@[ctype] == idx);
        }
        let store = &self.stores[idx];
        let count = store.len();
        proof {
            store.lemma_dom();
            store.lemma_keys();
        }
        let mut r: Vec<(Entity, Vec<u8>)> = Vec::new();
        let mut i: usize = 0;
        while i < count
            invariant
                i <= count,
                count == store.spec_len(),
                store.wf(),
                store@ == self@.components[ctype],
                r@.len() == i,
                forall|m: int| 0 <= m < i ==> (#[trigger] r@[m]).0.id == store.spec_keys()[m],
                forall|m: int| 0 <= m < i ==> (#[trigger] r@[m]).1@ == store@[store.spec_keys()[m]],
            decreases count - i,
        {
            let key = store.key_at(i);
            let value = store.get(key);
            match value {
                Some(v) => r.push((Entity { id: key }, v)),
                None => (),
            }
            i += 1;
        }
        proof {
            store.lemma_keys();
            assert forall|k: u32| self@.components[ctype].dom().contains(k) implies exists|i2: int|
                0 <= i2 < r@.len() && (#[trigger] r@[i2]).0.id == k by {
                assert(store.spec_keys().contains(k));
                let i2 = store.spec_keys().index_of(k);
                assert(store.spec_keys()[i2] == k);
                assert(0 <= i2 < r@.len());
                assert(r@[i2].0.id == k);
            }
        }
        r
    }



    /// Attaches every payload of a bundle to `entity`, in order.
    pub fn add_bundle(&mut self, entity: Entity, bundle: &Vec<ComponentContainer>)
        requires
            old(self).wf(),
        ensures
            final(self).wf(),
            final(self)@ == world_add_containers(old(self)@, entity.id, bundle@),
            final(self).spec_systems() == old(self).spec_systems(),
    {
        let n = bundle.len();
        proof {
            assert(bundle@.take(0).len() == 0);
        }
        let mut j: usize = 0;
        while j < n
            invariant
                j <= n,
                n == bundle@.len(),
                self.wf(),
                self@ == world_add_containers(old(self)@, entity.id, bundle@.take(j as int)),
                self.spec_systems() == old(self).spec_systems(),
            decreases n - j,
        {
            self.add_component(entity, &bundle[j]);
            proof {
                lemma_add_containers_take_step(old(self)@, entity.id, bundle@, j as int);
            }
            j += 1;
        }
        proof {
            assert(bundle@.take(n as int) =~= bundle@);
        }
    }

    /// Allocates a fresh entity bearing the bundle's components.
    pub fn spawn_bundle(&mut self, bundle: &Vec<ComponentContainer>) -> (r: Entity)
        requires
            old(self).wf(),
            old(self)@.entities < u32::MAX,
        ensures
            final(self).wf(),
            r.id == old(self)@.entities,
            final(self)@ == world_add_containers(
                WorldModel { entities: (old(self)@.entities + 1) as u32, ..old(self)@ },
                r.id,
                bundle@,
            ),
            final(self).spec_systems() == old(self).spec_systems(),
    {
        let entity = self.spawn();
        self.add_bundle(entity, bundle);
        entity
    }

    /// Whether a store exists for component type `ctype`.
    pub fn has_component_type(&self, ctype: u64) -> (r: bool)
        requires
            self.wf(),
        ensures
            r == self@.components.dom().contains(ctype),
    {
        let found = self.component_index.get(ctype);
        match found {
            Some(_) => true,
            None => false,
        }
    }

    /// Removes the component of type `ctype` that `entity` holds; removing
    /// an absent component reports `false` and leaves the world unchanged.
    pub fn remove_component(&mut self, ctype: u64, entity: Entity) -> (r: bool)
        requires
            old(self).wf(),
        ensures
            final(self).wf(),
            r == (old(self)@.components.dom().contains(ctype)
                && old(self)@.components[ctype].dom().contains(entity.id)),
            old(self)@.components.dom().contains(ctype) ==> final(self)@ == (WorldModel {
                components: old(self)@.components.insert(
                    ctype,
                    old(self)@.components[ctype].remove(entity.id),
                ),
                ..old(self)@
            }),
            !old(self)@.components.dom().contains(ctype) ==> final(self)@ == old(self)@,
            final(self).spec_systems() == old(self).spec_systems(),
    {
        let ghost old_self = *self;
        let found = self.component_index.get(ctype);
        match found {
            Some(idx) => {
                proof {
                    assert(self.component_index@.dom().contains(ctype));
                    assert(self.component_index@[ctype] == idx);
                }
                let r = vstd::std_specs::vec::vec_index_mut(&mut self.stores, idx).remove(
                    entity.id,
                );
                proof {
                    self.lemma_store_changed(old_self, idx as int, ctype);
                    assert(final(self)@ =~= (WorldModel {
                        components: old(self)@.components.insert(
                            ctype,
                            old(self)@.components[ctype].remove(entity.id),
                        ),
                        ..old(self)@
                    }));
                }
                r
            },
            None => {
                proof {
                    assert(final(self)@ =~= old(self)@);
                }
                false
            },
        }
    }

    /// Overwrites the resource singleton of type `rtype`, creating its
    /// slot on first use.
    pub fn add_resource(&mut self, rtype: u64, value: Vec<u8>)
        requires
            old(self).wf(),
        ensures
            final(self).wf(),
            final(self)@ == world_add_resource(old(self)@, rtype, value@),
            final(self).spec_systems() == old(self).spec_systems(),
    {
        let ghost old_self = *self;
        let found = self.resource_index.get(rtype);
        match found {
            Some(idx) => {
                *vstd::std_specs::vec::vec_index_mut(&mut self.resource_slots, idx) = Some(value);
                proof {
                    assert forall|t: u64| #[trigger]
                        self.resource_index@.dom().contains(t) && t != rtype implies self
                        .resource_slots@[self.resource_index@[t] as int] == old_self
                        .resource_slots@[old_self.resource_index@[t] as int] by {
                        assert(self.resource_index@[t] != idx);
                    }
                    assert(final(self)@.resources =~= old(self)@.resources.insert(rtype, value@));
                    assert(final(self)@.components =~= old(self)@.components);
                    assert(final(self)@.sizes =~= old(self)@.sizes);
                    assert(final(self)@.events =~= old(self)@.events);
                    assert(final(self)@ =~= world_add_resource(old(self)@, rtype, value@));
                }
            },
            None => {
                let idx = self.resource_slots.len();
                self.resource_slots.push(Some(value));
                self.resource_index.insert(rtype, idx);
                proof {
                    assert forall|t: u64| #[trigger]
                        self.resource_index@.dom().contains(t) && t != rtype implies self
                        .resource_index@[t] < old_self.resource_slots@.len() && self
                        .resource_slots@[self.resource_index@[t] as int] == old_self
                        .resource_slots@[old_self.resource_index@[t] as int] by {
                        assert(old_self.resource_index@.dom().contains(t));
                        assert(self.resource_index@[t] == old_self.resource_index@[t]);
                        assert(old_self.resource_index@[t] < old_self.resource_slots@.len());
                    }
                    assert(final(self)@.resources =~= old(self)@.resources.insert(rtype, value@));
                    assert(final(self)@.components =~= old(self)@.components);
                    assert(final(self)@.sizes =~= old(self)@.sizes);
                    assert(final(self)@.events =~= old(self)@.events);
                    assert(final(self)@ =~= world_add_resource(old(self)@, rtype, value@));
                }
            },
        }
    }

    /// A borrow of the resource of type `rtype`, if one is live.
    pub fn resource(&self, rtype: u64) -> (r: Option<&Vec<u8>>)
        requires
            self.wf(),
        ensures
            self@.resources.dom().contains(rtype) ==> r is Some && r->Some_0@
                == self@.resources[rtype],
            !self@.resources.dom().contains(rtype) ==> r is None,
    {
        let found = self.resource_index.get(rtype);
        match found {
            Some(idx) => {
                proof {
                    assert(self.resource_index@.dom().contains(rtype));
                    assert(self.resource_index@[rtype] == idx);
                }
                match &self.resource_slots[idx] {
                    Some(v) => Some(v),
                    None => None,
                }
            },
            None => None,
        }
    }

    /// Whether a resource of type `rtype` is live.
    pub fn has_resource(&self, rtype: u64) -> (r: bool)
        requires
            self.wf(),
        ensures
            r == self@.resources.dom().contains(rtype),
    {
        let found = self.resource_index.get(rtype);
        match found {
            Some(idx) => {
                proof {
                    assert(self.resource_index@.dom().contains(rtype));
                    assert(self.resource_index@[rtype] == idx);
                }
                self.resource_slots[idx].is_some()
            },
            None => false,
        }
    }

    /// Overwrites the live resource of type `rtype` in place; reports
    /// whether one was live.
    pub fn set_resource(&mut self, rtype: u64, value: Vec<u8>) -> (r: bool)
        requires
            old(self).wf(),
        ensures
            final(self).wf(),
            r == old(self)@.resources.dom().contains(rtype),
            r ==> final(self)@ == world_add_resource(old(self)@, rtype, value@),
            !r ==> *final(self) == *old(self),
            final(self).spec_systems() == old(self).spec_systems(),
    {
        let ghost old_self = *self;
        let found = self.resource_index.get(rtype);
        match found {
            Some(idx) => {
                proof {
                    assert(self.resource_index@.dom().contains(rtype));
                    assert(self.resource_index@[rtype] == idx);
                }
                if self.resource_slots[idx].is_none() {
                    return false;
                }
                *vstd::std_specs::vec::vec_index_mut(&mut self.resource_slots, idx) = Some(value);
                proof {
                    assert forall|t: u64| #[trigger]
                        self.resource_index@.dom().contains(t) && t != rtype implies self
                        .resource_slots@[self.resource_index@[t] as int] == old_self
                        .resource_slots@[old_self.resource_index@[t] as int] by {
                        assert(self.resource_index@[t] != idx);
                    }
                    assert(final(self)@.resources =~= old(self)@.resources.insert(rtype, value@));
                    assert(final(self)@.components =~= old(self)@.components);
                    assert(final(self)@.sizes =~= old(self)@.sizes);
                    assert(final(self)@.events =~= old(self)@.events);
                    assert(final(self)@ =~= world_add_resource(old(self)@, rtype, value@));
                }
                true
            },
            None => false,
        }
    }

    /// Removes and hands over the resource of type `rtype`, leaving its
    /// slot empty until something is put back; the take/put pattern lets
    /// a collaborator own the value while still reading the world.
    pub fn take_resource(&mut self, rtype: u64) -> (r: Option<Vec<u8>>)
        requires
            old(self).wf(),
        ensures
            final(self).wf(),
            old(self)@.resources.dom().contains(rtype)
                ==> r is Some && r->Some_0@ == old(self)@.resources[rtype],
            !old(self)@.resources.dom().contains(rtype) ==> r is None,
            final(self)@ == (WorldModel {
                resources: old(self)@.resources.remove(rtype),
                ..old(self)@
            }),
            final(self).spec_systems() == old(self).spec_systems(),
    {
        let ghost old_self = *self;
        let found = self.resource_index.get(rtype);
        match found {
            Some(idx) => {
                proof {
                    assert(self.resource_index@.dom().contains(rtype));
                    assert(self.resource_index@[rtype] == idx);
                }
                let taken = vstd::std_specs::vec::vec_index_mut(
                    &mut self.resource_slots,
                    idx,
                ).take();
                proof {
                    assert forall|t: u64| #[trigger]
                        self.resource_index@.dom().contains(t) && t != rtype implies self
                        .resource_slots@[self.resource_index@[t] as int] == old_self
                        .resource_slots@[old_self.resource_index@[t] as int] by {
                        assert(self.resource_index@[t] != idx);
                    }
                    assert(final(self)@.resources =~= old(self)@.resources.remove(rtype));
                    assert(final(self)@.components =~= old(self)@.components);
                    assert(final(self)@.sizes =~= old(self)@.sizes);
                    assert(final(self)@.events =~= old(self)@.events);
                    assert(final(self)@ =~= WorldModel {
                        resources: old(self)@.resources.remove(rtype),
                        ..old(self)@
                    });
                }
                match taken {
                    Some(v) => Some(v),
                    None => None,
                }
            },
            None => {
                proof {
                    assert(final(self)@.resources =~= old(self)@.resources.remove(rtype));
                    assert(final(self)@ =~= WorldModel {
                        resources: old(self)@.resources.remove(rtype),
                        ..old(self)@
                    });
                }
                None
            },
        }
    }

    /// Delivers an event of type `etype` for the current tick, replacing
    /// any instance already delivered this tick.
    pub fn on_event(&mut self, etype: u64, value: Vec<u8>)
        requires
            old(self).wf(),
        ensures
            final(self).wf(),
            final(self)@ == (WorldModel {
                events: old(self)@.events.insert(etype, value@),
                ..old(self)@
            }),
            final(self).spec_systems() == old(self).spec_systems(),
    {
        let ghost old_self = *self;
        let found = self.event_index.get(etype);
        match found {
            Some(idx) => {
                proof {
                    assert(self.event_index@.dom().contains(etype));
                    assert(self.event_index@[etype] == idx);
                }
                *vstd::std_specs::vec::vec_index_mut(&mut self.event_slots, idx) = value;
                proof {
                    assert forall|t: u64| #[trigger]
                        self.event_index@.dom().contains(t) && t != etype implies self
                        .event_slots@[self.event_index@[t] as int] == old_self.event_slots@[
                        old_self.event_index@[t] as int] by {
                        assert(self.event_index@[t] != idx);
                    }
                    assert(final(self)@.events =~= old(self)@.events.insert(etype, value@));
                    assert(final(self)@.components =~= old(self)@.components);
                    assert(final(self)@.sizes =~= old(self)@.sizes);
                    assert(final(self)@.resources =~= old(self)@.resources);
                    assert(final(self)@ =~= WorldModel {
                        events: old(self)@.events.insert(etype, value@),
                        ..old(self)@
                    });
                }
            },
            None => {
                let idx = self.event_slots.len();
                self.event_slots.push(value);
                self.event_index.insert(etype, idx);
                proof {
                    assert forall|t: u64| #[trigger]
                        self.event_index@.dom().contains(t) && t != etype implies self
                        .event_index@[t] < old_self.event_slots@.len() && self.event_slots@[
                        self.event_index@[t] as int] == old_self.event_slots@[old_self
                        .event_index@[t] as int] by {
                        assert(old_self.event_index@.dom().contains(t));
                        assert(self.event_index@[t] == old_self.event_index@[t]);
                        assert(old_self.event_index@[t] < old_self.event_slots@.len());
                    }
                    assert(final(self)@.events =~= old(self)@.events.insert(etype, value@));
                    assert(final(self)@.components =~= old(self)@.components);
                    assert(final(self)@.sizes =~= old(self)@.sizes);
                    assert(final(self)@.resources =~= old(self)@.resources);
                    assert(final(self)@ =~= WorldModel {
                        events: old(self)@.events.insert(etype, value@),
                        ..old(self)@
                    });
                }
            },
        }
    }

    /// A borrow of the event of type `etype` delivered this tick, if any.
    pub fn event(&self, etype: u64) -> (r: Option<&Vec<u8>>)
        requires
            self.wf(),
        ensures
            self@.events.dom().contains(etype) ==> r is Some && r->Some_0@ == self@.events[etype],
            !self@.events.dom().contains(etype) ==> r is None,
    {
        let found = self.event_index.get(etype);
        match found {
            Some(idx) => {
                proof {
                    assert(self.event_index@.dom().contains(etype));
                    assert(self.event_index@[etype] == idx);
                }
                Some(&self.event_slots[idx])
            },
            None => None,
        }
    }

    /// Whether an event of type `etype` fired this tick.
    pub fn has_event(&self, etype: u64) -> (r: bool)
        requires
            self.wf(),
        ensures
            r == self@.events.dom().contains(etype),
    {
        let found = self.event_index.get(etype);
        match found {
            Some(_) => true,
            None => false,
        }
    }

    /// Forgets this tick's events; events are not queued across ticks.
    fn clear_events(&mut self)
        requires
            old(self).wf(),
        ensures
            final(self).wf(),
            final(self)@ == (WorldModel { events: Map::empty(), ..old(self)@ }),
            final(self).spec_systems() == old(self).spec_systems(),
    {
        self.event_index = TagIndex::new();
        self.event_slots = Vec::new();
        proof {
            assert(final(self)@.events =~= Map::<u64, Seq<u8>>::empty());
            assert(final(self)@.components =~= old(self)@.components);
            assert(final(self)@.sizes =~= old(self)@.sizes);
            assert(final(self)@.resources =~= old(self)@.resources);
            assert(final(self)@ =~= WorldModel { events: Map::empty(), ..old(self)@ });
        }
    }


    /// Registers a recurring system to be considered every tick.
    pub fn add_system(&mut self, system: SystemSpec)
        requires
            old(self).wf(),
        ensures
            final(self).wf(),
            final(self)@ == old(self)@,
            final(self).spec_systems() == old(self).spec_systems().push(system),
    {
        self.systems.push(system);
        proof {
            assert(final(self)@.components =~= old(self)@.components);
            assert(final(self)@.sizes =~= old(self)@.sizes);
            assert(final(self)@.resources =~= old(self)@.resources);
            assert(final(self)@.events =~= old(self)@.events);
            assert(final(self)@ =~= old(self)@);
        }
    }

    /// How many systems are registered.
    pub fn system_count(&self) -> (r: usize)
        ensures
            r == self.spec_systems().len(),
    {
        self.systems.len()
    }

    /// Whether every input the system declares can be materialized now.
    pub fn is_system_available(&self, system: &SystemSpec) -> (r: bool)
        requires
            self.wf(),
        ensures
            r == system_available(self@, *system),
    {
        let n = system.inputs.len();
        let mut i: usize = 0;
        while i < n
            invariant
                i <= n,
                n == system.inputs@.len(),
                self.wf(),
                forall|j: int| 0 <= j < i ==> input_available(self@, #[trigger] system.inputs@[j]),
            decreases n - i,
        {
            let ok = match &system.inputs[i] {
                SystemInput::WorldRef => true,
                SystemInput::Resource(t) => self.has_resource(*t),
                SystemInput::Query => true,
                SystemInput::Event(t) => self.has_event(*t),
                SystemInput::Value => true,
            };
            if !ok {
                proof {
                    assert(!input_available(self@, system.inputs@[i as int]));
                }
                return false;
            }
            i += 1;
        }
        true
    }

    /// The registration positions of the systems that can run this tick,
    /// in registration order.  A system missing an input is skipped, not
    /// an error; it is reconsidered next tick.
    pub fn available_systems(&self) -> (r: Vec<usize>)
        requires
            self.wf(),
        ensures
            forall|i: int, j: int| 0 <= i < j < r@.len() ==> r@[i] < r@[j],
            forall|i: int|
                0 <= i < r@.len() ==> (#[trigger] r@[i]) < self.spec_systems().len()
                    && system_available(self@, self.spec_systems()[r@[i] as int]),
            forall|k: int|
                0 <= k < self.spec_systems().len() && system_available(
                    self@,
                    self.spec_systems()[k],
                ) ==> exists|i: int| 0 <= i < r@.len() && (#[trigger] r@[i]) == k,
    {
        let n = self.systems.len();
        let mut r: Vec<usize> = Vec::new();
        let mut k: usize = 0;
        while k < n
            invariant
                k <= n,
                n == self.spec_systems().len(),
                self.wf(),
                forall|i: int, j: int| 0 <= i < j < r@.len() ==> r@[i] < r@[j],
                forall|i: int| 0 <= i < r@.len() ==> (#[trigger] r@[i]) < k,
                forall|i: int|
                    0 <= i < r@.len() ==> system_available(
                        self@,
                        self.spec_systems()[r@[i] as int],
                    ),
                forall|m: int|
                    0 <= m < k && system_available(self@, self.spec_systems()[m]) ==> exists|i: int|
                        0 <= i < r@.len() && (#[trigger] r@[i]) == m,
            decreases n - k,
        {
            let ghost prev_r = r@;
            if self.is_system_available(&self.systems[k]) {
                r.push(k);
            }
            proof {
                assert forall|m: int|
                    0 <= m < k + 1 && system_available(self@, self.spec_systems()[m])
                    implies exists|i: int| 0 <= i < r@.len() && (#[trigger] r@[i]) == m by {
                    if m == k {
                        assert(r@[r@.len() - 1] == k);
                    } else {
                        let i = choose|i: int| 0 <= i < prev_r.len() && prev_r[i] == m;
                        assert(r@[i] == m);
                    }
                }
            }
            k += 1;
        }
        r
    }

    /// Whether `e` holds every component type in `required`.
    pub fn matches(&self, required: &Vec<u64>, e: Entity) -> (r: bool)
        requires
            self.wf(),
        ensures
            r == entity_matches(self@, required@, e.id),
    {
        let n = required.len();
        let mut i: usize = 0;
        while i < n
            invariant
                i <= n,
                n == required@.len(),
                self.wf(),
                forall|j: int|
                    0 <= j < i ==> self@.components.dom().contains(#[trigger] required@[j])
                        && self@.components[required@[j]].dom().contains(e.id),
            decreases n - i,
        {
            if !self.has_component(required[i], e) {
                return false;
            }
            i += 1;
        }
        true
    }

    /// Every live entity id that holds all of the required component
    /// types, in ascending order; membership is evaluated now, against the
    /// world as it currently stands.
    pub fn query(&self, required: &Vec<u64>) -> (r: Vec<Entity>)
        requires
            self.wf(),
        ensures
            forall|i: int, j: int| 0 <= i < j < r@.len() ==> r@[i].id < r@[j].id,
            forall|i: int|
                0 <= i < r@.len() ==> (#[trigger] r@[i]).id < self@.entities && entity_matches(
                    self@,
                    required@,
                    r@[i].id,
                ),
            forall|e: u32|
                e < self@.entities && entity_matches(self@, required@, e) ==> exists|i: int|
                    0 <= i < r@.len() && (#[trigger] r@[i]).id == e,
    {
        let count = self.entities;
        let mut r: Vec<Entity> = Vec::new();
        let mut id: u32 = 0;
        while id < count
            invariant
                id <= count,
                count == self@.entities,
                self.wf(),
                forall|i: int, j: int| 0 <= i < j < r@.len() ==> r@[i].id < r@[j].id,
                forall|i: int| 0 <= i < r@.len() ==> (#[trigger] r@[i]).id < id,
                forall|i: int|
                    0 <= i < r@.len() ==> entity_matches(self@, required@, (#[trigger] r@[i]).id),
                forall|e: u32|
                    e < id && entity_matches(self@, required@, e) ==> exists|i: int|
                        0 <= i < r@.len() && (#[trigger] r@[i]).id == e,
            decreases count - id,
        {
            let ghost prev_r = r@;
            let hit = self.matches(required, Entity { id });
            if hit {
                r.push(Entity { id });
            }
            proof {
                assert forall|e: u32|
                    e < id + 1 && entity_matches(self@, required@, e) implies exists|i: int|
                    0 <= i < r@.len() && (#[trigger] r@[i]).id == e by {
                    if e == id {
                        assert(r@[r@.len() - 1].id == id);
                    } else {
                        let i = choose|i: int| 0 <= i < prev_r.len() && prev_r[i].id == e;
                        assert(r@[i].id == e);
                    }
                }
            }
            id = id + 1;
        }
        r
    }

    /// Applies recorded commands in production order, each against the
    /// state the previous ones left.
    pub fn run_commands(&mut self, commands: Vec<Command>)
        requires
            old(self).wf(),
            old(self)@.entities + count_creates(commands@) <= u32::MAX,
        ensures
            final(self).wf(),
            final(self)@ == world_apply_commands(old(self)@, commands@),
            final(self).spec_systems() == old(self).spec_systems(),
    {
        let n = commands.len();
        proof {
            assert(commands@.skip(0) =~= commands@);
            assert(commands@.take(0).len() == 0);
        }
        let mut i: usize = 0;
        while i < n
            invariant
                i <= n,
                n == commands@.len(),
                self.wf(),
                self@.entities + count_creates(commands@.skip(i as int)) <= u32::MAX,
                self@ == world_apply_commands(old(self)@, commands@.take(i as int)),
                self.spec_systems() == old(self).spec_systems(),
            decreases n - i,
        {
            proof {
                assert(commands@.skip(i as int)[0] == commands@[i as int]);
                assert(commands@.skip(i as int).drop_first() =~= commands@.skip(i + 1));
            }
            let ghost pre = self@;
            match &commands[i] {
                Command::CreateEntity(cs) => {
                    let entity = self.spawn();
                    let ghost spawned = self@;
                    let m = cs.len();
                    let mut j: usize = 0;
                    while j < m
                        invariant
                            j <= m,
                            m == cs@.len(),
                            self.wf(),
                            self@ == world_add_containers(spawned, entity.id, cs@.take(j as int)),
                            self@.entities == spawned.entities,
                            self.spec_systems() == old(self).spec_systems(),
                        decreases m - j,
                    {
                        self.add_component(entity, &cs[j]);
                        proof {
                            lemma_add_containers_take_step(spawned, entity.id, cs@, j as int);
                            lemma_add_containers_entities(
                                spawned,
                                entity.id,
                                cs@.take(j + 1),
                            );
                        }
                        j += 1;
                    }
                    proof {
                        assert(cs@.take(m as int) =~= cs@);
                        assert(self@ == world_apply_command(pre, commands@[i as int]));
                    }
                },
                Command::DestroyEntity(entity) => {
                    self.destroy(*entity);
                },
                Command::CreateComponent(entity, cs) => {
                    let ghost base = self@;
                    let m = cs.len();
                    let mut j: usize = 0;
                    while j < m
                        invariant
                            j <= m,
                            m == cs@.len(),
                            self.wf(),
                            self@ == world_add_containers(base, entity.id, cs@.take(j as int)),
                            self@.entities == base.entities,
                            self.spec_systems() == old(self).spec_systems(),
                        decreases m - j,
                    {
                        self.add_component(*entity, &cs[j]);
                        proof {
                            lemma_add_containers_take_step(base, entity.id, cs@, j as int);
                            lemma_add_containers_entities(base, entity.id, cs@.take(j + 1));
                        }
                        j += 1;
                    }
                    proof {
                        assert(cs@.take(m as int) =~= cs@);
                        assert(self@ == world_apply_command(pre, commands@[i as int]));
                    }
                },
                Command::DestroyComponent(_) => {},
            }
            proof {
                lemma_apply_commands_take_step(old(self)@, commands@, i as int);
                assert(self@ == world_apply_commands(old(self)@, commands@.take(i + 1)));
            }
            i += 1;
        }
        proof {
            assert(commands@.take(n as int) =~= commands@);
        }
    }

    /// One tick's mutation phase: merges the command lists that resolved
    /// async jobs produced with those the recurring systems produced, in
    /// that order, applies them in a single pass, and forgets this tick's
    /// events.  No list is applied until all were collected, so every
    /// producer observed the same world.
    pub fn apply_update(&mut self, job_lists: Vec<CommandList>, system_lists: Vec<CommandList>)
        requires
            old(self).wf(),
            old(self)@.entities + count_creates(
                concat_lists(job_lists@) + concat_lists(system_lists@),
            ) <= u32::MAX,
        ensures
            final(self).wf(),
            final(self)@ == (WorldModel {
                events: Map::empty(),
                ..world_apply_commands(
                    old(self)@,
                    concat_lists(job_lists@) + concat_lists(system_lists@),
                )
            }),
            final(self).spec_systems() == old(self).spec_systems(),
    {
        let ghost gjobs = job_lists@;
        let ghost gsystems = system_lists@;
        let mut commands: Vec<Command> = Vec::new();
        let mut jobs = job_lists;
        while jobs.len() > 0
            invariant
                commands@ + concat_lists(jobs@) =~= concat_lists(gjobs),
            decreases jobs@.len(),
        {
            let mut list = jobs.remove(0);
            commands.append(&mut list.commands);
            proof {
                assert(commands@ + concat_lists(jobs@) =~= concat_lists(gjobs));
            }
        }
        proof {
            assert(concat_lists(jobs@) =~= Seq::<Command>::empty());
            assert(commands@ =~= concat_lists(gjobs));
        }
        let mut produced = system_lists;
        while produced.len() > 0
            invariant
                commands@ + concat_lists(produced@) =~= concat_lists(gjobs) + concat_lists(
                    gsystems,
                ),
            decreases produced@.len(),
        {
            let mut list = produced.remove(0);
            commands.append(&mut list.commands);
            proof {
                assert(commands@ + concat_lists(produced@) =~= concat_lists(gjobs) + concat_lists(
                    gsystems,
                ));
            }
        }
        proof {
            assert(concat_lists(produced@) =~= Seq::<Command>::empty());
            assert(commands@ =~= concat_lists(gjobs) + concat_lists(gsystems));
        }
        self.run_commands(commands);
        self.clear_events();
    }

    /// Removes `entity`'s slot from every component store that holds it;
    /// destroying an entity that holds nothing, or was never allocated,
    /// is a no-op.
    pub fn destroy(&mut self, entity: Entity)
        requires
            old(self).wf(),
        ensures
            final(self).wf(),
            final(self)@ == world_destroy(old(self)@, entity.id),
            forall|t: u64|
                #[trigger] final(self)@.components.dom().contains(t)
                    ==> !final(self)@.components[t].dom().contains(entity.id),
            final(self).spec_systems() == old(self).spec_systems(),
    {
        let ghost old_self = *self;
        let count = self.stores.len();
        let mut i: usize = 0;
        while i < count
            invariant
                i <= count,
                count == self.stores@.len(),
                self.stores@.len() == old_self.stores@.len(),
                self.component_index == old_self.component_index,
                self.resource_index == old_self.resource_index,
                self.resource_slots@ == old_self.resource_slots@,
                self.event_index == old_self.event_index,
                self.event_slots@ == old_self.event_slots@,
                self.entities == old_self.entities,
                self.systems@ == old_self.systems@,
                old_self.wf(),
                forall|m: int|
                    0 <= m < i ==> (#[trigger] self.stores@[m])@ == old_self.stores@[m]@.remove(
                        entity.id,
                    ) && self.stores@[m].wf() && self.stores@[m].spec_item_size()
                        == old_self.stores@[m].spec_item_size(),
                forall|m: int| i <= m < count ==> self.stores@[m] == old_self.stores@[m],
            decreases count - i,
        {
            proof {
                assert(self.stores@[i as int] == old_self.stores@[i as int]);
                assert(old_self.stores@[i as int].wf());
            }
            vstd::std_specs::vec::vec_index_mut(&mut self.stores, i).remove(entity.id);
            i += 1;
        }
        proof {
            assert(final(self).wf());
            assert(final(self)@.components =~= world_destroy(old(self)@, entity.id).components);
            assert(final(self)@.sizes =~= old(self)@.sizes);
            assert(final(self)@.resources =~= old(self)@.resources);
            assert(final(self)@.events =~= old(self)@.events);
            assert(final(self)@ =~= world_destroy(old(self)@, entity.id));
        }
    }
}


/// After attaching a component whose payload matches its descriptor,
/// whose size agrees with the store, and which fits, the entity holds
/// exactly that payload, and reports holding it.
pub proof fn lemma_component_after_add(m: WorldModel, e: u32, ct: u64, size: nat, data: Seq<u8>)
    requires
        data.len() == size,
        m.components.dom().contains(ct) ==> m.sizes[ct] == size && (m.components[ct].dom().len()
            + 1) * store_unit(size) <= usize::MAX,
    ensures
        world_add_component(m, e, ct, size, data).components.dom().contains(ct),
        world_add_component(m, e, ct, size, data).components[ct].dom().contains(e),
        world_add_component(m, e, ct, size, data).components[ct][e] == data,
{
}

/// A component encoded into a command list payload and applied against a
/// fresh world comes back equal to the value encoded: the round trip
/// through the raw byte path loses nothing.
pub proof fn lemma_create_entity_round_trip(cmd: Command, c: ComponentContainer)
    requires
        c.wf(),
        cmd matches Command::CreateEntity(cs) && cs@ =~= seq![c],
    ensures
        ({
            let m = world_apply_command(initial_world_model(), cmd);
            &&& m.entities == 1
            &&& m.components.dom().contains(c.component_type)
            &&& m.components[c.component_type].dom().contains(0)
            &&& m.components[c.component_type][0] == c.data@
        }),
{
    match cmd {
        Command::CreateEntity(cs) => {
            let m1 = WorldModel { entities: 1, ..initial_world_model() };
            assert(cs@.drop_first() =~= Seq::<ComponentContainer>::empty());
            assert(cs@[0] == c);
            let m2 = world_add_component(
                m1,
                0,
                c.component_type,
                c.type_descriptor.item_size as nat,
                c.data@,
            );
            assert(world_add_containers(m1, 0, cs@) == world_add_containers(
                m2,
                0,
                cs@.drop_first(),
            ));
            assert(!m1.components.dom().contains(c.component_type));
        },
        _ => {},
    }
}

/// Registering a resource twice leaves exactly one live instance of that
/// type, holding the second value.
pub proof fn lemma_resource_overwrite(m: WorldModel, rt: u64, v1: Seq<u8>, v2: Seq<u8>)
    ensures
        world_add_resource(world_add_resource(m, rt, v1), rt, v2).resources == m.resources.insert(
            rt,
            v2,
        ),
        world_add_resource(world_add_resource(m, rt, v1), rt, v2).resources[rt] == v2,
        world_add_resource(world_add_resource(m, rt, v1), rt, v2).resources.dom()
            =~= m.resources.dom().insert(rt),
{
    assert(m.resources.insert(rt, v1).insert(rt, v2) =~= m.resources.insert(rt, v2));
}

/// When the store's length passes the capacity test, one more instance
/// still fits in addressable bytes.
proof fn lemma_capacity_small(len: int, unit: int)
    requires
        1 <= unit <= usize::MAX,
        0 <= len <= (usize::MAX - unit) / unit,
    ensures
        (len + 1) * unit <= usize::MAX,
{
    let d = (usize::MAX - unit) / unit;
    lemma_fundamental_div_mod(usize::MAX - unit, unit);
    lemma_mul_inequality(len, d, unit);
    assert(d * unit <= usize::MAX - unit) by (nonlinear_arith)
        requires
            d >= 0,
            unit >= 1,
            usize::MAX - unit == unit * d + (usize::MAX - unit) % unit,
            (usize::MAX - unit) % unit >= 0,
    ;
    assert((len + 1) * unit == len * unit + unit) by (nonlinear_arith);
}

/// When it fails the test, one more instance would not fit.
proof fn lemma_capacity_large(len: int, unit: int)
    requires
        1 <= unit <= usize::MAX,
        len > (usize::MAX - unit) / unit,
    ensures
        (len + 1) * unit > usize::MAX,
{
    let d = (usize::MAX - unit) / unit;
    lemma_fundamental_div_mod(usize::MAX - unit, unit);
    lemma_mul_inequality(d + 1, len, unit);
    assert((d + 1) * unit > usize::MAX - unit) by (nonlinear_arith)
        requires
            unit >= 1,
            usize::MAX - unit == unit * d + (usize::MAX - unit) % unit,
            (usize::MAX - unit) % unit < unit,
    ;
    assert((len + 1) * unit >= (d + 2) * unit) by (nonlinear_arith)
        requires
            len >= d + 1,
            unit >= 1,
    ;
    assert((d + 2) * unit == (d + 1) * unit + unit) by (nonlinear_arith);
}

} // verus!
