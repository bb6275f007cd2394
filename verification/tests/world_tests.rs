use ecs_core::ecs::codec::{decode_u32, encode_u32};
use ecs_core::ecs::component::ComponentContainer;
use ecs_core::ecs::hierarchy::HierarchyExt;
use ecs_core::ecs::type_descriptor::TypeDescriptor;
use ecs_core::ecs::world::World;
use ecs_core::ecs::Entity;

const TEST_COMPONENT: u64 = 1;
const TEST_COMPONENT_2: u64 = 2;
const EMPTY_COMPONENT: u64 = 3;
const RESOURCE_1: u64 = 10;
const RESOURCE_2: u64 = 11;

fn u32_container(tag: u64, value: u32) -> ComponentContainer {
    ComponentContainer::new(tag, TypeDescriptor::new(4, 4), encode_u32(value))
}

fn empty_container(tag: u64) -> ComponentContainer {
    ComponentContainer::new(tag, TypeDescriptor::new(0, 1), Vec::new())
}

#[test]
fn test_entity() {
    let mut world = World::new();

    world.spawn();
}

#[test]
fn test_component() {
    let mut world = World::new();
    let entity = world.spawn();
    world.add_component(entity, &u32_container(TEST_COMPONENT, 1));

    assert_eq!(decode_u32(&world.component(TEST_COMPONENT, entity).unwrap()), 1);
}

#[test]
fn test_component_empty() {
    let mut world = World::new();
    let entity = world.spawn();
    world.add_component(entity, &empty_container(EMPTY_COMPONENT));

    assert!(world.has_component(EMPTY_COMPONENT, entity));
    assert!(world.component(EMPTY_COMPONENT, entity).is_some());
}

#[test]
fn test_components() {
    let mut world = World::new();

    let e1 = world.spawn();
    world.add_component(e1, &u32_container(TEST_COMPONENT, 1));

    let e2 = world.spawn();
    world.add_component(e2, &u32_container(TEST_COMPONENT, 2));

    let it = world.components(TEST_COMPONENT);
    assert_eq!(it.len(), 2);
    assert_eq!(decode_u32(&it[0].1), 1);
    assert_eq!(decode_u32(&it[1].1), 2);
}

#[test]
fn test_components_mut() {
    let mut world = World::new();

    let e1 = world.spawn();
    world.add_component(e1, &u32_container(TEST_COMPONENT, 1));

    let e2 = world.spawn();
    world.add_component(e2, &u32_container(TEST_COMPONENT, 2));

    assert!(world.set_component(TEST_COMPONENT, e1, &encode_u32(123)));

    let it = world.components(TEST_COMPONENT);
    assert_eq!(decode_u32(&it[0].1), 123);
}

#[test]
fn world_test_resource() {
    let mut world = World::new();

    world.add_resource(RESOURCE_1, encode_u32(123));
    world.add_resource(RESOURCE_2, encode_u32(1234));

    assert_eq!(decode_u32(world.resource(RESOURCE_1).unwrap()), 123);
    assert_eq!(decode_u32(world.resource(RESOURCE_2).unwrap()), 1234);
}

#[test]
fn test_resource_overwrite() {
    let mut world = World::new();

    world.add_resource(RESOURCE_1, encode_u32(123));
    assert_eq!(decode_u32(world.resource(RESOURCE_1).unwrap()), 123);

    world.add_resource(RESOURCE_1, encode_u32(1234));
    assert_eq!(decode_u32(world.resource(RESOURCE_1).unwrap()), 1234);
}

#[test]
fn take_resource_leaves_nothing() {
    let mut world = World::new();

    world.add_resource(RESOURCE_1, encode_u32(5));
    let taken = world.take_resource(RESOURCE_1).unwrap();
    assert_eq!(decode_u32(&taken), 5);

    assert!(world.resource(RESOURCE_1).is_none());
    assert!(world.take_resource(RESOURCE_1).is_none());

    world.add_resource(RESOURCE_1, taken);
    assert_eq!(decode_u32(world.resource(RESOURCE_1).unwrap()), 5);
}

#[test]
fn test_bundle() {
    let mut world = World::new();

    let bundle = vec![u32_container(TEST_COMPONENT, 1), u32_container(TEST_COMPONENT_2, 2)];
    let entity = world.spawn_bundle(&bundle);

    assert_eq!(decode_u32(&world.component(TEST_COMPONENT, entity).unwrap()), 1);
    assert_eq!(decode_u32(&world.component(TEST_COMPONENT_2, entity).unwrap()), 2);
}

#[test]
fn test_has_component() {
    let mut world = World::new();

    let entity1 = world.spawn();
    world.add_component(entity1, &empty_container(EMPTY_COMPONENT));
    let entity2 = world.spawn();

    assert!(world.has_component(EMPTY_COMPONENT, entity1));
    assert!(!world.has_component(EMPTY_COMPONENT, entity2));
}

#[test]
fn test_destroy() {
    let mut world = World::new();
    let entity = world.spawn();
    world.add_component(entity, &empty_container(EMPTY_COMPONENT));

    world.destroy(entity);

    assert!(world.component(EMPTY_COMPONENT, entity).is_none());
}

#[test]
fn destroy_removes_from_every_store() {
    let mut world = World::new();
    let entity = world.spawn();
    let other = world.spawn();
    world.add_component(entity, &u32_container(TEST_COMPONENT, 1));
    world.add_component(entity, &u32_container(TEST_COMPONENT_2, 2));
    world.add_component(other, &u32_container(TEST_COMPONENT, 9));

    world.destroy(entity);

    assert!(world.component(TEST_COMPONENT, entity).is_none());
    assert!(world.component(TEST_COMPONENT_2, entity).is_none());
    assert_eq!(decode_u32(&world.component(TEST_COMPONENT, other).unwrap()), 9);
}

#[test]
fn remove_component_is_idempotent() {
    let mut world = World::new();
    let entity = world.spawn();
    world.add_component(entity, &u32_container(TEST_COMPONENT, 1));

    assert!(world.remove_component(TEST_COMPONENT, entity));
    assert!(!world.remove_component(TEST_COMPONENT, entity));
    assert!(world.component(TEST_COMPONENT, entity).is_none());
}

#[test]
fn test_query1() {
    let mut world = World::new();

    let entity1 = world.spawn();
    world.add_component(entity1, &empty_container(EMPTY_COMPONENT));
    world.spawn();

    let result = world.query(&vec![EMPTY_COMPONENT]);

    assert_eq!(result.len(), 1);
    assert!(result[0] == entity1);
}

#[test]
fn test_query2() {
    let mut world = World::new();
    let entity1 = world.spawn();
    world.add_component(entity1, &u32_container(TEST_COMPONENT, 1));
    world.add_component(entity1, &u32_container(TEST_COMPONENT_2, 2));
    world.spawn();

    let result = world.query(&vec![TEST_COMPONENT, TEST_COMPONENT_2]);

    assert_eq!(result.len(), 1);
    assert!(result[0] == entity1);
}

#[test]
fn test_add_children() {
    let mut world = World::new();

    let entity = world.spawn();
    let child = world.spawn();

    world.add_child(entity, child);

    assert_eq!(world.children(entity).len(), 1);
    assert_eq!(world.children(entity)[0].id, child.id);
}

#[test]
fn test_remove_children() {
    let mut world = World::new();

    let entity = world.spawn();
    let child = world.spawn();

    assert!(!world.remove_child(entity, child));

    world.add_child(entity, child);
    assert!(world.remove_child(entity, child));

    assert_eq!(world.children(entity).len(), 0);
}

#[test]
fn parent_follows_add_child() {
    let mut world = World::new();

    let entity = world.spawn();
    let child = world.spawn();

    assert!(world.parent(child).is_none());
    world.add_child(entity, child);
    assert_eq!(world.parent(child).unwrap().id, entity.id);
}

#[test]
fn components_are_sorted_by_entity() {
    let mut world = World::new();

    let e1 = world.spawn();
    let e2 = world.spawn();

    // insert the later entity first; iteration still ascends
    world.add_component(e2, &u32_container(TEST_COMPONENT, 22));
    world.add_component(e1, &u32_container(TEST_COMPONENT, 11));

    let it = world.components(TEST_COMPONENT);
    assert_eq!(it.len(), 2);
    assert_eq!(it[0].0, Entity { id: 0 });
    assert_eq!(decode_u32(&it[0].1), 11);
    assert_eq!(it[1].0, Entity { id: 1 });
    assert_eq!(decode_u32(&it[1].1), 22);
}
