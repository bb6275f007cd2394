use ecs_core::ecs::codec::{decode_u32, encode_u32};
use ecs_core::ecs::command::CommandList;
use ecs_core::ecs::component::ComponentContainer;
use ecs_core::ecs::event::KeyboardEvent;
use ecs_core::ecs::system::{SystemInput, SystemSpec};
use ecs_core::ecs::type_descriptor::TypeDescriptor;
use ecs_core::ecs::world::World;

const TEST_COMPONENT_1: u64 = 1;
const TEST_COMPONENT_2: u64 = 2;
const POSITION: u64 = 3;
const COUNTER: u64 = 4;
const MISSING_RESOURCE: u64 = 40;
const PRESENT_RESOURCE: u64 = 41;
const KEYBOARD_EVENT: u64 = 50;

fn u32_container(tag: u64, value: u32) -> ComponentContainer {
    ComponentContainer::new(tag, TypeDescriptor::new(4, 4), encode_u32(value))
}

#[test]
fn test_command() {
    let mut world = World::new();

    let cmd_list = CommandList::new().create_entity(vec![u32_container(TEST_COMPONENT_1, 1)]);

    world.run_commands(cmd_list.commands);

    let it = world.components(TEST_COMPONENT_1);
    let (entity, component) = (it[0].0, &it[0].1);
    assert_eq!(decode_u32(component), 1);

    let cmd_list = CommandList::new().create_component(entity, u32_container(TEST_COMPONENT_2, 2));

    world.run_commands(cmd_list.commands);

    assert_eq!(decode_u32(&world.component(TEST_COMPONENT_2, entity).unwrap()), 2);
}

#[test]
fn test_system() {
    // a recurring system attaches a second component to an existing entity;
    // its command list is collected, then applied once every system ran
    let mut world = World::new();
    let entity = world.spawn();
    world.add_component(entity, &u32_container(TEST_COMPONENT_1, 2));

    world.add_system(SystemSpec::new(vec![SystemInput::WorldRef]));
    let runnable = world.available_systems();
    assert_eq!(runnable, vec![0]);

    let produced = CommandList::new().create_component(entity, u32_container(TEST_COMPONENT_2, 3));
    world.apply_update(Vec::new(), vec![produced]);

    assert_eq!(decode_u32(&world.component(TEST_COMPONENT_1, entity).unwrap()), 2);
    assert_eq!(decode_u32(&world.component(TEST_COMPONENT_2, entity).unwrap()), 3);
}

#[test]
fn unavailable_system_is_skipped() {
    // a system whose resource is missing is not runnable; the tick applies
    // no commands and nothing fails
    let mut world = World::new();
    world.add_system(SystemSpec::new(vec![SystemInput::Resource(MISSING_RESOURCE)]));

    let runnable = world.available_systems();
    assert!(runnable.is_empty());

    world.apply_update(Vec::new(), Vec::new());
    assert_eq!(world.entity_count(), 0);
}

#[test]
fn system_becomes_available_with_resource() {
    let mut world = World::new();
    world.add_system(SystemSpec::new(vec![SystemInput::Resource(PRESENT_RESOURCE)]));
    assert!(world.available_systems().is_empty());

    world.add_resource(PRESENT_RESOURCE, encode_u32(1));
    assert_eq!(world.available_systems(), vec![0]);
}

#[test]
fn test_async() {
    // an async job resolving to 1 produces a command list creating an
    // entity bearing that counter value; the tick applies it
    let resolved: u32 = 1;
    let job_commands = CommandList::new().create_entity(vec![u32_container(COUNTER, resolved)]);

    let mut world = World::new();
    world.apply_update(vec![job_commands], Vec::new());

    let it = world.components(COUNTER);
    assert_eq!(decode_u32(&it[0].1), 1);
}

#[test]
fn query_finds_spawned_position() {
    let mut world = World::new();
    let entity = world.spawn();
    world.add_component(entity, &u32_container(POSITION, 1));

    let result = world.query(&vec![POSITION]);
    assert_eq!(result.len(), 1);
    assert_eq!(result[0], entity);
}

#[test]
fn last_created_component_wins() {
    // two systems attach a component for the same entity and type in one
    // tick: the one applied last, in registration order, is what remains
    let mut world = World::new();
    let entity = world.spawn();

    let first = CommandList::new().create_component(entity, u32_container(TEST_COMPONENT_1, 1));
    let second = CommandList::new().create_component(entity, u32_container(TEST_COMPONENT_1, 2));

    world.apply_update(Vec::new(), vec![first, second]);

    assert_eq!(decode_u32(&world.component(TEST_COMPONENT_1, entity).unwrap()), 2);
    assert_eq!(world.components(TEST_COMPONENT_1).len(), 1);
}

#[test]
fn job_commands_apply_before_system_commands() {
    let mut world = World::new();
    let entity = world.spawn();

    let from_job = CommandList::new().create_component(entity, u32_container(TEST_COMPONENT_1, 7));
    let from_system = CommandList::new().create_component(
        entity,
        u32_container(TEST_COMPONENT_1, 8),
    );

    world.apply_update(vec![from_job], vec![from_system]);

    assert_eq!(decode_u32(&world.component(TEST_COMPONENT_1, entity).unwrap()), 8);
}

#[test]
fn destroy_entity_command() {
    let mut world = World::new();
    let entity = world.spawn();
    world.add_component(entity, &u32_container(TEST_COMPONENT_1, 1));

    let list = CommandList::new().destroy_entity(entity);
    world.run_commands(list.commands);

    assert!(world.component(TEST_COMPONENT_1, entity).is_none());
}

#[test]
fn test_keyboard_event() {
    let mut world = World::new();
    world.add_system(SystemSpec::new(vec![SystemInput::Event(KEYBOARD_EVENT)]));
    assert!(world.available_systems().is_empty());

    world.on_event(KEYBOARD_EVENT, KeyboardEvent::KeyDown(0).encode());
    assert_eq!(world.available_systems(), vec![0]);

    let delivered = KeyboardEvent::decode(world.event(KEYBOARD_EVENT).unwrap()).unwrap();
    assert!(delivered == KeyboardEvent::KeyDown(0));

    // events are not queued across ticks
    world.apply_update(Vec::new(), Vec::new());
    assert!(world.event(KEYBOARD_EVENT).is_none());
}

#[test]
fn resource_test_resource() {
    // a system needing two different resources sees each one's value
    let mut world = World::new();

    world.add_resource(PRESENT_RESOURCE, encode_u32(123));
    world.add_resource(MISSING_RESOURCE, encode_u32(1234));

    world.add_system(SystemSpec::new(vec![SystemInput::Resource(PRESENT_RESOURCE)]));
    world.add_system(SystemSpec::new(vec![SystemInput::Resource(MISSING_RESOURCE)]));

    assert_eq!(world.available_systems(), vec![0, 1]);
    assert_eq!(decode_u32(world.resource(PRESENT_RESOURCE).unwrap()), 123);
    assert_eq!(decode_u32(world.resource(MISSING_RESOURCE).unwrap()), 1234);
}

#[test]
fn mismatched_payload_is_rejected() {
    // a payload whose size contradicts the store's established item size is
    // a programming error and leaves the world unchanged
    let mut world = World::new();
    let entity = world.spawn();
    world.add_component(entity, &u32_container(TEST_COMPONENT_1, 1));

    let wrong = ComponentContainer::new(
        TEST_COMPONENT_1,
        TypeDescriptor::new(8, 4),
        vec![0, 0, 0, 0, 0, 0, 0, 0],
    );
    world.add_component(entity, &wrong);

    assert_eq!(decode_u32(&world.component(TEST_COMPONENT_1, entity).unwrap()), 1);
}

#[test]
fn destroy_component_command_changes_nothing() {
    // a recorded removal of a component type set names no entity and
    // applies no change
    let mut world = World::new();
    let entity = world.spawn();
    world.add_component(entity, &u32_container(TEST_COMPONENT_1, 1));

    let list = CommandList::new().destroy_component(vec![TEST_COMPONENT_1]);
    world.run_commands(list.commands);

    assert_eq!(decode_u32(&world.component(TEST_COMPONENT_1, entity).unwrap()), 1);
}

#[test]
fn set_component_rejects_wrong_size() {
    let mut world = World::new();
    let entity = world.spawn();
    world.add_component(entity, &u32_container(TEST_COMPONENT_1, 1));

    assert!(!world.set_component(TEST_COMPONENT_1, entity, &vec![1, 2]));
    assert_eq!(decode_u32(&world.component(TEST_COMPONENT_1, entity).unwrap()), 1);
}
