//! The deferred-mutation command protocol: systems record mutation intents
//! instead of touching the world directly, and the scheduler applies them
//! once every system has run.
use vstd::prelude::*;

use super::component::ComponentContainer;
use super::Entity;

verus! {

/// One recorded mutation intent, carrying fully-owned payloads.
pub enum Command {
    CreateEntity(Vec<ComponentContainer>),
    DestroyEntity(Entity),
    CreateComponent(Entity, Vec<ComponentContainer>),
    DestroyComponent(Vec<u64>),
}

/// A recorded, replayable sequence of mutation intents, applied in the
/// order they were produced.
pub struct CommandList {
    pub commands: Vec<Command>,
}

impl CommandList {
    /// An empty list.
    pub fn new() -> (r: CommandList)
        ensures
            r.commands@ =~= Seq::<Command>::empty(),
    {
        CommandList { commands: Vec::new() }
    }

    /// Records the creation of a fresh entity bearing the given components.
    pub fn create_entity(self, bundle: Vec<ComponentContainer>) -> (r: CommandList)
        ensures
            r.commands@ == self.commands@.push(Command::CreateEntity(bundle)),
    {
        let mut commands = self.commands;
        commands.push(Command::CreateEntity(bundle));
        CommandList { commands }
    }

    /// Records the destruction of an entity.
    pub fn destroy_entity(self, entity: Entity) -> (r: CommandList)
        ensures
            r.commands@ == self.commands@.push(Command::DestroyEntity(entity)),
    {
        let mut commands = self.commands;
        commands.push(Command::DestroyEntity(entity));
        CommandList { commands }
    }

    /// Records attaching one component to an existing entity.
    pub fn create_component(self, entity: Entity, component: ComponentContainer) -> (r:
        CommandList)
        ensures
            r.commands@.len() == self.commands@.len() + 1,
            r.commands@.subrange(0, self.commands@.len() as int) == self.commands@,
            r.commands@.last() matches Command::CreateComponent(e, cs) && e == entity
                && cs@.len() == 1 && cs@[0] == component,
    {
        let mut components: Vec<ComponentContainer> = Vec::new();
        components.push(component);
        let mut commands = self.commands;
        commands.push(Command::CreateComponent(entity, components));
        let r = CommandList { commands };
        proof {
            assert(r.commands@.subrange(0, self.commands@.len() as int) =~= self.commands@);
        }
        r
    }

    /// Records removal of a set of component types.
    pub fn destroy_component(self, components: Vec<u64>) -> (r: CommandList)
        ensures
            r.commands@ == self.commands@.push(Command::DestroyComponent(components)),
    {
        let mut commands = self.commands;
        commands.push(Command::DestroyComponent(components));
        CommandList { commands }
    }
}

impl Default for CommandList {
    /// An empty list.
    fn default() -> (r: CommandList)
        ensures
            r.commands@ =~= Seq::<Command>::empty(),
    {
        CommandList::new()
    }
}

} // verus!
