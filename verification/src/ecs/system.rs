//! System descriptors: a system is a unit of per-tick logic over typed
//! inputs.  Here a system's inputs are described as data, so the scheduler
//! can decide availability without invoking the system's body.
use vstd::prelude::*;

verus! {

/// One input a system asks for, materialized from the world each tick.
/// A world view, a query and an externally injected value are always
/// available; a resource or event input is available only while the world
/// holds that resource, or that event fired this tick.
pub enum SystemInput {
    /// A read-only view of the whole world.
    WorldRef,
    /// The singleton resource registered under this tag.
    Resource(u64),
    /// A lazy entity filter; membership is evaluated at iteration time.
    Query,
    /// The event payload delivered under this tag this tick.
    Event(u64),
    /// A value supplied by the caller, as when an async job resolves.
    Value,
}

/// What a registered system declares: the inputs it must be given before
/// it can run.  A system whose inputs cannot all be materialized is
/// silently skipped this tick and retried the next.
pub struct SystemSpec {
    pub inputs: Vec<SystemInput>,
}

impl SystemSpec {
    /// Describes a system over the given inputs.
    pub fn new(inputs: Vec<SystemInput>) -> (r: SystemSpec)
        ensures
            r.inputs@ == inputs@,
    {
        SystemSpec { inputs }
    }
}

} // verus!
