//! Core of an interactive real-time application framework: an
//! entity-component store ("world"), a deferred-mutation command protocol,
//! a data-driven system binding mechanism, and the plain data types the
//! rendering layer consumes.
pub mod constants;
pub mod ecs;
pub mod render;
pub mod shader;
pub mod texture;
pub mod ui;
pub mod utils;
