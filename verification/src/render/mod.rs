//! Plain data the rendering layer consumes: formats, binding layouts,
//! vertex descriptions and camera dimensions.  The renderer itself owns
//! the GPU resources and lives outside this crate's verified core.
pub mod camera;
pub mod shader;
pub mod texture;
pub mod vertex_format;
