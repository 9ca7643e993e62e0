//! Rendering logic of a small WebGL2 engine: validation of GL parameters,
//! vertex layouts, geometry buffers, surface triangulation, keyboard state,
//! the scene graph and the uniform plans of lights and shadows.
//! Everything that touches the GL context, the browser or floating point
//! lives outside this library; what stays here is the discrete logic.

pub mod gl;
pub mod validate;

pub mod level;
pub mod coll;
pub mod resolution;
pub mod convert;

pub mod error;
pub mod accessor;
pub mod attribute;
pub mod geometry;
pub mod buffer_geometry;
pub mod surface;
pub mod primitive;
pub mod sampler;
pub mod input;
pub mod movement;
pub mod material;
pub mod light;
pub mod shadow;
pub mod scene;
pub mod postprocess;
