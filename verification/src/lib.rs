//! A small path-tracing renderer: fixed-point scalar math, vectors and rays,
//! a thin-lens camera, sphere intersection, a three-family material model,
//! a recursive integrator, and a canvas with tone mapping.

pub mod camera;
pub mod configuration;
pub mod defs;
pub mod display;
pub mod material;
pub mod math;
pub mod records;
pub mod scene;
pub mod worldbuilder;
pub mod shapes;
pub(crate) mod rng;
