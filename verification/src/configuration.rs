//! The in-memory scene description the builder consumes. A textual form of
//! it lives outside the engine; here the shape and material tags are closed
//! enums, so no unsupported tag is representable.

use crate::defs::Real;
use vstd::prelude::*;

verus! {

/// Which kind of shape a description entry builds.
#[derive(Clone, Copy, Debug, PartialEq, Eq, Structural)]
pub enum ShapeKind {
    Sphere,
}

/// Which material family a description entry selects.
#[derive(Clone, Copy, Debug, PartialEq, Eq, Structural)]
pub enum MaterialKind {
    Lambertian,
    Metal,
    Dielectric,
}

/// A whole scene description: image geometry, sampling parameters, the
/// camera, and the shapes.
pub struct Configuration {
    pub width: i64,
    pub aspect_ratio: Real,
    pub output_path: String,
    pub ray_step: i64,
    pub samples_per_pixel: i64,
    pub ray_max_depth: i64,
    pub camera: Camera,
    pub shapes: Vec<Shape>,
}

/// The camera's description: field of view, placement, and aperture.
pub struct Camera {
    pub fov_deg: Real,
    pub position: Vec<Real>,
    pub look_at: Vec<Real>,
    pub up: Vec<Real>,
    pub aperture: Real,
}

/// One shape's description.
pub struct Shape {
    pub kind: ShapeKind,
    pub material: Material,
    pub transform: Transform,
}

/// One material's description; which optional fields must be present
/// depends on the kind.
pub struct Material {
    pub kind: MaterialKind,
    pub diffuse: Option<Vec<Real>>,
    pub fuzz: Option<Real>,
    pub refraction_index: Option<Real>,
}

/// A shape's placement and size.
pub struct Transform {
    pub position: Vec<Real>,
    pub size: Vec<Real>,
}

} // verus!
