//! The payload describing a ray-surface intersection.

use crate::material::Material;
use crate::math::{Point3, Vector3};
use crate::defs::Real;
use vstd::prelude::*;

verus! {

/// Where a ray met a surface: the point, the unit normal oriented against
/// the incoming ray, the parametric distance, which face was struck, and
/// the surface's material.
pub struct IntersectionRecord {
    pub point: Point3,
    pub normal: Vector3,
    pub t: Real,
    pub front_face: bool,
    pub material: Material,
}

impl IntersectionRecord {
    /// The record with the given fields.
    pub fn new(point: Point3, normal: Vector3, t: Real, front_face: bool, material: Material) -> (r:
        IntersectionRecord)
        ensures
            r.point == point,
            r.normal == normal,
            r.t == t,
            r.front_face == front_face,
            r.material == material,
    {
        IntersectionRecord { point, normal, t, front_face, material }
    }
}

} // verus!
