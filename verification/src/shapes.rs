//! Shapes and their ray-intersection test.
//!
//! The only shape is the sphere. Its intersection test solves the quadratic
//! `|origin + t * dir - center|^2 == radius^2` over exact (unscaled)
//! products, so the contract states every intermediate value precisely:
//! the half-discriminant form of the quadratic, the preferred smaller root,
//! and the record built from the accepted root.

use crate::defs::{div_floor, fx_mul, isqrt, isqrt_u128, Real, SCALE};
use crate::material::{material_wf, Material};
use crate::math::{
    dot_spec, in_range, unit_of, v3, norm2, Point3, Ray, Vector3, COORD_LIMIT, DIR_LIMIT,
    POINT_LIMIT, T_LIMIT, VEC_LIMIT,
};
use crate::records::IntersectionRecord;
use vstd::prelude::*;

verus! {

/// A renderable surface.
pub enum Shape {
    Sphere { center: Point3, radius: Real, material: Material },
}

/// The shape is well formed: geometry within the scene volume, a strictly
/// positive radius, and a well-formed material.
pub open spec fn shape_wf(s: Shape) -> bool {
    match s {
        Shape::Sphere { center, radius, material } => {
            &&& in_range(center, COORD_LIMIT as int)
            &&& 0 < radius.raw <= COORD_LIMIT
            &&& material_wf(material)
        },
    }
}

/// The sphere's center.
pub open spec fn sphere_center(s: Shape) -> Point3 {
    match s {
        Shape::Sphere { center, .. } => center,
    }
}

/// The sphere's radius in raw units.
pub open spec fn sphere_radius(s: Shape) -> int {
    match s {
        Shape::Sphere { radius, .. } => radius.raw as int,
    }
}

/// The sphere's material.
pub open spec fn sphere_material(s: Shape) -> Material {
    match s {
        Shape::Sphere { material, .. } => material,
    }
}

/// The quadratic's leading coefficient: the exact squared direction length.
pub open spec fn sphere_a(ray: Ray) -> int {
    norm2(ray.direction)
}

/// The quadratic's half middle coefficient: the exact dot product of the
/// center-to-origin offset with the direction.
pub open spec fn sphere_half_b(s: Shape, ray: Ray) -> int {
    let ox = ray.origin.x.raw - sphere_center(s).x.raw;
    let oy = ray.origin.y.raw - sphere_center(s).y.raw;
    let oz = ray.origin.z.raw - sphere_center(s).z.raw;
    ox * ray.direction.x.raw + oy * ray.direction.y.raw + oz * ray.direction.z.raw
}

/// The quadratic's constant coefficient: the offset's exact squared length
/// less the squared radius.
pub open spec fn sphere_cc(s: Shape, ray: Ray) -> int {
    let ox = ray.origin.x.raw - sphere_center(s).x.raw;
    let oy = ray.origin.y.raw - sphere_center(s).y.raw;
    let oz = ray.origin.z.raw - sphere_center(s).z.raw;
    ox * ox + oy * oy + oz * oz - sphere_radius(s) * sphere_radius(s)
}

/// The quarter discriminant; the ray misses when it is negative.
pub open spec fn sphere_disc(s: Shape, ray: Ray) -> int {
    sphere_half_b(s, ray) * sphere_half_b(s, ray) - sphere_a(ray) * sphere_cc(s, ray)
}

/// The smaller root of the quadratic, scaled to raw parameter units.
pub open spec fn sphere_root1(s: Shape, ray: Ray) -> int {
    ((-sphere_half_b(s, ray) - isqrt(sphere_disc(s, ray))) * SCALE) / sphere_a(ray)
}

/// The larger root of the quadratic, scaled to raw parameter units.
pub open spec fn sphere_root2(s: Shape, ray: Ray) -> int {
    ((-sphere_half_b(s, ray) + isqrt(sphere_disc(s, ray))) * SCALE) / sphere_a(ray)
}

/// The point a parameter distance `t` along the ray.
pub open spec fn ray_point(ray: Ray, t: int) -> Vector3 {
    v3(
        ray.origin.x.raw + fx_mul(ray.direction.x.raw as int, t),
        ray.origin.y.raw + fx_mul(ray.direction.y.raw as int, t),
        ray.origin.z.raw + fx_mul(ray.direction.z.raw as int, t),
    )
}

/// The root's point is usable: inside the tracer's volume and distinct
/// from the center, so an outward normal exists. A root whose point fails
/// either test is treated as a numerically degenerate miss.
pub open spec fn sphere_point_ok(s: Shape, ray: Ray, t: int) -> bool {
    let p = ray_point(ray, t);
    &&& in_range(p, POINT_LIMIT as int)
    &&& !(p.x.raw == sphere_center(s).x.raw && p.y.raw == sphere_center(s).y.raw && p.z.raw
        == sphere_center(s).z.raw)
}

/// The outward unit normal at the root's point.
pub open spec fn sphere_outward(s: Shape, ray: Ray, t: int) -> Vector3 {
    let p = ray_point(ray, t);
    unit_of(
        v3(
            p.x.raw - sphere_center(s).x.raw,
            p.y.raw - sphere_center(s).y.raw,
            p.z.raw - sphere_center(s).z.raw,
        ),
    )
}

/// The record an accepted root produces: the point, the normal oriented
/// against the incoming ray, the root, the struck face, and the material.
pub open spec fn sphere_record_spec(s: Shape, ray: Ray, t: int) -> IntersectionRecord {
    let p = ray_point(ray, t);
    let outward = sphere_outward(s, ray, t);
    let ff = dot_spec(ray.direction, outward) < 0;
    IntersectionRecord {
        point: p,
        normal: if ff {
            outward
        } else {
            v3(-outward.x.raw, -outward.y.raw, -outward.z.raw)
        },
        t: Real { raw: t as i64 },
        front_face: ff,
        material: sphere_material(s),
    }
}

/// The accepted root, if any: the smaller root when it lies in
/// `[t_min, t_max]`, else the larger root when it does, else none; a
/// degenerate ray or point yields none.
pub open spec fn sphere_hit_t(s: Shape, ray: Ray, t_min: int, t_max: int) -> Option<int> {
    if sphere_a(ray) <= 0 {
        None
    } else if sphere_disc(s, ray) < 0 {
        None
    } else if t_min <= sphere_root1(s, ray) <= t_max {
        if sphere_point_ok(s, ray, sphere_root1(s, ray)) {
            Some(sphere_root1(s, ray))
        } else {
            None
        }
    } else if t_min <= sphere_root2(s, ray) <= t_max {
        if sphere_point_ok(s, ray, sphere_root2(s, ray)) {
            Some(sphere_root2(s, ray))
        } else {
            None
        }
    } else {
        None
    }
}

/// With a real direction and a nonnegative discriminant, the quadratic's
/// smaller root never exceeds its larger root.
pub proof fn lemma_sphere_roots_ordered(s: Shape, ray: Ray)
    requires
        sphere_a(ray) > 0,
        sphere_disc(s, ray) >= 0,
    ensures
        sphere_root1(s, ray) <= sphere_root2(s, ray),
{
    crate::defs::lemma_isqrt_exists(sphere_disc(s, ray));
    let hb = sphere_half_b(s, ray);
    let ds = isqrt(sphere_disc(s, ray));
    assert((-hb - ds) * SCALE <= (-hb + ds) * SCALE) by (nonlinear_arith)
        requires
            ds >= 0,
    ;
    vstd::arithmetic::div_mod::lemma_div_is_ordered(
        (-hb - ds) * SCALE,
        (-hb + ds) * SCALE,
        sphere_a(ray),
    );
}

/// An accepted root lies inside the search window.
pub proof fn lemma_sphere_hit_in_window(s: Shape, ray: Ray, t_min: int, t_max: int, t: int)
    requires
        sphere_hit_t(s, ray, t_min, t_max) == Some(t),
    ensures
        t_min <= t <= t_max,
        sphere_a(ray) > 0,
        sphere_disc(s, ray) >= 0,
{
}

/// Shrinking the window's far end down to (at least) the accepted root
/// keeps the same accepted root.
pub proof fn lemma_sphere_hit_narrow(s: Shape, ray: Ray, t_min: int, t_max: int, t_new: int, t: int)
    requires
        sphere_hit_t(s, ray, t_min, t_max) == Some(t),
        t <= t_new <= t_max,
    ensures
        sphere_hit_t(s, ray, t_min, t_new) == Some(t),
{
    lemma_sphere_hit_in_window(s, ray, t_min, t_max, t);
    lemma_sphere_roots_ordered(s, ray);
}

/// Shrinking the window's far end strictly below the accepted root leaves
/// no root to accept.
pub proof fn lemma_sphere_hit_none_above(
    s: Shape,
    ray: Ray,
    t_min: int,
    t_max: int,
    t_new: int,
    t: int,
)
    requires
        sphere_hit_t(s, ray, t_min, t_max) == Some(t),
        t_new < t,
        t_new <= t_max,
    ensures
        sphere_hit_t(s, ray, t_min, t_new) is None,
{
    lemma_sphere_hit_in_window(s, ray, t_min, t_max, t);
    lemma_sphere_roots_ordered(s, ray);
}

/// Bounds on every intermediate of the quadratic, from the scene limits.
proof fn lemma_quadratic_bounds(s: Shape, ray: Ray)
    requires
        shape_wf(s),
        in_range(ray.origin, POINT_LIMIT as int),
        in_range(ray.direction, DIR_LIMIT as int),
    ensures
        ({
            let dx = ray.direction.x.raw as int;
            let dy = ray.direction.y.raw as int;
            let dz = ray.direction.z.raw as int;
            let ox = ray.origin.x.raw - sphere_center(s).x.raw;
            let oy = ray.origin.y.raw - sphere_center(s).y.raw;
            let oz = ray.origin.z.raw - sphere_center(s).z.raw;
            let rr = sphere_radius(s);
            &&& 0 <= dx * dx <= 0x1_0000_0000_0000_0000
            &&& 0 <= dy * dy <= 0x1_0000_0000_0000_0000
            &&& 0 <= dz * dz <= 0x1_0000_0000_0000_0000
            &&& -0x2000_0000_0000_0000 <= ox * dx <= 0x2000_0000_0000_0000
            &&& -0x2000_0000_0000_0000 <= oy * dy <= 0x2000_0000_0000_0000
            &&& -0x2000_0000_0000_0000 <= oz * dz <= 0x2000_0000_0000_0000
            &&& 0 <= ox * ox <= 0x400_0000_0000_0000
            &&& 0 <= oy * oy <= 0x400_0000_0000_0000
            &&& 0 <= oz * oz <= 0x400_0000_0000_0000
            &&& 0 <= rr * rr <= 0x40_0000_0000_0000
        }),
        0 <= sphere_a(ray) <= 0x3_0000_0000_0000_0000,
        -0x6000_0000_0000_0000 <= sphere_half_b(s, ray) <= 0x6000_0000_0000_0000,
        -0x40_0000_0000_0000 <= sphere_cc(s, ray) <= 0xC00_0000_0000_0000,
        0 <= sphere_half_b(s, ray) * sphere_half_b(s, ray)
            <= 0x2400_0000_0000_0000_0000_0000_0000_0000,
        -0xC0_0000_0000_0000_0000_0000_0000_0000 <= sphere_a(ray) * sphere_cc(s, ray)
            <= 0x2400_0000_0000_0000_0000_0000_0000_0000,
        sphere_disc(s, ray) < 0x2500_0000_0000_0000_0000_0000_0000_0000,
{
    let dx = ray.direction.x.raw as int;
    let dy = ray.direction.y.raw as int;
    let dz = ray.direction.z.raw as int;
    let ox = ray.origin.x.raw - sphere_center(s).x.raw;
    let oy = ray.origin.y.raw - sphere_center(s).y.raw;
    let oz = ray.origin.z.raw - sphere_center(s).z.raw;
    let rr = sphere_radius(s);
    assert(0 <= dx * dx <= 0x1_0000_0000_0000_0000 && 0 <= dy * dy <= 0x1_0000_0000_0000_0000 && 0
        <= dz * dz <= 0x1_0000_0000_0000_0000) by (nonlinear_arith)
        requires
            -0x1_0000_0000 <= dx <= 0x1_0000_0000,
            -0x1_0000_0000 <= dy <= 0x1_0000_0000,
            -0x1_0000_0000 <= dz <= 0x1_0000_0000,
    ;
    assert(-0x2000_0000_0000_0000 <= ox * dx <= 0x2000_0000_0000_0000 && -0x2000_0000_0000_0000
        <= oy * dy <= 0x2000_0000_0000_0000 && -0x2000_0000_0000_0000 <= oz * dz
        <= 0x2000_0000_0000_0000) by (nonlinear_arith)
        requires
            -0x2000_0000 <= ox <= 0x2000_0000,
            -0x2000_0000 <= oy <= 0x2000_0000,
            -0x2000_0000 <= oz <= 0x2000_0000,
            -0x1_0000_0000 <= dx <= 0x1_0000_0000,
            -0x1_0000_0000 <= dy <= 0x1_0000_0000,
            -0x1_0000_0000 <= dz <= 0x1_0000_0000,
    ;
    assert(0 <= ox * ox <= 0x400_0000_0000_0000 && 0 <= oy * oy <= 0x400_0000_0000_0000 && 0 <= oz
        * oz <= 0x400_0000_0000_0000) by (nonlinear_arith)
        requires
            -0x2000_0000 <= ox <= 0x2000_0000,
            -0x2000_0000 <= oy <= 0x2000_0000,
            -0x2000_0000 <= oz <= 0x2000_0000,
    ;
    assert(0 <= rr * rr <= 0x40_0000_0000_0000) by (nonlinear_arith)
        requires
            0 < rr <= 0x800_0000,
    ;
    let hb = sphere_half_b(s, ray);
    let a = sphere_a(ray);
    let cc = sphere_cc(s, ray);
    assert(0 <= hb * hb <= 0x2400_0000_0000_0000_0000_0000_0000_0000) by (nonlinear_arith)
        requires
            -0x6000_0000_0000_0000 <= hb <= 0x6000_0000_0000_0000,
    ;
    assert(-0xC0_0000_0000_0000_0000_0000_0000_0000 <= a * cc
        <= 0x2400_0000_0000_0000_0000_0000_0000_0000) by (nonlinear_arith)
        requires
            0 <= a <= 0x3_0000_0000_0000_0000,
            -0x40_0000_0000_0000 <= cc <= 0xC00_0000_0000_0000,
    ;
}

impl Shape {
    /// Intersect the ray with the shape over the parameter window
    /// `[t_min, t_max]`. The smaller in-window root is always preferred;
    /// a degenerate direction, a negative discriminant, a window without
    /// a root, or a root whose point degenerates all yield a miss.
    pub fn hit(&self, ray: &Ray, t_min: Real, t_max: Real) -> (r: Option<IntersectionRecord>)
        requires
            shape_wf(*self),
            in_range(ray.origin, POINT_LIMIT as int),
            in_range(ray.direction, DIR_LIMIT as int),
            -T_LIMIT <= t_min.raw <= T_LIMIT,
            -T_LIMIT <= t_max.raw <= T_LIMIT,
        ensures
            match sphere_hit_t(*self, *ray, t_min.raw as int, t_max.raw as int) {
                Option::None => r is None,
                Option::Some(t) => {
                    &&& r == Some(sphere_record_spec(*self, *ray, t))
                    &&& crate::material::hit_geometry_wf(sphere_record_spec(*self, *ray, t))
                    &&& -T_LIMIT <= t <= T_LIMIT
                },
            },
    {
        match self {
            Shape::Sphere { center, radius, material } => {
                proof {
                    lemma_quadratic_bounds(*self, *ray);
                }
                let ocx: i64 = ray.origin.x.raw - center.x.raw;
                let ocy: i64 = ray.origin.y.raw - center.y.raw;
                let ocz: i64 = ray.origin.z.raw - center.z.raw;
                let dx: i128 = ray.direction.x.raw as i128;
                let dy: i128 = ray.direction.y.raw as i128;
                let dz: i128 = ray.direction.z.raw as i128;
                let a: i128 = dx * dx + dy * dy + dz * dz;
                if a == 0 {
                    return None;
                }
                let half_b: i128 = (ocx as i128) * dx + (ocy as i128) * dy + (ocz as i128) * dz;
                let c: i128 = (ocx as i128) * (ocx as i128) + (ocy as i128) * (ocy as i128) + (
                ocz as i128) * (ocz as i128) - (radius.raw as i128) * (radius.raw as i128);
                let disc: i128 = half_b * half_b - a * c;
                if disc < 0 {
                    return None;
                }
                let disc_sqrt: u64 = isqrt_u128(disc as u128);
                proof {
                    let ds = isqrt(sphere_disc(*self, *ray));
                    assert(ds * ds <= sphere_disc(*self, *ray));
                    assert(ds <= 0x7000_0000_0000_0000) by (nonlinear_arith)
                        requires
                            0 <= ds,
                            ds * ds < 0x2500_0000_0000_0000_0000_0000_0000_0000,
                    ;
                }
                let root1: i128 = div_floor((-half_b - (disc_sqrt as i128)) * (SCALE as i128), a);
                if (t_min.raw as i128) <= root1 && root1 <= (t_max.raw as i128) {
                    return self.finish(ray, root1 as i64);
                }
                let root2: i128 = div_floor((-half_b + (disc_sqrt as i128)) * (SCALE as i128), a);
                if (t_min.raw as i128) <= root2 && root2 <= (t_max.raw as i128) {
                    proof {
                        assert(!(t_min.raw as int <= sphere_root1(*self, *ray) <= t_max.raw as int));
                    }
                    return self.finish(ray, root2 as i64);
                }
                None
            },
        }
    }

    /// Build the record for an accepted in-window root, or report a
    /// degenerate miss.
    fn finish(&self, ray: &Ray, t_raw: i64) -> (r: Option<IntersectionRecord>)
        requires
            shape_wf(*self),
            in_range(ray.origin, POINT_LIMIT as int),
            in_range(ray.direction, DIR_LIMIT as int),
            -T_LIMIT <= t_raw <= T_LIMIT,
        ensures
            r == if sphere_point_ok(*self, *ray, t_raw as int) {
                Some(sphere_record_spec(*self, *ray, t_raw as int))
            } else {
                Option::<IntersectionRecord>::None
            },
            sphere_point_ok(*self, *ray, t_raw as int) ==> crate::material::hit_geometry_wf(
                sphere_record_spec(*self, *ray, t_raw as int),
            ),
    {
        match self {
            Shape::Sphere { center, radius: _, material } => {
                let t = Real::from_raw(t_raw);
                let p = ray.at(t);
                if p.x.raw > POINT_LIMIT || p.x.raw < -POINT_LIMIT || p.y.raw > POINT_LIMIT
                    || p.y.raw < -POINT_LIMIT || p.z.raw > POINT_LIMIT || p.z.raw < -POINT_LIMIT {
                    return None;
                }
                let diff = p.sub(center);
                if diff.is_near_zero() {
                    return None;
                }
                let outward = diff.as_normal();
                let alignment = ray.direction.dot(&outward);
                let front_face = alignment.raw < 0;
                let normal = if front_face {
                    outward
                } else {
                    outward.neg()
                };
                Some(IntersectionRecord::new(p, normal, t, front_face, *material))
            },
        }
    }
}

} // verus!
