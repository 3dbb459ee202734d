//! The scattering model: Lambertian diffuse, fuzzed metal, and dielectric
//! materials, each turning an incoming ray and an intersection into an
//! attenuation color and a scattered ray, or absorbing the ray.

use crate::defs::{fx_div, fx_mul, isqrt, lemma_fx_mul_bound, Real, SCALE};
use crate::math::{
    dot_spec, in_range, is_zero, reflect_of, refract_of, unit_of, v3, Color3, Ray, Vector3,
    DIR_LIMIT,
};
use crate::records::IntersectionRecord;
use vstd::prelude::*;

verus! {

/// Every color channel lies in `[0, 1]`.
pub open spec fn color_wf(c: Color3) -> bool {
    &&& 0 <= c.x.raw <= SCALE
    &&& 0 <= c.y.raw <= SCALE
    &&& 0 <= c.z.raw <= SCALE
}

/// Pure white: the attenuation of a dielectric surface.
pub open spec fn white() -> Color3 {
    v3(SCALE as int, SCALE as int, SCALE as int)
}

/// A vector drawn from the open unit ball.
pub open spec fn in_unit_ball(rv: Vector3) -> bool {
    in_range(rv, SCALE as int) && dot_spec(rv, rv) < SCALE
}

/// A surface's scattering behavior.
#[derive(Clone, Copy)]
pub enum Material {
    Lambertian { diffuse: Color3 },
    Metal { diffuse: Color3, fuzz: Real },
    Dielectric { refraction_index: Real },
}

/// The material's parameters are in their documented ranges: colors in
/// `[0, 1]` per channel, fuzz in `[0, 1]`, and a refraction index within
/// `[1/16, 16]`.
pub open spec fn material_wf(m: Material) -> bool {
    match m {
        Material::Lambertian { diffuse } => color_wf(diffuse),
        Material::Metal { diffuse, fuzz } => color_wf(diffuse) && 0 <= fuzz.raw <= SCALE,
        Material::Dielectric { refraction_index } => 0x1000 <= refraction_index.raw
            <= 0x10_0000,
    }
}

/// A successful scatter: the filtered color and the outgoing ray.
pub struct MaterialInteraction {
    pub attenuation: Color3,
    pub scattered_ray: Ray,
}

/// The diffuse bounce direction: the surface normal plus a random offset in
/// the unit ball, with the normal substituted when the sum degenerates to
/// zero.
pub open spec fn lambertian_direction(normal: Vector3, rv: Vector3) -> Vector3 {
    let sum = v3(
        normal.x.raw + rv.x.raw,
        normal.y.raw + rv.y.raw,
        normal.z.raw + rv.z.raw,
    );
    if is_zero(sum) {
        normal
    } else {
        sum
    }
}

/// The pure mirror direction of a metal surface: the normalized incoming
/// direction reflected around the surface normal.
pub open spec fn metal_reflected(dir_in: Vector3, normal: Vector3) -> Vector3 {
    reflect_of(unit_of(dir_in), normal)
}

/// The fuzzed metal direction: the mirror direction plus a random offset
/// scaled by the fuzz radius, with the pure mirror direction substituted
/// when the sum degenerates to zero.
pub open spec fn metal_direction(dir_in: Vector3, normal: Vector3, fuzz: int, rv: Vector3) -> Vector3 {
    let refl = metal_reflected(dir_in, normal);
    let sum = v3(
        refl.x.raw + fx_mul(rv.x.raw as int, fuzz),
        refl.y.raw + fx_mul(rv.y.raw as int, fuzz),
        refl.z.raw + fx_mul(rv.z.raw as int, fuzz),
    );
    if is_zero(sum) {
        refl
    } else {
        sum
    }
}

/// The index ratio a dielectric applies: the reciprocal index when the ray
/// meets the front face, the index itself when it leaves through the back.
pub open spec fn dielectric_ratio(refraction_index: int, front_face: bool) -> int {
    if front_face {
        fx_div(SCALE as int, refraction_index)
    } else {
        refraction_index
    }
}

/// The cosine of the incidence angle, capped at one.
pub open spec fn dielectric_cos(dir_in: Vector3, normal: Vector3) -> int {
    let d = dot_spec(unit_of(dir_in), normal);
    if -d <= SCALE {
        -d
    } else {
        SCALE as int
    }
}

/// The sine of the incidence angle, from `1 - cos^2` clamped at zero.
pub open spec fn dielectric_sin(cos: int) -> int {
    let s2 = if SCALE - fx_mul(cos, cos) >= 0 {
        SCALE - fx_mul(cos, cos)
    } else {
        0int
    };
    isqrt(s2 * SCALE)
}

/// Schlick's base reflectance `((1 - ratio) / (1 + ratio))^2`.
pub open spec fn schlick_r0(ratio: int) -> int {
    let q = fx_div(SCALE - ratio, SCALE + ratio);
    fx_mul(q, q)
}

/// Schlick's approximate reflectance `r0 + (1 - r0) * (1 - cos)^5`.
pub open spec fn schlick_spec(cos: int, ratio: int) -> int {
    let r0 = schlick_r0(ratio);
    let x = SCALE - cos;
    let x2 = fx_mul(x, x);
    let x4 = fx_mul(x2, x2);
    let x5 = fx_mul(x4, x);
    r0 + fx_mul(SCALE - r0, x5)
}

/// Refraction is impossible: the scaled sine leaves the unit range.
pub open spec fn dielectric_cannot_refract(dir_in: Vector3, normal: Vector3, ratio: int) -> bool {
    fx_mul(ratio, dielectric_sin(dielectric_cos(dir_in, normal))) > SCALE
}

/// The mirror direction of a dielectric surface, with the normal
/// substituted when it degenerates to zero.
pub open spec fn dielectric_reflect_dir(dir_in: Vector3, normal: Vector3) -> Vector3 {
    let refl = reflect_of(unit_of(dir_in), normal);
    if is_zero(refl) {
        normal
    } else {
        refl
    }
}

/// The refracted direction of a dielectric surface, with the normal
/// substituted when it degenerates to zero.
pub open spec fn dielectric_refract_dir(dir_in: Vector3, normal: Vector3, ratio: int) -> Vector3 {
    let rf = refract_of(unit_of(dir_in), normal, ratio);
    if is_zero(rf) {
        normal
    } else {
        rf
    }
}

/// The dielectric's outgoing direction for a given reflectance draw:
/// reflect on total internal reflection or when the draw falls below the
/// Schlick reflectance, refract otherwise.
pub open spec fn dielectric_direction(
    dir_in: Vector3,
    normal: Vector3,
    ratio: int,
    draw: int,
) -> Vector3 {
    if dielectric_cannot_refract(dir_in, normal, ratio) || schlick_spec(
        dielectric_cos(dir_in, normal),
        ratio,
    ) > draw {
        dielectric_reflect_dir(dir_in, normal)
    } else {
        dielectric_refract_dir(dir_in, normal, ratio)
    }
}

/// What a successful scatter promises: the outgoing ray starts at the hit
/// point with a nonzero bounded direction, and the attenuation and the
/// direction's distribution are those of the material.
pub open spec fn scatter_valid(
    m: Material,
    ray: Ray,
    rec: IntersectionRecord,
    out: MaterialInteraction,
) -> bool {
    &&& out.scattered_ray.origin == rec.point
    &&& !is_zero(out.scattered_ray.direction)
    &&& in_range(out.scattered_ray.direction, DIR_LIMIT as int)
    &&& match m {
        Material::Lambertian { diffuse } => {
            &&& out.attenuation == diffuse
            &&& exists|rv: Vector3|
                #[trigger] in_unit_ball(rv) && out.scattered_ray.direction
                    == lambertian_direction(rec.normal, rv)
        },
        Material::Metal { diffuse, fuzz } => {
            &&& out.attenuation == diffuse
            &&& dot_spec(metal_reflected(ray.direction, rec.normal), rec.normal) > 0
            &&& exists|rv: Vector3|
                #[trigger] in_unit_ball(rv) && out.scattered_ray.direction == metal_direction(
                    ray.direction,
                    rec.normal,
                    fuzz.raw as int,
                    rv,
                )
        },
        Material::Dielectric { refraction_index } => {
            &&& out.attenuation == white()
            &&& exists|draw: int|
                0 <= #[trigger] (draw + 0) < SCALE && out.scattered_ray.direction
                    == dielectric_direction(
                    ray.direction,
                    rec.normal,
                    dielectric_ratio(refraction_index.raw as int, rec.front_face),
                    draw,
                )
        },
    }
}

/// Whether the material scatters a ray that strikes it rather than
/// absorbing it: every material does but a metal whose fuzz-free mirror
/// direction points into the surface.
pub open spec fn scatter_succeeds(m: Material, ray: Ray, rec: IntersectionRecord) -> bool {
    match m {
        Material::Metal { .. } => dot_spec(metal_reflected(ray.direction, rec.normal), rec.normal)
            > 0,
        _ => true,
    }
}

/// A color filtered component-wise by an attenuation color.
pub open spec fn attenuated(a: Color3, c: Color3) -> Color3 {
    v3(
        fx_mul(a.x.raw as int, c.x.raw as int),
        fx_mul(a.y.raw as int, c.y.raw as int),
        fx_mul(a.z.raw as int, c.z.raw as int),
    )
}

/// The record's geometric fields are usable: a bounded point and a nonzero
/// unit-range normal.
pub open spec fn hit_geometry_wf(rec: IntersectionRecord) -> bool {
    &&& in_range(rec.point, crate::math::POINT_LIMIT as int)
    &&& in_range(rec.normal, SCALE as int)
    &&& !is_zero(rec.normal)
}

impl Material {
    /// Scatter the incoming ray at the given intersection. Lambertian and
    /// dielectric surfaces always scatter; metal absorbs the ray exactly
    /// when the fuzz-free mirror direction points into the surface.
    pub fn scatter(&self, ray: &Ray, intersection: &IntersectionRecord) -> (r: Option<
        MaterialInteraction,
    >)
        requires
            material_wf(*self),
            hit_geometry_wf(*intersection),
            in_range(ray.direction, DIR_LIMIT as int),
            !is_zero(ray.direction),
        ensures
            (r is Some) == scatter_succeeds(*self, *ray, *intersection),
            r matches Some(out) ==> scatter_valid(*self, *ray, *intersection, out),
    {
        match self {
            Material::Lambertian { diffuse } => lambertian(diffuse, ray, intersection),
            Material::Metal { diffuse, fuzz } => metal(diffuse, *fuzz, ray, intersection),
            Material::Dielectric { refraction_index } => dielectric(
                *refraction_index,
                ray,
                intersection,
            ),
        }
    }
}

/// Diffuse scatter: bounce around the normal, keep the diffuse color.
fn lambertian(diffuse: &Color3, _ray: &Ray, intersection: &IntersectionRecord) -> (r: Option<
    MaterialInteraction,
>)
    requires
        hit_geometry_wf(*intersection),
        color_wf(*diffuse),
    ensures
        r matches Some(out) && out.attenuation == *diffuse && out.scattered_ray.origin
            == intersection.point && !is_zero(out.scattered_ray.direction) && in_range(
            out.scattered_ray.direction,
            DIR_LIMIT as int,
        ) && (exists|rv: Vector3|
            #[trigger] in_unit_ball(rv) && out.scattered_ray.direction == lambertian_direction(
                intersection.normal,
                rv,
            )),
{
    let rv = Vector3::random_in_unit_sphere();
    let sum = intersection.normal.add(&rv);
    let scatter_direction = if sum.is_near_zero() {
        intersection.normal
    } else {
        sum
    };
    proof {
        assert(in_unit_ball(rv));
        assert(scatter_direction == lambertian_direction(intersection.normal, rv));
    }
    Some(
        MaterialInteraction {
            attenuation: *diffuse,
            scattered_ray: Ray { origin: intersection.point, direction: scatter_direction },
        },
    )
}

/// Metal scatter: mirror the normalized direction, fuzz it, and absorb rays
/// whose mirror direction points into the surface.
fn metal(diffuse: &Color3, fuzz: Real, ray: &Ray, intersection: &IntersectionRecord) -> (r: Option<
    MaterialInteraction,
>)
    requires
        hit_geometry_wf(*intersection),
        color_wf(*diffuse),
        0 <= fuzz.raw <= SCALE,
        in_range(ray.direction, DIR_LIMIT as int),
        !is_zero(ray.direction),
    ensures
        (r is Some) == (dot_spec(metal_reflected(ray.direction, intersection.normal), intersection.normal) > 0),
        r matches Some(out) ==> out.attenuation == *diffuse && out.scattered_ray.origin
            == intersection.point && !is_zero(out.scattered_ray.direction) && in_range(
            out.scattered_ray.direction,
            DIR_LIMIT as int,
        ) && (exists|rv: Vector3|
            #[trigger] in_unit_ball(rv) && out.scattered_ray.direction == metal_direction(
                ray.direction,
                intersection.normal,
                fuzz.raw as int,
                rv,
            )),
{
    let unit = ray.direction.as_normal();
    proof {
        crate::math::lemma_reflect_of_unit_bounds(unit, intersection.normal);
    }
    let reflected = unit.reflect(&intersection.normal);
    let alignment = reflected.dot(&intersection.normal);
    if alignment.raw <= 0 {
        return None;
    }
    let rv = Vector3::random_in_unit_sphere();
    let offset = rv.scale(fuzz);
    proof {
        lemma_fx_mul_bound(rv.x.raw as int, fuzz.raw as int, SCALE as int, SCALE as int);
        lemma_fx_mul_bound(rv.y.raw as int, fuzz.raw as int, SCALE as int, SCALE as int);
        lemma_fx_mul_bound(rv.z.raw as int, fuzz.raw as int, SCALE as int, SCALE as int);
    }
    let sum = reflected.add(&offset);
    let direction = if sum.is_near_zero() {
        reflected
    } else {
        sum
    };
    proof {
        assert(in_unit_ball(rv));
        assert(direction == metal_direction(ray.direction, intersection.normal, fuzz.raw as int, rv));
        if is_zero(reflected) {
            crate::defs::lemma_fx_mul_zero(intersection.normal.x.raw as int);
            crate::defs::lemma_fx_mul_zero(intersection.normal.y.raw as int);
            crate::defs::lemma_fx_mul_zero(intersection.normal.z.raw as int);
            assert(dot_spec(reflected, intersection.normal) == 0);
        }
    }
    Some(
        MaterialInteraction {
            attenuation: *diffuse,
            scattered_ray: Ray { origin: intersection.point, direction },
        },
    )
}

/// Dielectric scatter: always passes light on at full strength, choosing
/// between reflection and refraction by total internal reflection and a
/// Schlick reflectance draw.
fn dielectric(refraction_index: Real, ray: &Ray, intersection: &IntersectionRecord) -> (r: Option<
    MaterialInteraction,
>)
    requires
        hit_geometry_wf(*intersection),
        0x1000 <= refraction_index.raw <= 0x10_0000,
        in_range(ray.direction, DIR_LIMIT as int),
        !is_zero(ray.direction),
    ensures
        r matches Some(out) && out.attenuation == white() && out.scattered_ray.origin
            == intersection.point && !is_zero(out.scattered_ray.direction) && in_range(
            out.scattered_ray.direction,
            DIR_LIMIT as int,
        ) && (exists|draw: int|
            0 <= #[trigger] (draw + 0) < SCALE && out.scattered_ray.direction
                == dielectric_direction(
                ray.direction,
                intersection.normal,
                dielectric_ratio(refraction_index.raw as int, intersection.front_face),
                draw,
            )),
{
    let one = Real::one();
    let refraction_ratio = if intersection.front_face {
        proof {
            lemma_ratio_positive(refraction_index.raw as int);
        }
        one.div(refraction_index)
    } else {
        refraction_index
    };
    let direction = ray.direction.as_normal();
    let d = direction.dot(&intersection.normal);
    proof {
        lemma_fx_mul_bound(direction.x.raw as int, intersection.normal.x.raw as int, SCALE as int, SCALE as int);
        lemma_fx_mul_bound(direction.y.raw as int, intersection.normal.y.raw as int, SCALE as int, SCALE as int);
        lemma_fx_mul_bound(direction.z.raw as int, intersection.normal.z.raw as int, SCALE as int, SCALE as int);
    }
    let cos_theta = d.neg().min(one);
    proof {
        lemma_fx_mul_bound(cos_theta.raw as int, cos_theta.raw as int, 0x3_0004, 0x3_0004);
    }
    proof {
        let c = cos_theta.raw as int;
        assert(c * c >= 0) by (nonlinear_arith);
        vstd::arithmetic::div_mod::lemma_div_pos_is_pos(c * c, SCALE as int);
    }
    let sin2 = one.sub(cos_theta.mul(cos_theta)).max(Real::zero());
    let sin_theta = sin2.sqrt();
    proof {
        lemma_sqrt_of_unit(sin2.raw as int, sin_theta.raw as int);
        lemma_fx_mul_bound(refraction_ratio.raw as int, sin_theta.raw as int, 0x10_0000, SCALE as int);
    }
    let cannot_refract = refraction_ratio.mul(sin_theta).raw > SCALE;
    let reflectance = schlick_reflectance(cos_theta, refraction_ratio);
    let draw = Real::from_raw(crate::rng::random_raw_in(0, SCALE - 1));
    let new_direction = if cannot_refract || reflectance.raw > draw.raw {
        proof {
            crate::math::lemma_reflect_of_unit_bounds(direction, intersection.normal);
        }
        let refl = direction.reflect(&intersection.normal);
        if refl.is_near_zero() {
            intersection.normal
        } else {
            refl
        }
    } else {
        let rf = direction.refract(&intersection.normal, refraction_ratio);
        if rf.is_near_zero() {
            intersection.normal
        } else {
            rf
        }
    };
    proof {
        let ratio = dielectric_ratio(refraction_index.raw as int, intersection.front_face);
        assert(new_direction == dielectric_direction(
            ray.direction,
            intersection.normal,
            ratio,
            draw.raw as int,
        ));
        assert(0 <= (draw.raw as int + 0) < SCALE);
    }
    Some(
        MaterialInteraction {
            attenuation: Color3::new(one, one, one),
            scattered_ray: Ray { origin: intersection.point, direction: new_direction },
        },
    )
}

/// The reciprocal of an index in `[1/16, 16]` stays within `(0, 16]`.
proof fn lemma_ratio_positive(ri: int)
    requires
        0x1000 <= ri <= 0x10_0000,
    ensures
        0 < fx_div(SCALE as int, ri) <= 0x10_0000,
{
    let num = (SCALE as int) * SCALE;
    assert(num == 0x1_0000_0000);
    vstd::arithmetic::div_mod::lemma_div_is_ordered_by_denominator(num, 0x1000, ri);
    assert(num == 0x10_0000 * 0x1000);
    vstd::arithmetic::div_mod::lemma_div_by_multiple(0x10_0000, 0x1000);
    vstd::arithmetic::div_mod::lemma_div_pos_is_pos(num, ri);
    if fx_div(SCALE as int, ri) == 0 {
        vstd::arithmetic::div_mod::lemma_fundamental_div_mod(num, ri);
        vstd::arithmetic::div_mod::lemma_mod_bound(num, ri);
    }
}

/// A square root of a value in `[0, 1]` lies in `[0, 1]`.
proof fn lemma_sqrt_of_unit(v: int, r: int)
    requires
        0 <= v <= SCALE,
        crate::defs::is_isqrt(r, v * SCALE),
    ensures
        0 <= r <= SCALE,
{
    assert(v * SCALE <= SCALE * (SCALE as int)) by (nonlinear_arith)
        requires
            0 <= v <= SCALE,
    ;
    assert(r <= SCALE) by (nonlinear_arith)
        requires
            0 <= r,
            r * r <= SCALE * (SCALE as int),
    ;
}

/// Schlick's reflectance. At head-on incidence (`cos == 1`) it equals the
/// base reflectance `r0` exactly.
pub fn schlick_reflectance(cos_theta: Real, ratio: Real) -> (r: Real)
    requires
        -0x4_0000 <= cos_theta.raw <= SCALE,
        0 < ratio.raw <= 0x10_0000,
    ensures
        r.raw == schlick_spec(cos_theta.raw as int, ratio.raw as int),
        cos_theta.raw == SCALE ==> r.raw == schlick_r0(ratio.raw as int),
{
    let one = Real::one();
    proof {
        crate::defs::lemma_fx_div_unit((SCALE - ratio.raw) as int, (SCALE + ratio.raw) as int);
    }
    let q = one.sub(ratio).div(one.add(ratio));
    proof {
        crate::defs::lemma_fx_square_unit(q.raw as int);
    }
    let r0 = q.mul(q);
    let x = one.sub(cos_theta);
    proof {
        let xi = x.raw as int;
        assert(xi * xi >= 0) by (nonlinear_arith);
        vstd::arithmetic::div_mod::lemma_div_pos_is_pos(xi * xi, SCALE as int);
        lemma_fx_mul_bound(xi, xi, 0x5_0000, 0x5_0000);
        let x2i = fx_mul(xi, xi);
        assert(x2i * x2i >= 0) by (nonlinear_arith);
        vstd::arithmetic::div_mod::lemma_div_pos_is_pos(x2i * x2i, SCALE as int);
        lemma_fx_mul_bound(x2i, x2i, 0x19_0000, 0x19_0000);
        let x4i = fx_mul(x2i, x2i);
        assert(x4i * xi >= 0) by (nonlinear_arith)
            requires
                x4i >= 0,
                xi >= 0,
        ;
        vstd::arithmetic::div_mod::lemma_div_pos_is_pos(x4i * xi, SCALE as int);
        lemma_fx_mul_bound(x4i, xi, 0x271_0000, 0x5_0000);
    }
    let x2 = x.mul(x);
    let x4 = x2.mul(x2);
    let x5 = x4.mul(x);
    proof {
        crate::defs::lemma_fx_mul_unit(x5.raw as int, (SCALE - r0.raw) as int);
        vstd::arithmetic::mul::lemma_mul_is_commutative((SCALE - r0.raw) as int, x5.raw as int);
        if cos_theta.raw == SCALE {
            crate::defs::lemma_fx_mul_zero(0);
            crate::defs::lemma_fx_mul_zero((SCALE - r0.raw) as int);
        }
    }
    r0.add(one.sub(r0).mul(x5))
}

} // verus!
