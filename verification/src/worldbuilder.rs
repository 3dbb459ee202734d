//! Building a renderable scene from its description.

use crate::camera::{camera_from, Camera};
use crate::configuration::{Configuration, MaterialKind, ShapeKind};
use crate::defs::{fx_mul, Real, SCALE};
use crate::material::Material;
use crate::math::{
    cross_v, in_range, is_zero, lemma_unit_of_bounds, mag_spec, sub_v, unit_of, v3, Color3, Point3,
    Vector3, COORD_LIMIT,
};
use crate::scene::World;
use crate::shapes::Shape;
use vstd::prelude::*;

verus! {

/// The vector a three-element coordinate list denotes.
pub open spec fn vec3_of(v: Seq<Real>) -> Vector3 {
    v3(v[0].raw as int, v[1].raw as int, v[2].raw as int)
}

/// The camera description is usable: well-shaped coordinate lists, a
/// nondegenerate basis, limits on the field of view and the aperture, a
/// focus distance (the origin-to-target distance) within range, and a
/// viewport that still fits the traced volume when pushed out to the
/// focal plane.
pub open spec fn config_camera_wf(config: Configuration) -> bool {
    let cam = config.camera;
    let origin = vec3_of(cam.position@);
    let look_at = vec3_of(cam.look_at@);
    let up = vec3_of(cam.up@);
    let focus = mag_spec(sub_v(origin, look_at));
    let vh = fx_mul(2 * SCALE, crate::camera::cam_h(cam.fov_deg.raw as int));
    let vw = fx_mul(config.aspect_ratio.raw as int, vh);
    &&& cam.position@.len() == 3
    &&& cam.look_at@.len() == 3
    &&& cam.up@.len() == 3
    &&& in_range(origin, COORD_LIMIT as int)
    &&& in_range(look_at, COORD_LIMIT as int)
    &&& !is_zero(sub_v(origin, look_at))
    &&& in_range(up, 0x10_0000)
    &&& !is_zero(cross_v(up, unit_of(sub_v(origin, look_at))))
    &&& 0 < config.camera.fov_deg.raw <= 0x78_0000
    &&& 0 < config.aspect_ratio.raw <= 0x8_0000
    &&& focus <= 0x2000_0000
    &&& fx_mul(vw, focus) <= 0x1000_0000
    &&& fx_mul(vh, focus) <= 0x800_0000
    &&& 0 <= cam.aperture.raw <= 0x20_0000
}

/// The material description carries the fields its kind reads, in range.
pub open spec fn config_material_wf(m: crate::configuration::Material) -> bool {
    match m.kind {
        MaterialKind::Lambertian => m.diffuse matches Some(d) && d@.len() >= 3 && color_list_wf(d@),
        MaterialKind::Metal => m.diffuse matches Some(d) && d@.len() >= 3 && color_list_wf(d@),
        MaterialKind::Dielectric => m.refraction_index matches Some(ri) && 0x1000 <= ri.raw
            <= 0x10_0000,
    }
}

/// Every channel of a color list lies in `[0, 1]`.
pub open spec fn color_list_wf(d: Seq<Real>) -> bool {
    &&& 0 <= d[0].raw <= SCALE
    &&& 0 <= d[1].raw <= SCALE
    &&& 0 <= d[2].raw <= SCALE
}

/// The shape description is usable: a placed sphere of positive bounded
/// radius with a usable material.
pub open spec fn config_shape_wf(s: crate::configuration::Shape) -> bool {
    &&& s.transform.position@.len() == 3
    &&& s.transform.size@.len() >= 1
    &&& in_range(vec3_of(s.transform.position@), COORD_LIMIT as int)
    &&& 0 < s.transform.size@[0].raw <= COORD_LIMIT
    &&& config_material_wf(s.material)
}

/// The whole description is usable.
pub open spec fn config_wf(config: Configuration) -> bool {
    &&& config_camera_wf(config)
    &&& forall|i: int|
        0 <= i < config.shapes@.len() ==> config_shape_wf(#[trigger] config.shapes@[i])
}

/// The diffuse color a material description denotes.
pub open spec fn diffuse_of(m: crate::configuration::Material) -> Color3 {
    match m.diffuse {
        Some(d) => vec3_of(d@),
        None => v3(0, 0, 0),
    }
}

/// The fuzz radius a material description denotes, absent meaning zero,
/// clamped into `[0, 1]`.
pub open spec fn fuzz_of(m: crate::configuration::Material) -> Real {
    let f = match m.fuzz {
        Some(f) => f.raw as int,
        None => 0int,
    };
    Real {
        raw: (if f < 0 {
            0int
        } else if f > SCALE {
            SCALE as int
        } else {
            f
        }) as i64,
    }
}

/// The material a description denotes.
pub open spec fn material_of_config(m: crate::configuration::Material) -> Material {
    match m.kind {
        MaterialKind::Lambertian => Material::Lambertian { diffuse: diffuse_of(m) },
        MaterialKind::Metal => Material::Metal { diffuse: diffuse_of(m), fuzz: fuzz_of(m) },
        MaterialKind::Dielectric => Material::Dielectric {
            refraction_index: match m.refraction_index {
                Some(ri) => ri,
                None => Real { raw: 0 },
            },
        },
    }
}

/// The shape a description denotes.
pub open spec fn shape_of_config(s: crate::configuration::Shape) -> Shape {
    Shape::Sphere {
        center: vec3_of(s.transform.position@),
        radius: s.transform.size@[0],
        material: material_of_config(s.material),
    }
}

/// The camera a description denotes; the focus distance is the distance
/// from the camera position to its target.
pub open spec fn camera_of_config(config: Configuration) -> Camera {
    let origin = vec3_of(config.camera.position@);
    let look_at = vec3_of(config.camera.look_at@);
    camera_from(
        origin,
        look_at,
        vec3_of(config.camera.up@),
        config.aspect_ratio.raw as int,
        config.camera.fov_deg.raw as int,
        mag_spec(sub_v(origin, look_at)),
        config.camera.aperture.raw as int,
    )
}

/// Assembles a scene from a description.
pub struct WorldBuilder;

impl WorldBuilder {
    /// The world the description denotes: its camera, and its shapes in
    /// description order.
    pub fn from_config(config: &Configuration) -> (r: World)
        requires
            config_wf(*config),
        ensures
            r.camera == camera_of_config(*config),
            r.shapes@.len() == config.shapes@.len(),
            forall|i: int|
                0 <= i < config.shapes@.len() ==> r.shapes@[i] == shape_of_config(
                    #[trigger] config.shapes@[i],
                ),
            crate::scene::world_wf(r),
    {
        let camera = create_camera(config);
        let mut world = World::new(camera);
        let mut i: usize = 0;
        while i < config.shapes.len()
            invariant
                config_wf(*config),
                i <= config.shapes@.len(),
                world.camera == camera_of_config(*config),
                world.shapes@.len() == i,
                forall|j: int|
                    0 <= j < i ==> world.shapes@[j] == shape_of_config(#[trigger] config.shapes@[j]),
                crate::scene::world_wf(world),
            decreases config.shapes@.len() - i,
        {
            match config.shapes[i].kind {
                ShapeKind::Sphere => {
                    let sphere = create_sphere(&config.shapes[i]);
                    world.add_shape(sphere);
                },
            }
            i = i + 1;
        }
        world
    }
}


/// Whether all three components of a coordinate list lie within the limit.
fn coords_in_range(list: &Vec<Real>, limit: i64) -> (r: bool)
    requires
        list@.len() >= 3,
        0 <= limit,
    ensures
        r == in_range(vec3_of(list@), limit as int),
{
    -limit <= list[0].raw && list[0].raw <= limit && -limit <= list[1].raw && list[1].raw <= limit
        && -limit <= list[2].raw && list[2].raw <= limit
}

/// Decide exactly whether the camera description is within the renderer's
/// limits.
pub fn camera_within_limits(config: &Configuration) -> (r: bool)
    ensures
        r == config_camera_wf(*config),
{
    let cam = &config.camera;
    if cam.position.len() != 3 || cam.look_at.len() != 3 || cam.up.len() != 3 {
        return false;
    }
    if !coords_in_range(&cam.position, crate::math::COORD_LIMIT) {
        return false;
    }
    if !coords_in_range(&cam.look_at, crate::math::COORD_LIMIT) {
        return false;
    }
    if !coords_in_range(&cam.up, 0x10_0000) {
        return false;
    }
    let origin = Point3::new(cam.position[0], cam.position[1], cam.position[2]);
    let look_at = Point3::new(cam.look_at[0], cam.look_at[1], cam.look_at[2]);
    let up = Vector3::new(cam.up[0], cam.up[1], cam.up[2]);
    proof {
        assert(origin == vec3_of(cam.position@));
        assert(look_at == vec3_of(cam.look_at@));
        assert(up == vec3_of(cam.up@));
    }
    let diff = origin.sub(&look_at);
    if diff.is_near_zero() {
        return false;
    }
    let w = diff.as_normal();
    let crossed = up.cross(&w);
    if crossed.is_near_zero() {
        return false;
    }
    if !(0 < cam.fov_deg.raw && cam.fov_deg.raw <= 0x78_0000) {
        return false;
    }
    if !(0 < config.aspect_ratio.raw && config.aspect_ratio.raw <= 0x8_0000) {
        return false;
    }
    let focus = diff.magnitude();
    if focus.raw > 0x2000_0000 {
        return false;
    }
    let h = crate::camera::half_angle_tangent(cam.fov_deg);
    proof {
        crate::defs::lemma_fx_mul_bound(2 * SCALE, h.raw as int, 2 * SCALE, 0x4_0000);
    }
    let vh = Real::from_raw(2 * SCALE).mul(h);
    proof {
        crate::defs::lemma_fx_mul_bound(
            config.aspect_ratio.raw as int,
            vh.raw as int,
            0x8_0000,
            0x8_0000,
        );
    }
    let vw = config.aspect_ratio.mul(vh);
    proof {
        crate::defs::lemma_fx_mul_bound(vw.raw as int, focus.raw as int, 0x40_0001, 0x2000_0000);
        crate::defs::lemma_fx_mul_bound(vh.raw as int, focus.raw as int, 0x8_0001, 0x2000_0000);
    }
    let width_at_focus = vw.mul(focus);
    if width_at_focus.raw > 0x1000_0000 {
        return false;
    }
    let height_at_focus = vh.mul(focus);
    if height_at_focus.raw > 0x800_0000 {
        return false;
    }
    0 <= cam.aperture.raw && cam.aperture.raw <= 0x20_0000
}

/// Decide exactly whether one shape description is within the renderer's
/// limits.
pub fn shape_within_limits(shape: &crate::configuration::Shape) -> (r: bool)
    ensures
        r == config_shape_wf(*shape),
{
    if shape.transform.position.len() != 3 {
        return false;
    }
    if shape.transform.size.len() < 1 {
        return false;
    }
    if !coords_in_range(&shape.transform.position, crate::math::COORD_LIMIT) {
        return false;
    }
    let radius = shape.transform.size[0];
    if !(0 < radius.raw && radius.raw <= crate::math::COORD_LIMIT) {
        return false;
    }
    match shape.material.kind {
        MaterialKind::Lambertian | MaterialKind::Metal => match &shape.material.diffuse {
            Some(d) => d.len() >= 3 && 0 <= d[0].raw && d[0].raw <= SCALE && 0 <= d[1].raw
                && d[1].raw <= SCALE && 0 <= d[2].raw && d[2].raw <= SCALE,
            None => false,
        },
        MaterialKind::Dielectric => match &shape.material.refraction_index {
            Some(ri) => 0x1000 <= ri.raw && ri.raw <= 0x10_0000,
            None => false,
        },
    }
}

/// Decide exactly whether a whole description is within the renderer's
/// limits: `true` if and only if `from_config` accepts it. A caller outside
/// the verifier tests a description here before building a scene from it.
pub fn config_within_limits(config: &Configuration) -> (r: bool)
    ensures
        r == config_wf(*config),
{
    if !camera_within_limits(config) {
        return false;
    }
    let mut i: usize = 0;
    while i < config.shapes.len()
        invariant
            config_camera_wf(*config),
            i <= config.shapes@.len(),
            forall|j: int| 0 <= j < i ==> config_shape_wf(#[trigger] config.shapes@[j]),
        decreases config.shapes@.len() - i,
    {
        if !shape_within_limits(&config.shapes[i]) {
            return false;
        }
        i = i + 1;
    }
    true
}

/// The camera a description denotes, built through `Camera::new`.
pub fn create_camera(config: &Configuration) -> (r: Camera)
    requires
        config_camera_wf(*config),
    ensures
        r == camera_of_config(*config),
        crate::camera::camera_wf(r),
{
    let camera = &config.camera;
    let origin = Point3::new(camera.position[0], camera.position[1], camera.position[2]);
    let look_at = Point3::new(camera.look_at[0], camera.look_at[1], camera.look_at[2]);
    let up = Vector3::new(camera.up[0], camera.up[1], camera.up[2]);
    proof {
        assert(origin == vec3_of(camera.position@));
        assert(look_at == vec3_of(camera.look_at@));
        assert(up == vec3_of(camera.up@));
        lemma_unit_of_bounds(sub_v(origin, look_at));
    }
    let diff = origin.sub(&look_at);
    let focus_distance = diff.magnitude();
    Camera::new(
        origin,
        look_at,
        up,
        config.aspect_ratio,
        camera.fov_deg,
        focus_distance,
        camera.aperture,
    )
}

/// The sphere a shape description denotes.
pub fn create_sphere(shape: &crate::configuration::Shape) -> (r: Shape)
    requires
        config_shape_wf(*shape),
    ensures
        r == shape_of_config(*shape),
        crate::shapes::shape_wf(r),
{
    let radius: Real = shape.transform.size[0];
    let position = Point3::new(
        shape.transform.position[0],
        shape.transform.position[1],
        shape.transform.position[2],
    );
    match shape.material.kind {
        MaterialKind::Lambertian => Shape::Sphere {
            center: position,
            radius,
            material: create_lambertian_material(&shape.material),
        },
        MaterialKind::Metal => Shape::Sphere {
            center: position,
            radius,
            material: create_metal_material(&shape.material),
        },
        MaterialKind::Dielectric => Shape::Sphere {
            center: position,
            radius,
            material: create_dielectric_material(&shape.material),
        },
    }
}

/// The dielectric material a description denotes.
pub fn create_dielectric_material(material: &crate::configuration::Material) -> (r: Material)
    requires
        material.kind is Dielectric,
        config_material_wf(*material),
    ensures
        r == material_of_config(*material),
        crate::material::material_wf(r),
{
    match &material.refraction_index {
        Some(ri) => Material::Dielectric { refraction_index: *ri },
        None => {
            proof {
                assert(false);
            }
            Material::Dielectric { refraction_index: Real::zero() }
        },
    }
}

/// The metal material a description denotes; a missing fuzz radius means
/// zero, and the radius is clamped into `[0, 1]`.
pub fn create_metal_material(material: &crate::configuration::Material) -> (r: Material)
    requires
        material.kind is Metal,
        config_material_wf(*material),
    ensures
        r == material_of_config(*material),
        crate::material::material_wf(r),
{
    let diffuse = unpack_diffuse(material);
    let raw_fuzz = match &material.fuzz {
        Some(f) => *f,
        None => Real::zero(),
    };
    let fuzz = if raw_fuzz.raw < 0 {
        Real::zero()
    } else if raw_fuzz.raw > SCALE {
        Real::one()
    } else {
        raw_fuzz
    };
    Material::Metal { diffuse, fuzz }
}

/// The Lambertian material a description denotes.
pub fn create_lambertian_material(material: &crate::configuration::Material) -> (r: Material)
    requires
        material.kind is Lambertian,
        config_material_wf(*material),
    ensures
        r == material_of_config(*material),
        crate::material::material_wf(r),
{
    let diffuse = unpack_diffuse(material);
    Material::Lambertian { diffuse }
}

/// The diffuse color list of a material description, as a vector.
fn unpack_diffuse(material: &crate::configuration::Material) -> (r: Color3)
    requires
        material.diffuse matches Some(d) && d@.len() >= 3,
    ensures
        r == diffuse_of(*material),
{
    match &material.diffuse {
        Some(d) => Color3::new(d[0], d[1], d[2]),
        None => {
            proof {
                assert(false);
            }
            Vector3::default()
        },
    }
}

} // verus!
