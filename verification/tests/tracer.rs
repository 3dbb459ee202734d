use crayfish::camera::Camera;
use crayfish::defs::{Real, SCALE};
use crayfish::material::{schlick_reflectance, Material};
use crayfish::math::{Ray, Vector3};
use crayfish::records::IntersectionRecord;
use crayfish::scene::{World, WorldRenderRequest, HIT_EPSILON};
use crayfish::shapes::Shape;

fn v(x: i64, y: i64, z: i64) -> Vector3 {
    Vector3::new(Real::from_int(x), Real::from_int(y), Real::from_int(z))
}

fn gray() -> Vector3 {
    let half = Real::from_raw(SCALE / 2);
    Vector3::new(half, half, half)
}

fn unit_sphere_at_origin() -> Shape {
    Shape::Sphere {
        center: v(0, 0, 0),
        radius: Real::one(),
        material: Material::Lambertian { diffuse: gray() },
    }
}

fn simple_camera() -> Camera {
    Camera::new(
        v(0, 0, 3),
        v(0, 0, 0),
        v(0, 1, 0),
        Real::one(),
        Real::from_int(90),
        Real::from_int(3),
        Real::zero(),
    )
}

#[test]
fn sphere_hit_from_the_front_has_two_roots() {
    // Unit sphere at the origin, ray from (0,0,-5) toward +z: roots 4 and 6.
    let s = unit_sphere_at_origin();
    let ray = Ray::new(v(0, 0, -5), v(0, 0, 1));
    let first = s.hit(&ray, Real::zero(), Real::from_int(100)).unwrap();
    assert_eq!(first.t.raw, 4 * SCALE);
    let second = s
        .hit(&ray, Real::from_raw(4 * SCALE + 1), Real::from_int(100))
        .unwrap();
    assert_eq!(second.t.raw, 6 * SCALE);
}

#[test]
fn sphere_behind_the_ray_has_negative_roots() {
    // Same sphere, ray from (0,0,5) toward +z: both roots behind the origin.
    let s = unit_sphere_at_origin();
    let ray = Ray::new(v(0, 0, 5), v(0, 0, 1));
    let first = s.hit(&ray, Real::from_int(-100), Real::from_int(100)).unwrap();
    assert_eq!(first.t.raw, -6 * SCALE);
    let second = s
        .hit(&ray, Real::from_raw(-6 * SCALE + 1), Real::from_int(100))
        .unwrap();
    assert_eq!(second.t.raw, -4 * SCALE);
}

#[test]
fn tangent_ray_has_a_double_root() {
    let s = unit_sphere_at_origin();
    let ray = Ray::new(v(0, 1, -5), v(0, 0, 1));
    let hit = s.hit(&ray, Real::zero(), Real::from_int(100)).unwrap();
    assert_eq!(hit.t.raw, 5 * SCALE);
}

#[test]
fn distant_ray_misses() {
    let s = unit_sphere_at_origin();
    let ray = Ray::new(v(0, 10, -5), v(0, 0, 1));
    assert!(s.hit(&ray, Real::zero(), Real::from_int(100)).is_none());
}

#[test]
fn world_hit_returns_smallest_root_regardless_of_order() {
    // Two overlapping spheres; the nearer surface wins in either insertion
    // order.
    let near = || Shape::Sphere {
        center: v(0, 0, 0),
        radius: Real::from_int(2),
        material: Material::Lambertian { diffuse: gray() },
    };
    let far = || Shape::Sphere {
        center: v(0, 0, 1),
        radius: Real::from_int(2),
        material: Material::Lambertian { diffuse: gray() },
    };
    let ray = Ray::new(v(0, 0, -5), v(0, 0, 1));
    let mut world_a = World::new(simple_camera());
    world_a.add_shape(near());
    world_a.add_shape(far());
    let mut world_b = World::new(simple_camera());
    world_b.add_shape(far());
    world_b.add_shape(near());
    let hit_a = world_a.hit(&ray, Real::zero(), Real::from_int(100)).unwrap();
    let hit_b = world_b.hit(&ray, Real::zero(), Real::from_int(100)).unwrap();
    assert_eq!(hit_a.t.raw, 3 * SCALE);
    assert_eq!(hit_b.t.raw, 3 * SCALE);
    assert_eq!(hit_a.point.z.raw, hit_b.point.z.raw);
}

#[test]
fn color_at_depth_zero_is_black() {
    let world = World::new(simple_camera());
    let ray = Ray::new(v(1, 2, 3), v(0, 1, 0));
    let c = world.color_at(&ray, 0);
    assert_eq!((c.x.raw, c.y.raw, c.z.raw), (0, 0, 0));
}

#[test]
fn empty_scene_shows_background_gradient() {
    let world = World::new(simple_camera());
    // Horizontal ray: halfway up the gradient.
    let level = world.color_at(&Ray::new(v(0, 0, 0), v(0, 0, 1)), 8);
    assert_eq!((level.x.raw, level.y.raw, level.z.raw), (49152, 55705, SCALE));
    // Straight up: exactly the sky color.
    let up = world.color_at(&Ray::new(v(0, 0, 0), v(0, 1, 0)), 8);
    assert_eq!((up.x.raw, up.y.raw, up.z.raw), (32768, 45875, SCALE));
}

#[test]
fn background_stays_between_sky_and_white() {
    let world = World::new(simple_camera());
    for dir in [v(1, 1, 0), v(-2, 1, 3), v(0, -1, 0), v(5, 2, -4)] {
        let c = world.color_at(&Ray::new(v(0, 0, 0), dir), 4);
        assert!(32768 <= c.x.raw && c.x.raw <= SCALE);
        assert!(45875 <= c.y.raw && c.y.raw <= SCALE);
        assert_eq!(c.z.raw, SCALE);
    }
}

#[test]
fn center_ray_hits_unit_sphere_at_two() {
    // End to end: unit sphere at the origin seen from (0,0,3); the center
    // ray hits at t == 2 with normal (0,0,1) on the front face.
    let mut world = World::new(simple_camera());
    world.add_shape(unit_sphere_at_origin());
    let ray = Ray::new(v(0, 0, 3), v(0, 0, -1));
    let hit = world
        .hit(&ray, Real::from_raw(HIT_EPSILON), Real::from_int(100))
        .unwrap();
    assert_eq!(hit.t.raw, 2 * SCALE);
    assert_eq!((hit.point.x.raw, hit.point.y.raw, hit.point.z.raw), (0, 0, SCALE));
    assert_eq!((hit.normal.x.raw, hit.normal.y.raw, hit.normal.z.raw), (0, 0, SCALE));
    assert!(hit.front_face);
    match hit.material {
        Material::Lambertian { diffuse } => assert_eq!(diffuse.x.raw, SCALE / 2),
        _ => panic!("wrong material"),
    }
}

#[test]
fn schlick_reflectance_at_head_on_incidence_equals_r0() {
    let r = schlick_reflectance(Real::one(), Real::from_int(2));
    assert_eq!(r.raw, 7282);
    let even = schlick_reflectance(Real::one(), Real::one());
    assert_eq!(even.raw, 0);
}

#[test]
fn schlick_reflectance_at_grazing_incidence_is_full() {
    let r = schlick_reflectance(Real::zero(), Real::from_int(2));
    assert_eq!(r.raw, SCALE);
}

#[test]
fn metal_absorbs_rays_reflected_into_the_surface() {
    let metal = Material::Metal { diffuse: gray(), fuzz: Real::zero() };
    let record = IntersectionRecord::new(
        v(0, 0, 1),
        v(0, 0, 1),
        Real::one(),
        true,
        metal,
    );
    // Mirror direction points into the surface: absorbed.
    let grazing_in = Ray::new(v(0, 0, 3), v(0, 0, 1));
    assert!(metal.scatter(&grazing_in, &record).is_none());
    // Mirror direction points away: scattered with the metal's color.
    let head_on = Ray::new(v(0, 0, 3), v(0, 0, -1));
    let out = metal.scatter(&head_on, &record).unwrap();
    assert_eq!(out.attenuation.x.raw, SCALE / 2);
    assert_eq!(out.scattered_ray.origin.z.raw, SCALE);
    assert_eq!(out.scattered_ray.direction.z.raw, SCALE);
}

#[test]
fn lambertian_always_scatters_with_its_color() {
    let lam = Material::Lambertian { diffuse: gray() };
    let record = IntersectionRecord::new(v(0, 0, 1), v(0, 0, 1), Real::one(), true, lam);
    let ray = Ray::new(v(0, 0, 3), v(0, 0, -1));
    for _ in 0..16 {
        let out = lam.scatter(&ray, &record).unwrap();
        assert_eq!(out.attenuation.x.raw, SCALE / 2);
        let d = out.scattered_ray.direction;
        assert!(d.x.raw != 0 || d.y.raw != 0 || d.z.raw != 0);
    }
}

#[test]
fn dielectric_always_scatters_at_full_strength() {
    let glass = Material::Dielectric { refraction_index: Real::from_raw(98304) };
    let record = IntersectionRecord::new(v(0, 0, 1), v(0, 0, 1), Real::one(), true, glass);
    let ray = Ray::new(v(0, 0, 3), v(0, 0, -1));
    for _ in 0..16 {
        let out = glass.scatter(&ray, &record).unwrap();
        assert_eq!(out.attenuation.x.raw, SCALE);
        assert_eq!(out.attenuation.y.raw, SCALE);
        assert_eq!(out.attenuation.z.raw, SCALE);
    }
}

#[test]
fn rendered_scene_has_colors_in_range() {
    let mut world = World::new(simple_camera());
    world.add_shape(unit_sphere_at_origin());
    let request = WorldRenderRequest::new(2, 4, 1, 8, 8);
    let canvas = world.render(request);
    assert_eq!(canvas.width, 8);
    assert_eq!(canvas.height, 8);
    let bytes = canvas.to_u8_vec();
    assert_eq!(bytes.len(), 3 * 64);
}

#[test]
fn camera_without_aperture_keeps_its_origin() {
    let cam = simple_camera();
    for _ in 0..8 {
        let ray = cam.get_ray(Real::from_raw(SCALE / 2), Real::from_raw(SCALE / 2));
        assert_eq!((ray.origin.x.raw, ray.origin.y.raw, ray.origin.z.raw), (0, 0, 3 * SCALE));
        // The camera looks toward -z.
        assert!(ray.direction.z.raw < 0);
    }
}

#[test]
fn surface_color_never_exceeds_its_attenuation() {
    // A half-gray sphere can reflect at most half of each channel.
    let mut world = World::new(simple_camera());
    world.add_shape(unit_sphere_at_origin());
    let ray = Ray::new(v(0, 0, 3), v(0, 0, -1));
    for _ in 0..8 {
        let c = world.color_at(&ray, 6);
        assert!(c.x.raw <= SCALE / 2);
        assert!(c.y.raw <= SCALE / 2);
        assert!(c.z.raw <= SCALE / 2);
        assert!(c.x.raw >= 0 && c.y.raw >= 0 && c.z.raw >= 0);
    }
}

#[test]
fn stepped_render_skips_pixels_and_visits_the_grid() {
    // Empty scene: every visited pixel shows the background (never black),
    // and every pixel the stepping skips stays black.
    let world = World::new(simple_camera());
    let request = WorldRenderRequest::new(1, 2, 2, 4, 4);
    let canvas = world.render(request);
    let packed = canvas.to_u32_vec();
    for row in 0..4 {
        for col in 0..4 {
            let p = packed[row * 4 + col];
            if row % 2 == 0 && col % 2 == 0 {
                assert!(p != 0, "visited pixel ({row},{col}) is black");
            } else {
                assert_eq!(p, 0, "skipped pixel ({row},{col}) is not black");
            }
        }
    }
}

#[test]
fn render_request_limits_are_exact() {
    assert!(WorldRenderRequest::new(1, 0, 1, 2, 2).within_limits());
    assert!(!WorldRenderRequest::new(0, 0, 1, 2, 2).within_limits());
    assert!(!WorldRenderRequest::new(1, -1, 1, 2, 2).within_limits());
    assert!(!WorldRenderRequest::new(1, 0, 1, 2, 9000).within_limits());
    assert!(!WorldRenderRequest::new(1048577, 0, 1, 2, 2).within_limits());
}
