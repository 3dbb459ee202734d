use crayfish::configuration::{
    Camera as CameraConfig, Configuration, Material as MaterialConfig, MaterialKind, Shape
    as ShapeConfig, ShapeKind, Transform,
};
use crayfish::defs::{Real, SCALE};
use crayfish::display::Canvas;
use crayfish::material::Material;
use crayfish::math::Vector3;
use crayfish::shapes::Shape;
use crayfish::worldbuilder::{
    config_within_limits, create_lambertian_material, create_metal_material, WorldBuilder,
};

fn reals(a: i64, b: i64, c: i64) -> Vec<Real> {
    vec![Real::from_int(a), Real::from_int(b), Real::from_int(c)]
}

fn sphere_config(kind: MaterialKind) -> ShapeConfig {
    ShapeConfig {
        kind: ShapeKind::Sphere,
        material: MaterialConfig {
            kind,
            diffuse: Some(vec![
                Real::from_raw(SCALE / 2),
                Real::from_raw(SCALE / 2),
                Real::from_raw(SCALE / 2),
            ]),
            fuzz: None,
            refraction_index: Some(Real::from_raw(98304)),
        },
        transform: Transform { position: reals(0, 0, 0), size: reals(1, 1, 1) },
    }
}

fn small_config() -> Configuration {
    Configuration {
        width: 8,
        aspect_ratio: Real::one(),
        output_path: String::new(),
        ray_step: 1,
        samples_per_pixel: 2,
        ray_max_depth: 4,
        camera: CameraConfig {
            fov_deg: Real::from_int(90),
            position: reals(0, 0, 3),
            look_at: reals(0, 0, 0),
            up: reals(0, 1, 0),
            aperture: Real::zero(),
        },
        shapes: vec![sphere_config(MaterialKind::Lambertian)],
    }
}

#[test]
fn canvas_starts_black() {
    let canvas = Canvas::new(4, 3);
    assert_eq!(canvas.width, 4);
    assert_eq!(canvas.height, 3);
    let packed = canvas.to_u32_vec();
    assert_eq!(packed.len(), 12);
    assert!(packed.iter().all(|p| *p == 0));
}

#[test]
fn four_white_samples_average_to_a_full_byte() {
    // Four accumulated samples of (1,1,1): averaged 1, gamma 1, byte 255.
    let mut canvas = Canvas::new(2, 2);
    let sum = Vector3::new(Real::from_int(4), Real::from_int(4), Real::from_int(4));
    canvas.set_pixel(0, 0, &sum, 4);
    let bytes = canvas.to_u8_vec();
    // Render row 0 is the bottom: the pixel lands in image row 1.
    assert_eq!(&bytes[6..9], &[255, 255, 255]);
    assert_eq!(&bytes[0..3], &[0, 0, 0]);
    let packed = canvas.to_u32_vec();
    assert_eq!(packed[2], 0x00FF_FFFF);
    assert_eq!(packed[0], 0);
}

#[test]
fn packing_joins_channel_bytes() {
    assert_eq!(Canvas::from_u8_rgb(1, 2, 3), 0x0001_0203);
    assert_eq!(Canvas::from_u8_rgb(255, 0, 128), 0x00FF_0080);
}

#[test]
fn clamp_orders_its_bounds() {
    let lo = Real::zero();
    let hi = Real::from_raw(65470);
    assert_eq!(Canvas::clamp(Real::from_int(-1), lo, hi).raw, 0);
    assert_eq!(Canvas::clamp(Real::from_int(2), lo, hi).raw, 65470);
    assert_eq!(Canvas::clamp(Real::from_raw(100), lo, hi).raw, 100);
}

#[test]
fn builder_assembles_the_described_scene() {
    let config = small_config();
    let world = WorldBuilder::from_config(&config);
    assert_eq!(world.shapes.len(), 1);
    match &world.shapes[0] {
        Shape::Sphere { center, radius, material } => {
            assert_eq!(center.z.raw, 0);
            assert_eq!(radius.raw, SCALE);
            match material {
                Material::Lambertian { diffuse } => assert_eq!(diffuse.x.raw, SCALE / 2),
                _ => panic!("wrong material"),
            }
        },
    }
    let request = crayfish::scene::WorldRenderRequest::new(
        config.samples_per_pixel,
        config.ray_max_depth,
        config.ray_step,
        8,
        8,
    );
    let canvas = world.render(request);
    assert_eq!(canvas.to_u32_vec().len(), 64);
}

#[test]
fn metal_fuzz_is_clamped_at_construction() {
    let mut cfg = sphere_config(MaterialKind::Metal).material;
    cfg.fuzz = Some(Real::from_int(5));
    match create_metal_material(&cfg) {
        Material::Metal { fuzz, .. } => assert_eq!(fuzz.raw, SCALE),
        _ => panic!("wrong material"),
    }
    cfg.fuzz = None;
    match create_metal_material(&cfg) {
        Material::Metal { fuzz, .. } => assert_eq!(fuzz.raw, 0),
        _ => panic!("wrong material"),
    }
}

#[test]
fn lambertian_keeps_its_diffuse_color() {
    let cfg = sphere_config(MaterialKind::Lambertian).material;
    match create_lambertian_material(&cfg) {
        Material::Lambertian { diffuse } => {
            assert_eq!(diffuse.x.raw, SCALE / 2);
            assert_eq!(diffuse.y.raw, SCALE / 2);
            assert_eq!(diffuse.z.raw, SCALE / 2);
        },
        _ => panic!("wrong material"),
    }
}

#[test]
fn extra_diffuse_entries_are_ignored() {
    let mut cfg = sphere_config(MaterialKind::Lambertian).material;
    cfg.diffuse = Some(vec![
        Real::from_raw(SCALE / 2),
        Real::from_raw(SCALE / 4),
        Real::from_raw(SCALE / 8),
        Real::one(),
    ]);
    match create_lambertian_material(&cfg) {
        Material::Lambertian { diffuse } => {
            assert_eq!(diffuse.x.raw, SCALE / 2);
            assert_eq!(diffuse.y.raw, SCALE / 4);
            assert_eq!(diffuse.z.raw, SCALE / 8);
        },
        _ => panic!("wrong material"),
    }
}

#[test]
fn description_limits_are_exact() {
    let good = small_config();
    assert!(config_within_limits(&good));

    let mut parallel_up = small_config();
    // Up parallel to the view direction: the camera basis degenerates.
    parallel_up.camera.up = reals(0, 0, 1);
    assert!(!config_within_limits(&parallel_up));

    let mut degenerate = small_config();
    degenerate.camera.look_at = reals(0, 0, 3);
    assert!(!config_within_limits(&degenerate));

    let mut tiny_radius = small_config();
    tiny_radius.shapes[0].transform.size = vec![Real::from_raw(0), Real::one(), Real::one()];
    assert!(!config_within_limits(&tiny_radius));

    let mut distant_focus = small_config();
    // A camera may focus all the way across the scene volume, as long as
    // the viewport at the focal plane stays within the traced volume.
    distant_focus.camera.position = reals(0, 0, 2000);
    distant_focus.camera.fov_deg = Real::from_int(20);
    assert!(config_within_limits(&distant_focus));
}
