//! The scene and its integrator: the shape set, the closest-hit search,
//! the recursive color estimator, and the render loop.

use crate::camera::{cam_ray, camera_wf, Camera};
use crate::defs::{div_floor, fx_mul, lemma_fx_mul_unit, lemma_fx_mul_zero, Real, SCALE};
use crate::display::{canvas_wf, Canvas, CANVAS_LIMIT, SAMPLE_LIMIT};
use crate::material::{
    attenuated, color_wf, hit_geometry_wf, material_wf, scatter_succeeds, scatter_valid, white,
    Material, MaterialInteraction,
};
use crate::math::{
    dot_spec, in_range, is_zero, lemma_unit_of_bounds, unit_of, v3, Color3, Ray, Vector3, DIR_LIMIT,
    POINT_LIMIT, T_LIMIT,
};
use crate::records::IntersectionRecord;
use crate::rng::random_raw_in;
use crate::shapes::{shape_wf, sphere_hit_t, sphere_record_spec, Shape};
use vstd::arithmetic::div_mod::{
    lemma_div_is_ordered, lemma_div_multiples_vanish, lemma_div_pos_is_pos,
};
use vstd::prelude::*;

verus! {

/// The lower parameter cutoff of every scattered ray (about 0.001),
/// excluding immediate self-intersection at a bounce point.
pub const HIT_EPSILON: i64 = 66;

/// What one render call is asked to produce.
pub struct WorldRenderRequest {
    pub samples_per_pixel: i64,
    pub ray_max_depth: i64,
    pub ray_step: i64,
    pub width: usize,
    pub height: usize,
}

/// The request's numbers are in their accepted ranges.
pub open spec fn request_wf(rq: WorldRenderRequest) -> bool {
    &&& 1 <= rq.samples_per_pixel <= SAMPLE_LIMIT
    &&& 0 <= rq.ray_max_depth <= 0x1000
    &&& 1 <= rq.ray_step <= CANVAS_LIMIT
    &&& 2 <= rq.width <= CANVAS_LIMIT
    &&& 2 <= rq.height <= CANVAS_LIMIT
}

impl WorldRenderRequest {
    /// The request with the given fields.
    pub fn new(
        samples_per_pixel: i64,
        ray_max_depth: i64,
        ray_step: i64,
        width: usize,
        height: usize,
    ) -> (r: WorldRenderRequest)
        ensures
            r.samples_per_pixel == samples_per_pixel,
            r.ray_max_depth == ray_max_depth,
            r.ray_step == ray_step,
            r.width == width,
            r.height == height,
    {
        WorldRenderRequest { samples_per_pixel, ray_max_depth, ray_step, width, height }
    }

    /// Decide exactly whether the request is within the renderer's limits:
    /// `true` if and only if `World::render` accepts it.
    pub fn within_limits(&self) -> (r: bool)
        ensures
            r == request_wf(*self),
    {
        1 <= self.samples_per_pixel && self.samples_per_pixel <= SAMPLE_LIMIT && 0
            <= self.ray_max_depth && self.ray_max_depth <= 0x1000 && 1 <= self.ray_step
            && self.ray_step <= CANVAS_LIMIT as i64 && 2 <= self.width && self.width
            <= CANVAS_LIMIT && 2 <= self.height && self.height <= CANVAS_LIMIT
    }
}

/// The scene: an ordered, append-only set of shapes and one camera.
pub struct World {
    pub shapes: Vec<Shape>,
    pub camera: Camera,
}

/// Every shape is well formed and so is the camera.
pub open spec fn world_wf(w: World) -> bool {
    &&& forall|i: int| 0 <= i < w.shapes.len() ==> shape_wf(#[trigger] w.shapes[i])
    &&& camera_wf(w.camera)
}

/// The closest-hit search from shape `i` on, carrying the best record so
/// far and its parameter as the shrinking upper window bound: exactly the
/// scan the render loop performs, ties kept by the earlier shape.
pub open spec fn world_hit_from(
    shapes: Seq<Shape>,
    i: int,
    ray: Ray,
    t_min: int,
    best_t: int,
    best: Option<IntersectionRecord>,
) -> Option<IntersectionRecord>
    decreases shapes.len() - i,
{
    if i < 0 || i >= shapes.len() {
        best
    } else {
        match sphere_hit_t(shapes[i], ray, t_min, best_t) {
            Option::None => world_hit_from(shapes, i + 1, ray, t_min, best_t, best),
            Option::Some(t) => if best is None || t < best_t {
                world_hit_from(
                    shapes,
                    i + 1,
                    ray,
                    t_min,
                    t,
                    Some(sphere_record_spec(shapes[i], ray, t)),
                )
            } else {
                world_hit_from(shapes, i + 1, ray, t_min, best_t, best)
            },
        }
    }
}

/// The hit the whole scene reports for a ray over `[t_min, t_max]`.
pub open spec fn world_hit_spec(shapes: Seq<Shape>, ray: Ray, t_min: int, t_max: int) -> Option<
    IntersectionRecord,
> {
    world_hit_from(shapes, 0, ray, t_min, t_max, None)
}

/// The background gradient for a view direction: a blend from white at the
/// horizon to sky blue upward, interpolated by the normalized direction's
/// height.
pub open spec fn background_of(direction: Vector3) -> Color3 {
    let u = unit_of(direction);
    let interp = fx_mul(32768, u.y.raw + SCALE);
    v3(
        SCALE + fx_mul(-32768, interp),
        SCALE + fx_mul(-19661, interp),
        SCALE as int,
    )
}

/// The background gradient a ray sees.
pub open spec fn background_spec(ray: Ray) -> Color3 {
    background_of(ray.direction)
}

/// A blend step away from white stays between the blend target and zero.
proof fn lemma_blend_bound(d: int, interp: int)
    requires
        -SCALE <= d <= 0,
        0 <= interp <= SCALE,
    ensures
        d <= fx_mul(d, interp) <= 0,
{
    assert(d * SCALE <= d * interp <= 0) by (nonlinear_arith)
        requires
            -SCALE <= d <= 0,
            0 <= interp <= SCALE,
    ;
    lemma_div_is_ordered(d * (SCALE as int), d * interp, SCALE as int);
    lemma_div_is_ordered(d * interp, 0, SCALE as int);
    lemma_div_multiples_vanish(d, SCALE as int);
    vstd::arithmetic::div_mod::lemma_div_of0(SCALE as int);
    assert(d * SCALE == (SCALE as int) * d) by (nonlinear_arith);
}

/// The background color sits component-wise between sky blue and white.
pub proof fn lemma_background_bounded(ray: Ray)
    requires
        !is_zero(ray.direction),
    ensures
        32768 <= background_spec(ray).x.raw <= SCALE,
        45875 <= background_spec(ray).y.raw <= SCALE,
        background_spec(ray).z.raw == SCALE,
        color_wf(background_spec(ray)),
{
    lemma_background_pieces(ray);
}

/// Everything the integrator promises of a returned color, for a given
/// scene, ray and bounce budget: channels in `[0, 1]`; black once the
/// budget is exhausted or the ray degenerates; exactly the background
/// where nothing is hit; black where a metal's mirror direction points
/// into the surface; never brighter than a struck surface's diffuse
/// color; and where the struck surface scatters, the scattered ray's own
/// color one bounce down, filtered by the material's attenuation, for
/// some scatter the material can produce.
pub open spec fn color_at_post(w: World, ray: Ray, depth: int, c: Color3) -> bool
    decreases depth,
{
    &&& color_wf(c)
    &&& (depth == 0 ==> is_zero(c))
    &&& (depth > 0 && is_zero(ray.direction) ==> is_zero(c))
    &&& (depth > 0 && !is_zero(ray.direction) && world_hit_spec(
        w.shapes@,
        ray,
        HIT_EPSILON as int,
        T_LIMIT as int,
    ) is None ==> c == background_spec(ray))
    &&& (depth > 0 && !is_zero(ray.direction) && (world_hit_spec(
        w.shapes@,
        ray,
        HIT_EPSILON as int,
        T_LIMIT as int,
    ) matches Some(rec) && rec.material matches Material::Metal { .. } && dot_spec(
        crate::material::metal_reflected(ray.direction, rec.normal),
        rec.normal,
    ) <= 0) ==> is_zero(c))
    &&& (depth > 0 && !is_zero(ray.direction) ==> (world_hit_spec(
        w.shapes@,
        ray,
        HIT_EPSILON as int,
        T_LIMIT as int,
    ) matches Some(rec) ==> (rec.material matches Material::Lambertian { diffuse } ==> (c.x.raw
        <= diffuse.x.raw && c.y.raw <= diffuse.y.raw && c.z.raw <= diffuse.z.raw))))
    &&& (depth > 0 && !is_zero(ray.direction) ==> (world_hit_spec(
        w.shapes@,
        ray,
        HIT_EPSILON as int,
        T_LIMIT as int,
    ) matches Some(rec) ==> (rec.material matches Material::Metal { diffuse, .. } ==> (c.x.raw
        <= diffuse.x.raw && c.y.raw <= diffuse.y.raw && c.z.raw <= diffuse.z.raw))))
    &&& (depth > 0 && !is_zero(ray.direction) ==> (world_hit_spec(
        w.shapes@,
        ray,
        HIT_EPSILON as int,
        T_LIMIT as int,
    ) matches Some(rec) ==> (scatter_succeeds(rec.material, ray, rec) ==> exists|
        out: MaterialInteraction,
        rest: Color3,
    |
        #![all_triggers]
        scatter_valid(rec.material, ray, rec, out) && color_at_post(
            w,
            out.scattered_ray,
            depth - 1,
            rest,
        ) && c == attenuated(out.attenuation, rest))))
}


/// The jittered screen coordinate of pixel `i` along an edge of `edge`
/// pixels: the pixel index plus a sub-pixel jitter, normalized by the
/// edge length less one.
pub open spec fn jittered_of(i: int, edge: int, jitter: int) -> int {
    (i * SCALE + jitter) / (edge - 1)
}

/// The jittered screen coordinate of the pixel at image row `row` along a
/// vertical edge of `edge` pixels: image row 0 is the top of the picture,
/// so the coordinate comes from the vertically flipped row index.
pub open spec fn row_jittered_of(row: int, edge: int, jitter: int) -> int {
    jittered_of(edge - 1 - row, edge, jitter)
}

/// A color that one render sample for the image pixel at `row`, `col` can
/// produce: the integrator's promises hold of it for a ray this scene's
/// camera casts at that pixel's own jittered screen coordinates, for some
/// sub-pixel jitters and some lens-disk sample.
pub open spec fn sample_color_ok(
    w: World,
    rq: WorldRenderRequest,
    row: int,
    col: int,
    c: Color3,
) -> bool {
    exists|jx: int, jy: int, rd: Vector3|
        #![trigger jittered_of(col, rq.width as int, jx), row_jittered_of(row, rq.height as int, jy), dot_spec(rd, rd)]
        0 <= jx < SCALE && 0 <= jy < SCALE && dot_spec(rd, rd) < SCALE && in_range(
            rd,
            SCALE as int,
        ) && rd.z.raw == 0 && color_at_post(
            w,
            cam_ray(
                w.camera,
                jittered_of(col, rq.width as int, jx),
                row_jittered_of(row, rq.height as int, jy),
                rd,
            ),
            rq.ray_max_depth as int,
            c,
        )
}

/// A color that accumulating `n` render samples for the image pixel at
/// `row`, `col` can produce: the component-wise sum of `n` colors each of
/// which one sample for that pixel can produce.
pub open spec fn sample_sum_ok(
    w: World,
    rq: WorldRenderRequest,
    row: int,
    col: int,
    n: int,
    c: Color3,
) -> bool
    decreases n,
{
    if n <= 0 {
        is_zero(c)
    } else {
        exists|prev: Color3, s: Color3|
            #![all_triggers]
            sample_sum_ok(w, rq, row, col, n - 1, prev) && sample_color_ok(w, rq, row, col, s) && c
                == v3(
                prev.x.raw + s.x.raw,
                prev.y.raw + s.y.raw,
                prev.z.raw + s.z.raw,
            )
    }
}

/// Appending one sample color to an accumulable sum keeps it accumulable.
proof fn lemma_sample_sum_extend(
    w: World,
    rq: WorldRenderRequest,
    row: int,
    col: int,
    n: int,
    prev: Color3,
    s: Color3,
    c: Color3,
)
    requires
        n >= 0,
        sample_sum_ok(w, rq, row, col, n, prev),
        sample_color_ok(w, rq, row, col, s),
        c == v3(prev.x.raw + s.x.raw, prev.y.raw + s.y.raw, prev.z.raw + s.z.raw),
    ensures
        sample_sum_ok(w, rq, row, col, n + 1, c),
{
    reveal_with_fuel(sample_sum_ok, 2);
    assert(sample_sum_ok(w, rq, row, col, (n + 1) - 1, prev));
    assert(exists|p: Color3, q: Color3|
        #![all_triggers]
        sample_sum_ok(w, rq, row, col, (n + 1) - 1, p) && sample_color_ok(w, rq, row, col, q) && c
            == v3(
            p.x.raw + q.x.raw,
            p.y.raw + q.y.raw,
            p.z.raw + q.z.raw,
        ));
}

/// A value the render loop may store at the image pixel at `row`, `col`:
/// the tone-mapped average of a sum of `samples_per_pixel` sample colors
/// drawn for that pixel.
pub open spec fn pixel_ok(w: World, rq: WorldRenderRequest, row: int, col: int, p: Color3) -> bool {
    exists|c: Color3|
        #[trigger] sample_sum_ok(w, rq, row, col, rq.samples_per_pixel as int, c) && p == v3(
            crate::display::gamma_of(c.x.raw as int, rq.samples_per_pixel as int),
            crate::display::gamma_of(c.y.raw as int, rq.samples_per_pixel as int),
            crate::display::gamma_of(c.z.raw as int, rq.samples_per_pixel as int),
        )
}

/// The row/column stepping visits this pixel of the image grid (image row
/// 0, the top, is the first render row visited).
pub open spec fn pixel_visited(rq: WorldRenderRequest, row: int, col: int) -> bool {
    row % (rq.ray_step as int) == 0 && col % (rq.ray_step as int) == 0
}

/// No multiple of `step` lies strictly between two consecutive ones.
proof fn lemma_no_multiple_between(lo: int, r: int, step: int)
    requires
        step >= 1,
        lo % step == 0,
        r % step == 0,
        lo < r,
    ensures
        r >= lo + step,
{
    vstd::arithmetic::div_mod::lemma_fundamental_div_mod(lo, step);
    vstd::arithmetic::div_mod::lemma_fundamental_div_mod(r, step);
    assert(r >= lo + step) by (nonlinear_arith)
        requires
            lo == step * (lo / step),
            r == step * (r / step),
            lo < r,
            step >= 1,
    ;
}

/// Adding the step keeps a coordinate on the visited grid.
proof fn lemma_step_keeps_grid(x: int, step: int)
    requires
        step >= 1,
        x % step == 0,
    ensures
        (x + step) % step == 0,
{
    vstd::arithmetic::div_mod::lemma_fundamental_div_mod(x, step);
    assert(x + step == (x / step + 1) * step + 0) by (nonlinear_arith)
        requires
            x == step * (x / step),
    ;
    vstd::arithmetic::div_mod::lemma_fundamental_div_mod_converse_mod(
        x + step,
        step,
        x / step + 1,
        0,
    );
}

/// Over two overlapping spheres whose accepted roots differ, the scene
/// hit is the record of the globally smaller in-window root, whichever
/// order the spheres were inserted in.
pub proof fn lemma_world_hit_order_independent(
    s1: Shape,
    s2: Shape,
    ray: Ray,
    t_min: int,
    t_max: int,
    t1: int,
    t2: int,
)
    requires
        sphere_hit_t(s1, ray, t_min, t_max) == Some(t1),
        sphere_hit_t(s2, ray, t_min, t_max) == Some(t2),
        t1 != t2,
    ensures
        world_hit_spec(seq![s1, s2], ray, t_min, t_max) == world_hit_spec(
            seq![s2, s1],
            ray,
            t_min,
            t_max,
        ),
        world_hit_spec(seq![s1, s2], ray, t_min, t_max) == if t1 < t2 {
            Some(sphere_record_spec(s1, ray, t1))
        } else {
            Some(sphere_record_spec(s2, ray, t2))
        },
{
    crate::shapes::lemma_sphere_hit_in_window(s1, ray, t_min, t_max, t1);
    crate::shapes::lemma_sphere_hit_in_window(s2, ray, t_min, t_max, t2);
    let q12 = seq![s1, s2];
    let q21 = seq![s2, s1];
    assert(q12[0] == s1 && q12[1] == s2 && q12.len() == 2);
    assert(q21[0] == s2 && q21[1] == s1 && q21.len() == 2);
    if t1 < t2 {
        crate::shapes::lemma_sphere_hit_none_above(s2, ray, t_min, t_max, t1, t2);
        crate::shapes::lemma_sphere_hit_narrow(s1, ray, t_min, t_max, t2, t1);
        assert(world_hit_from(q12, 0, ray, t_min, t_max, None) == world_hit_from(
            q12,
            1,
            ray,
            t_min,
            t1,
            Some(sphere_record_spec(s1, ray, t1)),
        ));
        assert(world_hit_from(q12, 2, ray, t_min, t1, Some(sphere_record_spec(s1, ray, t1)))
            == Some(sphere_record_spec(s1, ray, t1)));
        assert(world_hit_from(q12, 1, ray, t_min, t1, Some(sphere_record_spec(s1, ray, t1)))
            == Some(sphere_record_spec(s1, ray, t1)));
        assert(world_hit_from(q21, 0, ray, t_min, t_max, None) == world_hit_from(
            q21,
            1,
            ray,
            t_min,
            t2,
            Some(sphere_record_spec(s2, ray, t2)),
        ));
        assert(world_hit_from(q21, 2, ray, t_min, t1, Some(sphere_record_spec(s1, ray, t1)))
            == Some(sphere_record_spec(s1, ray, t1)));
        assert(world_hit_from(q21, 1, ray, t_min, t2, Some(sphere_record_spec(s2, ray, t2)))
            == Some(sphere_record_spec(s1, ray, t1)));
    } else {
        crate::shapes::lemma_sphere_hit_none_above(s1, ray, t_min, t_max, t2, t1);
        crate::shapes::lemma_sphere_hit_narrow(s2, ray, t_min, t_max, t1, t2);
        assert(world_hit_from(q12, 0, ray, t_min, t_max, None) == world_hit_from(
            q12,
            1,
            ray,
            t_min,
            t1,
            Some(sphere_record_spec(s1, ray, t1)),
        ));
        assert(world_hit_from(q12, 2, ray, t_min, t2, Some(sphere_record_spec(s2, ray, t2)))
            == Some(sphere_record_spec(s2, ray, t2)));
        assert(world_hit_from(q12, 1, ray, t_min, t1, Some(sphere_record_spec(s1, ray, t1)))
            == Some(sphere_record_spec(s2, ray, t2)));
        assert(world_hit_from(q21, 0, ray, t_min, t_max, None) == world_hit_from(
            q21,
            1,
            ray,
            t_min,
            t2,
            Some(sphere_record_spec(s2, ray, t2)),
        ));
        assert(world_hit_from(q21, 2, ray, t_min, t2, Some(sphere_record_spec(s2, ray, t2)))
            == Some(sphere_record_spec(s2, ray, t2)));
        assert(world_hit_from(q21, 1, ray, t_min, t2, Some(sphere_record_spec(s2, ray, t2)))
            == Some(sphere_record_spec(s2, ray, t2)));
    }
}

impl World {
    /// An empty scene seen through the given camera.
    pub fn new(camera: Camera) -> (r: World)
        requires
            camera_wf(camera),
        ensures
            r.shapes.len() == 0,
            r.camera == camera,
            world_wf(r),
    {
        World { shapes: Vec::new(), camera }
    }

    /// Append a shape; insertion order is scan order, so earlier shapes win
    /// exact parameter ties.
    pub fn add_shape(&mut self, shape: Shape)
        requires
            world_wf(*old(self)),
            shape_wf(shape),
        ensures
            world_wf(*final(self)),
            final(self).shapes@ == old(self).shapes@.push(shape),
            final(self).camera == old(self).camera,
    {
        self.shapes.push(shape);
    }

    /// The closest intersection of the ray with any shape in
    /// `[t_min, t_max]`: a linear scan that shrinks the window to each
    /// accepted hit's parameter.
    pub fn hit(&self, ray: &Ray, t_min: Real, t_max: Real) -> (r: Option<IntersectionRecord>)
        requires
            world_wf(*self),
            in_range(ray.origin, POINT_LIMIT as int),
            in_range(ray.direction, DIR_LIMIT as int),
            -T_LIMIT <= t_min.raw <= T_LIMIT,
            -T_LIMIT <= t_max.raw <= T_LIMIT,
        ensures
            r == world_hit_spec(self.shapes@, *ray, t_min.raw as int, t_max.raw as int),
            r matches Some(rec) ==> hit_geometry_wf(rec) && material_wf(rec.material) && -T_LIMIT
                <= rec.t.raw <= T_LIMIT,
    {
        let mut closest: Option<IntersectionRecord> = None;
        let mut closest_t: Real = t_max;
        let mut i: usize = 0;
        while i < self.shapes.len()
            invariant
                world_wf(*self),
                in_range(ray.origin, POINT_LIMIT as int),
                in_range(ray.direction, DIR_LIMIT as int),
                -T_LIMIT <= t_min.raw <= T_LIMIT,
                -T_LIMIT <= closest_t.raw <= T_LIMIT,
                i <= self.shapes.len(),
                world_hit_spec(self.shapes@, *ray, t_min.raw as int, t_max.raw as int)
                    == world_hit_from(
                    self.shapes@,
                    i as int,
                    *ray,
                    t_min.raw as int,
                    closest_t.raw as int,
                    closest,
                ),
                closest matches Some(rec) ==> hit_geometry_wf(rec) && material_wf(rec.material)
                    && -T_LIMIT <= rec.t.raw <= T_LIMIT,
            decreases self.shapes.len() - i,
        {
            let shape_intersection = self.shapes[i].hit(ray, t_min, closest_t);
            match shape_intersection {
                Some(intersection) => {
                    let first_hit = match closest {
                        Some(_) => false,
                        None => true,
                    };
                    if first_hit || intersection.t.raw < closest_t.raw {
                        closest_t = intersection.t;
                        closest = Some(intersection);
                    }
                },
                None => {},
            }
            i = i + 1;
        }
        closest
    }

    /// The color carried back along a ray: black once the bounce budget is
    /// exhausted or the ray degenerates, the background gradient where
    /// nothing is hit, black where the surface absorbs the ray, and
    /// otherwise the scattered color filtered by the surface's attenuation.
    pub fn color_at(&self, ray: &Ray, depth: i64) -> (r: Color3)
        requires
            world_wf(*self),
            in_range(ray.origin, POINT_LIMIT as int),
            in_range(ray.direction, DIR_LIMIT as int),
            depth >= 0,
        ensures
            color_at_post(*self, *ray, depth as int, r),
        decreases depth,
    {
        if depth == 0 {
            return Vector3::default();
        }
        if ray.direction.is_near_zero() {
            return Vector3::default();
        }
        let shape_intersection = self.hit(
            ray,
            Real::from_raw(HIT_EPSILON),
            Real::from_raw(T_LIMIT),
        );
        match shape_intersection {
            Some(intersection) => {
                let material_interaction = intersection.material.scatter(ray, &intersection);
                match material_interaction {
                    Some(interaction) => {
                        let rest = self.color_at(&interaction.scattered_ray, depth - 1);
                        proof {
                            match intersection.material {
                                Material::Lambertian { diffuse } => {
                                    assert(color_wf(interaction.attenuation));
                                },
                                Material::Metal { diffuse, fuzz } => {
                                    assert(color_wf(interaction.attenuation));
                                },
                                Material::Dielectric { refraction_index } => {
                                    assert(interaction.attenuation == white());
                                    assert(color_wf(interaction.attenuation));
                                },
                            }
                            lemma_fx_mul_unit(
                                interaction.attenuation.x.raw as int,
                                rest.x.raw as int,
                            );
                            lemma_fx_mul_unit(
                                interaction.attenuation.y.raw as int,
                                rest.y.raw as int,
                            );
                            lemma_fx_mul_unit(
                                interaction.attenuation.z.raw as int,
                                rest.z.raw as int,
                            );
                        }
                        let filtered = interaction.attenuation.mul(&rest);
                        proof {
                            assert(scatter_valid(
                                intersection.material,
                                *ray,
                                intersection,
                                interaction,
                            ) && color_at_post(
                                *self,
                                interaction.scattered_ray,
                                depth as int - 1,
                                rest,
                            ) && filtered == attenuated(interaction.attenuation, rest));
                        }
                        filtered
                    },
                    None => Vector3::default(),
                }
            },
            None => {
                let white_color = Vector3::new(Real::one(), Real::one(), Real::one());
                let sky = Vector3::new(
                    Real::from_raw(32768),
                    Real::from_raw(45875),
                    Real::from_raw(SCALE),
                );
                let direction = ray.direction.as_normal();
                let base = direction.y.add(Real::one());
                proof {
                    lemma_background_pieces(*ray);
                }
                let interp = Real::from_raw(32768).mul(base);
                let delta = sky.sub(&white_color);
                let step = delta.scale(interp);
                let r = white_color.add(&step);
                proof {
                    lemma_fx_mul_zero(interp.raw as int);
                    assert(r == background_spec(*ray));
                }
                r
            },
        }
    }

    /// Render the scene: for every pixel the row/column stepping visits,
    /// average `samples_per_pixel` jittered camera samples of the
    /// integrator, tone-map the average, and store it at the vertically
    /// flipped position; every pixel the stepping skips stays black.
    pub fn render(&self, render_request: WorldRenderRequest) -> (r: Canvas)
        requires
            world_wf(*self),
            request_wf(render_request),
        ensures
            canvas_wf(r),
            r.width == render_request.width,
            r.height == render_request.height,
            forall|i: int|
                0 <= i < r.data.len() ==> 0 <= (#[trigger] r.data[i]).x.raw <= SCALE && 0
                    <= r.data[i].y.raw <= SCALE && 0 <= r.data[i].z.raw <= SCALE,
            forall|i: int|
                #![trigger r.data[i]]
                0 <= i < r.data.len() ==> if pixel_visited(
                    render_request,
                    i / (render_request.width as int),
                    i % (render_request.width as int),
                ) {
                    pixel_ok(
                        *self,
                        render_request,
                        i / (render_request.width as int),
                        i % (render_request.width as int),
                        r.data[i],
                    )
                } else {
                    is_zero(r.data[i])
                },
    {
        let width = render_request.width;
        let height = render_request.height;
        let step: usize = render_request.ray_step as usize;
        let depth = render_request.ray_max_depth;
        let spp = render_request.samples_per_pixel;
        let mut canvas = Canvas::new(width, height);
        proof {
            vstd::arithmetic::div_mod::lemma_fundamental_div_mod_converse_mod(0, step as int, 0, 0);
        }
        let mut yi: usize = 0;
        while yi < height
            invariant
                world_wf(*self),
                request_wf(render_request),
                canvas_wf(canvas),
                canvas.width == width,
                canvas.height == height,
                width == render_request.width,
                height == render_request.height,
                step == render_request.ray_step,
                depth == render_request.ray_max_depth,
                spp == render_request.samples_per_pixel,
                1 <= step <= 0x2000,
                (yi as int) % (step as int) == 0,
                forall|i: int|
                    0 <= i < canvas.data.len() ==> 0 <= (#[trigger] canvas.data[i]).x.raw <= SCALE
                        && 0 <= canvas.data[i].y.raw <= SCALE && 0 <= canvas.data[i].z.raw <= SCALE,
                forall|i: int|
                    #![trigger canvas.data[i]]
                    0 <= i < canvas.data.len() ==> if pixel_visited(
                        render_request,
                        i / (width as int),
                        i % (width as int),
                    ) && i / (width as int) < yi {
                        pixel_ok(
                            *self,
                            render_request,
                            i / (width as int),
                            i % (width as int),
                            canvas.data[i],
                        )
                    } else {
                        is_zero(canvas.data[i])
                    },
            decreases height + step - yi,
        {
            let y = height - 1 - yi;
            let mut x: usize = 0;
            while x < width
                invariant
                    world_wf(*self),
                    request_wf(render_request),
                    canvas_wf(canvas),
                    canvas.width == width,
                    canvas.height == height,
                    width == render_request.width,
                    height == render_request.height,
                    step == render_request.ray_step,
                    depth == render_request.ray_max_depth,
                    spp == render_request.samples_per_pixel,
                    1 <= step <= 0x2000,
                    yi < height,
                    y == height - 1 - yi,
                    (yi as int) % (step as int) == 0,
                    (x as int) % (step as int) == 0,
                    forall|i: int|
                        0 <= i < canvas.data.len() ==> 0 <= (#[trigger] canvas.data[i]).x.raw
                            <= SCALE && 0 <= canvas.data[i].y.raw <= SCALE && 0
                            <= canvas.data[i].z.raw <= SCALE,
                    forall|i: int|
                        #![trigger canvas.data[i]]
                        0 <= i < canvas.data.len() ==> if pixel_visited(
                            render_request,
                            i / (width as int),
                            i % (width as int),
                        ) && (i / (width as int) < yi || (i / (width as int) == yi && i % (
                        width as int) < x)) {
                            pixel_ok(
                                *self,
                                render_request,
                                i / (width as int),
                                i % (width as int),
                                canvas.data[i],
                            )
                        } else {
                            is_zero(canvas.data[i])
                        },
                decreases width + step - x,
            {
                let mut color = Vector3::default();
                let mut s: i64 = 0;
                proof {
                    assert(sample_sum_ok(*self, render_request, yi as int, x as int, 0, color));
                }
                while s < spp
                    invariant
                        world_wf(*self),
                        request_wf(render_request),
                        x < width,
                        yi < height,
                        y == height - 1 - yi,
                        width == render_request.width,
                        height == render_request.height,
                        depth == render_request.ray_max_depth,
                        spp == render_request.samples_per_pixel,
                        0 <= s <= spp,
                        0 <= color.x.raw <= s * SCALE,
                        0 <= color.y.raw <= s * SCALE,
                        0 <= color.z.raw <= s * SCALE,
                        sample_sum_ok(*self, render_request, yi as int, x as int, s as int, color),
                    decreases spp - s,
                {
                    let px = jittered_coordinate(x, width);
                    let py = jittered_coordinate(y, height);
                    let ray = self.camera.get_ray(px, py);
                    let sample = self.color_at(&ray, depth);
                    proof {
                        assert(s * SCALE + SCALE == (s + 1) * SCALE) by (nonlinear_arith);
                        assert(s * SCALE <= 0x10_0000int * SCALE) by (nonlinear_arith)
                            requires
                                0 <= s <= 0x10_0000,
                        ;
                    }
                    let updated = color.add(&sample);
                    proof {
                        let d = depth as int;
                        let jx = choose|j: int|
                            0 <= j < SCALE && px.raw == #[trigger] jittered_of(
                                x as int,
                                width as int,
                                j,
                            );
                        let jy = choose|j: int|
                            0 <= j < SCALE && py.raw == #[trigger] jittered_of(
                                y as int,
                                height as int,
                                j,
                            );
                        let rd = choose|rd: Vector3|
                            (#[trigger] dot_spec(rd, rd)) < SCALE && in_range(rd, SCALE as int)
                                && rd.z.raw == 0 && ray == cam_ray(
                                self.camera,
                                px.raw as int,
                                py.raw as int,
                                rd,
                            );
                        assert(y as int == height as int - 1 - yi as int);
                        assert(py.raw == row_jittered_of(yi as int, height as int, jy));
                        assert(color_at_post(
                            *self,
                            cam_ray(
                                self.camera,
                                jittered_of(x as int, width as int, jx),
                                row_jittered_of(yi as int, height as int, jy),
                                rd,
                            ),
                            d,
                            sample,
                        ));
                        assert(sample_color_ok(*self, render_request, yi as int, x as int, sample));
                        lemma_sample_sum_extend(
                            *self,
                            render_request,
                            yi as int,
                            x as int,
                            s as int,
                            color,
                            sample,
                            updated,
                        );
                    }
                    color = updated;
                    s = s + 1;
                }
                proof {
                    assert(s * SCALE <= 0x10_0000int * SCALE) by (nonlinear_arith)
                        requires
                            0 <= s <= 0x10_0000,
                    ;
                    crate::display::lemma_gamma_unit(color.x.raw as int, spp as int);
                    crate::display::lemma_gamma_unit(color.y.raw as int, spp as int);
                    crate::display::lemma_gamma_unit(color.z.raw as int, spp as int);
                }
                let ghost previous = canvas.data@;
                canvas.set_pixel(x, y, &color, spp);
                proof {
                    let wi = width as int;
                    let si = step as int;
                    let written = (yi as int) * wi + (x as int);
                    assert((height - 1 - y) == yi as int);
                    assert((yi as int) * wi + (x as int) < (height as int) * wi && (height as int)
                        * wi == wi * (height as int)) by (nonlinear_arith)
                        requires
                            1 <= wi,
                            (x as int) < wi,
                            (yi as int) < height as int,
                    ;
                    vstd::arithmetic::div_mod::lemma_fundamental_div_mod_converse_div(
                        written,
                        wi,
                        yi as int,
                        x as int,
                    );
                    vstd::arithmetic::div_mod::lemma_fundamental_div_mod_converse_mod(
                        written,
                        wi,
                        yi as int,
                        x as int,
                    );
                    assert(sample_sum_ok(
                        *self,
                        render_request,
                        yi as int,
                        x as int,
                        render_request.samples_per_pixel as int,
                        color,
                    ));
                    assert(pixel_ok(
                        *self,
                        render_request,
                        yi as int,
                        x as int,
                        canvas.data[written],
                    ));
                    lemma_step_keeps_grid(x as int, si);
                    assert forall|i: int|
                        0 <= i < canvas.data.len() implies (if pixel_visited(
                        render_request,
                        i / wi,
                        i % wi,
                    ) && (i / wi < yi || (i / wi == yi && i % wi < x + step)) {
                        pixel_ok(*self, render_request, i / wi, i % wi, (#[trigger] canvas.data[i]))
                    } else {
                        is_zero(canvas.data[i])
                    }) by {
                        vstd::arithmetic::div_mod::lemma_fundamental_div_mod(i, wi);
                        vstd::arithmetic::div_mod::lemma_mod_bound(i, wi);
                        let row = i / wi;
                        let col = i % wi;
                        if i == written {
                        } else {
                            assert(canvas.data[i] == previous[i]);
                            if row == yi && col == x as int {
                                assert(i == wi * yi + x as int);
                                assert(wi * yi == (yi as int) * wi) by (nonlinear_arith);
                                assert(false);
                            }
                            if pixel_visited(render_request, row, col) && row == yi && x as int
                                <= col < x + step {
                                lemma_no_multiple_between(x as int, col, si);
                                assert(false);
                            }
                        }
                    }
                    assert forall|i: int|
                        0 <= i < canvas.data.len() implies 0 <= (
                    #[trigger] canvas.data[i]).x.raw <= SCALE && 0 <= canvas.data[i].y.raw <= SCALE
                        && 0 <= canvas.data[i].z.raw <= SCALE by {
                        if i != written {
                            assert(canvas.data[i] == previous[i]);
                        }
                    }
                }
                x = x + step;
            }
            proof {
                let wi = width as int;
                let si = step as int;
                lemma_step_keeps_grid(yi as int, si);
                assert forall|i: int|
                    0 <= i < canvas.data.len() implies (if pixel_visited(
                    render_request,
                    i / wi,
                    i % wi,
                ) && i / wi < yi + step {
                    pixel_ok(*self, render_request, i / wi, i % wi, (#[trigger] canvas.data[i]))
                } else {
                    is_zero(canvas.data[i])
                }) by {
                    vstd::arithmetic::div_mod::lemma_fundamental_div_mod(i, wi);
                    vstd::arithmetic::div_mod::lemma_mod_bound(i, wi);
                    let row = i / wi;
                    let col = i % wi;
                    if pixel_visited(render_request, row, col) && (yi as int) < row < yi + step {
                        lemma_no_multiple_between(yi as int, row, si);
                        assert(false);
                    }
                }
            }
            yi = yi + step;
        }
        proof {
            let wi = width as int;
            assert forall|i: int|
                0 <= i < canvas.data.len() implies (if pixel_visited(
                render_request,
                i / wi,
                i % wi,
            ) {
                pixel_ok(*self, render_request, i / wi, i % wi, (#[trigger] canvas.data[i]))
            } else {
                is_zero(canvas.data[i])
            }) by {
                vstd::arithmetic::div_mod::lemma_fundamental_div_mod(i, wi);
                vstd::arithmetic::div_mod::lemma_mod_bound(i, wi);
                assert(i / wi < height as int) by (nonlinear_arith)
                    requires
                        i == wi * (i / wi) + (i % wi),
                        0 <= i % wi < wi,
                        i < wi * (height as int),
                        1 <= wi,
                ;
                assert(i / wi < yi);
            }
        }
        canvas
    }
}

/// The intermediate bounds of the background blend.
proof fn lemma_background_pieces(ray: Ray)
    requires
        !is_zero(ray.direction),
    ensures
        in_range(unit_of(ray.direction), SCALE as int),
        0 <= fx_mul(32768, unit_of(ray.direction).y.raw + SCALE) <= SCALE,
        -32768 <= fx_mul(-32768, fx_mul(32768, unit_of(ray.direction).y.raw + SCALE)) <= 0,
        -19661 <= fx_mul(-19661, fx_mul(32768, unit_of(ray.direction).y.raw + SCALE)) <= 0,
{
    lemma_unit_of_bounds(ray.direction);
    let u = unit_of(ray.direction);
    let base = u.y.raw + SCALE;
    assert(0 <= 32768 * base <= 32768 * (2 * SCALE)) by (nonlinear_arith)
        requires
            0 <= base <= 2 * SCALE,
    ;
    lemma_div_pos_is_pos(32768 * base, SCALE as int);
    lemma_div_is_ordered(32768 * base, 32768 * (2 * (SCALE as int)), SCALE as int);
    lemma_div_multiples_vanish(SCALE as int, SCALE as int);
    assert(32768 * (2 * (SCALE as int)) == (SCALE as int) * SCALE) by (nonlinear_arith);
    let interp = fx_mul(32768, base);
    lemma_blend_bound(-32768, interp);
    lemma_blend_bound(-19661, interp);
}

/// One jittered screen coordinate: the pixel index plus a uniform draw in
/// `[0, 1)`, normalized by the edge length less one.
fn jittered_coordinate(i: usize, edge: usize) -> (r: Real)
    requires
        i < edge,
        2 <= edge <= 0x2000,
    ensures
        0 <= r.raw <= 2 * SCALE,
        exists|jitter: int|
            0 <= jitter < SCALE && r.raw == #[trigger] jittered_of(i as int, edge as int, jitter),
{
    let jitter = random_raw_in(0, SCALE - 1);
    proof {
        assert(0 <= (i as i128) * (SCALE as i128) <= 0x2000_0000int) by (nonlinear_arith)
            requires
                0 <= i < 0x2000,
        ;
    }
    let numerator: i128 = (i as i128) * (SCALE as i128) + (jitter as i128);
    proof {
        lemma_jitter_bound(i as int, edge as int, jitter as int);
    }
    let q = div_floor(numerator, (edge - 1) as i128);
    let r = Real::from_raw(q as i64);
    proof {
        assert(r.raw == jittered_of(i as int, edge as int, jitter as int));
    }
    r
}

/// The jittered coordinate of an in-range pixel lies within `[0, 2]`.
proof fn lemma_jitter_bound(i: int, edge: int, jitter: int)
    requires
        0 <= i < edge,
        2 <= edge,
        0 <= jitter < SCALE,
    ensures
        0 <= (i * SCALE + jitter) / (edge - 1) <= 131072,
{
    let num = i * SCALE + jitter;
    assert(num <= (edge - 1) * 131072) by (nonlinear_arith)
        requires
            0 <= i <= edge - 1,
            0 <= jitter < 65536,
            edge >= 2,
            num == i * 65536 + jitter,
    ;
    lemma_div_pos_is_pos(num, edge - 1);
    lemma_div_is_ordered(num, (edge - 1) * 131072, edge - 1);
    lemma_div_multiples_vanish(131072, edge - 1);
}

} // verus!
