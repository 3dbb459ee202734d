//! The thin-lens camera: it maps normalized screen coordinates to rays,
//! optionally sampling a disk-shaped aperture for depth of field.

use crate::defs::{div_floor, fx_div, fx_mul, lemma_fx_mul_bound, Real, SCALE};
use crate::math::{
    add_v, cross_v, dot_spec, in_range, is_zero, lemma_fx_div_shrinks, scale_v, sub_v, unit_of,
    Point3, Ray, Vector3, COORD_LIMIT, DIR_LIMIT, POINT_LIMIT,
};
use vstd::prelude::*;

verus! {

/// The half field-of-view angle in raw radians: `fov * pi / 360` with
/// `pi` as `205887 / 65536`.
pub open spec fn cam_half_theta(fov: int) -> int {
    (fov * 205887) / 23592960
}

/// A degree-seven Taylor sine of a small nonnegative angle.
pub open spec fn poly_sin(x: int) -> int {
    let x2 = fx_mul(x, x);
    let x3 = fx_mul(x2, x);
    let x5 = fx_mul(x3, x2);
    let x7 = fx_mul(x5, x2);
    x - x3 / 6 + x5 / 120 - x7 / 5040
}

/// A degree-six Taylor cosine of a small nonnegative angle.
pub open spec fn poly_cos(x: int) -> int {
    let x2 = fx_mul(x, x);
    let x4 = fx_mul(x2, x2);
    let x6 = fx_mul(x4, x2);
    SCALE - x2 / 2 + x4 / 24 - x6 / 720
}

/// The tangent of the half field-of-view angle, as the quotient of the two
/// polynomials, clamped into `[0, 4]`; within the accepted field of view
/// the clamp is inert.
pub open spec fn cam_h(fov: int) -> int {
    let q = fx_div(poly_sin(cam_half_theta(fov)), poly_cos(cam_half_theta(fov)));
    if q < 0 {
        0
    } else if q > 0x4_0000 {
        0x4_0000
    } else {
        q
    }
}

/// The camera's precomputed frame: position, viewport corner and extents,
/// lens radius, and the orthonormal-by-construction basis vectors.
pub struct Camera {
    pub origin: Point3,
    pub lower_left_corner: Point3,
    pub horizontal: Vector3,
    pub vertical: Vector3,
    pub lens_radius: Real,
    pub u: Vector3,
    pub v: Vector3,
}

/// The camera's fields are within the bounds ray generation needs.
pub open spec fn camera_wf(c: Camera) -> bool {
    &&& in_range(c.origin, COORD_LIMIT as int)
    &&& in_range(c.u, SCALE as int)
    &&& in_range(c.v, 0x3_0000)
    &&& in_range(c.horizontal, 0x1800_2010)
    &&& in_range(c.vertical, 0x1800_2010)
    &&& in_range(c.lower_left_corner, 0x5900_0000)
    &&& 0 <= c.lens_radius.raw <= 0x10_0000
}

/// The camera value its configuration determines: the frame fields are
/// the construction formulas evaluated over the inputs.
pub open spec fn camera_from(
    origin: Point3,
    look_at: Point3,
    up: Vector3,
    aspect_ratio: int,
    fov_deg: int,
    focus_distance: int,
    aperture: int,
) -> Camera {
    let w = unit_of(sub_v(origin, look_at));
    let u = unit_of(cross_v(up, w));
    let v = cross_v(w, u);
    let h = cam_h(fov_deg);
    let vh = fx_mul(2 * SCALE, h);
    let vw = fx_mul(aspect_ratio, vh);
    let horizontal = scale_v(scale_v(u, vw), focus_distance);
    let vertical = scale_v(scale_v(v, vh), focus_distance);
    Camera {
        origin,
        lower_left_corner: sub_v(
            sub_v(
                sub_v(origin, crate::math::div_v(horizontal, 2 * SCALE)),
                crate::math::div_v(vertical, 2 * SCALE),
            ),
            scale_v(w, focus_distance),
        ),
        horizontal,
        vertical,
        lens_radius: Real { raw: fx_mul(aperture, 32768) as i64 },
        u,
        v,
    }
}

/// The ray the camera casts for screen position `(s, t)` and lens sample
/// `rd`: the origin moves by the lens offset, and the direction points from
/// the moved origin at the `(s, t)` spot of the focal viewport.
pub open spec fn cam_ray(c: Camera, s: int, t: int, rd: Vector3) -> Ray {
    let rdx = fx_mul(rd.x.raw as int, c.lens_radius.raw as int);
    let rdy = fx_mul(rd.y.raw as int, c.lens_radius.raw as int);
    let offset = add_v(scale_v(c.u, rdx), scale_v(c.v, rdy));
    Ray {
        origin: add_v(c.origin, offset),
        direction: sub_v(
            sub_v(
                add_v(
                    add_v(c.lower_left_corner, scale_v(c.horizontal, s)),
                    scale_v(c.vertical, t),
                ),
                c.origin,
            ),
            offset,
        ),
    }
}

/// The clamped tangent of the half field-of-view angle.
pub(crate) fn half_angle_tangent(fov_deg: Real) -> (r: Real)
    requires
        0 < fov_deg.raw <= 0x78_0000,
    ensures
        r.raw == cam_h(fov_deg.raw as int),
        0 <= r.raw <= 0x4_0000,
{
    proof {
        assert(0 <= fov_deg.raw * 205887 <= 0x78_0000int * 205887) by (nonlinear_arith)
            requires
                0 < fov_deg.raw <= 0x78_0000,
        ;
        crate::defs::lemma_div_bound_to(fov_deg.raw * 205887, 0x78_0000int * 205887, 23592960, 68700);
        vstd::arithmetic::div_mod::lemma_div_pos_is_pos(fov_deg.raw * 205887, 23592960);
    }
    let xq: i128 = div_floor((fov_deg.raw as i128) * 205887, 23592960);
    let x = Real::from_raw(xq as i64);
    proof {
        let xi = x.raw as int;
        crate::defs::lemma_fx_mul_bound_to(xi, xi, 68700, 68700, 72100);
        let x2i = fx_mul(xi, xi);
        crate::defs::lemma_fx_mul_bound_to(x2i, xi, 72100, 68700, 75600);
        let x3i = fx_mul(x2i, xi);
        crate::defs::lemma_fx_mul_bound_to(x3i, x2i, 75600, 72100, 83200);
        let x5i = fx_mul(x3i, x2i);
        crate::defs::lemma_fx_mul_bound_to(x5i, x2i, 83200, 72100, 91600);
        let x7i = fx_mul(x5i, x2i);
        crate::defs::lemma_fx_mul_bound_to(x2i, x2i, 72100, 72100, 79400);
        let x4i = fx_mul(x2i, x2i);
        crate::defs::lemma_fx_mul_bound_to(x4i, x2i, 79400, 72100, 87400);
        let x6i = fx_mul(x4i, x2i);
        crate::defs::lemma_div_bound_to(x3i, 75600, 6, 12600);
        crate::defs::lemma_div_bound_to(x5i, 83200, 120, 694);
        crate::defs::lemma_div_bound_to(x7i, 91600, 5040, 19);
        crate::defs::lemma_div_bound_to(x2i, 72100, 2, 36050);
        crate::defs::lemma_div_bound_to(x4i, 79400, 24, 3309);
        crate::defs::lemma_div_bound_to(x6i, 87400, 720, 122);
    }
    let x2 = x.mul(x);
    let x3 = x2.mul(x);
    let x5 = x3.mul(x2);
    let x7 = x5.mul(x2);
    let x4 = x2.mul(x2);
    let x6 = x4.mul(x2);
    let t3 = Real::from_raw(div_floor(x3.raw as i128, 6) as i64);
    let t5 = Real::from_raw(div_floor(x5.raw as i128, 120) as i64);
    let t7 = Real::from_raw(div_floor(x7.raw as i128, 5040) as i64);
    let c2 = Real::from_raw(div_floor(x2.raw as i128, 2) as i64);
    let c4 = Real::from_raw(div_floor(x4.raw as i128, 24) as i64);
    let c6 = Real::from_raw(div_floor(x6.raw as i128, 720) as i64);
    let sin = x.sub(t3).add(t5).sub(t7);
    let cos = Real::one().sub(c2).add(c4).sub(c6);
    proof {
        crate::defs::lemma_fx_div_bound(sin.raw as int, cos.raw as int, 0x2_0000);
    }
    let q = sin.div(cos);
    if q.raw < 0 {
        Real::zero()
    } else if q.raw > 0x4_0000 {
        Real::from_raw(0x4_0000)
    } else {
        q
    }
}

impl Camera {
    /// Build the camera frame from its configuration: the orthonormal
    /// basis from the view direction and the up hint, the viewport extents
    /// from the field of view and the aspect ratio, both pushed out to the
    /// focal plane, and the lens radius from the aperture. The two product
    /// bounds demand that the viewport pushed to the focal plane stays
    /// within the traced volume; they are the only limit on how far away
    /// the focal plane may lie.
    #[verifier::rlimit(60)]
    pub fn new(
        origin: Point3,
        look_at: Point3,
        up: Vector3,
        aspect_ratio: Real,
        fov_deg: Real,
        focus_distance: Real,
        aperture: Real,
    ) -> (r: Camera)
        requires
            in_range(origin, COORD_LIMIT as int),
            in_range(look_at, COORD_LIMIT as int),
            !is_zero(sub_v(origin, look_at)),
            in_range(up, 0x10_0000),
            !is_zero(cross_v(up, unit_of(sub_v(origin, look_at)))),
            0 < fov_deg.raw <= 0x78_0000,
            0 < aspect_ratio.raw <= 0x8_0000,
            0 < focus_distance.raw <= 0x2000_0000,
            fx_mul(
                fx_mul(aspect_ratio.raw as int, fx_mul(2 * SCALE, cam_h(fov_deg.raw as int))),
                focus_distance.raw as int,
            ) <= 0x1000_0000,
            fx_mul(fx_mul(2 * SCALE, cam_h(fov_deg.raw as int)), focus_distance.raw as int)
                <= 0x800_0000,
            0 <= aperture.raw <= 0x20_0000,
        ensures
            ({
                let w = unit_of(sub_v(origin, look_at));
                let u = unit_of(cross_v(up, w));
                let v = cross_v(w, u);
                let h = cam_h(fov_deg.raw as int);
                let vh = fx_mul(2 * SCALE, h);
                let vw = fx_mul(aspect_ratio.raw as int, vh);
                let horizontal = scale_v(scale_v(u, vw), focus_distance.raw as int);
                let vertical = scale_v(scale_v(v, vh), focus_distance.raw as int);
                &&& r.origin == origin
                &&& r.u == u
                &&& r.v == v
                &&& r.horizontal == horizontal
                &&& r.vertical == vertical
                &&& r.lower_left_corner == sub_v(
                    sub_v(
                        sub_v(origin, crate::math::div_v(horizontal, 2 * SCALE)),
                        crate::math::div_v(vertical, 2 * SCALE),
                    ),
                    scale_v(w, focus_distance.raw as int),
                )
                &&& r.lens_radius.raw == fx_mul(aperture.raw as int, 32768)
            }),
            r == camera_from(
                origin,
                look_at,
                up,
                aspect_ratio.raw as int,
                fov_deg.raw as int,
                focus_distance.raw as int,
                aperture.raw as int,
            ),
            camera_wf(r),
    {
        let w = origin.sub(&look_at).as_normal();
        let u0 = up.cross(&w);
        proof {
            lemma_cross_small(up, w, 0x10_0000, SCALE as int);
        }
        let u = u0.as_normal();
        proof {
            lemma_cross_small(w, u, SCALE as int, SCALE as int);
        }
        let v = w.cross(&u);
        let h = half_angle_tangent(fov_deg);
        let two = Real::from_raw(2 * SCALE);
        proof {
            lemma_fx_mul_bound(2 * SCALE, h.raw as int, 2 * SCALE, 0x4_0000);
            assert(2 * SCALE * h.raw >= 0) by (nonlinear_arith)
                requires
                    h.raw >= 0,
            ;
            vstd::arithmetic::div_mod::lemma_div_pos_is_pos(2 * SCALE * h.raw, SCALE as int);
        }
        let viewport_height = two.mul(h);
        proof {
            lemma_fx_mul_bound(aspect_ratio.raw as int, viewport_height.raw as int, 0x8_0000, 0x8_0000);
            assert(aspect_ratio.raw * viewport_height.raw >= 0) by (nonlinear_arith)
                requires
                    aspect_ratio.raw > 0,
                    viewport_height.raw >= 0,
            ;
            vstd::arithmetic::div_mod::lemma_div_pos_is_pos(
                aspect_ratio.raw * viewport_height.raw,
                SCALE as int,
            );
        }
        let viewport_width = aspect_ratio.mul(viewport_height);
        proof {
            lemma_viewport_bounds(
                u,
                v,
                w,
                viewport_height.raw as int,
                viewport_width.raw as int,
                focus_distance.raw as int,
            );
        }
        let horizontal = u.scale(viewport_width).scale(focus_distance);
        let vertical = v.scale(viewport_height).scale(focus_distance);
        let wfd = w.scale(focus_distance);
        let half_h = horizontal.div(two);
        let half_v = vertical.div(two);
        proof {
            lemma_fx_div_shrinks(horizontal.x.raw as int, 2 * SCALE);
            lemma_fx_div_shrinks(horizontal.y.raw as int, 2 * SCALE);
            lemma_fx_div_shrinks(horizontal.z.raw as int, 2 * SCALE);
            lemma_fx_div_shrinks(vertical.x.raw as int, 2 * SCALE);
            lemma_fx_div_shrinks(vertical.y.raw as int, 2 * SCALE);
            lemma_fx_div_shrinks(vertical.z.raw as int, 2 * SCALE);
        }
        let lower_left_corner = origin.sub(&half_h).sub(&half_v).sub(&wfd);
        proof {
            lemma_fx_mul_bound(aperture.raw as int, 32768, 0x20_0000, 32768);
        }
        let lens_radius = aperture.mul(Real::from_raw(32768));
        Camera { origin, lower_left_corner, horizontal, vertical, lens_radius, u, v }
    }

    /// Cast the ray for normalized screen coordinates `(px, py)`, sampling
    /// the lens disk for depth of field.
    pub fn get_ray(&self, px: Real, py: Real) -> (r: Ray)
        requires
            camera_wf(*self),
            0 <= px.raw <= 2 * SCALE,
            0 <= py.raw <= 2 * SCALE,
        ensures
            exists|rd: Vector3|
                (#[trigger] dot_spec(rd, rd)) < SCALE && in_range(rd, SCALE as int) && rd.z.raw
                    == 0 && r == cam_ray(*self, px.raw as int, py.raw as int, rd),
            in_range(r.origin, POINT_LIMIT as int),
            in_range(r.direction, DIR_LIMIT as int),
    {
        let rd = Vector3::random_in_unit_disk();
        proof {
            lemma_fx_mul_bound(rd.x.raw as int, self.lens_radius.raw as int, SCALE as int, 0x10_0000);
            lemma_fx_mul_bound(rd.y.raw as int, self.lens_radius.raw as int, SCALE as int, 0x10_0000);
        }
        let rdx = rd.x.mul(self.lens_radius);
        let rdy = rd.y.mul(self.lens_radius);
        proof {
            lemma_fx_mul_bound(self.u.x.raw as int, rdx.raw as int, SCALE as int, 0x10_0001);
            lemma_fx_mul_bound(self.u.y.raw as int, rdx.raw as int, SCALE as int, 0x10_0001);
            lemma_fx_mul_bound(self.u.z.raw as int, rdx.raw as int, SCALE as int, 0x10_0001);
            lemma_fx_mul_bound(self.v.x.raw as int, rdy.raw as int, 0x3_0000, 0x10_0001);
            lemma_fx_mul_bound(self.v.y.raw as int, rdy.raw as int, 0x3_0000, 0x10_0001);
            lemma_fx_mul_bound(self.v.z.raw as int, rdy.raw as int, 0x3_0000, 0x10_0001);
            crate::defs::lemma_fx_mul_bound_to(self.horizontal.x.raw as int, px.raw as int, 0x1800_2010, 2 * SCALE, 0x3000_4020);
            crate::defs::lemma_fx_mul_bound_to(self.horizontal.y.raw as int, px.raw as int, 0x1800_2010, 2 * SCALE, 0x3000_4020);
            crate::defs::lemma_fx_mul_bound_to(self.horizontal.z.raw as int, px.raw as int, 0x1800_2010, 2 * SCALE, 0x3000_4020);
            crate::defs::lemma_fx_mul_bound_to(self.vertical.x.raw as int, py.raw as int, 0x1800_2010, 2 * SCALE, 0x3000_4020);
            crate::defs::lemma_fx_mul_bound_to(self.vertical.y.raw as int, py.raw as int, 0x1800_2010, 2 * SCALE, 0x3000_4020);
            crate::defs::lemma_fx_mul_bound_to(self.vertical.z.raw as int, py.raw as int, 0x1800_2010, 2 * SCALE, 0x3000_4020);
        }
        let offset = self.u.scale(rdx).add(&self.v.scale(rdy));
        let moved = self.origin.add(&offset);
        let spot = self.lower_left_corner.add(&self.horizontal.scale(px)).add(
            &self.vertical.scale(py),
        );
        let direction = spot.sub(&self.origin).sub(&offset);
        let r = Ray { origin: moved, direction };
        proof {
            assert(dot_spec(rd, rd) < SCALE);
            assert(r == cam_ray(*self, px.raw as int, py.raw as int, rd));
        }
        r
    }
}

/// The cross product of vectors within `ma` and `mb` has components within
/// twice the scaled product bound.
proof fn lemma_cross_small(a: Vector3, b: Vector3, ma: int, mb: int)
    requires
        in_range(a, ma),
        in_range(b, mb),
        0 <= ma,
        0 <= mb,
    ensures
        in_range(cross_v(a, b), 2 * ((ma * mb) / (SCALE as int)) + 2),
        -((ma * mb) / (SCALE as int)) - 1 <= fx_mul(a.y.raw as int, b.z.raw as int) <= (ma * mb)
            / (SCALE as int),
        -((ma * mb) / (SCALE as int)) - 1 <= fx_mul(a.z.raw as int, b.y.raw as int) <= (ma * mb)
            / (SCALE as int),
        -((ma * mb) / (SCALE as int)) - 1 <= fx_mul(a.z.raw as int, b.x.raw as int) <= (ma * mb)
            / (SCALE as int),
        -((ma * mb) / (SCALE as int)) - 1 <= fx_mul(a.x.raw as int, b.z.raw as int) <= (ma * mb)
            / (SCALE as int),
        -((ma * mb) / (SCALE as int)) - 1 <= fx_mul(a.x.raw as int, b.y.raw as int) <= (ma * mb)
            / (SCALE as int),
        -((ma * mb) / (SCALE as int)) - 1 <= fx_mul(a.y.raw as int, b.x.raw as int) <= (ma * mb)
            / (SCALE as int),
{
    lemma_fx_mul_bound(a.y.raw as int, b.z.raw as int, ma, mb);
    lemma_fx_mul_bound(a.z.raw as int, b.y.raw as int, ma, mb);
    lemma_fx_mul_bound(a.z.raw as int, b.x.raw as int, ma, mb);
    lemma_fx_mul_bound(a.x.raw as int, b.z.raw as int, ma, mb);
    lemma_fx_mul_bound(a.x.raw as int, b.y.raw as int, ma, mb);
    lemma_fx_mul_bound(a.y.raw as int, b.x.raw as int, ma, mb);
}

/// Bounds for the viewport vectors pushed to the focal plane: each
/// component of the doubly scaled basis vectors stays within the viewport
/// extent caps the construction demands.
proof fn lemma_viewport_bounds(u: Vector3, v: Vector3, w: Vector3, vh: int, vw: int, fd: int)
    requires
        in_range(u, SCALE as int),
        in_range(v, 0x2_0002),
        in_range(w, SCALE as int),
        0 <= vh <= 0x8_0000,
        0 <= vw <= 0x40_0000,
        0 < fd <= 0x2000_0000,
        fx_mul(vw, fd) <= 0x1000_0000,
        fx_mul(vh, fd) <= 0x800_0000,
    ensures
        in_range(scale_v(u, vw), 0x40_0000),
        in_range(scale_v(v, vh), 0x18_0001),
        in_range(scale_v(w, fd), 0x2000_0000),
        in_range(scale_v(scale_v(u, vw), fd), 0x1000_0001),
        in_range(scale_v(scale_v(v, vh), fd), 0x1800_2005),
{
    crate::defs::lemma_fx_mul_by_unit(u.x.raw as int, vw);
    crate::defs::lemma_fx_mul_by_unit(u.y.raw as int, vw);
    crate::defs::lemma_fx_mul_by_unit(u.z.raw as int, vw);
    crate::defs::lemma_fx_mul_by_unit(w.x.raw as int, fd);
    crate::defs::lemma_fx_mul_by_unit(w.y.raw as int, fd);
    crate::defs::lemma_fx_mul_by_unit(w.z.raw as int, fd);
    // Each component of v * vh is within 3 * vh + 1.
    crate::defs::lemma_fx_mul_le(v.x.raw as int, vh, 0x2_0002);
    crate::defs::lemma_fx_mul_le(v.y.raw as int, vh, 0x2_0002);
    crate::defs::lemma_fx_mul_le(v.z.raw as int, vh, 0x2_0002);
    assert(0x2_0002 * vh <= 0x3_0000 * vh) by (nonlinear_arith)
        requires
            vh >= 0,
    ;
    vstd::arithmetic::div_mod::lemma_div_is_ordered(0x2_0002 * vh, 0x3_0000 * vh, SCALE as int);
    vstd::arithmetic::div_mod::lemma_div_multiples_vanish(3 * vh, SCALE as int);
    assert(0x3_0000 * vh == (SCALE as int) * (3 * vh)) by (nonlinear_arith);
    // The horizontal components are within the width product cap.
    crate::defs::lemma_fx_mul_le(fx_mul(u.x.raw as int, vw), fd, vw);
    crate::defs::lemma_fx_mul_le(fx_mul(u.y.raw as int, vw), fd, vw);
    crate::defs::lemma_fx_mul_le(fx_mul(u.z.raw as int, vw), fd, vw);
    // The vertical components are within three height product caps.
    crate::defs::lemma_fx_mul_le(fx_mul(v.x.raw as int, vh), fd, 3 * vh + 1);
    crate::defs::lemma_fx_mul_le(fx_mul(v.y.raw as int, vh), fd, 3 * vh + 1);
    crate::defs::lemma_fx_mul_le(fx_mul(v.z.raw as int, vh), fd, 3 * vh + 1);
    let x = vh * fd;
    assert((3 * vh + 1) * fd == x + x + x + fd) by (nonlinear_arith)
        requires
            x == vh * fd,
    ;
    crate::defs::lemma_div_of_sum(x, x, SCALE as int);
    crate::defs::lemma_div_of_sum(x + x, x, SCALE as int);
    crate::defs::lemma_div_of_sum(x + x + x, fd, SCALE as int);
    crate::defs::lemma_div_bound_to(fd, 0x2000_0000, SCALE as int, 0x2000);
    assert(fx_mul(3 * vh + 1, fd) <= 3 * fx_mul(vh, fd) + 0x2000 + 3);
}

} // verus!
