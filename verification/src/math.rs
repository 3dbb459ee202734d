//! Vectors, colors, points, and rays.
//!
//! `Vector3` is a three-component fixed-point tuple used uniformly as point,
//! direction, and linear color. Every operation's contract states the exact
//! fixed-point value of each component.

use crate::defs::{
    fx_div, fx_mul, is_isqrt, isqrt, isqrt_u128, div_floor, lemma_fx_mul_bound,
    lemma_isqrt_exists, lemma_isqrt_ordered, lemma_isqrt_unique, Real, SCALE,
};
use crate::rng::random_raw_in;
use vstd::arithmetic::div_mod::{
    lemma_div_is_ordered, lemma_div_multiples_vanish, lemma_fundamental_div_mod, lemma_mod_bound,
};
use vstd::prelude::*;

verus! {

/// Largest component magnitude (in raw units) the vector operations accept;
/// products of two such components scaled down still fit an `i64`.
pub const VEC_LIMIT: i64 = 0x40_0000_0000;

/// Largest coordinate magnitude for scene geometry: sphere centers, radii,
/// and camera positions (2048 in scalar units).
pub const COORD_LIMIT: i64 = 0x800_0000;

/// Largest coordinate magnitude of an intersection point the tracer
/// accepts (4096 in scalar units); a root whose point leaves this volume is
/// treated as a numerically degenerate miss.
pub const POINT_LIMIT: i64 = 0x1000_0000;

/// Largest component magnitude of a ray direction (65536 in scalar units).
pub const DIR_LIMIT: i64 = 0x1_0000_0000;

/// Largest parametric distance along a ray (16384 in scalar units); it
/// stands in for infinity in the intersection search.
pub const T_LIMIT: i64 = 0x4000_0000;

/// All three components lie within `m` raw units of zero.
pub open spec fn in_range(v: Vector3, m: int) -> bool {
    &&& -m <= v.x.raw <= m
    &&& -m <= v.y.raw <= m
    &&& -m <= v.z.raw <= m
}

/// The zero vector.
pub open spec fn is_zero(v: Vector3) -> bool {
    v.x.raw == 0 && v.y.raw == 0 && v.z.raw == 0
}

/// The fixed-point dot product.
pub open spec fn dot_spec(a: Vector3, b: Vector3) -> int {
    fx_mul(a.x.raw as int, b.x.raw as int) + fx_mul(a.y.raw as int, b.y.raw as int) + fx_mul(
        a.z.raw as int,
        b.z.raw as int,
    )
}

/// The exact sum of squared raw components (in raw-squared units).
pub open spec fn norm2(v: Vector3) -> int {
    v.x.raw * v.x.raw + v.y.raw * v.y.raw + v.z.raw * v.z.raw
}

/// The vector's length in raw units: the integer square root of the exact
/// sum of squares.
pub open spec fn mag_spec(v: Vector3) -> int {
    isqrt(norm2(v))
}

/// The absolute value of an integer.
pub open spec fn abs_i(x: int) -> int {
    if x >= 0 {
        x
    } else {
        -x
    }
}

/// The vector with the given raw components.
pub open spec fn v3(x: int, y: int, z: int) -> Vector3 {
    Vector3 { x: Real { raw: x as i64 }, y: Real { raw: y as i64 }, z: Real { raw: z as i64 } }
}

/// The normalized image of `v`: each component scaled up and divided by the
/// length.
pub open spec fn unit_of(v: Vector3) -> Vector3 {
    v3(
        fx_div(v.x.raw as int, mag_spec(v)),
        fx_div(v.y.raw as int, mag_spec(v)),
        fx_div(v.z.raw as int, mag_spec(v)),
    )
}

/// The component-wise sum.
pub open spec fn add_v(a: Vector3, b: Vector3) -> Vector3 {
    v3(a.x.raw + b.x.raw, a.y.raw + b.y.raw, a.z.raw + b.z.raw)
}

/// The component-wise difference.
pub open spec fn sub_v(a: Vector3, b: Vector3) -> Vector3 {
    v3(a.x.raw - b.x.raw, a.y.raw - b.y.raw, a.z.raw - b.z.raw)
}

/// Every component scaled by `s`.
pub open spec fn scale_v(a: Vector3, s: int) -> Vector3 {
    v3(
        fx_mul(a.x.raw as int, s),
        fx_mul(a.y.raw as int, s),
        fx_mul(a.z.raw as int, s),
    )
}

/// Every component divided by the positive scalar `s`.
pub open spec fn div_v(a: Vector3, s: int) -> Vector3 {
    v3(
        fx_div(a.x.raw as int, s),
        fx_div(a.y.raw as int, s),
        fx_div(a.z.raw as int, s),
    )
}

/// The cross product.
pub open spec fn cross_v(a: Vector3, b: Vector3) -> Vector3 {
    v3(
        fx_mul(a.y.raw as int, b.z.raw as int) - fx_mul(a.z.raw as int, b.y.raw as int),
        fx_mul(a.z.raw as int, b.x.raw as int) - fx_mul(a.x.raw as int, b.z.raw as int),
        fx_mul(a.x.raw as int, b.y.raw as int) - fx_mul(a.y.raw as int, b.x.raw as int),
    )
}

/// The mirror image of `v` around `around`: `v - around * 2 * dot(v, around)`.
pub open spec fn reflect_of(v: Vector3, around: Vector3) -> Vector3 {
    let d = dot_spec(v, around);
    v3(
        v.x.raw - fx_mul(fx_mul(around.x.raw as int, 2 * SCALE), d),
        v.y.raw - fx_mul(fx_mul(around.y.raw as int, 2 * SCALE), d),
        v.z.raw - fx_mul(fx_mul(around.z.raw as int, 2 * SCALE), d),
    )
}

/// The Snell refraction of the unit direction `v` at unit normal `n` with
/// index ratio `ratio`: perpendicular part `(v + n * cos) * ratio`, parallel
/// part along `-n` sized by the clamped remainder.
pub open spec fn refract_of(v: Vector3, n: Vector3, ratio: int) -> Vector3 {
    let d = dot_spec(v, n);
    let cos = if -d <= SCALE {
        -d
    } else {
        SCALE as int
    };
    let px = fx_mul(v.x.raw + fx_mul(n.x.raw as int, cos), ratio);
    let py = fx_mul(v.y.raw + fx_mul(n.y.raw as int, cos), ratio);
    let pz = fx_mul(v.z.raw + fx_mul(n.z.raw as int, cos), ratio);
    let plen2 = fx_mul(px, px) + fx_mul(py, py) + fx_mul(pz, pz);
    let k2 = if SCALE - plen2 >= 0 {
        SCALE - plen2
    } else {
        0int
    };
    let k = isqrt(k2 * SCALE);
    v3(
        px - fx_mul(n.x.raw as int, k),
        py - fx_mul(n.y.raw as int, k),
        pz - fx_mul(n.z.raw as int, k),
    )
}

/// A three-component fixed-point vector; also used as a point and as a
/// linear RGB color.
#[derive(Clone, Copy, Debug, PartialEq, Eq, Structural)]
pub struct Vector3 {
    pub x: Real,
    pub y: Real,
    pub z: Real,
}

/// A location in space.
pub type Point3 = Vector3;

/// A linear RGB color.
pub type Color3 = Vector3;

/// The squared length is nonnegative and dominates each squared component,
/// so the length dominates each component magnitude.
proof fn lemma_mag_dominates(v: Vector3)
    ensures
        norm2(v) >= 0,
        mag_spec(v) >= abs_i(v.x.raw as int),
        mag_spec(v) >= abs_i(v.y.raw as int),
        mag_spec(v) >= abs_i(v.z.raw as int),
        mag_spec(v) >= 0,
        !is_zero(v) ==> mag_spec(v) >= 1,
        is_isqrt(mag_spec(v), norm2(v)),
{
    let x = v.x.raw as int;
    let y = v.y.raw as int;
    let z = v.z.raw as int;
    assert(x * x >= 0 && y * y >= 0 && z * z >= 0) by (nonlinear_arith);
    lemma_isqrt_exists(norm2(v));
    lemma_component_below(x, norm2(v), y * y + z * z);
    lemma_component_below(y, norm2(v), x * x + z * z);
    lemma_component_below(z, norm2(v), x * x + y * y);
    if !is_zero(v) {
        if mag_spec(v) == 0 {
            assert(norm2(v) < 1);
            assert(x == 0 && y == 0 && z == 0) by (nonlinear_arith)
                requires
                    x * x + y * y + z * z < 1,
                    x * x >= 0,
                    y * y >= 0,
                    z * z >= 0,
            ;
        }
    }
}

/// One component's magnitude is at most the square root of the whole sum.
proof fn lemma_component_below(c: int, n: int, rest: int)
    requires
        n == c * c + rest,
        rest >= 0,
    ensures
        isqrt(n) >= abs_i(c),
{
    assert(c * c >= 0) by (nonlinear_arith);
    assert(is_isqrt(abs_i(c), c * c)) by (nonlinear_arith);
    lemma_isqrt_exists(c * c);
    lemma_isqrt_unique(abs_i(c), isqrt(c * c), c * c);
    lemma_isqrt_ordered(c * c, n);
}

/// Bound the three scaled-down products that make up a dot product.
proof fn lemma_dot_terms_bounded(a: Vector3, b: Vector3)
    requires
        in_range(a, VEC_LIMIT as int),
        in_range(b, VEC_LIMIT as int),
    ensures
        -0x1000_0000_0000_0001 <= fx_mul(a.x.raw as int, b.x.raw as int) <= 0x1000_0000_0000_0000,
        -0x1000_0000_0000_0001 <= fx_mul(a.y.raw as int, b.y.raw as int) <= 0x1000_0000_0000_0000,
        -0x1000_0000_0000_0001 <= fx_mul(a.z.raw as int, b.z.raw as int) <= 0x1000_0000_0000_0000,
{
    lemma_fx_mul_bound(a.x.raw as int, b.x.raw as int, VEC_LIMIT as int, VEC_LIMIT as int);
    lemma_fx_mul_bound(a.y.raw as int, b.y.raw as int, VEC_LIMIT as int, VEC_LIMIT as int);
    lemma_fx_mul_bound(a.z.raw as int, b.z.raw as int, VEC_LIMIT as int, VEC_LIMIT as int);
}

impl Vector3 {
    /// The vector with the given components.
    pub fn new(x: Real, y: Real, z: Real) -> (r: Vector3)
        ensures
            r.x == x && r.y == y && r.z == z,
    {
        Vector3 { x, y, z }
    }

    /// The zero vector.
    pub fn default() -> (r: Vector3)
        ensures
            is_zero(r),
    {
        Vector3 { x: Real::zero(), y: Real::zero(), z: Real::zero() }
    }

    /// A vector whose components are uniform random draws from `[min, max]`.
    pub fn new_random(min: Real, max: Real) -> (r: Vector3)
        requires
            min.raw <= max.raw,
        ensures
            min.raw <= r.x.raw <= max.raw,
            min.raw <= r.y.raw <= max.raw,
            min.raw <= r.z.raw <= max.raw,
    {
        Vector3 {
            x: Real::from_raw(random_raw_in(min.raw, max.raw)),
            y: Real::from_raw(random_raw_in(min.raw, max.raw)),
            z: Real::from_raw(random_raw_in(min.raw, max.raw)),
        }
    }

    /// A random vector strictly inside the unit ball, by rejection sampling
    /// over `[-1, 1]^3`. The attempt count is bounded so the sampler always
    /// returns; after the last rejection it falls back to the ball's center.
    pub fn random_in_unit_sphere() -> (r: Vector3)
        ensures
            in_range(r, SCALE as int),
            dot_spec(r, r) < SCALE,
    {
        let one = Real::one();
        let minus_one = one.neg();
        let mut tries: u32 = 0;
        while tries < 64
            invariant
                one.raw == SCALE,
                minus_one.raw == -SCALE,
            decreases 64 - tries,
        {
            let candidate = Vector3::new_random(minus_one, one);
            let m2 = candidate.magnitude_squared();
            if m2.raw < SCALE {
                return candidate;
            }
            tries = tries + 1;
        }
        let center = Vector3::default();
        proof {
            lemma_dot_terms_bounded(center, center);
        }
        center
    }

    /// A random vector strictly inside the unit disk of the `z == 0` plane.
    pub fn random_in_unit_disk() -> (r: Vector3)
        ensures
            in_range(r, SCALE as int),
            dot_spec(r, r) < SCALE,
            r.z.raw == 0,
    {
        let one = Real::one();
        let minus_one = one.neg();
        let mut tries: u32 = 0;
        while tries < 64
            invariant
                one.raw == SCALE,
                minus_one.raw == -SCALE,
            decreases 64 - tries,
        {
            let candidate = Vector3 {
                x: Real::from_raw(random_raw_in(minus_one.raw, one.raw)),
                y: Real::from_raw(random_raw_in(minus_one.raw, one.raw)),
                z: Real::zero(),
            };
            let m2 = candidate.magnitude_squared();
            if m2.raw < SCALE {
                return candidate;
            }
            tries = tries + 1;
        }
        let center = Vector3::default();
        proof {
            lemma_dot_terms_bounded(center, center);
        }
        center
    }

    /// Component-wise sum.
    pub fn add(&self, other: &Vector3) -> (r: Vector3)
        requires
            in_range(*self, VEC_LIMIT as int),
            in_range(*other, VEC_LIMIT as int),
        ensures
            r.x.raw == self.x.raw + other.x.raw,
            r.y.raw == self.y.raw + other.y.raw,
            r.z.raw == self.z.raw + other.z.raw,
    {
        Vector3 {
            x: self.x.add(other.x),
            y: self.y.add(other.y),
            z: self.z.add(other.z),
        }
    }

    /// Component-wise difference.
    pub fn sub(&self, other: &Vector3) -> (r: Vector3)
        requires
            in_range(*self, VEC_LIMIT as int),
            in_range(*other, VEC_LIMIT as int),
        ensures
            r.x.raw == self.x.raw - other.x.raw,
            r.y.raw == self.y.raw - other.y.raw,
            r.z.raw == self.z.raw - other.z.raw,
    {
        Vector3 {
            x: self.x.sub(other.x),
            y: self.y.sub(other.y),
            z: self.z.sub(other.z),
        }
    }

    /// Component-wise negation.
    pub fn neg(&self) -> (r: Vector3)
        requires
            in_range(*self, VEC_LIMIT as int),
        ensures
            r.x.raw == -self.x.raw,
            r.y.raw == -self.y.raw,
            r.z.raw == -self.z.raw,
    {
        Vector3 { x: self.x.neg(), y: self.y.neg(), z: self.z.neg() }
    }

    /// Component-wise (Hadamard) product: how attenuation filters a color.
    pub fn mul(&self, other: &Vector3) -> (r: Vector3)
        requires
            in_range(*self, VEC_LIMIT as int),
            in_range(*other, VEC_LIMIT as int),
        ensures
            r.x.raw == fx_mul(self.x.raw as int, other.x.raw as int),
            r.y.raw == fx_mul(self.y.raw as int, other.y.raw as int),
            r.z.raw == fx_mul(self.z.raw as int, other.z.raw as int),
    {
        proof {
            lemma_dot_terms_bounded(*self, *other);
        }
        Vector3 {
            x: self.x.mul(other.x),
            y: self.y.mul(other.y),
            z: self.z.mul(other.z),
        }
    }

    /// Every component scaled by `s`.
    pub fn scale(&self, s: Real) -> (r: Vector3)
        requires
            in_range(*self, VEC_LIMIT as int),
            -VEC_LIMIT <= s.raw <= VEC_LIMIT,
        ensures
            r.x.raw == fx_mul(self.x.raw as int, s.raw as int),
            r.y.raw == fx_mul(self.y.raw as int, s.raw as int),
            r.z.raw == fx_mul(self.z.raw as int, s.raw as int),
    {
        proof {
            lemma_fx_mul_bound(self.x.raw as int, s.raw as int, VEC_LIMIT as int, VEC_LIMIT as int);
            lemma_fx_mul_bound(self.y.raw as int, s.raw as int, VEC_LIMIT as int, VEC_LIMIT as int);
            lemma_fx_mul_bound(self.z.raw as int, s.raw as int, VEC_LIMIT as int, VEC_LIMIT as int);
        }
        Vector3 { x: self.x.mul(s), y: self.y.mul(s), z: self.z.mul(s) }
    }

    /// Every component divided by the positive scalar `s`.
    pub fn div(&self, s: Real) -> (r: Vector3)
        requires
            in_range(*self, VEC_LIMIT as int),
            s.raw > 0,
        ensures
            r.x.raw == fx_div(self.x.raw as int, s.raw as int),
            r.y.raw == fx_div(self.y.raw as int, s.raw as int),
            r.z.raw == fx_div(self.z.raw as int, s.raw as int),
    {
        proof {
            crate::defs::lemma_fx_div_bound(self.x.raw as int, s.raw as int, VEC_LIMIT as int);
            crate::defs::lemma_fx_div_bound(self.y.raw as int, s.raw as int, VEC_LIMIT as int);
            crate::defs::lemma_fx_div_bound(self.z.raw as int, s.raw as int, VEC_LIMIT as int);
        }
        Vector3 { x: self.x.div(s), y: self.y.div(s), z: self.z.div(s) }
    }

    /// The fixed-point dot product.
    pub fn dot(&self, other: &Vector3) -> (r: Real)
        requires
            in_range(*self, VEC_LIMIT as int),
            in_range(*other, VEC_LIMIT as int),
        ensures
            r.raw == dot_spec(*self, *other),
    {
        proof {
            lemma_dot_terms_bounded(*self, *other);
        }
        let tx = self.x.mul(other.x);
        let ty = self.y.mul(other.y);
        let tz = self.z.mul(other.z);
        tx.add(ty).add(tz)
    }

    /// The squared length, as the dot product of the vector with itself.
    pub fn magnitude_squared(&self) -> (r: Real)
        requires
            in_range(*self, VEC_LIMIT as int),
        ensures
            r.raw == dot_spec(*self, *self),
            r.raw >= 0,
    {
        proof {
            let x = self.x.raw as int;
            let y = self.y.raw as int;
            let z = self.z.raw as int;
            assert(x * x >= 0 && y * y >= 0 && z * z >= 0) by (nonlinear_arith);
            vstd::arithmetic::div_mod::lemma_div_pos_is_pos(x * x, SCALE as int);
            vstd::arithmetic::div_mod::lemma_div_pos_is_pos(y * y, SCALE as int);
            vstd::arithmetic::div_mod::lemma_div_pos_is_pos(z * z, SCALE as int);
        }
        self.dot(self)
    }

    /// The length, as the integer square root of the exact sum of squared
    /// raw components: one rounding step instead of four.
    pub fn magnitude(&self) -> (r: Real)
        requires
            in_range(*self, VEC_LIMIT as int),
        ensures
            r.raw == mag_spec(*self),
            r.raw >= 0,
            is_isqrt(r.raw as int, norm2(*self)),
    {
        proof {
            let x = self.x.raw as int;
            let y = self.y.raw as int;
            let z = self.z.raw as int;
            assert(0 <= x * x <= 0x40_0000_0000 * 0x40_0000_0000 && 0 <= y * y <= 0x40_0000_0000
                * 0x40_0000_0000 && 0 <= z * z <= 0x40_0000_0000 * 0x40_0000_0000)
                by (nonlinear_arith)
                requires
                    -0x40_0000_0000 <= x <= 0x40_0000_0000,
                    -0x40_0000_0000 <= y <= 0x40_0000_0000,
                    -0x40_0000_0000 <= z <= 0x40_0000_0000,
            ;
        }
        let xx: i128 = (self.x.raw as i128) * (self.x.raw as i128);
        let yy: i128 = (self.y.raw as i128) * (self.y.raw as i128);
        let zz: i128 = (self.z.raw as i128) * (self.z.raw as i128);
        let sum: i128 = xx + yy + zz;
        let root = isqrt_u128(sum as u128);
        proof {
            let ri = isqrt(norm2(*self));
            assert(ri * ri <= norm2(*self));
            assert(ri <= 0x200_0000_0000) by (nonlinear_arith)
                requires
                    0 <= ri,
                    ri * ri <= 3 * (0x40_0000_0000 * 0x40_0000_0000),
            ;
        }
        Real { raw: root as i64 }
    }

    /// The unit-length vector pointing the same way: each component is the
    /// scaled component divided by the length. Every result component lies
    /// in `[-1, 1]`, the result is never the zero vector, and for inputs of
    /// length at least one the result's length is one to within four
    /// fixed-point units.
    pub fn as_normal(&self) -> (r: Vector3)
        requires
            in_range(*self, VEC_LIMIT as int),
            !is_zero(*self),
        ensures
            r == unit_of(*self),
            r.x.raw == fx_div(self.x.raw as int, mag_spec(*self)),
            r.y.raw == fx_div(self.y.raw as int, mag_spec(*self)),
            r.z.raw == fx_div(self.z.raw as int, mag_spec(*self)),
            in_range(r, SCALE as int),
            !is_zero(r),
            mag_spec(*self) >= SCALE ==> SCALE - 4 <= mag_spec(r) <= SCALE + 4,
    {
        let m = self.magnitude();
        proof {
            lemma_mag_dominates(*self);
            if mag_spec(*self) >= SCALE {
                lemma_unit_magnitude(*self);
            }
        }
        let nx = normal_component(self.x, m);
        let ny = normal_component(self.y, m);
        let nz = normal_component(self.z, m);
        proof {
            lemma_normal_nonzero(*self, mag_spec(*self));
        }
        Vector3 { x: nx, y: ny, z: nz }
    }

    /// The near-zero tolerance is smaller than one fixed-point unit, so a
    /// vector counts as near zero exactly when it is the zero vector.
    pub fn is_near_zero(&self) -> (r: bool)
        ensures
            r == is_zero(*self),
    {
        self.x.raw == 0 && self.y.raw == 0 && self.z.raw == 0
    }

    /// Mirror reflection: `v - around * 2 * dot(v, around)`.
    pub fn reflect(&self, around: &Vector3) -> (r: Vector3)
        requires
            in_range(*self, 0x10_0000),
            in_range(*around, 0x10_0000),
        ensures
            r == reflect_of(*self, *around),
            in_range(r, 0x3_0000_0000),
    {
        proof {
            lemma_reflect_bounds(*self, *around);
        }
        let two = Real::from_raw(2 * SCALE);
        let d = self.dot(around);
        let scaled = around.scale(two).scale(d);
        self.sub(&scaled)
    }

    /// Snell refraction of `self` (a unit-length direction) at a surface
    /// with unit normal `n` and index ratio `ratio`: the perpendicular
    /// component is `(v + n * cos) * ratio` with `cos = min(-dot(v, n), 1)`,
    /// and the parallel component's squared length is clamped at zero
    /// before its square root is taken.
    pub fn refract(&self, n: &Vector3, ratio: Real) -> (r: Vector3)
        requires
            in_range(*self, 2 * SCALE as int),
            in_range(*n, SCALE as int),
            0 < ratio.raw <= 0x10_0000,
        ensures
            r == refract_of(*self, *n, ratio.raw as int),
            in_range(r, 0x200_0000),
    {
        let one = Real::one();
        let d = self.dot(n);
        proof {
            lemma_fx_mul_bound(self.x.raw as int, n.x.raw as int, 2 * SCALE as int, SCALE as int);
            lemma_fx_mul_bound(self.y.raw as int, n.y.raw as int, 2 * SCALE as int, SCALE as int);
            lemma_fx_mul_bound(self.z.raw as int, n.z.raw as int, 2 * SCALE as int, SCALE as int);
        }
        let cos = d.neg().min(one);
        proof {
            lemma_fx_mul_bound(n.x.raw as int, cos.raw as int, SCALE as int, 0x6_0004);
            lemma_fx_mul_bound(n.y.raw as int, cos.raw as int, SCALE as int, 0x6_0004);
            lemma_fx_mul_bound(n.z.raw as int, cos.raw as int, SCALE as int, 0x6_0004);
        }
        let scaled_n = n.scale(cos);
        let base = self.add(&scaled_n);
        proof {
            lemma_fx_mul_bound(base.x.raw as int, ratio.raw as int, 0x8_0005, 0x10_0000);
            lemma_fx_mul_bound(base.y.raw as int, ratio.raw as int, 0x8_0005, 0x10_0000);
            lemma_fx_mul_bound(base.z.raw as int, ratio.raw as int, 0x8_0005, 0x10_0000);
        }
        let perp = base.scale(ratio);
        let plen2 = perp.magnitude_squared();
        proof {
            lemma_dot_terms_bounded(perp, perp);
        }
        let k2 = one.sub(plen2).max(Real::zero());
        let k = k2.sqrt();
        proof {
            let k2i = k2.raw as int;
            let ki = k.raw as int;
            assert(k2i * SCALE <= SCALE * (SCALE as int)) by (nonlinear_arith)
                requires
                    0 <= k2i <= SCALE,
            ;
            assert(ki <= SCALE) by (nonlinear_arith)
                requires
                    0 <= ki,
                    ki * ki <= SCALE * (SCALE as int),
            ;
            lemma_fx_mul_bound(n.x.raw as int, ki, SCALE as int, SCALE as int);
            lemma_fx_mul_bound(n.y.raw as int, ki, SCALE as int, SCALE as int);
            lemma_fx_mul_bound(n.z.raw as int, ki, SCALE as int, SCALE as int);
        }
        let par = n.scale(k);
        perp.sub(&par)
    }

    /// The cross product, with each product scaled back down.
    pub fn cross(&self, other: &Vector3) -> (r: Vector3)
        requires
            in_range(*self, VEC_LIMIT as int),
            in_range(*other, VEC_LIMIT as int),
        ensures
            r.x.raw == fx_mul(self.y.raw as int, other.z.raw as int) - fx_mul(
                self.z.raw as int,
                other.y.raw as int,
            ),
            r.y.raw == fx_mul(self.z.raw as int, other.x.raw as int) - fx_mul(
                self.x.raw as int,
                other.z.raw as int,
            ),
            r.z.raw == fx_mul(self.x.raw as int, other.y.raw as int) - fx_mul(
                self.y.raw as int,
                other.x.raw as int,
            ),
    {
        proof {
            lemma_fx_mul_bound(self.y.raw as int, other.z.raw as int, VEC_LIMIT as int, VEC_LIMIT as int);
            lemma_fx_mul_bound(self.z.raw as int, other.y.raw as int, VEC_LIMIT as int, VEC_LIMIT as int);
            lemma_fx_mul_bound(self.z.raw as int, other.x.raw as int, VEC_LIMIT as int, VEC_LIMIT as int);
            lemma_fx_mul_bound(self.x.raw as int, other.z.raw as int, VEC_LIMIT as int, VEC_LIMIT as int);
            lemma_fx_mul_bound(self.x.raw as int, other.y.raw as int, VEC_LIMIT as int, VEC_LIMIT as int);
            lemma_fx_mul_bound(self.y.raw as int, other.x.raw as int, VEC_LIMIT as int, VEC_LIMIT as int);
        }
        Vector3 {
            x: self.y.mul(other.z).sub(self.z.mul(other.y)),
            y: self.z.mul(other.x).sub(self.x.mul(other.z)),
            z: self.x.mul(other.y).sub(self.y.mul(other.x)),
        }
    }
}

/// One normalized component: the scaled raw value divided by the length.
fn normal_component(c: Real, m: Real) -> (r: Real)
    requires
        m.raw >= 1,
        m.raw >= abs_i(c.raw as int),
        -VEC_LIMIT <= c.raw <= VEC_LIMIT,
    ensures
        r.raw == fx_div(c.raw as int, m.raw as int),
        -SCALE <= r.raw <= SCALE,
{
    proof {
        let ci = c.raw as int;
        let mi = m.raw as int;
        assert(ci * SCALE <= mi * SCALE && -(mi * SCALE) <= ci * SCALE) by (nonlinear_arith)
            requires
                -mi <= ci <= mi,
                0 < mi,
        ;
        lemma_div_is_ordered(ci * SCALE, mi * SCALE, mi);
        lemma_div_is_ordered(-(mi * SCALE), ci * SCALE, mi);
        assert(mi * SCALE == mi * (SCALE as int));
        lemma_div_multiples_vanish(SCALE as int, mi);
        lemma_div_multiples_vanish(-(SCALE as int), mi);
        assert(-(mi * SCALE) == mi * (-(SCALE as int))) by (nonlinear_arith);
    }
    let q = div_floor((c.raw as i128) * (SCALE as i128), m.raw as i128);
    Real { raw: q as i64 }
}

/// Normalization never yields the zero vector: the largest component of the
/// input is at least half the length, so its normalized image is at least
/// half of one.
proof fn lemma_normal_nonzero(v: Vector3, m: int)
    requires
        m == mag_spec(v),
        !is_zero(v),
        is_isqrt(m, norm2(v)),
        m >= 1,
    ensures
        !(fx_div(v.x.raw as int, m) == 0 && fx_div(v.y.raw as int, m) == 0 && fx_div(
            v.z.raw as int,
            m,
        ) == 0),
{
    let x = v.x.raw as int;
    let y = v.y.raw as int;
    let z = v.z.raw as int;
    let mx = if abs_i(x) >= abs_i(y) && abs_i(x) >= abs_i(z) {
        abs_i(x)
    } else if abs_i(y) >= abs_i(z) {
        abs_i(y)
    } else {
        abs_i(z)
    };
    assert(norm2(v) <= 3 * (mx * mx)) by (nonlinear_arith)
        requires
            abs_i(x) <= mx && abs_i(y) <= mx && abs_i(z) <= mx,
            norm2(v) == x * x + y * y + z * z,
    ;
    assert(mx >= 1);
    assert(m <= 2 * mx) by (nonlinear_arith)
        requires
            m * m <= norm2(v),
            norm2(v) <= 3 * (mx * mx),
            m >= 0,
            mx >= 1,
    ;
    // The largest component, scaled, clears the length.
    assert(mx * SCALE >= 2 * m) by (nonlinear_arith)
        requires
            m <= 2 * mx,
            mx >= 1,
    ;
    if abs_i(x) == mx || abs_i(y) == mx || abs_i(z) == mx {
        let c: int = if abs_i(x) == mx {
            x
        } else if abs_i(y) == mx {
            y
        } else {
            z
        };
        lemma_big_component_survives(c, m);
    }
}

/// A component whose scaled magnitude reaches the divisor does not divide
/// away to zero.
proof fn lemma_big_component_survives(c: int, m: int)
    requires
        m >= 1,
        abs_i(c) * SCALE >= 2 * m,
    ensures
        fx_div(c, m) != 0,
{
    if c >= 0 {
        assert(c * SCALE >= m) by (nonlinear_arith)
            requires
                abs_i(c) * SCALE >= 2 * m,
                c >= 0,
                m >= 1,
        ;
        lemma_div_is_ordered(m, c * SCALE, m);
        lemma_div_multiples_vanish(1, m);
        assert(m * 1 == m) by (nonlinear_arith);
    } else {
        assert(c * SCALE <= -m) by (nonlinear_arith)
            requires
                abs_i(c) * SCALE >= 2 * m,
                c < 0,
                m >= 1,
        ;
        lemma_div_is_ordered(c * SCALE, -m, m);
        lemma_div_multiples_vanish(-1, m);
        assert(m * -1 == -m) by (nonlinear_arith);
    }
}

/// Bound the intermediate values of a reflection of small vectors: the dot
/// product, the doubled mirror axis, and the subtracted correction.
proof fn lemma_reflect_bounds(v: Vector3, around: Vector3)
    requires
        in_range(v, 0x10_0000),
        in_range(around, 0x10_0000),
    ensures
        -0x300_0003 <= dot_spec(v, around) <= 0x300_0000,
        -0x20_0001 <= fx_mul(around.x.raw as int, 2 * SCALE) <= 0x20_0000,
        -0x20_0001 <= fx_mul(around.y.raw as int, 2 * SCALE) <= 0x20_0000,
        -0x20_0001 <= fx_mul(around.z.raw as int, 2 * SCALE) <= 0x20_0000,
        -0x2_0000_0000 <= fx_mul(fx_mul(around.x.raw as int, 2 * SCALE), dot_spec(v, around))
            <= 0x2_0000_0000,
        -0x2_0000_0000 <= fx_mul(fx_mul(around.y.raw as int, 2 * SCALE), dot_spec(v, around))
            <= 0x2_0000_0000,
        -0x2_0000_0000 <= fx_mul(fx_mul(around.z.raw as int, 2 * SCALE), dot_spec(v, around))
            <= 0x2_0000_0000,
        in_range(v, VEC_LIMIT as int),
        in_range(around, VEC_LIMIT as int),
{
    lemma_fx_mul_bound(v.x.raw as int, around.x.raw as int, 0x10_0000, 0x10_0000);
    lemma_fx_mul_bound(v.y.raw as int, around.y.raw as int, 0x10_0000, 0x10_0000);
    lemma_fx_mul_bound(v.z.raw as int, around.z.raw as int, 0x10_0000, 0x10_0000);
    lemma_fx_mul_bound(around.x.raw as int, 2 * SCALE, 0x10_0000, 2 * SCALE);
    lemma_fx_mul_bound(around.y.raw as int, 2 * SCALE, 0x10_0000, 2 * SCALE);
    lemma_fx_mul_bound(around.z.raw as int, 2 * SCALE, 0x10_0000, 2 * SCALE);
    let d = dot_spec(v, around);
    lemma_fx_mul_bound(fx_mul(around.x.raw as int, 2 * SCALE), d, 0x20_0001, 0x300_0003);
    lemma_fx_mul_bound(fx_mul(around.y.raw as int, 2 * SCALE), d, 0x20_0001, 0x300_0003);
    lemma_fx_mul_bound(fx_mul(around.z.raw as int, 2 * SCALE), d, 0x20_0001, 0x300_0003);
}

/// The normalized image of a nonzero vector has components in `[-1, 1]`.
pub proof fn lemma_unit_of_bounds(v: Vector3)
    requires
        !is_zero(v),
    ensures
        in_range(unit_of(v), SCALE as int),
        mag_spec(v) >= 1,
{
    lemma_mag_dominates(v);
    let m = mag_spec(v);
    crate::defs::lemma_fx_div_unit(v.x.raw as int, m);
    crate::defs::lemma_fx_div_unit(v.y.raw as int, m);
    crate::defs::lemma_fx_div_unit(v.z.raw as int, m);
}

/// One normalized component, scaled back up by the length, reproduces the
/// scaled input component to within one length unit; squared, it sits
/// between `a^2 - 2*m*a` and `(a + m)^2` for `a` the scaled magnitude.
proof fn lemma_unit_component_sq(vc: int, m: int)
    requires
        m >= 1,
        -m <= vc <= m,
    ensures
        ({
            let n = fx_div(vc, m);
            let a = abs_i(vc) * SCALE;
            &&& (m * n) * (m * n) <= (a + m) * (a + m)
            &&& (m * n) * (m * n) >= a * a - 2 * m * a
        }),
{
    lemma_fundamental_div_mod(vc * SCALE, m);
    lemma_mod_bound(vc * SCALE, m);
    let n = fx_div(vc, m);
    let r = (vc * SCALE) % m;
    let a = abs_i(vc) * SCALE;
    assert(vc * SCALE == m * n + r);
    if vc >= 0 {
        assert(a == vc * SCALE);
        assert(a - m < m * n <= a);
        assert((m * n) * (m * n) <= (a + m) * (a + m)) by (nonlinear_arith)
            requires
                -(a + m) <= m * n <= a + m,
        ;
        if a >= m {
            assert((m * n) * (m * n) >= (a - m) * (a - m)) by (nonlinear_arith)
                requires
                    0 <= a - m < m * n || (0 <= a - m && a - m <= m * n),
            ;
            assert((a - m) * (a - m) >= a * a - 2 * m * a) by (nonlinear_arith);
        } else {
            assert(a * a - 2 * m * a <= 0) by (nonlinear_arith)
                requires
                    0 <= a < m,
            ;
            assert((m * n) * (m * n) >= 0) by (nonlinear_arith);
        }
    } else {
        assert(a == -(vc * SCALE));
        assert(-a - m < m * n <= -a);
        assert((m * n) * (m * n) <= (a + m) * (a + m)) by (nonlinear_arith)
            requires
                -(a + m) <= m * n <= a + m,
        ;
        assert((m * n) * (m * n) >= a * a) by (nonlinear_arith)
            requires
                m * n <= -a,
                0 <= a,
        ;
        assert(a * a >= a * a - 2 * m * a) by (nonlinear_arith)
            requires
                m >= 1,
                a >= 0,
        ;
    }
}

/// Normalizing a vector of length at least one yields a vector whose
/// length is one to within four fixed-point units.
#[verifier::rlimit(100)]
pub proof fn lemma_unit_magnitude(v: Vector3)
    requires
        mag_spec(v) >= SCALE,
    ensures
        SCALE - 4 <= mag_spec(unit_of(v)) <= SCALE + 4,
{
    lemma_mag_dominates(v);
    let m = mag_spec(v);
    let x = v.x.raw as int;
    let y = v.y.raw as int;
    let z = v.z.raw as int;
    lemma_unit_component_sq(x, m);
    lemma_unit_component_sq(y, m);
    lemma_unit_component_sq(z, m);
    crate::defs::lemma_fx_div_unit(x, m);
    crate::defs::lemma_fx_div_unit(y, m);
    crate::defs::lemma_fx_div_unit(z, m);
    let nx = fx_div(x, m);
    let ny = fx_div(y, m);
    let nz = fx_div(z, m);
    assert(unit_of(v).x.raw == nx);
    assert(unit_of(v).y.raw == ny);
    assert(unit_of(v).z.raw == nz);
    let nn = norm2(unit_of(v));
    assert(nn == nx * nx + ny * ny + nz * nz);
    let ax = abs_i(x) * SCALE;
    let ay = abs_i(y) * SCALE;
    let az = abs_i(z) * SCALE;
    let ss = (SCALE as int) * SCALE;
    assert((m * nx) * (m * nx) == m * m * (nx * nx)) by (nonlinear_arith);
    assert((m * ny) * (m * ny) == m * m * (ny * ny)) by (nonlinear_arith);
    assert((m * nz) * (m * nz) == m * m * (nz * nz)) by (nonlinear_arith);
    assert(m * m * nn == m * m * (nx * nx) + m * m * (ny * ny) + m * m * (nz * nz))
        by (nonlinear_arith)
        requires
            nn == nx * nx + ny * ny + nz * nz,
    ;
    assert(abs_i(x) * abs_i(x) == x * x && abs_i(y) * abs_i(y) == y * y && abs_i(z) * abs_i(z) == z
        * z) by (nonlinear_arith);
    assert(ax * ax + ay * ay + az * az == ss * norm2(v)) by (nonlinear_arith)
        requires
            ax == abs_i(x) * SCALE,
            ay == abs_i(y) * SCALE,
            az == abs_i(z) * SCALE,
            ss == (SCALE as int) * SCALE,
            abs_i(x) * abs_i(x) == x * x,
            abs_i(y) * abs_i(y) == y * y,
            abs_i(z) * abs_i(z) == z * z,
            norm2(v) == x * x + y * y + z * z,
    ;
    assert(ax <= m * SCALE && ay <= m * SCALE && az <= m * SCALE && 0 <= ax && 0 <= ay && 0 <= az)
        by (nonlinear_arith)
        requires
            abs_i(x) <= m,
            abs_i(y) <= m,
            abs_i(z) <= m,
            0 <= abs_i(x) && 0 <= abs_i(y) && 0 <= abs_i(z),
            ax == abs_i(x) * SCALE,
            ay == abs_i(y) * SCALE,
            az == abs_i(z) * SCALE,
    ;
    assert(m * m <= norm2(v) <= m * m + 2 * m) by (nonlinear_arith)
        requires
            is_isqrt(m, norm2(v)),
            m >= 1,
    ;
    assert(2 * m * (ax + ay + az) <= 6 * (m * m * SCALE)) by (nonlinear_arith)
        requires
            0 <= ax <= m * SCALE,
            0 <= ay <= m * SCALE,
            0 <= az <= m * SCALE,
            m >= 1,
    ;
    // Upper bound: each squared scaled component is at most (a + m)^2.
    assert((ax + m) * (ax + m) + (ay + m) * (ay + m) + (az + m) * (az + m) == (ax * ax + ay * ay
        + az * az) + 2 * m * (ax + ay + az) + 3 * (m * m)) by (nonlinear_arith);
    assert(m * m * nn <= (ax + m) * (ax + m) + (ay + m) * (ay + m) + (az + m) * (az + m));
    assert(m * m * nn <= ss * norm2(v) + 2 * m * (ax + ay + az) + 3 * (m * m));
    assert(ss * norm2(v) <= ss * (m * m) + 2 * SCALE * (m * m)) by (nonlinear_arith)
        requires
            norm2(v) <= m * m + 2 * m,
            m >= SCALE,
            ss == (SCALE as int) * SCALE,
    ;
    assert(m * m * nn <= ss * (m * m) + 2 * SCALE * (m * m) + 6 * (m * m * SCALE) + 3 * (m * m));
    assert(m * m * nn <= (m * m) * (ss + 8 * SCALE + 3)) by (nonlinear_arith)
        requires
            m * m * nn <= ss * (m * m) + 2 * SCALE * (m * m) + 6 * (m * m * SCALE) + 3 * (m * m),
    ;
    assert(nn <= ss + 8 * SCALE + 3) by (nonlinear_arith)
        requires
            m * m * nn <= (m * m) * (ss + 8 * SCALE + 3),
            m >= 1,
    ;
    // Lower bound: each squared scaled component is at least a^2 - 2*m*a.
    assert((ax * ax - 2 * m * ax) + (ay * ay - 2 * m * ay) + (az * az - 2 * m * az) == (ax * ax + ay
        * ay + az * az) - 2 * m * (ax + ay + az)) by (nonlinear_arith);
    assert(m * m * nn >= (ax * ax + ay * ay + az * az) - 2 * m * (ax + ay + az));
    assert(m * m * nn >= ss * norm2(v) - 6 * (m * m * SCALE));
    assert(ss * norm2(v) >= ss * (m * m)) by (nonlinear_arith)
        requires
            norm2(v) >= m * m,
            ss > 0,
    ;
    assert(m * m * nn >= (m * m) * (ss - 6 * SCALE)) by (nonlinear_arith)
        requires
            m * m * nn >= ss * (m * m) - 6 * (m * m * SCALE),
    ;
    assert(nn >= ss - 6 * SCALE) by (nonlinear_arith)
        requires
            m * m * nn >= (m * m) * (ss - 6 * SCALE),
            m >= 1,
    ;
    // Read the two bounds back through the square root.
    lemma_isqrt_exists(nn);
    let q = isqrt(nn);
    assert(q <= SCALE + 4) by (nonlinear_arith)
        requires
            0 <= q,
            q * q <= nn,
            nn <= (SCALE as int) * SCALE + 8 * SCALE + 3,
    ;
    assert(q >= SCALE - 4) by (nonlinear_arith)
        requires
            nn < (q + 1) * (q + 1),
            nn >= (SCALE as int) * SCALE - 6 * SCALE,
            q >= 0,
    ;
}

/// Dividing by a scalar of at least one shrinks a component's magnitude.
pub proof fn lemma_fx_div_shrinks(a: int, s: int)
    requires
        s >= SCALE,
    ensures
        -abs_i(a) <= fx_div(a, s) <= abs_i(a),
{
    assert(a * SCALE <= abs_i(a) * s && -(abs_i(a) * s) <= a * SCALE) by (nonlinear_arith)
        requires
            s >= SCALE,
            SCALE >= 1,
    ;
    lemma_div_is_ordered(a * SCALE, abs_i(a) * s, s);
    lemma_div_is_ordered(-(abs_i(a) * s), a * SCALE, s);
    lemma_div_multiples_vanish(abs_i(a), s);
    lemma_div_multiples_vanish(-abs_i(a), s);
    assert(abs_i(a) * s == s * abs_i(a)) by (nonlinear_arith);
    assert(-(abs_i(a) * s) == s * (-abs_i(a))) by (nonlinear_arith);
}

/// The reflection of a unit-range vector around a unit-range axis stays
/// within a few units of zero.
pub proof fn lemma_reflect_of_unit_bounds(v: Vector3, around: Vector3)
    requires
        in_range(v, SCALE as int),
        in_range(around, SCALE as int),
    ensures
        in_range(reflect_of(v, around), 0x8_0000),
        -3 * SCALE - 3 <= dot_spec(v, around) <= 3 * SCALE,
{
    lemma_fx_mul_bound(v.x.raw as int, around.x.raw as int, SCALE as int, SCALE as int);
    lemma_fx_mul_bound(v.y.raw as int, around.y.raw as int, SCALE as int, SCALE as int);
    lemma_fx_mul_bound(v.z.raw as int, around.z.raw as int, SCALE as int, SCALE as int);
    let d = dot_spec(v, around);
    lemma_fx_mul_bound(around.x.raw as int, 2 * SCALE, SCALE as int, 2 * SCALE);
    lemma_fx_mul_bound(around.y.raw as int, 2 * SCALE, SCALE as int, 2 * SCALE);
    lemma_fx_mul_bound(around.z.raw as int, 2 * SCALE, SCALE as int, 2 * SCALE);
    lemma_fx_mul_bound(fx_mul(around.x.raw as int, 2 * SCALE), d, 2 * SCALE + 1, 3 * SCALE + 3);
    lemma_fx_mul_bound(fx_mul(around.y.raw as int, 2 * SCALE), d, 2 * SCALE + 1, 3 * SCALE + 3);
    lemma_fx_mul_bound(fx_mul(around.z.raw as int, 2 * SCALE), d, 2 * SCALE + 1, 3 * SCALE + 3);
}

/// A half-line: all points `origin + t * direction` for `t >= 0`; negative
/// `t` is representable and callers filter it.
#[derive(Clone, Copy, Debug, PartialEq, Eq, Structural)]
pub struct Ray {
    pub origin: Point3,
    pub direction: Vector3,
}

impl Ray {
    /// The ray with the given origin and direction.
    pub fn new(origin: Point3, direction: Vector3) -> (r: Ray)
        ensures
            r.origin == origin && r.direction == direction,
    {
        Ray { origin, direction }
    }

    /// The point a parameter distance `t` along the ray.
    pub fn at(&self, t: Real) -> (r: Point3)
        requires
            in_range(self.origin, VEC_LIMIT as int),
            in_range(self.direction, VEC_LIMIT as int),
            -VEC_LIMIT <= t.raw <= VEC_LIMIT,
        ensures
            r.x.raw == self.origin.x.raw + fx_mul(self.direction.x.raw as int, t.raw as int),
            r.y.raw == self.origin.y.raw + fx_mul(self.direction.y.raw as int, t.raw as int),
            r.z.raw == self.origin.z.raw + fx_mul(self.direction.z.raw as int, t.raw as int),
    {
        proof {
            lemma_fx_mul_bound(self.direction.x.raw as int, t.raw as int, VEC_LIMIT as int, VEC_LIMIT as int);
            lemma_fx_mul_bound(self.direction.y.raw as int, t.raw as int, VEC_LIMIT as int, VEC_LIMIT as int);
            lemma_fx_mul_bound(self.direction.z.raw as int, t.raw as int, VEC_LIMIT as int, VEC_LIMIT as int);
        }
        let step = self.direction.scale(t);
        Vector3 {
            x: self.origin.x.add(step.x),
            y: self.origin.y.add(step.y),
            z: self.origin.z.add(step.z),
        }
    }

    /// The ray resting at the origin.
    pub fn default() -> (r: Ray)
        ensures
            is_zero(r.origin) && is_zero(r.direction),
    {
        Ray { origin: Vector3::default(), direction: Vector3::default() }
    }
}

} // verus!
