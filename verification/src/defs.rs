//! The scalar number type of the renderer.
//!
//! All geometry and color arithmetic runs over `Real`, a fixed-point number:
//! an `i64` count of `1 / SCALE` units. Multiplication and division round
//! toward negative infinity (Euclidean division by the positive `SCALE`), so
//! every operation has an exact integer meaning that the contracts state.

use vstd::arithmetic::div_mod::{
    lemma_fundamental_div_mod, lemma_fundamental_div_mod_converse_div, lemma_mod_bound,
};
use vstd::prelude::*;

verus! {

/// Number of fixed-point units per 1.0.
pub const SCALE: i64 = 65536;

/// The quotient of a product, scaled back down: the meaning of `Real` multiplication.
pub open spec fn fx_mul(a: int, b: int) -> int {
    (a * b) / (SCALE as int)
}

/// The quotient of a scaled-up dividend: the meaning of `Real` division.
pub open spec fn fx_div(a: int, b: int) -> int {
    (a * SCALE) / b
}

/// `r` is the integer square root of `n`.
pub open spec fn is_isqrt(r: int, n: int) -> bool {
    0 <= r && r * r <= n && n < (r + 1) * (r + 1)
}

/// The integer square root: the largest `r` with `r * r <= n`.
pub open spec fn isqrt(n: int) -> int {
    choose|r: int| is_isqrt(r, n)
}

/// The integer square root exists for every nonnegative argument.
pub proof fn lemma_isqrt_exists(n: int)
    requires
        n >= 0,
    ensures
        is_isqrt(isqrt(n), n),
    decreases n,
{
    if n == 0 {
        assert(is_isqrt(0, 0));
    } else {
        lemma_isqrt_exists(n - 1);
        let r = isqrt(n - 1);
        if n < (r + 1) * (r + 1) {
            assert(is_isqrt(r, n));
        } else {
            assert(n == (r + 1) * (r + 1));
            assert((r + 2) * (r + 2) == (r + 1) * (r + 1) + 2 * r + 3) by (nonlinear_arith);
            assert(is_isqrt(r + 1, n));
        }
    }
}

/// Two integer square roots of the same number are equal.
pub proof fn lemma_isqrt_unique(r1: int, r2: int, n: int)
    requires
        is_isqrt(r1, n),
        is_isqrt(r2, n),
    ensures
        r1 == r2,
{
    if r1 < r2 {
        assert((r1 + 1) * (r1 + 1) <= r2 * r2) by (nonlinear_arith)
            requires
                0 <= r1 + 1 <= r2,
        ;
    }
    if r2 < r1 {
        assert((r2 + 1) * (r2 + 1) <= r1 * r1) by (nonlinear_arith)
            requires
                0 <= r2 + 1 <= r1,
        ;
    }
}

/// The integer square root is monotone.
pub proof fn lemma_isqrt_ordered(a: int, b: int)
    requires
        0 <= a <= b,
    ensures
        isqrt(a) <= isqrt(b),
{
    lemma_isqrt_exists(a);
    lemma_isqrt_exists(b);
    let ra = isqrt(a);
    let rb = isqrt(b);
    if rb < ra {
        assert((rb + 1) * (rb + 1) <= ra * ra) by (nonlinear_arith)
            requires
                0 <= rb + 1 <= ra,
        ;
    }
}

/// Integer square root by bisection.
pub fn isqrt_u128(n: u128) -> (r: u64)
    requires
        n < 0x4000_0000_0000_0000_0000_0000_0000_0000u128,
    ensures
        r as int == isqrt(n as int),
        is_isqrt(r as int, n as int),
{
    proof {
        lemma_isqrt_exists(n as int);
    }
    let mut lo: u128 = 0;
    let mut hi: u128 = 0x8000_0000_0000_0000u128;
    proof {
        assert((0x8000_0000_0000_0000u128 as int) * (0x8000_0000_0000_0000u128 as int)
            == 0x4000_0000_0000_0000_0000_0000_0000_0000u128 as int) by (nonlinear_arith);
    }
    while hi - lo > 1
        invariant
            0 <= lo < hi <= 0x8000_0000_0000_0000u128,
            lo * lo <= n,
            (n as int) < (hi as int) * (hi as int),
        decreases hi - lo,
    {
        let mid: u128 = lo + (hi - lo) / 2;
        proof {
            assert((mid as int) * (mid as int)
                <= (0x8000_0000_0000_0000u128 as int) * (0x8000_0000_0000_0000u128 as int))
                by (nonlinear_arith)
                requires
                    0 <= mid <= 0x8000_0000_0000_0000u128,
            ;
            assert((0x8000_0000_0000_0000u128 as int) * (0x8000_0000_0000_0000u128 as int)
                < u128::MAX as int) by (nonlinear_arith);
        }
        if mid * mid <= n {
            lo = mid;
        } else {
            hi = mid;
        }
    }
    proof {
        assert(hi == lo + 1);
        assert(is_isqrt(lo as int, n as int));
        lemma_isqrt_unique(lo as int, isqrt(n as int), n as int);
    }
    lo as u64
}

/// Division rounding toward negative infinity, matching the spec-level `/`
/// on `int` for a positive divisor.
pub fn div_floor(a: i128, b: i128) -> (q: i128)
    requires
        0 < b <= 0x4000_0000_0000_0000_0000_0000_0000_0000i128,
        -(0x4000_0000_0000_0000_0000_0000_0000_0000i128) <= a
            <= 0x4000_0000_0000_0000_0000_0000_0000_0000i128 - 1,
    ensures
        q == (a as int) / (b as int),
{
    if a >= 0 {
        a / b
    } else {
        let n = -a;
        let q0 = (n + (b - 1)) / b;
        proof {
            lemma_fundamental_div_mod(a as int, b as int);
            lemma_mod_bound(a as int, b as int);
            let qe = (a as int) / (b as int);
            let re = (a as int) % (b as int);
            assert(n + (b - 1) == (-qe) * (b as int) + ((b as int) - 1 - re)) by {
                assert(a as int == (b as int) * qe + re);
                assert((-qe) * (b as int) == -((b as int) * qe)) by (nonlinear_arith);
            }
            lemma_fundamental_div_mod_converse_div(
                (n + (b - 1)) as int,
                b as int,
                -qe,
                (b as int) - 1 - re,
            );
        }
        -q0
    }
}

/// Quotients of nonpositive numbers stay at or above the dividend.
pub proof fn lemma_div_ge_self_neg(x: int, b: int)
    requires
        x <= 0,
        b >= 1,
    ensures
        x <= x / b,
{
    lemma_fundamental_div_mod(x, b);
    lemma_mod_bound(x, b);
    let q = x / b;
    let r = x % b;
    if q + 1 <= x {
        assert(false) by (nonlinear_arith)
            requires
                x == b * q + r,
                0 <= r < b,
                b >= 1,
                q + 1 <= x <= 0,
        ;
    }
}

/// A quotient by a positive divisor keeps the dividend's magnitude bound.
pub proof fn lemma_div_abs_bound(x: int, m: int, b: int)
    requires
        -m <= x <= m,
        0 <= m,
        b >= 1,
    ensures
        -m <= x / b <= m,
{
    if x >= 0 {
        vstd::arithmetic::div_mod::lemma_div_nonincreasing(x, b);
        vstd::arithmetic::div_mod::lemma_div_pos_is_pos(x, b);
    } else {
        lemma_div_ge_self_neg(x, b);
        vstd::arithmetic::div_mod::lemma_div_is_ordered(x, 0, b);
        vstd::arithmetic::div_mod::lemma_div_of0(b);
    }
}

/// Negating the dividend lowers the quotient by at most one.
pub proof fn lemma_div_neg_dividend(x: int, d: int)
    requires
        x >= 0,
        d >= 1,
    ensures
        (-x) / d >= -(x / d) - 1,
{
    lemma_fundamental_div_mod(-x, d);
    lemma_mod_bound(-x, d);
    let qn = (-x) / d;
    let rn = (-x) % d;
    if rn == 0 {
        assert(x == (-qn) * d + 0) by (nonlinear_arith)
            requires
                -x == d * qn + 0,
        ;
        lemma_fundamental_div_mod_converse_div(x, d, -qn, 0);
    } else {
        assert(x == (-qn - 1) * d + (d - rn)) by (nonlinear_arith)
            requires
                -x == d * qn + rn,
        ;
        lemma_fundamental_div_mod_converse_div(x, d, -qn - 1, d - rn);
    }
}

/// The fixed-point product of bounded factors is bounded.
pub proof fn lemma_fx_mul_bound(a: int, b: int, ma: int, mb: int)
    requires
        -ma <= a <= ma,
        -mb <= b <= mb,
        0 <= ma,
        0 <= mb,
    ensures
        -(ma * mb) <= a * b <= ma * mb,
        -((ma * mb) / (SCALE as int)) - 1 <= fx_mul(a, b) <= (ma * mb) / (SCALE as int),
{
    assert(-(ma * mb) <= a * b <= ma * mb) by (nonlinear_arith)
        requires
            -ma <= a <= ma,
            -mb <= b <= mb,
            0 <= ma,
            0 <= mb,
    ;
    vstd::arithmetic::div_mod::lemma_div_is_ordered(a * b, ma * mb, SCALE as int);
    vstd::arithmetic::div_mod::lemma_div_is_ordered(-(ma * mb), a * b, SCALE as int);
    lemma_div_neg_dividend(ma * mb, SCALE as int);
}

/// A fixed-point product with a factor in `[0, 1]` shrinks a nonnegative
/// factor: the heart of why attenuated colors stay in range.
pub proof fn lemma_fx_mul_unit(a: int, b: int)
    requires
        0 <= a,
        0 <= b <= SCALE,
    ensures
        0 <= fx_mul(a, b) <= a,
{
    assert(a * b <= a * SCALE) by (nonlinear_arith)
        requires
            0 <= a,
            b <= SCALE,
    ;
    assert(a * b >= 0) by (nonlinear_arith)
        requires
            0 <= a,
            0 <= b,
    ;
    vstd::arithmetic::div_mod::lemma_div_is_ordered(a * b, a * SCALE, SCALE as int);
    vstd::arithmetic::div_mod::lemma_div_pos_is_pos(a * b, SCALE as int);
    vstd::arithmetic::div_mod::lemma_div_by_multiple(a, SCALE as int);
}

/// The fixed-point product of bounded factors stays within a claimed bound
/// whose scaled form dominates the product of the factor bounds.
pub proof fn lemma_fx_mul_bound_to(a: int, b: int, ma: int, mb: int, out: int)
    requires
        -ma <= a <= ma,
        -mb <= b <= mb,
        0 <= ma,
        0 <= mb,
        ma * mb <= out * SCALE,
    ensures
        -out <= fx_mul(a, b) <= out,
{
    assert(-(ma * mb) <= a * b <= ma * mb) by (nonlinear_arith)
        requires
            -ma <= a <= ma,
            -mb <= b <= mb,
            0 <= ma,
            0 <= mb,
    ;
    vstd::arithmetic::div_mod::lemma_div_is_ordered(a * b, out * SCALE, SCALE as int);
    vstd::arithmetic::div_mod::lemma_div_is_ordered(-(out * (SCALE as int)), a * b, SCALE as int);
    vstd::arithmetic::div_mod::lemma_div_multiples_vanish(out, SCALE as int);
    vstd::arithmetic::div_mod::lemma_div_multiples_vanish(-out, SCALE as int);
    assert(out * SCALE == (SCALE as int) * out) by (nonlinear_arith);
    assert(-(out * (SCALE as int)) == (SCALE as int) * (-out)) by (nonlinear_arith);
}

/// A bounded dividend divided by a positive constant stays within a
/// claimed bound whose scaled form dominates the dividend bound.
pub proof fn lemma_div_bound_to(x: int, m: int, d: int, out: int)
    requires
        -m <= x <= m,
        0 <= m,
        d >= 1,
        m <= out * d,
    ensures
        -out <= x / d <= out,
{
    vstd::arithmetic::div_mod::lemma_div_is_ordered(x, out * d, d);
    vstd::arithmetic::div_mod::lemma_div_is_ordered(-(out * d), x, d);
    vstd::arithmetic::div_mod::lemma_div_multiples_vanish(out, d);
    vstd::arithmetic::div_mod::lemma_div_multiples_vanish(-out, d);
    assert(out * d == d * out) by (nonlinear_arith);
    assert(-(out * d) == d * (-out)) by (nonlinear_arith);
}

/// A fixed-point quotient whose dividend is dominated by its divisor lies
/// in `[-1, 1]`.
pub proof fn lemma_fx_div_unit(a: int, b: int)
    requires
        -b <= a <= b,
        b >= 1,
    ensures
        -SCALE <= fx_div(a, b) <= SCALE,
{
    assert(a * SCALE <= b * SCALE && -(b * (SCALE as int)) <= a * SCALE) by (nonlinear_arith)
        requires
            -b <= a <= b,
            b >= 1,
    ;
    vstd::arithmetic::div_mod::lemma_div_is_ordered(a * SCALE, b * SCALE, b);
    vstd::arithmetic::div_mod::lemma_div_is_ordered(-(b * (SCALE as int)), a * SCALE, b);
    vstd::arithmetic::div_mod::lemma_div_multiples_vanish(SCALE as int, b);
    vstd::arithmetic::div_mod::lemma_div_multiples_vanish(-(SCALE as int), b);
    assert(b * SCALE == b * (SCALE as int));
    assert(-(b * (SCALE as int)) == b * (-(SCALE as int))) by (nonlinear_arith);
}

/// The fixed-point square of a value in `[-1, 1]` lies in `[0, 1]`.
pub proof fn lemma_fx_square_unit(q: int)
    requires
        -SCALE <= q <= SCALE,
    ensures
        0 <= fx_mul(q, q) <= SCALE,
{
    assert(0 <= q * q <= (SCALE as int) * SCALE) by (nonlinear_arith)
        requires
            -SCALE <= q <= SCALE,
    ;
    vstd::arithmetic::div_mod::lemma_div_pos_is_pos(q * q, SCALE as int);
    vstd::arithmetic::div_mod::lemma_div_is_ordered(q * q, (SCALE as int) * SCALE, SCALE as int);
    vstd::arithmetic::div_mod::lemma_div_multiples_vanish(SCALE as int, SCALE as int);
    assert((SCALE as int) * SCALE == (SCALE as int) * (SCALE as int));
}

/// Multiplying zero by anything and scaling down leaves zero.
pub proof fn lemma_fx_mul_zero(a: int)
    ensures
        fx_mul(0, a) == 0,
        fx_mul(a, 0) == 0,
{
    vstd::arithmetic::div_mod::lemma_div_of0(SCALE as int);
    assert(0 * a == 0) by (nonlinear_arith);
    assert(a * 0 == 0) by (nonlinear_arith);
}

/// The fixed-point quotient of a bounded dividend by a positive divisor is
/// bounded by the scaled dividend bound.
pub proof fn lemma_fx_div_bound(a: int, b: int, m: int)
    requires
        -m <= a <= m,
        0 <= m,
        b >= 1,
    ensures
        -(m * SCALE) <= fx_div(a, b) <= m * SCALE,
{
    assert(-(m * SCALE) <= a * SCALE <= m * SCALE) by (nonlinear_arith)
        requires
            -m <= a <= m,
            0 <= m,
    ;
    lemma_div_abs_bound(a * SCALE, m * SCALE, b);
}


/// A fixed-point product with a factor in `[-1, 1]` stays within the other
/// (nonnegative) factor.
pub proof fn lemma_fx_mul_by_unit(a: int, b: int)
    requires
        -SCALE <= a <= SCALE,
        0 <= b,
    ensures
        -b <= fx_mul(a, b) <= b,
{
    assert(-((SCALE as int) * b) <= a * b <= (SCALE as int) * b) by (nonlinear_arith)
        requires
            -SCALE <= a <= SCALE,
            0 <= b,
    ;
    vstd::arithmetic::div_mod::lemma_div_is_ordered(a * b, (SCALE as int) * b, SCALE as int);
    vstd::arithmetic::div_mod::lemma_div_is_ordered(-((SCALE as int) * b), a * b, SCALE as int);
    vstd::arithmetic::div_mod::lemma_div_multiples_vanish(b, SCALE as int);
    vstd::arithmetic::div_mod::lemma_div_multiples_vanish(-b, SCALE as int);
    assert(-((SCALE as int) * b) == (SCALE as int) * (-b)) by (nonlinear_arith);
}

/// Scaling a bounded factor by a nonnegative one keeps the product within
/// the scaled bound.
pub proof fn lemma_fx_mul_le(a: int, b: int, m: int)
    requires
        -m <= a <= m,
        0 <= b,
        0 <= m,
    ensures
        -fx_mul(m, b) - 1 <= fx_mul(a, b) <= fx_mul(m, b),
{
    assert(-(m * b) <= a * b <= m * b) by (nonlinear_arith)
        requires
            -m <= a <= m,
            0 <= b,
            0 <= m,
    ;
    vstd::arithmetic::div_mod::lemma_div_is_ordered(a * b, m * b, SCALE as int);
    vstd::arithmetic::div_mod::lemma_div_is_ordered(-(m * b), a * b, SCALE as int);
    assert(m * b >= 0) by (nonlinear_arith)
        requires
            0 <= b,
            0 <= m,
    ;
    lemma_div_neg_dividend(m * b, SCALE as int);
}

/// Division distributes over a sum up to one unit.
pub proof fn lemma_div_of_sum(a: int, b: int, d: int)
    requires
        d >= 1,
    ensures
        a / d + b / d <= (a + b) / d <= a / d + b / d + 1,
{
    lemma_fundamental_div_mod(a, d);
    lemma_fundamental_div_mod(b, d);
    lemma_mod_bound(a, d);
    lemma_mod_bound(b, d);
    let qa = a / d;
    let ra = a % d;
    let qb = b / d;
    let rb = b % d;
    if ra + rb < d {
        assert(a + b == (qa + qb) * d + (ra + rb)) by (nonlinear_arith)
            requires
                a == d * qa + ra,
                b == d * qb + rb,
        ;
        lemma_fundamental_div_mod_converse_div(a + b, d, qa + qb, ra + rb);
    } else {
        assert(a + b == (qa + qb + 1) * d + (ra + rb - d)) by (nonlinear_arith)
            requires
                a == d * qa + ra,
                b == d * qb + rb,
        ;
        lemma_fundamental_div_mod_converse_div(a + b, d, qa + qb + 1, ra + rb - d);
    }
}

/// A fixed-point scalar: `raw` counts of `1 / SCALE`.
#[derive(Clone, Copy, Debug, PartialEq, Eq, Structural)]
pub struct Real {
    pub raw: i64,
}

impl Real {
    /// The scalar with the given raw unit count.
    pub fn from_raw(raw: i64) -> (r: Real)
        ensures
            r.raw == raw,
    {
        Real { raw }
    }

    /// The scalar representing the integer `i` exactly.
    pub fn from_int(i: i64) -> (r: Real)
        requires
            -0x7000_0000_0000 <= i <= 0x7000_0000_0000,
        ensures
            r.raw == i * SCALE,
    {
        Real { raw: i * SCALE }
    }

    /// Zero.
    pub fn zero() -> (r: Real)
        ensures
            r.raw == 0,
    {
        Real { raw: 0 }
    }

    /// One.
    pub fn one() -> (r: Real)
        ensures
            r.raw == SCALE,
    {
        Real { raw: SCALE }
    }

    /// Exact sum.
    pub fn add(self, other: Real) -> (r: Real)
        requires
            i64::MIN <= self.raw + other.raw <= i64::MAX,
        ensures
            r.raw == self.raw + other.raw,
    {
        Real { raw: self.raw + other.raw }
    }

    /// Exact difference.
    pub fn sub(self, other: Real) -> (r: Real)
        requires
            i64::MIN <= self.raw - other.raw <= i64::MAX,
        ensures
            r.raw == self.raw - other.raw,
    {
        Real { raw: self.raw - other.raw }
    }

    /// Exact negation.
    pub fn neg(self) -> (r: Real)
        requires
            self.raw != i64::MIN,
        ensures
            r.raw == -self.raw,
    {
        Real { raw: -self.raw }
    }

    /// Absolute value.
    pub fn abs(self) -> (r: Real)
        requires
            self.raw != i64::MIN,
        ensures
            r.raw == if self.raw >= 0 { self.raw as int } else { -self.raw as int },
    {
        if self.raw >= 0 {
            self
        } else {
            Real { raw: -self.raw }
        }
    }

    /// Fixed-point product, rounded toward negative infinity.
    pub fn mul(self, other: Real) -> (r: Real)
        requires
            i64::MIN <= fx_mul(self.raw as int, other.raw as int) <= i64::MAX,
        ensures
            r.raw == fx_mul(self.raw as int, other.raw as int),
    {
        let p: i128 = (self.raw as i128) * (other.raw as i128);
        let q = div_floor(p, SCALE as i128);
        Real { raw: q as i64 }
    }

    /// Fixed-point quotient by a positive divisor, rounded toward negative
    /// infinity.
    pub fn div(self, other: Real) -> (r: Real)
        requires
            other.raw > 0,
            i64::MIN <= fx_div(self.raw as int, other.raw as int) <= i64::MAX,
        ensures
            r.raw == fx_div(self.raw as int, other.raw as int),
    {
        let num: i128 = (self.raw as i128) * (SCALE as i128);
        let q: i128 = div_floor(num, other.raw as i128);
        Real { raw: q as i64 }
    }

    /// Fixed-point square root of a nonnegative scalar.
    pub fn sqrt(self) -> (r: Real)
        requires
            self.raw >= 0,
        ensures
            r.raw == isqrt(self.raw * SCALE),
            is_isqrt(r.raw as int, self.raw * SCALE),
    {
        let n: u128 = (self.raw as u128) * (SCALE as u128);
        proof {
            assert(n as int == self.raw * SCALE);
        }
        let root = isqrt_u128(n);
        proof {
            let ri = isqrt(n as int);
            assert(ri * ri <= n < 0x1_0000_0000_0000_0000_0000int);
            assert(ri < 0x1_0000_0000_0000int) by (nonlinear_arith)
                requires
                    0 <= ri,
                    ri * ri < 0x1_0000_0000_0000_0000_0000int,
            ;
        }
        Real { raw: root as i64 }
    }

    /// The smaller of two scalars.
    pub fn min(self, other: Real) -> (r: Real)
        ensures
            r.raw == if self.raw <= other.raw { self.raw } else { other.raw },
    {
        if self.raw <= other.raw {
            self
        } else {
            other
        }
    }

    /// The larger of two scalars.
    pub fn max(self, other: Real) -> (r: Real)
        ensures
            r.raw == if self.raw >= other.raw { self.raw } else { other.raw },
    {
        if self.raw >= other.raw {
            self
        } else {
            other
        }
    }
}

} // verus!
