use crayfish::defs::{Real, SCALE};
use crayfish::math::{Ray, Vector3};

fn v(x: i64, y: i64, z: i64) -> Vector3 {
    Vector3::new(Real::from_int(x), Real::from_int(y), Real::from_int(z))
}

#[test]
fn scalar_arithmetic_is_exact_on_integers() {
    let two = Real::from_int(2);
    let three = Real::from_int(3);
    assert_eq!(two.add(three).raw, 5 * SCALE);
    assert_eq!(three.sub(two).raw, SCALE);
    assert_eq!(two.mul(three).raw, 6 * SCALE);
    assert_eq!(Real::from_int(6).div(two).raw, 3 * SCALE);
    assert_eq!(Real::from_int(1).div(two).raw, SCALE / 2);
    assert_eq!(Real::from_int(4).sqrt().raw, 2 * SCALE);
}

#[test]
fn square_root_of_two_rounds_down() {
    assert_eq!(Real::from_int(2).sqrt().raw, 92681);
}

#[test]
fn magnitude_of_one_two_two_is_three() {
    let m = v(1, 2, 2).magnitude();
    assert_eq!(m.raw, 3 * SCALE);
}

#[test]
fn normalized_vector_has_unit_magnitude() {
    // Magnitude of a normalized vector is 1 within discretization tolerance.
    for vec in [v(1, 2, 2), v(3, 0, 4), v(-7, 1, 5), v(1, 1, 1), v(0, 0, 9)] {
        let n = vec.as_normal();
        let m = n.magnitude().raw;
        assert!(SCALE - 4 <= m && m <= SCALE + 4, "magnitude was {m}");
    }
}

#[test]
fn reflect_across_horizontal_surface() {
    // reflect((1,-1,0), (0,1,0)) == (1,1,0)
    let r = v(1, -1, 0).reflect(&v(0, 1, 0));
    assert_eq!(r.x.raw, SCALE);
    assert_eq!(r.y.raw, SCALE);
    assert_eq!(r.z.raw, 0);
}

#[test]
fn dot_and_cross_products() {
    assert_eq!(v(1, 2, 3).dot(&v(2, 3, 4)).raw, 20 * SCALE);
    let c = v(1, 0, 0).cross(&v(0, 1, 0));
    assert_eq!((c.x.raw, c.y.raw, c.z.raw), (0, 0, SCALE));
}

#[test]
fn magnitude_squared_matches_dot_with_self() {
    let a = v(2, -3, 6);
    assert_eq!(a.magnitude_squared().raw, a.dot(&a).raw);
    assert_eq!(a.magnitude_squared().raw, 49 * SCALE);
}

#[test]
fn near_zero_detects_only_the_zero_vector() {
    assert!(v(0, 0, 0).is_near_zero());
    assert!(!Vector3::new(Real::from_raw(1), Real::zero(), Real::zero()).is_near_zero());
}

#[test]
fn ray_evaluates_points_along_itself() {
    let ray = Ray::new(v(2, 3, 4), v(1, 0, 0));
    let p = ray.at(Real::from_int(2));
    assert_eq!((p.x.raw, p.y.raw, p.z.raw), (4 * SCALE, 3 * SCALE, 4 * SCALE));
    let back = ray.at(Real::from_int(-1));
    assert_eq!(back.x.raw, SCALE);
}

#[test]
fn refraction_straight_through_keeps_direction() {
    // Head-on through an interface with ratio 1: the direction is preserved
    // up to discretization.
    let dir = v(0, 0, -1);
    let n = v(0, 0, 1);
    let r = dir.refract(&n, Real::one());
    assert_eq!(r.x.raw, 0);
    assert_eq!(r.y.raw, 0);
    assert!((r.z.raw + SCALE).abs() <= 2, "z was {}", r.z.raw);
}

#[test]
fn random_unit_sphere_samples_stay_inside() {
    for _ in 0..32 {
        let s = Vector3::random_in_unit_sphere();
        assert!(s.magnitude_squared().raw < SCALE);
    }
    for _ in 0..32 {
        let d = Vector3::random_in_unit_disk();
        assert!(d.magnitude_squared().raw < SCALE);
        assert_eq!(d.z.raw, 0);
    }
}

#[test]
fn random_vectors_respect_their_bounds() {
    let lo = Real::from_int(-1);
    let hi = Real::one();
    for _ in 0..32 {
        let s = Vector3::new_random(lo, hi);
        for c in [s.x.raw, s.y.raw, s.z.raw] {
            assert!(-SCALE <= c && c <= SCALE);
        }
    }
}

#[test]
fn random_draws_actually_vary() {
    // Thirty-two draws over a 65537-value range: a sampler that ignored its
    // range and echoed a bound would return the same value every time.
    let lo = Real::zero();
    let hi = Real::one();
    let mut seen_distinct = false;
    let first = Vector3::new_random(lo, hi);
    for _ in 0..32 {
        let next = Vector3::new_random(lo, hi);
        if next.x.raw != first.x.raw || next.y.raw != first.y.raw || next.z.raw != first.z.raw {
            seen_distinct = true;
        }
    }
    assert!(seen_distinct);
}
