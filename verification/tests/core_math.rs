//! Exact checks of the fixed-point core: scalars, intervals, vectors,
//! boxes, trigonometry and colour quantisation.

use raytracer::aabb::{AABB, PAD};
use raytracer::color::{linear_to_gamma, quantize_channel, write_color};
use raytracer::fx::{
    fx_abs, fx_add, fx_div, fx_div_int, fx_floor_parts, fx_mul, fx_sqrt, fx_sub, FX_MAX, FX_ONE,
};
use raytracer::interval::Interval;
use raytracer::ray::Ray;
use raytracer::rt::{random_fx, random_int, rng_from_seed};
use raytracer::trig::{acos_fx, atan2_fx, cos_fx, sin_any_fx, sin_fx, tan_half_deg, PI_FX};
use raytracer::vec3::Vec3;

const S: i64 = FX_ONE;

#[test]
fn fx_arithmetic_exact() {
    assert_eq!(fx_add(3 * S, 4 * S), 7 * S);
    assert_eq!(fx_sub(3 * S, 4 * S), -S);
    assert_eq!(fx_mul(3 * S, 2 * S), 6 * S);
    assert_eq!(fx_mul(-3 * S, 2 * S), -6 * S);
    assert_eq!(fx_div(6 * S, 2 * S), 3 * S);
    assert_eq!(fx_div(S, -2 * S), -S / 2);
    assert_eq!(fx_div_int(6 * S, 3), 2 * S);
    assert_eq!(fx_sqrt(4 * S), 2 * S);
    assert_eq!(fx_sqrt(0), 0);
    assert_eq!(fx_abs(-5), 5);
}

#[test]
fn fx_saturates_at_band_edge() {
    assert_eq!(fx_add(FX_MAX, FX_MAX), FX_MAX);
    assert_eq!(fx_sub(-FX_MAX, FX_MAX), -FX_MAX);
    assert_eq!(fx_mul(FX_MAX, FX_MAX), FX_MAX);
}

#[test]
fn fx_floor_parts_negative_goes_down() {
    let (q, f) = fx_floor_parts(-1);
    assert_eq!(q, -1);
    assert_eq!(f, S - 1);
    let (q2, f2) = fx_floor_parts(3 * S + 17);
    assert_eq!(q2, 3);
    assert_eq!(f2, 17);
}

#[test]
fn interval_queries() {
    let i = Interval::new(-S, S);
    assert!(i.contains(S));
    assert!(!i.surrounds(S));
    assert!(i.surrounds(0));
    assert_eq!(i.clamp(2 * S), S);
    assert_eq!(i.clamp(-2 * S), -S);
    assert_eq!(i.clamp(5), 5);
    assert_eq!(i.size(), 2 * S);
    let e = Interval::empty();
    assert!(e.size() < 0);
    let u = Interval::universe();
    assert!(u.contains(0) && u.contains(FX_MAX));
}

#[test]
fn interval_expand_grows_size_exactly() {
    let i = Interval::new(0, S);
    for d in [0i64, 1, 2, 7, 8, 1000] {
        let e = i.expand(d);
        assert_eq!(e.size(), i.size() + d);
    }
}

#[test]
fn interval_union_is_tight() {
    let a = Interval::new(-S, 0);
    let b = Interval::new(-5, 2 * S);
    let u = Interval::new_by_interval(a, b);
    assert_eq!(u.min, -S);
    assert_eq!(u.max, 2 * S);
}

#[test]
fn aabb_padding_reaches_floor() {
    let thin = AABB::new(
        Interval::new(0, 0),
        Interval::new(0, 10 * S),
        Interval::new(-3, -3),
    );
    assert!(thin.x.max - thin.x.min >= PAD);
    assert!(thin.z.max - thin.z.min >= PAD);
    assert_eq!(thin.y.min, 0);
    assert_eq!(thin.y.max, 10 * S);
    assert!(thin.x.min <= 0 && thin.x.max >= 0);
}

#[test]
fn aabb_union_contains_both() {
    let b1 = AABB::new_by_point(Vec3::new(0, 0, 0), Vec3::new(S, S, S));
    let b2 = AABB::new_by_point(Vec3::new(-S, -S, -S), Vec3::new(0, 0, 0));
    let u = AABB::new_by_aabb(&b1, &b2);
    assert!(u.x.min <= b1.x.min && b1.x.max <= u.x.max);
    assert!(u.x.min <= b2.x.min && b2.x.max <= u.x.max);
    assert!(u.y.min <= b2.y.min && b1.y.max <= u.y.max);
    assert_eq!(u.z.min, b2.z.min);
    assert_eq!(u.z.max, b1.z.max);
}

#[test]
fn aabb_longest_axis_tie_break() {
    let b = AABB::new(
        Interval::new(0, 2 * S),
        Interval::new(0, 2 * S),
        Interval::new(0, S),
    );
    assert_eq!(b.longest_axis(), 0);
    let tall = AABB::new(
        Interval::new(0, S),
        Interval::new(0, 3 * S),
        Interval::new(0, 2 * S),
    );
    assert_eq!(tall.longest_axis(), 1);
}

#[test]
fn aabb_slab_test_axis_aligned() {
    let b = AABB::new_by_point(Vec3::new(-S, -S, -3 * S), Vec3::new(S, S, -S));
    let ray = Ray::new(Vec3::new(0, 0, 0), Vec3::new(0, 0, -S), 0);
    let mut t = Interval::new(1, FX_MAX);
    assert!(b.hit(&ray, &mut t));
    let miss = Ray::new(Vec3::new(5 * S, 0, 0), Vec3::new(0, 0, -S), 0);
    let mut t2 = Interval::new(1, FX_MAX);
    assert!(!b.hit(&miss, &mut t2));
}

#[test]
fn vec3_algebra_exact() {
    let a = Vec3::new(3 * S, 4 * S, 0);
    assert_eq!(a.length(), 5 * S);
    assert_eq!(a.squared_length(), 25 * S);
    let b = Vec3::new(S, 0, 0);
    assert_eq!(a.dot(&b), 3 * S);
    let c = Vec3::new(0, S, 0);
    let x = b.cross(&c);
    assert_eq!((x.x, x.y, x.z), (0, 0, S));
    let n = a.normalize();
    assert_eq!(n.x, 3 * S / 5);
    assert_eq!(n.y, 4 * S / 5);
    let neg = a.neg();
    assert_eq!(neg.x, -3 * S);
    let cd = a.cor_dot(&Vec3::new(S / 2, S / 2, S));
    assert_eq!((cd.x, cd.y), (3 * S / 2, 2 * S));
}

#[test]
fn vec3_reflect_mirrors() {
    let v = Vec3::new(S, -S, 0);
    let n = Vec3::new(0, S, 0);
    let r = Vec3::reflect(v, n);
    assert_eq!((r.x, r.y, r.z), (S, S, 0));
}

#[test]
fn trig_exact_points() {
    assert_eq!(sin_fx(0), 0);
    assert_eq!(cos_fx(0), S);
    assert_eq!(acos_fx(S), 0);
    assert_eq!(atan2_fx(0, S), 0);
    assert_eq!(sin_any_fx(PI_FX), 0);
    // tan of half of a right angle is one, up to the series error.
    let t = tan_half_deg(90 * S);
    assert!((t - S).abs() < 600, "tan 45deg = {t}");
    // a narrow field of view has a small half-angle tangent.
    let t20 = tan_half_deg(20 * S);
    assert!(t20 > 10000 && t20 < 12500, "tan 10deg = {t20}");
}

#[test]
fn gamma_and_quantize_exact() {
    assert_eq!(linear_to_gamma(4 * S), 2 * S);
    assert_eq!(linear_to_gamma(-S), 0);
    assert_eq!(quantize_channel(S), 255);
    assert_eq!(quantize_channel(0), 0);
    assert_eq!(quantize_channel(S / 4), 128);
}

#[test]
fn write_color_places_bytes() {
    let mut img = vec![0u8; 2 * 2 * 3];
    write_color(Vec3::new(S, 0, S / 4), &mut img, 1, 0, 2, 2);
    assert_eq!(&img[3..6], &[255, 0, 128]);
    assert_eq!(&img[0..3], &[0, 0, 0]);
    assert_eq!(img.len(), 12);
}

#[test]
fn rng_wrappers_stay_in_range_and_repeat_per_seed() {
    let mut r1 = rng_from_seed(7);
    let mut r2 = rng_from_seed(7);
    let mut differs_from_bound = false;
    for _ in 0..200 {
        let a = random_fx(&mut r1, -5 * S, 5 * S);
        let b = random_fx(&mut r2, -5 * S, 5 * S);
        assert_eq!(a, b);
        assert!((-5 * S..5 * S).contains(&a));
        if a != -5 * S {
            differs_from_bound = true;
        }
        let i = random_int(&mut r1, 0, 10);
        let j = random_int(&mut r2, 0, 10);
        assert_eq!(i, j);
        assert!((0..=10).contains(&i));
    }
    assert!(differs_from_bound);
}
