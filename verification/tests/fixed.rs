//! The exact scalar, and the tracer on it.
use raytracer::fixed::{Fixed, DEGREE, HALF_PI, PI, SCALE, THREE_HALF_PI, TWO_PI};
use raytracer::geometry::{reflect, Intersection, Plane, Primitive, Ray, UnitSphere};
use raytracer::image::{Color, Image};
use raytracer::material::Material;
use raytracer::matrices::Mat;
use raytracer::raytracer::{Camera, RayTracer, World};
use raytracer::scalar::{is_zero, le, Scalar};
use raytracer::transformations::Transformation;
use raytracer::tuples::Tuple4D;

const ONE: i64 = 1 << 32;

fn raw(raw: i64) -> Fixed {
    Fixed { raw }
}

fn whole(n: i64) -> Fixed {
    Fixed::from_ratio(n, 1)
}

fn value(x: Fixed) -> f64 {
    x.raw as f64 / ONE as f64
}

fn close(a: Fixed, b: f64, within: f64) -> bool {
    (value(a) - b).abs() <= within
}

fn point(x: i64, y: i64, z: i64) -> Tuple4D<Fixed> {
    Tuple4D::new_point(whole(x), whole(y), whole(z))
}

fn vector(x: i64, y: i64, z: i64) -> Tuple4D<Fixed> {
    Tuple4D::new_vector(whole(x), whole(y), whole(z))
}

fn ray(origin: Tuple4D<Fixed>, dir: Tuple4D<Fixed>) -> Ray<Fixed> {
    assert!(origin.is_point() && dir.is_vec());
    Ray::new(origin, dir)
}

fn matte() -> Material<Fixed> {
    Material::from_color(Color::new(whole(1), whole(1), whole(1)))
}

#[test]
fn one_unit_is_two_to_the_thirty_two_steps() {
    assert_eq!(SCALE, 1u64 << 32);
    assert_eq!(whole(1).raw, ONE);
    assert_eq!(whole(-3).raw, -3 * ONE);
    assert_eq!(whole(0).raw, 0);
}

#[test]
fn ratios_are_cut_toward_zero() {
    assert_eq!(Fixed::from_ratio(1, 2).raw, ONE / 2);
    assert_eq!(Fixed::from_ratio(1, 10).raw, 429496729);
    assert_eq!(Fixed::from_ratio(1, 3).raw, 1431655765);
    assert_eq!(Fixed::from_ratio(-1, 3).raw, -1431655765);
    assert_eq!(Fixed::from_ratio(1, 100000).raw, 42949);
    assert_eq!(Fixed::from_ratio(1, 100000000).raw, 42);
    assert_eq!(Fixed::from_ratio(1, u64::MAX).raw, 0);
}

#[test]
fn ratios_beyond_the_range_stop_at_its_ends() {
    assert_eq!(Fixed::from_ratio(i64::MAX, 1).raw, i64::MAX);
    assert_eq!(Fixed::from_ratio(i64::MIN, 1).raw, i64::MIN);
    assert_eq!(Fixed::from_ratio(1 << 31, 1).raw, i64::MAX);
    assert_eq!(Fixed::from_ratio(-(1 << 31), 1).raw, i64::MIN);
    assert_eq!(Fixed::from_ratio((1 << 31) - 1, 1).raw, ((1i64 << 31) - 1) << 32);
}

#[test]
fn sums_and_differences_stop_at_the_ends_of_the_range() {
    assert_eq!(whole(2).add(whole(3)), whole(5));
    assert_eq!(whole(2).sub(whole(3)), whole(-1));
    assert_eq!(raw(i64::MAX).add(raw(1)).raw, i64::MAX);
    assert_eq!(raw(i64::MIN).add(raw(-1)).raw, i64::MIN);
    assert_eq!(raw(i64::MIN).sub(raw(1)).raw, i64::MIN);
    assert_eq!(raw(i64::MAX).sub(raw(-1)).raw, i64::MAX);
    assert_eq!(raw(i64::MAX).add(raw(i64::MIN)).raw, -1);
}

#[test]
fn products_are_cut_toward_zero() {
    let x = Fixed::from_ratio(3, 2);
    let y = Fixed::from_ratio(5, 2);
    assert_eq!(x.mul(y), Fixed::from_ratio(15, 4));
    assert_eq!(x.neg().mul(y), Fixed::from_ratio(-15, 4));
    assert_eq!(x.neg().mul(y.neg()), Fixed::from_ratio(15, 4));
    assert_eq!(raw(1).mul(raw(1)).raw, 0);
    assert_eq!(raw(-1).mul(raw(1)).raw, 0);
    assert_eq!(raw(3).mul(Fixed::from_ratio(1, 2)).raw, 1);
    assert_eq!(raw(-3).mul(Fixed::from_ratio(1, 2)).raw, -1);
    assert_eq!(whole(1 << 20).mul(whole(1 << 20)).raw, i64::MAX);
    assert_eq!(whole(1 << 20).mul(whole(-(1 << 20))).raw, i64::MIN);
    assert_eq!(raw(i64::MIN).mul(raw(i64::MIN)).raw, i64::MAX);
}

#[test]
fn quotients_are_cut_toward_zero() {
    assert_eq!(whole(1).div(whole(3)).raw, 1431655765);
    assert_eq!(whole(-1).div(whole(3)).raw, -1431655765);
    assert_eq!(whole(1).div(whole(-3)).raw, -1431655765);
    assert_eq!(whole(7).div(whole(2)), Fixed::from_ratio(7, 2));
    assert_eq!(whole(1).div(raw(1)).raw, i64::MAX);
    assert_eq!(whole(-1).div(raw(1)).raw, i64::MIN);
}

#[test]
fn quotients_by_zero() {
    assert_eq!(whole(5).div(whole(0)).raw, i64::MAX);
    assert_eq!(whole(-5).div(whole(0)).raw, i64::MIN);
    assert_eq!(whole(0).div(whole(0)).raw, 0);
}

#[test]
fn negation_and_size() {
    assert_eq!(whole(3).neg(), whole(-3));
    assert_eq!(whole(-3).neg(), whole(3));
    assert_eq!(raw(i64::MIN).neg().raw, i64::MAX);
    assert_eq!(whole(-3).abs(), whole(3));
    assert_eq!(whole(3).abs(), whole(3));
    assert_eq!(raw(i64::MIN).abs().raw, i64::MAX);
}

#[test]
fn roots_are_cut_to_the_grid() {
    assert_eq!(whole(4).sqrt(), whole(2));
    assert_eq!(whole(0).sqrt(), whole(0));
    assert_eq!(whole(1).sqrt(), whole(1));
    assert_eq!(Fixed::from_ratio(1, 4).sqrt(), Fixed::from_ratio(1, 2));
    assert_eq!(whole(2).sqrt().raw, 6074000999);
    assert_eq!(whole(3).sqrt().raw, 7439101573);
    assert_eq!(Fixed::from_ratio(1, 2).sqrt().raw, 3037000499);
    assert_eq!(raw(1).sqrt().raw, 65536);
    assert_eq!(raw(i64::MAX).sqrt().raw, 199032864766430);
}

#[test]
fn roots_of_what_is_not_positive_are_zero() {
    assert_eq!(whole(-4).sqrt().raw, 0);
    assert_eq!(raw(-1).sqrt().raw, 0);
    assert_eq!(raw(i64::MIN).sqrt().raw, 0);
}

#[test]
fn powers_go_by_the_whole_part_of_the_exponent() {
    assert_eq!(whole(2).powf(whole(10)), whole(1024));
    assert_eq!(Fixed::from_ratio(1, 2).powf(whole(3)), Fixed::from_ratio(1, 8));
    assert_eq!(Fixed::from_ratio(3, 2).powf(Fixed::from_ratio(29, 10)), Fixed::from_ratio(9, 4));
    assert_eq!(whole(7).powf(whole(0)), whole(1));
    assert_eq!(whole(7).powf(Fixed::from_ratio(9, 10)), whole(1));
    assert_eq!(whole(7).powf(whole(-2)), whole(1));
    assert_eq!(whole(-2).powf(whole(3)), whole(-8));
    assert_eq!(whole(0).powf(whole(0)), whole(1));
    assert_eq!(whole(0).powf(whole(5)), whole(0));
    assert_eq!(whole(2).powf(whole(40)).raw, i64::MAX);
    assert_eq!(Fixed::from_ratio(9, 10).powf(whole(200)).raw, 3);
}

#[test]
fn whole_parts() {
    assert_eq!(Fixed::from_ratio(399, 100).to_usize(), 3);
    assert_eq!(whole(255).to_usize(), 255);
    assert_eq!(whole(0).to_usize(), 0);
    assert_eq!(whole(-2).to_usize(), 0);
    assert_eq!(raw(ONE - 1).to_usize(), 0);
    assert_eq!(raw(i64::MAX).to_usize(), (1usize << 31) - 1);
}

#[test]
fn order() {
    assert!(whole(1).lt(whole(2)) && !whole(2).lt(whole(1)) && !whole(1).lt(whole(1)));
    assert!(raw(-1).lt(raw(0)) && raw(i64::MIN).lt(raw(i64::MAX)));
    assert!(whole(1).equals(whole(1)) && !whole(1).equals(raw(ONE + 1)));
    assert!(le(whole(1), whole(1)) && le(whole(1), whole(2)) && !le(whole(2), whole(1)));
    assert!(is_zero(raw(0)) && !is_zero(raw(1)) && !is_zero(raw(-1)));
}

#[test]
fn degrees_to_radians() {
    assert_eq!(DEGREE, 74961321);
    assert_eq!(whole(180).to_radians().raw, 13493037780);
    assert_eq!(whole(0).to_radians().raw, 0);
    assert!(close(whole(90).to_radians(), std::f64::consts::FRAC_PI_2, 1e-7));
    assert!(close(whole(-45).to_radians(), -std::f64::consts::FRAC_PI_4, 1e-7));
}

#[test]
fn turns_in_steps() {
    assert_eq!(PI, 13493037705);
    assert_eq!(HALF_PI, 6746518852);
    assert_eq!(THREE_HALF_PI, 20239556557);
    assert_eq!(TWO_PI, 26986075409);
}

#[test]
fn sines() {
    assert_eq!(raw(0).sin().raw, 0);
    assert_eq!(raw(HALF_PI).sin().raw, 4294967300);
    assert_eq!(raw(-HALF_PI).sin().raw, -4294967300);
    for tenth in -100i64..100 {
        let x = tenth as f64 / 10.0;
        let angle = Fixed::from_ratio(tenth, 10);
        assert!(close(angle.sin(), x.sin(), 1e-6));
        assert_eq!(angle.neg().sin().raw, -angle.sin().raw);
    }
    assert!(close(whole(1000).sin(), 1000.0f64.sin(), 1e-4));
}

#[test]
fn cosines_and_tangents() {
    assert_eq!(raw(0).cos().raw, 4294967300);
    for tenth in -100i64..100 {
        let x = tenth as f64 / 10.0;
        let angle = Fixed::from_ratio(tenth, 10);
        assert!(close(angle.cos(), x.cos(), 1e-6));
        assert_eq!(angle.tan(), angle.sin().div(angle.cos()));
    }
    assert_eq!(raw(PI / 4).tan().raw, ONE);
    assert!(close(Fixed::from_ratio(1, 2).tan(), 0.5f64.tan(), 1e-6));
}

#[test]
fn reflect_at_a_flat_floor_exactly() {
    let r = reflect(&vector(1, -1, 0), &vector(0, 1, 0));
    assert_eq!((r.x, r.y, r.z, r.w), (whole(1), whole(1), whole(0), whole(0)));
}

#[test]
fn sphere_is_met_twice_exactly() {
    let s = UnitSphere::new(7, Transformation::identity(), matte());
    let xs = s.intersect(&ray(point(0, 0, -5), vector(0, 0, 1))).unwrap();
    assert_eq!(xs.len(), 2);
    assert_eq!((xs[0].dist, xs[0].object_id), (whole(4), 7));
    assert_eq!((xs[1].dist, xs[1].object_id), (whole(6), 7));
    let inside = s.intersect(&ray(point(0, 0, 0), vector(0, 0, 1))).unwrap();
    assert_eq!((inside[0].dist, inside[1].dist), (whole(-1), whole(1)));
    assert_eq!(Intersection::hit(&inside).unwrap().dist, whole(1));
    assert!(s.intersect(&ray(point(2, 0, -5), vector(0, 0, 1))).unwrap().is_empty());
}

#[test]
fn plane_is_met_once_exactly() {
    let p = Plane::new(2, Transformation::identity(), matte());
    let xs = p.intersect(&ray(point(0, 1, 0), vector(0, -1, 0))).unwrap();
    assert_eq!(xs.len(), 1);
    assert_eq!((xs[0].dist, xs[0].object_id), (whole(1), 2));
    assert!(p.intersect(&ray(point(0, 10, 0), vector(0, 0, 1))).unwrap().is_empty());
    let n = p.surface_normal(&point(3, 0, -4));
    assert_eq!((n.x, n.y, n.z, n.w), (whole(0), whole(1), whole(0), whole(0)));
}

#[test]
fn hit_is_the_nearest_ahead_exactly() {
    let at = |dist: i64| Intersection { dist: whole(dist), object_id: 0 };
    assert_eq!(Intersection::hit(&[at(5), at(7), at(-3), at(2)]).unwrap().dist, whole(2));
    assert!(Intersection::hit(&[at(-5), at(-7)]).is_none());
}

#[test]
fn determinant_and_inverse_exactly() {
    let cells = |v: &[i64]| v.iter().map(|x| whole(*x)).collect::<Vec<Fixed>>();
    let a = Mat::new(cells(&[-2, -8, 3, 5, -3, 1, 7, 3, 1, 2, -9, 6, -6, 7, 7, -9]), 4);
    assert_eq!(a.determinant(), whole(-4071));
    let half = Mat::new(cells(&[2, 0, 0, 0, 0, 4, 0, 0, 0, 0, 8, 0, 0, 0, 0, 1]), 4);
    let inverse = half.inverse().unwrap();
    assert_eq!(inverse.at(0, 0), Fixed::from_ratio(1, 2));
    assert_eq!(inverse.at(1, 1), Fixed::from_ratio(1, 4));
    assert_eq!(inverse.at(2, 2), Fixed::from_ratio(1, 8));
    assert_eq!(inverse.at(3, 3), whole(1));
    assert_eq!(inverse.at(0, 1), whole(0));
    let singular = Mat::new(cells(&[1, 2, 3, 2, 4, 6, 0, 1, 1]), 3);
    assert_eq!(singular.determinant(), whole(0));
    assert!(singular.inverse().is_none());
}

#[test]
fn quarter_turn_about_x() {
    let t = Transformation::rotate_x(whole(90));
    let p = t.transform(&point(0, 1, 0));
    assert!(close(p.x, 0.0, 1e-7) && close(p.y, 0.0, 1e-7) && close(p.z, 1.0, 1e-7));
    assert_eq!(p.w, whole(1));
}

#[test]
fn colour_of_a_hit_in_the_default_world() {
    let w = World::<Fixed>::default().unwrap();
    let c = w.color_at(&ray(point(0, 0, -5), vector(0, 0, 1)), 5).unwrap();
    assert!(close(c.r, 0.38066, 1e-4) && close(c.g, 0.47583, 1e-4) && close(c.b, 0.2855, 1e-4));
    let miss = w.color_at(&ray(point(0, 0, -5), vector(0, 1, 0)), 5).unwrap();
    assert_eq!((miss.r, miss.g, miss.b, miss.a), (whole(0), whole(0), whole(0), whole(1)));
}

#[test]
fn shadows_in_the_default_world() {
    let w = World::<Fixed>::default().unwrap();
    assert_eq!(w.is_shadowed(&w.lights[0], &point(0, 10, 0)), Some(false));
    assert_eq!(w.is_shadowed(&w.lights[0], &point(10, -10, 10)), Some(true));
    assert_eq!(w.is_shadowed(&w.lights[0], &point(-20, 20, -20)), Some(false));
    assert_eq!(w.is_shadowed(&w.lights[0], &point(-2, 2, -2)), Some(false));
}

#[test]
fn trace_is_the_same_every_time() {
    let tracer = || {
        let placement = Transformation::view(point(0, 0, -5), point(0, 0, 0), vector(0, 1, 0)).unwrap();
        RayTracer::new(Camera::new(whole(5), whole(5), whole(90), placement), World::default().unwrap())
    };
    let first = tracer().trace(3).unwrap();
    let second = tracer().trace(3).unwrap();
    assert_eq!(first.flat(), second.flat());
    assert_eq!(first.flat().len(), 100);
    let middle = first.at(2, 2);
    assert!(close(middle.r, 0.38066, 1e-4) && close(middle.g, 0.47583, 1e-4));
    assert_eq!(Image::<Fixed>::clip2byte(middle.g.mul(whole(255))), 121);
}
