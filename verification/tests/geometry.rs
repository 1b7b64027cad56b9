//! Vector arithmetic and ray/sphere intersection geometry.

use computer_graphics_from_scratch_rs::fx::FX_INF;
use computer_graphics_from_scratch_rs::primitive::{Color, Sphere};
use computer_graphics_from_scratch_rs::raytracer::intersect_ray_sphere;
use computer_graphics_from_scratch_rs::vec3::Vec3;

fn plain_sphere(center: Vec3, radius: i64) -> Sphere {
    Sphere {
        center,
        radius,
        color: Color { r: 255000, g: 0, b: 0, a: 255000 },
        specular: None,
        reflective: None,
    }
}

#[test]
fn vector_componentwise_ops() {
    let a = Vec3::new(1000, 2000, 3000);
    let b = Vec3::new(4000, 5000, 6000);
    assert_eq!(a.vadd(b), Vec3::new(5000, 7000, 9000));
    assert_eq!(b.vsub(a), Vec3::new(3000, 3000, 3000));
    assert_eq!(a.vneg(), Vec3::new(-1000, -2000, -3000));
    assert_eq!(a.vscale(2000), Vec3::new(2000, 4000, 6000));
}

#[test]
fn dot_product_and_magnitude() {
    let a = Vec3::new(1000, 2000, 3000);
    let b = Vec3::new(4000, 5000, 6000);
    // 1*4 + 2*5 + 3*6 == 32
    assert_eq!(a.vdot(b), 32000);
    // |(3, 4, 0)| == 5
    assert_eq!(Vec3::new(3000, 4000, 0).vmag(), 5000);
}

#[test]
fn normalization_gives_unit_direction() {
    let v = Vec3::new(3000, 4000, 0);
    let n = v.vnorm();
    assert_eq!(n, Vec3::new(600, 800, 0));
    assert_eq!(n.vmag(), 1000);
}

#[test]
fn normalization_of_zero_vector_is_zero() {
    assert_eq!(Vec3::new(0, 0, 0).vnorm(), Vec3::new(0, 0, 0));
}

#[test]
fn intersection_round_trip_on_axis() {
    // Sphere of radius 1 at (0, 0, 3); ray from two radii before the center,
    // aimed along +z: roots 3r and r, both points at distance r.
    let s = plain_sphere(Vec3::new(0, 0, 3000), 1000);
    let o = Vec3::new(0, 0, 1000);
    let d = Vec3::new(0, 0, 1000);
    let (t1, t2) = intersect_ray_sphere(o, d, &s);
    assert_eq!((t1, t2), (3000, 1000));

    let p1 = o.vadd(d.vscale(t1));
    let p2 = o.vadd(d.vscale(t2));
    assert_eq!(p1, Vec3::new(0, 0, 4000));
    assert_eq!(p2, Vec3::new(0, 0, 2000));
    assert_eq!(p1.vsub(s.center).vmag(), 1000);
    assert_eq!(p2.vsub(s.center).vmag(), 1000);
}

#[test]
fn tangent_ray_has_equal_roots() {
    // Ray grazing the sphere of radius 1 at (0, 0, 2) along the line x == 1.
    let s = plain_sphere(Vec3::new(0, 0, 2000), 1000);
    let o = Vec3::new(1000, 0, 0);
    let d = Vec3::new(0, 0, 1000);
    let (t1, t2) = intersect_ray_sphere(o, d, &s);
    assert_eq!(t1, t2);
    assert_eq!(t1, 2000);
}

#[test]
fn strictly_outside_ray_misses() {
    let s = plain_sphere(Vec3::new(0, 0, 2000), 1000);
    let o = Vec3::new(1500, 0, 0);
    let d = Vec3::new(0, 0, 1000);
    assert_eq!(intersect_ray_sphere(o, d, &s), (FX_INF, FX_INF));
}

#[test]
fn backward_ray_has_negative_roots() {
    let s = plain_sphere(Vec3::new(0, 0, 3000), 1000);
    let o = Vec3::new(0, 0, 0);
    let d = Vec3::new(0, 0, -1000);
    assert_eq!(intersect_ray_sphere(o, d, &s), (-2000, -4000));
}
