//! End-to-end tracing behavior: background, raw color, lighting, shadows,
//! reflection and tie-breaking.

use computer_graphics_from_scratch_rs::fx::FX_INF;
use computer_graphics_from_scratch_rs::primitive::{Color, Light, LightType, Sphere};
use computer_graphics_from_scratch_rs::raytracer::Scene;
use computer_graphics_from_scratch_rs::vec3::Vec3;

const BG: Color = Color { r: 10000, g: 20000, b: 30000, a: 255000 };
const RED: Color = Color { r: 255000, g: 0, b: 0, a: 255000 };
const BLUE: Color = Color { r: 0, g: 0, b: 255000, a: 255000 };

fn sphere(center: Vec3, radius: i64, color: Color) -> Sphere {
    Sphere { center, radius, color, specular: None, reflective: None }
}

fn ambient(intensity: i64) -> Light {
    Light { ty: LightType::Ambient, intensity }
}

#[test]
fn missing_ray_shows_background() {
    let scene = Scene::new(vec![sphere(Vec3::new(0, 0, 3000), 1000, RED)], BG);
    // Ray pointing away from the sphere: both roots are negative.
    let c = scene.trace_ray(Vec3::new(0, 0, 0), Vec3::new(0, 0, -1000), 1, FX_INF, None);
    assert_eq!(c, BG);
}

#[test]
fn empty_scene_shows_background() {
    let scene = Scene::new(Vec::new(), BG);
    let c = scene.trace_ray(Vec3::new(0, 0, 0), Vec3::new(0, 0, 1000), 1, FX_INF, Some(3));
    assert_eq!(c, BG);
}

#[test]
fn empty_range_shows_background() {
    // The sphere is hit at t == 2000 and t == 4000, both outside
    // (4500, 9000) and outside the empty range (9000, 4500) alike.
    let scene = Scene::new(vec![sphere(Vec3::new(0, 0, 3000), 1000, RED)], BG);
    let o = Vec3::new(0, 0, 0);
    let d = Vec3::new(0, 0, 1000);
    assert_eq!(scene.trace_ray(o, d, 4500, 9000, None), BG);
    assert_eq!(scene.trace_ray(o, d, 9000, 4500, None), BG);
}

#[test]
fn no_lights_gives_raw_color() {
    // With an empty light list a hit returns the stored color unshaded,
    // alpha included.
    let stored = Color { r: 255000, g: 12345, b: 7, a: 99000 };
    let scene = Scene::new(vec![sphere(Vec3::new(0, 0, 3000), 1000, stored)], BG);
    let c = scene.trace_ray(Vec3::new(0, 0, 0), Vec3::new(0, 0, 1000), 1, FX_INF, Some(5));
    assert_eq!(c, stored);
}

#[test]
fn ambient_only_scales_color() {
    // Ambient intensity 0.2 on a red sphere: color * 0.2, alpha forced
    // opaque.
    let scene = Scene::new(vec![sphere(Vec3::new(0, 0, 3000), 1000, RED)], BG)
        .with_lights(vec![ambient(200)]);
    let c = scene.trace_ray(Vec3::new(0, 0, 0), Vec3::new(0, 0, 1000), 1, FX_INF, None);
    assert_eq!(c, Color { r: 51000, g: 0, b: 0, a: 255000 });
}

#[test]
fn ambient_intensities_sum() {
    let scene = Scene::new(vec![sphere(Vec3::new(0, 0, 3000), 1000, RED)], BG)
        .with_lights(vec![ambient(200), ambient(300)]);
    let c = scene.trace_ray(Vec3::new(0, 0, 0), Vec3::new(0, 0, 1000), 1, FX_INF, None);
    assert_eq!(c, Color { r: 127500, g: 0, b: 0, a: 255000 });
}

#[test]
fn point_light_diffuse_contribution() {
    // Shaded point (0, 0, 2) on the sphere at (0, 0, 3); light of intensity
    // 0.6 at the origin. n_dot_l / (|N| |L|) == 1, so the light contributes
    // its full intensity.
    let scene = Scene::new(vec![sphere(Vec3::new(0, 0, 3000), 1000, RED)], BG)
        .with_lights(vec![Light { ty: LightType::Point(Vec3::new(0, 0, 0)), intensity: 600 }]);
    let p = Vec3::new(0, 0, 2000);
    let n = Vec3::new(0, 0, -1000);
    let v = Vec3::new(0, 0, -1000);
    assert_eq!(scene.compute_lighting(p, n, v, None), 600);
}

#[test]
fn specular_highlight_adds_on_top() {
    // Same geometry; the reflected light direction points straight at the
    // viewer, so the specular factor is 1.0 for any exponent and the light
    // contributes twice its intensity in total.
    let scene = Scene::new(vec![sphere(Vec3::new(0, 0, 3000), 1000, RED)], BG)
        .with_lights(vec![Light { ty: LightType::Point(Vec3::new(0, 0, 0)), intensity: 600 }]);
    let p = Vec3::new(0, 0, 2000);
    let n = Vec3::new(0, 0, -1000);
    let v = Vec3::new(0, 0, -1000);
    assert_eq!(scene.compute_lighting(p, n, v, Some(10)), 1200);
}

#[test]
fn directional_light_diffuse_contribution() {
    let scene = Scene::new(vec![sphere(Vec3::new(0, 0, 3000), 1000, RED)], BG)
        .with_lights(vec![Light {
            ty: LightType::Directional(Vec3::new(0, 0, -2000)),
            intensity: 500,
        }]);
    let p = Vec3::new(0, 0, 2000);
    let n = Vec3::new(0, 0, -1000);
    let v = Vec3::new(0, 0, -1000);
    assert_eq!(scene.compute_lighting(p, n, v, None), 500);
}

#[test]
fn shadow_zeroes_blocked_light() {
    // A small sphere at (0, 0, 1) sits between the light at the origin and
    // the shaded point (0, 0, 2): with shadow testing on, the point light
    // contributes nothing; without it, its full diffuse term.
    let shaded = sphere(Vec3::new(0, 0, 3000), 1000, RED);
    let occluder = sphere(Vec3::new(0, 0, 1000), 300, BLUE);
    let lights = vec![Light { ty: LightType::Point(Vec3::new(0, 0, 0)), intensity: 600 }];
    let p = Vec3::new(0, 0, 2000);
    let n = Vec3::new(0, 0, -1000);
    let v = Vec3::new(0, 0, -1000);

    let lit = Scene::new(vec![shaded, occluder], BG).with_lights(lights.clone());
    assert_eq!(lit.compute_lighting(p, n, v, None), 600);

    let shadowed = Scene::new(vec![shaded, occluder], BG).with_lights(lights).with_shadow();
    assert_eq!(shadowed.compute_lighting(p, n, v, None), 0);
}

#[test]
fn surface_does_not_shadow_itself() {
    // Shadow testing on, but no occluder: the lower ray-parameter bound of
    // the shadow ray keeps the surface from blocking its own light.
    let scene = Scene::new(vec![sphere(Vec3::new(0, 0, 3000), 1000, RED)], BG)
        .with_lights(vec![Light { ty: LightType::Point(Vec3::new(0, 0, 0)), intensity: 600 }])
        .with_shadow();
    let p = Vec3::new(0, 0, 2000);
    let n = Vec3::new(0, 0, -1000);
    let v = Vec3::new(0, 0, -1000);
    assert_eq!(scene.compute_lighting(p, n, v, None), 600);
}

fn reflective_sphere(weight: i64) -> Sphere {
    Sphere {
        center: Vec3::new(0, 0, 3000),
        radius: 1000,
        color: RED,
        specular: None,
        reflective: Some(weight),
    }
}

#[test]
fn depth_zero_disables_reflection() {
    // A fully reflective sphere with an exhausted depth budget shows its
    // depth-independent local color.
    let scene = Scene::new(vec![reflective_sphere(1000)], BG).with_lights(vec![ambient(200)]);
    let o = Vec3::new(0, 0, 0);
    let d = Vec3::new(0, 0, 1000);
    let local = Color { r: 51000, g: 0, b: 0, a: 255000 };
    assert_eq!(scene.trace_ray(o, d, 1, FX_INF, Some(0)), local);
    assert_eq!(scene.trace_ray(o, d, 1, FX_INF, None), local);
}

#[test]
fn full_reflection_shows_reflected_color() {
    // reflective == 1.0: the reflected ray (which misses into the
    // background) fully replaces the local RGB; alpha stays opaque.
    let scene = Scene::new(vec![reflective_sphere(1000)], BG).with_lights(vec![ambient(200)]);
    let c = scene.trace_ray(Vec3::new(0, 0, 0), Vec3::new(0, 0, 1000), 1, FX_INF, Some(1));
    assert_eq!(c, Color { r: BG.r, g: BG.g, b: BG.b, a: 255000 });
}

#[test]
fn partial_reflection_blends_proportionally() {
    // reflective == 0.5 blends local (51000, 0, 0) and background
    // (10000, 20000, 30000) half and half.
    let scene = Scene::new(vec![reflective_sphere(500)], BG).with_lights(vec![ambient(200)]);
    let c = scene.trace_ray(Vec3::new(0, 0, 0), Vec3::new(0, 0, 1000), 1, FX_INF, Some(1));
    assert_eq!(c, Color { r: 30500, g: 10000, b: 15000, a: 255000 });
}

#[test]
fn tie_break_selects_first_sphere() {
    // Two spheres with identical geometry hit at the identical parameter:
    // the one first in the list wins, in either order.
    let geom = Vec3::new(0, 0, 3000);
    let o = Vec3::new(0, 0, 0);
    let d = Vec3::new(0, 0, 1000);

    let red_first = Scene::new(vec![sphere(geom, 1000, RED), sphere(geom, 1000, BLUE)], BG);
    assert_eq!(red_first.closest_intersection(o, d, 1, FX_INF), Some((0, 2000)));
    assert_eq!(red_first.trace_ray(o, d, 1, FX_INF, None), RED);

    let blue_first = Scene::new(vec![sphere(geom, 1000, BLUE), sphere(geom, 1000, RED)], BG);
    assert_eq!(blue_first.closest_intersection(o, d, 1, FX_INF), Some((0, 2000)));
    assert_eq!(blue_first.trace_ray(o, d, 1, FX_INF, None), BLUE);
}

#[test]
fn range_bounds_are_strict() {
    // The sphere's roots are 2000 and 4000; a range opening exactly at 2000
    // excludes that root and selects the far one.
    let scene = Scene::new(vec![sphere(Vec3::new(0, 0, 3000), 1000, RED)], BG);
    let o = Vec3::new(0, 0, 0);
    let d = Vec3::new(0, 0, 1000);
    assert_eq!(scene.closest_intersection(o, d, 2000, 5000), Some((0, 4000)));
    assert_eq!(scene.closest_intersection(o, d, 1, 2000), None);
}

#[test]
fn builders_set_lights_and_shadow() {
    let scene = Scene::new(Vec::new(), BG);
    assert!(scene.lights.is_empty());
    assert!(!scene.shadow);
    let scene = scene.with_lights(vec![ambient(200)]).with_shadow();
    assert_eq!(scene.lights.len(), 1);
    assert!(scene.shadow);
}

#[test]
fn four_sphere_three_light_scene() {
    // A classic scene: three unit spheres in front of the camera and a huge
    // ground sphere, lit by ambient, point and directional lights. The
    // central ray grazes the first sphere at t == 3 and gathers
    // 0.2 (ambient) + 0.160 (point) + 0.139 (directional) of intensity.
    let spheres = vec![
        sphere(Vec3::new(0, -1000, 3000), 1000, RED),
        sphere(Vec3::new(-2000, 0, 4000), 1000, Color { r: 0, g: 255000, b: 0, a: 255000 }),
        sphere(Vec3::new(2000, 0, 4000), 1000, BLUE),
        sphere(
            Vec3::new(0, -5001000, 0),
            5000000,
            Color { r: 255000, g: 255000, b: 0, a: 255000 },
        ),
    ];
    let lights = vec![
        ambient(200),
        Light { ty: LightType::Point(Vec3::new(2000, 1000, 0)), intensity: 600 },
        Light { ty: LightType::Directional(Vec3::new(1000, 4000, 4000)), intensity: 200 },
    ];
    let o = Vec3::new(0, 0, 0);
    let d = Vec3::new(0, 0, 1000);

    let unlit = Scene::new(spheres.clone(), BG);
    assert_eq!(unlit.closest_intersection(o, d, 1000, FX_INF), Some((0, 3000)));
    assert_eq!(unlit.trace_ray(o, d, 1000, FX_INF, None), RED);

    let lit = Scene::new(spheres, BG).with_lights(lights);
    let c = lit.trace_ray(o, d, 1000, FX_INF, None);
    assert_eq!(c, Color { r: 127245, g: 0, b: 0, a: 255000 });
}

#[test]
fn nearest_sphere_wins_without_tie() {
    let o = Vec3::new(0, 0, 0);
    let d = Vec3::new(0, 0, 1000);
    let near = sphere(Vec3::new(0, 0, 3000), 1000, RED);
    let far = sphere(Vec3::new(0, 0, 8000), 1000, BLUE);
    let scene = Scene::new(vec![far, near], BG);
    assert_eq!(scene.closest_intersection(o, d, 1, FX_INF), Some((1, 2000)));
    assert_eq!(scene.trace_ray(o, d, 1, FX_INF, None), RED);
}
