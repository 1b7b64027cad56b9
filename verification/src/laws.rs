//! Global laws of the tracer, proved against the functional model that the
//! executable functions are proved equal to.

use crate::fx::{
    abs_i, fx_add_s, fx_lerp_s, fx_mul_s, fx_ok, fx_sqrt_s, lemma_fx_lerp_between,
    lemma_fx_lerp_ends, lemma_sdiv_exact, lemma_sqrt_floor_unique, sdiv, FX_INF, FX_MAX, SCALE,
    T_EPS,
};
use crate::primitive::{
    color_ok, lerp_color_s, scale_color_s, sphere_ok, ColorM, LightM, LightTypeM,
};
use crate::raytracer::{
    best_hit, best_hit_upto, better, disc_s, in_range, k1_s, k2_s, k3_s, lighting_s,
    lighting_upto_s, local_color_s, non_ambient_contrib_s, ray_point_s, reflect_s, roots_s,
    scene_ok, shadow_blocked_s, sphere_root, surface_normal_s, trace_ray_s, SceneM,
};
use crate::vec3::{vdot_s, vmag_s, vneg_s, vscale_s, vsub_s, Vec3M};
use vstd::arithmetic::div_mod::lemma_fundamental_div_mod;
use vstd::prelude::*;

verus! {

/// The ray has no intersection parameter strictly inside `(min_t, max_t)`
/// with any sphere of the scene.
pub open spec fn ray_misses(scene: SceneM, o: Vec3M, d: Vec3M, min_t: int, max_t: int) -> bool {
    forall|j: int, u: int|
        0 <= j < scene.spheres.len() && #[trigger] sphere_root(o, d, scene.spheres[j], u)
            ==> !in_range(u, min_t, max_t)
}

/// What the nearest-intersection scan returns: `None` exactly when no sphere
/// has an in-range root; otherwise an in-range root that is minimal among all
/// in-range roots, achieved by the earliest sphere achieving it (all earlier
/// spheres' in-range roots are strictly larger).
pub proof fn lemma_best_hit_props(
    spheres: Seq<crate::primitive::SphereM>,
    o: Vec3M,
    d: Vec3M,
    min_t: int,
    max_t: int,
    n: int,
)
    requires
        0 <= n <= spheres.len(),
    ensures
        match best_hit_upto(spheres, o, d, min_t, max_t, n) {
            None => forall|j: int, u: int|
                0 <= j < n && #[trigger] sphere_root(o, d, spheres[j], u) ==> !in_range(
                    u,
                    min_t,
                    max_t,
                ),
            Some((i, t)) => {
                &&& 0 <= i < n
                &&& sphere_root(o, d, spheres[i], t)
                &&& in_range(t, min_t, max_t)
                &&& forall|j: int, u: int|
                    0 <= j < n && #[trigger] sphere_root(o, d, spheres[j], u) && in_range(
                        u,
                        min_t,
                        max_t,
                    ) ==> t <= u
                &&& forall|j: int, u: int|
                    0 <= j < i && #[trigger] sphere_root(o, d, spheres[j], u) && in_range(
                        u,
                        min_t,
                        max_t,
                    ) ==> t < u
            },
        },
    decreases n,
{
    if n > 0 {
        lemma_best_hit_props(spheres, o, d, min_t, max_t, n - 1);
        let prev = best_hit_upto(spheres, o, d, min_t, max_t, n - 1);
        let roots = roots_s(o, d, spheres[n - 1]);
        let mid = better(prev, n - 1, roots.0, min_t, max_t);
        let fin = better(mid, n - 1, roots.1, min_t, max_t);
        assert(best_hit_upto(spheres, o, d, min_t, max_t, n) == fin);
        assert(sphere_root(o, d, spheres[n - 1], roots.0));
        assert(sphere_root(o, d, spheres[n - 1], roots.1));
        match fin {
            None => {
                assert forall|j: int, u: int|
                    0 <= j < n && #[trigger] sphere_root(o, d, spheres[j], u) implies !in_range(
                    u,
                    min_t,
                    max_t,
                ) by {
                    if j < n - 1 {
                    } else {
                        assert(u == roots.0 || u == roots.1);
                    }
                }
            },
            Some((fi, ft)) => {
                assert forall|j: int, u: int|
                    0 <= j < n && #[trigger] sphere_root(o, d, spheres[j], u) && in_range(
                    u,
                    min_t,
                    max_t,
                ) implies ft <= u by {
                    if j == n - 1 {
                        assert(u == roots.0 || u == roots.1);
                    }
                }
                assert forall|j: int, u: int|
                    0 <= j < fi && #[trigger] sphere_root(o, d, spheres[j], u) && in_range(
                    u,
                    min_t,
                    max_t,
                ) implies ft < u by {
                    if fi == n - 1 {
                        match prev {
                            None => {},
                            Some((pi, pt)) => {
                                assert(ft < pt);
                            },
                        }
                    } else {
                        assert(fin == prev);
                    }
                }
            },
        }
    }
}

/// A ray that misses every sphere shows exactly the scene's background color,
/// whatever the query range and depth budget.
pub proof fn lemma_miss_gives_background(
    scene: SceneM,
    o: Vec3M,
    d: Vec3M,
    min_t: int,
    max_t: int,
    depth: int,
)
    requires
        ray_misses(scene, o, d, min_t, max_t),
    ensures
        trace_ray_s(scene, o, d, min_t, max_t, depth) == scene.background_color,
{
    lemma_best_hit_props(scene.spheres, o, d, min_t, max_t, scene.spheres.len() as int);
    match best_hit(scene, o, d, min_t, max_t) {
        None => {},
        Some((i, t)) => {
            assert(sphere_root(o, d, scene.spheres[i], t));
            assert(false);
        },
    }
}

/// With no lights at all, a hit shows the sphere's raw stored color — no
/// shading, no reflection, whatever the depth budget.
pub proof fn lemma_no_lights_gives_raw_color(
    scene: SceneM,
    o: Vec3M,
    d: Vec3M,
    min_t: int,
    max_t: int,
    depth: int,
    i: int,
    t: int,
)
    requires
        scene.lights.len() == 0,
        best_hit(scene, o, d, min_t, max_t) == Some((i, t)),
    ensures
        trace_ray_s(scene, o, d, min_t, max_t, depth) == scene.spheres[i].color,
{
}

/// The sphere index returned by the nearest-intersection query is the least
/// among the spheres achieving the minimal in-range parameter: every earlier
/// sphere's in-range roots are strictly larger, so on a tie the sphere first
/// in the list wins.
pub proof fn lemma_first_sphere_wins_ties(
    scene: SceneM,
    o: Vec3M,
    d: Vec3M,
    min_t: int,
    max_t: int,
    i: int,
    t: int,
    j: int,
    u: int,
)
    requires
        best_hit(scene, o, d, min_t, max_t) == Some((i, t)),
        0 <= j < i,
        sphere_root(o, d, scene.spheres[j], u),
        in_range(u, min_t, max_t),
    ensures
        t < u,
{
    lemma_best_hit_props(scene.spheres, o, d, min_t, max_t, scene.spheres.len() as int);
}

/// A ray grazing a sphere (zero discriminant) yields two equal intersection
/// parameters.
pub proof fn lemma_tangent_equal_roots(o: Vec3M, d: Vec3M, s: crate::primitive::SphereM)
    requires
        disc_s(o, d, s) == 0,
    ensures
        roots_s(o, d, s).0 == roots_s(o, d, s).1,
{
}

/// A ray passing strictly outside a sphere (negative discriminant) yields the
/// "no intersection" sentinel for both parameters.
pub proof fn lemma_negative_discriminant_misses(o: Vec3M, d: Vec3M, s: crate::primitive::SphereM)
    requires
        disc_s(o, d, s) < 0,
    ensures
        roots_s(o, d, s) == (FX_INF as int, FX_INF as int),
{
}

/// A concrete grazing ray: starting level with the center but offset
/// sideways by exactly the radius, and aimed along `+z` with a unit
/// direction, the ray is tangent — its discriminant is exactly 0 and both
/// intersection parameters equal `2 r` (the ray parameter level with the
/// center). Exact when the radius is a whole number of world units.
pub proof fn lemma_grazing_ray_is_tangent(s: crate::primitive::SphereM, o: Vec3M, d: Vec3M)
    requires
        sphere_ok(s),
        s.radius % (SCALE as int) == 0,
        s.radius <= 35_000_000,
        abs_i(s.center.x) <= 5_000_000_000_000,
        abs_i(s.center.y) <= 5_000_000_000_000,
        abs_i(s.center.z) <= 5_000_000_000_000,
        o == (Vec3M {
            x: s.center.x + s.radius,
            y: s.center.y,
            z: s.center.z - 2 * s.radius,
        }),
        d == (Vec3M { x: 0, y: 0, z: SCALE as int }),
    ensures
        disc_s(o, d, s) == 0,
        roots_s(o, d, s).0 == roots_s(o, d, s).1,
        roots_s(o, d, s).0 == 2 * s.radius,
{
    let r = s.radius;
    let m = r / (SCALE as int);
    lemma_fundamental_div_mod(r, SCALE as int);
    assert(r == 1000 * m);
    assert(1 <= m <= 35_000);
    assert(0 <= m * m <= 1_225_000_000) by (nonlinear_arith)
        requires
            1 <= m <= 35_000,
    ;

    let co = vsub_s(o, s.center);
    assert(co == (Vec3M { x: r, y: 0, z: -2 * r }));

    assert((0int) * 0 == 0 && (1000int) * 1000 == 1000000) by (nonlinear_arith);
    lemma_sdiv_exact(1000, 1000);
    assert(k1_s(d) == 1000);

    // co . d only sees the z components
    assert(r * 0 == 0 && (0int) * 0 == 0) by (nonlinear_arith);
    lemma_sdiv_exact(-2 * r, 1000);
    assert(co.z * d.z == (-2 * r) * 1000);
    assert(vdot_s(co, d) == -2 * r);
    assert(k2_s(o, d, s) == -4 * r);

    // co . co == 5 r^2 in world units
    assert(r * r + (0int) * 0 + (-2 * r) * (-2 * r) == (5000 * (m * m)) * 1000)
        by (nonlinear_arith)
        requires
            r == 1000 * m,
    ;
    lemma_sdiv_exact(5000 * (m * m), 1000);
    assert(vdot_s(co, co) == 5000 * (m * m));
    assert(r * r == (1000 * (m * m)) * 1000) by (nonlinear_arith)
        requires
            r == 1000 * m,
    ;
    lemma_sdiv_exact(1000 * (m * m), 1000);
    assert(k3_s(o, d, s) == 4000 * (m * m));

    // k2^2 and 4 k1 k3 agree: the discriminant vanishes
    assert((-4 * r) * (-4 * r) == (16000 * (m * m)) * 1000) by (nonlinear_arith)
        requires
            r == 1000 * m,
    ;
    lemma_sdiv_exact(16000 * (m * m), 1000);
    assert((4000int) * (4000 * (m * m)) == (16000 * (m * m)) * 1000) by (nonlinear_arith);
    assert(disc_s(o, d, s) == 0);

    // both roots are 2 r
    assert((4 * r) * 1000 == (2 * r) * 2000) by (nonlinear_arith);
    lemma_sdiv_exact(2 * r, 2000);
    assert(roots_s(o, d, s).0 == 2 * r);
    assert(roots_s(o, d, s).1 == 2 * r);
}

/// A concrete ray strictly outside: offset sideways by one and a half radii,
/// the same ray has a negative discriminant and yields the "no intersection"
/// sentinel for both parameters. Exact when the radius is a whole even
/// number of world units.
pub proof fn lemma_outside_ray_misses(s: crate::primitive::SphereM, o: Vec3M, d: Vec3M)
    requires
        sphere_ok(s),
        s.radius % (2 * SCALE as int) == 0,
        s.radius <= 30_000_000,
        abs_i(s.center.x) <= 5_000_000_000_000,
        abs_i(s.center.y) <= 5_000_000_000_000,
        abs_i(s.center.z) <= 5_000_000_000_000,
        o == (Vec3M {
            x: s.center.x + s.radius + s.radius / 2,
            y: s.center.y,
            z: s.center.z - 2 * s.radius,
        }),
        d == (Vec3M { x: 0, y: 0, z: SCALE as int }),
    ensures
        disc_s(o, d, s) < 0,
        roots_s(o, d, s) == (FX_INF as int, FX_INF as int),
{
    let r = s.radius;
    let q = r / (2 * SCALE as int);
    lemma_fundamental_div_mod(r, 2 * SCALE as int);
    assert(r == 2000 * q);
    assert(1 <= q <= 15_000);
    assert(0 <= q * q <= 225_000_000) by (nonlinear_arith)
        requires
            1 <= q <= 15_000,
    ;
    assert(r / 2 == 1000 * q) by {
        lemma_sdiv_exact(1000 * q, 2);
        assert((1000 * q) * 2 == 2000 * q) by (nonlinear_arith);
        assert(sdiv(2000 * q, 2) == r / 2);
    }

    let co = vsub_s(o, s.center);
    assert(co == (Vec3M { x: 3000 * q, y: 0, z: -4000 * q }));

    assert((0int) * 0 == 0 && (1000int) * 1000 == 1000000) by (nonlinear_arith);
    lemma_sdiv_exact(1000, 1000);
    assert(k1_s(d) == 1000);

    assert((3000 * q) * 0 == 0) by (nonlinear_arith);
    assert((-4000 * q) * 1000 == (-2 * r) * 1000) by (nonlinear_arith)
        requires
            r == 2000 * q,
    ;
    lemma_sdiv_exact(-2 * r, 1000);
    assert(vdot_s(co, d) == -2 * r);
    assert(k2_s(o, d, s) == -4 * r);
    assert(-4 * r == -8000 * q);

    // co . co == 6.25 r^2 in world units: 25000 q^2 ticks
    assert((3000 * q) * (3000 * q) + (0int) * 0 + (-4000 * q) * (-4000 * q) == (25000 * (q * q))
        * 1000) by (nonlinear_arith);
    lemma_sdiv_exact(25000 * (q * q), 1000);
    assert(vdot_s(co, co) == 25000 * (q * q));
    assert(r * r == (4000 * (q * q)) * 1000) by (nonlinear_arith)
        requires
            r == 2000 * q,
    ;
    lemma_sdiv_exact(4000 * (q * q), 1000);
    assert(k3_s(o, d, s) == 21000 * (q * q));

    // k2^2 falls short of 4 k1 k3 by 20000 q^2: the discriminant is negative
    assert((-8000 * q) * (-8000 * q) == (64000 * (q * q)) * 1000) by (nonlinear_arith);
    lemma_sdiv_exact(64000 * (q * q), 1000);
    assert((4000int) * (21000 * (q * q)) == (84000 * (q * q)) * 1000) by (nonlinear_arith);
    lemma_sdiv_exact(84000 * (q * q), 1000);
    assert(1 <= q * q) by (nonlinear_arith)
        requires
            1 <= q,
    ;
    assert(disc_s(o, d, s) == -20000 * (q * q));
    assert(disc_s(o, d, s) < 0);
}

/// With only ambient lights, the gathered intensity is exactly the
/// (saturating) sum of their intensities, independent of the shaded point,
/// the normal, the view direction and the specular exponent.
pub proof fn lemma_ambient_only_lighting(
    scene: SceneM,
    p: Vec3M,
    n: Vec3M,
    v: Vec3M,
    specular: Option<int>,
    k: int,
)
    requires
        0 <= k <= scene.lights.len(),
        forall|j: int| 0 <= j < scene.lights.len() ==> #[trigger] scene.lights[j].ty is Ambient,
    ensures
        lighting_upto_s(scene, p, n, v, specular, k) == ambient_sum_upto(scene.lights, k),
    decreases k,
{
    if k > 0 {
        lemma_ambient_only_lighting(scene, p, n, v, specular, k - 1);
    }
}

/// Saturating sum of the intensities of the first `k` lights.
pub open spec fn ambient_sum_upto(lights: Seq<LightM>, k: int) -> int
    decreases k,
{
    if k <= 0 {
        0
    } else {
        fx_add_s(ambient_sum_upto(lights, k - 1), lights[k - 1].intensity)
    }
}

/// A scene lit by a single ambient light of in-range intensity `a`, traced
/// with no depth budget, shows a hit sphere's color scaled by exactly `a`.
pub proof fn lemma_single_ambient_scales_color(
    scene: SceneM,
    o: Vec3M,
    d: Vec3M,
    min_t: int,
    max_t: int,
    i: int,
    t: int,
    a: int,
)
    requires
        scene.lights.len() == 1,
        scene.lights[0].ty is Ambient,
        scene.lights[0].intensity == a,
        0 <= a <= FX_MAX,
        best_hit(scene, o, d, min_t, max_t) == Some((i, t)),
    ensures
        trace_ray_s(scene, o, d, min_t, max_t, 0) == scale_color_s(
            scene.spheres[i].color,
            a,
        ),
{
    lemma_ambient_only_lighting(
        scene,
        ray_point_s(o, d, t),
        surface_normal_s(scene, o, d, i, t),
        vneg_s(d),
        scene.spheres[i].specular,
        1,
    );
    assert(ambient_sum_upto(scene.lights, 0) == 0);
    assert(ambient_sum_upto(scene.lights, 1) == fx_add_s(0, a));
}

/// Shadow law. With shadow testing enabled, a non-ambient light whose shadow
/// ray is blocked contributes nothing; with shadow testing disabled the same
/// light's contribution does not depend on the scene's spheres at all (so the
/// same geometry contributes its full diffuse and specular terms).
pub proof fn lemma_shadow_law(
    scene_on: SceneM,
    scene_off: SceneM,
    p: Vec3M,
    n: Vec3M,
    v: Vec3M,
    specular: Option<int>,
    ldir: Vec3M,
    t_max: int,
    intensity: int,
    acc: int,
)
    requires
        scene_on.shadow,
        !scene_off.shadow,
        shadow_blocked_s(scene_on, p, ldir, t_max),
    ensures
        non_ambient_contrib_s(scene_on, p, n, v, specular, ldir, t_max, intensity, acc) == acc,
        non_ambient_contrib_s(scene_off, p, n, v, specular, ldir, t_max, intensity, acc)
            == non_ambient_contrib_s(
            SceneM { spheres: Seq::empty(), ..scene_off },
            p,
            n,
            v,
            specular,
            ldir,
            t_max,
            intensity,
            acc,
        ),
{
}

/// Shadow law for a whole scene lit by one point light: when shadow testing
/// is on and some sphere blocks the ray from the shaded point to the light,
/// the gathered intensity is exactly 0.
pub proof fn lemma_shadowed_point_light_gives_darkness(
    scene: SceneM,
    p: Vec3M,
    n: Vec3M,
    v: Vec3M,
    specular: Option<int>,
    pos: Vec3M,
)
    requires
        scene.shadow,
        scene.lights.len() == 1,
        scene.lights[0].ty == LightTypeM::Point(pos),
        shadow_blocked_s(scene, p, vsub_s(pos, p), SCALE as int),
    ensures
        lighting_s(scene, p, n, v, specular) == 0,
{
    assert(lighting_upto_s(scene, p, n, v, specular, 0) == 0);
}

/// With the depth budget exhausted, a hit shows its locally shaded color
/// only, whatever the sphere's reflectivity.
pub proof fn lemma_depth_zero_is_local(
    scene: SceneM,
    o: Vec3M,
    d: Vec3M,
    min_t: int,
    max_t: int,
    i: int,
    t: int,
)
    requires
        best_hit(scene, o, d, min_t, max_t) == Some((i, t)),
        scene.lights.len() > 0,
    ensures
        trace_ray_s(scene, o, d, min_t, max_t, 0) == local_color_s(scene, o, d, i, t),
{
}

/// The traced color of a well-formed scene has all channels in range.
pub proof fn lemma_trace_color_ok(
    scene: SceneM,
    o: Vec3M,
    d: Vec3M,
    min_t: int,
    max_t: int,
    depth: int,
)
    requires
        scene_ok(scene),
    ensures
        color_ok(trace_ray_s(scene, o, d, min_t, max_t, depth)),
    decreases depth,
{
    match best_hit(scene, o, d, min_t, max_t) {
        None => {},
        Some((i, t)) => {
            lemma_best_hit_props(scene.spheres, o, d, min_t, max_t, scene.spheres.len() as int);
            assert(sphere_ok(scene.spheres[i]));
            if scene.lights.len() > 0 {
                let refl = match scene.spheres[i].reflective {
                    Some(w) => w,
                    None => 0,
                };
                if depth > 0 && refl > 0 {
                    let p = ray_point_s(o, d, t);
                    let rdir = reflect_s(vneg_s(d), surface_normal_s(scene, o, d, i, t));
                    lemma_trace_color_ok(scene, p, rdir, T_EPS as int, FX_INF as int, depth - 1);
                }
            }
        },
    }
}

/// With a positive depth budget, a hit on a reflective sphere blends the
/// local color and the reflected ray's color by exactly the sphere's
/// reflectivity weight.
pub proof fn lemma_reflection_blend(
    scene: SceneM,
    o: Vec3M,
    d: Vec3M,
    min_t: int,
    max_t: int,
    depth: int,
    i: int,
    t: int,
    w: int,
)
    requires
        best_hit(scene, o, d, min_t, max_t) == Some((i, t)),
        scene.lights.len() > 0,
        scene.spheres[i].reflective == Some(w),
        w > 0,
        depth > 0,
    ensures
        trace_ray_s(scene, o, d, min_t, max_t, depth) == lerp_color_s(
            local_color_s(scene, o, d, i, t),
            trace_ray_s(
                scene,
                ray_point_s(o, d, t),
                reflect_s(vneg_s(d), surface_normal_s(scene, o, d, i, t)),
                T_EPS as int,
                FX_INF as int,
                depth - 1,
            ),
            w,
        ),
{
}

/// A fully reflective sphere (`reflective == 1`, i.e. `SCALE` ticks) hit with
/// a positive depth budget shows exactly the reflected ray's color (alpha
/// forced opaque): the local color does not enter the blend at weight 1.
pub proof fn lemma_full_reflection(
    scene: SceneM,
    o: Vec3M,
    d: Vec3M,
    min_t: int,
    max_t: int,
    depth: int,
    i: int,
    t: int,
)
    requires
        scene_ok(scene),
        best_hit(scene, o, d, min_t, max_t) == Some((i, t)),
        scene.lights.len() > 0,
        scene.spheres[i].reflective == Some(SCALE as int),
        depth > 0,
    ensures
        ({
            let reflected = trace_ray_s(
                scene,
                ray_point_s(o, d, t),
                reflect_s(vneg_s(d), surface_normal_s(scene, o, d, i, t)),
                T_EPS as int,
                FX_INF as int,
                depth - 1,
            );
            trace_ray_s(scene, o, d, min_t, max_t, depth) == (ColorM {
                r: reflected.r,
                g: reflected.g,
                b: reflected.b,
                a: crate::fx::ALPHA_OPAQUE as int,
            })
        }),
{
    lemma_reflection_blend(scene, o, d, min_t, max_t, depth, i, t, SCALE as int);
    let local = local_color_s(scene, o, d, i, t);
    let reflected = trace_ray_s(
        scene,
        ray_point_s(o, d, t),
        reflect_s(vneg_s(d), surface_normal_s(scene, o, d, i, t)),
        T_EPS as int,
        FX_INF as int,
        depth - 1,
    );
    lemma_trace_color_ok(
        scene,
        ray_point_s(o, d, t),
        reflect_s(vneg_s(d), surface_normal_s(scene, o, d, i, t)),
        T_EPS as int,
        FX_INF as int,
        depth - 1,
    );
    lemma_fx_lerp_ends(local.r, reflected.r);
    lemma_fx_lerp_ends(local.g, reflected.g);
    lemma_fx_lerp_ends(local.b, reflected.b);
}

/// Intersection round trip. A ray starting two radii before a sphere's
/// center and aimed through it along `+z` with a unit direction meets the
/// surface at parameters `3 r` (far side, positive square root) and `r`
/// (near side), and both ray points lie at distance exactly `r` from the
/// center. Exact when the radius is a whole number of world units (a
/// multiple of `SCALE` ticks) and the geometry keeps clear of saturation.
pub proof fn lemma_intersection_round_trip(s: crate::primitive::SphereM, o: Vec3M, d: Vec3M)
    requires
        sphere_ok(s),
        s.radius % (SCALE as int) == 0,
        s.radius <= 35_000_000,
        abs_i(s.center.x) <= 5_000_000_000_000,
        abs_i(s.center.y) <= 5_000_000_000_000,
        abs_i(s.center.z) <= 5_000_000_000_000,
        o == (Vec3M { x: s.center.x, y: s.center.y, z: s.center.z - 2 * s.radius }),
        d == (Vec3M { x: 0, y: 0, z: SCALE as int }),
    ensures
        roots_s(o, d, s) == (3 * s.radius, s.radius),
        vmag_s(vsub_s(ray_point_s(o, d, 3 * s.radius), s.center)) == s.radius,
        vmag_s(vsub_s(ray_point_s(o, d, s.radius), s.center)) == s.radius,
{
    let r = s.radius;
    let m = r / (SCALE as int);
    lemma_fundamental_div_mod(r, SCALE as int);
    assert(r == 1000 * m);
    assert(1 <= m <= 35_000);
    assert(0 <= m * m <= 1_225_000_000) by (nonlinear_arith)
        requires
            1 <= m <= 35_000,
    ;

    let co = vsub_s(o, s.center);
    assert(co == (Vec3M { x: 0, y: 0, z: -2 * r }));

    // k1 = d . d  (unit z direction)
    assert((0int) * 0 == 0 && (1000int) * 1000 == 1000000) by (nonlinear_arith);
    lemma_sdiv_exact(1000, 1000);
    assert(sdiv(1000000, 1000) == 1000);
    assert(k1_s(d) == 1000);

    // k2 = 2 * (co . d)
    lemma_sdiv_exact(-2 * r, 1000);
    assert(co.z * d.z == (-2 * r) * 1000);
    assert(vdot_s(co, d) == -2 * r);
    assert(k2_s(o, d, s) == -4 * r);

    // k3 = co . co - r^2
    assert((-2 * r) * (-2 * r) == (4000 * (m * m)) * 1000) by (nonlinear_arith)
        requires
            r == 1000 * m,
    ;
    lemma_sdiv_exact(4000 * (m * m), 1000);
    assert(vdot_s(co, co) == 4000 * (m * m));
    assert(r * r == (1000 * (m * m)) * 1000) by (nonlinear_arith)
        requires
            r == 1000 * m,
    ;
    lemma_sdiv_exact(1000 * (m * m), 1000);
    assert(fx_mul_s(r, r) == 1000 * (m * m));
    assert(k3_s(o, d, s) == 3000 * (m * m));

    // discriminant = k2^2 - 4 k1 k3 = 4000 m^2 (= 4 r^2 in world units)
    assert((-4 * r) * (-4 * r) == (16000 * (m * m)) * 1000) by (nonlinear_arith)
        requires
            r == 1000 * m,
    ;
    lemma_sdiv_exact(16000 * (m * m), 1000);
    assert((4000int) * (3000 * (m * m)) == (12000 * (m * m)) * 1000) by (nonlinear_arith);
    lemma_sdiv_exact(12000 * (m * m), 1000);
    assert(disc_s(o, d, s) == 4000 * (m * m));
    assert(1 <= m * m) by (nonlinear_arith)
        requires
            1 <= m,
    ;

    // square root of the discriminant is exactly 2 r
    assert((4000 * (m * m)) * 1000 == (2000 * m) * (2000 * m)) by (nonlinear_arith);
    assert((2000 * m) * (2000 * m) < (2000 * m + 1) * (2000 * m + 1)) by (nonlinear_arith)
        requires
            1 <= m,
    ;
    lemma_sqrt_floor_unique((4000 * (m * m)) * 1000, 2000 * m);
    assert(fx_sqrt_s(disc_s(o, d, s)) == 2 * r);

    // roots (3 r, r)
    assert((6 * r) * 1000 == (3 * r) * 2000) by (nonlinear_arith);
    lemma_sdiv_exact(3 * r, 2000);
    assert((2 * r) * 1000 == r * 2000) by (nonlinear_arith);
    lemma_sdiv_exact(r, 2000);
    assert(roots_s(o, d, s) == (3 * r, r));

    // the far ray point is center + (0, 0, r)
    assert((0int) * (3 * r) == 0 && (1000int) * (3 * r) == (3 * r) * 1000) by (nonlinear_arith);
    lemma_sdiv_exact(3 * r, 1000);
    assert(vscale_s(d, 3 * r) == (Vec3M { x: 0, y: 0, z: 3 * r }));
    assert(ray_point_s(o, d, 3 * r) == (Vec3M {
        x: s.center.x,
        y: s.center.y,
        z: s.center.z + r,
    }));
    assert(vsub_s(ray_point_s(o, d, 3 * r), s.center) == (Vec3M { x: 0, y: 0, z: r }));

    // the near ray point is center - (0, 0, r)
    assert((0int) * r == 0 && (1000int) * r == r * 1000) by (nonlinear_arith);
    lemma_sdiv_exact(r, 1000);
    assert(vscale_s(d, r) == (Vec3M { x: 0, y: 0, z: r }));
    assert(ray_point_s(o, d, r) == (Vec3M { x: s.center.x, y: s.center.y, z: s.center.z - r }));
    assert(vsub_s(ray_point_s(o, d, r), s.center) == (Vec3M { x: 0, y: 0, z: -r }));

    // both points lie at distance exactly r from the center
    assert((-r) * (-r) == r * r) by (nonlinear_arith);
    assert((1000 * (m * m)) * 1000 == (1000 * m) * (1000 * m)) by (nonlinear_arith);
    assert((1000 * m) * (1000 * m) < (1000 * m + 1) * (1000 * m + 1)) by (nonlinear_arith)
        requires
            1 <= m,
    ;
    lemma_sqrt_floor_unique((1000 * (m * m)) * 1000, 1000 * m);
    assert(vmag_s(Vec3M { x: 0, y: 0, z: r }) == r);
    assert(vmag_s(Vec3M { x: 0, y: 0, z: -r }) == r);
}

/// Each color channel of a reflective blend lies between the corresponding
/// channels of the local and the reflected color.
pub proof fn lemma_blend_channel_between(a: int, b: int, w: int)
    requires
        fx_ok(a),
        fx_ok(b),
        0 <= w <= SCALE,
    ensures
        a <= b ==> a <= fx_lerp_s(a, b, w) <= b,
        b <= a ==> b <= fx_lerp_s(a, b, w) <= a,
{
    if a <= b {
        lemma_fx_lerp_between(a, b, w);
    } else {
        lemma_fx_lerp_between(b, a, (SCALE as int) - w);
        assert(a * (SCALE - w) + b * w == b * (SCALE - (SCALE - w)) + a * (SCALE - w)) by (nonlinear_arith);
    }
}

} // verus!
