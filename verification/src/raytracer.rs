//! The ray-tracing engine: nearest-intersection query, lighting evaluation
//! with shadow tests, and recursive mirror reflection, together with the
//! functional model every executable function is proved equal to.

use crate::fx::{
    fx_add, fx_add_s, fx_div, fx_div_s, fx_mul, fx_mul_s, fx_neg_s, fx_ok, fx_pow, fx_pow_s,
    fx_sqrt_s, fx_sub, fx_sub_s, FX_INF, SCALE, T_EPS,
};
use crate::primitive::{
    color_ok, lerp_color, lerp_color_s, light_ok, scale_color, scale_color_s, specular_view,
    sphere_ok, Color, ColorM, Light, LightM, LightType, LightTypeM, Sphere, SphereM,
};
use crate::vec3::{
    vadd_s, vdot_s, vec_ok, vmag_s, vneg_s, vnorm_s, vscale_s, vsub_s, Vec3, Vec3M,
};
use vstd::prelude::*;

verus! {

/// A scene: spheres, a background color, lights, and a flag enabling shadow
/// tests. Immutable during tracing.
pub struct Scene {
    pub spheres: Vec<Sphere>,
    pub background_color: Color,
    pub lights: Vec<Light>,
    pub shadow: bool,
}

/// Mathematical model of a scene.
pub struct SceneM {
    pub spheres: Seq<SphereM>,
    pub background_color: ColorM,
    pub lights: Seq<LightM>,
    pub shadow: bool,
}

impl View for Scene {
    type V = SceneM;

    open spec fn view(&self) -> SceneM {
        SceneM {
            spheres: self.spheres@.map_values(|s: Sphere| s@),
            background_color: self.background_color@,
            lights: self.lights@.map_values(|l: Light| l@),
            shadow: self.shadow,
        }
    }
}

/// Well-formed scene: every sphere and light well-formed, background color in
/// range.
pub open spec fn scene_ok(s: SceneM) -> bool {
    &&& forall|i: int| 0 <= i < s.spheres.len() ==> sphere_ok(#[trigger] s.spheres[i])
    &&& forall|i: int| 0 <= i < s.lights.len() ==> light_ok(#[trigger] s.lights[i])
    &&& color_ok(s.background_color)
}

/// First quadratic coefficient `k1 = d · d`.
pub open spec fn k1_s(d: Vec3M) -> int {
    vdot_s(d, d)
}

/// Second quadratic coefficient `k2 = 2 * (o - center) · d`.
pub open spec fn k2_s(o: Vec3M, d: Vec3M, s: SphereM) -> int {
    let co_dot_d = vdot_s(vsub_s(o, s.center), d);
    fx_add_s(co_dot_d, co_dot_d)
}

/// Third quadratic coefficient `k3 = (o - center) · (o - center) - radius^2`.
pub open spec fn k3_s(o: Vec3M, d: Vec3M, s: SphereM) -> int {
    let co = vsub_s(o, s.center);
    fx_sub_s(vdot_s(co, co), fx_mul_s(s.radius, s.radius))
}

/// Discriminant `k2^2 - 4 * k1 * k3` of the intersection quadratic.
pub open spec fn disc_s(o: Vec3M, d: Vec3M, s: SphereM) -> int {
    let k1 = k1_s(d);
    let four_k1 = fx_add_s(fx_add_s(k1, k1), fx_add_s(k1, k1));
    fx_sub_s(fx_mul_s(k2_s(o, d, s), k2_s(o, d, s)), fx_mul_s(four_k1, k3_s(o, d, s)))
}

/// The two intersection parameters of a ray with a sphere, `(FX_INF, FX_INF)`
/// when the discriminant is negative (the ray misses). The first component
/// uses the positive square root.
pub open spec fn roots_s(o: Vec3M, d: Vec3M, s: SphereM) -> (int, int) {
    if disc_s(o, d, s) < 0 {
        (FX_INF as int, FX_INF as int)
    } else {
        let k1 = k1_s(d);
        let k2 = k2_s(o, d, s);
        let sq = fx_sqrt_s(disc_s(o, d, s));
        let two_k1 = fx_add_s(k1, k1);
        (
            fx_div_s(fx_add_s(fx_neg_s(k2), sq), two_k1),
            fx_div_s(fx_sub_s(fx_neg_s(k2), sq), two_k1),
        )
    }
}

/// Does ray parameter `t` lie strictly inside the query range?
pub open spec fn in_range(t: int, min_t: int, max_t: int) -> bool {
    min_t < t && t < max_t
}

/// Is `u` one of the two intersection parameters of the ray with `s`?
pub open spec fn sphere_root(o: Vec3M, d: Vec3M, s: SphereM, u: int) -> bool {
    u == roots_s(o, d, s).0 || u == roots_s(o, d, s).1
}

/// One scan step of the nearest-intersection query: a candidate root replaces
/// the best so far only when it is in range and strictly smaller.
pub open spec fn better(
    best: Option<(int, int)>,
    idx: int,
    t: int,
    min_t: int,
    max_t: int,
) -> Option<(int, int)> {
    match best {
        None => if in_range(t, min_t, max_t) {
            Some((idx, t))
        } else {
            None
        },
        Some((bi, bt)) => if in_range(t, min_t, max_t) && t < bt {
            Some((idx, t))
        } else {
            best
        },
    }
}

/// Nearest intersection (sphere index and parameter) among the first `n`
/// spheres, scanning in list order and considering each sphere's two roots in
/// order. Strict comparison makes the earliest sphere win ties.
pub open spec fn best_hit_upto(
    spheres: Seq<SphereM>,
    o: Vec3M,
    d: Vec3M,
    min_t: int,
    max_t: int,
    n: int,
) -> Option<(int, int)>
    decreases n,
{
    if n <= 0 {
        None
    } else {
        let prev = best_hit_upto(spheres, o, d, min_t, max_t, n - 1);
        let roots = roots_s(o, d, spheres[n - 1]);
        better(better(prev, n - 1, roots.0, min_t, max_t), n - 1, roots.1, min_t, max_t)
    }
}

/// Nearest intersection of a ray with any sphere of the scene.
pub open spec fn best_hit(scene: SceneM, o: Vec3M, d: Vec3M, min_t: int, max_t: int) -> Option<
    (int, int),
> {
    best_hit_upto(scene.spheres, o, d, min_t, max_t, scene.spheres.len() as int)
}

/// Is the shadow ray from `p` toward a light along `ldir` blocked by any
/// sphere strictly inside `(T_EPS, t_max)`?
pub open spec fn shadow_blocked_s(scene: SceneM, p: Vec3M, ldir: Vec3M, t_max: int) -> bool {
    best_hit(scene, p, ldir, T_EPS as int, t_max) is Some
}

/// Reflection of `r` about the normal `n`: `2 * n * (n · r) - r`.
pub open spec fn reflect_s(r: Vec3M, n: Vec3M) -> Vec3M {
    let d = vdot_s(n, r);
    vsub_s(vscale_s(n, fx_add_s(d, d)), r)
}

/// Diffuse and specular contribution of one non-ambient light reaching `p`
/// along `ldir`, added onto the running intensity `acc`; a shadowed light
/// (when shadow testing is on) contributes nothing.
pub open spec fn non_ambient_contrib_s(
    scene: SceneM,
    p: Vec3M,
    n: Vec3M,
    v: Vec3M,
    specular: Option<int>,
    ldir: Vec3M,
    t_max: int,
    intensity: int,
    acc: int,
) -> int {
    if scene.shadow && shadow_blocked_s(scene, p, ldir, t_max) {
        acc
    } else {
        let ndl = vdot_s(n, ldir);
        let acc1 = if ndl > 0 {
            fx_add_s(acc, fx_div_s(fx_mul_s(intensity, ndl), fx_mul_s(vmag_s(n), vmag_s(ldir))))
        } else {
            acc
        };
        match specular {
            None => acc1,
            Some(e) => {
                let refl = reflect_s(ldir, n);
                let rdv = vdot_s(refl, v);
                if rdv > 0 {
                    fx_add_s(
                        acc1,
                        fx_mul_s(
                            intensity,
                            fx_pow_s(fx_div_s(rdv, fx_mul_s(vmag_s(refl), vmag_s(v))), e),
                        ),
                    )
                } else {
                    acc1
                }
            },
        }
    }
}

/// Contribution of one light on top of the running intensity `acc`. An
/// ambient light adds its intensity unconditionally; a point light aims at
/// its position with the light itself at shadow parameter 1 (`SCALE` ticks);
/// a directional light has a fixed direction and an unbounded shadow ray.
pub open spec fn light_contrib_s(
    scene: SceneM,
    p: Vec3M,
    n: Vec3M,
    v: Vec3M,
    specular: Option<int>,
    light: LightM,
    acc: int,
) -> int {
    match light.ty {
        LightTypeM::Ambient => fx_add_s(acc, light.intensity),
        LightTypeM::Point(pos) => non_ambient_contrib_s(
            scene,
            p,
            n,
            v,
            specular,
            vsub_s(pos, p),
            SCALE as int,
            light.intensity,
            acc,
        ),
        LightTypeM::Directional(dir) => non_ambient_contrib_s(
            scene,
            p,
            n,
            v,
            specular,
            dir,
            FX_INF as int,
            light.intensity,
            acc,
        ),
    }
}

/// Total lighting intensity gathered from the first `k` lights of the scene.
pub open spec fn lighting_upto_s(
    scene: SceneM,
    p: Vec3M,
    n: Vec3M,
    v: Vec3M,
    specular: Option<int>,
    k: int,
) -> int
    decreases k,
{
    if k <= 0 {
        0
    } else {
        light_contrib_s(
            scene,
            p,
            n,
            v,
            specular,
            scene.lights[k - 1],
            lighting_upto_s(scene, p, n, v, specular, k - 1),
        )
    }
}

/// Total lighting intensity at point `p` with surface normal `n`, view
/// direction `v` and optional specular exponent.
pub open spec fn lighting_s(
    scene: SceneM,
    p: Vec3M,
    n: Vec3M,
    v: Vec3M,
    specular: Option<int>,
) -> int {
    lighting_upto_s(scene, p, n, v, specular, scene.lights.len() as int)
}

/// One light's contribution keeps a nonnegative running intensity
/// nonnegative: each term added is itself nonnegative.
pub proof fn lemma_light_contrib_nonneg(
    scene: SceneM,
    p: Vec3M,
    n: Vec3M,
    v: Vec3M,
    specular: Option<int>,
    light: LightM,
    acc: int,
)
    requires
        light_ok(light),
        acc >= 0,
    ensures
        light_contrib_s(scene, p, n, v, specular, light, acc) >= 0,
{
    match light.ty {
        LightTypeM::Ambient => {},
        LightTypeM::Point(pos) => {
            lemma_non_ambient_contrib_nonneg(
                scene,
                p,
                n,
                v,
                specular,
                vsub_s(pos, p),
                SCALE as int,
                light.intensity,
                acc,
            );
        },
        LightTypeM::Directional(dir) => {
            lemma_non_ambient_contrib_nonneg(
                scene,
                p,
                n,
                v,
                specular,
                dir,
                FX_INF as int,
                light.intensity,
                acc,
            );
        },
    }
}

proof fn lemma_non_ambient_contrib_nonneg(
    scene: SceneM,
    p: Vec3M,
    n: Vec3M,
    v: Vec3M,
    specular: Option<int>,
    ldir: Vec3M,
    t_max: int,
    intensity: int,
    acc: int,
)
    requires
        intensity >= 0,
        acc >= 0,
    ensures
        non_ambient_contrib_s(scene, p, n, v, specular, ldir, t_max, intensity, acc) >= 0,
{
    if !(scene.shadow && shadow_blocked_s(scene, p, ldir, t_max)) {
        let ndl = vdot_s(n, ldir);
        let acc1 = if ndl > 0 {
            crate::fx::lemma_fx_mul_nonneg(intensity, ndl);
            crate::fx::lemma_fx_sqrt_nonneg(vdot_s(n, n));
            crate::fx::lemma_fx_sqrt_nonneg(vdot_s(ldir, ldir));
            crate::fx::lemma_fx_mul_nonneg(vmag_s(n), vmag_s(ldir));
            crate::fx::lemma_fx_div_nonneg(
                fx_mul_s(intensity, ndl),
                fx_mul_s(vmag_s(n), vmag_s(ldir)),
            );
            fx_add_s(
                acc,
                fx_div_s(fx_mul_s(intensity, ndl), fx_mul_s(vmag_s(n), vmag_s(ldir))),
            )
        } else {
            acc
        };
        match specular {
            None => {},
            Some(e) => {
                let refl = reflect_s(ldir, n);
                let rdv = vdot_s(refl, v);
                if rdv > 0 {
                    crate::fx::lemma_fx_sqrt_nonneg(vdot_s(refl, refl));
                    crate::fx::lemma_fx_sqrt_nonneg(vdot_s(v, v));
                    crate::fx::lemma_fx_mul_nonneg(vmag_s(refl), vmag_s(v));
                    crate::fx::lemma_fx_div_nonneg(rdv, fx_mul_s(vmag_s(refl), vmag_s(v)));
                    crate::fx::lemma_fx_pow_nonneg(
                        fx_div_s(rdv, fx_mul_s(vmag_s(refl), vmag_s(v))),
                        e,
                    );
                    crate::fx::lemma_fx_mul_nonneg(
                        intensity,
                        fx_pow_s(fx_div_s(rdv, fx_mul_s(vmag_s(refl), vmag_s(v))), e),
                    );
                }
            },
        }
    }
}

/// The gathered intensity of any prefix of the light list is nonnegative.
pub proof fn lemma_lighting_nonneg(
    scene: SceneM,
    p: Vec3M,
    n: Vec3M,
    v: Vec3M,
    specular: Option<int>,
    k: int,
)
    requires
        scene_ok(scene),
        k <= scene.lights.len(),
    ensures
        lighting_upto_s(scene, p, n, v, specular, k) >= 0,
    decreases k,
{
    if k > 0 {
        lemma_lighting_nonneg(scene, p, n, v, specular, k - 1);
        lemma_light_contrib_nonneg(
            scene,
            p,
            n,
            v,
            specular,
            scene.lights[k - 1],
            lighting_upto_s(scene, p, n, v, specular, k - 1),
        );
    }
}

/// The point `origin + t * direction` on a ray.
pub open spec fn ray_point_s(o: Vec3M, d: Vec3M, t: int) -> Vec3M {
    vadd_s(o, vscale_s(d, t))
}

/// Outward unit normal of sphere `i` at the ray point of parameter `t`.
pub open spec fn surface_normal_s(scene: SceneM, o: Vec3M, d: Vec3M, i: int, t: int) -> Vec3M {
    vnorm_s(vsub_s(ray_point_s(o, d, t), scene.spheres[i].center))
}

/// Locally shaded color of sphere `i` hit at parameter `t`: the sphere's
/// color scaled by the gathered lighting, alpha forced opaque.
pub open spec fn local_color_s(scene: SceneM, o: Vec3M, d: Vec3M, i: int, t: int) -> ColorM {
    let p = ray_point_s(o, d, t);
    let n = surface_normal_s(scene, o, d, i, t);
    scale_color_s(
        scene.spheres[i].color,
        lighting_s(scene, p, n, vneg_s(d), scene.spheres[i].specular),
    )
}

/// Depth budget carried by a trace call; an absent budget means no reflection.
pub open spec fn depth_view(depth: Option<u32>) -> int {
    match depth {
        Some(k) => k as int,
        None => 0,
    }
}

/// The color seen along a ray. A miss shows the background; with no lights a
/// hit shows the sphere's raw stored color; otherwise the hit is shaded
/// locally and, when the depth budget and the sphere's reflectivity allow,
/// blended with the color of the mirror-reflected ray.
pub open spec fn trace_ray_s(
    scene: SceneM,
    o: Vec3M,
    d: Vec3M,
    min_t: int,
    max_t: int,
    depth: int,
) -> ColorM
    decreases depth,
{
    match best_hit(scene, o, d, min_t, max_t) {
        None => scene.background_color,
        Some((i, t)) => {
            if scene.lights.len() == 0 {
                scene.spheres[i].color
            } else {
                let local = local_color_s(scene, o, d, i, t);
                let refl = match scene.spheres[i].reflective {
                    Some(w) => w,
                    None => 0,
                };
                if depth > 0 && refl > 0 {
                    let p = ray_point_s(o, d, t);
                    let rdir = reflect_s(vneg_s(d), surface_normal_s(scene, o, d, i, t));
                    lerp_color_s(
                        local,
                        trace_ray_s(scene, p, rdir, T_EPS as int, FX_INF as int, depth - 1),
                        refl,
                    )
                } else {
                    local
                }
            }
        },
    }
}

/// Ray/sphere intersection: the two ray parameters where the ray meets the
/// sphere's surface, `(FX_INF, FX_INF)` when it misses; the first component
/// uses the positive square root.
pub fn intersect_ray_sphere(o: Vec3, d: Vec3, sphere: &Sphere) -> (r: (i64, i64))
    requires
        vec_ok(d@),
    ensures
        (r.0 as int, r.1 as int) == roots_s(o@, d@, sphere@),
        disc_s(o@, d@, sphere@) < 0 <==> r == (FX_INF, FX_INF),
        fx_ok(r.0 as int) || r.0 == FX_INF,
        fx_ok(r.1 as int) || r.1 == FX_INF,
{
    let co = o.vsub(sphere.center);
    let k1: i64 = d.vdot(d);
    let co_dot_d: i64 = co.vdot(d);
    let k2: i64 = fx_add(co_dot_d, co_dot_d);
    let k3: i64 = fx_sub(co.vdot(co), fx_mul(sphere.radius, sphere.radius));

    let four_k1: i64 = fx_add(fx_add(k1, k1), fx_add(k1, k1));
    let discriminant: i64 = fx_sub(fx_mul(k2, k2), fx_mul(four_k1, k3));

    if discriminant < 0 {
        return (FX_INF, FX_INF);
    }

    let sq: i64 = crate::fx::fx_sqrt(discriminant);
    let two_k1: i64 = fx_add(k1, k1);
    let t1: i64 = fx_div(fx_add(crate::fx::fx_neg(k2), sq), two_k1);
    let t2: i64 = fx_div(fx_sub(crate::fx::fx_neg(k2), sq), two_k1);

    (t1, t2)
}

/// Relates the executable scan state to the model's best hit so far.
pub open spec fn hit_state_ok(
    best: Option<(int, int)>,
    closest: Option<usize>,
    closest_t: int,
) -> bool {
    match (best, closest) {
        (None, None) => closest_t == FX_INF as int,
        (Some((bi, bt)), Some(j)) => bi == j as int && bt == closest_t,
        _ => false,
    }
}

impl Scene {
    /// A scene of spheres over a background color, initially with no lights
    /// and no shadow testing.
    pub fn new(spheres: Vec<Sphere>, background_color: Color) -> (r: Scene)
        ensures
            r@ == (SceneM {
                spheres: spheres@.map_values(|s: Sphere| s@),
                background_color: background_color@,
                lights: Seq::<LightM>::empty(),
                shadow: false,
            }),
    {
        let r = Scene { spheres, background_color, lights: Vec::new(), shadow: false };
        proof {
            assert(r@.lights =~= Seq::<LightM>::empty());
        }
        r
    }

    /// The same scene lit by `lights`.
    pub fn with_lights(self, lights: Vec<Light>) -> (r: Scene)
        ensures
            r@ == (SceneM { lights: lights@.map_values(|l: Light| l@), ..self@ }),
    {
        Scene { lights, ..self }
    }

    /// The same scene with shadow testing enabled.
    pub fn with_shadow(self) -> (r: Scene)
        ensures
            r@ == (SceneM { shadow: true, ..self@ }),
    {
        Scene { shadow: true, ..self }
    }

    /// Reflection of the direction `r` about the normal `n`.
    fn reflect_ray(&self, r: Vec3, n: Vec3) -> (res: Vec3)
        requires
            vec_ok(r@),
            vec_ok(n@),
        ensures
            res@ == reflect_s(r@, n@),
            vec_ok(res@),
    {
        let d: i64 = n.vdot(r);
        n.vscale(fx_add(d, d)).vsub(r)
    }

    /// Index of the nearest sphere the ray meets strictly inside
    /// `(min_t, max_t)`, with the meeting parameter; `None` when it meets
    /// none. On a tie the sphere earliest in the list wins.
    pub fn closest_intersection(&self, o: Vec3, d: Vec3, min_t: i64, max_t: i64) -> (r: Option<
        (usize, i64),
    >)
        requires
            scene_ok(self@),
            vec_ok(d@),
        ensures
            match r {
                None => best_hit(self@, o@, d@, min_t as int, max_t as int) is None,
                Some((i, t)) => {
                    &&& best_hit(self@, o@, d@, min_t as int, max_t as int) == Some((
                        i as int,
                        t as int,
                    ))
                    &&& i < self@.spheres.len()
                    &&& fx_ok(t as int)
                },
            },
    {
        let mut closest_t: i64 = FX_INF;
        let mut closest: Option<usize> = None;
        let n: usize = self.spheres.len();
        let mut i: usize = 0;
        while i < n
            invariant
                0 <= i <= n,
                n == self@.spheres.len(),
                scene_ok(self@),
                vec_ok(d@),
                hit_state_ok(
                    best_hit_upto(self@.spheres, o@, d@, min_t as int, max_t as int, i as int),
                    closest,
                    closest_t as int,
                ),
                closest is Some ==> closest.unwrap() < n && fx_ok(closest_t as int),
            decreases n - i,
        {
            let roots = intersect_ray_sphere(o, d, &self.spheres[i]);
            let t1: i64 = roots.0;
            let t2: i64 = roots.1;
            proof {
                assert(self@.spheres[i as int] == self.spheres@[i as int]@);
            }
            if t1 < closest_t && min_t < t1 && t1 < max_t {
                closest_t = t1;
                closest = Some(i);
            }
            if t2 < closest_t && min_t < t2 && t2 < max_t {
                closest_t = t2;
                closest = Some(i);
            }
            i = i + 1;
        }
        match closest {
            Some(j) => Some((j, closest_t)),
            None => None,
        }
    }

    /// Diffuse and specular contribution of one non-ambient light, added onto
    /// the running intensity `acc`.
    fn add_non_ambient(
        &self,
        acc: i64,
        p: Vec3,
        n: Vec3,
        v: Vec3,
        specular: Option<u32>,
        ldir: Vec3,
        t_max: i64,
        intensity: i64,
    ) -> (r: i64)
        requires
            scene_ok(self@),
            vec_ok(n@),
            vec_ok(v@),
            vec_ok(ldir@),
        ensures
            r as int == non_ambient_contrib_s(
                self@,
                p@,
                n@,
                v@,
                specular_view(specular),
                ldir@,
                t_max as int,
                intensity as int,
                acc as int,
            ),
    {
        if self.shadow {
            let blocker = self.closest_intersection(p, ldir, T_EPS, t_max);
            if blocker.is_some() {
                return acc;
            }
        }
        let ndl: i64 = n.vdot(ldir);
        let mut out: i64 = acc;
        if ndl > 0 {
            out = fx_add(out, fx_div(fx_mul(intensity, ndl), fx_mul(n.vmag(), ldir.vmag())));
        }
        if let Some(e) = specular {
            let refl = self.reflect_ray(ldir, n);
            let rdv: i64 = refl.vdot(v);
            if rdv > 0 {
                out = fx_add(
                    out,
                    fx_mul(intensity, fx_pow(fx_div(rdv, fx_mul(refl.vmag(), v.vmag())), e)),
                );
            }
        }
        out
    }

    /// Total lighting intensity at point `p` with surface normal `n`, view
    /// direction `v` and optional specular exponent, summed over all lights
    /// with shadow tests applied when enabled.
    pub fn compute_lighting(&self, p: Vec3, n: Vec3, v: Vec3, specular: Option<u32>) -> (r: i64)
        requires
            scene_ok(self@),
            vec_ok(n@),
            vec_ok(v@),
        ensures
            r as int == lighting_s(self@, p@, n@, v@, specular_view(specular)),
            r >= 0,
    {
        proof {
            lemma_lighting_nonneg(
                self@,
                p@,
                n@,
                v@,
                specular_view(specular),
                self@.lights.len() as int,
            );
        }
        let mut intensity: i64 = 0;
        let nl: usize = self.lights.len();
        let mut k: usize = 0;
        while k < nl
            invariant
                0 <= k <= nl,
                nl == self@.lights.len(),
                scene_ok(self@),
                vec_ok(n@),
                vec_ok(v@),
                intensity as int == lighting_upto_s(
                    self@,
                    p@,
                    n@,
                    v@,
                    specular_view(specular),
                    k as int,
                ),
            decreases nl - k,
        {
            let light = self.lights[k];
            proof {
                assert(self@.lights[k as int] == self.lights@[k as int]@);
            }
            match light.ty {
                LightType::Ambient => {
                    intensity = fx_add(intensity, light.intensity);
                },
                LightType::Point(pos) => {
                    let ldir = pos.vsub(p);
                    intensity = self.add_non_ambient(
                        intensity,
                        p,
                        n,
                        v,
                        specular,
                        ldir,
                        SCALE,
                        light.intensity,
                    );
                },
                LightType::Directional(dir) => {
                    proof {
                        assert(light_ok(self@.lights[k as int]));
                    }
                    intensity = self.add_non_ambient(
                        intensity,
                        p,
                        n,
                        v,
                        specular,
                        dir,
                        FX_INF,
                        light.intensity,
                    );
                },
            }
            k = k + 1;
        }
        intensity
    }

    /// The color seen along the ray `origin + t * direction` for `t` strictly
    /// inside `(min_t, max_t)`, recursing on mirror reflection at most
    /// `recursion_depth` times (an absent depth disables reflection).
    pub fn trace_ray(
        &self,
        o: Vec3,
        d: Vec3,
        min_t: i64,
        max_t: i64,
        recursion_depth: Option<u32>,
    ) -> (r: Color)
        requires
            scene_ok(self@),
            vec_ok(o@),
            vec_ok(d@),
        ensures
            r@ == trace_ray_s(
                self@,
                o@,
                d@,
                min_t as int,
                max_t as int,
                depth_view(recursion_depth),
            ),
            color_ok(r@),
        decreases depth_view(recursion_depth),
    {
        let hit = self.closest_intersection(o, d, min_t, max_t);
        match hit {
            None => self.background_color,
            Some((idx, closest_t)) => {
                proof {
                    assert(self@.spheres[idx as int] == self.spheres@[idx as int]@);
                    assert(sphere_ok(self@.spheres[idx as int]));
                }
                if self.lights.len() == 0 {
                    proof {
                        assert(self@.lights.len() == 0);
                    }
                    return self.spheres[idx].color;
                }
                let sphere = self.spheres[idx];
                let p = o.vadd(d.vscale(closest_t));
                let n = p.vsub(sphere.center).vnorm();
                let intensity: i64 = self.compute_lighting(p, n, d.vneg(), sphere.specular);
                let local = scale_color(sphere.color, intensity);
                let depth: u32 = match recursion_depth {
                    Some(dep) => dep,
                    None => 0,
                };
                let refl: i64 = match sphere.reflective {
                    Some(w) => w,
                    None => 0,
                };
                if depth > 0 && refl > 0 {
                    let rdir = self.reflect_ray(d.vneg(), n);
                    let reflected = self.trace_ray(p, rdir, T_EPS, FX_INF, Some(depth - 1));
                    lerp_color(local, reflected, refl)
                } else {
                    local
                }
            },
        }
    }
}

} // verus!
