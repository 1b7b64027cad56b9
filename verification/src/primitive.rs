//! Scene primitives: colors, spheres and lights.

use crate::fx::{fx_lerp, fx_lerp_s, fx_mul, fx_mul_s, fx_ok, ALPHA_OPAQUE, FX_MAX, SCALE};
use crate::vec3::{vec_ok, Vec3, Vec3M};
use vstd::prelude::*;

verus! {

/// An RGBA color; each channel is a fixed-point scalar, nominally covering
/// `[0, 255]` world units but deliberately not clamped to that range by the
/// tracer (presentation clamps, the core does not).
#[derive(Clone, Copy, Debug, PartialEq, Eq, Structural)]
pub struct Color {
    pub r: i64,
    pub g: i64,
    pub b: i64,
    pub a: i64,
}

/// Mathematical model of a color.
pub struct ColorM {
    pub r: int,
    pub g: int,
    pub b: int,
    pub a: int,
}

impl View for Color {
    type V = ColorM;

    open spec fn view(&self) -> ColorM {
        ColorM { r: self.r as int, g: self.g as int, b: self.b as int, a: self.a as int }
    }
}

/// All four channels are within the saturation range.
pub open spec fn color_ok(c: ColorM) -> bool {
    fx_ok(c.r) && fx_ok(c.g) && fx_ok(c.b) && fx_ok(c.a)
}

/// Color channels scaled by a light intensity; the alpha channel is forced to
/// fully opaque.
pub open spec fn scale_color_s(c: ColorM, intensity: int) -> ColorM {
    ColorM {
        r: fx_mul_s(c.r, intensity),
        g: fx_mul_s(c.g, intensity),
        b: fx_mul_s(c.b, intensity),
        a: ALPHA_OPAQUE as int,
    }
}

/// Componentwise blend of a local and a reflected color by a reflectivity
/// weight in `[0, SCALE]`; the alpha channel is forced to fully opaque.
pub open spec fn lerp_color_s(local: ColorM, reflected: ColorM, weight: int) -> ColorM {
    ColorM {
        r: fx_lerp_s(local.r, reflected.r, weight),
        g: fx_lerp_s(local.g, reflected.g, weight),
        b: fx_lerp_s(local.b, reflected.b, weight),
        a: ALPHA_OPAQUE as int,
    }
}

/// Scale a color's RGB channels by an intensity and force alpha opaque.
pub fn scale_color(color: Color, intensity: i64) -> (r: Color)
    ensures
        r@ == scale_color_s(color@, intensity as int),
        color_ok(r@),
{
    Color {
        r: fx_mul(color.r, intensity),
        g: fx_mul(color.g, intensity),
        b: fx_mul(color.b, intensity),
        a: ALPHA_OPAQUE,
    }
}

/// Blend a local and a reflected color by a reflectivity weight.
pub fn lerp_color(local: Color, reflected: Color, weight: i64) -> (r: Color)
    requires
        color_ok(local@),
        color_ok(reflected@),
        0 <= weight <= SCALE,
    ensures
        r@ == lerp_color_s(local@, reflected@, weight as int),
        color_ok(r@),
{
    Color {
        r: fx_lerp(local.r, reflected.r, weight),
        g: fx_lerp(local.g, reflected.g, weight),
        b: fx_lerp(local.b, reflected.b, weight),
        a: ALPHA_OPAQUE,
    }
}

/// A sphere: center, positive radius, surface color, and optional specular
/// exponent and reflectivity. An absent specular exponent means no highlight;
/// an absent (or zero) reflectivity disables mirror recursion.
#[derive(Clone, Copy, Debug)]
pub struct Sphere {
    pub center: Vec3,
    pub radius: i64,
    pub color: Color,
    pub specular: Option<u32>,
    pub reflective: Option<i64>,
}

/// Mathematical model of a sphere.
pub struct SphereM {
    pub center: Vec3M,
    pub radius: int,
    pub color: ColorM,
    pub specular: Option<int>,
    pub reflective: Option<int>,
}

/// Model of an optional specular exponent.
pub open spec fn specular_view(s: Option<u32>) -> Option<int> {
    match s {
        Some(e) => Some(e as int),
        None => None,
    }
}

impl View for Sphere {
    type V = SphereM;

    open spec fn view(&self) -> SphereM {
        SphereM {
            center: self.center@,
            radius: self.radius as int,
            color: self.color@,
            specular: specular_view(self.specular),
            reflective: match self.reflective {
                Some(w) => Some(w as int),
                None => None,
            },
        }
    }
}

/// Well-formed sphere: in-range center and color, positive in-range radius,
/// and a reflectivity weight within `[0, 1]` (`[0, SCALE]` in ticks) when
/// present.
pub open spec fn sphere_ok(s: SphereM) -> bool {
    &&& vec_ok(s.center)
    &&& 0 < s.radius <= FX_MAX
    &&& color_ok(s.color)
    &&& match s.reflective {
        Some(w) => 0 <= w <= SCALE,
        None => true,
    }
}

/// The three kinds of light source.
#[derive(Clone, Copy, Debug)]
pub enum LightType {
    /// Contributes its intensity unconditionally, everywhere.
    Ambient,
    /// A light at a position; occluders between it and the shaded point cast
    /// shadows, with the light itself at shadow-ray parameter 1.
    Point(Vec3),
    /// A light at infinity shining along a fixed direction; its shadow ray is
    /// unbounded.
    Directional(Vec3),
}

/// Mathematical model of a light kind.
pub enum LightTypeM {
    Ambient,
    Point(Vec3M),
    Directional(Vec3M),
}

impl View for LightType {
    type V = LightTypeM;

    open spec fn view(&self) -> LightTypeM {
        match *self {
            LightType::Ambient => LightTypeM::Ambient,
            LightType::Point(p) => LightTypeM::Point(p@),
            LightType::Directional(d) => LightTypeM::Directional(d@),
        }
    }
}

/// A light source: a kind together with a nonnegative intensity.
#[derive(Clone, Copy, Debug)]
pub struct Light {
    pub ty: LightType,
    pub intensity: i64,
}

/// Mathematical model of a light.
pub struct LightM {
    pub ty: LightTypeM,
    pub intensity: int,
}

impl View for Light {
    type V = LightM;

    open spec fn view(&self) -> LightM {
        LightM { ty: self.ty@, intensity: self.intensity as int }
    }
}

/// Well-formed light: nonnegative in-range intensity and an in-range
/// position or direction.
pub open spec fn light_ok(l: LightM) -> bool {
    &&& 0 <= l.intensity <= FX_MAX
    &&& match l.ty {
        LightTypeM::Ambient => true,
        LightTypeM::Point(p) => vec_ok(p),
        LightTypeM::Directional(d) => vec_ok(d),
    }
}

} // verus!
