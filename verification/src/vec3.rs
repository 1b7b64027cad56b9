//! Three-component vectors over fixed-point scalars, used for positions,
//! directions and normals.

use crate::fx::{
    fx_add, fx_add_s, fx_div, fx_div_s, fx_mul, fx_mul_s, fx_neg, fx_neg_s, fx_ok, fx_sqrt,
    fx_sqrt_s, fx_sub, fx_sub_s, sdiv, fx_clamped, SCALE,
};
use vstd::prelude::*;

verus! {

/// A vector of three fixed-point scalars.
#[derive(Clone, Copy, Debug, PartialEq, Eq, Structural)]
pub struct Vec3 {
    pub x: i64,
    pub y: i64,
    pub z: i64,
}

/// Mathematical model of a vector: three unbounded integers.
pub struct Vec3M {
    pub x: int,
    pub y: int,
    pub z: int,
}

impl View for Vec3 {
    type V = Vec3M;

    open spec fn view(&self) -> Vec3M {
        Vec3M { x: self.x as int, y: self.y as int, z: self.z as int }
    }
}

/// All three components are within the saturation range.
pub open spec fn vec_ok(v: Vec3M) -> bool {
    fx_ok(v.x) && fx_ok(v.y) && fx_ok(v.z)
}

pub open spec fn vadd_s(a: Vec3M, b: Vec3M) -> Vec3M {
    Vec3M { x: fx_add_s(a.x, b.x), y: fx_add_s(a.y, b.y), z: fx_add_s(a.z, b.z) }
}

pub open spec fn vsub_s(a: Vec3M, b: Vec3M) -> Vec3M {
    Vec3M { x: fx_sub_s(a.x, b.x), y: fx_sub_s(a.y, b.y), z: fx_sub_s(a.z, b.z) }
}

pub open spec fn vneg_s(a: Vec3M) -> Vec3M {
    Vec3M { x: fx_neg_s(a.x), y: fx_neg_s(a.y), z: fx_neg_s(a.z) }
}

/// Componentwise scaling by a fixed-point factor.
pub open spec fn vscale_s(a: Vec3M, s: int) -> Vec3M {
    Vec3M { x: fx_mul_s(a.x, s), y: fx_mul_s(a.y, s), z: fx_mul_s(a.z, s) }
}

/// Dot product: the three tick products are summed exactly, then brought back
/// to scalar scale by one division, and saturated.
pub open spec fn vdot_s(a: Vec3M, b: Vec3M) -> int {
    fx_clamped(sdiv(a.x * b.x + a.y * b.y + a.z * b.z, SCALE as int))
}

/// Euclidean length.
pub open spec fn vmag_s(a: Vec3M) -> int {
    fx_sqrt_s(vdot_s(a, a))
}

/// Direction of `a` with (approximately) unit length; the zero vector (whose
/// length rounds to 0) maps to the zero vector.
pub open spec fn vnorm_s(a: Vec3M) -> Vec3M {
    let m = vmag_s(a);
    Vec3M { x: fx_div_s(a.x, m), y: fx_div_s(a.y, m), z: fx_div_s(a.z, m) }
}

impl Vec3 {
    pub fn new(x: i64, y: i64, z: i64) -> (r: Vec3)
        ensures
            r@ == (Vec3M { x: x as int, y: y as int, z: z as int }),
    {
        Vec3 { x, y, z }
    }

    pub fn vadd(self, o: Vec3) -> (r: Vec3)
        ensures
            r@ == vadd_s(self@, o@),
            vec_ok(r@),
    {
        Vec3 { x: fx_add(self.x, o.x), y: fx_add(self.y, o.y), z: fx_add(self.z, o.z) }
    }

    pub fn vsub(self, o: Vec3) -> (r: Vec3)
        ensures
            r@ == vsub_s(self@, o@),
            vec_ok(r@),
    {
        Vec3 { x: fx_sub(self.x, o.x), y: fx_sub(self.y, o.y), z: fx_sub(self.z, o.z) }
    }

    pub fn vneg(self) -> (r: Vec3)
        ensures
            r@ == vneg_s(self@),
            vec_ok(r@),
    {
        Vec3 { x: fx_neg(self.x), y: fx_neg(self.y), z: fx_neg(self.z) }
    }

    pub fn vscale(self, s: i64) -> (r: Vec3)
        ensures
            r@ == vscale_s(self@, s as int),
            vec_ok(r@),
    {
        Vec3 { x: fx_mul(self.x, s), y: fx_mul(self.y, s), z: fx_mul(self.z, s) }
    }

    /// Dot product of two in-range vectors.
    pub fn vdot(self, o: Vec3) -> (r: i64)
        requires
            vec_ok(self@),
            vec_ok(o@),
        ensures
            r as int == vdot_s(self@, o@),
            fx_ok(r as int),
    {
        proof {
            lemma_bounded_product(self.x as int, o.x as int);
            lemma_bounded_product(self.y as int, o.y as int);
            lemma_bounded_product(self.z as int, o.z as int);
        }
        let px: i128 = (self.x as i128) * (o.x as i128);
        let py: i128 = (self.y as i128) * (o.y as i128);
        let pz: i128 = (self.z as i128) * (o.z as i128);
        let s: i128 = px + py + pz;
        let q: i128 = crate::fx::sdiv128(s, SCALE as i128);
        crate::fx::clamp_to_fx(q)
    }

    /// Length of an in-range vector.
    pub fn vmag(self) -> (r: i64)
        requires
            vec_ok(self@),
        ensures
            r as int == vmag_s(self@),
            fx_ok(r as int),
            r >= 0,
    {
        let d: i64 = self.vdot(self);
        fx_sqrt(d)
    }

    /// Normalization of an in-range vector.
    pub fn vnorm(self) -> (r: Vec3)
        requires
            vec_ok(self@),
        ensures
            r@ == vnorm_s(self@),
            vec_ok(r@),
    {
        let m: i64 = self.vmag();
        Vec3 { x: fx_div(self.x, m), y: fx_div(self.y, m), z: fx_div(self.z, m) }
    }
}

/// Product of two in-range scalars stays far inside the 128-bit range.
proof fn lemma_bounded_product(a: int, b: int)
    requires
        fx_ok(a),
        fx_ok(b),
    ensures
        -0x1_0000_0000_0000_0000_0000_0000_0000 <= a * b <= 0x1_0000_0000_0000_0000_0000_0000_0000,
{
    assert(-0x1_0000_0000_0000_0000_0000_0000_0000 <= a * b
        <= 0x1_0000_0000_0000_0000_0000_0000_0000) by (nonlinear_arith)
        requires
            -20_000_000_000_000 <= a <= 20_000_000_000_000,
            -20_000_000_000_000 <= b <= 20_000_000_000_000,
    ;
}

} // verus!
