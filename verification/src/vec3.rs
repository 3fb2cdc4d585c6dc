//! Three-component vectors of fixed-point scalars.
use vstd::prelude::*;

use crate::fixed::{clip, div_val, mul_val, sqrt_val, Fx};

verus! {

/// A point, velocity or gradient in simulation space.
#[derive(Clone, Copy, Debug, PartialEq, Eq, Structural)]
pub struct Vec3 {
    pub x: Fx,
    pub y: Fx,
    pub z: Fx,
}

impl Vec3 {
    pub open spec fn wf(self) -> bool {
        self.x.wf() && self.y.wf() && self.z.wf()
    }

    pub open spec fn is_zero(self) -> bool {
        self.x.raw == 0 && self.y.raw == 0 && self.z.raw == 0
    }

    pub open spec fn add_spec(self, o: Vec3) -> Vec3 {
        Vec3 {
            x: Fx { raw: clip(self.x.raw + o.x.raw) as i64 },
            y: Fx { raw: clip(self.y.raw + o.y.raw) as i64 },
            z: Fx { raw: clip(self.z.raw + o.z.raw) as i64 },
        }
    }

    pub open spec fn sub_spec(self, o: Vec3) -> Vec3 {
        Vec3 {
            x: Fx { raw: clip(self.x.raw - o.x.raw) as i64 },
            y: Fx { raw: clip(self.y.raw - o.y.raw) as i64 },
            z: Fx { raw: clip(self.z.raw - o.z.raw) as i64 },
        }
    }

    pub open spec fn scale_spec(self, s: Fx) -> Vec3 {
        Vec3 {
            x: Fx { raw: mul_val(self.x.raw as int, s.raw as int) as i64 },
            y: Fx { raw: mul_val(self.y.raw as int, s.raw as int) as i64 },
            z: Fx { raw: mul_val(self.z.raw as int, s.raw as int) as i64 },
        }
    }

    pub open spec fn div_scalar_spec(self, s: Fx) -> Vec3 {
        Vec3 {
            x: Fx { raw: div_val(self.x.raw as int, s.raw as int) as i64 },
            y: Fx { raw: div_val(self.y.raw as int, s.raw as int) as i64 },
            z: Fx { raw: div_val(self.z.raw as int, s.raw as int) as i64 },
        }
    }

    pub open spec fn dot_spec(self, o: Vec3) -> Fx {
        Fx {
            raw: clip(
                clip(
                    mul_val(self.x.raw as int, o.x.raw as int) + mul_val(
                        self.y.raw as int,
                        o.y.raw as int,
                    ),
                ) + mul_val(self.z.raw as int, o.z.raw as int),
            ) as i64,
        }
    }

    pub open spec fn cross_spec(self, o: Vec3) -> Vec3 {
        Vec3 {
            x: Fx {
                raw: clip(
                    mul_val(self.y.raw as int, o.z.raw as int) - mul_val(
                        self.z.raw as int,
                        o.y.raw as int,
                    ),
                ) as i64,
            },
            y: Fx {
                raw: clip(
                    mul_val(self.z.raw as int, o.x.raw as int) - mul_val(
                        self.x.raw as int,
                        o.z.raw as int,
                    ),
                ) as i64,
            },
            z: Fx {
                raw: clip(
                    mul_val(self.x.raw as int, o.y.raw as int) - mul_val(
                        self.y.raw as int,
                        o.x.raw as int,
                    ),
                ) as i64,
            },
        }
    }

    pub open spec fn length_squared_spec(self) -> Fx {
        self.dot_spec(self)
    }

    pub open spec fn length_spec(self) -> Fx {
        Fx { raw: sqrt_val(self.length_squared_spec().raw as int) as i64 }
    }

    pub open spec fn distance_squared_spec(self, o: Vec3) -> Fx {
        self.sub_spec(o).length_squared_spec()
    }

    pub open spec fn distance_spec(self, o: Vec3) -> Fx {
        self.sub_spec(o).length_spec()
    }

    pub fn new(x: Fx, y: Fx, z: Fx) -> (r: Vec3)
        ensures
            r == (Vec3 { x, y, z }),
    {
        Vec3 { x, y, z }
    }

    pub fn zero() -> (r: Vec3)
        ensures
            r.is_zero(),
            r.wf(),
            r == (Vec3 { x: Fx { raw: 0 }, y: Fx { raw: 0 }, z: Fx { raw: 0 } }),
    {
        Vec3 { x: Fx { raw: 0 }, y: Fx { raw: 0 }, z: Fx { raw: 0 } }
    }

    pub fn add(self, o: Vec3) -> (r: Vec3)
        requires
            self.wf(),
            o.wf(),
        ensures
            r == self.add_spec(o),
            r.wf(),
    {
        Vec3 { x: self.x.add(o.x), y: self.y.add(o.y), z: self.z.add(o.z) }
    }

    pub fn sub(self, o: Vec3) -> (r: Vec3)
        requires
            self.wf(),
            o.wf(),
        ensures
            r == self.sub_spec(o),
            r.wf(),
    {
        Vec3 { x: self.x.sub(o.x), y: self.y.sub(o.y), z: self.z.sub(o.z) }
    }

    pub fn scale(self, s: Fx) -> (r: Vec3)
        requires
            self.wf(),
            s.wf(),
        ensures
            r == self.scale_spec(s),
            r.wf(),
    {
        Vec3 { x: self.x.mul(s), y: self.y.mul(s), z: self.z.mul(s) }
    }

    pub fn div_scalar(self, s: Fx) -> (r: Vec3)
        requires
            self.wf(),
            s.wf(),
            s.raw != 0,
        ensures
            r == self.div_scalar_spec(s),
            r.wf(),
    {
        Vec3 { x: self.x.div(s), y: self.y.div(s), z: self.z.div(s) }
    }

    pub fn neg(self) -> (r: Vec3)
        requires
            self.wf(),
        ensures
            r == (Vec3 {
                x: Fx { raw: (-self.x.raw) as i64 },
                y: Fx { raw: (-self.y.raw) as i64 },
                z: Fx { raw: (-self.z.raw) as i64 },
            }),
            r.wf(),
    {
        Vec3 { x: self.x.neg(), y: self.y.neg(), z: self.z.neg() }
    }

    pub fn dot(self, o: Vec3) -> (r: Fx)
        requires
            self.wf(),
            o.wf(),
        ensures
            r == self.dot_spec(o),
            r.wf(),
    {
        self.x.mul(o.x).add(self.y.mul(o.y)).add(self.z.mul(o.z))
    }

    pub fn cross(self, o: Vec3) -> (r: Vec3)
        requires
            self.wf(),
            o.wf(),
        ensures
            r == self.cross_spec(o),
            r.wf(),
    {
        Vec3 {
            x: self.y.mul(o.z).sub(self.z.mul(o.y)),
            y: self.z.mul(o.x).sub(self.x.mul(o.z)),
            z: self.x.mul(o.y).sub(self.y.mul(o.x)),
        }
    }

    pub fn length_squared(self) -> (r: Fx)
        requires
            self.wf(),
        ensures
            r == self.length_squared_spec(),
            r.wf(),
            r.raw >= 0,
    {
        let r = self.dot(self);
        proof {
            lemma_length_squared_nonneg(self);
        }
        r
    }

    pub fn length(self) -> (r: Fx)
        requires
            self.wf(),
        ensures
            r == self.length_spec(),
            r.wf(),
            r.raw >= 0,
    {
        self.length_squared().sqrt()
    }

    pub fn distance_squared(self, o: Vec3) -> (r: Fx)
        requires
            self.wf(),
            o.wf(),
        ensures
            r == self.distance_squared_spec(o),
            r.wf(),
            r.raw >= 0,
    {
        self.sub(o).length_squared()
    }

    pub fn distance(self, o: Vec3) -> (r: Fx)
        requires
            self.wf(),
            o.wf(),
        ensures
            r == self.distance_spec(o),
            r.wf(),
            r.raw >= 0,
    {
        self.sub(o).length()
    }
}

/// Componentwise addition always lands in range: each component is
/// clamped.
pub proof fn lemma_add_spec_wf(a: Vec3, b: Vec3)
    ensures
        a.add_spec(b).wf(),
{
}

/// Scaling by a zero scalar yields the zero vector: a pinned particle
/// receives no correction.
pub proof fn lemma_scale_zero(v: Vec3, s: Fx)
    requires
        s.raw == 0,
    ensures
        v.scale_spec(s).is_zero(),
{
    assert((v.x.raw as int) * (s.raw as int) == 0) by (nonlinear_arith)
        requires
            s.raw as int == 0,
    ;
    assert((v.y.raw as int) * (s.raw as int) == 0) by (nonlinear_arith)
        requires
            s.raw as int == 0,
    ;
    assert((v.z.raw as int) * (s.raw as int) == 0) by (nonlinear_arith)
        requires
            s.raw as int == 0,
    ;
}

/// Adding the zero vector changes nothing (for in-range values).
pub proof fn lemma_add_zero(p: Vec3, z: Vec3)
    requires
        p.wf(),
        z.is_zero(),
    ensures
        p.add_spec(z) == p,
{
}

/// Scaling the zero vector yields the zero vector.
pub proof fn lemma_zero_scale(v: Vec3, s: Fx)
    requires
        v.is_zero(),
    ensures
        v.scale_spec(s).is_zero(),
{
    assert((v.x.raw as int) * (s.raw as int) == 0) by (nonlinear_arith)
        requires
            v.x.raw as int == 0,
    ;
    assert((v.y.raw as int) * (s.raw as int) == 0) by (nonlinear_arith)
        requires
            v.y.raw as int == 0,
    ;
    assert((v.z.raw as int) * (s.raw as int) == 0) by (nonlinear_arith)
        requires
            v.z.raw as int == 0,
    ;
}

/// The zero vector has length exactly zero.
pub proof fn lemma_zero_length(v: Vec3)
    requires
        v.is_zero(),
    ensures
        v.length_squared_spec().raw == 0,
        v.length_spec().raw == 0,
{
    crate::fixed::lemma_isqrt_unique(0, 0);
}

/// Subtracting a vector from itself yields the zero vector.
pub proof fn lemma_sub_self(p: Vec3)
    ensures
        p.sub_spec(p).is_zero(),
{
}

/// The squared length of any vector is non-negative: each squared
/// component is, and clamping keeps sums of non-negatives non-negative.
pub proof fn lemma_length_squared_nonneg(v: Vec3)
    ensures
        v.length_squared_spec().raw >= 0,
{
    assert(mul_val(v.x.raw as int, v.x.raw as int) >= 0) by (nonlinear_arith);
    assert(mul_val(v.y.raw as int, v.y.raw as int) >= 0) by (nonlinear_arith);
    assert(mul_val(v.z.raw as int, v.z.raw as int) >= 0) by (nonlinear_arith);
}

} // verus!
