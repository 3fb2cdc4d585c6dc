//! Saturating fixed-point scalars.
//!
//! A scalar holds `raw / SCALE` with `SCALE = 2^20`. Every operation is
//! total: results outside `[-LIM, LIM]` are clamped, so the solver never
//! panics and every step is exactly described by its specification.
use vstd::prelude::*;

verus! {

/// Number of raw units per whole unit.
pub const SCALE: i64 = 1048576;

/// Largest raw magnitude a scalar may hold (2^42).
pub const LIM: i64 = 4398046511104;

/// Fixed-point scalar: the value `raw / SCALE`.
#[derive(Clone, Copy, Debug, PartialEq, Eq, Structural)]
pub struct Fx {
    pub raw: i64,
}

/// Clamp a mathematical value into the representable range.
pub open spec fn clip(v: int) -> int {
    if v < -LIM {
        -LIM as int
    } else if v > LIM {
        LIM as int
    } else {
        v
    }
}

/// Truncating division of the exact product by `SCALE` (rounds toward zero).
pub open spec fn scale_down(p: int) -> int {
    if p >= 0 {
        p / (SCALE as int)
    } else {
        -((-p) / (SCALE as int))
    }
}

/// What multiplication returns: the exact product, scaled and clamped.
pub open spec fn mul_val(a: int, b: int) -> int {
    clip(scale_down(a * b))
}

/// Truncating fixed-point quotient (rounds toward zero).
pub open spec fn quot(a: int, b: int) -> int {
    if (a >= 0) == (b >= 0) {
        (abs_val(a) * (SCALE as int)) / abs_val(b)
    } else {
        -((abs_val(a) * (SCALE as int)) / abs_val(b))
    }
}

/// What division returns: the exact quotient, scaled and clamped.
pub open spec fn div_val(a: int, b: int) -> int {
    clip(quot(a, b))
}

pub open spec fn abs_val(v: int) -> int {
    if v < 0 {
        -v
    } else {
        v
    }
}

/// The integer square root: the unique `r >= 0` with `r^2 <= n < (r+1)^2`.
pub open spec fn isqrt(n: int) -> int {
    choose|r: int| 0 <= r && (#[trigger] (r * r)) <= n < (r + 1) * (r + 1)
}

/// What the square root returns on raw values: `sqrt(v/SCALE)*SCALE`
/// truncated, i.e. the integer square root of `v * SCALE`.
pub open spec fn sqrt_val(v: int) -> int {
    isqrt(v * (SCALE as int))
}

/// The sum as a scalar value (clamped).
pub open spec fn add_s(a: Fx, b: Fx) -> Fx {
    Fx { raw: clip(a.raw + b.raw) as i64 }
}

/// The difference as a scalar value (clamped).
pub open spec fn sub_s(a: Fx, b: Fx) -> Fx {
    Fx { raw: clip(a.raw - b.raw) as i64 }
}

/// The product as a scalar value (scaled and clamped).
pub open spec fn mul_s(a: Fx, b: Fx) -> Fx {
    Fx { raw: mul_val(a.raw as int, b.raw as int) as i64 }
}

/// The quotient as a scalar value (scaled and clamped).
pub open spec fn div_s(a: Fx, b: Fx) -> Fx {
    Fx { raw: div_val(a.raw as int, b.raw as int) as i64 }
}

/// The negation as a scalar value.
pub open spec fn neg_s(a: Fx) -> Fx {
    Fx { raw: (-a.raw) as i64 }
}

/// The truncating square root as a scalar value.
pub open spec fn sqrt_s(a: Fx) -> Fx {
    Fx { raw: sqrt_val(a.raw as int) as i64 }
}

impl Fx {
    /// The scalar is inside the representable range.
    pub open spec fn wf(self) -> bool {
        -LIM <= self.raw <= LIM
    }

    pub open spec fn is_zero(self) -> bool {
        self.raw == 0
    }

    /// Clamp a raw count of `1/SCALE` units into a scalar.
    pub fn new(raw: i64) -> (r: Fx)
        ensures
            r.raw == clip(raw as int),
            r.wf(),
    {
        if raw > LIM {
            Fx { raw: LIM }
        } else if raw < -LIM {
            Fx { raw: -LIM }
        } else {
            Fx { raw }
        }
    }

    pub fn zero() -> (r: Fx)
        ensures
            r.raw == 0,
            r.wf(),
    {
        Fx { raw: 0 }
    }

    pub fn one() -> (r: Fx)
        ensures
            r.raw == SCALE,
            r.wf(),
    {
        Fx { raw: SCALE }
    }

    /// Clamp a whole-unit count into a scalar.
    pub fn from_int(v: i64) -> (r: Fx)
        ensures
            r.raw == clip(v * SCALE),
            r.wf(),
    {
        let wide: i128 = (v as i128) * (SCALE as i128);
        if wide > LIM as i128 {
            Fx { raw: LIM }
        } else if wide < -LIM as i128 {
            Fx { raw: -LIM }
        } else {
            Fx { raw: wide as i64 }
        }
    }

    pub fn add(self, o: Fx) -> (r: Fx)
        requires
            self.wf(),
            o.wf(),
        ensures
            r.raw == clip(self.raw + o.raw),
            r == add_s(self, o),
            r.wf(),
    {
        let s: i64 = self.raw + o.raw;
        if s > LIM {
            Fx { raw: LIM }
        } else if s < -LIM {
            Fx { raw: -LIM }
        } else {
            Fx { raw: s }
        }
    }

    pub fn sub(self, o: Fx) -> (r: Fx)
        requires
            self.wf(),
            o.wf(),
        ensures
            r.raw == clip(self.raw - o.raw),
            r == sub_s(self, o),
            r.wf(),
    {
        let s: i64 = self.raw - o.raw;
        if s > LIM {
            Fx { raw: LIM }
        } else if s < -LIM {
            Fx { raw: -LIM }
        } else {
            Fx { raw: s }
        }
    }

    pub fn neg(self) -> (r: Fx)
        requires
            self.wf(),
        ensures
            r.raw == -self.raw,
            r == neg_s(self),
            r.wf(),
    {
        Fx { raw: -self.raw }
    }

    pub fn abs(self) -> (r: Fx)
        requires
            self.wf(),
        ensures
            r.raw == abs_val(self.raw as int),
            r.wf(),
    {
        if self.raw < 0 {
            Fx { raw: -self.raw }
        } else {
            self
        }
    }

    pub fn mul(self, o: Fx) -> (r: Fx)
        requires
            self.wf(),
            o.wf(),
        ensures
            r.raw == mul_val(self.raw as int, o.raw as int),
            r == mul_s(self, o),
            r.wf(),
    {
        proof {
            assert((self.raw as int) * (o.raw as int) <= 19342813113834066795298816
                && (self.raw as int) * (o.raw as int) >= -19342813113834066795298816)
                by (nonlinear_arith)
                requires
                    -LIM <= self.raw as int <= LIM,
                    -LIM <= o.raw as int <= LIM,
            ;
        }
        let p: i128 = (self.raw as i128) * (o.raw as i128);
        let neg: bool = p < 0;
        let mag: u128 = if neg {
            (-p) as u128
        } else {
            p as u128
        };
        let q: u128 = mag / (SCALE as u128);
        let qc: u128 = if q > LIM as u128 {
            LIM as u128
        } else {
            q
        };
        if neg {
            Fx { raw: -(qc as i64) }
        } else {
            Fx { raw: qc as i64 }
        }
    }

    pub fn div(self, o: Fx) -> (r: Fx)
        requires
            self.wf(),
            o.wf(),
            o.raw != 0,
        ensures
            r.raw == div_val(self.raw as int, o.raw as int),
            r == div_s(self, o),
            r.wf(),
    {
        let am: u64 = if self.raw < 0 {
            (-self.raw) as u64
        } else {
            self.raw as u64
        };
        let bm: u64 = if o.raw < 0 {
            (-o.raw) as u64
        } else {
            o.raw as u64
        };
        let neg: bool = (self.raw < 0) != (o.raw < 0);
        assert(am <= LIM as u64 && 1 <= bm <= LIM as u64);
        proof {
            assert((am as int) * (SCALE as int) <= 4611686018427387904) by (nonlinear_arith)
                requires
                    am as int <= 4398046511104,
            ;
        }
        let q: u64 = (am * (SCALE as u64)) / bm;
        let qc: u64 = if q > LIM as u64 {
            LIM as u64
        } else {
            q
        };
        if neg {
            Fx { raw: -(qc as i64) }
        } else {
            Fx { raw: qc as i64 }
        }
    }

    /// Truncating square root of a non-negative scalar.
    pub fn sqrt(self) -> (r: Fx)
        requires
            self.wf(),
            self.raw >= 0,
        ensures
            r.raw == sqrt_val(self.raw as int),
            r == sqrt_s(self),
            r.wf(),
            r.raw >= 0,
            (r.raw as int) * (r.raw as int) <= (self.raw as int) * (SCALE as int),
            (self.raw as int) * (SCALE as int) < (r.raw as int + 1) * (r.raw as int + 1),
    {
        let n: u64 = (self.raw as u64) * (SCALE as u64);
        let mut lo: u64 = 0;
        let mut hi: u64 = 4294967296;
        proof {
            assert((4294967296int) * (4294967296int) > n as int) by (nonlinear_arith)
                requires
                    n as int <= 18446744073709551615,
            ;
        }
        while lo + 1 < hi
            invariant
                0 <= lo < hi <= 4294967296,
                (lo as int) * (lo as int) <= n as int,
                (hi as int) * (hi as int) > n as int,
            decreases hi - lo,
        {
            let mid: u64 = lo + (hi - lo) / 2;
            proof {
                assert((mid as int) * (mid as int) <= 18446744065119617025) by (nonlinear_arith)
                    requires
                        mid as int <= 4294967295,
                ;
            }
            if mid * mid <= n {
                lo = mid;
            } else {
                hi = mid;
            }
        }
        proof {
            lemma_isqrt_unique(n as int, lo as int);
        }
        Fx { raw: lo as i64 }
    }
}

/// The quotient of a non-negative scalar by a positive one is non-negative.
pub proof fn lemma_div_s_nonneg(a: Fx, b: Fx)
    requires
        a.raw >= 0,
        b.raw > 0,
    ensures
        div_s(a, b).raw >= 0,
{
    assert((a.raw as int) * (SCALE as int) >= 0) by (nonlinear_arith)
        requires
            a.raw as int >= 0,
    ;
    vstd::arithmetic::div_mod::lemma_div_pos_is_pos((a.raw as int) * (SCALE as int), b.raw as int);
}

/// The product of non-negative scalars is non-negative.
pub proof fn lemma_mul_s_nonneg(a: Fx, b: Fx)
    requires
        a.raw >= 0,
        b.raw >= 0,
    ensures
        mul_s(a, b).raw >= 0,
{
    assert((a.raw as int) * (b.raw as int) >= 0) by (nonlinear_arith)
        requires
            a.raw as int >= 0,
            b.raw as int >= 0,
    ;
}

/// Every non-negative integer has an integer square root.
pub proof fn lemma_isqrt_exists(n: int)
    requires
        n >= 0,
    ensures
        0 <= isqrt(n) && isqrt(n) * isqrt(n) <= n < (isqrt(n) + 1) * (isqrt(n) + 1),
    decreases n,
{
    if n == 0 {
        assert(0int * 0int == 0) by (nonlinear_arith);
        assert((0int + 1) * (0int + 1) == 1) by (nonlinear_arith);
        lemma_isqrt_unique(0, 0);
    } else {
        lemma_isqrt_exists(n - 1);
        let r0 = isqrt(n - 1);
        if n < (r0 + 1) * (r0 + 1) {
            lemma_isqrt_unique(n, r0);
        } else {
            assert(n == (r0 + 1) * (r0 + 1));
            assert((r0 + 1) * (r0 + 1) < (r0 + 2) * (r0 + 2)) by (nonlinear_arith)
                requires
                    r0 >= 0,
            ;
            lemma_isqrt_unique(n, r0 + 1);
        }
    }
}

/// The integer square root is monotone.
pub proof fn lemma_isqrt_monotone(a: int, b: int)
    requires
        0 <= a <= b,
    ensures
        isqrt(a) <= isqrt(b),
{
    lemma_isqrt_exists(a);
    lemma_isqrt_exists(b);
    let ra = isqrt(a);
    let rb = isqrt(b);
    if ra > rb {
        assert((rb + 1) * (rb + 1) <= ra * ra) by (nonlinear_arith)
            requires
                0 <= rb,
                rb + 1 <= ra,
        ;
    }
}

/// The integer square root of an exact square is its root.
pub proof fn lemma_isqrt_square(r: int)
    requires
        r >= 0,
    ensures
        isqrt(r * r) == r,
{
    assert(r * r < (r + 1) * (r + 1)) by (nonlinear_arith)
        requires
            r >= 0,
    ;
    lemma_isqrt_unique(r * r, r);
}

/// A non-negative `r` with `r^2 <= n < (r+1)^2` is the integer square root.
pub proof fn lemma_isqrt_unique(n: int, r: int)
    requires
        0 <= r,
        r * r <= n,
        n < (r + 1) * (r + 1),
    ensures
        isqrt(n) == r,
{
    assert(exists|q: int| 0 <= q && (#[trigger] (q * q)) <= n < (q + 1) * (q + 1)) by {
        assert(0 <= r && r * r <= n < (r + 1) * (r + 1));
    }
    let q = isqrt(n);
    assert(0 <= q && q * q <= n < (q + 1) * (q + 1));
    if q < r {
        assert((q + 1) * (q + 1) <= r * r) by (nonlinear_arith)
            requires
                0 <= q,
                q + 1 <= r,
        ;
    } else if r < q {
        assert((r + 1) * (r + 1) <= q * q) by (nonlinear_arith)
            requires
                0 <= r,
                r + 1 <= q,
        ;
    }
}

} // verus!
