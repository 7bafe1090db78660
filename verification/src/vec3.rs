//! Three-component fixed-point vectors, used as points, directions and
//! colors.  Sums of products are formed exactly in `i128` and truncated by
//! the scale once, so every operation has an exact integer contract.

use vstd::prelude::*;
use crate::fx::{
    FX_ONE, fits64, qdiv, fx_mul_spec, fx_div_spec, isqrt_spec, abs_spec, fx_sqrt, fx_mul,
    fx_div, lemma_mul_le, lemma_qdiv_le, lemma_qdiv_nonneg, lemma_isqrt_is,
};
use crate::rng::random_unit;

verus! {

/// Componentwise bound under which all vector operations stay exact.
pub const VMAX: i64 = 0x40_0000_0000;

/// Componentwise bound for plain sums and differences.
pub const SMAX: i64 = 0x3fff_ffff_ffff_ffff;

/// Componentwise bound for unit-length-scale vectors (8 in fixed point).
pub const UNITB: i64 = 524288;

/// Scalar bound accepted by [`Vec3::scale`].
pub const SC_T: i64 = 0x4000_0000_0000;

/// Vector bound accepted by [`Vec3::scale`].
pub const SC_V: i64 = 0x1_0000_0000;

#[derive(Clone, Copy, Debug, PartialEq, Eq, Structural)]
pub struct Vec3 {
    pub x: i64,
    pub y: i64,
    pub z: i64,
}

/// A color is a vector of red, green and blue intensities.
pub type Color = Vec3;

/// A point in space is a vector from the origin.
pub type Point3 = Vec3;

/// The component of `v` on axis `k` (0, 1 or 2).
pub open spec fn axis(v: Vec3, k: int) -> int {
    if k == 0 {
        v.x as int
    } else if k == 1 {
        v.y as int
    } else {
        v.z as int
    }
}

impl Vec3 {
    /// Every component has magnitude at most `b`.
    pub open spec fn bounded(self, b: int) -> bool {
        &&& -b <= self.x <= b
        &&& -b <= self.y <= b
        &&& -b <= self.z <= b
    }

    pub fn new(x: i64, y: i64, z: i64) -> (r: Vec3)
        ensures
            r == (Vec3 { x, y, z }),
    {
        Vec3 { x, y, z }
    }

    pub fn zero() -> (r: Vec3)
        ensures
            r == (Vec3 { x: 0, y: 0, z: 0 }),
    {
        Vec3 { x: 0, y: 0, z: 0 }
    }

    pub fn x(&self) -> (r: i64)
        ensures
            r == self.x,
    {
        self.x
    }

    pub fn y(&self) -> (r: i64)
        ensures
            r == self.y,
    {
        self.y
    }

    pub fn z(&self) -> (r: i64)
        ensures
            r == self.z,
    {
        self.z
    }

    /// Runtime check of [`Vec3::bounded`].
    pub fn is_bounded(&self, b: i64) -> (r: bool)
        requires
            b >= 0,
        ensures
            r == self.bounded(b as int),
    {
        -b <= self.x && self.x <= b && -b <= self.y && self.y <= b && -b <= self.z && self.z <= b
    }

    /// Componentwise sum.
    pub fn plus(&self, o: &Vec3) -> (r: Vec3)
        requires
            self.bounded(SMAX as int),
            o.bounded(SMAX as int),
        ensures
            r == plus_spec(*self, *o),
    {
        Vec3 { x: self.x + o.x, y: self.y + o.y, z: self.z + o.z }
    }

    /// Componentwise difference.
    pub fn minus(&self, o: &Vec3) -> (r: Vec3)
        requires
            self.bounded(SMAX as int),
            o.bounded(SMAX as int),
        ensures
            r == minus_spec(*self, *o),
    {
        Vec3 { x: self.x - o.x, y: self.y - o.y, z: self.z - o.z }
    }

    /// Componentwise negation.
    pub fn negate(&self) -> (r: Vec3)
        requires
            self.bounded(SMAX as int),
        ensures
            r == neg_spec(*self),
    {
        Vec3 { x: -self.x, y: -self.y, z: -self.z }
    }

    /// The vector scaled by the fixed-point scalar `t`.
    pub fn scale(&self, t: i64) -> (r: Vec3)
        requires
            self.bounded(SC_V as int),
            -SC_T <= t <= SC_T,
        ensures
            r == scale_spec(t as int, *self),
    {
        proof {
            lemma_scale_bound(t as int, *self, SC_T as int, SC_V as int);
        }
        Vec3 { x: fx_mul(t, self.x), y: fx_mul(t, self.y), z: fx_mul(t, self.z) }
    }

    /// Componentwise fixed-point product (used for color filtering).
    pub fn comp_mul(&self, o: &Vec3) -> (r: Vec3)
        requires
            self.bounded(VMAX as int),
            o.bounded(VMAX as int),
        ensures
            r == comp_mul_spec(*self, *o),
    {
        proof {
            lemma_mul_le(self.x as int, o.x as int, VMAX as int, VMAX as int);
            lemma_mul_le(self.y as int, o.y as int, VMAX as int, VMAX as int);
            lemma_mul_le(self.z as int, o.z as int, VMAX as int, VMAX as int);
            lemma_qdiv_le(self.x * o.x, FX_ONE as int, (VMAX as int) * (VMAX as int));
            lemma_qdiv_le(self.y * o.y, FX_ONE as int, (VMAX as int) * (VMAX as int));
            lemma_qdiv_le(self.z * o.z, FX_ONE as int, (VMAX as int) * (VMAX as int));
        }
        Vec3 { x: fx_mul(self.x, o.x), y: fx_mul(self.y, o.y), z: fx_mul(self.z, o.z) }
    }

    /// Fixed-point dot product: the exact sum of products, truncated once.
    pub fn dot(&self, o: &Vec3) -> (r: i64)
        requires
            self.bounded(VMAX as int),
            o.bounded(VMAX as int),
        ensures
            r == dot_spec(*self, *o),
    {
        proof {
            lemma_dot_bound(*self, *o, VMAX as int);
        }
        let s: i128 = (self.x as i128) * (o.x as i128) + (self.y as i128) * (o.y as i128) + (
        self.z as i128) * (o.z as i128);
        let q: i128 = crate::fx::qdiv_i128(s, 65536);
        q as i64
    }

    /// Squared length, always nonnegative.
    pub fn len_square(&self) -> (r: i64)
        requires
            self.bounded(VMAX as int),
        ensures
            r == dot_spec(*self, *self),
            r >= 0,
    {
        proof {
            lemma_dot_self_nonneg(*self);
        }
        self.dot(self)
    }

    /// Length: the rounded-down square root of the squared length.
    pub fn len(&self) -> (r: i64)
        requires
            self.bounded(VMAX as int),
        ensures
            r == len_spec(*self),
            r >= 0,
            r * r <= dot_spec(*self, *self) * FX_ONE,
            dot_spec(*self, *self) * FX_ONE < (r + 1) * (r + 1),
    {
        let ls = self.len_square();
        fx_sqrt(ls)
    }

    /// The vector divided by its own length.
    pub fn unit_vector(&self) -> (r: Vec3)
        requires
            self.bounded(VMAX as int),
            dot_spec(*self, *self) >= 1,
        ensures
            r == unit_spec(*self),
    {
        let len = self.len();
        proof {
            assert(len >= 1) by (nonlinear_arith)
                requires
                    len * len <= dot_spec(*self, *self) * FX_ONE,
                    dot_spec(*self, *self) * FX_ONE < (len + 1) * (len + 1),
                    dot_spec(*self, *self) >= 1,
                    len >= 0,
                    FX_ONE == 65536,
            ;
            lemma_mul_le(self.x as int, FX_ONE as int, VMAX as int, FX_ONE as int);
            lemma_mul_le(self.y as int, FX_ONE as int, VMAX as int, FX_ONE as int);
            lemma_mul_le(self.z as int, FX_ONE as int, VMAX as int, FX_ONE as int);
            lemma_qdiv_le(self.x * FX_ONE, len as int, VMAX * FX_ONE);
            lemma_qdiv_le(self.y * FX_ONE, len as int, VMAX * FX_ONE);
            lemma_qdiv_le(self.z * FX_ONE, len as int, VMAX * FX_ONE);
            crate::fx::lemma_div_shrink(VMAX * FX_ONE, len as int);
        }
        Vec3 { x: fx_div(self.x, len), y: fx_div(self.y, len), z: fx_div(self.z, len) }
    }

    /// Cross product, each component an exact difference of products
    /// truncated once by the scale.
    pub fn cross(&self, o: &Vec3) -> (r: Vec3)
        requires
            self.bounded(VMAX as int),
            o.bounded(VMAX as int),
        ensures
            r == cross_spec(*self, *o),
    {
        proof {
            lemma_cross_bound(*self, *o, VMAX as int);
        }
        let cx: i128 = (self.y as i128) * (o.z as i128) - (self.z as i128) * (o.y as i128);
        let cy: i128 = (self.z as i128) * (o.x as i128) - (self.x as i128) * (o.z as i128);
        let cz: i128 = (self.x as i128) * (o.y as i128) - (self.y as i128) * (o.x as i128);
        let rx: i128 = crate::fx::qdiv_i128(cx, 65536);
        let ry: i128 = crate::fx::qdiv_i128(cy, 65536);
        let rz: i128 = crate::fx::qdiv_i128(cz, 65536);
        Vec3 { x: rx as i64, y: ry as i64, z: rz as i64 }
    }

    /// Mirror of the vector about the normal `n`.
    pub fn reflect(&self, n: &Vec3) -> (r: Vec3)
        requires
            self.bounded(UNITB as int),
            n.bounded(UNITB as int),
        ensures
            r == reflect_spec(*self, *n),
    {
        proof {
            lemma_dot_bound(*self, *n, UNITB as int);
            lemma_scale_bound(2 * dot_spec(*self, *n), *n, 2 * ((3 * (UNITB as int) * (UNITB as int)) / (FX_ONE as int)),
                UNITB as int);
        }
        let d = self.dot(n);
        let twice: i64 = 2 * d;
        self.minus(&n.scale(twice))
    }

    /// Whether the vector vanishes at this resolution: every component is
    /// exactly zero.
    pub fn near_zero(&self) -> (r: bool)
        ensures
            r == (self.x == 0 && self.y == 0 && self.z == 0),
    {
        self.x == 0 && self.y == 0 && self.z == 0
    }
}

pub open spec fn plus_spec(a: Vec3, b: Vec3) -> Vec3 {
    Vec3 { x: (a.x + b.x) as i64, y: (a.y + b.y) as i64, z: (a.z + b.z) as i64 }
}

pub open spec fn minus_spec(a: Vec3, b: Vec3) -> Vec3 {
    Vec3 { x: (a.x - b.x) as i64, y: (a.y - b.y) as i64, z: (a.z - b.z) as i64 }
}

pub open spec fn neg_spec(a: Vec3) -> Vec3 {
    Vec3 { x: (-a.x) as i64, y: (-a.y) as i64, z: (-a.z) as i64 }
}

pub open spec fn scale_spec(t: int, v: Vec3) -> Vec3 {
    Vec3 {
        x: fx_mul_spec(t, v.x as int) as i64,
        y: fx_mul_spec(t, v.y as int) as i64,
        z: fx_mul_spec(t, v.z as int) as i64,
    }
}

pub open spec fn comp_mul_spec(a: Vec3, b: Vec3) -> Vec3 {
    Vec3 {
        x: fx_mul_spec(a.x as int, b.x as int) as i64,
        y: fx_mul_spec(a.y as int, b.y as int) as i64,
        z: fx_mul_spec(a.z as int, b.z as int) as i64,
    }
}

/// The exact dot product over the raw integers, truncated once.
pub open spec fn dot_spec(a: Vec3, b: Vec3) -> int {
    qdiv(a.x * b.x + a.y * b.y + a.z * b.z, FX_ONE as int)
}

pub open spec fn cross_spec(a: Vec3, b: Vec3) -> Vec3 {
    Vec3 {
        x: qdiv(a.y * b.z - a.z * b.y, FX_ONE as int) as i64,
        y: qdiv(a.z * b.x - a.x * b.z, FX_ONE as int) as i64,
        z: qdiv(a.x * b.y - a.y * b.x, FX_ONE as int) as i64,
    }
}

/// The rounded-down length.
pub open spec fn len_spec(v: Vec3) -> int {
    isqrt_spec(dot_spec(v, v) * FX_ONE)
}

pub open spec fn unit_spec(v: Vec3) -> Vec3 {
    Vec3 {
        x: fx_div_spec(v.x as int, len_spec(v)) as i64,
        y: fx_div_spec(v.y as int, len_spec(v)) as i64,
        z: fx_div_spec(v.z as int, len_spec(v)) as i64,
    }
}

pub open spec fn reflect_spec(v: Vec3, n: Vec3) -> Vec3 {
    minus_spec(v, scale_spec(2 * dot_spec(v, n), n))
}

/// All three products and their sum are bounded when the inputs are.
pub proof fn lemma_dot_bound(a: Vec3, b: Vec3, m: int)
    requires
        0 <= m,
        a.bounded(m),
        b.bounded(m),
    ensures
        abs_spec(a.x * b.x) <= m * m,
        abs_spec(a.y * b.y) <= m * m,
        abs_spec(a.z * b.z) <= m * m,
        abs_spec(a.x * b.x + a.y * b.y + a.z * b.z) <= 3 * (m * m),
        abs_spec(dot_spec(a, b)) <= (3 * (m * m)) / (FX_ONE as int),
{
    lemma_mul_le(a.x as int, b.x as int, m, m);
    lemma_mul_le(a.y as int, b.y as int, m, m);
    lemma_mul_le(a.z as int, b.z as int, m, m);
    lemma_qdiv_le(a.x * b.x + a.y * b.y + a.z * b.z, FX_ONE as int, 3 * (m * m));
}

/// Cross-product components are bounded when the inputs are.
pub proof fn lemma_cross_bound(a: Vec3, b: Vec3, m: int)
    requires
        0 <= m,
        a.bounded(m),
        b.bounded(m),
    ensures
        abs_spec(a.x * b.y) <= m * m,
        abs_spec(a.y * b.x) <= m * m,
        abs_spec(a.x * b.z) <= m * m,
        abs_spec(a.z * b.x) <= m * m,
        abs_spec(a.y * b.z) <= m * m,
        abs_spec(a.z * b.y) <= m * m,
        abs_spec(a.y * b.z - a.z * b.y) <= 2 * (m * m),
        abs_spec(a.z * b.x - a.x * b.z) <= 2 * (m * m),
        abs_spec(a.x * b.y - a.y * b.x) <= 2 * (m * m),
        cross_spec(a, b).bounded((2 * (m * m)) / (FX_ONE as int)),
{
    lemma_mul_le(a.x as int, b.x as int, m, m);
    lemma_mul_le(a.y as int, b.y as int, m, m);
    lemma_mul_le(a.z as int, b.z as int, m, m);
    lemma_mul_le(a.x as int, b.y as int, m, m);
    lemma_mul_le(a.y as int, b.x as int, m, m);
    lemma_mul_le(a.x as int, b.z as int, m, m);
    lemma_mul_le(a.z as int, b.x as int, m, m);
    lemma_mul_le(a.y as int, b.z as int, m, m);
    lemma_mul_le(a.z as int, b.y as int, m, m);
    lemma_qdiv_le(a.y * b.z - a.z * b.y, FX_ONE as int, 2 * (m * m));
    lemma_qdiv_le(a.z * b.x - a.x * b.z, FX_ONE as int, 2 * (m * m));
    lemma_qdiv_le(a.x * b.y - a.y * b.x, FX_ONE as int, 2 * (m * m));
    assert((2 * (m * m)) / (FX_ONE as int) >= 0) by (nonlinear_arith)
        requires
            m >= 0,
            FX_ONE == 65536,
    ;
}

/// A scaled vector is bounded by the product of the bounds, shrunk by the
/// scale.
pub proof fn lemma_scale_bound(t: int, v: Vec3, mt: int, mv: int)
    requires
        0 <= mt,
        0 <= mv,
        abs_spec(t) <= mt,
        v.bounded(mv),
    ensures
        scale_spec(t, v).bounded((mt * mv) / (FX_ONE as int)),
        (mt * mv) / (FX_ONE as int) >= 0,
        abs_spec(fx_mul_spec(t, v.x as int)) <= (mt * mv) / (FX_ONE as int),
        abs_spec(fx_mul_spec(t, v.y as int)) <= (mt * mv) / (FX_ONE as int),
        abs_spec(fx_mul_spec(t, v.z as int)) <= (mt * mv) / (FX_ONE as int),
{
    lemma_mul_le(t, v.x as int, mt, mv);
    lemma_mul_le(t, v.y as int, mt, mv);
    lemma_mul_le(t, v.z as int, mt, mv);
    lemma_qdiv_le(t * v.x, FX_ONE as int, (mt * mv));
    lemma_qdiv_le(t * v.y, FX_ONE as int, (mt * mv));
    lemma_qdiv_le(t * v.z, FX_ONE as int, (mt * mv));
    assert((mt * mv) / (FX_ONE as int) >= 0) by (nonlinear_arith)
        requires
            mt >= 0,
            mv >= 0,
            FX_ONE == 65536,
    ;
}

/// Scaling by zero gives the zero vector.
pub proof fn lemma_scale_zero(v: Vec3)
    ensures
        scale_spec(0, v) == (Vec3 { x: 0, y: 0, z: 0 }),
{
    assert(0 * v.x == 0) by (nonlinear_arith);
    assert(0 * v.y == 0) by (nonlinear_arith);
    assert(0 * v.z == 0) by (nonlinear_arith);
    assert(qdiv(0, FX_ONE as int) == 0);
}

/// A vector's dot product with itself is nonnegative.
pub proof fn lemma_dot_self_nonneg(a: Vec3)
    ensures
        dot_spec(a, a) >= 0,
{
    assert(a.x * a.x + a.y * a.y + a.z * a.z >= 0) by (nonlinear_arith);
    lemma_qdiv_nonneg(a.x * a.x + a.y * a.y + a.z * a.z, FX_ONE as int);
}

/// A fixed-point value drawn uniformly from `[min, max)`.
pub fn random_range(min: i64, max: i64) -> (r: i64)
    requires
        -VMAX <= min < max <= VMAX,
    ensures
        min <= r < max,
{
    let u = random_unit();
    proof {
        let n = (max - min) * (u as int);
        assert(0 <= n && n < (max - min) * (FX_ONE as int)) by (nonlinear_arith)
            requires
                0 < max - min,
                0 <= u < FX_ONE,
                n == (max - min) * (u as int),
        ;
        assert(n / (FX_ONE as int) < max - min) by (nonlinear_arith)
            requires
                0 <= n,
                n < (max - min) * (FX_ONE as int),
                FX_ONE == 65536,
        ;
        crate::fx::lemma_div_shrink(n, FX_ONE as int);
        assert(fx_mul_spec((max - min) as int, u as int) == n / (FX_ONE as int));
    }
    let d = fx_mul(max - min, u);
    min + d
}

} // verus!
