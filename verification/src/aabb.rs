//! Axis-aligned bounding boxes with an exact slab intersection test.
//!
//! The classical slab test divides by the ray direction; here the running
//! parameter window is kept as a pair of exact rationals (numerator and
//! positive denominator), so the test is decided exactly.  A direction
//! component of zero — where floating point would produce infinities — is
//! the stationary case: the axis passes when the origin lies inside the
//! slab (ends included) and fails otherwise, which is the same decision the
//! infinities would force.

use vstd::prelude::*;
use crate::fx::{FX_ONE, abs_spec, lemma_mul_le};
use crate::vec3::{Vec3, Point3, axis};
use crate::ray::{Ray, ray_ok, window_ok, ray_axis_s, CMAX, DMAX, T_INF};

verus! {

/// Bound on the numerators carried by the slab window.
pub const WNMAX: i64 = 0x2_0000_0000_0000;

/// Padding added to flat primitives' boxes; it absorbs the rounding of the
/// reported hit parameter, so the membership check virtually never rejects.
pub const EPS_PAD: i64 = 4096;

#[derive(Clone, Copy, Debug, PartialEq, Eq, Structural)]
pub struct AABB {
    pub mini: Point3,
    pub maxi: Point3,
}

/// A box whose corners lie inside the scene coordinate range.
pub open spec fn box_ok(b: AABB) -> bool {
    &&& b.mini.bounded(CMAX as int)
    &&& b.maxi.bounded(CMAX as int)
}

/// Strict rational order: `a/ad < b/bd` for positive denominators.
pub open spec fn rat_lt(an: int, ad: int, bn: int, bd: int) -> bool {
    an * bd < bn * ad
}

/// Rational order or equality: `a/ad ≤ b/bd` for positive denominators.
pub open spec fn rat_le(an: int, ad: int, bn: int, bd: int) -> bool {
    an * bd <= bn * ad
}

/// The slab fold from axis `k` on, with the running window `[ln/ld, hn/hd]`.
pub open spec fn slab_rec(b: AABB, r: Ray, k: int, ln: int, ld: int, hn: int, hd: int) -> bool
    decreases 3 - k,
{
    if k >= 3 {
        true
    } else {
        let d = axis(r.dir, k);
        let o = axis(r.orig, k);
        let cl = axis(b.mini, k);
        let ch = axis(b.maxi, k);
        if d == 0 {
            if cl <= o <= ch {
                slab_rec(b, r, k + 1, ln, ld, hn, hd)
            } else {
                false
            }
        } else {
            let den = abs_spec(d);
            let e = if d > 0 {
                (cl - o) * FX_ONE
            } else {
                (o - ch) * FX_ONE
            };
            let x = if d > 0 {
                (ch - o) * FX_ONE
            } else {
                (o - cl) * FX_ONE
            };
            let ln2 = if rat_lt(ln, ld, e, den) {
                e
            } else {
                ln
            };
            let ld2 = if rat_lt(ln, ld, e, den) {
                den
            } else {
                ld
            };
            let hn2 = if rat_lt(x, den, hn, hd) {
                x
            } else {
                hn
            };
            let hd2 = if rat_lt(x, den, hn, hd) {
                den
            } else {
                hd
            };
            if rat_le(hn2, hd2, ln2, ld2) {
                false
            } else {
                slab_rec(b, r, k + 1, ln2, ld2, hn2, hd2)
            }
        }
    }
}

/// What the slab test decides: out-of-range inputs never hit; otherwise the
/// three axis slabs narrow the window `[t_min, t_max]`, and the test fails
/// exactly when the window collapses.
pub open spec fn slab_spec(b: AABB, r: Ray, t_min: int, t_max: int) -> bool {
    &&& box_ok(b)
    &&& ray_ok(r)
    &&& window_ok(t_min, t_max)
    &&& slab_rec(b, r, 0, t_min, 1, t_max, 1)
}

/// Componentwise inclusion of boxes.
pub open spec fn contains_box(outer: AABB, inner: AABB) -> bool {
    &&& outer.mini.x <= inner.mini.x
    &&& outer.mini.y <= inner.mini.y
    &&& outer.mini.z <= inner.mini.z
    &&& inner.maxi.x <= outer.maxi.x
    &&& inner.maxi.y <= outer.maxi.y
    &&& inner.maxi.z <= outer.maxi.z
}

/// The exact ray point at parameter `t` lies inside the box: strictly
/// inside on moving axes, within the closed slab on stationary axes.
pub open spec fn ray_in_box(r: Ray, t: int, b: AABB) -> bool {
    forall|k: int| 0 <= k < 3 ==> axis_in_box(r, t, b, k)
}

pub open spec fn axis_in_box(r: Ray, t: int, b: AABB, k: int) -> bool {
    if axis(r.dir, k) == 0 {
        axis(b.mini, k) <= axis(r.orig, k) <= axis(b.maxi, k)
    } else {
        axis(b.mini, k) * FX_ONE < ray_axis_s(r, t, k) < axis(b.maxi, k) * FX_ONE
    }
}

/// Axis component as executable code.
pub fn axis_of(v: &Vec3, k: usize) -> (r: i64)
    requires
        k < 3,
    ensures
        r == axis(*v, k as int),
{
    if k == 0 {
        v.x
    } else if k == 1 {
        v.y
    } else {
        v.z
    }
}

impl AABB {
    pub fn new(mini: Point3, maxi: Point3) -> (r: AABB)
        ensures
            r == (AABB { mini, maxi }),
    {
        AABB { mini, maxi }
    }

    /// Runtime check of [`box_ok`].
    pub fn is_ok(&self) -> (r: bool)
        ensures
            r == box_ok(*self),
    {
        self.mini.is_bounded(CMAX) && self.maxi.is_bounded(CMAX)
    }

    /// The slab test, decided exactly.
    pub fn hit(&self, r: &Ray, t_min: i64, t_max: i64) -> (res: bool)
        ensures
            res == slab_spec(*self, *r, t_min as int, t_max as int),
    {
        if !(self.is_ok() && r.is_ok() && -T_INF <= t_min && t_min <= T_INF && -T_INF <= t_max
            && t_max <= T_INF) {
            return false;
        }
        let mut ln: i128 = t_min as i128;
        let mut ld: i128 = 1;
        let mut hn: i128 = t_max as i128;
        let mut hd: i128 = 1;
        let mut k: usize = 0;
        while k < 3
            invariant
                0 <= k <= 3,
                1 <= ld <= DMAX,
                1 <= hd <= DMAX,
                abs_spec(ln as int) <= WNMAX,
                abs_spec(hn as int) <= WNMAX,
                box_ok(*self),
                ray_ok(*r),
                window_ok(t_min as int, t_max as int),
                slab_rec(*self, *r, 0, t_min as int, 1, t_max as int, 1) == slab_rec(
                    *self, *r, k as int, ln as int, ld as int, hn as int, hd as int),
            decreases 3 - k,
        {
            let d = axis_of(&r.dir, k);
            let o = axis_of(&r.orig, k);
            let cl = axis_of(&self.mini, k);
            let ch = axis_of(&self.maxi, k);
            if d == 0 {
                if !(cl <= o && o <= ch) {
                    return false;
                }
            } else {
                let den: i128 = if d > 0 {
                    d as i128
                } else {
                    -(d as i128)
                };
                let e: i128 = if d > 0 {
                    ((cl as i128) - (o as i128)) * 65536
                } else {
                    ((o as i128) - (ch as i128)) * 65536
                };
                let x: i128 = if d > 0 {
                    ((ch as i128) - (o as i128)) * 65536
                } else {
                    ((o as i128) - (cl as i128)) * 65536
                };
                proof {
                    lemma_mul_le(ln as int, den as int, WNMAX as int, DMAX as int);
                    lemma_mul_le(hn as int, den as int, WNMAX as int, DMAX as int);
                    lemma_mul_le(e as int, ld as int, WNMAX as int, DMAX as int);
                    lemma_mul_le(e as int, hd as int, WNMAX as int, DMAX as int);
                    lemma_mul_le(x as int, ld as int, WNMAX as int, DMAX as int);
                    lemma_mul_le(x as int, hd as int, WNMAX as int, DMAX as int);
                    lemma_mul_le(ln as int, hd as int, WNMAX as int, DMAX as int);
                    lemma_mul_le(hn as int, ld as int, WNMAX as int, DMAX as int);
                    lemma_mul_le(x as int, den as int, WNMAX as int, DMAX as int);
                }
                if ln * den < e * ld {
                    ln = e;
                    ld = den;
                }
                if x * hd < hn * den {
                    hn = x;
                    hd = den;
                }
                proof {
                    lemma_mul_le(hn as int, ld as int, WNMAX as int, DMAX as int);
                    lemma_mul_le(ln as int, hd as int, WNMAX as int, DMAX as int);
                }
                if hn * ld <= ln * hd {
                    return false;
                }
            }
            k += 1;
        }
        true
    }
}

/// Exact membership test: does the ray point at parameter `t` lie inside
/// the box, strictly on moving axes?
pub fn point_in_box(r: &Ray, t: i64, b: &AABB) -> (res: bool)
    requires
        ray_ok(*r),
        box_ok(*b),
        -T_INF <= t <= T_INF,
    ensures
        res == ray_in_box(*r, t as int, *b),
{
    let mut k: usize = 0;
    while k < 3
        invariant
            0 <= k <= 3,
            ray_ok(*r),
            box_ok(*b),
            -T_INF <= t <= T_INF,
            forall|j: int| 0 <= j < k ==> axis_in_box(*r, t as int, *b, j),
        decreases 3 - k,
    {
        let d = axis_of(&r.dir, k);
        let o = axis_of(&r.orig, k);
        let cl = axis_of(&b.mini, k);
        let ch = axis_of(&b.maxi, k);
        if d == 0 {
            if !(cl <= o && o <= ch) {
                proof {
                    assert(!axis_in_box(*r, t as int, *b, k as int));
                }
                return false;
            }
        } else {
            proof {
                lemma_mul_le(t as int, d as int, T_INF as int, DMAX as int);
            }
            let ps: i128 = (o as i128) * 65536 + (t as i128) * (d as i128);
            if !((cl as i128) * 65536 < ps && ps < (ch as i128) * 65536) {
                proof {
                    assert(!axis_in_box(*r, t as int, *b, k as int));
                }
                return false;
            }
        }
        k += 1;
    }
    true
}

/// The componentwise union of two boxes.
pub fn surrounding_box(box0: AABB, box1: AABB) -> (r: AABB)
    ensures
        r == surrounding_spec(box0, box1),
        contains_box(r, box0),
        contains_box(r, box1),
        box_ok(box0) && box_ok(box1) ==> box_ok(r),
{
    let sx = if box0.mini.x < box1.mini.x {
        box0.mini.x
    } else {
        box1.mini.x
    };
    let sy = if box0.mini.y < box1.mini.y {
        box0.mini.y
    } else {
        box1.mini.y
    };
    let sz = if box0.mini.z < box1.mini.z {
        box0.mini.z
    } else {
        box1.mini.z
    };
    let bx = if box0.maxi.x > box1.maxi.x {
        box0.maxi.x
    } else {
        box1.maxi.x
    };
    let by = if box0.maxi.y > box1.maxi.y {
        box0.maxi.y
    } else {
        box1.maxi.y
    };
    let bz = if box0.maxi.z > box1.maxi.z {
        box0.maxi.z
    } else {
        box1.maxi.z
    };
    AABB {
        mini: Vec3 { x: sx, y: sy, z: sz },
        maxi: Vec3 { x: bx, y: by, z: bz },
    }
}

/// The value of [`surrounding_box`]: componentwise minimum of the minima
/// and maximum of the maxima.
pub open spec fn surrounding_spec(b0: AABB, b1: AABB) -> AABB {
    AABB {
        mini: Vec3 {
            x: if b0.mini.x < b1.mini.x { b0.mini.x } else { b1.mini.x },
            y: if b0.mini.y < b1.mini.y { b0.mini.y } else { b1.mini.y },
            z: if b0.mini.z < b1.mini.z { b0.mini.z } else { b1.mini.z },
        },
        maxi: Vec3 {
            x: if b0.maxi.x > b1.maxi.x { b0.maxi.x } else { b1.maxi.x },
            y: if b0.maxi.y > b1.maxi.y { b0.maxi.y } else { b1.maxi.y },
            z: if b0.maxi.z > b1.maxi.z { b0.maxi.z } else { b1.maxi.z },
        },
    }
}

/// Membership carries over to any containing box.
pub proof fn lemma_box_monotone(r: Ray, t: int, inner: AABB, outer: AABB)
    requires
        contains_box(outer, inner),
        ray_in_box(r, t, inner),
    ensures
        ray_in_box(r, t, outer),
{
    assert forall|k: int| 0 <= k < 3 implies axis_in_box(r, t, outer, k) by {
        assert(axis_in_box(r, t, inner, k));
        assert(axis(outer.mini, k) <= axis(inner.mini, k));
        assert(axis(inner.maxi, k) <= axis(outer.maxi, k));
    }
}

/// Whoever hits inside the window, strictly inside the box, is seen by the
/// slab test: the heart of bounding-volume pruning.
pub proof fn lemma_slab_sees_hit(b: AABB, r: Ray, t_min: int, t_max: int, t: int)
    requires
        box_ok(b),
        ray_ok(r),
        window_ok(t_min, t_max),
        t_min <= t <= t_max,
        t_min < t_max,
        ray_in_box(r, t, b),
    ensures
        slab_spec(b, r, t_min, t_max),
{
    lemma_slab_rec_sees(b, r, 0, t, t_min, 1, t_max, 1);
}

proof fn lemma_slab_rec_sees(b: AABB, r: Ray, k: int, t: int, ln: int, ld: int, hn: int, hd: int)
    requires
        box_ok(b),
        ray_ok(r),
        0 <= k <= 3,
        ld >= 1,
        hd >= 1,
        ln <= t * ld,
        t * hd <= hn,
        ln < t * ld || t * hd < hn,
        ray_in_box(r, t, b),
    ensures
        slab_rec(b, r, k, ln, ld, hn, hd),
    decreases 3 - k,
{
    if k >= 3 {
    } else {
        let d = axis(r.dir, k);
        let o = axis(r.orig, k);
        let cl = axis(b.mini, k);
        let ch = axis(b.maxi, k);
        assert(axis_in_box(r, t, b, k));
        if d == 0 {
            assert(cl <= o <= ch);
            lemma_slab_rec_sees(b, r, k + 1, t, ln, ld, hn, hd);
        } else {
            let den = abs_spec(d);
            let e = if d > 0 {
                (cl - o) * FX_ONE
            } else {
                (o - ch) * FX_ONE
            };
            let x = if d > 0 {
                (ch - o) * FX_ONE
            } else {
                (o - cl) * FX_ONE
            };
            assert(cl * FX_ONE < o * FX_ONE + t * d < ch * FX_ONE);
            assert(e < t * den && t * den < x) by (nonlinear_arith)
                requires
                    d != 0,
                    den == abs_spec(d),
                    e == (if d > 0 { (cl - o) * FX_ONE } else { (o - ch) * FX_ONE }),
                    x == (if d > 0 { (ch - o) * FX_ONE } else { (o - cl) * FX_ONE }),
                    cl * FX_ONE < o * FX_ONE + t * d < ch * FX_ONE,
                    FX_ONE == 65536,
            ;
            let ln2 = if rat_lt(ln, ld, e, den) {
                e
            } else {
                ln
            };
            let ld2 = if rat_lt(ln, ld, e, den) {
                den
            } else {
                ld
            };
            let hn2 = if rat_lt(x, den, hn, hd) {
                x
            } else {
                hn
            };
            let hd2 = if rat_lt(x, den, hn, hd) {
                den
            } else {
                hd
            };
            assert(ln2 <= t * ld2 && (ln2 < t * ld2 || ln == t * ld && ln2 == ln));
            assert(t * hd2 <= hn2 && (t * hd2 < hn2 || t * hd == hn && hn2 == hn));
            assert(ln2 < t * ld2 || t * hd2 < hn2);
            assert(!rat_le(hn2, hd2, ln2, ld2)) by (nonlinear_arith)
                requires
                    ld2 >= 1,
                    hd2 >= 1,
                    ln2 <= t * ld2,
                    t * hd2 <= hn2,
                    ln2 < t * ld2 || t * hd2 < hn2,
                    rat_le(hn2, hd2, ln2, ld2) == (hn2 * ld2 <= ln2 * hd2),
            ;
            lemma_slab_rec_sees(b, r, k + 1, t, ln2, ld2, hn2, hd2);
        }
    }
}

} // verus!
