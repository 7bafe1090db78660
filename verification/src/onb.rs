//! An orthonormal basis built from one normal vector, used to carry
//! hemisphere-local sample directions into world space.

use vstd::prelude::*;
use crate::fx::{FX_ONE, fx_mul_spec, lemma_mul_le, lemma_qdiv_le};
use crate::vec3::{
    Vec3, dot_spec, cross_spec, unit_spec, plus_spec, scale_spec, UNITB, VMAX,
};

verus! {

pub struct ONB {
    pub u: Vec3,
    pub v: Vec3,
    pub w: Vec3,
}

pub open spec fn onb_ok(o: ONB) -> bool {
    &&& o.u.bounded(8 * FX_ONE as int)
    &&& o.v.bounded(2 * FX_ONE as int)
    &&& o.w.bounded(2 * FX_ONE as int)
}

/// What `build` computes: the unit normal as `w`, a unit vector
/// perpendicular to `w` and a helper axis as `v`, and their cross product
/// as `u`; degenerate inputs fall back to the coordinate axes.
pub open spec fn onb_build_spec(n: Vec3) -> ONB {
    if !(n.bounded(UNITB as int) && dot_spec(n, n) >= 1) {
        ONB {
            u: Vec3 { x: FX_ONE, y: 0, z: 0 },
            v: Vec3 { x: 0, y: FX_ONE, z: 0 },
            w: Vec3 { x: 0, y: 0, z: FX_ONE },
        }
    } else {
        let w0 = unit_spec(n);
        if !w0.bounded(2 * FX_ONE as int) {
            ONB {
                u: Vec3 { x: FX_ONE, y: 0, z: 0 },
                v: Vec3 { x: 0, y: FX_ONE, z: 0 },
                w: Vec3 { x: 0, y: 0, z: FX_ONE },
            }
        } else {
            let a = if w0.x > 58982 || w0.x < -58982 {
                Vec3 { x: 0, y: FX_ONE, z: 0 }
            } else {
                Vec3 { x: FX_ONE, y: 0, z: 0 }
            };
            let cv = cross_spec(w0, a);
            if !(cv.bounded(VMAX as int) && dot_spec(cv, cv) >= 1) {
                ONB {
                    u: Vec3 { x: FX_ONE, y: 0, z: 0 },
                    v: Vec3 { x: 0, y: FX_ONE, z: 0 },
                    w: w0,
                }
            } else {
                let v0 = unit_spec(cv);
                if !v0.bounded(2 * FX_ONE as int) {
                    ONB {
                        u: Vec3 { x: FX_ONE, y: 0, z: 0 },
                        v: Vec3 { x: 0, y: FX_ONE, z: 0 },
                        w: w0,
                    }
                } else {
                    ONB { u: cross_spec(w0, v0), v: v0, w: w0 }
                }
            }
        }
    }
}

impl ONB {
    pub fn u(&self) -> (r: Vec3)
        ensures
            r == self.u,
    {
        self.u
    }

    pub fn v(&self) -> (r: Vec3)
        ensures
            r == self.v,
    {
        self.v
    }

    pub fn w(&self) -> (r: Vec3)
        ensures
            r == self.w,
    {
        self.w
    }

    /// Build the basis from a normal.
    pub fn build(n: &Vec3) -> (r: ONB)
        ensures
            r == onb_build_spec(*n),
            onb_ok(r),
    {
        let fallback = ONB {
            u: Vec3 { x: FX_ONE, y: 0, z: 0 },
            v: Vec3 { x: 0, y: FX_ONE, z: 0 },
            w: Vec3 { x: 0, y: 0, z: FX_ONE },
        };
        if !(n.is_bounded(UNITB) && n.len_square() >= 1) {
            return fallback;
        }
        let w0 = n.unit_vector();
        if !w0.is_bounded(2 * FX_ONE) {
            return fallback;
        }
        let a = if w0.x > 58982 || w0.x < -58982 {
            Vec3 { x: 0, y: FX_ONE, z: 0 }
        } else {
            Vec3 { x: FX_ONE, y: 0, z: 0 }
        };
        let cv = w0.cross(&a);
        if !(cv.is_bounded(VMAX) && cv.len_square() >= 1) {
            return ONB {
                u: Vec3 { x: FX_ONE, y: 0, z: 0 },
                v: Vec3 { x: 0, y: FX_ONE, z: 0 },
                w: w0,
            };
        }
        let v0 = cv.unit_vector();
        if !v0.is_bounded(2 * FX_ONE) {
            return ONB {
                u: Vec3 { x: FX_ONE, y: 0, z: 0 },
                v: Vec3 { x: 0, y: FX_ONE, z: 0 },
                w: w0,
            };
        }
        proof {
            crate::vec3::lemma_cross_bound(w0, v0, 2 * FX_ONE as int);
        }
        let u0 = w0.cross(&v0);
        ONB { u: u0, v: v0, w: w0 }
    }

    /// Map hemisphere-local coordinates through the basis.
    pub fn local(&self, a: Vec3) -> (r: Vec3)
        requires
            onb_ok(*self),
            a.bounded(2 * FX_ONE as int),
        ensures
            r == onb_local_spec(*self, a),
            r.bounded(24 * FX_ONE as int),
    {
        proof {
            crate::vec3::lemma_scale_bound(a.x as int, self.u, 2 * FX_ONE as int, 8 * FX_ONE as int);
            crate::vec3::lemma_scale_bound(a.y as int, self.v, 2 * FX_ONE as int, 2 * FX_ONE as int);
            crate::vec3::lemma_scale_bound(a.z as int, self.w, 2 * FX_ONE as int, 2 * FX_ONE as int);
            assert(((2 * FX_ONE as int) * (8 * FX_ONE as int)) / (FX_ONE as int) == 16 * FX_ONE)
                by (nonlinear_arith);
            assert(((2 * FX_ONE as int) * (2 * FX_ONE as int)) / (FX_ONE as int) == 4 * FX_ONE)
                by (nonlinear_arith);
        }
        self.u.scale(a.x).plus(&self.v.scale(a.y)).plus(&self.w.scale(a.z))
    }
}

pub open spec fn onb_local_spec(o: ONB, a: Vec3) -> Vec3 {
    plus_spec(
        plus_spec(scale_spec(a.x as int, o.u), scale_spec(a.y as int, o.v)),
        scale_spec(a.z as int, o.w),
    )
}

} // verus!
