//! Triangles with a consistently oriented unit face normal.  The plane
//! crossing is solved first; the point-inside test uses three same-sign
//! cross-product tests, and the texture coordinates solve a two-by-two
//! linear system in the x and y coordinates.

use vstd::prelude::*;
use crate::fx::{
    FX_ONE, qdiv, fx_div_spec, fx_clamp, fx_clamp_spec, lemma_mul_le, lemma_qdiv_le, qdiv_i128,
};
use crate::vec3::{Vec3, Point3, minus_spec, cross_spec, dot_spec, unit_spec, VMAX};
use crate::ray::{Ray, ray_ok, window_ok, at_spec, lemma_at_bounded, T_INF, CMAX, DMAX};
use crate::aabb::{AABB, box_ok, ray_in_box, point_in_box, EPS_PAD};
use crate::hit::{HitRecord, orient_front, orient_normal, rec_ok};

verus! {

/// Bound on triangle vertex coordinates (512 in fixed point).
pub const TVB: i64 = 0x200_0000;

#[derive(Clone, Copy, Debug, PartialEq, Eq, Structural)]
pub struct Triangle {
    pub v0: Point3,
    pub v1: Point3,
    pub v2: Point3,
    pub mat: usize,
}

pub open spec fn tri_ok(t: Triangle) -> bool {
    &&& t.v0.bounded(TVB as int)
    &&& t.v1.bounded(TVB as int)
    &&& t.v2.bounded(TVB as int)
    &&& dot_spec(tri_raw_normal(t), tri_raw_normal(t)) >= 1
}

/// The unnormalized face normal.
pub open spec fn tri_raw_normal(t: Triangle) -> Vec3 {
    cross_spec(minus_spec(t.v1, t.v0), minus_spec(t.v2, t.v0))
}

/// The unit face normal.
pub open spec fn tri_normal(t: Triangle) -> Vec3 {
    unit_spec(tri_raw_normal(t))
}

pub open spec fn min3(a: int, b: int, c: int) -> int {
    if a <= b && a <= c {
        a
    } else if b <= c {
        b
    } else {
        c
    }
}

pub open spec fn max3(a: int, b: int, c: int) -> int {
    if a >= b && a >= c {
        a
    } else if b >= c {
        b
    } else {
        c
    }
}

pub open spec fn tri_bbox(t: Triangle) -> AABB {
    AABB {
        mini: Vec3 {
            x: (min3(t.v0.x as int, t.v1.x as int, t.v2.x as int) - EPS_PAD) as i64,
            y: (min3(t.v0.y as int, t.v1.y as int, t.v2.y as int) - EPS_PAD) as i64,
            z: (min3(t.v0.z as int, t.v1.z as int, t.v2.z as int) - EPS_PAD) as i64,
        },
        maxi: Vec3 {
            x: (max3(t.v0.x as int, t.v1.x as int, t.v2.x as int) + EPS_PAD) as i64,
            y: (max3(t.v0.y as int, t.v1.y as int, t.v2.y as int) + EPS_PAD) as i64,
            z: (max3(t.v0.z as int, t.v1.z as int, t.v2.z as int) + EPS_PAD) as i64,
        },
    }
}

/// The exact triple product `n · (e × w)`, with no rounding at all.
pub open spec fn side_val(n: Vec3, e: Vec3, w: Vec3) -> int {
    n.x * (e.y * w.z - e.z * w.y) + n.y * (e.z * w.x - e.x * w.z) + n.z * (e.x * w.y - e.y * w.x)
}

/// The point lies on the inner side of all three edges.
pub open spec fn tri_inside(t: Triangle, n: Vec3, p: Point3) -> bool {
    &&& side_val(n, minus_spec(t.v1, t.v0), minus_spec(p, t.v0)) >= 0
    &&& side_val(n, minus_spec(t.v2, t.v1), minus_spec(p, t.v1)) >= 0
    &&& side_val(n, minus_spec(t.v0, t.v2), minus_spec(p, t.v2)) >= 0
}

/// Exact executable side test for bounded inputs.
pub fn side_test(n: &Vec3, e: &Vec3, w: &Vec3) -> (res: bool)
    requires
        n.bounded(2 * FX_ONE as int),
        e.bounded(4 * TVB as int),
        w.bounded(4 * CMAX as int),
    ensures
        res == (side_val(*n, *e, *w) >= 0),
{
    proof {
        assert((4 * TVB as int) * (4 * CMAX as int) == 0x2000_0000_0000_0000) by (nonlinear_arith);
        assert((2 * FX_ONE as int) * 0x4000_0000_0000_0000 == 0x8000_0000_0000_0000_0000)
            by (nonlinear_arith);
        lemma_mul_le(e.y as int, w.z as int, 4 * TVB as int, 4 * CMAX as int);
        lemma_mul_le(e.z as int, w.y as int, 4 * TVB as int, 4 * CMAX as int);
        lemma_mul_le(e.z as int, w.x as int, 4 * TVB as int, 4 * CMAX as int);
        lemma_mul_le(e.x as int, w.z as int, 4 * TVB as int, 4 * CMAX as int);
        lemma_mul_le(e.x as int, w.y as int, 4 * TVB as int, 4 * CMAX as int);
        lemma_mul_le(e.y as int, w.x as int, 4 * TVB as int, 4 * CMAX as int);
        lemma_mul_le(n.x as int, (e.y * w.z - e.z * w.y), 2 * FX_ONE as int,
            0x4000_0000_0000_0000);
        lemma_mul_le(n.y as int, (e.z * w.x - e.x * w.z), 2 * FX_ONE as int,
            0x4000_0000_0000_0000);
        lemma_mul_le(n.z as int, (e.x * w.y - e.y * w.x), 2 * FX_ONE as int,
            0x4000_0000_0000_0000);
    }
    let cx: i128 = (e.y as i128) * (w.z as i128) - (e.z as i128) * (w.y as i128);
    let cy: i128 = (e.z as i128) * (w.x as i128) - (e.x as i128) * (w.z as i128);
    let cz: i128 = (e.x as i128) * (w.y as i128) - (e.y as i128) * (w.x as i128);
    let sv: i128 = (n.x as i128) * cx + (n.y as i128) * cy + (n.z as i128) * cz;
    sv >= 0
}

/// The barycentric-style texture coordinates from the x/y system.
pub open spec fn tri_uv(t: Triangle, p: Point3) -> (int, int) {
    let a1 = t.v0.x - t.v1.x;
    let b1 = t.v0.x - t.v2.x;
    let c1 = t.v0.x - p.x;
    let a2 = t.v0.y - t.v1.y;
    let b2 = t.v0.y - t.v2.y;
    let c2 = t.v0.y - p.y;
    let den = a1 * b2 - b1 * a2;
    if den == 0 {
        (0, 0)
    } else {
        let u = fx_clamp_spec(qdiv((c1 * b2 - b1 * c2) * FX_ONE, den), 0, FX_ONE as int);
        let v = fx_clamp_spec(qdiv((a1 * c2 - a2 * c1) * FX_ONE, den), 0, FX_ONE as int);
        (u, v)
    }
}

/// What the triangle intersection returns.
pub open spec fn tri_hit_spec(t: Triangle, r: Ray, t_min: int, t_max: int) -> Option<HitRecord> {
    if !(tri_ok(t) && ray_ok(r) && window_ok(t_min, t_max)) {
        None
    } else {
        let n = tri_normal(t);
        if !n.bounded(2 * FX_ONE as int) {
            None
        } else {
        let nd = dot_spec(n, r.dir);
        if nd == 0 {
            None
        } else {
            let tt = fx_div_spec(dot_spec(minus_spec(t.v0, r.orig), n), nd);
            if !(-T_INF <= tt <= T_INF) {
                None
            } else if !(t_min <= tt <= t_max) {
                None
            } else if !ray_in_box(r, tt, tri_bbox(t)) {
                None
            } else {
                let p = at_spec(r, tt);
                if !p.bounded(2 * CMAX as int) {
                    None
                } else if !tri_inside(t, n, p) {
                    None
                } else {
                    let uv = tri_uv(t, p);
                    Some(HitRecord {
                        p,
                        normal: orient_normal(r, n),
                        t: tt as i64,
                        front_face: orient_front(r, n),
                        mat: t.mat,
                        u: uv.0 as i64,
                        v: uv.1 as i64,
                    })
                }
            }
        }
        }
    }
}

impl Triangle {
    pub fn new(v0: Point3, v1: Point3, v2: Point3, mat: usize) -> (r: Triangle)
        ensures
            r == (Triangle { v0, v1, v2, mat }),
    {
        Triangle { v0, v1, v2, mat }
    }

    pub fn is_ok(&self) -> (r: bool)
        ensures
            r == tri_ok(*self),
    {
        if !(self.v0.is_bounded(TVB) && self.v1.is_bounded(TVB) && self.v2.is_bounded(TVB)) {
            return false;
        }
        let raw = self.v1.minus(&self.v0).cross(&self.v2.minus(&self.v0));
        proof {
            crate::vec3::lemma_cross_bound(
                minus_spec(self.v1, self.v0),
                minus_spec(self.v2, self.v0),
                2 * TVB as int,
            );
        }
        raw.len_square() >= 1
    }

    /// The unit face normal of a nondegenerate triangle.
    pub fn get_normal(&self) -> (n: Vec3)
        requires
            tri_ok(*self),
        ensures
            n == tri_normal(*self),
    {
        proof {
            crate::vec3::lemma_cross_bound(
                minus_spec(self.v1, self.v0),
                minus_spec(self.v2, self.v0),
                2 * TVB as int,
            );
        }
        let raw = self.v1.minus(&self.v0).cross(&self.v2.minus(&self.v0));
        raw.unit_vector()
    }

    pub fn bbox(&self) -> (b: AABB)
        requires
            tri_ok(*self),
        ensures
            b == tri_bbox(*self),
            box_ok(b),
    {
        let mut lx = self.v0.x;
        if self.v1.x < lx {
            lx = self.v1.x;
        }
        if self.v2.x < lx {
            lx = self.v2.x;
        }
        let mut ly = self.v0.y;
        if self.v1.y < ly {
            ly = self.v1.y;
        }
        if self.v2.y < ly {
            ly = self.v2.y;
        }
        let mut lz = self.v0.z;
        if self.v1.z < lz {
            lz = self.v1.z;
        }
        if self.v2.z < lz {
            lz = self.v2.z;
        }
        let mut hx = self.v0.x;
        if self.v1.x > hx {
            hx = self.v1.x;
        }
        if self.v2.x > hx {
            hx = self.v2.x;
        }
        let mut hy = self.v0.y;
        if self.v1.y > hy {
            hy = self.v1.y;
        }
        if self.v2.y > hy {
            hy = self.v2.y;
        }
        let mut hz = self.v0.z;
        if self.v1.z > hz {
            hz = self.v1.z;
        }
        if self.v2.z > hz {
            hz = self.v2.z;
        }
        AABB {
            mini: Vec3 { x: lx - EPS_PAD, y: ly - EPS_PAD, z: lz - EPS_PAD },
            maxi: Vec3 { x: hx + EPS_PAD, y: hy + EPS_PAD, z: hz + EPS_PAD },
        }
    }

    pub fn bounding_box(&self, _time0: i64, _time1: i64) -> (b: Option<AABB>)
        ensures
            b == (if tri_ok(*self) {
                Some(tri_bbox(*self))
            } else {
                Option::<AABB>::None
            }),
    {
        if self.is_ok() {
            Some(self.bbox())
        } else {
            None
        }
    }

    pub fn hit(&self, r: &Ray, t_min: i64, t_max: i64) -> (res: Option<HitRecord>)
        ensures
            res == tri_hit_spec(*self, *r, t_min as int, t_max as int),
    {
        if !(self.is_ok() && r.is_ok() && -T_INF <= t_min && t_min <= T_INF && -T_INF <= t_max
            && t_max <= T_INF) {
            return None;
        }
        let n = self.get_normal();
        if !n.is_bounded(2 * FX_ONE) {
            return None;
        }
        let nd = n.dot(&r.dir);
        if nd == 0 {
            return None;
        }
        let w = self.v0.minus(&r.orig);
        let num = w.dot(&n);
        proof {
            crate::vec3::lemma_dot_bound(minus_spec(self.v0, r.orig), tri_normal(*self),
                2 * CMAX as int);
            lemma_mul_le(
                dot_spec(minus_spec(self.v0, r.orig), tri_normal(*self)),
                FX_ONE as int,
                ((3 * (2 * CMAX as int) * (2 * CMAX as int)) / (FX_ONE as int)),
                FX_ONE as int,
            );
        }
        let t128: i128 = qdiv_i128((num as i128) * 65536, nd as i128);
        if !(-(T_INF as i128) <= t128 && t128 <= T_INF as i128) {
            return None;
        }
        let t: i64 = t128 as i64;
        if !(t_min <= t && t <= t_max) {
            return None;
        }
        let bbox = self.bbox();
        if !point_in_box(r, t, &bbox) {
            return None;
        }
        let p = r.at(t);
        proof {
            lemma_at_bounded(*r, t as int);
        }
        if !p.is_bounded(2 * CMAX) {
            return None;
        }
        let i1 = side_test(&n, &self.v1.minus(&self.v0), &p.minus(&self.v0));
        let i2 = side_test(&n, &self.v2.minus(&self.v1), &p.minus(&self.v1));
        let i3 = side_test(&n, &self.v0.minus(&self.v2), &p.minus(&self.v2));
        if !(i1 && i2 && i3) {
            return None;
        }
        proof {
            lemma_mul_le((self.v0.x - self.v1.x) as int, (self.v0.y - self.v2.y) as int,
                2 * TVB as int, 2 * TVB as int);
            lemma_mul_le((self.v0.x - self.v2.x) as int, (self.v0.y - self.v1.y) as int,
                2 * TVB as int, 2 * TVB as int);
            lemma_mul_le((self.v0.x - p.x) as int, (self.v0.y - self.v2.y) as int,
                3 * CMAX as int, 2 * TVB as int);
            lemma_mul_le((self.v0.x - self.v2.x) as int, (self.v0.y - p.y) as int,
                2 * TVB as int, 3 * CMAX as int);
            lemma_mul_le((self.v0.x - self.v1.x) as int, (self.v0.y - p.y) as int,
                2 * TVB as int, 3 * CMAX as int);
            lemma_mul_le((self.v0.y - self.v1.y) as int, (self.v0.x - p.x) as int,
                2 * TVB as int, 3 * CMAX as int);
        }
        let a1: i128 = (self.v0.x as i128) - (self.v1.x as i128);
        let b1: i128 = (self.v0.x as i128) - (self.v2.x as i128);
        let c1: i128 = (self.v0.x as i128) - (p.x as i128);
        let a2: i128 = (self.v0.y as i128) - (self.v1.y as i128);
        let b2: i128 = (self.v0.y as i128) - (self.v2.y as i128);
        let c2: i128 = (self.v0.y as i128) - (p.y as i128);
        let den: i128 = a1 * b2 - b1 * a2;
        let (u, v): (i64, i64) = if den == 0 {
            (0i64, 0i64)
        } else {
            let un: i128 = (c1 * b2 - b1 * c2) * 65536;
            let vn: i128 = (a1 * c2 - a2 * c1) * 65536;
            let uq: i128 = qdiv_i128(un, den);
            let vq: i128 = qdiv_i128(vn, den);
            let one: i128 = FX_ONE as i128;
            let uc: i128 = if uq < 0 {
                0
            } else if uq > one {
                one
            } else {
                uq
            };
            let vc: i128 = if vq < 0 {
                0
            } else if vq > one {
                one
            } else {
                vq
            };
            (uc as i64, vc as i64)
        };
        let mut rec = HitRecord::new(t, p, Vec3::zero(), false, self.mat, u, v);
        rec.set_face_normal(r, &n);
        Some(rec)
    }
}

/// Every hit the triangle reports is well formed, lies inside the search
/// window and inside the padded bounding box.
pub proof fn lemma_tri_hit_props(t: Triangle, r: Ray, t_min: int, t_max: int)
    ensures
        tri_hit_spec(t, r, t_min, t_max) matches Some(rec) ==> {
            &&& rec_ok(rec)
            &&& t_min <= rec.t <= t_max
            &&& ray_in_box(r, rec.t as int, tri_bbox(t))
            &&& box_ok(tri_bbox(t))
            &&& tri_ok(t)
            &&& ray_ok(r)
        },
{
    if tri_hit_spec(t, r, t_min, t_max) matches Some(rec) {
        let n = tri_normal(t);
        let nd = dot_spec(n, r.dir);
        let tt = fx_div_spec(dot_spec(minus_spec(t.v0, r.orig), n), nd);
        lemma_at_bounded(r, tt);
    }
}

/// Narrowing the window only filters the triangle's reported hit.
pub proof fn lemma_tri_window(t: Triangle, r: Ray, t_min: int, t1: int, t2: int)
    requires
        t1 <= t2,
        window_ok(t_min, t1),
        window_ok(t_min, t2),
    ensures
        tri_hit_spec(t, r, t_min, t1) == (match tri_hit_spec(t, r, t_min, t2) {
            Some(rec) => if rec.t <= t1 {
                Some(rec)
            } else {
                None
            },
            None => None,
        }),
{
}

} // verus!
