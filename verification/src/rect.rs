//! Axis-aligned rectangles in the three plane orientations.
//!
//! A rectangle solves for the single plane-crossing parameter exactly; a
//! ray parallel to the plane (zero direction component, where floating
//! point would produce an undefined parameter) is rejected explicitly.
//! Every reported hit is checked to lie inside the rectangle's padded
//! bounding box, which is what lets the bounding-volume hierarchy prune
//! soundly.

use vstd::prelude::*;
use crate::fx::{FX_ONE, fx_div_spec, fx_clamp, fx_clamp_spec, fx_div, lemma_div_ratio};
use crate::vec3::Vec3;
use crate::ray::{Ray, ray_ok, window_ok, at_spec, lemma_at_bounded, T_INF, CMAX};
use crate::aabb::{AABB, box_ok, ray_in_box, point_in_box, EPS_PAD};
use crate::hit::{HitRecord, orient_front, orient_normal, rec_ok};

verus! {

#[derive(Clone, Copy, Debug, PartialEq, Eq, Structural)]
pub struct Rectanglexy {
    pub x0: i64,
    pub x1: i64,
    pub y0: i64,
    pub y1: i64,
    pub k: i64,
    pub mat: usize,
}

/// Well-formed: a nonempty rectangle inside the padded coordinate range.
pub open spec fn rect_xy_ok(q: Rectanglexy) -> bool {
    &&& -(CMAX - EPS_PAD) <= q.x0 < q.x1 <= CMAX - EPS_PAD
    &&& -(CMAX - EPS_PAD) <= q.y0 < q.y1 <= CMAX - EPS_PAD
    &&& -(CMAX - EPS_PAD) <= q.k <= CMAX - EPS_PAD
}

pub open spec fn rect_xy_bbox(q: Rectanglexy) -> AABB {
    AABB {
        mini: Vec3 { x: q.x0, y: q.y0, z: (q.k - EPS_PAD) as i64 },
        maxi: Vec3 { x: q.x1, y: q.y1, z: (q.k + EPS_PAD) as i64 },
    }
}

/// What the intersection returns: the plane-crossing parameter, narrowed by
/// the window, the in-plane bounds and the padded-box membership check.
pub open spec fn rect_xy_hit_spec(q: Rectanglexy, r: Ray, t_min: int, t_max: int) -> Option<
    HitRecord,
> {
    if !(rect_xy_ok(q) && ray_ok(r) && window_ok(t_min, t_max)) {
        None
    } else if r.dir.z == 0 {
        None
    } else {
        let t = fx_div_spec(q.k - r.orig.z, r.dir.z as int);
        if !(-T_INF <= t <= T_INF) {
            None
        } else if !(t_min <= t <= t_max) {
            None
        } else {
            let p = at_spec(r, t);
            if p.x < q.x0 || p.x > q.x1 || p.y < q.y0 || p.y > q.y1 {
                None
            } else if !ray_in_box(r, t, rect_xy_bbox(q)) {
                None
            } else {
                let u = fx_clamp_spec(fx_div_spec(p.x - q.x0, q.x1 - q.x0), 0, FX_ONE as int);
                let v = fx_clamp_spec(fx_div_spec(p.y - q.y0, q.y1 - q.y0), 0, FX_ONE as int);
                let outward = Vec3 { x: 0, y: 0, z: FX_ONE };
                Some(HitRecord {
                    p,
                    normal: orient_normal(r, outward),
                    t: t as i64,
                    front_face: orient_front(r, outward),
                    mat: q.mat,
                    u: u as i64,
                    v: v as i64,
                })
            }
        }
    }
}

impl Rectanglexy {
    pub fn new(x0: i64, x1: i64, y0: i64, y1: i64, k: i64, mat: usize) -> (r: Rectanglexy)
        ensures
            r == (Rectanglexy { x0, x1, y0, y1, k, mat }),
    {
        Rectanglexy { x0, x1, y0, y1, k, mat }
    }

    pub fn is_ok(&self) -> (r: bool)
        ensures
            r == rect_xy_ok(*self),
    {
        let lim = CMAX - EPS_PAD;
        -lim <= self.x0 && self.x0 < self.x1 && self.x1 <= lim && -lim <= self.y0 && self.y0
            < self.y1 && self.y1 <= lim && -lim <= self.k && self.k <= lim
    }

    pub fn bbox(&self) -> (b: AABB)
        requires
            rect_xy_ok(*self),
        ensures
            b == rect_xy_bbox(*self),
            box_ok(b),
    {
        AABB {
            mini: Vec3 { x: self.x0, y: self.y0, z: self.k - EPS_PAD },
            maxi: Vec3 { x: self.x1, y: self.y1, z: self.k + EPS_PAD },
        }
    }

    pub fn bounding_box(&self, _time0: i64, _time1: i64) -> (b: Option<AABB>)
        ensures
            b == (if rect_xy_ok(*self) {
                Some(rect_xy_bbox(*self))
            } else {
                Option::<AABB>::None
            }),
    {
        if self.is_ok() {
            Some(self.bbox())
        } else {
            None
        }
    }

    pub fn hit(&self, r: &Ray, t_min: i64, t_max: i64) -> (res: Option<HitRecord>)
        ensures
            res == rect_xy_hit_spec(*self, *r, t_min as int, t_max as int),
    {
        if !(self.is_ok() && r.is_ok() && -T_INF <= t_min && t_min <= T_INF && -T_INF <= t_max
            && t_max <= T_INF) {
            return None;
        }
        if r.dir.z == 0 {
            return None;
        }
        let tn: i128 = ((self.k as i128) - (r.orig.z as i128)) * 65536;
        let t128: i128 = crate::fx::qdiv_i128(tn, r.dir.z as i128);
        if !(-(T_INF as i128) <= t128 && t128 <= T_INF as i128) {
            return None;
        }
        let t: i64 = t128 as i64;
        if !(t_min <= t && t <= t_max) {
            return None;
        }
        let p = r.at(t);
        if p.x < self.x0 || p.x > self.x1 || p.y < self.y0 || p.y > self.y1 {
            return None;
        }
        let bbox = self.bbox();
        if !point_in_box(r, t, &bbox) {
            return None;
        }
        proof {
            lemma_div_ratio(p.x - self.x0, self.x1 - self.x0);
            lemma_div_ratio(p.y - self.y0, self.y1 - self.y0);
            lemma_at_bounded(*r, t as int);
        }
        let u = fx_clamp(fx_div(p.x - self.x0, self.x1 - self.x0), 0, FX_ONE);
        let v = fx_clamp(fx_div(p.y - self.y0, self.y1 - self.y0), 0, FX_ONE);
        let outward = Vec3 { x: 0, y: 0, z: FX_ONE };
        let mut rec = HitRecord::new(t, p, Vec3::zero(), false, self.mat, u, v);
        rec.set_face_normal(r, &outward);
        Some(rec)
    }
}

/// Every hit the rectangle reports is well formed, lies inside the search
/// window and inside the padded bounding box.
pub proof fn lemma_rect_xy_hit_props(q: Rectanglexy, r: Ray, t_min: int, t_max: int)
    ensures
        rect_xy_hit_spec(q, r, t_min, t_max) matches Some(rec) ==> {
            &&& rec_ok(rec)
            &&& t_min <= rec.t <= t_max
            &&& ray_in_box(r, rec.t as int, rect_xy_bbox(q))
            &&& box_ok(rect_xy_bbox(q))
            &&& rect_xy_ok(q)
            &&& ray_ok(r)
        },
{
    if rect_xy_hit_spec(q, r, t_min, t_max) matches Some(rec) {
        let t = fx_div_spec(q.k - r.orig.z, r.dir.z as int);
        lemma_at_bounded(r, t);
    }
}

/// Narrowing the window only filters the reported hit by its parameter.
pub proof fn lemma_rect_xy_window(q: Rectanglexy, r: Ray, t_min: int, t1: int, t2: int)
    requires
        t1 <= t2,
        window_ok(t_min, t1),
        window_ok(t_min, t2),
    ensures
        rect_xy_hit_spec(q, r, t_min, t1) == (match rect_xy_hit_spec(q, r, t_min, t2) {
            Some(rec) => if rec.t <= t1 {
                Some(rec)
            } else {
                None
            },
            None => None,
        }),
{
}

#[derive(Clone, Copy, Debug, PartialEq, Eq, Structural)]
pub struct Rectanglexz {
    pub x0: i64,
    pub x1: i64,
    pub z0: i64,
    pub z1: i64,
    pub k: i64,
    pub mat: usize,
}

/// Well-formed: a nonempty rectangle inside the padded coordinate range.
pub open spec fn rect_xz_ok(q: Rectanglexz) -> bool {
    &&& -(CMAX - EPS_PAD) <= q.x0 < q.x1 <= CMAX - EPS_PAD
    &&& -(CMAX - EPS_PAD) <= q.z0 < q.z1 <= CMAX - EPS_PAD
    &&& -(CMAX - EPS_PAD) <= q.k <= CMAX - EPS_PAD
}

pub open spec fn rect_xz_bbox(q: Rectanglexz) -> AABB {
    AABB {
        mini: Vec3 { x: q.x0, y: (q.k - EPS_PAD) as i64, z: q.z0 },
        maxi: Vec3 { x: q.x1, y: (q.k + EPS_PAD) as i64, z: q.z1 },
    }
}

/// What the intersection returns: the plane-crossing parameter, narrowed by
/// the window, the in-plane bounds and the padded-box membership check.
pub open spec fn rect_xz_hit_spec(q: Rectanglexz, r: Ray, t_min: int, t_max: int) -> Option<
    HitRecord,
> {
    if !(rect_xz_ok(q) && ray_ok(r) && window_ok(t_min, t_max)) {
        None
    } else if r.dir.y == 0 {
        None
    } else {
        let t = fx_div_spec(q.k - r.orig.y, r.dir.y as int);
        if !(-T_INF <= t <= T_INF) {
            None
        } else if !(t_min <= t <= t_max) {
            None
        } else {
            let p = at_spec(r, t);
            if p.x < q.x0 || p.x > q.x1 || p.z < q.z0 || p.z > q.z1 {
                None
            } else if !ray_in_box(r, t, rect_xz_bbox(q)) {
                None
            } else {
                let u = fx_clamp_spec(fx_div_spec(p.x - q.x0, q.x1 - q.x0), 0, FX_ONE as int);
                let v = fx_clamp_spec(fx_div_spec(p.z - q.z0, q.z1 - q.z0), 0, FX_ONE as int);
                let outward = Vec3 { x: 0, y: FX_ONE, z: 0 };
                Some(HitRecord {
                    p,
                    normal: orient_normal(r, outward),
                    t: t as i64,
                    front_face: orient_front(r, outward),
                    mat: q.mat,
                    u: u as i64,
                    v: v as i64,
                })
            }
        }
    }
}

impl Rectanglexz {
    pub fn new(x0: i64, x1: i64, z0: i64, z1: i64, k: i64, mat: usize) -> (r: Rectanglexz)
        ensures
            r == (Rectanglexz { x0, x1, z0, z1, k, mat }),
    {
        Rectanglexz { x0, x1, z0, z1, k, mat }
    }

    pub fn is_ok(&self) -> (r: bool)
        ensures
            r == rect_xz_ok(*self),
    {
        let lim = CMAX - EPS_PAD;
        -lim <= self.x0 && self.x0 < self.x1 && self.x1 <= lim && -lim <= self.z0 && self.z0
            < self.z1 && self.z1 <= lim && -lim <= self.k && self.k <= lim
    }

    pub fn bbox(&self) -> (b: AABB)
        requires
            rect_xz_ok(*self),
        ensures
            b == rect_xz_bbox(*self),
            box_ok(b),
    {
        AABB {
            mini: Vec3 { x: self.x0, y: self.k - EPS_PAD, z: self.z0 },
            maxi: Vec3 { x: self.x1, y: self.k + EPS_PAD, z: self.z1 },
        }
    }

    pub fn bounding_box(&self, _time0: i64, _time1: i64) -> (b: Option<AABB>)
        ensures
            b == (if rect_xz_ok(*self) {
                Some(rect_xz_bbox(*self))
            } else {
                Option::<AABB>::None
            }),
    {
        if self.is_ok() {
            Some(self.bbox())
        } else {
            None
        }
    }

    pub fn hit(&self, r: &Ray, t_min: i64, t_max: i64) -> (res: Option<HitRecord>)
        ensures
            res == rect_xz_hit_spec(*self, *r, t_min as int, t_max as int),
    {
        if !(self.is_ok() && r.is_ok() && -T_INF <= t_min && t_min <= T_INF && -T_INF <= t_max
            && t_max <= T_INF) {
            return None;
        }
        if r.dir.y == 0 {
            return None;
        }
        let tn: i128 = ((self.k as i128) - (r.orig.y as i128)) * 65536;
        let t128: i128 = crate::fx::qdiv_i128(tn, r.dir.y as i128);
        if !(-(T_INF as i128) <= t128 && t128 <= T_INF as i128) {
            return None;
        }
        let t: i64 = t128 as i64;
        if !(t_min <= t && t <= t_max) {
            return None;
        }
        let p = r.at(t);
        if p.x < self.x0 || p.x > self.x1 || p.z < self.z0 || p.z > self.z1 {
            return None;
        }
        let bbox = self.bbox();
        if !point_in_box(r, t, &bbox) {
            return None;
        }
        proof {
            lemma_div_ratio(p.x - self.x0, self.x1 - self.x0);
            lemma_div_ratio(p.z - self.z0, self.z1 - self.z0);
            lemma_at_bounded(*r, t as int);
        }
        let u = fx_clamp(fx_div(p.x - self.x0, self.x1 - self.x0), 0, FX_ONE);
        let v = fx_clamp(fx_div(p.z - self.z0, self.z1 - self.z0), 0, FX_ONE);
        let outward = Vec3 { x: 0, y: FX_ONE, z: 0 };
        let mut rec = HitRecord::new(t, p, Vec3::zero(), false, self.mat, u, v);
        rec.set_face_normal(r, &outward);
        Some(rec)
    }
}

/// Every hit the rectangle reports is well formed, lies inside the search
/// window and inside the padded bounding box.
pub proof fn lemma_rect_xz_hit_props(q: Rectanglexz, r: Ray, t_min: int, t_max: int)
    ensures
        rect_xz_hit_spec(q, r, t_min, t_max) matches Some(rec) ==> {
            &&& rec_ok(rec)
            &&& t_min <= rec.t <= t_max
            &&& ray_in_box(r, rec.t as int, rect_xz_bbox(q))
            &&& box_ok(rect_xz_bbox(q))
            &&& rect_xz_ok(q)
            &&& ray_ok(r)
        },
{
    if rect_xz_hit_spec(q, r, t_min, t_max) matches Some(rec) {
        let t = fx_div_spec(q.k - r.orig.y, r.dir.y as int);
        lemma_at_bounded(r, t);
    }
}

/// Narrowing the window only filters the reported hit by its parameter.
pub proof fn lemma_rect_xz_window(q: Rectanglexz, r: Ray, t_min: int, t1: int, t2: int)
    requires
        t1 <= t2,
        window_ok(t_min, t1),
        window_ok(t_min, t2),
    ensures
        rect_xz_hit_spec(q, r, t_min, t1) == (match rect_xz_hit_spec(q, r, t_min, t2) {
            Some(rec) => if rec.t <= t1 {
                Some(rec)
            } else {
                None
            },
            None => None,
        }),
{
}


#[derive(Clone, Copy, Debug, PartialEq, Eq, Structural)]
pub struct Rectangleyz {
    pub y0: i64,
    pub y1: i64,
    pub z0: i64,
    pub z1: i64,
    pub k: i64,
    pub mat: usize,
}

/// Well-formed: a nonempty rectangle inside the padded coordinate range.
pub open spec fn rect_yz_ok(q: Rectangleyz) -> bool {
    &&& -(CMAX - EPS_PAD) <= q.y0 < q.y1 <= CMAX - EPS_PAD
    &&& -(CMAX - EPS_PAD) <= q.z0 < q.z1 <= CMAX - EPS_PAD
    &&& -(CMAX - EPS_PAD) <= q.k <= CMAX - EPS_PAD
}

pub open spec fn rect_yz_bbox(q: Rectangleyz) -> AABB {
    AABB {
        mini: Vec3 { x: (q.k - EPS_PAD) as i64, y: q.y0, z: q.z0 },
        maxi: Vec3 { x: (q.k + EPS_PAD) as i64, y: q.y1, z: q.z1 },
    }
}

/// What the intersection returns: the plane-crossing parameter, narrowed by
/// the window, the in-plane bounds and the padded-box membership check.
pub open spec fn rect_yz_hit_spec(q: Rectangleyz, r: Ray, t_min: int, t_max: int) -> Option<
    HitRecord,
> {
    if !(rect_yz_ok(q) && ray_ok(r) && window_ok(t_min, t_max)) {
        None
    } else if r.dir.x == 0 {
        None
    } else {
        let t = fx_div_spec(q.k - r.orig.x, r.dir.x as int);
        if !(-T_INF <= t <= T_INF) {
            None
        } else if !(t_min <= t <= t_max) {
            None
        } else {
            let p = at_spec(r, t);
            if p.y < q.y0 || p.y > q.y1 || p.z < q.z0 || p.z > q.z1 {
                None
            } else if !ray_in_box(r, t, rect_yz_bbox(q)) {
                None
            } else {
                let u = fx_clamp_spec(fx_div_spec(p.y - q.y0, q.y1 - q.y0), 0, FX_ONE as int);
                let v = fx_clamp_spec(fx_div_spec(p.z - q.z0, q.z1 - q.z0), 0, FX_ONE as int);
                let outward = Vec3 { x: FX_ONE, y: 0, z: 0 };
                Some(HitRecord {
                    p,
                    normal: orient_normal(r, outward),
                    t: t as i64,
                    front_face: orient_front(r, outward),
                    mat: q.mat,
                    u: u as i64,
                    v: v as i64,
                })
            }
        }
    }
}

impl Rectangleyz {
    pub fn new(y0: i64, y1: i64, z0: i64, z1: i64, k: i64, mat: usize) -> (r: Rectangleyz)
        ensures
            r == (Rectangleyz { y0, y1, z0, z1, k, mat }),
    {
        Rectangleyz { y0, y1, z0, z1, k, mat }
    }

    pub fn is_ok(&self) -> (r: bool)
        ensures
            r == rect_yz_ok(*self),
    {
        let lim = CMAX - EPS_PAD;
        -lim <= self.y0 && self.y0 < self.y1 && self.y1 <= lim && -lim <= self.z0 && self.z0
            < self.z1 && self.z1 <= lim && -lim <= self.k && self.k <= lim
    }

    pub fn bbox(&self) -> (b: AABB)
        requires
            rect_yz_ok(*self),
        ensures
            b == rect_yz_bbox(*self),
            box_ok(b),
    {
        AABB {
            mini: Vec3 { x: self.k - EPS_PAD, y: self.y0, z: self.z0 },
            maxi: Vec3 { x: self.k + EPS_PAD, y: self.y1, z: self.z1 },
        }
    }

    pub fn bounding_box(&self, _time0: i64, _time1: i64) -> (b: Option<AABB>)
        ensures
            b == (if rect_yz_ok(*self) {
                Some(rect_yz_bbox(*self))
            } else {
                Option::<AABB>::None
            }),
    {
        if self.is_ok() {
            Some(self.bbox())
        } else {
            None
        }
    }

    pub fn hit(&self, r: &Ray, t_min: i64, t_max: i64) -> (res: Option<HitRecord>)
        ensures
            res == rect_yz_hit_spec(*self, *r, t_min as int, t_max as int),
    {
        if !(self.is_ok() && r.is_ok() && -T_INF <= t_min && t_min <= T_INF && -T_INF <= t_max
            && t_max <= T_INF) {
            return None;
        }
        if r.dir.x == 0 {
            return None;
        }
        let tn: i128 = ((self.k as i128) - (r.orig.x as i128)) * 65536;
        let t128: i128 = crate::fx::qdiv_i128(tn, r.dir.x as i128);
        if !(-(T_INF as i128) <= t128 && t128 <= T_INF as i128) {
            return None;
        }
        let t: i64 = t128 as i64;
        if !(t_min <= t && t <= t_max) {
            return None;
        }
        let p = r.at(t);
        if p.y < self.y0 || p.y > self.y1 || p.z < self.z0 || p.z > self.z1 {
            return None;
        }
        let bbox = self.bbox();
        if !point_in_box(r, t, &bbox) {
            return None;
        }
        proof {
            lemma_div_ratio(p.y - self.y0, self.y1 - self.y0);
            lemma_div_ratio(p.z - self.z0, self.z1 - self.z0);
            lemma_at_bounded(*r, t as int);
        }
        let u = fx_clamp(fx_div(p.y - self.y0, self.y1 - self.y0), 0, FX_ONE);
        let v = fx_clamp(fx_div(p.z - self.z0, self.z1 - self.z0), 0, FX_ONE);
        let outward = Vec3 { x: FX_ONE, y: 0, z: 0 };
        let mut rec = HitRecord::new(t, p, Vec3::zero(), false, self.mat, u, v);
        rec.set_face_normal(r, &outward);
        Some(rec)
    }
}

/// Every hit the rectangle reports is well formed, lies inside the search
/// window and inside the padded bounding box.
pub proof fn lemma_rect_yz_hit_props(q: Rectangleyz, r: Ray, t_min: int, t_max: int)
    ensures
        rect_yz_hit_spec(q, r, t_min, t_max) matches Some(rec) ==> {
            &&& rec_ok(rec)
            &&& t_min <= rec.t <= t_max
            &&& ray_in_box(r, rec.t as int, rect_yz_bbox(q))
            &&& box_ok(rect_yz_bbox(q))
            &&& rect_yz_ok(q)
            &&& ray_ok(r)
        },
{
    if rect_yz_hit_spec(q, r, t_min, t_max) matches Some(rec) {
        let t = fx_div_spec(q.k - r.orig.x, r.dir.x as int);
        lemma_at_bounded(r, t);
    }
}

/// Narrowing the window only filters the reported hit by its parameter.
pub proof fn lemma_rect_yz_window(q: Rectangleyz, r: Ray, t_min: int, t1: int, t2: int)
    requires
        t1 <= t2,
        window_ok(t_min, t1),
        window_ok(t_min, t2),
    ensures
        rect_yz_hit_spec(q, r, t_min, t1) == (match rect_yz_hit_spec(q, r, t_min, t2) {
            Some(rec) => if rec.t <= t1 {
                Some(rec)
            } else {
                None
            },
            None => None,
        }),
{
}

} // verus!
