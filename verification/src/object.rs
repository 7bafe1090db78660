//! The scene tree: every kind of hittable object as one closed sum.
//!
//! Leaf primitives carry exact intersection mirrors; composites (lists,
//! boxes, transforms, participating media and the bounding-volume
//! hierarchy) recurse.  Every composite, after obtaining a child's hit,
//! re-checks the hit against its own bounding box when it has one, so a
//! reported hit always lies inside the reporting object's box — the fact
//! the hierarchy's pruning rests on.  The participating medium draws
//! randomness, so it has no deterministic mirror; everything else is
//! specified exactly.

use vstd::prelude::*;
use crate::fx::{
    FX_ONE, fx_mul_spec, fx_div_spec, fx_clamp_spec, fx_mul, fx_div, neg_ln_unit, lemma_mul_le,
    lemma_qdiv_le,
};
use crate::vec3::{Vec3, Point3, minus_spec, plus_spec, neg_spec, dot_spec, VMAX};
use crate::ray::{Ray, ray_ok, window_ok, at_spec, lemma_at_bounded, T_INF, CMAX, DMAX};
use crate::aabb::{
    AABB, box_ok, ray_in_box, point_in_box, surrounding_box, surrounding_spec, EPS_PAD,
};
use crate::hit::{HitRecord, orient_front, orient_normal, rec_ok, PMAX};
use crate::rect::{
    Rectanglexy, Rectanglexz, Rectangleyz, rect_xy_hit_spec, rect_xz_hit_spec, rect_yz_hit_spec,
    rect_xy_ok, rect_xz_ok, rect_yz_ok, rect_xy_bbox, rect_xz_bbox, rect_yz_bbox,
    lemma_rect_xy_hit_props, lemma_rect_xz_hit_props, lemma_rect_yz_hit_props,
};
use crate::sphere::{
    Sphere, MoveSphere, sphere_hit_spec, move_sphere_hit_spec, sphere_ok, move_sphere_ok,
    sphere_bbox, move_sphere_bbox, lemma_sphere_hit_props, lemma_move_sphere_hit_props,
};
use crate::triangle::{Triangle, tri_hit_spec, tri_ok, tri_bbox, lemma_tri_hit_props};
use crate::rng::random_unit;

verus! {

/// An aggregate of objects, scanned linearly for the closest hit.
pub struct HittableList {
    pub objects: Vec<Object>,
}

/// An axis-aligned box: six rectangles and the two corners.
pub struct Cube {
    pub box_min: Point3,
    pub box_max: Point3,
    pub side: HittableList,
}

/// A translation decorator: the inner object shifted by `offset`.
pub struct Translate {
    pub inner: Box<Object>,
    pub offset: Vec3,
}

/// A rotation about the y axis, with the sine and cosine of the angle and
/// the swept bounding box fixed at construction.
pub struct Rotatey {
    pub inner: Box<Object>,
    pub sin_theta: i64,
    pub cos_theta: i64,
    pub bbox: AABB,
}

/// A constant-density participating medium bounded by another object.
pub struct ConstantMedium {
    pub boundary: Box<Object>,
    pub density: i64,
    pub mat: usize,
}

/// A node of the bounding-volume hierarchy.  A missing right child stands
/// for the degenerate one-object node, where both children would be the
/// same object.
pub struct BvhNode {
    pub left: Box<Object>,
    pub right: Option<Box<Object>>,
    pub box_aabb: AABB,
}

pub enum Object {
    Sphere(Sphere),
    MoveSphere(MoveSphere),
    RectXy(Rectanglexy),
    RectXz(Rectanglexz),
    RectYz(Rectangleyz),
    Tri(Triangle),
    Cube(Cube),
    Translate(Translate),
    Rotate(Rotatey),
    Medium(ConstantMedium),
    List(HittableList),
    Bvh(BvhNode),
}

/// No participating medium anywhere inside: the object's intersection is a
/// function of the ray and window alone.
pub open spec fn deterministic(o: Object) -> bool
    decreases o, 0int,
{
    match o {
        Object::Medium(_) => false,
        Object::Translate(t) => deterministic(*t.inner),
        Object::Rotate(t) => deterministic(*t.inner),
        Object::Cube(c) => det_all(c.side.objects@),
        Object::List(l) => det_all(l.objects@),
        Object::Bvh(b) => deterministic(*b.left) && match b.right {
            Some(rn) => deterministic(*rn),
            None => true,
        },
        _ => true,
    }
}

pub open spec fn det_all(s: Seq<Object>) -> bool
    decreases s, s.len(),
{
    if s.len() == 0 {
        true
    } else {
        deterministic(s[0]) && det_all(s.drop_first())
    }
}

/// Validity gates for the rotation decorator.
pub open spec fn rot_ok(t: Rotatey) -> bool {
    &&& -FX_ONE <= t.sin_theta <= FX_ONE
    &&& -FX_ONE <= t.cos_theta <= FX_ONE
    &&& box_ok(t.bbox)
}

pub open spec fn cube_ok(c: Cube) -> bool {
    &&& c.box_min.bounded((CMAX - EPS_PAD) as int)
    &&& c.box_max.bounded((CMAX - EPS_PAD) as int)
}

pub open spec fn cube_bbox(c: Cube) -> AABB {
    AABB {
        mini: Vec3 {
            x: (c.box_min.x - EPS_PAD) as i64,
            y: (c.box_min.y - EPS_PAD) as i64,
            z: (c.box_min.z - EPS_PAD) as i64,
        },
        maxi: Vec3 {
            x: (c.box_max.x + EPS_PAD) as i64,
            y: (c.box_max.y + EPS_PAD) as i64,
            z: (c.box_max.z + EPS_PAD) as i64,
        },
    }
}

/// The box an object reports, if any.
pub open spec fn o_bbox_spec(o: Object) -> Option<AABB>
    decreases o, 0int,
{
    match o {
        Object::Sphere(s) => if sphere_ok(s) {
            Some(sphere_bbox(s))
        } else {
            None
        },
        Object::MoveSphere(s) => if move_sphere_ok(s) {
            Some(move_sphere_bbox(s))
        } else {
            None
        },
        Object::RectXy(q) => if rect_xy_ok(q) {
            Some(rect_xy_bbox(q))
        } else {
            None
        },
        Object::RectXz(q) => if rect_xz_ok(q) {
            Some(rect_xz_bbox(q))
        } else {
            None
        },
        Object::RectYz(q) => if rect_yz_ok(q) {
            Some(rect_yz_bbox(q))
        } else {
            None
        },
        Object::Tri(t) => if tri_ok(t) {
            Some(tri_bbox(t))
        } else {
            None
        },
        Object::Cube(c) => if cube_ok(c) {
            Some(cube_bbox(c))
        } else {
            None
        },
        Object::Translate(t) => if t.offset.bounded((CMAX as int) / 2) {
            match o_bbox_spec(*t.inner) {
                Some(b) => {
                    let sb = AABB {
                        mini: Vec3 {
                            x: (b.mini.x + t.offset.x) as i64,
                            y: (b.mini.y + t.offset.y) as i64,
                            z: (b.mini.z + t.offset.z) as i64,
                        },
                        maxi: Vec3 {
                            x: (b.maxi.x + t.offset.x) as i64,
                            y: (b.maxi.y + t.offset.y) as i64,
                            z: (b.maxi.z + t.offset.z) as i64,
                        },
                    };
                    if box_ok(b) {
                        Some(sb)
                    } else {
                        None
                    }
                },
                None => None,
            }
        } else {
            None
        },
        Object::Rotate(t) => if rot_ok(t) {
            Some(t.bbox)
        } else {
            None
        },
        Object::Medium(m) => o_bbox_spec(*m.boundary),
        Object::List(l) => list_bbox_spec(l.objects@),
        Object::Bvh(b) => if box_ok(b.box_aabb) {
            Some(b.box_aabb)
        } else {
            None
        },
    }
}

/// The union of a sequence of objects' boxes, if every one has a box.
pub open spec fn list_bbox_spec(s: Seq<Object>) -> Option<AABB>
    decreases s, s.len() + 1,
{
    if s.len() == 0 {
        None
    } else {
        match o_bbox_spec(s[0]) {
            None => None,
            Some(b0) => list_bbox_from(s, 1, b0),
        }
    }
}

/// Left fold of the children's boxes from index `i`.
pub open spec fn list_bbox_from(s: Seq<Object>, i: int, acc: AABB) -> Option<AABB>
    decreases s, s.len() - i,
{
    if i < 0 || i >= s.len() {
        Some(acc)
    } else {
        match o_bbox_spec(s[i]) {
            None => None,
            Some(b) => list_bbox_from(s, i + 1, surrounding_spec(acc, b)),
        }
    }
}

/// A hit a composite hands on, re-checked against the composite's own box.
pub open spec fn post_check(res: Option<HitRecord>, bb: Option<AABB>, r: Ray) -> Option<
    HitRecord,
> {
    match res {
        None => None,
        Some(rec) => match bb {
            None => Some(rec),
            Some(b) => if box_ok(b) {
                if ray_in_box(r, rec.t as int, b) {
                    Some(rec)
                } else {
                    None
                }
            } else {
                Some(rec)
            },
        },
    }
}

/// The linear scan from index `i`, with the best hit so far and its
/// parameter as the shrunken far end of the window.
pub open spec fn scan_from(
    s: Seq<Object>,
    i: int,
    r: Ray,
    t_min: int,
    closest: int,
    best: Option<HitRecord>,
) -> Option<HitRecord>
    decreases s, s.len() - i,
{
    if i < 0 || i >= s.len() {
        best
    } else {
        match o_hit_spec(s[i], r, t_min, closest) {
            Some(rec) => scan_from(s, i + 1, r, t_min, rec.t as int, Some(rec)),
            None => scan_from(s, i + 1, r, t_min, closest, best),
        }
    }
}

/// What a deterministic object's intersection returns.  For an object
/// containing a participating medium this mirror is not consulted: the
/// medium's arm is never deterministic.
pub open spec fn o_hit_spec(o: Object, r: Ray, t_min: int, t_max: int) -> Option<HitRecord>
    decreases o, 1int,
{
    match o {
        Object::Sphere(s) => sphere_hit_spec(s, r, t_min, t_max),
        Object::MoveSphere(s) => move_sphere_hit_spec(s, r, t_min, t_max),
        Object::RectXy(q) => rect_xy_hit_spec(q, r, t_min, t_max),
        Object::RectXz(q) => rect_xz_hit_spec(q, r, t_min, t_max),
        Object::RectYz(q) => rect_yz_hit_spec(q, r, t_min, t_max),
        Object::Tri(t) => tri_hit_spec(t, r, t_min, t_max),
        Object::Cube(c) => if !(ray_ok(r) && window_ok(t_min, t_max)) {
            None
        } else {
            post_check(
                scan_from(c.side.objects@, 0, r, t_min, t_max, None),
                o_bbox_spec(o),
                r,
            )
        },
        Object::List(l) => if !(ray_ok(r) && window_ok(t_min, t_max)) {
            None
        } else {
            post_check(
                scan_from(l.objects@, 0, r, t_min, t_max, None),
                o_bbox_spec(o),
                r,
            )
        },
        Object::Translate(t) => if !(ray_ok(r) && window_ok(t_min, t_max) && t.offset.bounded(
            (CMAX as int) / 2,
        )) {
            None
        } else {
            let moved = Ray { orig: minus_spec(r.orig, t.offset), dir: r.dir, tm: r.tm };
            match o_hit_spec(*t.inner, moved, t_min, t_max) {
                None => None,
                Some(rec) => {
                    let p2 = plus_spec(rec.p, t.offset);
                    if !p2.bounded(PMAX as int) {
                        None
                    } else {
                        let out = HitRecord {
                            p: p2,
                            normal: orient_normal(moved, rec.normal),
                            t: rec.t,
                            front_face: orient_front(moved, rec.normal),
                            mat: rec.mat,
                            u: rec.u,
                            v: rec.v,
                        };
                        post_check(Some(out), o_bbox_spec(o), r)
                    }
                },
            }
        },
        Object::Rotate(t) => if !(ray_ok(r) && window_ok(t_min, t_max) && rot_ok(t)) {
            None
        } else {
            let c = t.cos_theta as int;
            let s = t.sin_theta as int;
            let moved = Ray {
                orig: Vec3 {
                    x: (fx_mul_spec(c, r.orig.x as int) + fx_mul_spec(-s, r.orig.z as int)) as i64,
                    y: r.orig.y,
                    z: (fx_mul_spec(s, r.orig.x as int) + fx_mul_spec(c, r.orig.z as int)) as i64,
                },
                dir: Vec3 {
                    x: (fx_mul_spec(c, r.dir.x as int) + fx_mul_spec(-s, r.dir.z as int)) as i64,
                    y: r.dir.y,
                    z: (fx_mul_spec(s, r.dir.x as int) + fx_mul_spec(c, r.dir.z as int)) as i64,
                },
                tm: r.tm,
            };
            match o_hit_spec(*t.inner, moved, t_min, t_max) {
                None => None,
                Some(rec) => {
                    let p2 = Vec3 {
                        x: (fx_mul_spec(c, rec.p.x as int) + fx_mul_spec(s, rec.p.z as int)) as i64,
                        y: rec.p.y,
                        z: (fx_mul_spec(-s, rec.p.x as int) + fx_mul_spec(
                            c,
                            rec.p.z as int,
                        )) as i64,
                    };
                    let n2 = Vec3 {
                        x: (fx_mul_spec(c, rec.normal.x as int) + fx_mul_spec(
                            s,
                            rec.normal.z as int,
                        )) as i64,
                        y: rec.normal.y,
                        z: (fx_mul_spec(-s, rec.normal.x as int) + fx_mul_spec(
                            c,
                            rec.normal.z as int,
                        )) as i64,
                    };
                    if !(p2.bounded(PMAX as int) && n2.bounded(crate::vec3::UNITB as int)) {
                        None
                    } else {
                        let out = HitRecord {
                            p: p2,
                            normal: orient_normal(moved, n2),
                            t: rec.t,
                            front_face: orient_front(moved, n2),
                            mat: rec.mat,
                            u: rec.u,
                            v: rec.v,
                        };
                        post_check(Some(out), o_bbox_spec(o), r)
                    }
                },
            }
        },
        Object::Medium(_) => None,
        Object::Bvh(b) => if !(ray_ok(r) && window_ok(t_min, t_max)) {
            None
        } else if !crate::aabb::slab_spec(b.box_aabb, r, t_min, t_max) {
            None
        } else {
            let left = o_hit_spec(*b.left, r, t_min, t_max);
            let shrunk = match left {
                Some(rec) => rec.t as int,
                None => t_max,
            };
            let right = match b.right {
                Some(rn) => o_hit_spec(*rn, r, t_min, shrunk),
                None => None,
            };
            let res = match right {
                Some(rec) => Some(rec),
                None => left,
            };
            post_check(res, o_bbox_spec(o), r)
        },
    }
}


/// Two fixed-point products, summed: the rotation building block.
pub fn fx_mul2(a: i64, x: i64, b: i64, z: i64) -> (r: i64)
    requires
        -FX_ONE <= a <= FX_ONE,
        -FX_ONE <= b <= FX_ONE,
        -PMAX <= x <= PMAX,
        -PMAX <= z <= PMAX,
    ensures
        r == fx_mul_spec(a as int, x as int) + fx_mul_spec(b as int, z as int),
{
    proof {
        lemma_mul_le(a as int, x as int, FX_ONE as int, PMAX as int);
        lemma_qdiv_le(a * x, FX_ONE as int, (FX_ONE as int) * (PMAX as int));
        lemma_mul_le(b as int, z as int, FX_ONE as int, PMAX as int);
        lemma_qdiv_le(b * z, FX_ONE as int, (FX_ONE as int) * (PMAX as int));
    }
    fx_mul(a, x) + fx_mul(b, z)
}

/// Each member of an all-deterministic sequence is deterministic.
pub proof fn lemma_det_all_index(s: Seq<Object>, i: int)
    requires
        det_all(s),
        0 <= i < s.len(),
    ensures
        deterministic(s[i]),
    decreases i,
{
    if i == 0 {
    } else {
        lemma_det_all_index(s.drop_first(), i - 1);
        assert(s.drop_first()[i - 1] == s[i]);
    }
}

/// The linear scan over a vector of objects.
fn hit_list(objs: &Vec<Object>, r: &Ray, t_min: i64, t_max: i64) -> (res: Option<HitRecord>)
    requires
        ray_ok(*r),
        window_ok(t_min as int, t_max as int),
    ensures
        det_all(objs@) ==> res == scan_from(objs@, 0, *r, t_min as int, t_max as int, None),
        res matches Some(rec) ==> rec_ok(rec) && t_min <= rec.t <= t_max,
    decreases objs, 0int,
{
    let mut best: Option<HitRecord> = None;
    let mut closest: i64 = t_max;
    let mut i: usize = 0;
    while i < objs.len()
        invariant
            0 <= i <= objs@.len(),
            ray_ok(*r),
            window_ok(t_min as int, t_max as int),
            window_ok(t_min as int, closest as int),
            best matches Some(rec) ==> rec_ok(rec) && t_min <= rec.t <= t_max && closest == rec.t,
            best is None ==> closest == t_max,
            det_all(objs@) ==> scan_from(objs@, 0, *r, t_min as int, t_max as int, None)
                == scan_from(objs@, i as int, *r, t_min as int, closest as int, best),
        decreases objs, objs@.len() - i,
    {
        proof {
            assert(objs@[i as int] == objs[i as int]);
        }
        let res_i = objs[i].hit(r, t_min, closest);
        proof {
            if det_all(objs@) {
                lemma_det_all_index(objs@, i as int);
            }
        }
        match res_i {
            Some(rec) => {
                best = Some(rec);
                closest = rec.t;
            },
            None => {},
        }
        i = i + 1;
    }
    best
}

impl Object {
    /// Intersect the ray with this object inside the window.  For an
    /// object free of participating media the result equals the
    /// deterministic mirror; in every case a reported hit is well formed,
    /// lies in the window and, when the object has a bounding box, inside
    /// that box.
    #[verifier::rlimit(100)]
    #[verifier::spinoff_prover]
    pub fn hit(&self, r: &Ray, t_min: i64, t_max: i64) -> (res: Option<HitRecord>)
        ensures
            deterministic(*self) ==> res == o_hit_spec(*self, *r, t_min as int, t_max as int),
            res matches Some(rec) ==> rec_ok(rec) && t_min <= rec.t <= t_max,
            res matches Some(rec) ==> (o_bbox_spec(*self) matches Some(b) ==> (box_ok(b)
                ==> ray_in_box(*r, rec.t as int, b))),
            self matches Object::Medium(m) ==> {
                &&& (m.density < 1 ==> res is None)
                &&& (!(ray_ok(*r) && window_ok(t_min as int, t_max as int)) ==> res is None)
                &&& (deterministic(*m.boundary) && o_hit_spec(
                    *m.boundary,
                    *r,
                    -(T_INF as int),
                    T_INF as int,
                ) is None ==> res is None)
                &&& (deterministic(*m.boundary) ==> (o_hit_spec(
                    *m.boundary,
                    *r,
                    -(T_INF as int),
                    T_INF as int,
                ) matches Some(rec1) ==> ((rec1.t > T_INF - 7 || o_hit_spec(
                    *m.boundary,
                    *r,
                    rec1.t + 7,
                    T_INF as int,
                ) is None) ==> res is None)))
                &&& (res matches Some(rec) ==> {
                    &&& rec.mat == m.mat
                    &&& rec.normal == (Vec3 { x: FX_ONE, y: 0, z: 0 })
                    &&& rec.front_face
                    &&& rec.u == 0 && rec.v == 0
                    &&& rec.p == at_spec(*r, rec.t as int)
                    &&& rec.t >= 0
                    &&& (deterministic(*m.boundary) ==> (o_hit_spec(
                        *m.boundary,
                        *r,
                        -(T_INF as int),
                        T_INF as int,
                    ) matches Some(rec1) ==> rec.t >= rec1.t && (o_hit_spec(
                        *m.boundary,
                        *r,
                        rec1.t + 7,
                        T_INF as int,
                    ) matches Some(rec2) ==> rec.t <= rec2.t)))
                })
            },
        decreases *self, 1int,
    {
        match self {
            Object::Sphere(s) => {
                let res = s.hit(r, t_min, t_max);
                proof {
                    lemma_sphere_hit_props(*s, *r, t_min as int, t_max as int);
                }
                res
            },
            Object::MoveSphere(s) => {
                let res = s.hit(r, t_min, t_max);
                proof {
                    lemma_move_sphere_hit_props(*s, *r, t_min as int, t_max as int);
                }
                res
            },
            Object::RectXy(q) => {
                let res = q.hit(r, t_min, t_max);
                proof {
                    lemma_rect_xy_hit_props(*q, *r, t_min as int, t_max as int);
                }
                res
            },
            Object::RectXz(q) => {
                let res = q.hit(r, t_min, t_max);
                proof {
                    lemma_rect_xz_hit_props(*q, *r, t_min as int, t_max as int);
                }
                res
            },
            Object::RectYz(q) => {
                let res = q.hit(r, t_min, t_max);
                proof {
                    lemma_rect_yz_hit_props(*q, *r, t_min as int, t_max as int);
                }
                res
            },
            Object::Tri(t) => {
                let res = t.hit(r, t_min, t_max);
                proof {
                    lemma_tri_hit_props(*t, *r, t_min as int, t_max as int);
                }
                res
            },
            Object::Cube(c) => {
                if !(r.is_ok() && -T_INF <= t_min && t_min <= T_INF && -T_INF <= t_max && t_max
                    <= T_INF) {
                    return None;
                }
                let res0 = hit_list(&c.side.objects, r, t_min, t_max);
                self.post_check_hit(res0, r)
            },
            Object::List(l) => {
                if !(r.is_ok() && -T_INF <= t_min && t_min <= T_INF && -T_INF <= t_max && t_max
                    <= T_INF) {
                    return None;
                }
                let res0 = hit_list(&l.objects, r, t_min, t_max);
                self.post_check_hit(res0, r)
            },
            Object::Translate(tr) => {
                if !(r.is_ok() && -T_INF <= t_min && t_min <= T_INF && -T_INF <= t_max && t_max
                    <= T_INF && tr.offset.is_bounded(CMAX / 2)) {
                    return None;
                }
                let moved = Ray { orig: r.orig.minus(&tr.offset), dir: r.dir, tm: r.tm };
                let inner_res = tr.inner.hit(&moved, t_min, t_max);
                match inner_res {
                    None => None,
                    Some(rec0) => {
                        let p2 = rec0.p.plus(&tr.offset);
                        if !p2.is_bounded(PMAX) {
                            return None;
                        }
                        let mut rec = HitRecord::new(rec0.t, p2, Vec3::zero(), false, rec0.mat,
                            rec0.u, rec0.v);
                        rec.set_face_normal(&moved, &rec0.normal);
                        self.post_check_hit(Some(rec), r)
                    },
                }
            },
            Object::Rotate(tr) => {
                if !(r.is_ok() && -T_INF <= t_min && t_min <= T_INF && -T_INF <= t_max && t_max
                    <= T_INF && -FX_ONE <= tr.sin_theta && tr.sin_theta <= FX_ONE && -FX_ONE
                    <= tr.cos_theta && tr.cos_theta <= FX_ONE && tr.bbox.is_ok()) {
                    return None;
                }
                let c = tr.cos_theta;
                let sn = tr.sin_theta;
                let moved = Ray {
                    orig: Vec3 {
                        x: fx_mul2(c, r.orig.x, -sn, r.orig.z),
                        y: r.orig.y,
                        z: fx_mul2(sn, r.orig.x, c, r.orig.z),
                    },
                    dir: Vec3 {
                        x: fx_mul2(c, r.dir.x, -sn, r.dir.z),
                        y: r.dir.y,
                        z: fx_mul2(sn, r.dir.x, c, r.dir.z),
                    },
                    tm: r.tm,
                };
                let inner_res = tr.inner.hit(&moved, t_min, t_max);
                match inner_res {
                    None => None,
                    Some(rec0) => {
                        let p2 = Vec3 {
                            x: fx_mul2(c, rec0.p.x, sn, rec0.p.z),
                            y: rec0.p.y,
                            z: fx_mul2(-sn, rec0.p.x, c, rec0.p.z),
                        };
                        let n2 = Vec3 {
                            x: fx_mul2(c, rec0.normal.x, sn, rec0.normal.z),
                            y: rec0.normal.y,
                            z: fx_mul2(-sn, rec0.normal.x, c, rec0.normal.z),
                        };
                        if !(p2.is_bounded(PMAX) && n2.is_bounded(crate::vec3::UNITB)) {
                            return None;
                        }
                        proof {
                            lemma_mul_le(c as int, r.dir.x as int, FX_ONE as int, DMAX as int);
                            lemma_qdiv_le(c * r.dir.x, FX_ONE as int, (FX_ONE as int) * (
                            DMAX as int));
                            lemma_mul_le((-sn) as int, r.dir.z as int, FX_ONE as int, DMAX as int);
                            lemma_qdiv_le((-sn) * r.dir.z, FX_ONE as int, (FX_ONE as int) * (
                            DMAX as int));
                            lemma_mul_le(sn as int, r.dir.x as int, FX_ONE as int, DMAX as int);
                            lemma_qdiv_le(sn * r.dir.x, FX_ONE as int, (FX_ONE as int) * (
                            DMAX as int));
                            lemma_mul_le(c as int, r.dir.z as int, FX_ONE as int, DMAX as int);
                            lemma_qdiv_le(c * r.dir.z, FX_ONE as int, (FX_ONE as int) * (
                            DMAX as int));
                        }
                        let mut rec = HitRecord::new(rec0.t, p2, Vec3::zero(), false, rec0.mat,
                            rec0.u, rec0.v);
                        rec.set_face_normal(&moved, &n2);
                        self.post_check_hit(Some(rec), r)
                    },
                }
            },
            Object::Medium(m) => {
                if !(r.is_ok() && -T_INF <= t_min && t_min <= T_INF && -T_INF <= t_max && t_max
                    <= T_INF) {
                    return None;
                }
                if m.density < 1 {
                    return None;
                }
                let first = m.boundary.hit(r, -T_INF, T_INF);
                let rec1 = match first {
                    Some(x) => x,
                    None => {
                        return None;
                    },
                };
                if rec1.t > T_INF - 7 {
                    return None;
                }
                let second = m.boundary.hit(r, rec1.t + 7, T_INF);
                let rec2 = match second {
                    Some(x) => x,
                    None => {
                        return None;
                    },
                };
                let mut ta = rec1.t;
                let mut tb = rec2.t;
                if ta < t_min {
                    ta = t_min;
                }
                if tb > t_max {
                    tb = t_max;
                }
                if ta >= tb {
                    return None;
                }
                if ta < 0 {
                    ta = 0;
                }
                if ta >= tb {
                    return None;
                }
                proof {
                    crate::vec3::lemma_dot_bound(r.dir, r.dir, DMAX as int);
                }
                let rl = r.dir.len();
                proof {
                    assert(rl <= 0x1000_0000) by (nonlinear_arith)
                        requires
                            0 <= rl,
                            rl * rl <= dot_spec(r.dir, r.dir) * FX_ONE,
                            dot_spec(r.dir, r.dir) <= (3 * ((DMAX as int) * (DMAX as int))) / (
                            FX_ONE as int),
                            DMAX == 0x400_0000,
                            FX_ONE == 65536,
                    ;
                }
                if rl < 1 {
                    return None;
                }
                proof {
                    lemma_mul_le((tb - ta) as int, rl as int, 2 * T_INF as int, 0x1000_0000);
                    lemma_qdiv_le((tb - ta) * rl, FX_ONE as int, (2 * T_INF as int) * 0x1000_0000);
                }
                let dist = fx_mul(tb - ta, rl);
                let u0 = random_unit();
                let u = if u0 < 1 {
                    1
                } else {
                    u0
                };
                let nl = neg_ln_unit(u);
                proof {
                    lemma_mul_le(nl as int, FX_ONE as int, 2_000_000, FX_ONE as int);
                    lemma_qdiv_le(nl * FX_ONE, m.density as int, 2_000_000 * (FX_ONE as int));
                }
                let hd = fx_div(nl, m.density);
                if hd > dist {
                    return None;
                }
                proof {
                    crate::fx::lemma_qdiv_nonneg(nl * FX_ONE, m.density as int);
                    lemma_mul_le(hd as int, FX_ONE as int, 2_000_000 * (FX_ONE as int),
                        FX_ONE as int);
                    lemma_qdiv_le(hd * FX_ONE, rl as int, (2_000_000 * (FX_ONE as int)) * (
                    FX_ONE as int));
                    crate::fx::lemma_qdiv_nonneg(hd * FX_ONE, rl as int);
                }
                let dt = fx_div(hd, rl);
                if dt > tb - ta {
                    return None;
                }
                let t = ta + dt;
                if !(t_min <= t && t <= t_max) {
                    return None;
                }
                proof {
                    lemma_at_bounded(*r, t as int);
                }
                let p = r.at(t);
                let rec = HitRecord::new(t, p, Vec3 { x: FX_ONE, y: 0, z: 0 }, true, m.mat, 0, 0);
                self.post_check_hit(Some(rec), r)
            },
            Object::Bvh(b) => {
                if !(r.is_ok() && -T_INF <= t_min && t_min <= T_INF && -T_INF <= t_max && t_max
                    <= T_INF) {
                    return None;
                }
                if !b.box_aabb.hit(r, t_min, t_max) {
                    return None;
                }
                let left_res = b.left.hit(r, t_min, t_max);
                let shrunk: i64 = match &left_res {
                    Some(rec) => rec.t,
                    None => t_max,
                };
                let right_res: Option<HitRecord> = match &b.right {
                    Some(rn) => rn.hit(r, t_min, shrunk),
                    None => None,
                };
                let res0 = match right_res {
                    Some(rec) => Some(rec),
                    None => left_res,
                };
                self.post_check_hit(res0, r)
            },
        }
    }

    /// Re-check a candidate hit against this object's own bounding box.
    fn post_check_hit(&self, res0: Option<HitRecord>, r: &Ray) -> (res: Option<HitRecord>)
        requires
            ray_ok(*r),
            res0 matches Some(rec) ==> -T_INF <= rec.t <= T_INF,
        ensures
            res == post_check(res0, o_bbox_spec(*self), *r),
        decreases *self, 2int,
    {
        match res0 {
            None => None,
            Some(rec) => {
                let bb = self.bounding_box(0, 0);
                match bb {
                    None => Some(rec),
                    Some(bx) => {
                        if bx.is_ok() {
                            if point_in_box(r, rec.t, &bx) {
                                Some(rec)
                            } else {
                                None
                            }
                        } else {
                            Some(rec)
                        }
                    },
                }
            },
        }
    }

    /// The object's bounding box over any time interval: motion is already
    /// folded into each primitive's own span.
    pub fn bounding_box(&self, _time0: i64, _time1: i64) -> (res: Option<AABB>)
        ensures
            res == o_bbox_spec(*self),
        decreases *self, 0int,
    {
        match self {
            Object::Sphere(s) => s.bounding_box(_time0, _time1),
            Object::MoveSphere(s) => s.bounding_box(_time0, _time1),
            Object::RectXy(q) => q.bounding_box(_time0, _time1),
            Object::RectXz(q) => q.bounding_box(_time0, _time1),
            Object::RectYz(q) => q.bounding_box(_time0, _time1),
            Object::Tri(t) => t.bounding_box(_time0, _time1),
            Object::Cube(c) => {
                let lim = CMAX - EPS_PAD;
                if c.box_min.is_bounded(lim) && c.box_max.is_bounded(lim) {
                    Some(
                        AABB {
                            mini: Vec3 {
                                x: c.box_min.x - EPS_PAD,
                                y: c.box_min.y - EPS_PAD,
                                z: c.box_min.z - EPS_PAD,
                            },
                            maxi: Vec3 {
                                x: c.box_max.x + EPS_PAD,
                                y: c.box_max.y + EPS_PAD,
                                z: c.box_max.z + EPS_PAD,
                            },
                        },
                    )
                } else {
                    None
                }
            },
            Object::Translate(t) => {
                if !t.offset.is_bounded(CMAX / 2) {
                    return None;
                }
                match t.inner.bounding_box(_time0, _time1) {
                    Some(b) => {
                        if b.is_ok() {
                            Some(
                                AABB {
                                    mini: Vec3 {
                                        x: b.mini.x + t.offset.x,
                                        y: b.mini.y + t.offset.y,
                                        z: b.mini.z + t.offset.z,
                                    },
                                    maxi: Vec3 {
                                        x: b.maxi.x + t.offset.x,
                                        y: b.maxi.y + t.offset.y,
                                        z: b.maxi.z + t.offset.z,
                                    },
                                },
                            )
                        } else {
                            None
                        }
                    },
                    None => None,
                }
            },
            Object::Rotate(t) => {
                if -FX_ONE <= t.sin_theta && t.sin_theta <= FX_ONE && -FX_ONE <= t.cos_theta
                    && t.cos_theta <= FX_ONE && t.bbox.is_ok() {
                    Some(t.bbox)
                } else {
                    None
                }
            },
            Object::Medium(m) => m.boundary.bounding_box(_time0, _time1),
            Object::List(l) => l.bounding_box(_time0, _time1),
            Object::Bvh(b) => {
                if b.box_aabb.is_ok() {
                    Some(b.box_aabb)
                } else {
                    None
                }
            },
        }
    }
}

impl HittableList {
    pub fn new() -> (r: HittableList)
        ensures
            r.objects@ =~= Seq::<Object>::empty(),
    {
        HittableList { objects: Vec::new() }
    }

    /// Append an object to the aggregate.
    pub fn add(&mut self, element: Object)
        ensures
            final(self).objects@ =~= old(self).objects@.push(element),
    {
        self.objects.push(element);
    }

    /// The linear closest-hit scan over the children.
    pub fn hit(&self, r: &Ray, t_min: i64, t_max: i64) -> (res: Option<HitRecord>)
        ensures
            ray_ok(*r) && window_ok(t_min as int, t_max as int) && det_all(self.objects@)
                ==> res == scan_from(self.objects@, 0, *r, t_min as int, t_max as int, None),
            res matches Some(rec) ==> rec_ok(rec) && t_min <= rec.t <= t_max,
    {
        if !(r.is_ok() && -T_INF <= t_min && t_min <= T_INF && -T_INF <= t_max && t_max
            <= T_INF) {
            return None;
        }
        hit_list(&self.objects, r, t_min, t_max)
    }

    /// The union of the children's boxes, if every child has one.
    pub fn bounding_box(&self, time0: i64, time1: i64) -> (res: Option<AABB>)
        ensures
            res == list_bbox_spec(self.objects@),
        decreases self, 0int,
    {
        if self.objects.len() == 0 {
            return None;
        }
        let first = self.objects[0].bounding_box(time0, time1);
        let mut acc = match first {
            None => {
                return None;
            },
            Some(b0) => b0,
        };
        let mut i: usize = 1;
        while i < self.objects.len()
            invariant
                1 <= i <= self.objects@.len(),
                list_bbox_spec(self.objects@) == list_bbox_from(self.objects@, i as int, acc),
            decreases self.objects@.len() - i,
        {
            proof {
                assert(self.objects@[i as int] == self.objects[i as int]);
            }
            match self.objects[i].bounding_box(time0, time1) {
                None => {
                    return None;
                },
                Some(b) => {
                    acc = surrounding_box(acc, b);
                },
            }
            i = i + 1;
        }
        Some(acc)
    }
}


/// Shifting the ray and the box together does not change membership.
pub proof fn lemma_ray_in_box_shift(r: Ray, off: Vec3, t: int, b: AABB, sb: AABB)
    requires
        r.orig.bounded(CMAX as int),
        off.bounded((CMAX as int) / 2),
        b.mini.bounded(CMAX as int),
        b.maxi.bounded(CMAX as int),
        sb.mini.x == b.mini.x + off.x,
        sb.mini.y == b.mini.y + off.y,
        sb.mini.z == b.mini.z + off.z,
        sb.maxi.x == b.maxi.x + off.x,
        sb.maxi.y == b.maxi.y + off.y,
        sb.maxi.z == b.maxi.z + off.z,
        ray_in_box(Ray { orig: minus_spec(r.orig, off), dir: r.dir, tm: r.tm }, t, b),
    ensures
        ray_in_box(r, t, sb),
{
    let moved = Ray { orig: minus_spec(r.orig, off), dir: r.dir, tm: r.tm };
    assert forall|k: int| 0 <= k < 3 implies crate::aabb::axis_in_box(r, t, sb, k) by {
        assert(crate::aabb::axis_in_box(moved, t, b, k));
        assert(crate::vec3::axis(moved.orig, k) == crate::vec3::axis(r.orig, k) - crate::vec3::axis(
            off,
            k,
        ));
    }
}

/// Wrapping an object in a translation shifts the reported hit point by the
/// offset and leaves the parameter, the texture coordinates and — for a
/// front-face hit — the normal unchanged.
pub proof fn lemma_translate_round_trip(inner: Object, off: Vec3, r: Ray, t_min: int, t_max: int)
    requires
        ray_ok(r),
        window_ok(t_min, t_max),
        off.bounded((CMAX as int) / 2),
        o_hit_spec(
            inner,
            Ray { orig: minus_spec(r.orig, off), dir: r.dir, tm: r.tm },
            t_min,
            t_max,
        ) matches Some(rec) && plus_spec(rec.p, off).bounded(PMAX as int),
    ensures
        ({
            let moved = Ray { orig: minus_spec(r.orig, off), dir: r.dir, tm: r.tm };
            let rec = o_hit_spec(inner, moved, t_min, t_max)->Some_0;
            let out = o_hit_spec(
                Object::Translate(Translate { inner: Box::new(inner), offset: off }),
                r,
                t_min,
                t_max,
            );
            &&& out matches Some(o2) ==> {
                &&& o2.p == plus_spec(rec.p, off)
                &&& o2.t == rec.t
                &&& o2.u == rec.u
                &&& o2.v == rec.v
                &&& o2.mat == rec.mat
                &&& (orient_front(moved, rec.normal) ==> o2.normal == rec.normal)
            }
            &&& (o_bbox_spec(inner) matches Some(bi) && box_ok(bi)) ==> out is Some
        }),
{
    let moved = Ray { orig: minus_spec(r.orig, off), dir: r.dir, tm: r.tm };
    let rec = o_hit_spec(inner, moved, t_min, t_max)->Some_0;
    let tro = Object::Translate(Translate { inner: Box::new(inner), offset: off });
    crate::bvh::lemma_hit_props(inner, moved, t_min, t_max);
    if o_bbox_spec(inner) is Some {
        let bi = o_bbox_spec(inner)->Some_0;
        if box_ok(bi) {
            let sb = o_bbox_spec(tro)->Some_0;
            lemma_ray_in_box_shift(r, off, rec.t as int, bi, sb);
        }
    }
}

impl Cube {
    /// The six faces of the axis-aligned box between two corners.
    pub fn new(p0: Point3, p1: Point3, mat: usize) -> (r: Cube)
        ensures
            r.box_min == p0,
            r.box_max == p1,
            r.side.objects@ =~= seq![
                Object::RectXy(
                    crate::rect::Rectanglexy { x0: p0.x, x1: p1.x, y0: p0.y, y1: p1.y, k: p1.z, mat },
                ),
                Object::RectXy(
                    crate::rect::Rectanglexy { x0: p0.x, x1: p1.x, y0: p0.y, y1: p1.y, k: p0.z, mat },
                ),
                Object::RectXz(
                    crate::rect::Rectanglexz { x0: p0.x, x1: p1.x, z0: p0.z, z1: p1.z, k: p1.y, mat },
                ),
                Object::RectXz(
                    crate::rect::Rectanglexz { x0: p0.x, x1: p1.x, z0: p0.z, z1: p1.z, k: p0.y, mat },
                ),
                Object::RectYz(
                    crate::rect::Rectangleyz { y0: p0.y, y1: p1.y, z0: p0.z, z1: p1.z, k: p1.x, mat },
                ),
                Object::RectYz(
                    crate::rect::Rectangleyz { y0: p0.y, y1: p1.y, z0: p0.z, z1: p1.z, k: p0.x, mat },
                ),
            ],
    {
        let mut side = HittableList { objects: Vec::new() };
        side.add(
            Object::RectXy(
                crate::rect::Rectanglexy { x0: p0.x, x1: p1.x, y0: p0.y, y1: p1.y, k: p1.z, mat },
            ),
        );
        side.add(
            Object::RectXy(
                crate::rect::Rectanglexy { x0: p0.x, x1: p1.x, y0: p0.y, y1: p1.y, k: p0.z, mat },
            ),
        );
        side.add(
            Object::RectXz(
                crate::rect::Rectanglexz { x0: p0.x, x1: p1.x, z0: p0.z, z1: p1.z, k: p1.y, mat },
            ),
        );
        side.add(
            Object::RectXz(
                crate::rect::Rectanglexz { x0: p0.x, x1: p1.x, z0: p0.z, z1: p1.z, k: p0.y, mat },
            ),
        );
        side.add(
            Object::RectYz(
                crate::rect::Rectangleyz { y0: p0.y, y1: p1.y, z0: p0.z, z1: p1.z, k: p1.x, mat },
            ),
        );
        side.add(
            Object::RectYz(
                crate::rect::Rectangleyz { y0: p0.y, y1: p1.y, z0: p0.z, z1: p1.z, k: p0.x, mat },
            ),
        );
        Cube { box_min: p0, box_max: p1, side }
    }
}

impl Translate {
    pub fn new(ptr: Object, offset: Vec3) -> (r: Translate)
        ensures
            *r.inner == ptr,
            r.offset == offset,
    {
        Translate { inner: Box::new(ptr), offset }
    }
}

impl ConstantMedium {
    /// A medium of the given density (in fixed point, at least one) filling
    /// the boundary, scattering with the given phase material.
    pub fn new(boundary: Object, density: i64, mat: usize) -> (r: ConstantMedium)
        ensures
            *r.boundary == boundary,
            r.density == density,
            r.mat == mat,
    {
        ConstantMedium { boundary: Box::new(boundary), density, mat }
    }
}

pub open spec fn min4_spec(a: int, b: int, c: int, d: int) -> int {
    let m1 = if b < a {
        b
    } else {
        a
    };
    let m2 = if c < m1 {
        c
    } else {
        m1
    };
    if d < m2 {
        d
    } else {
        m2
    }
}

pub open spec fn max4_spec(a: int, b: int, c: int, d: int) -> int {
    let m1 = if b > a {
        b
    } else {
        a
    };
    let m2 = if c > m1 {
        c
    } else {
        m1
    };
    if d > m2 {
        d
    } else {
        m2
    }
}

/// The swept box a rotation stores: the componentwise extremes of the
/// inner box's corners turned through the stored sine and cosine, clamped
/// into the coordinate range; a missing or out-of-range inner box gives
/// the empty box at the origin.
pub open spec fn rot_sweep_spec(bb: Option<AABB>, sn: int, c: int) -> AABB {
    match bb {
        None => AABB { mini: Vec3 { x: 0, y: 0, z: 0 }, maxi: Vec3 { x: 0, y: 0, z: 0 } },
        Some(b) => {
            if !(b.mini.bounded(PMAX as int) && b.maxi.bounded(PMAX as int)) {
                AABB { mini: Vec3 { x: 0, y: 0, z: 0 }, maxi: Vec3 { x: 0, y: 0, z: 0 } }
            } else {
                let xs0 = fx_mul_spec(c, b.mini.x as int) + fx_mul_spec(sn, b.mini.z as int);
                let xs1 = fx_mul_spec(c, b.mini.x as int) + fx_mul_spec(sn, b.maxi.z as int);
                let xs2 = fx_mul_spec(c, b.maxi.x as int) + fx_mul_spec(sn, b.mini.z as int);
                let xs3 = fx_mul_spec(c, b.maxi.x as int) + fx_mul_spec(sn, b.maxi.z as int);
                let zs0 = fx_mul_spec(-sn, b.mini.x as int) + fx_mul_spec(c, b.mini.z as int);
                let zs1 = fx_mul_spec(-sn, b.mini.x as int) + fx_mul_spec(c, b.maxi.z as int);
                let zs2 = fx_mul_spec(-sn, b.maxi.x as int) + fx_mul_spec(c, b.mini.z as int);
                let zs3 = fx_mul_spec(-sn, b.maxi.x as int) + fx_mul_spec(c, b.maxi.z as int);
                AABB {
                    mini: Vec3 {
                        x: fx_clamp_spec(min4_spec(xs0, xs1, xs2, xs3), -(CMAX as int),
                            CMAX as int) as i64,
                        y: fx_clamp_spec(b.mini.y as int, -(CMAX as int), CMAX as int) as i64,
                        z: fx_clamp_spec(min4_spec(zs0, zs1, zs2, zs3), -(CMAX as int),
                            CMAX as int) as i64,
                    },
                    maxi: Vec3 {
                        x: fx_clamp_spec(max4_spec(xs0, xs1, xs2, xs3), -(CMAX as int),
                            CMAX as int) as i64,
                        y: fx_clamp_spec(b.maxi.y as int, -(CMAX as int), CMAX as int) as i64,
                        z: fx_clamp_spec(max4_spec(zs0, zs1, zs2, zs3), -(CMAX as int),
                            CMAX as int) as i64,
                    },
                }
            }
        },
    }
}

impl Rotatey {
    /// Rotate an object about the y axis by an angle in fixed-point
    /// degrees; the bounding box is the clamped sweep of the inner box's
    /// corners.
    pub fn new(ptr: Object, angle: i64) -> (r: Rotatey)
        requires
            -0x4000_0000 <= angle <= 0x4000_0000,
        ensures
            *r.inner == ptr,
            rot_ok(r),
            angle == 0 ==> r.sin_theta == 0 && r.cos_theta == FX_ONE,
            r.bbox == rot_sweep_spec(o_bbox_spec(ptr), r.sin_theta as int, r.cos_theta as int),
    {
        let rad0 = crate::fx::degree_to_radians(angle);
        proof {
            if angle == 0 {
                assert(0 * (crate::fx::FX_PI as int) == 0) by (nonlinear_arith);
                assert(crate::fx::qdiv(0, FX_ONE as int) == 0);
                assert(crate::fx::qdiv(crate::fx::fx_mul_spec(0, crate::fx::FX_PI as int), 180)
                    == 0);
            }
        }
        let rad = crate::fx::fx_clamp(rad0, -0x4000_0000, 0x4000_0000);
        let sn = crate::fx::fx_sin(rad);
        let c = crate::fx::fx_cos(rad);
        let bb = ptr.bounding_box(0, FX_ONE);
        let bbox = match bb {
            None => AABB { mini: Vec3 { x: 0, y: 0, z: 0 }, maxi: Vec3 { x: 0, y: 0, z: 0 } },
            Some(b) => {
                if !(b.mini.is_bounded(PMAX) && b.maxi.is_bounded(PMAX)) {
                    AABB { mini: Vec3 { x: 0, y: 0, z: 0 }, maxi: Vec3 { x: 0, y: 0, z: 0 } }
                } else {
                    let xs0 = fx_mul2(c, b.mini.x, sn, b.mini.z);
                    let xs1 = fx_mul2(c, b.mini.x, sn, b.maxi.z);
                    let xs2 = fx_mul2(c, b.maxi.x, sn, b.mini.z);
                    let xs3 = fx_mul2(c, b.maxi.x, sn, b.maxi.z);
                    let zs0 = fx_mul2(-sn, b.mini.x, c, b.mini.z);
                    let zs1 = fx_mul2(-sn, b.mini.x, c, b.maxi.z);
                    let zs2 = fx_mul2(-sn, b.maxi.x, c, b.mini.z);
                    let zs3 = fx_mul2(-sn, b.maxi.x, c, b.maxi.z);
                    let xlo = min4(xs0, xs1, xs2, xs3);
                    let xhi = max4(xs0, xs1, xs2, xs3);
                    let zlo = min4(zs0, zs1, zs2, zs3);
                    let zhi = max4(zs0, zs1, zs2, zs3);
                    AABB {
                        mini: Vec3 {
                            x: crate::fx::fx_clamp(xlo, -CMAX, CMAX),
                            y: crate::fx::fx_clamp(b.mini.y, -CMAX, CMAX),
                            z: crate::fx::fx_clamp(zlo, -CMAX, CMAX),
                        },
                        maxi: Vec3 {
                            x: crate::fx::fx_clamp(xhi, -CMAX, CMAX),
                            y: crate::fx::fx_clamp(b.maxi.y, -CMAX, CMAX),
                            z: crate::fx::fx_clamp(zhi, -CMAX, CMAX),
                        },
                    }
                }
            },
        };
        Rotatey { inner: Box::new(ptr), sin_theta: sn, cos_theta: c, bbox }
    }
}

fn min4(a: i64, b: i64, c: i64, d: i64) -> (r: i64)
    ensures
        r == min4_spec(a as int, b as int, c as int, d as int),
        r <= a && r <= b && r <= c && r <= d,
{
    let mut m = a;
    if b < m {
        m = b;
    }
    if c < m {
        m = c;
    }
    if d < m {
        m = d;
    }
    m
}

fn max4(a: i64, b: i64, c: i64, d: i64) -> (r: i64)
    ensures
        r == max4_spec(a as int, b as int, c as int, d as int),
        r >= a && r >= b && r >= c && r >= d,
{
    let mut m = a;
    if b > m {
        m = b;
    }
    if c > m {
        m = c;
    }
    if d > m {
        m = d;
    }
    m
}

} // verus!
