//! Hit records: what an intersection reports.
//!
//! The material at the hit is an index into the scene's material arena, so
//! that the same material value can back many primitives without shared
//! ownership.  Every record a primitive returns is well formed: the point
//! and normal are bounded, the parameter lies inside the search window, and
//! the texture coordinates lie in `[0, 1]`.

use vstd::prelude::*;
use crate::fx::FX_ONE;
use crate::vec3::{Vec3, Point3, dot_spec, neg_spec, UNITB, VMAX};
use crate::ray::{Ray, T_INF, CMAX, DMAX};

verus! {

/// Bound on reported hit points (a ray endpoint within the ranges).
pub const PMAX: i64 = 0x80_0001_0000_0000;

#[derive(Clone, Copy, Debug, PartialEq, Eq, Structural)]
pub struct HitRecord {
    pub p: Point3,
    pub normal: Vec3,
    pub t: i64,
    pub front_face: bool,
    pub mat: usize,
    pub u: i64,
    pub v: i64,
}

/// Whether the ray comes from outside: its direction opposes the outward
/// normal.
pub open spec fn orient_front(r: Ray, outward: Vec3) -> bool {
    dot_spec(r.dir, outward) < 0
}

/// The normal turned against the incoming ray.
pub open spec fn orient_normal(r: Ray, outward: Vec3) -> Vec3 {
    if orient_front(r, outward) {
        outward
    } else {
        neg_spec(outward)
    }
}

/// A well-formed record: bounded point and normal, representable parameter,
/// texture coordinates in the unit square.
pub open spec fn rec_ok(rec: HitRecord) -> bool {
    &&& rec.p.bounded(PMAX as int)
    &&& rec.normal.bounded(UNITB as int)
    &&& -T_INF <= rec.t <= T_INF
    &&& 0 <= rec.u <= FX_ONE
    &&& 0 <= rec.v <= FX_ONE
}

impl HitRecord {
    pub fn new(t: i64, p: Point3, normal: Vec3, front_face: bool, mat: usize, u: i64, v: i64) -> (r:
        HitRecord)
        ensures
            r == (HitRecord { p, normal, t, front_face, mat, u, v }),
    {
        HitRecord { p, normal, t, front_face, mat, u, v }
    }

    /// Orient the stored normal against the incoming ray.
    pub fn set_face_normal(&mut self, r: &Ray, outward_normal: &Vec3)
        requires
            r.dir.bounded(VMAX as int),
            outward_normal.bounded(UNITB as int),
        ensures
            final(self).front_face == orient_front(*r, *outward_normal),
            final(self).normal == orient_normal(*r, *outward_normal),
            final(self).p == old(self).p,
            final(self).t == old(self).t,
            final(self).mat == old(self).mat,
            final(self).u == old(self).u,
            final(self).v == old(self).v,
    {
        let front = r.dir.dot(outward_normal) < 0;
        self.front_face = front;
        self.normal = if front {
            *outward_normal
        } else {
            outward_normal.negate()
        };
    }
}

} // verus!
