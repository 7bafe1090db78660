//! Spheres, still and moving.  The quadratic `|O + tD − C|² = r²` is set up
//! exactly over the raw integers; only the square root and the final
//! division round.  The nearer root is preferred, the farther one taken
//! when the nearer lies outside the search window.

use vstd::prelude::*;
use crate::fx::{
    FX_ONE, qdiv, fx_div_spec, isqrt_spec, abs_spec, fx_clamp, fx_clamp_spec, fx_div,
    lemma_mul_le, lemma_isqrt_is, lemma_qdiv_le, qdiv_i128,
};
use crate::vec3::{Vec3, Point3, minus_spec, plus_spec, scale_spec, axis};
use crate::ray::{Ray, ray_ok, window_ok, at_spec, lemma_at_bounded, T_INF, CMAX, DMAX};
use crate::aabb::{AABB, box_ok, ray_in_box, point_in_box, surrounding_box, surrounding_spec, EPS_PAD};
use crate::hit::{HitRecord, orient_front, orient_normal, rec_ok};

verus! {

/// Bound on the center-offset vector fed to the quadratic solver.
pub const OCB: i64 = 0x8_0000_0000;

/// Bound accepted for sphere centers.
pub const SPC: i64 = 0x8000_0000;

pub open spec fn quad_a(d: Vec3) -> int {
    d.x * d.x + d.y * d.y + d.z * d.z
}

pub open spec fn quad_hb(oc: Vec3, d: Vec3) -> int {
    oc.x * d.x + oc.y * d.y + oc.z * d.z
}

pub open spec fn quad_c(oc: Vec3, radius: int) -> int {
    oc.x * oc.x + oc.y * oc.y + oc.z * oc.z - radius * radius
}

/// The root the quadratic reports: the nearer root if it lies in the
/// window, otherwise the farther root if it does, otherwise nothing.
pub open spec fn quad_root_spec(oc: Vec3, d: Vec3, radius: int, t_min: int, t_max: int) -> Option<
    int,
> {
    let a = quad_a(d);
    if a <= 0 {
        None
    } else {
        let hb = quad_hb(oc, d);
        let disc = hb * hb - a * quad_c(oc, radius);
        if disc < 0 {
            None
        } else {
            let sq = isqrt_spec(disc);
            let r1 = qdiv((-hb - sq) * FX_ONE, a);
            let r2 = qdiv((-hb + sq) * FX_ONE, a);
            if -T_INF <= r1 <= T_INF && t_min <= r1 <= t_max {
                Some(r1)
            } else if -T_INF <= r2 <= T_INF && t_min <= r2 <= t_max {
                Some(r2)
            } else {
                None
            }
        }
    }
}

/// Solve the quadratic exactly and pick a root inside the window.
pub fn quad_root(oc: &Vec3, d: &Vec3, radius: i64, t_min: i64, t_max: i64) -> (res: Option<i64>)
    requires
        oc.bounded(OCB as int),
        d.bounded(DMAX as int),
        0 < radius <= CMAX,
        window_ok(t_min as int, t_max as int),
    ensures
        res matches Some(t) ==> quad_root_spec(*oc, *d, radius as int, t_min as int, t_max as int)
            == Some(t as int),
        res is None ==> quad_root_spec(*oc, *d, radius as int, t_min as int, t_max as int)
            is None,
{
    proof {
        lemma_mul_le(d.x as int, d.x as int, DMAX as int, DMAX as int);
        lemma_mul_le(d.y as int, d.y as int, DMAX as int, DMAX as int);
        lemma_mul_le(d.z as int, d.z as int, DMAX as int, DMAX as int);
        lemma_mul_le(oc.x as int, d.x as int, OCB as int, DMAX as int);
        lemma_mul_le(oc.y as int, d.y as int, OCB as int, DMAX as int);
        lemma_mul_le(oc.z as int, d.z as int, OCB as int, DMAX as int);
        lemma_mul_le(oc.x as int, oc.x as int, OCB as int, OCB as int);
        lemma_mul_le(oc.y as int, oc.y as int, OCB as int, OCB as int);
        lemma_mul_le(oc.z as int, oc.z as int, OCB as int, OCB as int);
        lemma_mul_le(radius as int, radius as int, CMAX as int, CMAX as int);
    }
    let a: i128 = (d.x as i128) * (d.x as i128) + (d.y as i128) * (d.y as i128) + (d.z as i128) * (
    d.z as i128);
    if a <= 0 {
        return None;
    }
    let hb: i128 = (oc.x as i128) * (d.x as i128) + (oc.y as i128) * (d.y as i128) + (
    oc.z as i128) * (d.z as i128);
    let c: i128 = (oc.x as i128) * (oc.x as i128) + (oc.y as i128) * (oc.y as i128) + (
    oc.z as i128) * (oc.z as i128) - (radius as i128) * (radius as i128);
    proof {
        lemma_mul_le(hb as int, hb as int, 0x6000_0000_0000_0000, 0x6000_0000_0000_0000);
        lemma_mul_le(a as int, c as int, 0x30_0000_0000_0000, 0xc1_0000_0000_0000_0000);
    }
    let disc: i128 = hb * hb - a * c;
    if disc < 0 {
        return None;
    }
    let sq128: u128 = crate::fx::isqrt_u128(disc as u128);
    proof {
        assert((sq128 as int) * (sq128 as int) <= disc as int);
        assert(sq128 < 0x1_0000_0000_0000_0000u128) by (nonlinear_arith)
            requires
                (sq128 as int) * (sq128 as int) <= disc as int,
                disc as int <= i128::MAX,
        ;
        lemma_isqrt_is(disc as int, sq128 as int);
    }
    let sq: i128 = sq128 as i128;
    let num1: i128 = (-hb - sq) * 65536;
    let num2: i128 = (-hb + sq) * 65536;
    let r1: i128 = qdiv_i128(num1, a);
    let r2: i128 = qdiv_i128(num2, a);
    if -(T_INF as i128) <= r1 && r1 <= T_INF as i128 && (t_min as i128) <= r1 && r1 <= (
    t_max as i128) {
        Some(r1 as i64)
    } else if -(T_INF as i128) <= r2 && r2 <= T_INF as i128 && (t_min as i128) <= r2 && r2 <= (
    t_max as i128) {
        Some(r2 as i64)
    } else {
        None
    }
}

#[derive(Clone, Copy, Debug, PartialEq, Eq, Structural)]
pub struct Sphere {
    pub center: Point3,
    pub radius: i64,
    pub mat: usize,
}

pub open spec fn sphere_ok(s: Sphere) -> bool {
    &&& s.center.bounded(SPC as int)
    &&& 0 < s.radius <= SPC - EPS_PAD
}

pub open spec fn sphere_bbox(s: Sphere) -> AABB {
    AABB {
        mini: Vec3 {
            x: (s.center.x - s.radius - EPS_PAD) as i64,
            y: (s.center.y - s.radius - EPS_PAD) as i64,
            z: (s.center.z - s.radius - EPS_PAD) as i64,
        },
        maxi: Vec3 {
            x: (s.center.x + s.radius + EPS_PAD) as i64,
            y: (s.center.y + s.radius + EPS_PAD) as i64,
            z: (s.center.z + s.radius + EPS_PAD) as i64,
        },
    }
}

/// The latitude coordinate: height above the south pole, halved; and the
/// longitude coordinate: the diamond angle of `(−z, x)`, turned half a
/// revolution.  Exact at the poles, the equator and the four cardinal
/// directions; a piecewise-rational stand-in for the arc-length angles.
pub open spec fn sphere_uv_spec(n: Vec3) -> (int, int) {
    let sv = (FX_ONE + n.y) as int;
    let v = fx_clamp_spec(if sv < 0 { 0int } else { sv / 2 }, 0, FX_ONE as int);
    let dx = -n.z as int;
    let dy = n.x as int;
    let dd: int = if dx == 0 && dy == 0 {
        0
    } else if dx >= 0 && dy >= 0 {
        fx_div_spec(dy, dx + dy)
    } else if dx < 0 && dy >= 0 {
        FX_ONE + fx_div_spec(-dx, -dx + dy)
    } else if dx < 0 && dy < 0 {
        2 * FX_ONE + fx_div_spec(-dy, -dx - dy)
    } else {
        3 * FX_ONE + fx_div_spec(dx, dx - dy)
    };
    let u0 = dd / 4 + 32768;
    let u = if u0 > FX_ONE {
        u0 - FX_ONE
    } else {
        u0
    };
    (fx_clamp_spec(u, 0, FX_ONE as int), v)
}

/// Texture coordinates for a point of the unit sphere.
pub fn get_sphere_uv(n: &Vec3) -> (res: (i64, i64))
    requires
        n.bounded(2 * FX_ONE as int),
    ensures
        (res.0 as int, res.1 as int) == sphere_uv_spec(*n),
        0 <= res.0 <= FX_ONE,
        0 <= res.1 <= FX_ONE,
{
    let sv: i64 = FX_ONE + n.y;
    let v = fx_clamp(if sv < 0 { 0 } else { crate::fx::div_pos(sv, 2) }, 0, FX_ONE);
    let dx: i64 = -n.z;
    let dy: i64 = n.x;
    let dd: i64 = if dx == 0 && dy == 0 {
        0
    } else if dx >= 0 && dy >= 0 {
        proof {
            crate::fx::lemma_div_ratio(dy as int, (dx + dy) as int);
        }
        fx_div(dy, dx + dy)
    } else if dx < 0 && dy >= 0 {
        proof {
            crate::fx::lemma_div_ratio(-dx as int, (-dx + dy) as int);
        }
        FX_ONE + fx_div(-dx, -dx + dy)
    } else if dx < 0 && dy < 0 {
        proof {
            crate::fx::lemma_div_ratio(-dy as int, (-dx - dy) as int);
        }
        2 * FX_ONE + fx_div(-dy, -dx - dy)
    } else {
        proof {
            crate::fx::lemma_div_ratio(dx as int, (dx - dy) as int);
        }
        3 * FX_ONE + fx_div(dx, dx - dy)
    };
    let u0: i64 = crate::fx::div_pos(dd, 4) + 32768;
    let u = if u0 > FX_ONE {
        u0 - FX_ONE
    } else {
        u0
    };
    (fx_clamp(u, 0, FX_ONE), v)
}

/// What the sphere intersection returns.
pub open spec fn sphere_hit_spec(s: Sphere, r: Ray, t_min: int, t_max: int) -> Option<HitRecord> {
    if !(sphere_ok(s) && ray_ok(r) && window_ok(t_min, t_max)) {
        None
    } else {
        let oc = minus_spec(r.orig, s.center);
        match quad_root_spec(oc, r.dir, s.radius as int, t_min, t_max) {
            None => None,
            Some(t) => {
                let p = at_spec(r, t);
                let nx = fx_div_spec(p.x - s.center.x, s.radius as int);
                let ny = fx_div_spec(p.y - s.center.y, s.radius as int);
                let nz = fx_div_spec(p.z - s.center.z, s.radius as int);
                let outward = Vec3 { x: nx as i64, y: ny as i64, z: nz as i64 };
                if !(-2 * FX_ONE <= nx <= 2 * FX_ONE && -2 * FX_ONE <= ny <= 2 * FX_ONE && -2
                    * FX_ONE <= nz <= 2 * FX_ONE) {
                    None
                } else if !ray_in_box(r, t, sphere_bbox(s)) {
                    None
                } else {
                    let uv = sphere_uv_spec(outward);
                    Some(HitRecord {
                        p,
                        normal: orient_normal(r, outward),
                        t: t as i64,
                        front_face: orient_front(r, outward),
                        mat: s.mat,
                        u: uv.0 as i64,
                        v: uv.1 as i64,
                    })
                }
            },
        }
    }
}

impl Sphere {
    pub fn new(center: Point3, radius: i64, mat: usize) -> (r: Sphere)
        ensures
            r == (Sphere { center, radius, mat }),
    {
        Sphere { center, radius, mat }
    }

    pub fn is_ok(&self) -> (r: bool)
        ensures
            r == sphere_ok(*self),
    {
        self.center.is_bounded(SPC) && 0 < self.radius && self.radius <= SPC - EPS_PAD
    }

    pub fn bbox(&self) -> (b: AABB)
        requires
            sphere_ok(*self),
        ensures
            b == sphere_bbox(*self),
            box_ok(b),
    {
        AABB {
            mini: Vec3 {
                x: self.center.x - self.radius - EPS_PAD,
                y: self.center.y - self.radius - EPS_PAD,
                z: self.center.z - self.radius - EPS_PAD,
            },
            maxi: Vec3 {
                x: self.center.x + self.radius + EPS_PAD,
                y: self.center.y + self.radius + EPS_PAD,
                z: self.center.z + self.radius + EPS_PAD,
            },
        }
    }

    pub fn bounding_box(&self, _time0: i64, _time1: i64) -> (b: Option<AABB>)
        ensures
            b == (if sphere_ok(*self) {
                Some(sphere_bbox(*self))
            } else {
                Option::<AABB>::None
            }),
    {
        if self.is_ok() {
            Some(self.bbox())
        } else {
            None
        }
    }

    pub fn hit(&self, r: &Ray, t_min: i64, t_max: i64) -> (res: Option<HitRecord>)
        ensures
            res == sphere_hit_spec(*self, *r, t_min as int, t_max as int),
    {
        if !(self.is_ok() && r.is_ok() && -T_INF <= t_min && t_min <= T_INF && -T_INF <= t_max
            && t_max <= T_INF) {
            return None;
        }
        let oc = r.orig.minus(&self.center);
        let root = quad_root(&oc, &r.dir, self.radius, t_min, t_max);
        match root {
            None => None,
            Some(t) => {
                let p = r.at(t);
                proof {
                    lemma_at_bounded(*r, t as int);
                    lemma_mul_le(p.x - self.center.x, FX_ONE as int, 0x100_0001_0000_0000,
                        FX_ONE as int);
                    lemma_mul_le(p.y - self.center.y, FX_ONE as int, 0x100_0001_0000_0000,
                        FX_ONE as int);
                    lemma_mul_le(p.z - self.center.z, FX_ONE as int, 0x100_0001_0000_0000,
                        FX_ONE as int);
                }
                let nx: i128 = qdiv_i128(((p.x as i128) - (self.center.x as i128)) * 65536,
                    self.radius as i128);
                let ny: i128 = qdiv_i128(((p.y as i128) - (self.center.y as i128)) * 65536,
                    self.radius as i128);
                let nz: i128 = qdiv_i128(((p.z as i128) - (self.center.z as i128)) * 65536,
                    self.radius as i128);
                let two_one: i128 = 2 * (FX_ONE as i128);
                if !(-two_one <= nx && nx <= two_one && -two_one <= ny && ny <= two_one && -two_one
                    <= nz && nz <= two_one) {
                    return None;
                }
                let outward = Vec3 { x: nx as i64, y: ny as i64, z: nz as i64 };
                let bbox = self.bbox();
                if !point_in_box(r, t, &bbox) {
                    return None;
                }
                let uv = get_sphere_uv(&outward);
                let mut rec = HitRecord::new(t, p, Vec3::zero(), false, self.mat, uv.0, uv.1);
                rec.set_face_normal(r, &outward);
                Some(rec)
            },
        }
    }
}

/// Every hit the sphere reports is well formed, lies inside the search
/// window and inside the padded bounding box.
pub proof fn lemma_sphere_hit_props(s: Sphere, r: Ray, t_min: int, t_max: int)
    ensures
        sphere_hit_spec(s, r, t_min, t_max) matches Some(rec) ==> {
            &&& rec_ok(rec)
            &&& t_min <= rec.t <= t_max
            &&& ray_in_box(r, rec.t as int, sphere_bbox(s))
            &&& box_ok(sphere_bbox(s))
            &&& sphere_ok(s)
            &&& ray_ok(r)
        },
{
    if sphere_hit_spec(s, r, t_min, t_max) matches Some(rec) {
        let oc = minus_spec(r.orig, s.center);
        let t = quad_root_spec(oc, r.dir, s.radius as int, t_min, t_max)->Some_0;
        lemma_at_bounded(r, t);
    }
}

/// Narrowing the window only filters the reported root by its value.
pub proof fn lemma_quad_root_window(oc: Vec3, d: Vec3, radius: int, t_min: int, t1: int, t2: int)
    requires
        t1 <= t2,
    ensures
        quad_root_spec(oc, d, radius, t_min, t1) == (match quad_root_spec(
            oc, d, radius, t_min, t2) {
            Some(t) => if t <= t1 {
                Some(t)
            } else {
                None
            },
            None => None,
        }),
{
    let a = quad_a(d);
    if a > 0 {
        let hb = quad_hb(oc, d);
        let disc = hb * hb - a * quad_c(oc, radius);
        if disc >= 0 {
            crate::fx::lemma_isqrt_exists(disc);
            let sq = isqrt_spec(disc);
            assert((-hb - sq) * FX_ONE <= (-hb + sq) * FX_ONE) by (nonlinear_arith)
                requires
                    sq >= 0,
                    FX_ONE == 65536,
            ;
            crate::fx::lemma_qdiv_mono((-hb - sq) * FX_ONE, (-hb + sq) * FX_ONE, a);
        }
    }
}

/// Narrowing the window only filters the sphere's reported hit.
pub proof fn lemma_sphere_window(s: Sphere, r: Ray, t_min: int, t1: int, t2: int)
    requires
        t1 <= t2,
        window_ok(t_min, t1),
        window_ok(t_min, t2),
    ensures
        sphere_hit_spec(s, r, t_min, t1) == (match sphere_hit_spec(s, r, t_min, t2) {
            Some(rec) => if rec.t <= t1 {
                Some(rec)
            } else {
                None
            },
            None => None,
        }),
{
    if sphere_ok(s) && ray_ok(r) {
        let oc = minus_spec(r.orig, s.center);
        lemma_quad_root_window(oc, r.dir, s.radius as int, t_min, t1, t2);
    }
}


#[derive(Clone, Copy, Debug, PartialEq, Eq, Structural)]
pub struct MoveSphere {
    pub center0: Point3,
    pub center1: Point3,
    pub radius: i64,
    pub time0: i64,
    pub time1: i64,
    pub mat: usize,
}

pub open spec fn move_sphere_ok(s: MoveSphere) -> bool {
    &&& s.center0.bounded(SPC as int)
    &&& s.center1.bounded(SPC as int)
    &&& 0 < s.radius <= SPC - EPS_PAD
    &&& -CMAX <= s.time0 < s.time1 <= CMAX
}

/// The interpolated center at a cast time.
pub open spec fn ms_center_spec(s: MoveSphere, time: int) -> Point3 {
    plus_spec(
        s.center0,
        scale_spec(
            fx_div_spec(time - s.time0, (s.time1 - s.time0) as int),
            minus_spec(s.center1, s.center0),
        ),
    )
}

pub open spec fn move_sphere_bbox(s: MoveSphere) -> AABB {
    surrounding_spec(
        AABB {
            mini: Vec3 {
                x: (s.center0.x - s.radius - EPS_PAD) as i64,
                y: (s.center0.y - s.radius - EPS_PAD) as i64,
                z: (s.center0.z - s.radius - EPS_PAD) as i64,
            },
            maxi: Vec3 {
                x: (s.center0.x + s.radius + EPS_PAD) as i64,
                y: (s.center0.y + s.radius + EPS_PAD) as i64,
                z: (s.center0.z + s.radius + EPS_PAD) as i64,
            },
        },
        AABB {
            mini: Vec3 {
                x: (s.center1.x - s.radius - EPS_PAD) as i64,
                y: (s.center1.y - s.radius - EPS_PAD) as i64,
                z: (s.center1.z - s.radius - EPS_PAD) as i64,
            },
            maxi: Vec3 {
                x: (s.center1.x + s.radius + EPS_PAD) as i64,
                y: (s.center1.y + s.radius + EPS_PAD) as i64,
                z: (s.center1.z + s.radius + EPS_PAD) as i64,
            },
        },
    )
}

/// What the moving-sphere intersection returns.  Cast times that would put
/// the interpolation factor far outside the shutter interval are rejected.
pub open spec fn move_sphere_hit_spec(s: MoveSphere, r: Ray, t_min: int, t_max: int) -> Option<
    HitRecord,
> {
    if !(move_sphere_ok(s) && ray_ok(r) && window_ok(t_min, t_max)) {
        None
    } else {
        let sf = fx_div_spec(r.tm - s.time0, (s.time1 - s.time0) as int);
        if !(-4 * FX_ONE <= sf <= 4 * FX_ONE) {
            None
        } else {
            let mc = ms_center_spec(s, r.tm as int);
            let oc = minus_spec(r.orig, mc);
            match quad_root_spec(oc, r.dir, s.radius as int, t_min, t_max) {
                None => None,
                Some(t) => {
                    let p = at_spec(r, t);
                    let nx = fx_div_spec(p.x - mc.x, s.radius as int);
                    let ny = fx_div_spec(p.y - mc.y, s.radius as int);
                    let nz = fx_div_spec(p.z - mc.z, s.radius as int);
                    let outward = Vec3 { x: nx as i64, y: ny as i64, z: nz as i64 };
                    if !(-2 * FX_ONE <= nx <= 2 * FX_ONE && -2 * FX_ONE <= ny <= 2 * FX_ONE && -2
                        * FX_ONE <= nz <= 2 * FX_ONE) {
                        None
                    } else if !ray_in_box(r, t, move_sphere_bbox(s)) {
                        None
                    } else {
                        Some(HitRecord {
                            p,
                            normal: orient_normal(r, outward),
                            t: t as i64,
                            front_face: orient_front(r, outward),
                            mat: s.mat,
                            u: 0,
                            v: 0,
                        })
                    }
                },
            }
        }
    }
}

impl MoveSphere {
    pub fn new(center0: Point3, center1: Point3, time0: i64, time1: i64, radius: i64, mat: usize)
        -> (r: MoveSphere)
        ensures
            r == (MoveSphere { center0, center1, radius, time0, time1, mat }),
    {
        MoveSphere { center0, center1, radius, time0, time1, mat }
    }

    pub fn is_ok(&self) -> (r: bool)
        ensures
            r == move_sphere_ok(*self),
    {
        self.center0.is_bounded(SPC) && self.center1.is_bounded(SPC) && 0 < self.radius
            && self.radius <= SPC - EPS_PAD && -CMAX <= self.time0 && self.time0 < self.time1
            && self.time1 <= CMAX
    }

    /// The center at a cast time whose interpolation factor is moderate.
    pub fn center(&self, time: i64) -> (c: Point3)
        requires
            move_sphere_ok(*self),
            -CMAX <= time <= CMAX,
            -4 * FX_ONE <= fx_div_spec(time as int - self.time0, (self.time1 - self.time0) as int)
                <= 4 * FX_ONE,
        ensures
            c == ms_center_spec(*self, time as int),
    {
        proof {
            lemma_mul_le(time as int - self.time0, FX_ONE as int, 2 * CMAX as int, FX_ONE as int);
            lemma_qdiv_le(
                (time as int - self.time0) * FX_ONE,
                (self.time1 - self.time0) as int,
                2 * (CMAX as int) * (FX_ONE as int),
            );
        }
        let sn: i128 = ((time as i128) - (self.time0 as i128)) * 65536;
        let s128: i128 = qdiv_i128(sn, (self.time1 as i128) - (self.time0 as i128));
        let sf: i64 = s128 as i64;
        proof {
            crate::vec3::lemma_scale_bound(
                sf as int,
                minus_spec(self.center1, self.center0),
                4 * FX_ONE as int,
                2 * SPC as int,
            );
        }
        self.center0.plus(&self.center1.minus(&self.center0).scale(sf))
    }

    pub fn bbox(&self) -> (b: AABB)
        requires
            move_sphere_ok(*self),
        ensures
            b == move_sphere_bbox(*self),
            box_ok(b),
    {
        let b0 = AABB {
            mini: Vec3 {
                x: self.center0.x - self.radius - EPS_PAD,
                y: self.center0.y - self.radius - EPS_PAD,
                z: self.center0.z - self.radius - EPS_PAD,
            },
            maxi: Vec3 {
                x: self.center0.x + self.radius + EPS_PAD,
                y: self.center0.y + self.radius + EPS_PAD,
                z: self.center0.z + self.radius + EPS_PAD,
            },
        };
        let b1 = AABB {
            mini: Vec3 {
                x: self.center1.x - self.radius - EPS_PAD,
                y: self.center1.y - self.radius - EPS_PAD,
                z: self.center1.z - self.radius - EPS_PAD,
            },
            maxi: Vec3 {
                x: self.center1.x + self.radius + EPS_PAD,
                y: self.center1.y + self.radius + EPS_PAD,
                z: self.center1.z + self.radius + EPS_PAD,
            },
        };
        surrounding_box(b0, b1)
    }

    pub fn bounding_box(&self, _time0: i64, _time1: i64) -> (b: Option<AABB>)
        ensures
            b == (if move_sphere_ok(*self) {
                Some(move_sphere_bbox(*self))
            } else {
                Option::<AABB>::None
            }),
    {
        if self.is_ok() {
            Some(self.bbox())
        } else {
            None
        }
    }

    pub fn hit(&self, r: &Ray, t_min: i64, t_max: i64) -> (res: Option<HitRecord>)
        ensures
            res == move_sphere_hit_spec(*self, *r, t_min as int, t_max as int),
    {
        if !(self.is_ok() && r.is_ok() && -T_INF <= t_min && t_min <= T_INF && -T_INF <= t_max
            && t_max <= T_INF) {
            return None;
        }
        proof {
            lemma_mul_le(r.tm as int - self.time0, FX_ONE as int, 2 * CMAX as int, FX_ONE as int);
        }
        let sn: i128 = ((r.tm as i128) - (self.time0 as i128)) * 65536;
        let s128: i128 = qdiv_i128(sn, (self.time1 as i128) - (self.time0 as i128));
        let four: i128 = 4 * (FX_ONE as i128);
        if !(-four <= s128 && s128 <= four) {
            return None;
        }
        let mc = self.center(r.tm);
        proof {
            crate::vec3::lemma_scale_bound(
                fx_div_spec(r.tm as int - self.time0, (self.time1 - self.time0) as int),
                minus_spec(self.center1, self.center0),
                4 * FX_ONE as int,
                2 * SPC as int,
            );
        }
        let oc = r.orig.minus(&mc);
        let root = quad_root(&oc, &r.dir, self.radius, t_min, t_max);
        match root {
            None => None,
            Some(t) => {
                let p = r.at(t);
                proof {
                    lemma_at_bounded(*r, t as int);
                    lemma_mul_le(p.x - mc.x, FX_ONE as int, 0x100_0005_0000_0000, FX_ONE as int);
                    lemma_mul_le(p.y - mc.y, FX_ONE as int, 0x100_0005_0000_0000, FX_ONE as int);
                    lemma_mul_le(p.z - mc.z, FX_ONE as int, 0x100_0005_0000_0000, FX_ONE as int);
                }
                let nx: i128 = qdiv_i128(((p.x as i128) - (mc.x as i128)) * 65536,
                    self.radius as i128);
                let ny: i128 = qdiv_i128(((p.y as i128) - (mc.y as i128)) * 65536,
                    self.radius as i128);
                let nz: i128 = qdiv_i128(((p.z as i128) - (mc.z as i128)) * 65536,
                    self.radius as i128);
                let two_one: i128 = 2 * (FX_ONE as i128);
                if !(-two_one <= nx && nx <= two_one && -two_one <= ny && ny <= two_one && -two_one
                    <= nz && nz <= two_one) {
                    return None;
                }
                let outward = Vec3 { x: nx as i64, y: ny as i64, z: nz as i64 };
                let bbox = self.bbox();
                if !point_in_box(r, t, &bbox) {
                    return None;
                }
                let mut rec = HitRecord::new(t, p, Vec3::zero(), false, self.mat, 0, 0);
                rec.set_face_normal(r, &outward);
                Some(rec)
            },
        }
    }
}

/// Every hit the moving sphere reports is well formed, lies inside the
/// search window and inside the padded bounding box.
pub proof fn lemma_move_sphere_hit_props(s: MoveSphere, r: Ray, t_min: int, t_max: int)
    ensures
        move_sphere_hit_spec(s, r, t_min, t_max) matches Some(rec) ==> {
            &&& rec_ok(rec)
            &&& t_min <= rec.t <= t_max
            &&& ray_in_box(r, rec.t as int, move_sphere_bbox(s))
            &&& box_ok(move_sphere_bbox(s))
            &&& move_sphere_ok(s)
            &&& ray_ok(r)
        },
{
    if move_sphere_hit_spec(s, r, t_min, t_max) matches Some(rec) {
        let mc = ms_center_spec(s, r.tm as int);
        let oc = minus_spec(r.orig, mc);
        let t = quad_root_spec(oc, r.dir, s.radius as int, t_min, t_max)->Some_0;
        lemma_at_bounded(r, t);
    }
}

/// Narrowing the window only filters the moving sphere's reported hit.
pub proof fn lemma_move_sphere_window(s: MoveSphere, r: Ray, t_min: int, t1: int, t2: int)
    requires
        t1 <= t2,
        window_ok(t_min, t1),
        window_ok(t_min, t2),
    ensures
        move_sphere_hit_spec(s, r, t_min, t1) == (match move_sphere_hit_spec(s, r, t_min, t2) {
            Some(rec) => if rec.t <= t1 {
                Some(rec)
            } else {
                None
            },
            None => None,
        }),
{
    if move_sphere_ok(s) && ray_ok(r) {
        let mc = ms_center_spec(s, r.tm as int);
        let oc = minus_spec(r.orig, mc);
        lemma_quad_root_window(oc, r.dir, s.radius as int, t_min, t1, t2);
    }
}

} // verus!
