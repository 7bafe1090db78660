//! Sampling distributions: draw a direction, evaluate its density.
//!
//! The cosine distribution samples the hemisphere by lifting a uniform
//! disk point (the same distribution the polar construction draws, without
//! trigonometry).  A hittable's distribution delegates to the object's
//! surface sampling; the even mixture of two distributions averages their
//! densities exactly and draws each with a fair coin.

use vstd::prelude::*;
use crate::fx::{
    FX_ONE, FX_PI, qdiv, fx_mul_spec, fx_div_spec, fx_mul, fx_div, fx_sqrt, fx_clamp,
    fx_clamp_spec, abs_spec, fx_abs, lemma_mul_le, lemma_qdiv_le, lemma_qdiv_nonneg, div_pos,
};
use crate::vec3::{
    Vec3, Point3, Color, dot_spec, unit_spec, minus_spec, random_range, UNITB, VMAX,
};
use crate::ray::{Ray, ray_ok, T_INF, CMAX, DMAX};
use crate::hit::HitRecord;
use crate::onb::{ONB, onb_ok, onb_build_spec, onb_local_spec};
use crate::object::{Object, o_hit_spec, HittableList};
use crate::rect::{Rectanglexy, Rectanglexz, Rectangleyz, rect_xy_hit_spec, rect_xz_hit_spec, rect_yz_hit_spec};
use crate::sphere::Sphere;
use crate::rng::{random_unit, random_index};

verus! {

/// Hit-window start used when probing toward a light (0.001).
pub const EPS_HIT: i64 = 66;

/// Cap applied to every reported density.
pub const PDF_CAP: i64 = 0x100_0000_0000;

/// A point of the closed unit disk, drawn by rejection; the z component is
/// zero.
pub fn random_in_unit_disk() -> (r: Vec3)
    ensures
        r.bounded(FX_ONE as int),
        r.z == 0,
        dot_spec(r, r) <= FX_ONE,
{
    let mut tries: usize = 0;
    while tries < 64
        invariant
            tries <= 64,
        decreases 64 - tries,
    {
        let x = random_range(-FX_ONE, FX_ONE);
        let y = random_range(-FX_ONE, FX_ONE);
        let v = Vec3 { x, y, z: 0 };
        let d2 = v.len_square();
        if d2 <= FX_ONE {
            proof {
                assert(v.x * v.x <= v.x * v.x + v.y * v.y + v.z * v.z) by (nonlinear_arith);
                assert(v.y * v.y <= v.x * v.x + v.y * v.y + v.z * v.z) by (nonlinear_arith);
                assert(v.x * v.x + v.y * v.y + v.z * v.z < (FX_ONE + 1) * FX_ONE) by
                    (nonlinear_arith)
                    requires
                        qdiv(v.x * v.x + v.y * v.y + v.z * v.z, FX_ONE as int) <= FX_ONE,
                        v.x * v.x + v.y * v.y + v.z * v.z >= 0,
                        FX_ONE == 65536,
                ;
                assert(-FX_ONE <= v.x <= FX_ONE && -FX_ONE <= v.y <= FX_ONE) by (nonlinear_arith)
                    requires
                        v.x * v.x < (FX_ONE + 1) * FX_ONE,
                        v.y * v.y < (FX_ONE + 1) * FX_ONE,
                        FX_ONE == 65536,
                ;
            }
            return v;
        }
        tries = tries + 1;
    }
    Vec3 { x: 0, y: 0, z: 0 }
}

/// A point of the closed unit ball, drawn by rejection.
pub fn random_in_unit_sphere() -> (r: Vec3)
    ensures
        r.bounded(FX_ONE as int),
        dot_spec(r, r) <= FX_ONE,
{
    let mut tries: usize = 0;
    while tries < 64
        invariant
            tries <= 64,
        decreases 64 - tries,
    {
        let x = random_range(-FX_ONE, FX_ONE);
        let y = random_range(-FX_ONE, FX_ONE);
        let z = random_range(-FX_ONE, FX_ONE);
        let v = Vec3 { x, y, z };
        let d2 = v.len_square();
        if d2 <= FX_ONE {
            proof {
                assert(v.x * v.x <= v.x * v.x + v.y * v.y + v.z * v.z) by (nonlinear_arith);
                assert(v.y * v.y <= v.x * v.x + v.y * v.y + v.z * v.z) by (nonlinear_arith);
                assert(v.z * v.z <= v.x * v.x + v.y * v.y + v.z * v.z) by (nonlinear_arith);
                assert(v.x * v.x + v.y * v.y + v.z * v.z < (FX_ONE + 1) * FX_ONE) by
                    (nonlinear_arith)
                    requires
                        qdiv(v.x * v.x + v.y * v.y + v.z * v.z, FX_ONE as int) <= FX_ONE,
                        v.x * v.x + v.y * v.y + v.z * v.z >= 0,
                        FX_ONE == 65536,
                ;
                assert(-FX_ONE <= v.x <= FX_ONE && -FX_ONE <= v.y <= FX_ONE && -FX_ONE <= v.z
                    <= FX_ONE) by (nonlinear_arith)
                    requires
                        v.x * v.x < (FX_ONE + 1) * FX_ONE,
                        v.y * v.y < (FX_ONE + 1) * FX_ONE,
                        v.z * v.z < (FX_ONE + 1) * FX_ONE,
                        FX_ONE == 65536,
                ;
            }
            return v;
        }
        tries = tries + 1;
    }
    Vec3 { x: 0, y: 0, z: 0 }
}

/// A direction of roughly unit length.
pub fn random_unit_vector() -> (r: Vec3)
    ensures
        r.bounded(2 * FX_ONE as int),
{
    let v = random_in_unit_sphere();
    if v.len_square() >= 1 {
        let u = v.unit_vector();
        if u.is_bounded(2 * FX_ONE) {
            return u;
        }
        return Vec3 { x: FX_ONE, y: 0, z: 0 };
    }
    Vec3 { x: FX_ONE, y: 0, z: 0 }
}

/// A point of the unit ball on the same side as the normal.
pub fn random_in_hemishpere(normal: &Vec3) -> (r: Vec3)
    requires
        normal.bounded(UNITB as int),
    ensures
        r.bounded(FX_ONE as int),
{
    let p = random_in_unit_sphere();
    if p.dot(normal) > 0 {
        p
    } else {
        p.negate()
    }
}

/// A cosine-weighted hemisphere direction in local coordinates: a uniform
/// disk point lifted onto the hemisphere.
pub fn random_cosine_direction() -> (r: Vec3)
    ensures
        r.bounded(2 * FX_ONE as int),
        r.z >= 0,
        dot_spec(r, r) <= 2 * FX_ONE + 2,
{
    let d = random_in_unit_disk();
    let d2 = d.len_square();
    let rest = if d2 > FX_ONE {
        0
    } else {
        FX_ONE - d2
    };
    let z = fx_sqrt(rest);
    proof {
        assert(z * z <= rest * FX_ONE);
        assert(z <= 2 * FX_ONE) by (nonlinear_arith)
            requires
                z >= 0,
                z * z <= rest * FX_ONE,
                0 <= rest <= FX_ONE,
                FX_ONE == 65536,
        ;
        let out = Vec3 { x: d.x, y: d.y, z };
        crate::vec3::lemma_dot_self_nonneg(d);
        assert(d.x * d.x + d.y * d.y + d.z * d.z >= 0) by (nonlinear_arith);
        assert(d.x * d.x + d.y * d.y + 0 * 0 < (dot_spec(d, d) + 1) * FX_ONE) by (nonlinear_arith)
            requires
                dot_spec(d, d) == crate::fx::qdiv(d.x * d.x + d.y * d.y + d.z * d.z,
                    FX_ONE as int),
                d.z == 0,
                d.x * d.x + d.y * d.y + d.z * d.z >= 0,
                FX_ONE == 65536,
        ;
        assert(dot_spec(out, out) <= 2 * FX_ONE + 2) by (nonlinear_arith)
            requires
                dot_spec(out, out) == crate::fx::qdiv(out.x * out.x + out.y * out.y + out.z
                    * out.z, FX_ONE as int),
                out.x == d.x && out.y == d.y && out.z == z,
                d.x * d.x + d.y * d.y + 0 * 0 < (dot_spec(d, d) + 1) * FX_ONE,
                dot_spec(d, d) <= FX_ONE,
                z * z <= rest * FX_ONE,
                0 <= rest <= FX_ONE,
                FX_ONE == 65536,
        ;
    }
    Vec3 { x: d.x, y: d.y, z }
}

/// A direction toward a sphere subtending the given solid angle.
pub fn random_to_sphere(radius: i64, distance_squared: i64) -> (r: Vec3)
    ensures
        r.bounded(2 * FX_ONE as int),
        0 <= r.z <= FX_ONE,
{
    if !(0 < radius && radius <= CMAX && 0 < distance_squared) {
        return Vec3 { x: 0, y: 0, z: FX_ONE };
    }
    proof {
        lemma_mul_le(radius as int, radius as int, CMAX as int, CMAX as int);
        lemma_qdiv_le(radius * radius, FX_ONE as int, (CMAX as int) * (CMAX as int));
    }
    let r2_raw = fx_mul(radius, radius);
    let ratio = if r2_raw >= distance_squared {
        FX_ONE
    } else {
        proof {
            crate::fx::lemma_div_ratio(r2_raw as int, distance_squared as int);
        }
        fx_div(r2_raw, distance_squared)
    };
    let inner = fx_clamp(FX_ONE - ratio, 0, FX_ONE);
    let ct = fx_sqrt(inner);
    let ctc = fx_clamp(ct, 0, FX_ONE);
    let r2 = random_unit();
    proof {
        lemma_mul_le(r2 as int, (ctc - FX_ONE) as int, FX_ONE as int, FX_ONE as int);
        lemma_qdiv_le(r2 * (ctc - FX_ONE), FX_ONE as int, (FX_ONE as int) * (FX_ONE as int));
    }
    let z = fx_clamp(FX_ONE + fx_mul(r2, ctc - FX_ONE), 0, FX_ONE);
    // a uniform angle around the axis, by a normalized disk point
    let d = random_in_unit_disk();
    let (cx, cy): (i64, i64) = if d.len_square() >= 1 {
        let u = d.unit_vector();
        if u.is_bounded(2 * FX_ONE) {
            (u.x, u.y)
        } else {
            (FX_ONE, 0)
        }
    } else {
        (FX_ONE, 0)
    };
    proof {
        lemma_mul_le(z as int, z as int, FX_ONE as int, FX_ONE as int);
        lemma_qdiv_le(z * z, FX_ONE as int, (FX_ONE as int) * (FX_ONE as int));
        lemma_qdiv_nonneg(z * z, FX_ONE as int);
    }
    let s2 = fx_clamp(FX_ONE - fx_mul(z, z), 0, FX_ONE);
    let sr = fx_sqrt(s2);
    proof {
        assert(sr <= 2 * FX_ONE) by (nonlinear_arith)
            requires
                sr >= 0,
                sr * sr <= s2 * FX_ONE,
                0 <= s2 <= FX_ONE,
                FX_ONE == 65536,
        ;
        lemma_mul_le(cx as int, sr as int, 2 * FX_ONE as int, 2 * FX_ONE as int);
        lemma_qdiv_le(cx * sr, FX_ONE as int, (2 * FX_ONE as int) * (2 * FX_ONE as int));
        lemma_mul_le(cy as int, sr as int, 2 * FX_ONE as int, 2 * FX_ONE as int);
        lemma_qdiv_le(cy * sr, FX_ONE as int, (2 * FX_ONE as int) * (2 * FX_ONE as int));
        assert(((2 * FX_ONE as int) * (2 * FX_ONE as int)) / (FX_ONE as int) == 4 * FX_ONE)
            by (nonlinear_arith);
    }
    let x = fx_clamp(fx_mul(cx, sr), -2 * FX_ONE, 2 * FX_ONE);
    let y = fx_clamp(fx_mul(cy, sr), -2 * FX_ONE, 2 * FX_ONE);
    Vec3 { x, y, z }
}

/// The cosine-weighted hemisphere distribution about a normal.
pub struct CosPDF {
    pub uvw: ONB,
}

/// The density the cosine distribution reports for a direction:
/// `max(0, cos θ)/π`, with degenerate directions rated zero.
pub open spec fn cos_pdf_value_spec(uvw: ONB, direction: Vec3) -> int {
    if !(direction.bounded(VMAX as int) && dot_spec(direction, direction) >= 1 && onb_ok(uvw)) {
        0
    } else {
        let u = unit_spec(direction);
        if !u.bounded(2 * FX_ONE as int) {
            0
        } else {
            let cos = dot_spec(u, uvw.w);
            if cos <= 0 {
                0
            } else {
                fx_div_spec(cos, FX_PI as int)
            }
        }
    }
}

impl CosPDF {
    pub fn new(w: &Vec3) -> (r: CosPDF)
        ensures
            r.uvw == onb_build_spec(*w),
            onb_ok(r.uvw),
    {
        CosPDF { uvw: ONB::build(w) }
    }

    /// The density of a direction under this distribution.
    pub fn value(&self, direction: &Vec3) -> (r: i64)
        ensures
            r == cos_pdf_value_spec(self.uvw, *direction),
            0 <= r <= PDF_CAP,
    {
        if !(direction.is_bounded(VMAX) && self.uvw.u.is_bounded(8 * FX_ONE)
            && self.uvw.v.is_bounded(2 * FX_ONE) && self.uvw.w.is_bounded(2 * FX_ONE)) {
            return 0;
        }
        if direction.len_square() < 1 {
            return 0;
        }
        let u = direction.unit_vector();
        if !u.is_bounded(2 * FX_ONE) {
            return 0;
        }
        let cos = u.dot(&self.uvw.w);
        if cos <= 0 {
            return 0;
        }
        proof {
            crate::vec3::lemma_dot_bound(unit_spec(*direction), self.uvw.w, 2 * FX_ONE as int);
            lemma_mul_le(cos as int, FX_ONE as int, (3 * ((2 * FX_ONE as int) * (2
                * FX_ONE as int))) / (FX_ONE as int), FX_ONE as int);
            lemma_qdiv_le(cos * FX_ONE, FX_PI as int, ((3 * ((2 * FX_ONE as int) * (2
                * FX_ONE as int))) / (FX_ONE as int)) * (FX_ONE as int));
            lemma_qdiv_nonneg(cos * FX_ONE, FX_PI as int);
        }
        fx_div(cos, FX_PI)
    }

    /// Draw a direction from this distribution: a cosine-weighted local
    /// sample carried through the basis.
    pub fn generate(&self) -> (r: Vec3)
        ensures
            r.bounded(24 * FX_ONE as int),
            onb_ok(self.uvw) ==> exists|a: Vec3|
                a.bounded(2 * FX_ONE as int) && a.z >= 0 && r == #[trigger] onb_local_spec(
                    self.uvw,
                    a,
                ),
            !onb_ok(self.uvw) ==> r == (Vec3 { x: 0, y: 0, z: FX_ONE }),
    {
        if !(self.uvw.u.is_bounded(8 * FX_ONE) && self.uvw.v.is_bounded(2 * FX_ONE)
            && self.uvw.w.is_bounded(2 * FX_ONE)) {
            return Vec3 { x: 0, y: 0, z: FX_ONE };
        }
        let a = random_cosine_direction();
        let out = self.uvw.local(a);
        proof {
            assert(out == onb_local_spec(self.uvw, a));
        }
        out
    }
}

/// The even mixture's density: exactly the average of the densities of the
/// hittable distribution over `lights` and the cosine distribution.
pub fn mixture_pdf_value(
    lights: &Object,
    origin: &Point3,
    cosp: &CosPDF,
    direction: &Vec3,
) -> (r: i64)
    ensures
        r == qdiv(
            o_pdf_spec(*lights, *origin, *direction) + cos_pdf_value_spec(cosp.uvw, *direction),
            2,
        ),
        0 <= r <= PDF_CAP,
{
    let a = lights.pdf_value(origin, direction);
    let b = cosp.value(direction);
    div_pos(a + b, 2)
}

/// Draw from the even mixture: a fair coin picks the light distribution or
/// the cosine distribution.
pub fn mixture_pdf_generate(lights: &Object, origin: &Point3, cosp: &CosPDF) -> (r: Vec3)
    ensures
        r.bounded(3 * CMAX as int),
{
    let coin = random_unit();
    if coin < 32768 {
        lights.random(origin)
    } else {
        let g = cosp.generate();
        g
    }
}

/// The density an object reports for sampling a direction toward it.
pub open spec fn o_pdf_spec(o: Object, origin: Point3, v: Vec3) -> int
    decreases o, 2int,
{
    match o {
        Object::RectXy(q) => if !crate::rect::rect_xy_ok(q) {
            0
        } else {
            rect_pdf_common(
                rect_xy_hit_spec(
                    q,
                    Ray { orig: origin, dir: v, tm: 0 },
                    EPS_HIT as int,
                    T_INF as int,
                ),
                q.x1 - q.x0,
                q.y1 - q.y0,
                v,
            )
        },
        Object::RectXz(q) => if !crate::rect::rect_xz_ok(q) {
            0
        } else {
            rect_pdf_common(
                rect_xz_hit_spec(
                    q,
                    Ray { orig: origin, dir: v, tm: 0 },
                    EPS_HIT as int,
                    T_INF as int,
                ),
                q.x1 - q.x0,
                q.z1 - q.z0,
                v,
            )
        },
        Object::RectYz(q) => if !crate::rect::rect_yz_ok(q) {
            0
        } else {
            rect_pdf_common(
                rect_yz_hit_spec(
                    q,
                    Ray { orig: origin, dir: v, tm: 0 },
                    EPS_HIT as int,
                    T_INF as int,
                ),
                q.y1 - q.y0,
                q.z1 - q.z0,
                v,
            )
        },
        Object::Sphere(s) => sphere_pdf_spec(s, origin, v),
        Object::List(l) => if l.objects@.len() == 0 || l.objects@.len() >= 0x10000 {
            0
        } else {
            list_pdf_from(l.objects@, 0, origin, v, (FX_ONE as int) / (l.objects@.len() as int), 0)
        },
        Object::Translate(t) => if !(origin.bounded((CMAX as int) / 2) && t.offset.bounded(
            (CMAX as int) / 2,
        )) {
            0
        } else {
            o_pdf_spec(*t.inner, minus_spec(origin, t.offset), v)
        },
        _ => 0,
    }
}

/// The area-light density: squared distance over projected area, clamped.
pub open spec fn rect_pdf_common(hit: Option<HitRecord>, e1: int, e2: int, v: Vec3) -> int {
    match hit {
        None => 0,
        Some(rec) => {
            if !(v.bounded(DMAX as int) && rec.normal.bounded(crate::vec3::UNITB as int)
                && dot_spec(v, v) >= 1 && -0x1000_0000 <= rec.t <= 0x1000_0000 && 1 <= e1 <= 2
                * CMAX && 1 <= e2 <= 2 * CMAX) {
                0
            } else {
                let dist_sq = fx_mul_spec(fx_mul_spec(rec.t as int, rec.t as int), dot_spec(v, v));
                let len = crate::vec3::len_spec(v);
                if len < 1 {
                    0
                } else {
                    let cos = fx_clamp_spec(
                        abs_spec(fx_div_spec(dot_spec(v, rec.normal), len)),
                        0,
                        16 * FX_ONE as int,
                    );
                    let area = fx_mul_spec(e1, e2);
                    let den = fx_mul_spec(cos, area);
                    if den < 1 {
                        0
                    } else {
                        fx_clamp_spec(fx_div_spec(dist_sq, den), 0, PDF_CAP as int)
                    }
                }
            }
        },
    }
}

/// The solid-angle density of a sphere seen from a point.
pub open spec fn sphere_pdf_spec(s: Sphere, origin: Point3, v: Vec3) -> int {
    match crate::sphere::sphere_hit_spec(
        s,
        Ray { orig: origin, dir: v, tm: 0 },
        EPS_HIT as int,
        T_INF as int,
    ) {
        None => 0,
        Some(_) => {
            let oc = minus_spec(s.center, origin);
            let dsq = dot_spec(oc, oc);
            if dsq < 1 {
                0
            } else {
                if fx_mul_spec(s.radius as int, s.radius as int) >= dsq {
                    0
                } else {
                    let ratio = fx_div_spec(fx_mul_spec(s.radius as int, s.radius as int), dsq);
                    let ctm = crate::fx::isqrt_spec((FX_ONE - ratio) * FX_ONE);
                    let solid = fx_mul_spec(2 * FX_PI as int, FX_ONE - ctm);
                    if solid < 1 {
                        0
                    } else {
                        fx_clamp_spec(fx_div_spec(FX_ONE as int, solid), 0, PDF_CAP as int)
                    }
                }
            }
        },
    }
}

/// The average of the children's densities, accumulated and clamped the
/// way the scan computes it.
pub open spec fn list_pdf_from(s: Seq<Object>, i: int, origin: Point3, v: Vec3, w: int, acc: int)
    -> int
    decreases s, s.len() - i,
{
    if i < 0 || i >= s.len() {
        acc
    } else {
        list_pdf_from(
            s,
            i + 1,
            origin,
            v,
            w,
            fx_clamp_spec(acc + fx_mul_spec(w, o_pdf_spec(s[i], origin, v)), 0, PDF_CAP as int),
        )
    }
}

impl Object {
    /// The density of sampling the direction `v` from `origin` toward this
    /// object; objects that are not importance-sampled report zero.
    pub fn pdf_value(&self, o: &Point3, v: &Vec3) -> (r: i64)
        ensures
            r == o_pdf_spec(*self, *o, *v),
            0 <= r <= PDF_CAP,
        decreases *self, 4int,
    {
        match self {
            Object::RectXy(q) => {
                if !q.is_ok() {
                    return 0;
                }
                let hit = q.hit(&Ray { orig: *o, dir: *v, tm: 0 }, EPS_HIT, T_INF);
                rect_pdf_exec(hit, q.x1 - q.x0, q.y1 - q.y0, v)
            },
            Object::RectXz(q) => {
                if !q.is_ok() {
                    return 0;
                }
                let hit = q.hit(&Ray { orig: *o, dir: *v, tm: 0 }, EPS_HIT, T_INF);
                rect_pdf_exec(hit, q.x1 - q.x0, q.z1 - q.z0, v)
            },
            Object::RectYz(q) => {
                if !q.is_ok() {
                    return 0;
                }
                let hit = q.hit(&Ray { orig: *o, dir: *v, tm: 0 }, EPS_HIT, T_INF);
                rect_pdf_exec(hit, q.y1 - q.y0, q.z1 - q.z0, v)
            },
            Object::Sphere(sp) => {
                let hit = sp.hit(&Ray { orig: *o, dir: *v, tm: 0 }, EPS_HIT, T_INF);
                match hit {
                    None => 0,
                    Some(_) => {
                        proof {
                            crate::sphere::lemma_sphere_hit_props(*sp, Ray { orig: *o, dir: *v, tm: 0 },
                                EPS_HIT as int, T_INF as int);
                        }
                        let oc = sp.center.minus(o);
                        let dsq = oc.len_square();
                        if dsq < 1 {
                            return 0;
                        }
                        proof {
                            lemma_mul_le(sp.radius as int, sp.radius as int, CMAX as int,
                                CMAX as int);
                            lemma_qdiv_le(sp.radius * sp.radius, FX_ONE as int, (CMAX as int) * (
                            CMAX as int));
                            crate::fx::lemma_div_ratio(0, 1);
                        }
                        let r2 = fx_mul(sp.radius, sp.radius);
                        if r2 >= dsq {
                            return 0;
                        }
                        proof {
                            crate::fx::lemma_div_ratio(r2 as int, dsq as int);
                            crate::fx::lemma_qdiv_nonneg(r2 * FX_ONE, dsq as int);
                        }
                        let ratio = fx_div(r2, dsq);
                        let ctm = fx_sqrt(FX_ONE - ratio);
                        proof {
                            assert(ctm <= 2 * FX_ONE) by (nonlinear_arith)
                                requires
                                    ctm >= 0,
                                    ctm * ctm <= (FX_ONE - ratio) * FX_ONE,
                                    0 <= FX_ONE - ratio <= FX_ONE,
                                    FX_ONE == 65536,
                            ;
                            lemma_mul_le(2 * FX_PI as int, (FX_ONE - ctm) as int, 2 * FX_PI as int,
                                2 * FX_ONE as int);
                            lemma_qdiv_le((2 * FX_PI) * (FX_ONE - ctm), FX_ONE as int, (2
                                * FX_PI as int) * (2 * FX_ONE as int));
                        }
                        let solid = fx_mul(2 * FX_PI, FX_ONE - ctm);
                        if solid < 1 {
                            return 0;
                        }
                        proof {
                            lemma_qdiv_le(FX_ONE * FX_ONE, solid as int, (FX_ONE as int) * (
                            FX_ONE as int));
                            lemma_qdiv_nonneg(FX_ONE * FX_ONE, solid as int);
                        }
                        let pv = fx_div(FX_ONE, solid);
                        fx_clamp(pv, 0, PDF_CAP)
                    },
                }
            },
            Object::List(l) => {
                if l.objects.len() == 0 || l.objects.len() >= 0x10000 {
                    return 0;
                }
                proof {
                    crate::fx::lemma_div_shrink(FX_ONE as int, l.objects@.len() as int);
                }
                let w = crate::fx::div_pos(FX_ONE, l.objects.len() as i64);
                let mut sum: i64 = 0;
                let mut i: usize = 0;
                while i < l.objects.len()
                    invariant
                        0 <= i <= l.objects@.len(),
                        0 <= sum <= PDF_CAP,
                        0 <= w <= FX_ONE,
                        o_pdf_spec(*self, *o, *v) == list_pdf_from(
                            l.objects@,
                            i as int,
                            *o,
                            *v,
                            w as int,
                            sum as int,
                        ),
                        self is List,
                        self->List_0 == l,
                    decreases l.objects@.len() - i,
                {
                    proof {
                        assert(l.objects@[i as int] == l.objects[i as int]);
                    }
                    let pv = l.objects[i].pdf_value(o, v);
                    proof {
                        lemma_mul_le(w as int, pv as int, FX_ONE as int, PDF_CAP as int);
                        lemma_qdiv_le(w * pv, FX_ONE as int, (FX_ONE as int) * (PDF_CAP as int));
                        lemma_qdiv_nonneg(w * pv, FX_ONE as int);
                    }
                    let term = fx_mul(w, pv);
                    sum = fx_clamp(sum + term, 0, PDF_CAP);
                    i = i + 1;
                }
                sum
            },
            Object::Translate(t) => {
                if !(o.is_bounded(CMAX / 2) && t.offset.is_bounded(CMAX / 2)) {
                    return 0;
                }
                let so = o.minus(&t.offset);
                t.inner.pdf_value(&so, v)
            },
            _ => 0,
        }
    }

    /// A direction from `origin` toward a sampled point of this object.
    /// For a rectangle the direction reaches a point of the light's own
    /// surface: the plane coordinate is pinned exactly and the two in-plane
    /// coordinates land inside the shifted extents.
    pub fn random(&self, o: &Vec3) -> (r: Vec3)
        ensures
            r.bounded(3 * CMAX as int),
            self matches Object::RectXy(q) ==> (if crate::rect::rect_xy_ok(*q) && o.bounded(
                CMAX as int,
            ) {
                &&& r.z == q.k - o.z
                &&& q.x0 - o.x <= r.x < q.x1 - o.x
                &&& q.y0 - o.y <= r.y < q.y1 - o.y
            } else {
                r == (Vec3 { x: FX_ONE, y: 0, z: 0 })
            }),
            self matches Object::RectXz(q) ==> (if crate::rect::rect_xz_ok(*q) && o.bounded(
                CMAX as int,
            ) {
                &&& r.y == q.k - o.y
                &&& q.x0 - o.x <= r.x < q.x1 - o.x
                &&& q.z0 - o.z <= r.z < q.z1 - o.z
            } else {
                r == (Vec3 { x: FX_ONE, y: 0, z: 0 })
            }),
            self matches Object::RectYz(q) ==> (if crate::rect::rect_yz_ok(*q) && o.bounded(
                CMAX as int,
            ) {
                &&& r.x == q.k - o.x
                &&& q.y0 - o.y <= r.y < q.y1 - o.y
                &&& q.z0 - o.z <= r.z < q.z1 - o.z
            } else {
                r == (Vec3 { x: FX_ONE, y: 0, z: 0 })
            }),
            self matches Object::List(l) ==> (l.objects@.len() == 0 ==> r == (Vec3 {
                x: FX_ONE,
                y: 0,
                z: 0,
            })),
        decreases *self, 4int,
    {
        match self {
            Object::RectXy(q) => {
                if !(q.is_ok() && o.is_bounded(CMAX)) {
                    return Vec3 { x: FX_ONE, y: 0, z: 0 };
                }
                let px = random_range(q.x0, q.x1);
                let py = random_range(q.y0, q.y1);
                Vec3 { x: px - o.x, y: py - o.y, z: q.k - o.z }
            },
            Object::RectXz(q) => {
                if !(q.is_ok() && o.is_bounded(CMAX)) {
                    return Vec3 { x: FX_ONE, y: 0, z: 0 };
                }
                let px = random_range(q.x0, q.x1);
                let pz = random_range(q.z0, q.z1);
                Vec3 { x: px - o.x, y: q.k - o.y, z: pz - o.z }
            },
            Object::RectYz(q) => {
                if !(q.is_ok() && o.is_bounded(CMAX)) {
                    return Vec3 { x: FX_ONE, y: 0, z: 0 };
                }
                let py = random_range(q.y0, q.y1);
                let pz = random_range(q.z0, q.z1);
                Vec3 { x: q.k - o.x, y: py - o.y, z: pz - o.z }
            },
            Object::Sphere(sp) => {
                if !(sp.is_ok() && o.is_bounded(CMAX)) {
                    return Vec3 { x: FX_ONE, y: 0, z: 0 };
                }
                let direction = sp.center.minus(o);
                let dsq = direction.len_square();
                if dsq < 1 {
                    return Vec3 { x: FX_ONE, y: 0, z: 0 };
                }
                let uvw = ONB::build(&Vec3 {
                    x: fx_clamp(direction.x, -UNITB, UNITB),
                    y: fx_clamp(direction.y, -UNITB, UNITB),
                    z: fx_clamp(direction.z, -UNITB, UNITB),
                });
                let a = random_to_sphere(sp.radius, dsq);
                uvw.local(a)
            },
            Object::List(l) => {
                if l.objects.len() == 0 {
                    return Vec3 { x: FX_ONE, y: 0, z: 0 };
                }
                let k = random_index(l.objects.len());
                l.objects[k].random(o)
            },
            Object::Translate(t) => {
                if !(o.is_bounded(CMAX / 2) && t.offset.is_bounded(CMAX / 2)) {
                    return Vec3 { x: FX_ONE, y: 0, z: 0 };
                }
                let so = o.minus(&t.offset);
                t.inner.random(&so)
            },
            _ => Vec3 { x: FX_ONE, y: 0, z: 0 },
        }
    }
}

/// The clamped area-light density, computed exactly.
fn rect_pdf_exec(hit: Option<HitRecord>, e1: i64, e2: i64, v: &Vec3) -> (r: i64)
    ensures
        r == rect_pdf_common(hit, e1 as int, e2 as int, *v),
        0 <= r <= PDF_CAP,
{
    match hit {
        None => 0,
        Some(rec) => {
            if !(v.is_bounded(DMAX) && rec.normal.is_bounded(crate::vec3::UNITB) && -0x1000_0000
                <= rec.t && rec.t <= 0x1000_0000 && 1 <= e1 && e1 <= 2 * CMAX && 1 <= e2 && e2 <= 2
                * CMAX) {
                return 0;
            }
            if v.len_square() < 1 {
                return 0;
            }
            proof {
                crate::vec3::lemma_dot_self_nonneg(*v);
                crate::vec3::lemma_dot_bound(*v, *v, DMAX as int);
                lemma_mul_le(rec.t as int, rec.t as int, 0x1000_0000, 0x1000_0000);
                lemma_qdiv_le(rec.t * rec.t, FX_ONE as int, 0x1000_0000int * 0x1000_0000int);
                lemma_mul_le(
                    fx_mul_spec(rec.t as int, rec.t as int),
                    dot_spec(*v, *v),
                    (0x1000_0000int * 0x1000_0000int) / (FX_ONE as int),
                    (3 * ((DMAX as int) * (DMAX as int))) / (FX_ONE as int),
                );
                lemma_qdiv_le(
                    fx_mul_spec(rec.t as int, rec.t as int) * dot_spec(*v, *v),
                    FX_ONE as int,
                    ((0x1000_0000int * 0x1000_0000int) / (FX_ONE as int)) * ((3 * ((DMAX as int) * (
                    DMAX as int))) / (FX_ONE as int)),
                );
            }
            let t2 = fx_mul(rec.t, rec.t);
            let dist_sq = fx_mul(t2, v.len_square());
            let len = v.len();
            if len < 1 {
                return 0;
            }
            proof {
                crate::vec3::lemma_dot_bound(*v, rec.normal, DMAX as int);
                lemma_mul_le(dot_spec(*v, rec.normal), FX_ONE as int, (3 * ((DMAX as int) * (
                DMAX as int))) / (FX_ONE as int), FX_ONE as int);
                lemma_qdiv_le(dot_spec(*v, rec.normal) * FX_ONE, len as int, ((3 * ((DMAX as int)
                    * (DMAX as int))) / (FX_ONE as int)) * (FX_ONE as int));
            }
            proof {
                crate::fx::lemma_div_shrink(
                    ((3 * ((DMAX as int) * (DMAX as int))) / (FX_ONE as int)) * (FX_ONE as int),
                    len as int,
                );
            }
            let cosr = fx_div(v.dot(&rec.normal), len);
            let cos = fx_clamp(fx_abs(cosr), 0, 16 * FX_ONE);
            proof {
                lemma_mul_le(e1 as int, e2 as int, 2 * CMAX as int, 2 * CMAX as int);
                lemma_qdiv_le(e1 * e2, FX_ONE as int, (2 * CMAX as int) * (2 * CMAX as int));
                lemma_mul_le(
                    fx_clamp_spec(
                        abs_spec(fx_div_spec(dot_spec(*v, rec.normal), crate::vec3::len_spec(*v))),
                        0,
                        16 * FX_ONE as int,
                    ),
                    fx_mul_spec(e1 as int, e2 as int),
                    16 * FX_ONE as int,
                    ((2 * CMAX as int) * (2 * CMAX as int)) / (FX_ONE as int),
                );
                lemma_qdiv_le(
                    fx_clamp_spec(
                        abs_spec(fx_div_spec(dot_spec(*v, rec.normal), crate::vec3::len_spec(*v))),
                        0,
                        16 * FX_ONE as int,
                    ) * fx_mul_spec(e1 as int, e2 as int),
                    FX_ONE as int,
                    (16 * FX_ONE as int) * (((2 * CMAX as int) * (2 * CMAX as int)) / (
                    FX_ONE as int)),
                );
            }
            let area = fx_mul(e1, e2);
            let den = fx_mul(cos, area);
            if den < 1 {
                return 0;
            }
            let pv128: i128 = crate::fx::qdiv_i128((dist_sq as i128) * 65536, den as i128);
            let pv: i64 = if pv128 < 0 {
                0
            } else if pv128 > PDF_CAP as i128 {
                PDF_CAP
            } else {
                pv128 as i64
            };
            proof {
                assert(pv == fx_clamp_spec(fx_div_spec(dist_sq as int, den as int), 0,
                    PDF_CAP as int));
            }
            pv
        },
    }
}


impl HittableList {
    /// The average of the children's densities for sampling a direction
    /// from `o` toward this aggregate.
    pub fn pdf_value(&self, o: &Point3, v: &Vec3) -> (r: i64)
        ensures
            r == (if self.objects@.len() == 0 || self.objects@.len() >= 0x10000 {
                0int
            } else {
                list_pdf_from(
                    self.objects@,
                    0,
                    *o,
                    *v,
                    (FX_ONE as int) / (self.objects@.len() as int),
                    0,
                )
            }),
            0 <= r <= PDF_CAP,
        decreases self, 5int,
    {
        if self.objects.len() == 0 || self.objects.len() >= 0x10000 {
            return 0;
        }
        proof {
            crate::fx::lemma_div_shrink(FX_ONE as int, self.objects@.len() as int);
        }
        let w = crate::fx::div_pos(FX_ONE, self.objects.len() as i64);
        let mut sum: i64 = 0;
        let mut i: usize = 0;
        while i < self.objects.len()
            invariant
                0 <= i <= self.objects@.len(),
                0 <= sum <= PDF_CAP,
                0 <= w <= FX_ONE,
                1 <= self.objects@.len() < 0x10000,
                w == (FX_ONE as int) / (self.objects@.len() as int),
                list_pdf_from(
                    self.objects@,
                    0,
                    *o,
                    *v,
                    (FX_ONE as int) / (self.objects@.len() as int),
                    0,
                ) == list_pdf_from(self.objects@, i as int, *o, *v, w as int, sum as int),
            decreases self.objects@.len() - i,
        {
            proof {
                assert(self.objects@[i as int] == self.objects[i as int]);
            }
            let pv = self.objects[i].pdf_value(o, v);
            proof {
                lemma_mul_le(w as int, pv as int, FX_ONE as int, PDF_CAP as int);
                lemma_qdiv_le(w * pv, FX_ONE as int, (FX_ONE as int) * (PDF_CAP as int));
                lemma_qdiv_nonneg(w * pv, FX_ONE as int);
            }
            let term = fx_mul(w, pv);
            sum = fx_clamp(sum + term, 0, PDF_CAP);
            i = i + 1;
        }
        sum
    }

    /// A direction toward a uniformly chosen child; an empty aggregate
    /// falls back to a fixed axis direction.
    pub fn random(&self, o: &Vec3) -> (r: Vec3)
        ensures
            r.bounded(3 * CMAX as int),
            self.objects@.len() == 0 ==> r == (Vec3 { x: FX_ONE, y: 0, z: 0 }),
        decreases self, 5int,
    {
        if self.objects.len() == 0 {
            return Vec3 { x: FX_ONE, y: 0, z: 0 };
        }
        let k = random_index(self.objects.len());
        self.objects[k].random(o)
    }
}

} // verus!
