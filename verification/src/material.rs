//! The scattering model: each material maps an incoming ray and hit record
//! to a specular bounce, a diffuse bounce described by a cosine
//! distribution, or absorption; emitters report their radiance.

use vstd::prelude::*;
use crate::fx::{
    FX_ONE, FX_PI, fx_mul_spec, fx_div_spec, fx_clamp_spec, fx_mul, fx_div, fx_sqrt, fx_clamp,
    lemma_mul_le, lemma_qdiv_le, lemma_qdiv_nonneg,
};
use crate::vec3::{
    Vec3, Color, Point3, dot_spec, unit_spec, reflect_spec, minus_spec, plus_spec, scale_spec,
    neg_spec, UNITB, VMAX,
};
use crate::ray::{Ray, ray_ok, CMAX, DMAX};
use crate::hit::{HitRecord, rec_ok};
use crate::texture::{Texture, ImageBuf, color_unit};
use crate::pdf::{CosPDF, random_in_unit_sphere};
use crate::rng::random_unit;

verus! {

/// Bound accepted for albedo and emission channels (256 in fixed point).
pub const COLB: i64 = 0x100_0000;

pub enum Material {
    Lambertian { albedo: Texture },
    Metal { albedo: Color, fuzz: i64 },
    Dielectric { ir: i64 },
    DiffuseLight { emit: Texture },
    Isotropic { albedo: Texture },
}

/// What a scatter reports: the filter color, and either a fixed specular
/// ray or a cosine distribution for the integrator to mix with light
/// sampling.
pub struct ScatterRecord {
    pub attenuation: Color,
    pub is_specular: bool,
    pub specular_ray: Ray,
    pub pdf_ptr: Option<CosPDF>,
}

/// The dielectric chooses reflection whenever total internal reflection
/// forces it: `ratio·sinθ > 1`, decided exactly over the fixed-point
/// values.
pub open spec fn must_reflect(ratio: int, sin_theta: int) -> bool {
    fx_mul_spec(ratio, sin_theta) > FX_ONE
}

/// The Lambertian density of a scattered direction: `max(0, cos θ)/π`.
pub open spec fn lambertian_pdf_spec(normal: Vec3, scattered_dir: Vec3) -> int {
    if !(scattered_dir.bounded(VMAX as int) && dot_spec(scattered_dir, scattered_dir) >= 1
        && normal.bounded(UNITB as int)) {
        0
    } else {
        let u = unit_spec(scattered_dir);
        if !u.bounded(2 * FX_ONE as int) {
            0
        } else {
            let cos = dot_spec(normal, u);
            if cos <= 0 {
                0
            } else {
                fx_clamp_spec(fx_div_spec(cos, FX_PI as int), 0, FX_ONE as int)
            }
        }
    }
}

impl Material {
    /// Scatter the incoming ray at the hit.  Lambertians always scatter
    /// diffusely with a cosine distribution about the normal; metals and
    /// dielectrics and isotropics are specular; lights absorb.
    pub fn scatter(&self, r_in: &Ray, rec: &HitRecord, images: &Vec<ImageBuf>) -> (res: Option<
        ScatterRecord,
    >)
        requires
            ray_ok(*r_in),
            rec_ok(*rec),
        ensures
            self is DiffuseLight ==> res is None,
            self is Lambertian ==> (res matches Some(sr) && !sr.is_specular && (sr.pdf_ptr
                matches Some(cp) && cp.uvw == crate::onb::onb_build_spec(rec.normal))),
            self matches Material::Lambertian { albedo } ==> (albedo
                matches Texture::SolidColor { color_val } ==> (res matches Some(sr)
                && sr.attenuation == clamp_color_spec(*color_val))),
            self matches Material::Lambertian { albedo } ==> (albedo
                matches Texture::Checker { odd, even } ==> (res matches Some(sr) && (
            sr.attenuation == clamp_color_spec(*odd) || sr.attenuation == clamp_color_spec(
                *even,
            )))),
            res matches Some(sr) ==> sr.attenuation.bounded(COLB as int),
            res matches Some(sr) ==> ((self is Metal || self is Dielectric || self is Isotropic)
                ==> sr.is_specular && sr.specular_ray.orig == rec.p && sr.pdf_ptr is None),
            self matches Material::Metal { albedo, fuzz } ==> {
                &&& (res is None <==> (dot_spec(r_in.dir, r_in.dir) < 1 || !unit_spec(
                    r_in.dir,
                ).bounded(2 * FX_ONE as int) || !reflect_spec(unit_spec(r_in.dir),
                    rec.normal).bounded(0x1000_0000)))
                &&& (res matches Some(sr) ==> {
                    &&& sr.attenuation == clamp_color_spec(*albedo)
                    &&& exists|s: Vec3|
                        {
                            &&& s.bounded(FX_ONE as int)
                            &&& dot_spec(s, s) <= FX_ONE
                            &&& sr.specular_ray.dir == plus_spec(
                                reflect_spec(unit_spec(r_in.dir), rec.normal),
                                #[trigger] scale_spec(
                                    fx_clamp_spec(fuzz as int, 0, FX_ONE as int),
                                    s,
                                ),
                            )
                        }
                })
            },
            self matches Material::Dielectric { ir } ==> (res is None <==> (ir < FX_ONE
                || dot_spec(r_in.dir, r_in.dir) < 1 || !unit_spec(r_in.dir).bounded(
                2 * FX_ONE as int,
            ) || (!rec.front_face && ir > 16 * FX_ONE))),
            self matches Material::Dielectric { ir } ==> (res matches Some(sr) ==> {
                let ud = unit_spec(r_in.dir);
                let ratio = if rec.front_face {
                    fx_div_spec(FX_ONE as int, ir as int)
                } else {
                    ir as int
                };
                let cos_theta = dielectric_cos_spec(ud, rec.normal);
                let sin_theta = crate::fx::isqrt_spec(
                    fx_clamp_spec((FX_ONE - fx_mul_spec(cos_theta, cos_theta)) as int, 0,
                        FX_ONE as int) * FX_ONE,
                );
                &&& sr.attenuation == (Color { x: FX_ONE, y: FX_ONE, z: FX_ONE })
                &&& sr.specular_ray.tm == r_in.tm
                &&& (sr.specular_ray.dir == reflect_spec(ud, rec.normal)
                    || sr.specular_ray.dir == refract_spec(ud, rec.normal, ratio))
                &&& (must_reflect(ratio, sin_theta) ==> sr.specular_ray.dir == reflect_spec(
                    ud,
                    rec.normal,
                ))
            }),
            self matches Material::Isotropic { albedo } ==> (res matches Some(sr) && dot_spec(
                sr.specular_ray.dir,
                sr.specular_ray.dir,
            ) <= FX_ONE && sr.specular_ray.tm == r_in.tm && (albedo
                matches Texture::SolidColor { color_val } ==> sr.attenuation == clamp_color_spec(
                *color_val,
            ))),
    {
        match self {
            Material::Lambertian { albedo } => {
                let att0 = albedo.value(rec.u, rec.v, &rec.p, images);
                let att = clamp_color(att0);
                Some(
                    ScatterRecord {
                        is_specular: false,
                        specular_ray: Ray { orig: rec.p, dir: Vec3 { x: 0, y: 0, z: 0 }, tm: 0 },
                        attenuation: att,
                        pdf_ptr: Some(CosPDF::new(&rec.normal)),
                    },
                )
            },
            Material::Metal { albedo, fuzz } => {
                if r_in.dir.len_square() < 1 {
                    return None;
                }
                let ud = r_in.dir.unit_vector();
                if !ud.is_bounded(2 * FX_ONE) {
                    return None;
                }
                let reflected = ud.reflect(&rec.normal);
                if !reflected.is_bounded(0x1000_0000) {
                    return None;
                }
                let f = fx_clamp(*fuzz, 0, FX_ONE);
                let p = random_in_unit_sphere();
                proof {
                    crate::vec3::lemma_scale_bound(f as int, p, FX_ONE as int, FX_ONE as int);
                }
                let dir = reflected.plus(&p.scale(f));
                proof {
                    assert(dir == plus_spec(reflect_spec(unit_spec(r_in.dir), rec.normal),
                        scale_spec(fx_clamp_spec(*fuzz as int, 0, FX_ONE as int), p)));
                }
                Some(
                    ScatterRecord {
                        attenuation: clamp_color(*albedo),
                        is_specular: true,
                        specular_ray: Ray { orig: rec.p, dir, tm: 0 },
                        pdf_ptr: None,
                    },
                )
            },
            Material::Dielectric { ir } => {
                if *ir < FX_ONE {
                    return None;
                }
                if r_in.dir.len_square() < 1 {
                    return None;
                }
                let ud = r_in.dir.unit_vector();
                if !ud.is_bounded(2 * FX_ONE) {
                    return None;
                }
                proof {
                    lemma_qdiv_le(FX_ONE * FX_ONE, *ir as int, (FX_ONE as int) * (FX_ONE as int));
                    assert(0 <= crate::fx::qdiv(FX_ONE * FX_ONE, *ir as int) <= FX_ONE)
                        by (nonlinear_arith)
                        requires
                            *ir >= FX_ONE,
                            FX_ONE == 65536,
                    ;
                }
                let ratio: i64 = if rec.front_face {
                    fx_div(FX_ONE, *ir)
                } else {
                    if *ir > 16 * FX_ONE {
                        16 * FX_ONE
                    } else {
                        *ir
                    }
                };
                if rec.front_face == false && *ir > 16 * FX_ONE {
                    return None;
                }
                let cos_theta = dielectric_cos(&ud, &rec.normal);
                proof {
                    lemma_mul_le(cos_theta as int, cos_theta as int, FX_ONE as int, FX_ONE as int);
                    lemma_qdiv_le(cos_theta * cos_theta, FX_ONE as int, (FX_ONE as int) * (
                    FX_ONE as int));
                }
                let sin2 = fx_clamp(FX_ONE - fx_mul(cos_theta, cos_theta), 0, FX_ONE);
                let sin_theta = fx_sqrt(sin2);
                proof {
                    assert(sin_theta <= 2 * FX_ONE) by (nonlinear_arith)
                        requires
                            sin_theta >= 0,
                            sin_theta * sin_theta <= sin2 * FX_ONE,
                            0 <= sin2 <= FX_ONE,
                            FX_ONE == 65536,
                    ;
                    lemma_mul_le(ratio as int, sin_theta as int, 16 * FX_ONE as int, 2
                        * FX_ONE as int);
                    lemma_qdiv_le(ratio * sin_theta, FX_ONE as int, (16 * FX_ONE as int) * (2
                        * FX_ONE as int));
                }
                let cannot_refract = fx_mul(ratio, sin_theta) > FX_ONE;
                let refl = reflectance(cos_theta, ratio);
                let coin = random_unit();
                let dir: Vec3 = if cannot_refract || refl > coin {
                    ud.reflect(&rec.normal)
                } else {
                    refract(&ud, &rec.normal, ratio)
                };
                Some(
                    ScatterRecord {
                        attenuation: Color { x: FX_ONE, y: FX_ONE, z: FX_ONE },
                        is_specular: true,
                        specular_ray: Ray { orig: rec.p, dir, tm: r_in.tm },
                        pdf_ptr: None,
                    },
                )
            },
            Material::DiffuseLight { .. } => None,
            Material::Isotropic { albedo } => {
                let att0 = albedo.value(rec.u, rec.v, &rec.p, images);
                let att = clamp_color(att0);
                let dir = random_in_unit_sphere();
                Some(
                    ScatterRecord {
                        attenuation: att,
                        is_specular: true,
                        specular_ray: Ray { orig: rec.p, dir, tm: r_in.tm },
                        pdf_ptr: None,
                    },
                )
            },
        }
    }

    /// The density with which a diffuse material would have scattered the
    /// given ray: the Lambertian cosine density, and nothing for the rest.
    pub fn scatter_pdf(&self, _r_in: &Ray, rec: &HitRecord, scattered: &Ray) -> (res: Option<i64>)
        requires
            rec_ok(*rec),
        ensures
            self is Lambertian ==> res == Some(
                lambertian_pdf_spec(rec.normal, scattered.dir) as i64,
            ),
            !(self is Lambertian) ==> res is None,
            res matches Some(v) ==> 0 <= v <= FX_ONE,
    {
        match self {
            Material::Lambertian { .. } => {
                if !(scattered.dir.is_bounded(VMAX)) {
                    return Some(0);
                }
                if scattered.dir.len_square() < 1 {
                    return Some(0);
                }
                let u = scattered.dir.unit_vector();
                if !u.is_bounded(2 * FX_ONE) {
                    return Some(0);
                }
                let cos = rec.normal.dot(&u);
                if cos <= 0 {
                    return Some(0);
                }
                proof {
                    crate::vec3::lemma_dot_bound(rec.normal, unit_spec(scattered.dir),
                        UNITB as int);
                    lemma_mul_le(cos as int, FX_ONE as int, (3 * ((UNITB as int) * (
                    UNITB as int))) / (FX_ONE as int), FX_ONE as int);
                    lemma_qdiv_le(cos * FX_ONE, FX_PI as int, ((3 * ((UNITB as int) * (
                    UNITB as int))) / (FX_ONE as int)) * (FX_ONE as int));
                    lemma_qdiv_nonneg(cos * FX_ONE, FX_PI as int);
                }
                Some(fx_clamp(fx_div(cos, FX_PI), 0, FX_ONE))
            },
            _ => None,
        }
    }

    /// The emitted radiance: the light's texture color, black for
    /// everything else.
    pub fn emitted(&self, u: i64, v: i64, p: &Point3, images: &Vec<ImageBuf>) -> (c: Color)
        ensures
            !(self is DiffuseLight) ==> c == (Color { x: 0, y: 0, z: 0 }),
            self matches Material::DiffuseLight { emit } ==> (emit matches Texture::SolidColor {
                color_val,
            } ==> c == clamp_color_spec(*color_val)),
            c.bounded(COLB as int),
    {
        match self {
            Material::DiffuseLight { emit } => {
                let e = emit.value(u, v, p, images);
                clamp_color(e)
            },
            _ => Color { x: 0, y: 0, z: 0 },
        }
    }
}

/// The incidence cosine the dielectric uses: `min(1, -d·n)`, never below
/// zero.
pub open spec fn dielectric_cos_spec(ud: Vec3, n: Vec3) -> int {
    fx_clamp_spec(-dot_spec(ud, n), 0, FX_ONE as int)
}

fn dielectric_cos(ud: &Vec3, n: &Vec3) -> (r: i64)
    requires
        ud.bounded(2 * FX_ONE as int),
        n.bounded(UNITB as int),
    ensures
        r == dielectric_cos_spec(*ud, *n),
        0 <= r <= FX_ONE,
{
    proof {
        crate::vec3::lemma_dot_bound(*ud, *n, UNITB as int);
    }
    let d = ud.dot(n);
    fx_clamp(-d, 0, FX_ONE)
}

/// A power of a unit-interval scalar, each factor truncated once.
pub open spec fn pow_unit_spec(x: int, n: nat) -> int
    decreases n,
{
    if n == 0 {
        FX_ONE as int
    } else {
        fx_mul_spec(x, pow_unit_spec(x, (n - 1) as nat))
    }
}

/// The value of [`reflectance`]: Schlick's approximation
/// `r0 + (1-r0)(1-cos)^5` with `r0 = ((1-idx)/(1+idx))²`, clamped.
pub open spec fn reflectance_spec(cosine: int, ref_idx: int) -> int
    recommends
        0 <= ref_idx,
{
    let r0a = fx_div_spec(FX_ONE - ref_idx, FX_ONE + ref_idx);
    let r0b = fx_clamp_spec(r0a, -FX_ONE as int, FX_ONE as int);
    let r0 = fx_clamp_spec(fx_mul_spec(r0b, r0b), 0, FX_ONE as int);
    let omc = fx_clamp_spec(FX_ONE - cosine, 0, FX_ONE as int);
    let p5 = pow_unit_spec(omc, 5);
    fx_clamp_spec(r0 + fx_mul_spec(FX_ONE - r0, p5), 0, FX_ONE as int)
}

/// Schlick's reflectance approximation, clamped into `[0, 1]`.
pub fn reflectance(cosine: i64, ref_idx: i64) -> (r: i64)
    requires
        0 <= cosine <= FX_ONE,
        0 <= ref_idx <= 16 * FX_ONE,
    ensures
        r == reflectance_spec(cosine as int, ref_idx as int),
        0 <= r <= FX_ONE,
{
    proof {
        lemma_mul_le((FX_ONE - ref_idx) as int, FX_ONE as int, 16 * FX_ONE as int, FX_ONE as int);
        lemma_qdiv_le((FX_ONE - ref_idx) * FX_ONE, (FX_ONE + ref_idx) as int, (16
            * FX_ONE as int) * (FX_ONE as int));
        crate::fx::lemma_div_shrink((16 * FX_ONE as int) * (FX_ONE as int), (FX_ONE
            + ref_idx) as int);
    }
    let r0a = fx_div(FX_ONE - ref_idx, FX_ONE + ref_idx);
    let r0b = fx_clamp(r0a, -FX_ONE, FX_ONE);
    proof {
        lemma_mul_le(r0b as int, r0b as int, FX_ONE as int, FX_ONE as int);
        lemma_qdiv_le(r0b * r0b, FX_ONE as int, (FX_ONE as int) * (FX_ONE as int));
        assert(r0b * r0b >= 0) by (nonlinear_arith);
        lemma_qdiv_nonneg(r0b * r0b, FX_ONE as int);
    }
    let r0 = fx_clamp(fx_mul(r0b, r0b), 0, FX_ONE);
    let omc = fx_clamp(FX_ONE - cosine, 0, FX_ONE);
    let p2 = pow_unit(omc, 5);
    proof {
        lemma_mul_le((FX_ONE - r0) as int, p2 as int, FX_ONE as int, FX_ONE as int);
        lemma_qdiv_le((FX_ONE - r0) * p2, FX_ONE as int, (FX_ONE as int) * (FX_ONE as int));
    }
    fx_clamp(r0 + fx_mul(FX_ONE - r0, p2), 0, FX_ONE)
}

/// A power of a value in the unit interval stays in it.
fn pow_unit(x: i64, n: usize) -> (r: i64)
    requires
        0 <= x <= FX_ONE,
    ensures
        r == pow_unit_spec(x as int, n as nat),
        0 <= r <= FX_ONE,
    decreases n,
{
    if n == 0 {
        FX_ONE
    } else {
        let rest = pow_unit(x, n - 1);
        proof {
            lemma_mul_le(x as int, rest as int, FX_ONE as int, FX_ONE as int);
            lemma_qdiv_le(x * rest, FX_ONE as int, (FX_ONE as int) * (FX_ONE as int));
            lemma_qdiv_nonneg(x * rest, FX_ONE as int);
        }
        fx_mul(x, rest)
    }
}

/// The value of [`refract`]: the perpendicular part `eta·(ud + cosθ·n)`
/// completed by a parallel part of length `√(1 − |perp|²)` against the
/// normal; inputs the construction cannot hold fall back to straight-down.
pub open spec fn refract_spec(ud: Vec3, n: Vec3, eta: int) -> Vec3 {
    let cos = dielectric_cos_spec(ud, n);
    let shifted = plus_spec(ud, scale_spec(cos, n));
    if !shifted.bounded(2 * FX_ONE as int) {
        Vec3 { x: 0, y: 0, z: (-FX_ONE) as i64 }
    } else {
        let perp = scale_spec(eta, shifted);
        let inner = fx_clamp_spec(FX_ONE - dot_spec(perp, perp), 0, FX_ONE as int);
        let pl = crate::fx::isqrt_spec(inner * FX_ONE);
        let out = plus_spec(perp, scale_spec(-pl, n));
        if out.bounded(64 * FX_ONE as int) {
            out
        } else {
            Vec3 { x: 0, y: 0, z: (-FX_ONE) as i64 }
        }
    }
}

/// Refraction by the vector form of Snell's law, over bounded values.
pub fn refract(ud: &Vec3, n: &Vec3, etai_over_etat: i64) -> (r: Vec3)
    requires
        ud.bounded(2 * FX_ONE as int),
        n.bounded(UNITB as int),
        0 <= etai_over_etat <= 16 * FX_ONE,
    ensures
        r == refract_spec(*ud, *n, etai_over_etat as int),
        r.bounded(64 * FX_ONE as int),
{
    let cos_theta = dielectric_cos(ud, n);
    proof {
        crate::vec3::lemma_scale_bound(cos_theta as int, *n, FX_ONE as int, UNITB as int);
        assert(((FX_ONE as int) * (UNITB as int)) / (FX_ONE as int) == UNITB) by (nonlinear_arith);
    }
    let shifted = ud.plus(&n.scale(cos_theta));
    if !shifted.is_bounded(2 * FX_ONE) {
        return Vec3 { x: 0, y: 0, z: -FX_ONE };
    }
    proof {
        crate::vec3::lemma_scale_bound(etai_over_etat as int, shifted, 16 * FX_ONE as int, 2
            * FX_ONE as int);
        assert(((16 * FX_ONE as int) * (2 * FX_ONE as int)) / (FX_ONE as int) == 32 * FX_ONE)
            by (nonlinear_arith);
    }
    let r_out_perp = shifted.scale(etai_over_etat);
    let perp_sq = r_out_perp.len_square();
    let inner = fx_clamp(FX_ONE - perp_sq, 0, FX_ONE);
    let par_len = fx_sqrt(inner);
    proof {
        assert(par_len <= 2 * FX_ONE) by (nonlinear_arith)
            requires
                par_len >= 0,
                par_len * par_len <= inner * FX_ONE,
                0 <= inner <= FX_ONE,
                FX_ONE == 65536,
        ;
        crate::vec3::lemma_scale_bound(-par_len as int, *n, 2 * FX_ONE as int, UNITB as int);
        assert(((2 * FX_ONE as int) * (UNITB as int)) / (FX_ONE as int) == 2 * UNITB)
            by (nonlinear_arith);
    }
    let r_out_parallel = n.scale(-par_len);
    let out = r_out_perp.plus(&r_out_parallel);
    if out.is_bounded(64 * FX_ONE) {
        out
    } else {
        Vec3 { x: 0, y: 0, z: -FX_ONE }
    }
}

/// Componentwise clamp of a color into the accepted channel range.
pub open spec fn clamp_color_spec(c: Color) -> Color {
    Color {
        x: fx_clamp_spec(c.x as int, 0, COLB as int) as i64,
        y: fx_clamp_spec(c.y as int, 0, COLB as int) as i64,
        z: fx_clamp_spec(c.z as int, 0, COLB as int) as i64,
    }
}

pub fn clamp_color(c: Color) -> (r: Color)
    ensures
        r == clamp_color_spec(c),
        r.bounded(COLB as int),
        0 <= r.x && 0 <= r.y && 0 <= r.z,
{
    Color {
        x: fx_clamp(c.x, 0, COLB),
        y: fx_clamp(c.y, 0, COLB),
        z: fx_clamp(c.z, 0, COLB),
    }
}

} // verus!
