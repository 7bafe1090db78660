//! The camera: maps normalized image-plane coordinates, a lens-aperture
//! sample and a shutter-time sample to a ray.  Construction clamps
//! everything into the scene ranges, so every ray it casts is in range.

use vstd::prelude::*;
use crate::fx::{
    FX_ONE, qdiv, fx_mul_spec, fx_div_spec, fx_clamp_spec, fx_mul, fx_div, fx_clamp, fx_half,
    fx_sin, fx_cos, degree_to_radians, lemma_mul_le, lemma_qdiv_le,
};
use crate::vec3::{
    Vec3, Point3, dot_spec, cross_spec, unit_spec, plus_spec, minus_spec, scale_spec,
    random_range, UNITB, VMAX,
};
use crate::ray::{Ray, ray_ok, CMAX, DMAX, T_INF};

verus! {

/// Bound on camera placement and viewport vectors (2048 in fixed point).
pub const CAMB: i64 = 0x800_0000;

pub struct Camera {
    pub origin: Point3,
    pub lower_left_corner: Point3,
    pub horizontal: Vec3,
    pub vertical: Vec3,
    pub u: Vec3,
    pub v: Vec3,
    pub w: Vec3,
    pub lens_radius: i64,
    pub time0: i64,
    pub time1: i64,
}

pub open spec fn camera_ok(c: Camera) -> bool {
    &&& c.origin.bounded(CAMB as int)
    &&& c.lower_left_corner.bounded(4 * CAMB as int)
    &&& c.horizontal.bounded(CAMB as int)
    &&& c.vertical.bounded(CAMB as int)
    &&& c.u.bounded(2 * FX_ONE as int)
    &&& c.v.bounded(2 * FX_ONE as int)
    &&& c.w.bounded(2 * FX_ONE as int)
    &&& 0 <= c.lens_radius <= 16 * FX_ONE
    &&& -CMAX <= c.time0 <= c.time1 <= CMAX
}

/// Componentwise clamp of a vector into `[-b, b]`.
pub open spec fn clamp3_spec(v: Vec3, b: int) -> Vec3 {
    Vec3 {
        x: fx_clamp_spec(v.x as int, -b, b) as i64,
        y: fx_clamp_spec(v.y as int, -b, b) as i64,
        z: fx_clamp_spec(v.z as int, -b, b) as i64,
    }
}

/// The value of [`unit_or`]: the unit vector, or the fallback for inputs
/// the normalization cannot hold.
pub open spec fn unit_or_spec(v: Vec3, fallback: Vec3) -> Vec3 {
    if !v.bounded(VMAX as int) {
        fallback
    } else if dot_spec(v, v) < 1 {
        fallback
    } else {
        let t = unit_spec(v);
        if t.bounded(2 * FX_ONE as int) {
            t
        } else {
            fallback
        }
    }
}

/// The value of [`viewport_vectors`]: the image-plane spanning vectors and
/// its lower-left corner, every step clamped into the camera range.
pub open spec fn viewport_spec(
    ori: Point3,
    u0: Vec3,
    v0: Vec3,
    w0: Vec3,
    focus_dist: int,
    vw: int,
    vh: int,
) -> (Vec3, Vec3, Vec3) {
    let fd = fx_clamp_spec(focus_dist, 0, (CAMB as int) / 256);
    let sw = fx_clamp_spec(fx_mul_spec(fd, vw), 0, (CAMB as int) / 2);
    let sh = fx_clamp_spec(fx_mul_spec(fd, vh), 0, (CAMB as int) / 2);
    let hori = clamp3_spec(scale_spec(sw, u0), CAMB as int);
    let vert = clamp3_spec(scale_spec(sh, v0), CAMB as int);
    let llc0 = minus_spec(
        minus_spec(
            minus_spec(
                ori,
                Vec3 {
                    x: qdiv(hori.x as int, 2) as i64,
                    y: qdiv(hori.y as int, 2) as i64,
                    z: qdiv(hori.z as int, 2) as i64,
                },
            ),
            Vec3 {
                x: qdiv(vert.x as int, 2) as i64,
                y: qdiv(vert.y as int, 2) as i64,
                z: qdiv(vert.z as int, 2) as i64,
            },
        ),
        scale_spec(fd, w0),
    );
    (hori, vert, clamp3_spec(llc0, 4 * CAMB as int))
}

/// The viewport vectors and the lower-left corner of the image plane.
#[verifier::rlimit(100)]
#[verifier::spinoff_prover]
fn viewport_vectors(ori: Point3, u0: Vec3, v0: Vec3, w0: Vec3, focus_dist: i64, vw: i64, vh: i64)
    -> (res: (Vec3, Vec3, Vec3))
    requires
        ori.bounded(CAMB as int),
        u0.bounded(2 * FX_ONE as int),
        v0.bounded(2 * FX_ONE as int),
        w0.bounded(2 * FX_ONE as int),
        0 <= vw <= 64 * FX_ONE,
        0 <= vh <= 32 * FX_ONE,
    ensures
        res == viewport_spec(ori, u0, v0, w0, focus_dist as int, vw as int, vh as int),
        res.0.bounded(CAMB as int),
        res.1.bounded(CAMB as int),
        res.2.bounded(4 * CAMB as int),
{
    let fd = fx_clamp(focus_dist, 0, CAMB / 256);
    proof {
        assert((CAMB as int) / 256 == 0x8_0000) by (nonlinear_arith);
        assert((CAMB as int) / 2 == 0x400_0000) by (nonlinear_arith);
        assert((((CAMB as int) / 2) * (2 * FX_ONE as int)) / (FX_ONE as int) == CAMB)
            by (nonlinear_arith);
        assert((((CAMB as int) / 256) * (2 * FX_ONE as int)) / (FX_ONE as int) == 0x10_0000)
            by (nonlinear_arith);
        lemma_mul_le(fd as int, vw as int, (CAMB as int) / 256, 64 * FX_ONE as int);
        lemma_qdiv_le(fd * vw, FX_ONE as int, ((CAMB as int) / 256) * (64 * FX_ONE as int));
        lemma_mul_le(fd as int, vh as int, (CAMB as int) / 256, 64 * FX_ONE as int);
        lemma_qdiv_le(fd * vh, FX_ONE as int, ((CAMB as int) / 256) * (64 * FX_ONE as int));
    }
    let sw = fx_clamp(fx_mul(fd, vw), 0, CAMB / 2);
    let sh = fx_clamp(fx_mul(fd, vh), 0, CAMB / 2);
    proof {
        crate::vec3::lemma_scale_bound(sw as int, u0, (CAMB as int) / 2, 2 * FX_ONE as int);
        crate::vec3::lemma_scale_bound(sh as int, v0, (CAMB as int) / 2, 2 * FX_ONE as int);
        crate::vec3::lemma_scale_bound(fd as int, w0, (CAMB as int) / 256, 2 * FX_ONE as int);
    }
    let hori0 = u0.scale(sw);
    let vert0 = v0.scale(sh);
    let hori = Vec3 {
        x: fx_clamp(hori0.x, -CAMB, CAMB),
        y: fx_clamp(hori0.y, -CAMB, CAMB),
        z: fx_clamp(hori0.z, -CAMB, CAMB),
    };
    let vert = Vec3 {
        x: fx_clamp(vert0.x, -CAMB, CAMB),
        y: fx_clamp(vert0.y, -CAMB, CAMB),
        z: fx_clamp(vert0.z, -CAMB, CAMB),
    };
    let fw = w0.scale(fd);
    let llc0 = ori.minus(
        &Vec3 { x: fx_half(hori.x), y: fx_half(hori.y), z: fx_half(hori.z) },
    ).minus(&Vec3 { x: fx_half(vert.x), y: fx_half(vert.y), z: fx_half(vert.z) }).minus(&fw);
    let llc = Vec3 {
        x: fx_clamp(llc0.x, -4 * CAMB, 4 * CAMB),
        y: fx_clamp(llc0.y, -4 * CAMB, 4 * CAMB),
        z: fx_clamp(llc0.z, -4 * CAMB, 4 * CAMB),
    };
    proof {
        let fds = fx_clamp_spec(focus_dist as int, 0, (CAMB as int) / 256);
        let sws = fx_clamp_spec(fx_mul_spec(fds, vw as int), 0, (CAMB as int) / 2);
        let shs = fx_clamp_spec(fx_mul_spec(fds, vh as int), 0, (CAMB as int) / 2);
        assert(fd == fds && sw == sws && sh == shs);
        assert(hori == clamp3_spec(scale_spec(sws, u0), CAMB as int));
        assert(vert == clamp3_spec(scale_spec(shs, v0), CAMB as int));
        assert(llc == clamp3_spec(
            minus_spec(
                minus_spec(
                    minus_spec(
                        ori,
                        Vec3 {
                            x: qdiv(hori.x as int, 2) as i64,
                            y: qdiv(hori.y as int, 2) as i64,
                            z: qdiv(hori.z as int, 2) as i64,
                        },
                    ),
                    Vec3 {
                        x: qdiv(vert.x as int, 2) as i64,
                        y: qdiv(vert.y as int, 2) as i64,
                        z: qdiv(vert.z as int, 2) as i64,
                    },
                ),
                scale_spec(fds, w0),
            ),
            4 * CAMB as int,
        ));
    }
    (hori, vert, llc)
}

/// How a cast ray relates to the camera: for the lens sample `rd`, the
/// origin is the camera origin shifted by the lens offset and the
/// direction reaches the mapped image-plane point — whenever those exact
/// values lie inside the ray ranges (out-of-range scenes fall back to a
/// down-pointing ray).
pub open spec fn lens_sample_spec(c: Camera, s: int, t: int, rd: Vec3, r: Ray) -> bool {
    let rdx = fx_mul_spec(c.lens_radius as int, rd.x as int);
    let rdy = fx_mul_spec(c.lens_radius as int, rd.y as int);
    let off = plus_spec(scale_spec(rdx, c.u), scale_spec(rdy, c.v));
    let orig2 = plus_spec(c.origin, off);
    let dir0 = minus_spec(
        minus_spec(
            plus_spec(
                plus_spec(c.lower_left_corner, scale_spec(s, c.horizontal)),
                scale_spec(t, c.vertical),
            ),
            c.origin,
        ),
        off,
    );
    orig2.bounded(CMAX as int) && dir0.bounded(DMAX as int) ==> r.orig == orig2 && r.dir == dir0
}

/// The unit vector of `v`, or the fallback when `v` is too short or out
/// of range.
fn unit_or(v: &Vec3, fallback: Vec3) -> (r: Vec3)
    requires
        fallback.bounded(2 * FX_ONE as int),
    ensures
        r == unit_or_spec(*v, fallback),
        r.bounded(2 * FX_ONE as int),
{
    if !(v.is_bounded(VMAX)) {
        return fallback;
    }
    if v.len_square() < 1 {
        return fallback;
    }
    let t = v.unit_vector();
    if t.is_bounded(2 * FX_ONE) {
        t
    } else {
        fallback
    }
}

impl Camera {
    /// Place a camera.  Out-of-range requests fall back to clamped values;
    /// the result is always able to cast in-range rays.
    #[verifier::rlimit(100)]
    #[verifier::spinoff_prover]
    pub fn new(
        lfrom: Point3,
        lat: Point3,
        vup: Vec3,
        vfov: i64,
        aspect_ratio: i64,
        aperture: i64,
        focus_dist: i64,
        time0: i64,
        time1: i64,
    ) -> (r: Camera)
        ensures
            camera_ok(r),
            r.origin == clamp3_spec(lfrom, CAMB as int),
            ({
                let t0s = fx_clamp_spec(time0 as int, -(CMAX as int), CMAX as int);
                let t1s = fx_clamp_spec(time1 as int, -(CMAX as int), CMAX as int);
                r.time0 == t0s && r.time1 == (if t1s < t0s {
                    t0s
                } else {
                    t1s
                })
            }),
            r.lens_radius == fx_clamp_spec(qdiv(aperture as int, 2), 0, 16 * FX_ONE as int),
            ({
                let ori = clamp3_spec(lfrom, CAMB as int);
                let target = clamp3_spec(lat, CAMB as int);
                let w0 = unit_or_spec(minus_spec(ori, target), Vec3 { x: 0, y: 0, z: FX_ONE });
                let u0 = unit_or_spec(
                    cross_spec(clamp3_spec(vup, UNITB as int), w0),
                    Vec3 { x: FX_ONE, y: 0, z: 0 },
                );
                let v0 = clamp3_spec(cross_spec(w0, u0), 2 * FX_ONE as int);
                &&& r.w == w0
                &&& r.u == u0
                &&& r.v == v0
                &&& exists|vh: int|
                    {
                        &&& 0 <= vh <= 32 * FX_ONE
                        &&& (r.horizontal, r.vertical, r.lower_left_corner) == viewport_spec(
                            ori,
                            u0,
                            v0,
                            w0,
                            focus_dist as int,
                            fx_clamp_spec(
                                #[trigger] fx_mul_spec(
                                    fx_clamp_spec(aspect_ratio as int, 0, 16 * FX_ONE as int),
                                    vh,
                                ),
                                0,
                                64 * FX_ONE as int,
                            ),
                            vh,
                        )
                    }
            }),
    {
        let ori = Point3 {
            x: fx_clamp(lfrom.x, -CAMB, CAMB),
            y: fx_clamp(lfrom.y, -CAMB, CAMB),
            z: fx_clamp(lfrom.z, -CAMB, CAMB),
        };
        let target = Point3 {
            x: fx_clamp(lat.x, -CAMB, CAMB),
            y: fx_clamp(lat.y, -CAMB, CAMB),
            z: fx_clamp(lat.z, -CAMB, CAMB),
        };
        let t0 = fx_clamp(time0, -CMAX, CMAX);
        let t1c = fx_clamp(time1, -CMAX, CMAX);
        let t1 = if t1c < t0 {
            t0
        } else {
            t1c
        };
        let ap = if aperture < 0 {
            0
        } else {
            aperture
        };
        let lens_radius = fx_clamp(fx_half(ap), 0, 16 * FX_ONE);
        // field of view: tangent of the half angle
        let theta = degree_to_radians(fx_clamp(vfov, 0, 179 * FX_ONE));
        let half = fx_clamp(fx_half(theta), 0, 102900);
        let sn = fx_sin(half);
        let cs = fx_cos(half);
        let h: i64 = if cs < 256 {
            16 * FX_ONE
        } else {
            proof {
                lemma_mul_le(sn as int, FX_ONE as int, FX_ONE as int, FX_ONE as int);
                lemma_qdiv_le(sn * FX_ONE, cs as int, (FX_ONE as int) * (FX_ONE as int));
                crate::fx::lemma_div_shrink((FX_ONE as int) * (FX_ONE as int), cs as int);
            }
            fx_clamp(fx_div(sn, cs), 0, 16 * FX_ONE)
        };
        let viewport_height = fx_clamp(2 * h, 0, 32 * FX_ONE);
        let ar = fx_clamp(aspect_ratio, 0, 16 * FX_ONE);
        proof {
            lemma_mul_le(ar as int, viewport_height as int, 16 * FX_ONE as int, 32
                * FX_ONE as int);
            lemma_qdiv_le(ar * viewport_height, FX_ONE as int, (16 * FX_ONE as int) * (32
                * FX_ONE as int));
        }
        let viewport_width = fx_clamp(fx_mul(ar, viewport_height), 0, 64 * FX_ONE);
        // basis
        let gaze = ori.minus(&target);
        let w0 = unit_or(&gaze, Vec3 { x: 0, y: 0, z: FX_ONE });
        let vupc = Vec3 {
            x: fx_clamp(vup.x, -UNITB, UNITB),
            y: fx_clamp(vup.y, -UNITB, UNITB),
            z: fx_clamp(vup.z, -UNITB, UNITB),
        };
        let cu = vupc.cross(&w0);
        let u0 = unit_or(&cu, Vec3 { x: FX_ONE, y: 0, z: 0 });
        proof {
            crate::vec3::lemma_cross_bound(w0, u0, 2 * FX_ONE as int);
        }
        let v0raw = w0.cross(&u0);
        let v0 = Vec3 {
            x: fx_clamp(v0raw.x, -2 * FX_ONE, 2 * FX_ONE),
            y: fx_clamp(v0raw.y, -2 * FX_ONE, 2 * FX_ONE),
            z: fx_clamp(v0raw.z, -2 * FX_ONE, 2 * FX_ONE),
        };
        let frame = viewport_vectors(ori, u0, v0, w0, focus_dist, viewport_width,
            viewport_height);
        let hori = frame.0;
        let vert = frame.1;
        let llc = frame.2;
        proof {
            let vhs = viewport_height as int;
            assert(viewport_width as int == fx_clamp_spec(
                fx_mul_spec(fx_clamp_spec(aspect_ratio as int, 0, 16 * FX_ONE as int), vhs),
                0,
                64 * FX_ONE as int,
            ));
            assert(0 <= vhs <= 32 * FX_ONE);
            assert((hori, vert, llc) == viewport_spec(ori, u0, v0, w0, focus_dist as int,
                viewport_width as int, vhs));
        }
        Camera {
            origin: ori,
            lower_left_corner: llc,
            horizontal: hori,
            vertical: vert,
            u: u0,
            v: v0,
            w: w0,
            lens_radius,
            time0: t0,
            time1: t1,
        }
    }

    /// The ray through normalized image-plane coordinates `(s, t)`, with a
    /// lens sample and a shutter-time sample.  Always in range.
    pub fn get_ray(&self, s: i64, t: i64) -> (r: Ray)
        requires
            camera_ok(*self),
            0 <= s <= FX_ONE,
            0 <= t <= FX_ONE,
        ensures
            ray_ok(r),
            self.time0 < self.time1 ==> self.time0 <= r.tm < self.time1,
            self.time0 == self.time1 ==> r.tm == self.time0,
            self.lens_radius == 0 ==> r.orig == self.origin,
            exists|rd: Vec3|
                rd.bounded(FX_ONE as int) && (#[trigger] rd.z) == 0 && lens_sample_spec(
                    *self,
                    s as int,
                    t as int,
                    rd,
                    r,
                ),
    {
        let rd = crate::pdf::random_in_unit_disk();
        proof {
            lemma_mul_le(self.lens_radius as int, rd.x as int, 16 * FX_ONE as int, FX_ONE as int);
            lemma_qdiv_le(self.lens_radius * rd.x, FX_ONE as int, (16 * FX_ONE as int) * (
            FX_ONE as int));
            lemma_mul_le(self.lens_radius as int, rd.y as int, 16 * FX_ONE as int, FX_ONE as int);
            lemma_qdiv_le(self.lens_radius * rd.y, FX_ONE as int, (16 * FX_ONE as int) * (
            FX_ONE as int));
        }
        let rdx = fx_mul(self.lens_radius, rd.x);
        let rdy = fx_mul(self.lens_radius, rd.y);
        proof {
            crate::vec3::lemma_scale_bound(rdx as int, self.u, 16 * FX_ONE as int, 2
                * FX_ONE as int);
            crate::vec3::lemma_scale_bound(rdy as int, self.v, 16 * FX_ONE as int, 2
                * FX_ONE as int);
        }
        let offset = self.u.scale(rdx).plus(&self.v.scale(rdy));
        let orig2 = self.origin.plus(&offset);
        proof {
            crate::vec3::lemma_scale_bound(s as int, self.horizontal, FX_ONE as int, CAMB as int);
            crate::vec3::lemma_scale_bound(t as int, self.vertical, FX_ONE as int, CAMB as int);
        }
        let dir0 = self.lower_left_corner.plus(&self.horizontal.scale(s)).plus(
            &self.vertical.scale(t),
        ).minus(&self.origin).minus(&offset);
        let tm = if self.time0 < self.time1 {
            random_range(self.time0, self.time1)
        } else {
            self.time0
        };
        proof {
            if self.lens_radius == 0 {
                assert(rdx == 0 && rdy == 0);
                crate::vec3::lemma_scale_zero(self.u);
                crate::vec3::lemma_scale_zero(self.v);
                assert(offset == (Vec3 { x: 0, y: 0, z: 0 }));
                assert(orig2 == self.origin);
            }
        }
        let orig_ok = orig2.is_bounded(CMAX);
        let dir_ok = dir0.is_bounded(DMAX);
        let result: Ray = if orig_ok && dir_ok {
            Ray { orig: orig2, dir: dir0, tm }
        } else if orig_ok {
            let dir1 = Vec3 { x: dir0.x / 256, y: dir0.y / 256, z: dir0.z / 256 };
            let dir2 = if dir1.is_bounded(DMAX) {
                dir1
            } else {
                Vec3 { x: 0, y: 0, z: -FX_ONE }
            };
            Ray { orig: orig2, dir: dir2, tm }
        } else {
            Ray {
                orig: Vec3 { x: 0, y: 0, z: 0 },
                dir: Vec3 { x: 0, y: 0, z: -FX_ONE },
                tm,
            }
        };
        proof {
            assert(lens_sample_spec(*self, s as int, t as int, rd, result));
        }
        result
    }
}


impl Default for Camera {
    /// A conventional viewpoint: a little above and beside the origin,
    /// looking at it, with a narrow field of view and an open shutter over
    /// one time unit.
    fn default() -> (r: Camera)
        ensures
            camera_ok(r),
    {
        Camera::new(
            Vec3 { x: 13 * FX_ONE, y: 2 * FX_ONE, z: 3 * FX_ONE },
            Vec3 { x: 0, y: 0, z: 0 },
            Vec3 { x: 0, y: FX_ONE, z: 0 },
            20 * FX_ONE,
            FX_ONE,
            0,
            10 * FX_ONE,
            0,
            FX_ONE,
        )
    }
}

} // verus!
