//! The integrator and the rendering loop.
//!
//! `ray_color` is the recursive Monte Carlo estimator: intersect the scene,
//! add the emission, and either follow the one specular ray or draw a
//! scattered ray from the even mixture of light sampling and the material's
//! cosine distribution, weighting by the ratio of the material's density to
//! the mixture's.  Radiance arithmetic saturates at a fixed ceiling instead
//! of overflowing.  The driver partitions the image into row bands; workers
//! render bands independently and the rows are assembled by band index, so
//! pixel placement never depends on scheduling.

use vstd::prelude::*;
use crate::fx::{
    FX_ONE, fx_mul_spec, fx_div_spec, fx_clamp_spec, qdiv, fx_mul, fx_div, fx_sqrt, fx_clamp,
    div_pos, lemma_mul_le, lemma_qdiv_le, lemma_qdiv_nonneg, isqrt_spec,
};
use crate::vec3::{Vec3, Color, Point3, dot_spec, VMAX};
use crate::ray::{Ray, ray_ok, T_INF, CMAX, DMAX};
use crate::hit::{HitRecord, rec_ok};
use crate::object::{Object, o_hit_spec};
use crate::material::{Material, ScatterRecord, COLB};
use crate::texture::ImageBuf;
use crate::pdf::{CosPDF, mixture_pdf_value, mixture_pdf_generate, EPS_HIT};
use crate::camera::{Camera, camera_ok};
use crate::rng::random_unit;

verus! {

/// The radiance ceiling: channel values saturate here (16 384 in fixed
/// point).
pub const RADB: i64 = 0x4000_0000;

/// A radiance value: channels in `[0, RADB]`.
pub open spec fn rad_ok(c: Color) -> bool {
    0 <= c.x <= RADB && 0 <= c.y <= RADB && 0 <= c.z <= RADB
}

pub open spec fn clamp_rad_spec(c: Color) -> Color {
    Color {
        x: fx_clamp_spec(c.x as int, 0, RADB as int) as i64,
        y: fx_clamp_spec(c.y as int, 0, RADB as int) as i64,
        z: fx_clamp_spec(c.z as int, 0, RADB as int) as i64,
    }
}

/// Clamp a color into the radiance range.
pub fn clamp_rad(c: Color) -> (r: Color)
    ensures
        r == clamp_rad_spec(c),
        rad_ok(r),
{
    Color {
        x: fx_clamp(c.x, 0, RADB),
        y: fx_clamp(c.y, 0, RADB),
        z: fx_clamp(c.z, 0, RADB),
    }
}

/// Saturating radiance sum.
pub fn rad_add(a: Color, b: Color) -> (r: Color)
    requires
        rad_ok(a),
        rad_ok(b),
    ensures
        r == clamp_rad_spec(
            Color { x: (a.x + b.x) as i64, y: (a.y + b.y) as i64, z: (a.z + b.z) as i64 },
        ),
        rad_ok(r),
{
    clamp_rad(Color { x: a.x + b.x, y: a.y + b.y, z: a.z + b.z })
}

/// The weighted filtered radiance `att · (w · col)`, saturated.
pub fn rad_filter(att: Color, w: i64, col: Color) -> (r: Color)
    requires
        att.bounded(COLB as int),
        0 <= w <= 64 * FX_ONE,
        rad_ok(col),
    ensures
        rad_ok(r),
{
    proof {
        lemma_mul_le(w as int, col.x as int, 64 * FX_ONE as int, RADB as int);
        lemma_qdiv_le(w * col.x, FX_ONE as int, (64 * FX_ONE as int) * (RADB as int));
        lemma_mul_le(w as int, col.y as int, 64 * FX_ONE as int, RADB as int);
        lemma_qdiv_le(w * col.y, FX_ONE as int, (64 * FX_ONE as int) * (RADB as int));
        lemma_mul_le(w as int, col.z as int, 64 * FX_ONE as int, RADB as int);
        lemma_qdiv_le(w * col.z, FX_ONE as int, (64 * FX_ONE as int) * (RADB as int));
    }
    let wx = fx_mul(w, col.x);
    let wy = fx_mul(w, col.y);
    let wz = fx_mul(w, col.z);
    proof {
        lemma_mul_le(att.x as int, wx as int, COLB as int, ((64 * FX_ONE as int) * (
        RADB as int)) / (FX_ONE as int));
        lemma_qdiv_le(att.x * wx, FX_ONE as int, (COLB as int) * (((64 * FX_ONE as int) * (
        RADB as int)) / (FX_ONE as int)));
        lemma_mul_le(att.y as int, wy as int, COLB as int, ((64 * FX_ONE as int) * (
        RADB as int)) / (FX_ONE as int));
        lemma_qdiv_le(att.y * wy, FX_ONE as int, (COLB as int) * (((64 * FX_ONE as int) * (
        RADB as int)) / (FX_ONE as int)));
        lemma_mul_le(att.z as int, wz as int, COLB as int, ((64 * FX_ONE as int) * (
        RADB as int)) / (FX_ONE as int));
        lemma_qdiv_le(att.z * wz, FX_ONE as int, (COLB as int) * (((64 * FX_ONE as int) * (
        RADB as int)) / (FX_ONE as int)));
    }
    clamp_rad(Color { x: fx_mul(att.x, wx), y: fx_mul(att.y, wy), z: fx_mul(att.z, wz) })
}

/// The recursive Monte Carlo estimator.  With the recursion depth
/// exhausted it returns exactly black, whatever the scene holds.
pub fn ray_color(
    r: &Ray,
    background: Color,
    world: &Object,
    lights: &Object,
    mats: &Vec<Material>,
    images: &Vec<ImageBuf>,
    depth: u32,
) -> (c: Color)
    ensures
        depth == 0 ==> c == (Color { x: 0, y: 0, z: 0 }),
        rad_ok(c),
        depth > 0 && ray_ok(*r) && crate::object::deterministic(*world) && o_hit_spec(
            *world,
            *r,
            EPS_HIT as int,
            T_INF as int,
        ) is None ==> c == clamp_rad_spec(background),
        depth > 0 && ray_ok(*r) && crate::object::deterministic(*world) ==> (o_hit_spec(
            *world,
            *r,
            EPS_HIT as int,
            T_INF as int,
        ) matches Some(rec) ==> {
            &&& (rec.mat >= mats@.len() ==> c == (Color { x: 0, y: 0, z: 0 }))
            &&& (rec.mat < mats@.len() ==> (mats@[rec.mat as int]
                matches Material::DiffuseLight { emit } ==> (emit
                matches crate::texture::Texture::SolidColor { color_val } ==> c == clamp_rad_spec(
                crate::material::clamp_color_spec(color_val),
            ))))
        }),
    decreases depth,
{
    if depth == 0 {
        return Color { x: 0, y: 0, z: 0 };
    }
    if !r.is_ok() {
        return clamp_rad(background);
    }
    let hit = world.hit(r, EPS_HIT, T_INF);
    let rec = match hit {
        None => {
            return clamp_rad(background);
        },
        Some(rec) => rec,
    };
    if rec.mat >= mats.len() {
        return Color { x: 0, y: 0, z: 0 };
    }
    let emitted = mats[rec.mat].emitted(rec.u, rec.v, &rec.p, images);
    let emitted = clamp_rad(emitted);
    let sr = match mats[rec.mat].scatter(r, &rec, images) {
        None => {
            return emitted;
        },
        Some(sr) => sr,
    };
    if sr.is_specular {
        let col = ray_color(&sr.specular_ray, background, world, lights, mats, images, depth - 1);
        return rad_add(emitted, rad_filter(sr.attenuation, FX_ONE, col));
    }
    let cp = match sr.pdf_ptr {
        None => {
            return emitted;
        },
        Some(cp) => cp,
    };
    let sd = mixture_pdf_generate(lights, &rec.p, &cp);
    let scattered = Ray { orig: rec.p, dir: sd, tm: r.tm };
    let pv = mixture_pdf_value(lights, &rec.p, &cp, &sd);
    if pv < 1 {
        return emitted;
    }
    let spdf = match mats[rec.mat].scatter_pdf(r, &rec, &scattered) {
        None => {
            return emitted;
        },
        Some(s) => s,
    };
    proof {
        lemma_mul_le(spdf as int, FX_ONE as int, FX_ONE as int, FX_ONE as int);
        lemma_qdiv_le(spdf * FX_ONE, pv as int, (FX_ONE as int) * (FX_ONE as int));
        lemma_qdiv_nonneg(spdf * FX_ONE, pv as int);
    }
    let weight = fx_clamp(fx_div(spdf, pv), 0, 64 * FX_ONE);
    let col = ray_color(&scattered, background, world, lights, mats, images, depth - 1);
    rad_add(emitted, rad_filter(sr.attenuation, weight, col))
}

/// What one output channel becomes: averaged, gamma-corrected by a square
/// root, clamped just under one, and scaled to a byte.
pub open spec fn channel_spec(sum: int, samples: int) -> int
    recommends
        samples >= 1,
{
    let avg = fx_clamp_spec(sum / samples, 0, FX_ONE as int);
    let root = isqrt_spec(avg * FX_ONE);
    let clamped = fx_clamp_spec(root, 0, 65470);
    clamped / 256
}

/// Average a pixel's accumulated radiance and encode it as bytes.
pub fn write_color(pixel_color: Color, samples_per_pixel: usize) -> (rgb: (u8, u8, u8))
    requires
        1 <= samples_per_pixel <= 0x10_0000,
        0 <= pixel_color.x,
        0 <= pixel_color.y,
        0 <= pixel_color.z,
    ensures
        rgb.0 == channel_spec(pixel_color.x as int, samples_per_pixel as int),
        rgb.1 == channel_spec(pixel_color.y as int, samples_per_pixel as int),
        rgb.2 == channel_spec(pixel_color.z as int, samples_per_pixel as int),
{
    let r = channel(pixel_color.x, samples_per_pixel);
    let g = channel(pixel_color.y, samples_per_pixel);
    let b = channel(pixel_color.z, samples_per_pixel);
    (r, g, b)
}

fn channel(sum: i64, samples: usize) -> (r: u8)
    requires
        1 <= samples <= 0x10_0000,
        0 <= sum,
    ensures
        r == channel_spec(sum as int, samples as int),
{
    let avg = fx_clamp(div_pos(sum, samples as i64), 0, FX_ONE);
    let root = fx_sqrt(avg);
    let clamped = fx_clamp(root, 0, 65470);
    proof {
        assert(root >= 0);
        assert(channel_spec(sum as int, samples as int) == fx_clamp_spec(
            isqrt_spec(fx_clamp_spec(sum as int / samples as int, 0, FX_ONE as int) * FX_ONE),
            0,
            65470,
        ) / 256);
    }
    let byte = div_pos(clamped, 256);
    byte as u8
}

/// The start row of each band: the image is cut into `threads` contiguous
/// bands of `height / threads` rows, the last absorbing the remainder.
pub open spec fn band_spec(height: int, threads: int, i: int) -> (int, int)
    recommends
        1 <= threads,
        threads <= height,
{
    let section = height / threads;
    let beg = i * section;
    let end0 = beg + section;
    let end = if end0 > height || (i == threads - 1 && end0 < height) {
        height
    } else {
        end0
    };
    (beg, end)
}

/// Cut `[0, height)` into one contiguous band of rows per worker.
pub fn plan_bands(height: usize, threads: usize) -> (bands: Vec<(usize, usize)>)
    requires
        1 <= threads <= height,
        height <= 0x4000,
    ensures
        bands@.len() == threads,
        forall|i: int|
            0 <= i < threads ==> (#[trigger] bands@[i]).0 == band_spec(
                height as int,
                threads as int,
                i,
            ).0 && bands@[i].1 == band_spec(height as int, threads as int, i).1,
{
    let section = height / threads;
    let mut bands: Vec<(usize, usize)> = Vec::new();
    let mut i: usize = 0;
    proof {
        assert(1 <= height / threads) by (nonlinear_arith)
            requires
                1 <= threads <= height,
        ;
        assert((height / threads) * threads <= height) by (nonlinear_arith)
            requires
                1 <= threads,
                0 <= height,
        ;
    }
    while i < threads
        invariant
            0 <= i <= threads,
            1 <= threads <= height <= 0x4000,
            section == height as int / threads as int,
            1 <= section,
            section * threads <= height,
            bands@.len() == i,
            forall|k: int|
                0 <= k < i ==> (#[trigger] bands@[k]).0 == band_spec(
                    height as int,
                    threads as int,
                    k,
                ).0 && bands@[k].1 == band_spec(height as int, threads as int, k).1,
        decreases threads - i,
    {
        proof {
            assert(i * section + section <= threads * section) by (nonlinear_arith)
                requires
                    i < threads,
                    section >= 1,
            ;
            assert(threads * section == section * threads) by (nonlinear_arith);
        }
        let beg = i * section;
        let end0 = beg + section;
        let end = if end0 > height || (i == threads - 1 && end0 < height) {
            height
        } else {
            end0
        };
        bands.push((beg, end));
        i = i + 1;
    }
    bands
}

/// Render the rows `[y0, y1)`: every pixel is the sum of `samples` calls
/// of the estimator through the camera.  Rows come back bottom-up, each
/// row left to right.
pub fn render_band(
    cam: &Camera,
    world: &Object,
    lights: &Object,
    mats: &Vec<Material>,
    images: &Vec<ImageBuf>,
    width: usize,
    height: usize,
    y0: usize,
    y1: usize,
    samples: usize,
    depth: u32,
    background: Color,
) -> (out: Vec<Color>)
    requires
        camera_ok(*cam),
        2 <= width <= 0x4000,
        2 <= height <= 0x4000,
        y0 <= y1 <= height,
        1 <= samples <= 0x10_0000,
    ensures
        out@.len() == (y1 - y0) * width,
        forall|k: int|
            0 <= k < out@.len() ==> {
                &&& 0 <= (#[trigger] out@[k]).x <= samples * (RADB as int)
                &&& 0 <= out@[k].y <= samples * (RADB as int)
                &&& 0 <= out@[k].z <= samples * (RADB as int)
            },
{
    let mut out: Vec<Color> = Vec::new();
    let mut j = y0;
    while j < y1
        invariant
            camera_ok(*cam),
            2 <= width <= 0x4000,
            2 <= height <= 0x4000,
            y0 <= j <= y1 <= height,
            1 <= samples <= 0x10_0000,
            out@.len() == (j - y0) * width,
            forall|k: int|
                0 <= k < out@.len() ==> {
                    &&& 0 <= (#[trigger] out@[k]).x <= samples * (RADB as int)
                    &&& 0 <= out@[k].y <= samples * (RADB as int)
                    &&& 0 <= out@[k].z <= samples * (RADB as int)
                },
        decreases y1 - j,
    {
        let mut i: usize = 0;
        while i < width
            invariant
                camera_ok(*cam),
                2 <= width <= 0x4000,
                2 <= height <= 0x4000,
                y0 <= j < y1 <= height,
                1 <= samples <= 0x10_0000,
                0 <= i <= width,
                out@.len() == (j - y0) * width + i,
                forall|k: int|
                    0 <= k < out@.len() ==> {
                        &&& 0 <= (#[trigger] out@[k]).x <= samples * (RADB as int)
                        &&& 0 <= out@[k].y <= samples * (RADB as int)
                        &&& 0 <= out@[k].z <= samples * (RADB as int)
                    },
            decreases width - i,
        {
            let mut px: i64 = 0;
            let mut py: i64 = 0;
            let mut pz: i64 = 0;
            let mut s: usize = 0;
            while s < samples
                invariant
                    camera_ok(*cam),
                    2 <= width <= 0x4000,
                    2 <= height <= 0x4000,
                    i < width,
                    y0 <= j < y1 <= height,
                    0 <= s <= samples <= 0x10_0000,
                    0 <= px <= s * (RADB as int),
                    0 <= py <= s * (RADB as int),
                    0 <= pz <= s * (RADB as int),
                decreases samples - s,
            {
                let du = random_unit();
                let dv = random_unit();
                let un = (i as i64) * FX_ONE + du;
                let vn = (j as i64) * FX_ONE + dv;
                let u = fx_clamp(div_pos(un, (width as i64) - 1), 0, FX_ONE);
                let v = fx_clamp(div_pos(vn, (height as i64) - 1), 0, FX_ONE);
                let ray = cam.get_ray(u, v);
                let c = ray_color(&ray, background, world, lights, mats, images, depth);
                proof {
                    assert((s + 1) * (RADB as int) == s * (RADB as int) + RADB)
                        by (nonlinear_arith);
                    assert(s * (RADB as int) <= 0x10_0000 * (RADB as int)) by (nonlinear_arith)
                        requires
                            0 <= s <= 0x10_0000,
                    ;
                }
                px = px + c.x;
                py = py + c.y;
                pz = pz + c.z;
                s = s + 1;
            }
            out.push(Color { x: px, y: py, z: pz });
            i = i + 1;
        }
        proof {
            assert((j + 1 - y0) * width == (j - y0) * width + width) by (nonlinear_arith);
        }
        j = j + 1;
    }
    proof {
        assert(out@.len() == (y1 - y0) * width);
    }
    out
}

/// Render the whole image on one thread, band by band, and assemble the
/// row-major byte buffer bottom row last, exactly as the banded driver
/// does whatever order the bands finish in.
pub fn render(
    cam: &Camera,
    world: &Object,
    lights: &Object,
    mats: &Vec<Material>,
    images: &Vec<ImageBuf>,
    width: usize,
    height: usize,
    samples: usize,
    depth: u32,
    threads: usize,
    background: Color,
) -> (buf: Vec<u8>)
    requires
        camera_ok(*cam),
        2 <= width <= 0x4000,
        2 <= height <= 0x4000,
        1 <= samples <= 0x10_0000,
        1 <= threads <= height,
    ensures
        buf@.len() == height * width * 3,
{
    let bands = plan_bands(height, threads);
    let mut pixels: Vec<Color> = Vec::new();
    let mut b: usize = 0;
    // collect every band's rows in band order
    while b < bands.len()
        invariant
            camera_ok(*cam),
            2 <= width <= 0x4000,
            2 <= height <= 0x4000,
            1 <= samples <= 0x10_0000,
            0 <= b <= bands@.len(),
            forall|k: int|
                0 <= k < pixels@.len() ==> 0 <= (#[trigger] pixels@[k]).x && 0 <= pixels@[k].y && 0
                    <= pixels@[k].z,
        decreases bands@.len() - b,
    {
        let y0 = bands[b].0;
        let y1 = bands[b].1;
        if y0 <= y1 && y1 <= height {
            let mut band = render_band(cam, world, lights, mats, images, width, height, y0, y1,
                samples, depth, background);
            let mut k: usize = 0;
            while k < band.len()
                invariant
                    0 <= k <= band@.len(),
                    forall|q: int|
                        0 <= q < band@.len() ==> 0 <= (#[trigger] band@[q]).x && 0 <= band@[q].y
                            && 0 <= band@[q].z,
                    forall|q: int|
                        0 <= q < pixels@.len() ==> 0 <= (#[trigger] pixels@[q]).x && 0
                            <= pixels@[q].y && 0 <= pixels@[q].z,
                decreases band@.len() - k,
            {
                pixels.push(band[k]);
                k = k + 1;
            }
        }
        b = b + 1;
    }
    // encode bottom-up rows into the top-down byte buffer
    let mut buf: Vec<u8> = Vec::new();
    proof {
        assert(height * width <= 0x1000_0000) by (nonlinear_arith)
            requires
                width <= 0x4000,
                height <= 0x4000,
        ;
    }
    let total = height * width;
    let mut k: usize = 0;
    while k < total
        invariant
            1 <= samples <= 0x10_0000,
            total <= 0x1000_0000,
            0 <= k <= total,
            buf@.len() == 3 * k,
            forall|q: int|
                0 <= q < pixels@.len() ==> 0 <= (#[trigger] pixels@[q]).x && 0 <= pixels@[q].y && 0
                    <= pixels@[q].z,
        decreases total - k,
    {
        let c = if k < pixels.len() {
            pixels[k]
        } else {
            Color { x: 0, y: 0, z: 0 }
        };
        let rgb = write_color(c, samples);
        buf.push(rgb.0);
        buf.push(rgb.1);
        buf.push(rgb.2);
        k = k + 1;
    }
    proof {
        assert(3 * (height * width) == height * width * 3) by (nonlinear_arith);
    }
    buf
}

} // verus!
