//! Textures: a mapping from surface coordinates and position to color.
//! Image data lives in a shared arena of plain RGB byte buffers, handed in
//! by whoever decoded the files; a texture holds an index into it.

use vstd::prelude::*;
use crate::fx::{
    FX_ONE, fx_mul_spec, fx_clamp_spec, fx_mul, fx_clamp, fx_sin, div_pos, qdiv, lemma_mul_le,
    lemma_qdiv_le, lemma_qdiv_nonneg,
};
use crate::vec3::{Vec3, Color, Point3, dot_spec, VMAX};
use crate::rng::{random_unit, random_index};

verus! {

/// A decoded image: row-major RGB bytes.
pub struct ImageBuf {
    pub width: usize,
    pub height: usize,
    pub data: Vec<u8>,
}

pub open spec fn img_ok(img: ImageBuf) -> bool {
    &&& 1 <= img.width <= 0x1000
    &&& 1 <= img.height <= 0x1000
    &&& img.data@.len() == img.width * img.height * 3
}

impl ImageBuf {
    /// Check the dimensions against the buffer.
    pub fn is_ok(&self) -> (r: bool)
        ensures
            r == img_ok(ImageBuf { width: self.width, height: self.height, data: self.data }),
    {
        if !(1 <= self.width && self.width <= 0x1000 && 1 <= self.height && self.height
            <= 0x1000) {
            return false;
        }
        proof {
            assert(self.width * self.height * 3 < 0x4000_0000) by (nonlinear_arith)
                requires
                    self.width <= 0x1000,
                    self.height <= 0x1000,
            ;
        }
        self.data.len() == self.width * self.height * 3
    }
}

/// Perlin noise state: a table of random unit-cube gradients and three
/// random permutations of the byte range.
pub struct Perlin {
    pub ranvec: Vec<Vec3>,
    pub perm_x: Vec<usize>,
    pub perm_y: Vec<usize>,
    pub perm_z: Vec<usize>,
}

pub open spec fn perm_ok(p: Seq<usize>) -> bool {
    p.len() == 256 && forall|i: int| 0 <= i < 256 ==> #[trigger] p[i] < 256
}

pub open spec fn perlin_ok(p: Perlin) -> bool {
    &&& p.ranvec@.len() == 256
    &&& forall|i: int| 0 <= i < 256 ==> (#[trigger] p.ranvec@[i]).bounded(FX_ONE as int)
    &&& perm_ok(p.perm_x@)
    &&& perm_ok(p.perm_y@)
    &&& perm_ok(p.perm_z@)
}

/// A random permutation of `0..256`.
pub fn perlin_generate_perm() -> (r: Vec<usize>)
    ensures
        perm_ok(r@),
{
    let mut src: Vec<usize> = Vec::new();
    let mut i: usize = 0;
    while i < 256
        invariant
            0 <= i <= 256,
            src@.len() == i,
            forall|k: int| 0 <= k < i ==> #[trigger] src@[k] < 256,
        decreases 256 - i,
    {
        src.push(i);
        i = i + 1;
    }
    let mut out: Vec<usize> = Vec::new();
    while src.len() > 0
        invariant
            src@.len() + out@.len() == 256,
            forall|k: int| 0 <= k < src@.len() ==> #[trigger] src@[k] < 256,
            forall|k: int| 0 <= k < out@.len() ==> #[trigger] out@[k] < 256,
        decreases src@.len(),
    {
        let k = random_index(src.len());
        let x = src.remove(k);
        out.push(x);
    }
    out
}

impl Perlin {
    pub fn new() -> (r: Perlin)
        ensures
            perlin_ok(r),
    {
        let mut ranvec: Vec<Vec3> = Vec::new();
        let mut i: usize = 0;
        while i < 256
            invariant
                0 <= i <= 256,
                ranvec@.len() == i,
                forall|k: int| 0 <= k < i ==> (#[trigger] ranvec@[k]).bounded(FX_ONE as int),
            decreases 256 - i,
        {
            let x = crate::vec3::random_range(-FX_ONE, FX_ONE);
            let y = crate::vec3::random_range(-FX_ONE, FX_ONE);
            let z = crate::vec3::random_range(-FX_ONE, FX_ONE);
            ranvec.push(Vec3 { x, y, z });
            i = i + 1;
        }
        Perlin {
            ranvec,
            perm_x: perlin_generate_perm(),
            perm_y: perlin_generate_perm(),
            perm_z: perlin_generate_perm(),
        }
    }

    /// Smooth gradient noise in `[-2, 2]`.
    pub fn noise(&self, p: &Point3) -> (r: i64)
        requires
            perlin_ok(*self),
            p.bounded(VMAX as int),
        ensures
            -2 * FX_ONE <= r <= 2 * FX_ONE,
    {
        let fx_ = fx_floor(p.x);
        let fy = fx_floor(p.y);
        let fz = fx_floor(p.z);
        let u = hermite(p.x - fx_ * FX_ONE);
        let v = hermite(p.y - fy * FX_ONE);
        let w = hermite(p.z - fz * FX_ONE);
        let mut accum: i64 = 0;
        let mut di: usize = 0;
        while di < 2
            invariant
                0 <= di <= 2,
                perlin_ok(*self),
                0 <= u <= FX_ONE,
                0 <= v <= FX_ONE,
                0 <= w <= FX_ONE,
                -VMAX <= fx_ <= VMAX,
                -VMAX <= fy <= VMAX,
                -VMAX <= fz <= VMAX,
                -0x10_0000_0000 <= accum <= 0x10_0000_0000,
            decreases 2 - di,
        {
            let mut dj: usize = 0;
            while dj < 2
                invariant
                    0 <= dj <= 2,
                    di < 2,
                    perlin_ok(*self),
                    0 <= u <= FX_ONE,
                    0 <= v <= FX_ONE,
                    0 <= w <= FX_ONE,
                    -VMAX <= fx_ <= VMAX,
                    -VMAX <= fy <= VMAX,
                    -VMAX <= fz <= VMAX,
                    -0x10_0000_0000 <= accum <= 0x10_0000_0000,
                decreases 2 - dj,
            {
                let mut dk: usize = 0;
                while dk < 2
                    invariant
                        0 <= dk <= 2,
                        di < 2,
                        dj < 2,
                        perlin_ok(*self),
                        0 <= u <= FX_ONE,
                        0 <= v <= FX_ONE,
                        0 <= w <= FX_ONE,
                        -VMAX <= fx_ <= VMAX,
                        -VMAX <= fy <= VMAX,
                        -VMAX <= fz <= VMAX,
                        -0x10_0000_0000 <= accum <= 0x10_0000_0000,
                    decreases 2 - dk,
                {
                    let ix = wrap256(fx_, di);
                    let iy = wrap256(fy, dj);
                    let iz = wrap256(fz, dk);
                    let g = self.ranvec[(self.perm_x[ix] ^ self.perm_y[iy] ^ self.perm_z[iz])
                        % 256];
                    let wx = if di == 0 {
                        FX_ONE - u
                    } else {
                        u
                    };
                    let wy = if dj == 0 {
                        FX_ONE - v
                    } else {
                        v
                    };
                    let wz = if dk == 0 {
                        FX_ONE - w
                    } else {
                        w
                    };
                    let ox = if di == 0 {
                        u
                    } else {
                        u - FX_ONE
                    };
                    let oy = if dj == 0 {
                        v
                    } else {
                        v - FX_ONE
                    };
                    let oz = if dk == 0 {
                        w
                    } else {
                        w - FX_ONE
                    };
                    let off = Vec3 { x: ox, y: oy, z: oz };
                    let d = g.dot(&off);
                    proof {
                        crate::vec3::lemma_dot_bound(g, off, FX_ONE as int);
                        lemma_mul_le(wx as int, wy as int, FX_ONE as int, FX_ONE as int);
                        lemma_qdiv_le(wx * wy, FX_ONE as int, (FX_ONE as int) * (FX_ONE as int));
                        lemma_mul_le(
                            fx_mul_spec(wx as int, wy as int),
                            wz as int,
                            FX_ONE as int,
                            FX_ONE as int,
                        );
                        lemma_qdiv_le(
                            fx_mul_spec(wx as int, wy as int) * wz,
                            FX_ONE as int,
                            (FX_ONE as int) * (FX_ONE as int),
                        );
                        lemma_mul_le(
                            fx_mul_spec(fx_mul_spec(wx as int, wy as int), wz as int),
                            d as int,
                            FX_ONE as int,
                            3 * FX_ONE as int,
                        );
                        lemma_qdiv_le(
                            fx_mul_spec(fx_mul_spec(wx as int, wy as int), wz as int) * d,
                            FX_ONE as int,
                            (FX_ONE as int) * (3 * FX_ONE as int),
                        );
                    }
                    let weight = fx_mul(fx_mul(wx, wy), wz);
                    let term = fx_mul(weight, d);
                    accum = accum + term;
                    if accum > 0x10_0000_0000 {
                        accum = 0x10_0000_0000;
                    }
                    if accum < -0x10_0000_0000 {
                        accum = -0x10_0000_0000;
                    }
                    dk = dk + 1;
                }
                dj = dj + 1;
            }
            di = di + 1;
        }
        fx_clamp(accum, -2 * FX_ONE, 2 * FX_ONE)
    }

    /// Turbulence: octaves of noise at doubling frequency, absolute value.
    pub fn turb(&self, p: &Point3, depth: usize) -> (r: i64)
        requires
            perlin_ok(*self),
            p.bounded((VMAX as int) / 256),
        ensures
            0 <= r <= 4 * FX_ONE,
    {
        let mut accum: i64 = 0;
        let mut temp = *p;
        let mut weight: i64 = FX_ONE;
        let mut i: usize = 0;
        while i < depth && i < 8
            invariant
                perlin_ok(*self),
                temp.bounded(VMAX as int),
                0 <= weight <= FX_ONE,
                -4 * FX_ONE <= accum <= 4 * FX_ONE,
                0 <= i,
            decreases 8 - i,
        {
            let n = self.noise(&temp);
            proof {
                lemma_mul_le(weight as int, n as int, FX_ONE as int, 2 * FX_ONE as int);
                lemma_qdiv_le(weight * n, FX_ONE as int, (FX_ONE as int) * (2 * FX_ONE as int));
            }
            let t = fx_mul(weight, n);
            accum = fx_clamp(accum + t, -4 * FX_ONE, 4 * FX_ONE);
            weight = weight / 2;
            let tb = temp.is_bounded(VMAX / 2);
            if tb {
                temp = Vec3 { x: 2 * temp.x, y: 2 * temp.y, z: 2 * temp.z };
            }
            i = i + 1;
        }
        if accum < 0 {
            -accum
        } else {
            accum
        }
    }
}

/// Floor of a fixed-point scalar, as a whole number of units.
pub fn fx_floor(x: i64) -> (r: i64)
    requires
        -VMAX <= x <= VMAX,
    ensures
        r * FX_ONE <= x < (r + 1) * FX_ONE,
        -VMAX <= r <= VMAX,
{
    if x >= 0 {
        div_pos(x, FX_ONE)
    } else {
        let m = div_pos(-x + FX_ONE - 1, FX_ONE);
        proof {
            assert((-x + FX_ONE - 1) as int / (FX_ONE as int) * FX_ONE >= -x > (((-x + FX_ONE - 1)
                as int / (FX_ONE as int)) - 1) * FX_ONE) by (nonlinear_arith)
                requires
                    x < 0,
                    FX_ONE == 65536,
            ;
        }
        -m
    }
}

/// The Hermite fade `y²(3 − 2y)` of a fraction of one unit.
fn hermite(f: i64) -> (r: i64)
    requires
        0 <= f < FX_ONE,
    ensures
        0 <= r <= FX_ONE,
{
    proof {
        lemma_mul_le(f as int, f as int, FX_ONE as int, FX_ONE as int);
        lemma_qdiv_le(f * f, FX_ONE as int, (FX_ONE as int) * (FX_ONE as int));
        lemma_qdiv_nonneg(f * f, FX_ONE as int);
        lemma_mul_le(fx_mul_spec(f as int, f as int), (3 * FX_ONE - 2 * f) as int, FX_ONE as int,
            3 * FX_ONE as int);
        lemma_qdiv_le(fx_mul_spec(f as int, f as int) * (3 * FX_ONE - 2 * f), FX_ONE as int, (
        FX_ONE as int) * (3 * FX_ONE as int));
    }
    let f2 = fx_mul(f, f);
    let r = fx_mul(f2, 3 * FX_ONE - 2 * f);
    fx_clamp(r, 0, FX_ONE)
}

fn wrap256(base: i64, d: usize) -> (r: usize)
    requires
        -VMAX <= base <= VMAX,
        d < 2,
    ensures
        r < 256,
{
    let m = (base + (d as i64)) % 256;
    let mm = if m < 0 {
        m + 256
    } else {
        m
    };
    mm as usize
}

pub enum Texture {
    SolidColor { color_val: Color },
    Checker { odd: Color, even: Color },
    Noise { scale: i64, perlin: Perlin },
    Image { img: usize },
    MeshUv { img: usize, u1: i64, v1: i64, u2: i64, v2: i64, u3: i64, v3: i64 },
}

/// A color whose channels lie in the displayable range.
pub open spec fn color_unit(c: Color) -> bool {
    0 <= c.x <= FX_ONE && 0 <= c.y <= FX_ONE && 0 <= c.z <= FX_ONE
}

/// Clamped lookup of one pixel of an image, scaled into `[0, 1]`.
pub open spec fn img_pixel_spec(img: ImageBuf, i: int, j: int) -> Color
    recommends
        img_ok(img),
        0 <= i < img.width,
        0 <= j < img.height,
{
    let base = (j * img.width + i) * 3;
    Color {
        x: qdiv(img.data@[base] * FX_ONE, 255) as i64,
        y: qdiv(img.data@[base + 1] * FX_ONE, 255) as i64,
        z: qdiv(img.data@[base + 2] * FX_ONE, 255) as i64,
    }
}

/// Exact pixel fetch.
pub fn img_pixel(img: &ImageBuf, i: usize, j: usize) -> (c: Color)
    requires
        img_ok(*img),
        i < img.width,
        j < img.height,
    ensures
        c == img_pixel_spec(*img, i as int, j as int),
        color_unit(c),
{
    proof {
        assert((j * img.width + i) * 3 + 2 < img.width * img.height * 3 && img.width * img.height
            * 3 < 0x4000_0000) by (nonlinear_arith)
            requires
                i < img.width,
                j < img.height,
                img.width <= 0x1000,
                img.height <= 0x1000,
        ;
        crate::fx::lemma_div_ratio(img.data@[((j * img.width + i) * 3) as int] as int, 255);
        crate::fx::lemma_div_ratio(img.data@[((j * img.width + i) * 3 + 1) as int] as int, 255);
        crate::fx::lemma_div_ratio(img.data@[((j * img.width + i) * 3 + 2) as int] as int, 255);
    }
    let base = (j * img.width + i) * 3;
    let px = img.data[base] as i64;
    let py = img.data[base + 1] as i64;
    let pz = img.data[base + 2] as i64;
    proof {
        assert(qdiv(px * FX_ONE, 255) == (px * FX_ONE) as int / 255int);
        assert(qdiv(py * FX_ONE, 255) == (py * FX_ONE) as int / 255int);
        assert(qdiv(pz * FX_ONE, 255) == (pz * FX_ONE) as int / 255int);
        crate::fx::lemma_div_ratio(px as int, 255);
        crate::fx::lemma_div_ratio(py as int, 255);
        crate::fx::lemma_div_ratio(pz as int, 255);
    }
    Color {
        x: div_pos(px * FX_ONE, 255),
        y: div_pos(py * FX_ONE, 255),
        z: div_pos(pz * FX_ONE, 255),
    }
}

/// The value of [`coord_to_index`]: the coordinate clamped into the unit
/// interval (flipped for rows), scaled to a column and capped at the edge.
pub open spec fn coord_index_spec(u: int, n: int, flip: bool) -> int {
    let uc = fx_clamp_spec(u, 0, FX_ONE as int);
    let uu = if flip {
        FX_ONE - uc
    } else {
        uc
    };
    let i0 = (uu * n) / (FX_ONE as int);
    if i0 >= n {
        n - 1
    } else {
        i0
    }
}

/// Clamp a texture coordinate into `[0, 1]` and map it to a column of `n`.
fn coord_to_index(u: i64, n: usize, flip: bool) -> (r: usize)
    requires
        1 <= n <= 0x1000,
    ensures
        r == coord_index_spec(u as int, n as int, flip),
        r < n,
{
    let uc = fx_clamp(u, 0, FX_ONE);
    let uu = if flip {
        FX_ONE - uc
    } else {
        uc
    };
    proof {
        lemma_mul_le(uu as int, n as int, FX_ONE as int, 0x1000);
        crate::fx::lemma_div_shrink((uu * (n as i64)) as int, FX_ONE as int);
    }
    let i128v: i64 = div_pos(uu * (n as i64), FX_ONE);
    proof {
        assert((uu * (n as i64)) as int / (FX_ONE as int) <= n) by (nonlinear_arith)
            requires
                0 <= uu <= FX_ONE,
                1 <= n <= 0x1000,
                FX_ONE == 65536,
        ;
    }
    if i128v >= n as i64 {
        n - 1
    } else {
        i128v as usize
    }
}

impl Texture {
    /// The color of the texture at surface coordinates and position.
    pub fn value(&self, u: i64, v: i64, p: &Point3, images: &Vec<ImageBuf>) -> (c: Color)
        ensures
            self matches Texture::SolidColor { color_val } ==> c == color_val,
            self matches Texture::Checker { odd, even } ==> c == odd || c == even,
            (self is Noise || self is Image || self is MeshUv) ==> color_unit(c),
            self matches Texture::Image { img } ==> (if img < images@.len() && img_ok(
                images@[img as int],
            ) {
                c == img_pixel_spec(
                    images@[img as int],
                    coord_index_spec(u as int, images@[img as int].width as int, false),
                    coord_index_spec(v as int, images@[img as int].height as int, true),
                )
            } else {
                c == (Color { x: 0, y: 0, z: 0 })
            }),
            self matches Texture::MeshUv { img, u1, v1, u2, v2, u3, v3 } ==> (if img
                < images@.len() && img_ok(images@[img as int]) {
                ({
                    let beta = fx_clamp_spec(u as int, 0, FX_ONE as int);
                    let gamma = fx_clamp_spec(v as int, 0, FX_ONE as int);
                    let alpha = fx_clamp_spec(FX_ONE - beta - gamma, 0, FX_ONE as int);
                    c == img_pixel_spec(
                        images@[img as int],
                        coord_index_spec(
                            bary_spec(alpha, u1 as int, beta, u2 as int, gamma, u3 as int),
                            images@[img as int].width as int,
                            false,
                        ),
                        coord_index_spec(
                            bary_spec(alpha, v1 as int, beta, v2 as int, gamma, v3 as int),
                            images@[img as int].height as int,
                            true,
                        ),
                    )
                })
            } else {
                c == (Color { x: 0, y: 0, z: 0 })
            }),
    {
        match self {
            Texture::SolidColor { color_val } => *color_val,
            Texture::Checker { odd, even } => {
                let sx = fx_sin(fx_clamp(
                    if -0x4000_0000 / 10 <= p.x && p.x <= 0x4000_0000 / 10 {
                        10 * p.x
                    } else {
                        0
                    },
                    -0x4000_0000,
                    0x4000_0000,
                ));
                let sy = fx_sin(fx_clamp(
                    if -0x4000_0000 / 10 <= p.y && p.y <= 0x4000_0000 / 10 {
                        10 * p.y
                    } else {
                        0
                    },
                    -0x4000_0000,
                    0x4000_0000,
                ));
                let sz = fx_sin(fx_clamp(
                    if -0x4000_0000 / 10 <= p.z && p.z <= 0x4000_0000 / 10 {
                        10 * p.z
                    } else {
                        0
                    },
                    -0x4000_0000,
                    0x4000_0000,
                ));
                proof {
                    lemma_mul_le(sx as int, sy as int, FX_ONE as int, FX_ONE as int);
                    lemma_qdiv_le(sx * sy, FX_ONE as int, (FX_ONE as int) * (FX_ONE as int));
                    lemma_mul_le(fx_mul_spec(sx as int, sy as int), sz as int, FX_ONE as int,
                        FX_ONE as int);
                    lemma_qdiv_le(fx_mul_spec(sx as int, sy as int) * sz, FX_ONE as int, (
                    FX_ONE as int) * (FX_ONE as int));
                }
                let sines = fx_mul(fx_mul(sx, sy), sz);
                if sines < 0 {
                    *odd
                } else {
                    *even
                }
            },
            Texture::Noise { scale, perlin } => {
                if !(perlin.ranvec.len() == 256 && perlin.perm_x.len() == 256
                    && perlin.perm_y.len() == 256 && perlin.perm_z.len() == 256) {
                    return Color { x: 0, y: 0, z: 0 };
                }
                let mut ok = perm_check(&perlin.perm_x) && perm_check(&perlin.perm_y) && perm_check(
                    &perlin.perm_z,
                ) && ranvec_check(&perlin.ranvec);
                if !ok {
                    return Color { x: 0, y: 0, z: 0 };
                }
                let sp = Vec3 {
                    x: fx_clamp(p.x, -VMAX / 0x10000, VMAX / 0x10000),
                    y: fx_clamp(p.y, -VMAX / 0x10000, VMAX / 0x10000),
                    z: fx_clamp(p.z, -VMAX / 0x10000, VMAX / 0x10000),
                };
                let sc = fx_clamp(*scale, -256 * FX_ONE, 256 * FX_ONE);
                proof {
                    crate::vec3::lemma_scale_bound(sc as int, sp, 256 * FX_ONE as int, (
                    VMAX as int) / 0x10000);
                }
                let scaled = sp.scale(sc);
                let sb = scaled.is_bounded(VMAX / 256);
                let t = if sb {
                    perlin.turb(&scaled, 7)
                } else {
                    0
                };
                let g = fx_clamp(t, 0, FX_ONE);
                Color { x: g, y: g, z: g }
            },
            Texture::Image { img } => {
                if *img >= images.len() {
                    return Color { x: 0, y: 0, z: 0 };
                }
                let im = &images[*img];
                if !im.is_ok() {
                    return Color { x: 0, y: 0, z: 0 };
                }
                let i = coord_to_index(u, im.width, false);
                let j = coord_to_index(v, im.height, true);
                img_pixel(im, i, j)
            },
            Texture::MeshUv { img, u1, v1, u2, v2, u3, v3 } => {
                if *img >= images.len() {
                    return Color { x: 0, y: 0, z: 0 };
                }
                let im = &images[*img];
                if !im.is_ok() {
                    return Color { x: 0, y: 0, z: 0 };
                }
                let beta = fx_clamp(u, 0, FX_ONE);
                let gamma = fx_clamp(v, 0, FX_ONE);
                let alpha = fx_clamp(FX_ONE - beta - gamma, 0, FX_ONE);
                let uu = bary(alpha, *u1, beta, *u2, gamma, *u3);
                let vv = bary(alpha, *v1, beta, *v2, gamma, *v3);
                let i = coord_to_index(uu, im.width, false);
                let j = coord_to_index(vv, im.height, true);
                img_pixel(im, i, j)
            },
        }
    }
}

/// The value of [`bary`]: the blend of three coordinates, each clamped to
/// the unit scale first.
pub open spec fn bary_spec(a: int, x1: int, b: int, x2: int, c: int, x3: int) -> int {
    fx_mul_spec(a, fx_clamp_spec(x1, -(FX_ONE as int), FX_ONE as int)) + fx_mul_spec(
        b,
        fx_clamp_spec(x2, -(FX_ONE as int), FX_ONE as int),
    ) + fx_mul_spec(c, fx_clamp_spec(x3, -(FX_ONE as int), FX_ONE as int))
}

/// Barycentric blend of three clamped coordinates.
fn bary(a: i64, x1: i64, b: i64, x2: i64, c: i64, x3: i64) -> (r: i64)
    requires
        0 <= a <= FX_ONE,
        0 <= b <= FX_ONE,
        0 <= c <= FX_ONE,
    ensures
        r == bary_spec(a as int, x1 as int, b as int, x2 as int, c as int, x3 as int),
        -3 * FX_ONE <= r <= 3 * FX_ONE,
{
    let y1 = fx_clamp(x1, -FX_ONE, FX_ONE);
    let y2 = fx_clamp(x2, -FX_ONE, FX_ONE);
    let y3 = fx_clamp(x3, -FX_ONE, FX_ONE);
    proof {
        lemma_mul_le(a as int, y1 as int, FX_ONE as int, FX_ONE as int);
        lemma_qdiv_le(a * y1, FX_ONE as int, (FX_ONE as int) * (FX_ONE as int));
        lemma_mul_le(b as int, y2 as int, FX_ONE as int, FX_ONE as int);
        lemma_qdiv_le(b * y2, FX_ONE as int, (FX_ONE as int) * (FX_ONE as int));
        lemma_mul_le(c as int, y3 as int, FX_ONE as int, FX_ONE as int);
        lemma_qdiv_le(c * y3, FX_ONE as int, (FX_ONE as int) * (FX_ONE as int));
    }
    fx_mul(a, y1) + fx_mul(b, y2) + fx_mul(c, y3)
}

fn perm_check(p: &Vec<usize>) -> (r: bool)
    ensures
        r == perm_ok(p@),
{
    if p.len() != 256 {
        return false;
    }
    let mut i: usize = 0;
    while i < 256
        invariant
            0 <= i <= 256,
            p@.len() == 256,
            forall|k: int| 0 <= k < i ==> #[trigger] p@[k] < 256,
        decreases 256 - i,
    {
        if p[i] >= 256 {
            return false;
        }
        i = i + 1;
    }
    true
}

fn ranvec_check(v: &Vec<Vec3>) -> (r: bool)
    ensures
        r == (v@.len() == 256 && forall|i: int|
            0 <= i < 256 ==> (#[trigger] v@[i]).bounded(FX_ONE as int)),
{
    if v.len() != 256 {
        return false;
    }
    let mut i: usize = 0;
    while i < 256
        invariant
            0 <= i <= 256,
            v@.len() == 256,
            forall|k: int| 0 <= k < i ==> (#[trigger] v@[k]).bounded(FX_ONE as int),
        decreases 256 - i,
    {
        if !v[i].is_bounded(FX_ONE) {
            return false;
        }
        i = i + 1;
    }
    true
}

} // verus!
