use rand::Rng;
use raytracer::fx::FX_ONE;
use raytracer::object::{HittableList, Object};
use raytracer::pdf::{mixture_pdf_value, random_in_unit_sphere, CosPDF};
use raytracer::rect::Rectanglexz;
use raytracer::rng::{random_index, random_unit};
use raytracer::vec3::Vec3;

fn v(x: i64, y: i64, z: i64) -> Vec3 {
    Vec3 { x, y, z }
}

/// A uniformly distributed direction on the upper hemisphere, in floating
/// point for the statistical estimate.
fn uniform_hemisphere(rng: &mut impl Rng) -> (f64, f64, f64) {
    loop {
        let x: f64 = rng.gen_range(-1.0..1.0);
        let y: f64 = rng.gen_range(-1.0..1.0);
        let z: f64 = rng.gen_range(-1.0..1.0);
        let n2 = x * x + y * y + z * z;
        if n2 > 1e-4 && n2 <= 1.0 {
            let n = n2.sqrt();
            return (x / n, y / n, (z / n).abs());
        }
    }
}

#[test]
fn cosine_pdf_normalizes() {
    // Monte Carlo estimate of the integral of the density over the
    // hemisphere: with uniform direction sampling the estimator is the
    // mean density times the hemisphere's solid angle, and must approach 1.
    let mut rng = rand::thread_rng();
    let cp = CosPDF::new(&v(0, 0, FX_ONE));
    let samples = 20000usize;
    let mut acc = 0.0f64;
    for _ in 0..samples {
        let (x, y, z) = uniform_hemisphere(&mut rng);
        let d = v(
            (x * 65536.0) as i64,
            (y * 65536.0) as i64,
            (z * 65536.0) as i64,
        );
        let val = cp.value(&d) as f64 / 65536.0;
        acc += val;
    }
    let estimate = acc / samples as f64 * 2.0 * std::f64::consts::PI;
    assert!(
        (estimate - 1.0).abs() < 0.02,
        "integral estimate {} is off",
        estimate
    );
}

#[test]
fn cosine_pdf_zero_behind() {
    let cp = CosPDF::new(&v(0, 0, FX_ONE));
    assert_eq!(cp.value(&v(0, 0, -FX_ONE)), 0);
}

#[test]
fn mixture_value_is_exact_average() {
    let mut lights = HittableList::new();
    lights.add(Object::RectXz(Rectanglexz {
        x0: -2 * FX_ONE,
        x1: 2 * FX_ONE,
        z0: -2 * FX_ONE,
        z1: 2 * FX_ONE,
        k: 5 * FX_ONE,
        mat: 0,
    }));
    let lights = Object::List(lights);
    let origin = v(0, 0, 0);
    let cp = CosPDF::new(&v(0, 0, FX_ONE));
    let mut rng = rand::thread_rng();
    for _ in 0..1000 {
        let d = v(
            rng.gen_range(-3 * FX_ONE..3 * FX_ONE),
            rng.gen_range(FX_ONE / 4..6 * FX_ONE),
            rng.gen_range(-3 * FX_ONE..3 * FX_ONE),
        );
        let a = lights.pdf_value(&origin, &d);
        let b = cp.value(&d);
        let m = mixture_pdf_value(&lights, &origin, &cp, &d);
        assert_eq!(m, (a + b) / 2, "mixture must be the exact half-half average");
    }
}

#[test]
fn light_pdf_positive_toward_light() {
    let light = Object::RectXz(Rectanglexz {
        x0: -2 * FX_ONE,
        x1: 2 * FX_ONE,
        z0: -2 * FX_ONE,
        z1: 2 * FX_ONE,
        k: 5 * FX_ONE,
        mat: 0,
    });
    let up = v(0, FX_ONE, 0);
    assert!(light.pdf_value(&v(0, 0, 0), &up) > 0);
    let down = v(0, -FX_ONE, 0);
    assert_eq!(light.pdf_value(&v(0, 0, 0), &down), 0);
}

#[test]
fn light_random_points_at_light() {
    let light = Object::RectXz(Rectanglexz {
        x0: -2 * FX_ONE,
        x1: 2 * FX_ONE,
        z0: -2 * FX_ONE,
        z1: 2 * FX_ONE,
        k: 5 * FX_ONE,
        mat: 0,
    });
    for _ in 0..200 {
        let d = light.random(&v(0, 0, 0));
        // the sampled direction must rise toward the plane y = 5 and point
        // into the rectangle's x/z extent
        assert_eq!(d.y, 5 * FX_ONE);
        assert!(-2 * FX_ONE <= d.x && d.x < 2 * FX_ONE);
        assert!(-2 * FX_ONE <= d.z && d.z < 2 * FX_ONE);
    }
}

#[test]
fn unit_sphere_samples_inside() {
    for _ in 0..500 {
        let p = random_in_unit_sphere();
        let n2 = p.x as i128 * p.x as i128 + p.y as i128 * p.y as i128 + p.z as i128 * p.z as i128;
        assert!(n2 / 65536 <= FX_ONE as i128);
    }
}

#[test]
fn random_unit_range_and_variation() {
    let mut seen_low = false;
    let mut seen_high = false;
    for _ in 0..2000 {
        let u = random_unit();
        assert!(0 <= u && u < FX_ONE);
        if u < FX_ONE / 2 {
            seen_low = true;
        } else {
            seen_high = true;
        }
    }
    assert!(seen_low && seen_high, "the unit draw never varied");
}

#[test]
fn random_index_in_range() {
    for n in 1..20usize {
        for _ in 0..50 {
            assert!(random_index(n) < n);
        }
    }
}
