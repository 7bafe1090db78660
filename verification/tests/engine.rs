use rand::Rng;
use raytracer::camera::Camera;
use raytracer::fx::{fx_mul, fx_sqrt, FX_ONE};
use raytracer::hit::HitRecord;
use raytracer::material::{reflectance, Material};
use raytracer::object::{BvhNode, ConstantMedium, Cube, HittableList, Object, Rotatey, Translate};
use raytracer::ray::{Ray, T_INF};
use raytracer::render::{plan_bands, ray_color, render, write_color};
use raytracer::sphere::{MoveSphere, Sphere};
use raytracer::texture::Texture;
use raytracer::vec3::Vec3;

fn v(x: i64, y: i64, z: i64) -> Vec3 {
    Vec3 { x, y, z }
}

fn random_sphere_params(rng: &mut impl Rng, n: usize) -> Vec<(Vec3, i64)> {
    let mut out = Vec::new();
    for _ in 0..n {
        let c = v(
            rng.gen_range(-40..40) * FX_ONE,
            rng.gen_range(-40..40) * FX_ONE,
            rng.gen_range(-40..40) * FX_ONE,
        );
        let r = rng.gen_range(1..8) * FX_ONE / 2;
        out.push((c, r));
    }
    out
}

fn spheres_from(params: &[(Vec3, i64)]) -> Vec<Object> {
    params
        .iter()
        .map(|(c, r)| Object::Sphere(Sphere::new(*c, *r, 0)))
        .collect()
}

#[test]
fn bvh_matches_linear_scan() {
    let mut rng = rand::thread_rng();
    let params = random_sphere_params(&mut rng, 60);
    let bvh = BvhNode::new_from_vec(spheres_from(&params), 0, FX_ONE).expect("buildable");
    let tree = Object::Bvh(bvh);
    let mut list = HittableList::new();
    for o in spheres_from(&params) {
        list.add(o);
    }
    for _ in 0..1000 {
        let r = Ray {
            orig: v(
                rng.gen_range(-60..60) * FX_ONE,
                rng.gen_range(-60..60) * FX_ONE,
                rng.gen_range(-60..60) * FX_ONE,
            ),
            dir: v(
                rng.gen_range(-FX_ONE..FX_ONE),
                rng.gen_range(-FX_ONE..FX_ONE),
                rng.gen_range(-FX_ONE..FX_ONE),
            ),
            tm: 0,
        };
        let a = tree.hit(&r, 66, T_INF);
        let b = list.hit(&r, 66, T_INF);
        match (a, b) {
            (None, None) => {}
            (Some(x), Some(y)) => {
                assert_eq!(x.t, y.t, "hierarchy and scan disagree on the hit distance");
                assert_eq!(x.p, y.p, "hierarchy and scan disagree on the hit point");
            }
            (x, y) => panic!(
                "hierarchy and scan disagree on whether anything was hit: {:?} vs {:?}",
                x.map(|r| r.t),
                y.map(|r| r.t)
            ),
        }
    }
}

#[test]
fn bvh_empty_input_rejected() {
    assert!(BvhNode::new_from_vec(Vec::new(), 0, FX_ONE).is_none());
}

#[test]
fn bvh_single_object() {
    let objs = vec![Object::Sphere(Sphere::new(v(0, 0, -4 * FX_ONE), FX_ONE, 0))];
    let node = BvhNode::new_from_vec(objs, 0, FX_ONE).expect("buildable");
    let tree = Object::Bvh(node);
    let r = Ray {
        orig: v(0, 0, 0),
        dir: v(0, 0, -FX_ONE),
        tm: 0,
    };
    let rec = tree.hit(&r, 66, T_INF).expect("must hit");
    assert_eq!(rec.t, 3 * FX_ONE);
}

#[test]
fn depth_zero_is_black() {
    let mut world = HittableList::new();
    world.add(Object::Sphere(Sphere::new(v(0, 0, -4 * FX_ONE), FX_ONE, 0)));
    let world = Object::List(world);
    let lights = Object::List(HittableList::new());
    let mats = vec![Material::DiffuseLight {
        emit: Texture::SolidColor {
            color_val: v(FX_ONE, FX_ONE, FX_ONE),
        },
    }];
    let images = Vec::new();
    let r = Ray {
        orig: v(0, 0, 0),
        dir: v(0, 0, -FX_ONE),
        tm: 0,
    };
    let c = ray_color(
        &r,
        v(3 * FX_ONE, 2 * FX_ONE, FX_ONE),
        &world,
        &lights,
        &mats,
        &images,
        0,
    );
    assert_eq!(c, v(0, 0, 0));
}

#[test]
fn emitter_returns_emission_exactly() {
    let mut world = HittableList::new();
    world.add(Object::Sphere(Sphere::new(v(0, 0, -4 * FX_ONE), FX_ONE, 0)));
    let world = Object::List(world);
    let lights = Object::List(HittableList::new());
    let mats = vec![Material::DiffuseLight {
        emit: Texture::SolidColor {
            color_val: v(FX_ONE, FX_ONE / 2, FX_ONE / 4),
        },
    }];
    let images = Vec::new();
    let r = Ray {
        orig: v(0, 0, 0),
        dir: v(0, 0, -FX_ONE),
        tm: 0,
    };
    let c = ray_color(&r, v(0, 0, 0), &world, &lights, &mats, &images, 4);
    assert_eq!(c, v(FX_ONE, FX_ONE / 2, FX_ONE / 4));
}

#[test]
fn miss_returns_background_exactly() {
    let world = Object::List(HittableList::new());
    let lights = Object::List(HittableList::new());
    let mats: Vec<Material> = Vec::new();
    let images = Vec::new();
    let r = Ray {
        orig: v(0, 0, 0),
        dir: v(0, 0, -FX_ONE),
        tm: 0,
    };
    let bg = v(FX_ONE / 8, FX_ONE / 4, FX_ONE / 2);
    let c = ray_color(&r, bg, &world, &lights, &mats, &images, 4);
    assert_eq!(c, bg);
}

#[test]
fn end_to_end_light_sphere() {
    // one emitting unit sphere at the origin, black background, one sample,
    // depth one: every pixel is exactly the emission or exactly the
    // background
    let mut world = HittableList::new();
    world.add(Object::Sphere(Sphere::new(v(0, 0, 0), FX_ONE, 0)));
    let world = Object::List(world);
    let mut lights = HittableList::new();
    lights.add(Object::Sphere(Sphere::new(v(0, 0, 0), FX_ONE, 0)));
    let lights = Object::List(lights);
    let mats = vec![Material::DiffuseLight {
        emit: Texture::SolidColor {
            color_val: v(FX_ONE, FX_ONE, FX_ONE),
        },
    }];
    let images = Vec::new();
    let cam = Camera::new(
        v(0, 0, 3 * FX_ONE),
        v(0, 0, 0),
        v(0, FX_ONE, 0),
        90 * FX_ONE,
        FX_ONE,
        0,
        FX_ONE,
        0,
        0,
    );
    let buf = render(
        &cam,
        &world,
        &lights,
        &mats,
        &images,
        16,
        16,
        1,
        1,
        2,
        v(0, 0, 0),
    );
    assert_eq!(buf.len(), 16 * 16 * 3);
    let mut whites = 0usize;
    let mut blacks = 0usize;
    for px in buf.chunks(3) {
        let all255 = px[0] == 255 && px[1] == 255 && px[2] == 255;
        let all0 = px[0] == 0 && px[1] == 0 && px[2] == 0;
        assert!(
            all255 || all0,
            "a pixel was neither the emission nor the background: {:?}",
            px
        );
        if all255 {
            whites += 1;
        } else {
            blacks += 1;
        }
    }
    assert!(whites > 0, "the sphere never appeared");
    assert!(blacks > 0, "the background never appeared");
}

#[test]
fn bands_tile_the_image() {
    let bands = plan_bands(100, 8);
    assert_eq!(bands.len(), 8);
    assert_eq!(bands[0].0, 0);
    assert_eq!(bands[7].1, 100);
    for i in 0..7 {
        assert_eq!(bands[i].1, bands[i + 1].0);
        assert_eq!(bands[i].1 - bands[i].0, 12);
    }
    assert_eq!(bands[7].1 - bands[7].0, 100 - 7 * 12);
}

#[test]
fn write_color_exact_values() {
    // a full-intensity channel averages to one, whose root is one, giving
    // the brightest byte; zero stays zero
    let rgb = write_color(v(FX_ONE, 0, 4 * FX_ONE), 1);
    assert_eq!(rgb.0, 255);
    assert_eq!(rgb.1, 0);
    assert_eq!(rgb.2, 255);
    // a quarter intensity averages to 1/4, roots to 1/2, giving byte 128
    let rgb2 = write_color(v(FX_ONE / 4, FX_ONE / 4, FX_ONE / 4), 1);
    assert_eq!(rgb2.0, 128);
    // four samples summing to one average to 1/4 as well
    let rgb3 = write_color(v(FX_ONE, FX_ONE, FX_ONE), 4);
    assert_eq!(rgb3.0, 128);
}

#[test]
fn fx_arithmetic_exact() {
    assert_eq!(fx_mul(3 * FX_ONE, 2 * FX_ONE), 6 * FX_ONE);
    assert_eq!(fx_mul(-3 * FX_ONE, 2 * FX_ONE), -6 * FX_ONE);
    assert_eq!(fx_mul(FX_ONE / 2, FX_ONE / 2), FX_ONE / 4);
    assert_eq!(fx_sqrt(4 * FX_ONE), 2 * FX_ONE);
    assert_eq!(fx_sqrt(FX_ONE), FX_ONE);
    assert_eq!(fx_sqrt(0), 0);
}

#[test]
fn cube_hit_from_outside() {
    let cube = Object::Cube(Cube::new(
        v(-FX_ONE, -FX_ONE, -4 * FX_ONE),
        v(FX_ONE, FX_ONE, -2 * FX_ONE),
        0,
    ));
    let r = Ray {
        orig: v(0, 0, 0),
        dir: v(0, 0, -FX_ONE),
        tm: 0,
    };
    let rec = cube.hit(&r, 66, T_INF).expect("must hit");
    assert_eq!(rec.t, 2 * FX_ONE);
    assert_eq!(rec.normal, v(0, 0, FX_ONE));
}

#[test]
fn rotate_ninety_degrees_hits() {
    // a sphere far along +x, rotated a quarter turn about y, appears along
    // the axis the rotated ray reaches
    let inner = Object::Sphere(Sphere::new(v(4 * FX_ONE, 0, 0), FX_ONE, 0));
    let rot = Object::Rotate(Rotatey::new(inner, 90 * FX_ONE));
    let r = Ray {
        orig: v(0, 0, 0),
        dir: v(0, 0, -FX_ONE),
        tm: 0,
    };
    let rec = rot.hit(&r, 66, T_INF);
    assert!(rec.is_some(), "the rotated sphere was missed");
    let rec = rec.unwrap();
    assert!((rec.t - 3 * FX_ONE).abs() < FX_ONE / 8);
}

#[test]
fn medium_scatters_inside_boundary() {
    let boundary = Object::Sphere(Sphere::new(v(0, 0, -6 * FX_ONE), 2 * FX_ONE, 0));
    let fog = Object::Medium(ConstantMedium::new(boundary, 8 * FX_ONE, 1));
    let r = Ray {
        orig: v(0, 0, 0),
        dir: v(0, 0, -FX_ONE),
        tm: 0,
    };
    let mut hits = 0usize;
    for _ in 0..200 {
        if let Some(rec) = fog.hit(&r, 66, T_INF) {
            hits += 1;
            // every scatter event lies between the boundary crossings
            assert!(4 * FX_ONE <= rec.t && rec.t <= 8 * FX_ONE);
            assert_eq!(rec.mat, 1);
        }
    }
    assert!(hits > 0, "the dense fog never scattered");
}

#[test]
fn moving_sphere_follows_center() {
    let ms = MoveSphere::new(
        v(0, 0, -4 * FX_ONE),
        v(0, 4 * FX_ONE, -4 * FX_ONE),
        0,
        FX_ONE,
        FX_ONE,
        0,
    );
    // at the shutter's opening the sphere sits at the first center
    let r0 = Ray {
        orig: v(0, 0, 0),
        dir: v(0, 0, -FX_ONE),
        tm: 0,
    };
    assert!(ms.hit(&r0, 66, T_INF).is_some());
    // at the shutter's close it has moved out of this ray's path
    let r1 = Ray {
        orig: v(0, 0, 0),
        dir: v(0, 0, -FX_ONE),
        tm: FX_ONE,
    };
    assert!(ms.hit(&r1, 66, T_INF).is_none());
}

#[test]
fn translate_then_rotate_round_trip() {
    // wrapping in a translation moves the reported hit point by exactly the
    // offset while the parameter stays put
    let offset = v(FX_ONE, FX_ONE, 0);
    let base = Sphere::new(v(0, 0, -4 * FX_ONE), FX_ONE, 0);
    let wrapped = Object::Translate(Translate::new(
        Object::Sphere(Sphere::new(v(0, 0, -4 * FX_ONE), FX_ONE, 0)),
        offset,
    ));
    let ray_at_base = Ray {
        orig: v(0, 0, 0),
        dir: v(0, 0, -FX_ONE),
        tm: 0,
    };
    let ray_at_wrapped = Ray {
        orig: v(FX_ONE, FX_ONE, 0),
        dir: v(0, 0, -FX_ONE),
        tm: 0,
    };
    let a = base.hit(&ray_at_base, 66, T_INF).expect("must hit");
    let b = wrapped.hit(&ray_at_wrapped, 66, T_INF).expect("must hit");
    assert_eq!(b.t, a.t);
    assert_eq!(b.p, v(a.p.x + offset.x, a.p.y + offset.y, a.p.z + offset.z));
    assert_eq!(b.normal, a.normal);
}

#[test]
fn bvh_rejects_nested_hierarchy() {
    let inner = BvhNode::new_from_vec(
        vec![Object::Sphere(Sphere::new(v(0, 0, -4 * FX_ONE), FX_ONE, 0))],
        0,
        FX_ONE,
    )
    .expect("buildable");
    assert!(BvhNode::new_from_vec(vec![Object::Bvh(inner)], 0, FX_ONE).is_none());
}

#[test]
fn bvh_rejects_boxless_member() {
    // a degenerate sphere reports no bounding box, which is fatal to the build
    let objs = vec![
        Object::Sphere(Sphere::new(v(0, 0, -4 * FX_ONE), FX_ONE, 0)),
        Object::Sphere(Sphere::new(v(0, 0, 0), 0, 0)),
    ];
    assert!(BvhNode::new_from_vec(objs, 0, FX_ONE).is_none());
}

#[test]
fn metal_mirror_at_zero_fuzz() {
    let m = Material::Metal {
        albedo: v(FX_ONE / 2, FX_ONE / 4, FX_ONE / 8),
        fuzz: 0,
    };
    let r_in = Ray {
        orig: v(0, 0, 0),
        dir: v(0, 0, -FX_ONE),
        tm: 0,
    };
    let rec = HitRecord {
        p: v(0, 0, -2 * FX_ONE),
        normal: v(0, 0, FX_ONE),
        t: 2 * FX_ONE,
        front_face: true,
        mat: 0,
        u: 0,
        v: 0,
    };
    let images = Vec::new();
    let sr = m.scatter(&r_in, &rec, &images).expect("metal always bounces");
    assert!(sr.is_specular);
    assert!(sr.pdf_ptr.is_none());
    assert_eq!(sr.attenuation, v(FX_ONE / 2, FX_ONE / 4, FX_ONE / 8));
    assert_eq!(sr.specular_ray.orig, rec.p);
    // with no fuzz the bounce is the exact mirror about the normal
    assert_eq!(sr.specular_ray.dir, v(0, 0, FX_ONE));
}

#[test]
fn dielectric_total_internal_reflection() {
    let m = Material::Dielectric { ir: 3 * FX_ONE / 2 };
    // leaving the glass at a grazing angle: ratio·sinθ > 1 forces reflection
    let r_in = Ray {
        orig: v(0, 0, 0),
        dir: v(4 * FX_ONE / 5, 0, -3 * FX_ONE / 5),
        tm: 7,
    };
    let rec = HitRecord {
        p: v(FX_ONE, 0, -FX_ONE),
        normal: v(0, 0, FX_ONE),
        t: FX_ONE,
        front_face: false,
        mat: 0,
        u: 0,
        v: 0,
    };
    let images = Vec::new();
    let sr = m.scatter(&r_in, &rec, &images).expect("dielectric always bounces");
    assert!(sr.is_specular);
    assert_eq!(sr.attenuation, v(FX_ONE, FX_ONE, FX_ONE));
    assert_eq!(sr.specular_ray.tm, 7);
    // reflected: the normal component flips sign
    assert!(sr.specular_ray.dir.z > 0);
    assert!(sr.specular_ray.dir.x > 0);
}

#[test]
fn reflectance_exact_values() {
    // normal incidence on glass: ((1-1.5)/(1+1.5))² = 0.04
    assert_eq!(reflectance(FX_ONE, 3 * FX_ONE / 2), 2621);
    // grazing incidence approaches one
    assert!(reflectance(0, 3 * FX_ONE / 2) > 9 * FX_ONE / 10);
}
