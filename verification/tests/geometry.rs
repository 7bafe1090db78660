use raytracer::aabb::{surrounding_box, AABB};
use raytracer::fx::FX_ONE;
use raytracer::hit::HitRecord;
use raytracer::object::{HittableList, Object, Translate};
use raytracer::ray::Ray;
use raytracer::rect::Rectanglexy;
use raytracer::sphere::Sphere;
use raytracer::vec3::Vec3;

fn v(x: i64, y: i64, z: i64) -> Vec3 {
    Vec3 { x, y, z }
}

#[test]
fn slab_hit_straight_on() {
    let b = AABB {
        mini: v(0, 0, 0),
        maxi: v(FX_ONE, FX_ONE, FX_ONE),
    };
    let r = Ray {
        orig: v(FX_ONE / 2, FX_ONE / 2, -FX_ONE),
        dir: v(0, 0, FX_ONE),
        tm: 0,
    };
    assert!(b.hit(&r, 0, 10 * FX_ONE));
}

#[test]
fn slab_miss_pointing_away() {
    let b = AABB {
        mini: v(0, 0, 0),
        maxi: v(FX_ONE, FX_ONE, FX_ONE),
    };
    let r = Ray {
        orig: v(FX_ONE / 2, FX_ONE / 2, -FX_ONE),
        dir: v(0, 0, -FX_ONE),
        tm: 0,
    };
    assert!(!b.hit(&r, 0, 10 * FX_ONE));
}

#[test]
fn slab_stationary_axis_outside() {
    let b = AABB {
        mini: v(0, 0, 0),
        maxi: v(FX_ONE, FX_ONE, FX_ONE),
    };
    // origin outside the x slab with no x motion: never inside
    let r = Ray {
        orig: v(2 * FX_ONE, FX_ONE / 2, -FX_ONE),
        dir: v(0, 0, FX_ONE),
        tm: 0,
    };
    assert!(!b.hit(&r, 0, 10 * FX_ONE));
}

#[test]
fn sphere_nearest_root() {
    let s = Sphere::new(v(0, 0, -FX_ONE), FX_ONE / 2, 0);
    let r = Ray {
        orig: v(0, 0, 0),
        dir: v(0, 0, -FX_ONE),
        tm: 0,
    };
    let rec: HitRecord = s.hit(&r, 0, 10 * FX_ONE).expect("must hit");
    assert_eq!(rec.t, FX_ONE / 2);
    assert_eq!(rec.p, v(0, 0, -FX_ONE / 2));
    assert_eq!(rec.normal, v(0, 0, FX_ONE));
    assert!(rec.front_face);
}

#[test]
fn sphere_inside_uses_far_root() {
    // from the center, the near root is negative; the far root at t = r
    let s = Sphere::new(v(0, 0, 0), FX_ONE, 0);
    let r = Ray {
        orig: v(0, 0, 0),
        dir: v(0, 0, -FX_ONE),
        tm: 0,
    };
    let rec = s.hit(&r, 0, 10 * FX_ONE).expect("must hit");
    assert_eq!(rec.t, FX_ONE);
    assert!(!rec.front_face);
}

#[test]
fn sphere_degenerate_radius_misses() {
    let s = Sphere::new(v(0, 0, -FX_ONE), 0, 0);
    let r = Ray {
        orig: v(0, 0, 0),
        dir: v(0, 0, -FX_ONE),
        tm: 0,
    };
    assert!(s.hit(&r, 0, 10 * FX_ONE).is_none());
}

#[test]
fn rect_hit_and_uv() {
    let q = Rectanglexy::new(0, 2 * FX_ONE, 0, 2 * FX_ONE, -FX_ONE, 0);
    let r = Ray {
        orig: v(FX_ONE / 2, FX_ONE, FX_ONE),
        dir: v(0, 0, -FX_ONE),
        tm: 0,
    };
    let rec = q.hit(&r, 0, 10 * FX_ONE).expect("must hit");
    assert_eq!(rec.t, 2 * FX_ONE);
    assert_eq!(rec.u, FX_ONE / 4);
    assert_eq!(rec.v, FX_ONE / 2);
    assert_eq!(rec.normal, v(0, 0, FX_ONE));
}

#[test]
fn rect_parallel_ray_misses() {
    let q = Rectanglexy::new(0, 2 * FX_ONE, 0, 2 * FX_ONE, -FX_ONE, 0);
    let r = Ray {
        orig: v(FX_ONE / 2, FX_ONE, FX_ONE),
        dir: v(FX_ONE, 0, 0),
        tm: 0,
    };
    assert!(q.hit(&r, 0, 10 * FX_ONE).is_none());
}

#[test]
fn rect_empty_extent_misses() {
    // x0 == x1 is malformed and never hits
    let q = Rectanglexy::new(FX_ONE, FX_ONE, 0, 2 * FX_ONE, -FX_ONE, 0);
    let r = Ray {
        orig: v(FX_ONE, FX_ONE, FX_ONE),
        dir: v(0, 0, -FX_ONE),
        tm: 0,
    };
    assert!(q.hit(&r, 0, 10 * FX_ONE).is_none());
}

#[test]
fn surrounding_box_contains_both() {
    let a = AABB {
        mini: v(-FX_ONE, 0, 0),
        maxi: v(FX_ONE, FX_ONE, FX_ONE),
    };
    let b = AABB {
        mini: v(0, -2 * FX_ONE, FX_ONE / 2),
        maxi: v(3 * FX_ONE, FX_ONE / 2, 4 * FX_ONE),
    };
    let u = surrounding_box(a, b);
    assert_eq!(u.mini, v(-FX_ONE, -2 * FX_ONE, 0));
    assert_eq!(u.maxi, v(3 * FX_ONE, FX_ONE, 4 * FX_ONE));
    for (inner, outer) in [(&a, &u), (&b, &u)] {
        assert!(outer.mini.x <= inner.mini.x && inner.maxi.x <= outer.maxi.x);
        assert!(outer.mini.y <= inner.mini.y && inner.maxi.y <= outer.maxi.y);
        assert!(outer.mini.z <= inner.mini.z && inner.maxi.z <= outer.maxi.z);
    }
}

#[test]
fn list_scan_picks_closest() {
    let mut list = HittableList::new();
    list.add(Object::Sphere(Sphere::new(v(0, 0, -4 * FX_ONE), FX_ONE, 0)));
    list.add(Object::Sphere(Sphere::new(v(0, 0, -2 * FX_ONE), FX_ONE / 2, 1)));
    let r = Ray {
        orig: v(0, 0, 0),
        dir: v(0, 0, -FX_ONE),
        tm: 0,
    };
    let rec = list.hit(&r, 66, 100 * FX_ONE).expect("must hit");
    // the nearer sphere's surface at z = -1.5
    assert_eq!(rec.t, 3 * FX_ONE / 2);
    assert_eq!(rec.mat, 1);
}

#[test]
fn translate_shifts_hit_point() {
    let offset = v(3 * FX_ONE, -2 * FX_ONE, FX_ONE);
    let plain = Sphere::new(v(0, 0, -4 * FX_ONE), FX_ONE, 0);
    let moved = Object::Translate(Translate::new(
        Object::Sphere(Sphere::new(v(0, 0, -4 * FX_ONE), FX_ONE, 0)),
        offset,
    ));
    // the same ray, shifted by the offset, must see the shifted hit point
    let base_ray = Ray {
        orig: v(0, 0, 0),
        dir: v(0, 0, -FX_ONE),
        tm: 0,
    };
    let shifted_ray = Ray {
        orig: v(offset.x, offset.y, offset.z),
        dir: v(0, 0, -FX_ONE),
        tm: 0,
    };
    let plain_rec = plain.hit(&base_ray, 66, 100 * FX_ONE).expect("must hit");
    let moved_rec = moved.hit(&shifted_ray, 66, 100 * FX_ONE).expect("must hit");
    assert_eq!(moved_rec.t, plain_rec.t);
    assert_eq!(
        moved_rec.p,
        v(
            plain_rec.p.x + offset.x,
            plain_rec.p.y + offset.y,
            plain_rec.p.z + offset.z
        )
    );
    // pure translation leaves the normal unchanged
    assert_eq!(moved_rec.normal, plain_rec.normal);
    assert_eq!(moved_rec.u, plain_rec.u);
    assert_eq!(moved_rec.v, plain_rec.v);
}
