//! Exact-geometry checks: boxes, slabs, primitive intersections.

use raytrace::aabb::Aabb;
use raytrace::hittable::aa_rect::XzRect;
use raytrace::hittable::sphere::Sphere;
use raytrace::hittable::{HitRecord, Hittable};
use raytrace::material::Material;
use raytrace::material::lambertian::Lambertian;
use raytrace::ray::Ray;
use raytrace::vec3::Vec3;

fn v(x: i64, y: i64, z: i64) -> Vec3 {
    Vec3 { x, y, z }
}

fn gray() -> Material {
    Material::Lambertian(Lambertian::new_color(v(512, 512, 512)))
}

#[test]
fn union_commutes_and_is_idempotent() {
    let a = Aabb::new(v(-1024, -2048, 0), v(1024, 0, 512));
    let b = Aabb::new(v(0, -100, -300), v(4096, 200, 400));
    let ab = Aabb::surrounding(&a, &b);
    let ba = Aabb::surrounding(&b, &a);
    assert_eq!(ab.min, ba.min);
    assert_eq!(ab.max, ba.max);
    let aa = Aabb::surrounding(&a, &a);
    assert_eq!(aa.min, a.min);
    assert_eq!(aa.max, a.max);
    assert!(ab.min.x <= a.min.x && a.max.x <= ab.max.x);
    assert!(ab.min.x <= b.min.x && b.max.x <= ab.max.x);
    assert!(ab.min.y <= a.min.y && a.max.y <= ab.max.y);
    assert!(ab.min.y <= b.min.y && b.max.y <= ab.max.y);
    assert!(ab.min.z <= a.min.z && a.max.z <= ab.max.z);
    assert!(ab.min.z <= b.min.z && b.max.z <= ab.max.z);
}

#[test]
fn slab_test_decides_hits() {
    let b = Aabb::new(v(-1024, -1024, -1024), v(1024, 1024, 1024));
    let toward = Ray { origin: v(-10240, 0, 0), direction: v(1024, 0, 0), time: 0 };
    let away = Ray { origin: v(-10240, 0, 0), direction: v(-1024, 0, 0), time: 0 };
    let offset = Ray { origin: v(-10240, 5000, 0), direction: v(1024, 0, 0), time: 0 };
    assert!(b.hit(&toward, 1, 1 << 29));
    assert!(!b.hit(&away, 1, 1 << 29));
    assert!(!b.hit(&offset, 1, 1 << 29));
}

#[test]
fn sphere_hit_point_lies_on_the_surface() {
    let s = Sphere::new(v(0, 0, 0), 2048, gray());
    let r = Ray { origin: v(-10240, 0, 0), direction: v(1024, 0, 0), time: 0 };
    let rec = s.hit(&r, 1, 1 << 29).expect("the ray aims at the sphere");
    assert_eq!(rec.t, 8192);
    assert_eq!(rec.p, v(-2048, 0, 0));
    let dx = rec.p.x - 0;
    let dy = rec.p.y - 0;
    let dz = rec.p.z - 0;
    assert_eq!(dx * dx + dy * dy + dz * dz, 2048 * 2048);
    assert_eq!(rec.normal, v(-1024, 0, 0));
    assert!(rec.front_face);
}

#[test]
fn sphere_miss_returns_nothing() {
    let s = Sphere::new(v(0, 0, 0), 1024, gray());
    let r = Ray { origin: v(-10240, 5000, 0), direction: v(1024, 0, 0), time: 0 };
    assert!(s.hit(&r, 1, 1 << 29).is_none());
}

#[test]
fn rect_hit_solves_the_plane_crossing() {
    let rect = XzRect::new(-1024, 1024, -1024, 1024, 0, gray());
    let r = Ray { origin: v(0, 4096, 0), direction: v(0, -1024, 0), time: 0 };
    let rec = rect.hit(&r, 1, 1 << 29).expect("the ray points straight down");
    assert_eq!(rec.t, 4096);
    assert_eq!(rec.p, v(0, 0, 0));
    assert!(rec.front_face);
    assert_eq!(rec.normal, v(0, 1024, 0));
    assert_eq!(rec.u, 512);
    assert_eq!(rec.v, 512);
}

#[test]
fn front_face_follows_the_dot_product_sign() {
    let mat = gray();
    let outward = v(0, 0, 1024);
    let from_front = Ray { origin: v(0, 0, 10240), direction: v(0, 0, -1024), time: 0 };
    let from_back = Ray { origin: v(0, 0, -10240), direction: v(0, 0, 1024), time: 0 };
    let rec1 = HitRecord::new(v(0, 0, 0), outward, 10, 0, 0, &from_front, &mat);
    assert!(rec1.front_face);
    assert_eq!(rec1.normal, v(0, 0, 1024));
    assert!(rec1.normal.x * from_front.direction.x + rec1.normal.y * from_front.direction.y
        + rec1.normal.z * from_front.direction.z <= 0);
    let rec2 = HitRecord::new(v(0, 0, 0), outward, 10, 0, 0, &from_back, &mat);
    assert!(!rec2.front_face);
    assert_eq!(rec2.normal, v(0, 0, -1024));
    assert!(rec2.normal.x * from_back.direction.x + rec2.normal.y * from_back.direction.y
        + rec2.normal.z * from_back.direction.z <= 0);
}

#[test]
fn translate_shifts_the_hit_point() {
    let s = Hittable::Sphere(Sphere::new(v(0, 0, 0), 1024, gray()));
    let t = Hittable::Translate(raytrace::hittable::translate::Translate::new(
        Box::new(s), v(0, 2048, 0)));
    let r = Ray { origin: v(-10240, 2048, 0), direction: v(1024, 0, 0), time: 0 };
    let rec = t.hit(&r, 1, 1 << 29).expect("the moved sphere sits on this ray");
    assert_eq!(rec.p, v(-1024, 2048, 0));
}
