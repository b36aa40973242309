//! The hierarchy against the linear scan, on randomized rays.

use rand::Rng;
use raytrace::hittable::flip_face::FlipFace;
use raytrace::hittable::rotate::RotateY;
use raytrace::hittable::translate::Translate;
use raytrace::hittable::Hittable;
use raytrace::hittable::bvh_node::BvhNode;
use raytrace::hittable::hittable_list::HittableList;
use raytrace::hittable::aa_rect::{XyRect, XzRect, YzRect};
use raytrace::hittable::sphere::Sphere;
use raytrace::material::Material;
use raytrace::material::lambertian::Lambertian;
use raytrace::ray::Ray;
use raytrace::vec3::Vec3;

fn v(x: i64, y: i64, z: i64) -> Vec3 {
    Vec3 { x, y, z }
}

fn gray() -> Material {
    Material::Lambertian(Lambertian::new_color(v(512, 512, 512)))
}

fn primitives() -> Vec<Hittable> {
    let mut out: Vec<Hittable> = Vec::new();
    let centers = [
        (0i64, 0i64, 0i64),
        (3000, 500, -2000),
        (-4000, 1500, 2500),
        (8000, -3000, 100),
        (-9000, 4000, -5000),
        (500, 7000, 6000),
        (-2000, -6000, -1000),
        (6000, 2000, 4000),
    ];
    for (cx, cy, cz) in centers {
        out.push(Hittable::Sphere(Sphere::new(v(cx, cy, cz), 900, gray())));
    }
    out.push(Hittable::XyRect(XyRect::new(-5000, 5000, -5000, 5000, 9000, gray())));
    out.push(Hittable::XzRect(XzRect::new(-5000, 5000, -5000, 5000, -9000, gray())));
    out.push(Hittable::YzRect(YzRect::new(-5000, 5000, -5000, 5000, 9500, gray())));
    out.push(Hittable::Translate(Translate::new(
        Box::new(Hittable::Sphere(Sphere::new(v(0, 0, 0), 700, gray()))),
        v(-6000, -2000, 3000))));
    out.push(Hittable::FlipFace(FlipFace::new(
        Box::new(Hittable::XyRect(XyRect::new(-2000, 2000, -2000, 2000, 4000, gray()))))));
    out.push(Hittable::RotateY(RotateY::new(
        Box::new(Hittable::XyRect(XyRect::new(2000, 4000, -2000, 2000, 0, gray()))),
        30 * 1024)));
    out
}

#[test]
fn bvh_agrees_with_linear_scan_on_random_rays() {
    let mut list = HittableList::new();
    for p in primitives() {
        list.add(p);
    }
    let flat = Hittable::List(list);
    let tree = Hittable::Bvh(BvhNode::new(primitives(), 0, 1024));
    let mut rng = rand::thread_rng();
    for _ in 0..500 {
        let origin = v(
            rng.gen_range(-12000..12000),
            rng.gen_range(-12000..12000),
            rng.gen_range(-12000..12000),
        );
        let direction = v(
            rng.gen_range(-1024..1024),
            rng.gen_range(-1024..1024),
            rng.gen_range(-1024..1024),
        );
        let ray = Ray { origin, direction, time: 0 };
        let a = flat.hit(&ray, 1, 1 << 29);
        let b = tree.hit(&ray, 1, 1 << 29);
        match (a, b) {
            (None, None) => {},
            (Some(ra), Some(rb)) => {
                assert_eq!(ra.t, rb.t);
                assert_eq!(ra.p, rb.p);
                assert_eq!(ra.normal, rb.normal);
                assert_eq!(ra.front_face, rb.front_face);
            },
            (left, right) => {
                panic!("hierarchy and scan disagree: {} vs {}",
                    left.is_some(), right.is_some());
            },
        }
    }
}
