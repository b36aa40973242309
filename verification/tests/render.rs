//! End-to-end radiance estimation.

use raytrace::hittable::Hittable;
use raytrace::hittable::aa_rect::{XyRect, XzRect, YzRect};
use raytrace::hittable::hittable_list::HittableList;
use raytrace::hittable::sphere::Sphere;
use raytrace::integrator::ray_color;
use raytrace::material::diffuse_light::DiffuseLight;
use raytrace::material::lambertian::Lambertian;
use raytrace::material::metal::Metal;
use raytrace::material::Material;
use raytrace::ray::Ray;
use raytrace::vec3::Vec3;

fn v(x: i64, y: i64, z: i64) -> Vec3 {
    Vec3 { x, y, z }
}

fn empty_lights() -> Hittable {
    Hittable::List(HittableList::new())
}

#[test]
fn missing_everything_returns_the_background() {
    let mut list = HittableList::new();
    list.add(Hittable::Sphere(Sphere::new(v(0, 0, 0), 1024,
        Material::Lambertian(Lambertian::new_color(v(512, 512, 512))))));
    let world = Hittable::List(list);
    let lights = empty_lights();
    let background = v(700, 800, 1000);
    let miss = Ray { origin: v(0, 0, 10240), direction: v(0, 1024, 0), time: 0 };
    for _ in 0..8 {
        let c = ray_color(&miss, background, &world, &lights, 16);
        assert_eq!(c, background);
    }
}

#[test]
fn exhausted_depth_returns_black() {
    let world = Hittable::Sphere(Sphere::new(v(0, 0, 0), 1024,
        Material::Lambertian(Lambertian::new_color(v(512, 512, 512)))));
    let lights = empty_lights();
    let r = Ray { origin: v(0, 0, 10240), direction: v(0, 0, -1024), time: 0 };
    let c = ray_color(&r, v(100, 100, 100), &world, &lights, 0);
    assert_eq!(c, v(0, 0, 0));
}

#[test]
fn mirrored_box_terminates_with_finite_color() {
    // a fully mirrored closed box: infinite bounce potential, cut off by
    // the depth budget
    let mirror = || Material::Metal(Metal::new(v(900, 900, 900), 0));
    let mut list = HittableList::new();
    let lo = -4096;
    let hi = 4096;
    list.add(Hittable::XyRect(XyRect::new(lo, hi, lo, hi, hi, mirror())));
    list.add(Hittable::XyRect(XyRect::new(lo, hi, lo, hi, lo, mirror())));
    list.add(Hittable::XzRect(XzRect::new(lo, hi, lo, hi, hi, mirror())));
    list.add(Hittable::XzRect(XzRect::new(lo, hi, lo, hi, lo, mirror())));
    list.add(Hittable::YzRect(YzRect::new(lo, hi, lo, hi, hi, mirror())));
    list.add(Hittable::YzRect(YzRect::new(lo, hi, lo, hi, lo, mirror())));
    let world = Hittable::List(list);
    let lights = empty_lights();
    let cap = 0x100_0000_0000i64;
    for k in 0..16 {
        let r = Ray {
            origin: v(0, 0, 0),
            direction: v(300 + 40 * k, 500 - 30 * k, 700),
            time: 0,
        };
        let c = ray_color(&r, v(200, 200, 200), &world, &lights, 50);
        assert!(0 <= c.x && c.x <= cap);
        assert!(0 <= c.y && c.y <= cap);
        assert!(0 <= c.z && c.z <= cap);
    }
}

#[test]
fn pixels_under_the_light_are_brighter() {
    // one large emissive panel (facing down) above a diffuse sphere: with
    // many samples the spot right under the panel gathers more energy than
    // a ray toward the empty side of the scene
    let mut list = HittableList::new();
    list.add(Hittable::FlipFace(raytrace::hittable::flip_face::FlipFace::new(Box::new(
        Hittable::XzRect(XzRect::new(-3072, 3072, -3072, 3072, 6144,
            Material::DiffuseLight(DiffuseLight::new_color(v(8192, 8192, 8192)))))))));
    list.add(Hittable::Sphere(Sphere::new(v(0, -2048, 0), 2048,
        Material::Lambertian(Lambertian::new_color(v(700, 700, 700))))));
    let world = Hittable::List(list);
    let lights = Hittable::XzRect(XzRect::new(-3072, 3072, -3072, 3072, 6144,
        Material::Lambertian(Lambertian::new_color(v(0, 0, 0)))));
    let background = v(0, 0, 0);
    let samples = 1200;
    let mut under: i64 = 0;
    let mut corner: i64 = 0;
    for _ in 0..samples {
        let down = Ray { origin: v(0, 2048, 0), direction: v(0, -1024, 0), time: 0 };
        let c1 = ray_color(&down, background, &world, &lights, 4);
        under += c1.x;
        let aside = Ray { origin: v(0, 2048, 0), direction: v(1020, 0, 40), time: 0 };
        let c2 = ray_color(&aside, background, &world, &lights, 4);
        corner += c2.x;
    }
    assert!(under > corner, "under the light {} should exceed the corner {}", under, corner);
}
