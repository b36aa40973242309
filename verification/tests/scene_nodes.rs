//! The remaining node kinds: motion blur, composite boxes, rotation,
//! participating media, and the procedural textures.

use raytrace::hittable::box_obj::BoxObj;
use raytrace::hittable::medium::constant::ConstantMedium;
use raytrace::hittable::moving_sphere::MovingSphere;
use raytrace::hittable::rotate::RotateY;
use raytrace::hittable::sphere::Sphere;
use raytrace::hittable::Hittable;
use raytrace::material::lambertian::Lambertian;
use raytrace::material::Material;
use raytrace::perlin::Perlin;
use raytrace::ray::Ray;
use raytrace::texture::noise::NoiseTexture;
use raytrace::texture::Texture;
use raytrace::vec3::Vec3;

fn v(x: i64, y: i64, z: i64) -> Vec3 {
    Vec3 { x, y, z }
}

fn gray() -> Material {
    Material::Lambertian(Lambertian::new_color(v(512, 512, 512)))
}

#[test]
fn moving_sphere_is_hit_where_its_time_puts_it() {
    // keyframes four units apart; at the first keyframe time the sphere
    // still sits at the first center
    let s = MovingSphere::new(v(0, 0, 0), v(4096, 0, 0), 0, 1024, 1024, gray());
    let early = Ray { origin: v(0, 0, 10240), direction: v(0, 0, -1024), time: 0 };
    let rec = s.hit(&early, 1, 1 << 29).expect("the early ray hits the first keyframe");
    assert_eq!(rec.p, v(0, 0, 1024));
    let late = Ray { origin: v(4096, 0, 10240), direction: v(0, 0, -1024), time: 1024 };
    let rec2 = s.hit(&late, 1, 1 << 29).expect("the late ray hits the second keyframe");
    assert_eq!(rec2.p, v(4096, 0, 1024));
    let wrong_time = Ray { origin: v(4096, 0, 10240), direction: v(0, 0, -1024), time: 0 };
    assert!(s.hit(&wrong_time, 1, 1 << 29).is_none());
}

#[test]
fn composite_box_is_hit_on_each_face() {
    let b = Hittable::BoxObj(BoxObj::new(v(-1024, -1024, -1024), v(1024, 1024, 1024), gray()));
    let from_front = Ray { origin: v(0, 0, 10240), direction: v(0, 0, -1024), time: 0 };
    let rec = b.hit(&from_front, 1, 1 << 29).expect("the box faces the ray");
    assert_eq!(rec.p.z, 1024);
    let from_left = Ray { origin: v(-10240, 0, 0), direction: v(1024, 0, 0), time: 0 };
    let rec2 = b.hit(&from_left, 1, 1 << 29).expect("the box faces the ray");
    assert_eq!(rec2.p.x, -1024);
    let miss = Ray { origin: v(0, 10240, 10240), direction: v(0, 0, -1024), time: 0 };
    assert!(b.hit(&miss, 1, 1 << 29).is_none());
}

#[test]
fn quarter_turn_moves_a_box_between_axes() {
    // a box far out on the x axis, spun a quarter turn about y, is found
    // on the z axis instead
    let b = Hittable::BoxObj(BoxObj::new(v(4096, -512, -512), v(5120, 512, 512), gray()));
    let spun = Hittable::RotateY(RotateY::new(Box::new(b), 90 * 1024));
    let along_x = Ray { origin: v(10240, 0, 0), direction: v(-1024, 0, 0), time: 0 };
    assert!(spun.hit(&along_x, 1, 1 << 29).is_none());
    let along_z = Ray { origin: v(0, 0, 10240), direction: v(0, 0, -1024), time: 0 };
    assert!(spun.hit(&along_z, 1, 1 << 29).is_some());
}

#[test]
fn medium_scatters_inside_its_boundary_or_not_at_all() {
    let boundary = Hittable::Sphere(Sphere::new(v(0, 0, 0), 4096, gray()));
    let fog = Hittable::Medium(ConstantMedium::new_color(Box::new(boundary), 8192,
        v(512, 512, 512)));
    let through = Ray { origin: v(0, 0, 10240), direction: v(0, 0, -1024), time: 0 };
    let mut scattered = 0usize;
    for _ in 0..200 {
        if let Some(rec) = fog.hit(&through, 1, 1 << 29) {
            // any scattering event lies inside the boundary sphere
            let d2 = rec.p.x * rec.p.x + rec.p.y * rec.p.y + rec.p.z * rec.p.z;
            assert!(d2 <= 4096 * 4096);
            scattered += 1;
        }
    }
    assert!(scattered > 0, "a dense fog never scattered anything");
    let miss = Ray { origin: v(0, 10240, 10240), direction: v(0, 0, -1024), time: 0 };
    assert!(fog.hit(&miss, 1, 1 << 29).is_none());
}

#[test]
fn gradient_noise_stays_bounded() {
    let p = Perlin::new();
    for k in 0..50 {
        let x = v(911 * k, -377 * k, 1765 * k);
        let n = p.noise(x);
        assert!(-24 * 1024 <= n && n <= 24 * 1024);
    }
    let t = p.turb(v(300, 700, -900), 7);
    assert!(0 <= t && t <= 48 * 1024);
}

#[test]
fn marble_texture_yields_gray_levels_in_range() {
    let tex = Texture::Noise(NoiseTexture::new(4));
    for k in 0..20 {
        let c = tex.value(0, 0, &v(513 * k, 81 * k, -212 * k));
        assert!(0 <= c.x && c.x <= 1024);
        assert_eq!(c.x, c.y);
        assert_eq!(c.y, c.z);
    }
}
