//! Densities, scattering and the procedural generators.

use raytrace::hittable::Hittable;
use raytrace::hittable::aa_rect::XzRect;
use raytrace::hittable::sphere::Sphere;
use raytrace::hittable::HitRecord;
use raytrace::material::dielectric::Dielectric;
use raytrace::material::lambertian::Lambertian;
use raytrace::material::{Material, ScatterType};
use raytrace::pdf::Pdf;
use raytrace::pdf::cosine::CosinePdf;
use raytrace::pdf::hittable::HittablePdf;
use raytrace::pdf::mixture::MixturePdf;
use raytrace::perlin::perlin_generate_perm;
use raytrace::ray::Ray;
use raytrace::rng::{random_unit_vector, random_vec_range};
use raytrace::texture::image::ImageTexture;
use raytrace::texture::checker::CheckerTexture;
use raytrace::vec3::Vec3;

fn v(x: i64, y: i64, z: i64) -> Vec3 {
    Vec3 { x, y, z }
}

fn gray() -> Material {
    Material::Lambertian(Lambertian::new_color(v(512, 512, 512)))
}

#[test]
fn mixture_density_of_generated_directions_is_nonnegative() {
    let light = Hittable::XzRect(XzRect::new(-2048, 2048, -2048, 2048, 8192, gray()));
    let cosine = CosinePdf::new(&v(0, 1024, 0));
    let shape = HittablePdf::new(&light, v(0, 0, 0));
    let mix = MixturePdf::new(Pdf::Shape(shape), Pdf::Cosine(cosine));
    for _ in 0..200 {
        let d = mix.generate();
        let val = mix.value(d);
        assert!(val >= 0);
    }
}

#[test]
fn cosine_density_integrates_to_about_one() {
    // Monte Carlo estimate of the integral over the sphere of directions:
    // the average density times the sphere's solid angle must come back
    // near one (every quantity carries a factor of 1024).
    let cosine = CosinePdf::new(&v(0, 1024, 0));
    let samples = 20000i64;
    let mut acc: i64 = 0;
    for _ in 0..samples {
        let d = random_unit_vector();
        acc += cosine.value(d);
    }
    let avg = acc / samples;
    // exact expectation is 1024 / (4 * pi) which is about 81
    assert!(avg >= 40, "average density {} is far too small", avg);
    assert!(avg <= 140, "average density {} is far too large", avg);
}

#[test]
fn dielectric_does_not_bend_matched_normal_incidence() {
    let glass = Material::Dielectric(Dielectric::new(1024));
    let ray = Ray { origin: v(0, 0, 10240), direction: v(0, 0, -1024), time: 7 };
    let rec = HitRecord::new(v(0, 0, 1024), v(0, 0, 1024), 9, 0, 0, &ray, &glass);
    let sr = glass.scatter(&ray, &rec).expect("glass always answers");
    assert_eq!(sr.attenuation, v(1024, 1024, 1024));
    match sr.scattered {
        ScatterType::Specular(out) => {
            assert_eq!(out.direction, v(0, 0, -1024));
            assert_eq!(out.time, 7);
        },
        ScatterType::Diffuse(_) => panic!("glass is specular"),
    }
}

#[test]
fn sphere_density_is_positive_only_toward_the_sphere() {
    let s = Sphere::new(v(0, 0, 8192), 2048, gray());
    let toward = s.pdf_value(v(0, 0, 0), v(0, 0, 1024));
    let away = s.pdf_value(v(0, 0, 0), v(0, 0, -1024));
    assert!(toward > 0);
    assert_eq!(away, 0);
}

#[test]
fn sphere_density_matches_the_solid_angle_formula() {
    // distance 8 units, radius 2: cos_max = sqrt(1 - 1/16) scaled to 991,
    // solid angle 6434 * 33 / 1024 = 207, density 1048576 / 207 = 5065
    let s = Sphere::new(v(0, 0, 8192), 2048, gray());
    let d = s.pdf_value(v(0, 0, 0), v(0, 0, 1024));
    assert_eq!(d, 5065);
}

#[test]
fn rect_density_matches_the_area_formula() {
    // a 2x2 panel 4 units overhead seen straight on: distance^2 = 16,
    // cos = 1, area = 4, density = 4 in fixed point
    let rect = XzRect::new(-1024, 1024, -1024, 1024, 4096, gray());
    let d = rect.pdf_value(v(0, 0, 0), v(0, 1024, 0));
    assert_eq!(d, 4);
}

#[test]
fn permutation_tables_cover_every_byte() {
    let p = perlin_generate_perm();
    assert_eq!(p.len(), 256);
    let mut seen = [false; 256];
    for &b in p.iter() {
        seen[b as usize] = true;
    }
    assert!(seen.iter().all(|&s| s));
}

#[test]
fn random_draws_stay_in_range_and_vary() {
    let mut distinct = false;
    let mut first: Option<i64> = None;
    for _ in 0..64 {
        let p = random_vec_range(-1000, 1000);
        assert!(p.x >= -1000 && p.x < 1000);
        assert!(p.y >= -1000 && p.y < 1000);
        assert!(p.z >= -1000 && p.z < 1000);
        match first {
            None => first = Some(p.x),
            Some(f) => {
                if p.x != f {
                    distinct = true;
                }
            },
        }
    }
    assert!(distinct, "draws never varied");
}

#[test]
fn image_texture_reads_the_right_texel() {
    // a 2x1 image: a pure red texel then a pure blue one
    let data = vec![255u8, 0, 0, 0, 0, 255];
    let img = ImageTexture::new(data, 2, 1);
    let left = img.value(0, 512);
    let right = img.value(1024, 512);
    assert_eq!(left, v(1024, 0, 0));
    assert_eq!(right, v(0, 0, 1024));
}

#[test]
fn checker_cells_alternate() {
    let here = CheckerTexture::select_odd(&v(160, 160, 160));
    let neighbor = CheckerTexture::select_odd(&v(160 + 322, 160, 160));
    assert_ne!(here, neighbor);
}

#[test]
fn checker_texture_picks_the_cell_color() {
    let tex = raytrace::texture::Texture::Checker(Box::new(CheckerTexture::new_color(
        v(1000, 0, 0), v(0, 1000, 0))));
    let a = tex.value(0, 0, &v(160, 160, 160));
    let b = tex.value(0, 0, &v(160 + 322, 160, 160));
    assert_ne!(a, b);
    assert!(a == v(1000, 0, 0) || a == v(0, 1000, 0));
    assert!(b == v(1000, 0, 0) || b == v(0, 1000, 0));
}
