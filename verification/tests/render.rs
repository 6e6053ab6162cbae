//! Materials, textures, noise and end-to-end renders.

use raytracer::camera::Camera;
use raytracer::fx::FX_ONE;
use raytracer::hit::{HitRecord, Hittable};
use raytracer::hit_list::HitList;
use raytracer::material::{Dielectric, DiffuseLight, Lambertian, Material, Metal};
use raytracer::perlin::Perlin;
use raytracer::ray::Ray;
use raytracer::rt::rng_from_seed;
use raytracer::sphere::Sphere;
use raytracer::texture::{CheckerTexture, ImageTexture, NoiseTexture, SolidColor, Texture};
use raytracer::vec3::Vec3;

const S: i64 = FX_ONE;

fn surface_rec(normal: Vec3, front: bool) -> HitRecord {
    let mut rec = HitRecord::new(Vec3::zero(), normal, S, front, Some(0));
    rec.u = 0;
    rec.v = 0;
    rec
}

#[test]
fn lambertian_scatter_never_near_zero() {
    let mat = Material::Lambertian(Lambertian::new(Vec3::new(S / 2, S / 2, S / 2)));
    let rec = surface_rec(Vec3::new(0, 0, S), true);
    let ray_in = Ray::new(Vec3::new(0, 0, S), Vec3::new(0, 0, -S), 7);
    let mut rng = rng_from_seed(11);
    let mut hemisphere = 0;
    for _ in 0..200 {
        let mut att = Vec3::zero();
        let mut out = Ray::new(Vec3::zero(), Vec3::zero(), 0);
        assert!(mat.scatter(&ray_in, &rec, &mut att, &mut out, &mut rng));
        assert!(!(out.dir.x == 0 && out.dir.y == 0 && out.dir.z == 0));
        assert_eq!(out.time, 7);
        assert_eq!((att.x, att.y, att.z), (S / 2, S / 2, S / 2));
        if out.dir.dot(&rec.normal) >= 0 {
            hemisphere += 1;
        }
    }
    assert!(hemisphere >= 190, "diffuse hemisphere property: {hemisphere}");
}

#[test]
fn metal_fuzz_is_clamped() {
    let m = Metal::new(Vec3::new(S, S, S), 3 * S);
    assert_eq!(m.fuzz, S);
    let m2 = Metal::new(Vec3::new(S, S, S), S / 4);
    assert_eq!(m2.fuzz, S / 4);
    let m3 = Metal::new(Vec3::new(S, S, S), -S);
    assert_eq!(m3.fuzz, 0);
}

#[test]
fn metal_mirror_reflects_up() {
    let mat = Material::Metal(Metal::new(Vec3::new(S, S, S), 0));
    let rec = surface_rec(Vec3::new(0, S, 0), true);
    let ray_in = Ray::new(Vec3::zero(), Vec3::new(S, -S, 0), 0);
    let mut rng = rng_from_seed(3);
    let mut att = Vec3::zero();
    let mut out = Ray::new(Vec3::zero(), Vec3::zero(), 0);
    assert!(mat.scatter(&ray_in, &rec, &mut att, &mut out, &mut rng));
    assert!(out.dir.y > 0);
}

#[test]
fn schlick_reflectance_exact_values() {
    // ratio 1.5: r0 = ((1 - 1.5) / (1 + 1.5))^2 = 0.04.
    let r_normal = Dielectric::reflectance(S, 98304);
    assert_eq!(r_normal, 2621);
    // at grazing incidence the whole polynomial collapses to one.
    let r_grazing = Dielectric::reflectance(0, 98304);
    assert_eq!(r_grazing, S);
}

#[test]
fn dielectric_normal_incidence_mostly_refracts() {
    let mat = Material::Dielectric(Dielectric::new(98304));
    let rec = surface_rec(Vec3::new(0, 0, S), true);
    let ray_in = Ray::new(Vec3::new(0, 0, S), Vec3::new(0, 0, -S), 0);
    let mut rng = rng_from_seed(5);
    let mut refracted = 0;
    for _ in 0..200 {
        let mut att = Vec3::zero();
        let mut out = Ray::new(Vec3::zero(), Vec3::zero(), 0);
        assert!(mat.scatter(&ray_in, &rec, &mut att, &mut out, &mut rng));
        assert_eq!((att.x, att.y, att.z), (S, S, S));
        if out.dir.z < 0 {
            refracted += 1;
        }
    }
    // the Schlick weight at normal incidence is 0.04, so reflection is rare.
    assert!(refracted >= 180, "refracted {refracted} of 200");
}

#[test]
fn dielectric_total_internal_reflection_forced() {
    // leaving a dense medium at a steep grazing angle: always reflect.
    let mat = Material::Dielectric(Dielectric::new(98304));
    let rec = surface_rec(Vec3::new(0, 0, S), false);
    let ray_in = Ray::new(Vec3::zero(), Vec3::new(60000, 0, -26000), 0);
    let mut rng = rng_from_seed(5);
    for _ in 0..50 {
        let mut att = Vec3::zero();
        let mut out = Ray::new(Vec3::zero(), Vec3::zero(), 0);
        assert!(mat.scatter(&ray_in, &rec, &mut att, &mut out, &mut rng));
        assert!(out.dir.z > 0, "total internal reflection must reflect");
    }
}

#[test]
fn diffuse_light_emits_and_does_not_scatter() {
    let mat = Material::DiffuseLight(DiffuseLight::new_by_color(Vec3::new(4 * S, 4 * S, 4 * S)));
    let rec = surface_rec(Vec3::new(0, 0, S), true);
    let ray_in = Ray::new(Vec3::zero(), Vec3::new(0, 0, -S), 0);
    let mut rng = rng_from_seed(1);
    let mut att = Vec3::new(9, 9, 9);
    let mut out = Ray::new(Vec3::zero(), Vec3::zero(), 0);
    assert!(!mat.scatter(&ray_in, &rec, &mut att, &mut out, &mut rng));
    assert_eq!((att.x, att.y, att.z), (9, 9, 9));
    let e = mat.emitted(0, 0, Vec3::zero());
    assert_eq!((e.x, e.y, e.z), (4 * S, 4 * S, 4 * S));
    let lamb = Material::Lambertian(Lambertian::new(Vec3::new(S, 0, 0)));
    let z = lamb.emitted(0, 0, Vec3::zero());
    assert_eq!((z.x, z.y, z.z), (0, 0, 0));
}

#[test]
fn solid_and_checker_textures() {
    let solid = Texture::Solid(SolidColor::new(Vec3::new(S, 0, 0)));
    let v = solid.value(0, 0, Vec3::zero());
    assert_eq!((v.x, v.y, v.z), (S, 0, 0));
    let checker = Texture::Checker(CheckerTexture::new_by_color(
        S,
        Vec3::new(S, 0, 0),
        Vec3::new(0, S, 0),
    ));
    // an even cell sum picks the first colour, the neighbouring cell the second.
    let a = checker.value(0, 0, Vec3::new(S / 2, S / 2, S / 2));
    let b = checker.value(0, 0, Vec3::new(3 * S / 2, S / 2, S / 2));
    assert_eq!((a.x, a.y), (S, 0));
    assert_eq!((b.x, b.y), (0, S));
}

#[test]
fn image_texture_samples_pixels() {
    // a 2x1 image: left red, right blue; rows from the top.
    let tex = Texture::Image(ImageTexture::new(
        vec![Vec3::new(S, 0, 0), Vec3::new(0, 0, S)],
        2,
        1,
    ));
    let left = tex.value(0, 0, Vec3::zero());
    let right = tex.value(S, 0, Vec3::zero());
    assert_eq!((left.x, left.z), (S, 0));
    assert_eq!((right.x, right.z), (0, S));
    let empty = Texture::Image(ImageTexture::new(Vec::new(), 0, 0));
    let fallback = empty.value(0, 0, Vec3::zero());
    assert_eq!((fallback.x, fallback.y, fallback.z), (0, S, 0));
}

#[test]
fn perlin_vanishes_on_the_lattice_and_repeats_per_seed() {
    let mut rng = rng_from_seed(9);
    let p = Perlin::new(&mut rng);
    assert_eq!(p.noise(Vec3::zero()), 0);
    assert_eq!(p.noise(Vec3::new(3 * S, -2 * S, 7 * S)), 0);
    assert_eq!(p.turb(Vec3::new(S / 3, S / 5, S / 7), 0), 0);
    let off = p.noise(Vec3::new(S / 2, S / 3, S / 4));
    let mut rng2 = rng_from_seed(9);
    let p2 = Perlin::new(&mut rng2);
    assert_eq!(off, p2.noise(Vec3::new(S / 2, S / 3, S / 4)));
    let t = p.turb(Vec3::new(S / 2, S / 3, S / 4), 7);
    assert!(t >= 0);
}

#[test]
fn noise_texture_is_gray_in_band() {
    let mut rng = rng_from_seed(2);
    let tex = Texture::Noise(NoiseTexture::new_by_scale(4 * S, &mut rng));
    let v = tex.value(0, 0, Vec3::new(S / 2, S / 5, S / 9));
    assert_eq!(v.x, v.y);
    assert_eq!(v.y, v.z);
    assert!(v.x >= 0 && v.x <= S);
}

#[test]
fn perlin_permutation_tables_are_index_ranged() {
    let mut rng = rng_from_seed(4);
    let p = Perlin::generate_perm(&mut rng);
    assert_eq!(p.len(), 256);
    assert!(p.iter().all(|&v| (0..256).contains(&v)));
    let mut q: Vec<i32> = (0..256).collect();
    Perlin::permute(&mut q, &mut rng);
    assert_eq!(q.len(), 256);
    assert!(q.iter().all(|&v| (0..256).contains(&v)));
}

#[test]
fn checker_inverse_scale_and_solid_channel_order() {
    let c = CheckerTexture::new_by_color(2 * S, Vec3::zero(), Vec3::zero());
    assert_eq!(c.inv_scale, S / 2);
    let sc = SolidColor::new(Vec3::zero());
    let sc2 = sc.new_by_color(10, 20, 30);
    // the second argument fills the blue channel, the third the green.
    assert_eq!((sc2.albedo.x, sc2.albedo.y, sc2.albedo.z), (10, 30, 20));
}

#[test]
fn defocus_disk_sample_stays_near_center() {
    let mut cam = Camera::init(20, S);
    cam.defocus_angle = S / 10;
    cam.focus_dist = 10 * S;
    cam.update();
    let mut rng = rng_from_seed(8);
    let p = cam.defocus_disk_sample(&mut rng);
    let d = p.sub(&cam.center).length();
    // the disk radius is focus * tan(half angle), far below one unit.
    assert!(d < S, "disk sample strayed {d}");
}

#[test]
fn ray_color_depth_zero_is_black() {
    let cam = Camera::init(20, S);
    let mut world = HitList::new(Vec::new());
    world.add(Hittable::Sphere(Sphere::new(Vec3::new(0, 0, -2 * S), S, Some(0))));
    let world = Hittable::List(world);
    let mats = vec![Material::DiffuseLight(DiffuseLight::new_by_color(Vec3::new(S, S, S)))];
    let mut rng = rng_from_seed(0);
    let ray = Ray::new(Vec3::zero(), Vec3::new(0, 0, -S), 0);
    let c = cam.ray_color(ray, &world, &mats, 0, &mut rng);
    assert_eq!((c.x, c.y, c.z), (0, 0, 0));
}

#[test]
fn ray_color_miss_returns_background() {
    let mut cam = Camera::init(20, S);
    cam.background = Vec3::new(100, 200, 300);
    cam.update();
    let world = Hittable::List(HitList::new(Vec::new()));
    let mats: Vec<Material> = Vec::new();
    let mut rng = rng_from_seed(0);
    let ray = Ray::new(Vec3::zero(), Vec3::new(0, 0, -S), 0);
    let c = cam.ray_color(ray, &world, &mats, 5, &mut rng);
    assert_eq!((c.x, c.y, c.z), (100, 200, 300));
}

#[test]
fn camera_init_derives_height_from_ratio() {
    // a 16:9 ratio over 100 columns gives 56 rows, rounded down.
    let ratio = 16 * S / 9;
    let cam = Camera::init(100, ratio);
    assert_eq!(cam.width, 100);
    assert_eq!(cam.height, 56);
    assert_eq!(cam.samples_per_pixel, 100);
    assert_eq!(cam.max_depth, 50);
}

fn ground_and_red_scene() -> (Hittable, Vec<Material>) {
    let mut world = HitList::new(Vec::new());
    world.add(Hittable::Sphere(Sphere::new(
        Vec3::new(0, -1000 * S, 0),
        1000 * S,
        Some(0),
    )));
    world.add(Hittable::Sphere(Sphere::new(Vec3::new(0, S, 0), S, Some(1))));
    let mats = vec![
        Material::Lambertian(Lambertian::new(Vec3::new(S / 2, S / 2, S / 2))),
        Material::Lambertian(Lambertian::new(Vec3::new(58982, 6553, 6553))),
    ];
    (Hittable::List(world), mats)
}

fn render_scene(seed: u64) -> Vec<u8> {
    let (world, mats) = ground_and_red_scene();
    let mut cam = Camera::init(20, S);
    cam.samples_per_pixel = 4;
    cam.max_depth = 5;
    cam.lookfrom = Vec3::new(0, S, 5 * S);
    cam.lookat = Vec3::new(0, S, 0);
    cam.background = Vec3::new(45875, 52428, S);
    let mut img = vec![0u8; 20 * 20 * 3];
    let mut rng = rng_from_seed(seed);
    cam.render(&world, &mats, &mut img, &mut rng);
    img
}

#[test]
fn end_to_end_ground_and_red_sphere() {
    let img = render_scene(1234);
    // the top row sees the sky, so it is not black.
    let top_nonblack = (0..20).any(|i| {
        let p = &img[i * 3..i * 3 + 3];
        p[0] > 0 || p[1] > 0 || p[2] > 0
    });
    assert!(top_nonblack, "top row should show the background");
    // somewhere the red sphere dominates.
    let reddish = (0..400).any(|k| {
        let p = &img[k * 3..k * 3 + 3];
        p[0] > p[2].saturating_add(20) && p[0] > 60
    });
    assert!(reddish, "the red sphere should tint some pixels");
    // bit-for-bit reproducible for a fixed seed stream.
    let again = render_scene(1234);
    assert_eq!(img, again);
}
