use pathtracer::camera::Camera;
use pathtracer::color::color;
use pathtracer::fixed::SCALE;
use pathtracer::ray::Ray;
use pathtracer::render::{quantize, render_image, render_image_centered};
use pathtracer::rng::{random_in_unit_sphere, RandomSource};
use pathtracer::scene::Scene;
use pathtracer::sphere::Sphere;
use pathtracer::vec3::Vec3;

fn fix(units: i64, millionths: i64) -> i64 {
    units * SCALE + millionths
}

#[test]
fn sky_straight_up_is_sky_blue() {
    let scene = Scene::new(vec![]);
    let mut rng = RandomSource::from_seed(1);
    let ray = Ray::new(Vec3::new(0, 0, 0), Vec3::new(0, fix(1, 0), 0));
    let c = color(&ray, &scene, &mut rng, 50);
    assert_eq!(c, Vec3::new(500_000, 700_000, fix(1, 0)));
}

#[test]
fn sky_straight_down_is_white() {
    let scene = Scene::new(vec![]);
    let mut rng = RandomSource::from_seed(1);
    let ray = Ray::new(Vec3::new(0, 0, 0), Vec3::new(0, -fix(1, 0), 0));
    let c = color(&ray, &scene, &mut rng, 50);
    assert_eq!(c, Vec3::new(fix(1, 0), fix(1, 0), fix(1, 0)));
}

#[test]
fn sky_level_ray_is_midway() {
    let scene = Scene::new(vec![]);
    let mut rng = RandomSource::from_seed(1);
    let ray = Ray::new(Vec3::new(0, 0, 0), Vec3::new(-250_000, 0, -fix(1, 0)));
    let c = color(&ray, &scene, &mut rng, 50);
    assert_eq!(c, Vec3::new(750_000, 850_000, fix(1, 0)));
}

#[test]
fn unit_vector_of_pythagorean_direction() {
    let v = Vec3::new(fix(3, 0), fix(4, 0), 0);
    assert_eq!(v.unit(), Vec3::new(600_000, 800_000, 0));
    let w = Vec3::new(0, 0, -fix(2, 0));
    assert_eq!(w.unit(), Vec3::new(0, 0, -fix(1, 0)));
}

#[test]
fn hit_color_keeps_at_most_half_the_energy() {
    let scene = Scene::new(vec![Sphere::new(Vec3::new(0, 0, -fix(1, 0)), 500_000)]);
    let mut rng = RandomSource::from_seed(9);
    let ray = Ray::new(Vec3::new(0, 0, 0), Vec3::new(0, 0, -fix(1, 0)));
    for _ in 0..20 {
        let c = color(&ray, &scene, &mut rng, 50);
        assert!(0 <= c.x && c.x <= 500_000);
        assert!(0 <= c.y && c.y <= 500_000);
        assert!(0 <= c.z && c.z <= 500_000);
    }
}

#[test]
fn quantize_matches_hand_computed_values() {
    assert_eq!(quantize(0), 0);
    assert_eq!(quantize(500_000), 127);
    assert_eq!(quantize(700_000), 179);
    assert_eq!(quantize(fix(1, 0)), 255);
    assert_eq!(quantize(-5), 0);
    assert_eq!(quantize(fix(2, 0)), 255);
}

#[test]
fn unit_ball_sampler_stays_inside_the_ball() {
    let mut rng = RandomSource::from_seed(1234);
    let mut inner: u32 = 0;
    let mut sum_x: i64 = 0;
    let mut sum_y: i64 = 0;
    let mut sum_z: i64 = 0;
    let trials: i64 = 3000;
    for _ in 0..trials {
        let p = random_in_unit_sphere(&mut rng);
        let sq = p.dot(&p);
        assert!(sq < SCALE, "sampled point must lie strictly inside the unit ball");
        if sq < SCALE / 4 {
            inner += 1;
        }
        sum_x += p.x;
        sum_y += p.y;
        sum_z += p.z;
    }
    // Roughly an eighth of the samples fall inside half the radius.
    assert!(300 <= inner && inner <= 460, "inner-ball count {} is implausible", inner);
    // The mean of each coordinate is near the center.
    assert!((sum_x / trials).abs() < 50_000);
    assert!((sum_y / trials).abs() < 50_000);
    assert!((sum_z / trials).abs() < 50_000);
}

fn demo_scene() -> Scene {
    Scene::new(vec![
        Sphere::new(Vec3::new(0, 0, -fix(1, 0)), 500_000),
        Sphere::new(Vec3::new(0, -fix(100, 500_000), -fix(1, 0)), fix(100, 0)),
    ])
}

fn demo_camera() -> Camera {
    Camera::new(
        Vec3::new(0, 0, 0),
        Vec3::new(-fix(2, 0), -fix(1, 0), -fix(1, 0)),
        Vec3::new(fix(4, 0), 0, 0),
        Vec3::new(0, fix(2, 0), 0),
    )
}

#[test]
fn seeded_renders_are_byte_identical() {
    let scene = demo_scene();
    let cam = demo_camera();
    let mut rng_a = RandomSource::from_seed(42);
    let mut rng_b = RandomSource::from_seed(42);
    let a = render_image(&scene, &cam, 4, 4, 3, &mut rng_a);
    let b = render_image(&scene, &cam, 4, 4, 3, &mut rng_b);
    assert_eq!(a, b);
}

#[test]
fn render_has_one_byte_triple_per_pixel() {
    let scene = demo_scene();
    let cam = demo_camera();
    let mut rng = RandomSource::from_seed(5);
    let img = render_image(&scene, &cam, 3, 2, 2, &mut rng);
    assert_eq!(img.len(), 18);
}

fn unit_viewport_camera() -> Camera {
    Camera::new(
        Vec3::new(0, 0, 0),
        Vec3::new(-500_000, -500_000, -fix(1, 0)),
        Vec3::new(fix(1, 0), 0, 0),
        Vec3::new(0, fix(1, 0), 0),
    )
}

#[test]
fn jittered_empty_scene_is_sky_not_black() {
    let scene = Scene::new(vec![]);
    let cam = unit_viewport_camera();
    let mut rng = RandomSource::from_seed(11);
    let img = render_image(&scene, &cam, 2, 2, 3, &mut rng);
    assert_eq!(img.len(), 12);
    for px in img.chunks(3) {
        // Sky colors keep the red channel at or above one half, the
        // green at or above seven tenths, and the blue at exactly one.
        assert!(px[0] >= 127);
        assert!(px[1] >= 179);
        assert_eq!(px[2], 255);
    }
}

#[test]
fn empty_scene_two_pixels_show_the_sky_gradient() {
    let scene = Scene::new(vec![]);
    let cam = unit_viewport_camera();
    let mut rng = RandomSource::from_seed(3);
    let img = render_image_centered(&scene, &cam, 2, 1, &mut rng);
    assert_eq!(img, vec![191, 217, 255, 191, 217, 255]);
}

#[test]
fn empty_scene_rows_run_top_to_bottom() {
    let scene = Scene::new(vec![]);
    let cam = unit_viewport_camera();
    let mut rng = RandomSource::from_seed(3);
    let img = render_image_centered(&scene, &cam, 1, 2, &mut rng);
    // The top output row looks upward and is bluer than the bottom one.
    assert_eq!(img, vec![176, 208, 255, 207, 226, 255]);
}
