use pathtracer::fixed::{COORD_LIMIT, SCALE};
use pathtracer::ray::Ray;
use pathtracer::scene::Scene;
use pathtracer::sphere::Sphere;
use pathtracer::vec3::Vec3;

fn fix(units: i64, millionths: i64) -> i64 {
    units * SCALE + millionths
}

#[test]
fn dot_product_is_exact() {
    let a = Vec3::new(fix(1, 500_000), 0, 0);
    let b = Vec3::new(fix(2, 0), 0, 0);
    assert_eq!(a.dot(&b), fix(3, 0));
    let c = Vec3::new(fix(1, 0), fix(2, 0), fix(3, 0));
    assert_eq!(c.dot(&c), fix(14, 0));
}

#[test]
fn point_at_parameter_walks_the_ray() {
    let ray = Ray::new(Vec3::new(fix(1, 0), 0, 0), Vec3::new(0, fix(2, 0), 0));
    let p = ray.point_at_parameter(500_000);
    assert_eq!(p, Vec3::new(fix(1, 0), fix(1, 0), 0));
}

#[test]
fn sphere_hit_head_on() {
    let sphere = Sphere::new(Vec3::new(0, 0, -fix(1, 0)), 500_000);
    let ray = Ray::new(Vec3::new(0, 0, 0), Vec3::new(0, 0, -fix(1, 0)));
    let hit = sphere.hit(&ray, 0, COORD_LIMIT).expect("head-on ray must hit");
    assert_eq!(hit.t, 500_000);
    assert_eq!(hit.p, Vec3::new(0, 0, -500_000));
    assert_eq!(hit.normal, Vec3::new(0, 0, fix(1, 0)));
}

#[test]
fn sphere_miss_perpendicular() {
    let sphere = Sphere::new(Vec3::new(0, 0, -fix(1, 0)), 500_000);
    let ray = Ray::new(Vec3::new(0, 0, 0), Vec3::new(0, fix(1, 0), 0));
    assert!(sphere.hit(&ray, 0, COORD_LIMIT).is_none());
}

#[test]
fn sphere_tangent_counts_as_miss() {
    let sphere = Sphere::new(Vec3::new(0, 500_000, -fix(1, 0)), 500_000);
    let ray = Ray::new(Vec3::new(0, 0, 0), Vec3::new(0, 0, -fix(1, 0)));
    assert!(sphere.hit(&ray, 0, COORD_LIMIT).is_none());
}

#[test]
fn sphere_behind_origin_is_missed() {
    let sphere = Sphere::new(Vec3::new(0, 0, fix(2, 0)), 500_000);
    let ray = Ray::new(Vec3::new(0, 0, 0), Vec3::new(0, 0, -fix(1, 0)));
    assert!(sphere.hit(&ray, 0, COORD_LIMIT).is_none());
}

#[test]
fn sphere_far_root_when_near_root_excluded() {
    let sphere = Sphere::new(Vec3::new(0, 0, -fix(1, 0)), 500_000);
    let ray = Ray::new(Vec3::new(0, 0, 0), Vec3::new(0, 0, -fix(1, 0)));
    let hit = sphere.hit(&ray, 600_000, COORD_LIMIT).expect("far root inside interval");
    assert_eq!(hit.t, fix(1, 500_000));
    assert_eq!(hit.p, Vec3::new(0, 0, -fix(1, 500_000)));
    assert_eq!(hit.normal, Vec3::new(0, 0, -fix(1, 0)));
}

#[test]
fn sphere_narrow_interval_excludes_hit() {
    let sphere = Sphere::new(Vec3::new(0, 0, -fix(1, 0)), 500_000);
    let ray = Ray::new(Vec3::new(0, 0, 0), Vec3::new(0, 0, -fix(1, 0)));
    assert!(sphere.hit(&ray, 0, 400_000).is_none());
}

#[test]
fn sphere_far_root_reported_even_past_the_volume() {
    // The near root lands exactly on t_min and is excluded by the
    // strict policy; the far root is strictly inside the interval and
    // must be reported even though its hit point lies past the
    // coordinate volume.
    let sphere = Sphere::new(Vec3::new(500_000_000_000, 0, 0), 100_000_000_000);
    let ray = Ray::new(Vec3::new(0, 0, 0), Vec3::new(2_000_000, 0, 0));
    let hit = sphere
        .hit(&ray, 200_000_000_000, 500_000_000_000)
        .expect("far root lies strictly inside the interval");
    assert_eq!(hit.t, 300_000_000_000);
    assert_eq!(hit.p, Vec3::new(600_000_000_000, 0, 0));
    assert_eq!(hit.normal, Vec3::new(1_000_000, 0, 0));
}

#[test]
fn scene_reports_nearest_hit_in_either_order() {
    let near = Sphere::new(Vec3::new(0, 0, -fix(2, 0)), fix(1, 0));
    let far = Sphere::new(Vec3::new(0, 0, -fix(3, 0)), fix(1, 0));
    let ray = Ray::new(Vec3::new(0, 0, 0), Vec3::new(0, 0, -fix(1, 0)));

    let near_first = Scene::new(vec![
        Sphere::new(near.center, near.radius),
        Sphere::new(far.center, far.radius),
    ]);
    let far_first = Scene::new(vec![
        Sphere::new(far.center, far.radius),
        Sphere::new(near.center, near.radius),
    ]);

    let a = near_first.hit(&ray, 0, COORD_LIMIT).expect("scene must hit");
    let b = far_first.hit(&ray, 0, COORD_LIMIT).expect("scene must hit");
    assert_eq!(a.t, fix(1, 0));
    assert_eq!(b.t, fix(1, 0));
    assert_eq!(a.p, b.p);
    assert_eq!(a.normal, b.normal);
    assert_eq!(a.normal, Vec3::new(0, 0, fix(1, 0)));
}

#[test]
fn empty_scene_never_hits() {
    let scene = Scene::new(vec![]);
    let ray = Ray::new(Vec3::new(0, 0, 0), Vec3::new(0, 0, -fix(1, 0)));
    assert!(scene.hit(&ray, 0, COORD_LIMIT).is_none());
}

#[test]
fn well_formed_checks_reject_bad_values() {
    assert!(Sphere::new(Vec3::new(0, 0, 0), fix(1, 0)).well_formed());
    assert!(!Sphere::new(Vec3::new(0, 0, 0), 0).well_formed());
    assert!(!Sphere::new(Vec3::new(0, 0, 0), -fix(1, 0)).well_formed());
    assert!(!Sphere::new(Vec3::new(COORD_LIMIT + 1, 0, 0), fix(1, 0)).well_formed());
    assert!(Ray::new(Vec3::new(0, 0, 0), Vec3::new(0, 0, fix(1, 0))).well_formed());
    assert!(!Ray::new(Vec3::new(0, 0, 0), Vec3::new(0, 0, 0)).well_formed());
}
