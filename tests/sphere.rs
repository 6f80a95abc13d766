use rustrace::interaction::Interaction;
use rustrace::primitive::Primitive;
use rustrace::ray::Ray;
use rustrace::sphere::Sphere;
use rustrace::vector::{Point3, Vec3};

fn unit_sphere() -> Sphere {
    let center = Point3::new(0, 0, 0);
    let radius = 1;
    Sphere::new(center, radius)
}

fn assert_same_hit(found: &Interaction, expected: &Interaction) {
    assert!(found == expected);
    assert_eq!(found.t, expected.t);
    assert_eq!(found.p, expected.p);
    assert_eq!(found.n, expected.n);
    assert_eq!(found.wo, expected.wo);
}

#[test]
fn sphere_new() {
    let center = Point3::new(1, 2, 3);
    let radius = 5;
    let sphere = Sphere::new(center, radius);
    assert_eq!(sphere, Sphere { center, radius });
}

#[test]
fn test_no_hit() {
    let sphere = unit_sphere();
    let ray = Ray::new(Point3::new(2, 0, 0), Vec3::new(0, 1, 0), 0, 100);

    let interaction = sphere.test(&ray);
    assert!(interaction.is_none());
}

#[test]
fn test_one_hit() {
    let sphere = unit_sphere();
    let ray = Ray::new(Point3::new(1, -1, 0), Vec3::new(0, 1, 0), 0, 100);

    let interaction = sphere.test(&ray).unwrap();
    assert_same_hit(
        &interaction,
        &Interaction::new_on_surface(
            Point3::new(1, 0, 0),
            1,
            Vec3::new(1024, 0, 0),
            Vec3::new(0, -1, 0),
        ),
    );
}

#[test]
fn test_two_hits() {
    let sphere = unit_sphere();
    let ray = Ray::new(Point3::new(0, -2, 0), Vec3::new(0, 1, 0), 0, 100);

    let interaction = sphere.test(&ray).unwrap();
    assert_same_hit(
        &interaction,
        &Interaction::new_on_surface(
            Point3::new(0, -1, 0),
            1,
            Vec3::new(0, -1024, 0),
            Vec3::new(0, -1, 0),
        ),
    );
}

#[test]
fn test_inside_out_hit() {
    let sphere = unit_sphere();
    let ray = Ray::new(Point3::new(0, 0, 0), Vec3::new(0, 1, 0), 0, 100);

    let interaction = sphere.test(&ray).unwrap();
    assert_same_hit(
        &interaction,
        &Interaction::new_on_surface(
            Point3::new(0, 1, 0),
            1,
            Vec3::new(0, 1024, 0),
            Vec3::new(0, -1, 0),
        ),
    );
}

#[test]
fn test_outside_on_line_behind_no_hit() {
    let sphere = unit_sphere();
    let ray = Ray::new(Point3::new(0, 5, 0), Vec3::new(0, 1, 0), 0, 1);

    let interaction = sphere.test(&ray);
    assert!(interaction.is_none());
}

#[test]
fn test_outside_on_line_front_no_hit() {
    let sphere = unit_sphere();
    let ray = Ray::new(Point3::new(0, -5, 0), Vec3::new(0, 1, 0), 0, 1);

    let interaction = sphere.test(&ray);
    assert!(interaction.is_none());
}

#[test]
fn chord_meets_both_analytic_points() {
    let sphere = Sphere::new(Point3::new(0, 0, 0), 5);
    // The line x = 3 meets the sphere at y = -4 and y = 4: t = 2 and t = 10.
    let near = Ray::new(Point3::new(3, -6, 0), Vec3::new(0, 1, 0), 0, 100);
    let hit = sphere.test(&near).unwrap();
    assert_eq!(hit.t, 2);
    assert_eq!(hit.p, Point3::new(3, -4, 0));
    // With the near point outside the interval, the far one is taken.
    let far = Ray::new(Point3::new(3, -6, 0), Vec3::new(0, 1, 0), 3, 100);
    let hit = sphere.test(&far).unwrap();
    assert_eq!(hit.t, 10);
    assert_eq!(hit.p, Point3::new(3, 4, 0));
}

#[test]
fn inside_ray_with_offset_origin_exits() {
    let sphere = Sphere::new(Point3::new(0, 0, 0), 5);
    let ray = Ray::new(Point3::new(3, 1, 0), Vec3::new(0, 1, 0), 0, 100);
    let hit = sphere.test(&ray).unwrap();
    // The exit lies at y = 4, t = 3; the entry at y = -4 is behind the origin.
    assert_eq!(hit.t, 3);
    assert_eq!(hit.p, Point3::new(3, 4, 0));
    assert_eq!(hit.wo, Vec3::new(0, -1, 0));
}

#[test]
fn ray_without_direction_meets_nothing() {
    let sphere = unit_sphere();
    let ray = Ray::new(Point3::new(0, 0, 0), Vec3::new(0, 0, 0), 0, 100);
    assert!(sphere.test(&ray).is_none());
}

#[test]
fn ray_at_respects_interval() {
    let ray = Ray::new(Point3::new(1, 2, 3), Vec3::new(1, 0, -1), -2, 4);
    assert_eq!(ray.at(4), Some(Point3::new(5, 2, -1)));
    assert_eq!(ray.at(-2), Some(Point3::new(-1, 2, 5)));
    assert_eq!(ray.at(5), None);
    assert_eq!(ray.at(-3), None);
}

#[test]
fn ray_that_stays_outside_has_no_hit() {
    let sphere = unit_sphere();
    // Its only point is (0, -2, 0); the real entry root 0.5 lies after it.
    let ray = Ray::new(Point3::new(0, -2, 0), Vec3::new(0, 2, 0), 0, 0);
    assert!(sphere.test(&ray).is_none());
}

#[test]
fn hit_lies_in_the_closed_ball() {
    let sphere = Sphere::new(Point3::new(0, 0, 0), 5);
    // Real roots 2.5 and 7.5 along the y axis from y = -10 with step 2.
    let ray = Ray::new(Point3::new(0, -10, 0), Vec3::new(0, 2, 0), 0, 100);
    let hit = sphere.test(&ray).unwrap();
    assert_eq!(hit.t, 3);
    assert_eq!(hit.p, Point3::new(0, -4, 0));
    assert!(hit.p.x * hit.p.x + hit.p.y * hit.p.y + hit.p.z * hit.p.z <= 25);
    assert_eq!(hit.n, Some(Vec3::new(0, -1024, 0)));
}

#[test]
fn tangent_ray_touches_one_point() {
    let sphere = Sphere::new(Point3::new(0, 0, 0), 3);
    let ray = Ray::new(Point3::new(3, -5, 0), Vec3::new(0, 1, 0), 0, 100);
    let hit = sphere.test(&ray).unwrap();
    assert_eq!(hit.t, 5);
    assert_eq!(hit.p, Point3::new(3, 0, 0));
    assert_eq!(hit.n, Some(Vec3::new(1024, 0, 0)));
}

#[test]
fn diagonal_normal_is_fixed_point_unit() {
    let sphere = Sphere::new(Point3::new(0, 0, 0), 5);
    let ray = Ray::new(Point3::new(3, -10, 0), Vec3::new(0, 1, 0), 0, 100);
    let hit = sphere.test(&ray).unwrap();
    assert_eq!(hit.p, Point3::new(3, -4, 0));
    assert_eq!(hit.n, Some(Vec3::new(614, -819, 0)));
}
