use rustrace::accelerator::Accelerator;
use rustrace::primitive::Primitive;
use rustrace::ray::Ray;
use rustrace::simple_list::SimpleList;
use rustrace::sphere::Sphere;
use rustrace::vector::{Point3, Vec3};

fn scene() -> Vec<Sphere> {
    vec![
        Sphere::new(Point3::new(0, 20, 0), 2),
        Sphere::new(Point3::new(0, 10, 0), 3),
        Sphere::new(Point3::new(50, 0, 0), 1),
    ]
}

#[test]
fn closest_of_several_hits_wins() {
    let spheres = scene();
    let list = SimpleList::new(&spheres);
    let ray = Ray::new(Point3::new(0, 0, 0), Vec3::new(0, 1, 0), 0, 100);
    let hit = list.test(&ray).unwrap();
    assert_eq!(hit.t, 7);
    assert_eq!(hit.p, Point3::new(0, 7, 0));
    let each: Vec<i64> = spheres.iter().filter_map(|s| s.test(&ray)).map(|i| i.t).collect();
    assert_eq!(each, vec![18, 7]);
}

#[test]
fn no_hit_when_no_primitive_is_hit() {
    let spheres = scene();
    let list = SimpleList::new(&spheres);
    let ray = Ray::new(Point3::new(0, 0, 0), Vec3::new(0, -1, 0), 0, 100);
    assert!(list.test(&ray).is_none());
    let empty: Vec<Sphere> = Vec::new();
    let nothing = SimpleList::new(&empty);
    let up = Ray::new(Point3::new(0, 0, 0), Vec3::new(0, 1, 0), 0, 100);
    assert!(nothing.test(&up).is_none());
}

#[test]
fn building_twice_gives_the_same_answers() {
    let spheres = scene();
    let other = vec![Sphere::new(Point3::new(0, 5, 0), 1)];
    let mut list = SimpleList::new(&other);
    let rays = [
        Ray::new(Point3::new(0, 0, 0), Vec3::new(0, 1, 0), 0, 100),
        Ray::new(Point3::new(0, 0, 0), Vec3::new(1, 0, 0), 0, 100),
        Ray::new(Point3::new(0, 0, 0), Vec3::new(0, 0, 1), 0, 100),
    ];
    list.build(&spheres);
    let first: Vec<Option<i64>> = rays.iter().map(|r| list.test(r).map(|i| i.t)).collect();
    list.build(&spheres);
    let second: Vec<Option<i64>> = rays.iter().map(|r| list.test(r).map(|i| i.t)).collect();
    assert_eq!(first, second);
    assert_eq!(first, vec![Some(7), Some(49), None]);
}
