use rustrace::interaction::Interaction;
use rustrace::vector::{Point3, Vec3};

#[test]
fn ord() {
    let a = Interaction::new_on_surface(
        Point3::new(1, 1, 1),
        5,
        Vec3::new(1, 1, 1),
        Vec3::new(1, 1, 1),
    );

    let b = Interaction::new_on_surface(
        Point3::new(1, 1, 1),
        6,
        Vec3::new(1, 1, 1),
        Vec3::new(1, 1, 1),
    );

    assert!(a < b);
    assert!(b > a);
    assert!(a == a);
}

#[test]
fn equality_is_by_parameter_alone() {
    let a = Interaction::new_on_surface(Point3::new(1, 0, 0), 3, Vec3::new(1, 0, 0), Vec3::new(0, 1, 0));
    let b = Interaction::new_in_media(Point3::new(9, 9, 9), 3, Vec3::new(0, 0, 1));
    assert!(a == b);
    assert_eq!(b.n, None);
    assert_eq!(a.n, Some(Vec3::new(1, 0, 0)));
}
