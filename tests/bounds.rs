use rustrace::bounds::Bounds3;
use rustrace::vector::Point3;

#[test]
fn bounds_new() {
    let min = Point3::new(1, 2, 3);
    let max = Point3::new(3, 4, 5);
    let bounds = Bounds3::new(min, max);
    assert_eq!(bounds, Bounds3 { min, max });
}

#[test]
fn union() {
    let a_min = Point3::new(0, 0, 0);
    let a_max = Point3::new(1, 1, 1);
    let a = Bounds3::new(a_min, a_max);

    let b_min = Point3::new(2, 2, 2);
    let b_max = Point3::new(3, 3, 3);
    let b = Bounds3::new(b_min, b_max);

    let union = a.union(&b);

    let res_min = Point3::new(0, 0, 0);
    let res_max = Point3::new(3, 3, 3);
    assert_eq!(union, Bounds3::new(res_min, res_max));
}

#[test]
fn union_is_componentwise() {
    let a = Bounds3::new(Point3::new(0, 5, -1), Point3::new(4, 6, 2));
    let b = Bounds3::new(Point3::new(1, -3, 0), Point3::new(2, 9, 1));
    let u = a.union(&b);
    assert_eq!(u, Bounds3::new(Point3::new(0, -3, -1), Point3::new(4, 9, 2)));
}
