use rustrace::camera::Camera;
use rustrace::film::Film;
use rustrace::integrator::Integrator;
use rustrace::perspective_camera::{disk_point, random_in_unit_disk, PerspectiveCamera, MAX_T, UNIT};
use rustrace::perfect_square_sampler::PerfectSquareSampler;
use rustrace::png_film::PngFilm;
use rustrace::ray::Ray;
use rustrace::rustrace::RusTrace;
use rustrace::sample::{Fraction, Sample, COLOR_ONE};
use rustrace::sampler_integrator::SamplerIntegrator;
use rustrace::simple_list::SimpleList;
use rustrace::sphere::Sphere;
use rustrace::vector::{Point3, Vec3};

fn pinhole() -> PerspectiveCamera {
    PerspectiveCamera::from_frame(
        Point3::new(0, 0, 0),
        Point3::new(-50, 50, -100),
        Vec3::new(100, 0, 0),
        Vec3::new(0, -100, 0),
        Vec3::new(UNIT, 0, 0),
        Vec3::new(0, UNIT, 0),
        0,
    )
}

fn lens() -> PerspectiveCamera {
    PerspectiveCamera::from_frame(
        Point3::new(0, 0, 0),
        Point3::new(-50, 50, -100),
        Vec3::new(100, 0, 0),
        Vec3::new(0, -100, 0),
        Vec3::new(UNIT, 0, 0),
        Vec3::new(0, UNIT, 0),
        8,
    )
}

#[test]
fn random_points_lie_in_the_unit_disk() {
    let mut points = Vec::new();
    for _ in 0..200 {
        let q = random_in_unit_disk();
        assert!(q.x * q.x + q.y * q.y <= UNIT * UNIT);
        assert_eq!(q.z, 0);
        points.push((q.x, q.y));
    }
    points.sort();
    points.dedup();
    assert!(points.len() > 100);
    assert!(points.iter().any(|&(x, _)| x < 0));
    assert!(points.iter().any(|&(_, y)| y > 0));
}

#[test]
fn pinhole_ray_goes_through_the_screen_point() {
    let camera = pinhole();
    let sample = Sample::new(Fraction::new(1, 2), Fraction::new(1, 4));
    let ray: Ray = camera.get_ray(&sample);
    assert_eq!(ray.o, Point3::new(0, 0, 0));
    assert_eq!(ray.d, Vec3::new(0, 25, -100));
    assert_eq!((ray.min_t, ray.max_t), (0, MAX_T));
}

#[test]
fn lens_offsets_the_origin_by_the_disk_point() {
    let camera = lens();
    let sample = Sample::new(Fraction::new(1, 2), Fraction::new(1, 2));
    let ray = camera.ray_through(&sample, Vec3::new(UNIT / 2, -UNIT, 0));
    // The disk point scales to (4, -8) on a lens of radius 8.
    assert_eq!(ray.o, Point3::new(4, -8, 0));
    assert_eq!(ray.d, Vec3::new(-4, 8, -100));
    for _ in 0..50 {
        let r = camera.get_ray(&sample);
        assert!(r.o.x * r.o.x + r.o.y * r.o.y <= 8 * 8);
        assert_eq!(r.o.z, 0);
    }
}

#[test]
fn ray_color_is_black_on_a_hit_and_white_otherwise() {
    let spheres = vec![Sphere::new(Point3::new(0, 0, -300), 100)];
    let list = SimpleList::new(&spheres);
    let integrator = SamplerIntegrator::new(PerfectSquareSampler::new(1, 1, 1));
    let hit = Ray::new(Point3::new(0, 0, 0), Vec3::new(0, 0, -100), 0, MAX_T);
    let miss = Ray::new(Point3::new(0, 0, 0), Vec3::new(0, 0, 100), 0, MAX_T);
    assert_eq!(integrator.calculate_ray_color(&list, &hit), Vec3::new(0, 0, 0));
    assert_eq!(
        integrator.calculate_ray_color(&list, &miss),
        Vec3::new(COLOR_ONE, COLOR_ONE, COLOR_ONE)
    );
}

#[test]
fn integrator_renders_every_sample_and_develops() {
    let spheres = vec![Sphere::new(Point3::new(0, 0, -300), 100)];
    let list = SimpleList::new(&spheres);
    let camera = pinhole();
    let mut film = PngFilm::new(2, 2);
    let mut integrator = SamplerIntegrator::new(PerfectSquareSampler::new(2, 2, 1));
    let image = integrator.render(&camera, &list, &mut film).unwrap();
    let mut expected = vec![255u8; 9];
    expected.extend_from_slice(&[0, 0, 0]);
    assert_eq!(image, expected);
    assert_eq!(film.develop(), expected);
}

#[test]
fn runtime_loads_primitives_and_renders() {
    let nothing: Vec<Sphere> = Vec::new();
    let spheres = vec![Sphere::new(Point3::new(0, 0, -300), 100)];
    let integrator = SamplerIntegrator::new(PerfectSquareSampler::new(2, 2, 1));
    let mut runtime = RusTrace::new(integrator, pinhole(), SimpleList::new(&nothing), PngFilm::new(2, 2));
    runtime.load_primitives(&spheres);
    let image = runtime.render().unwrap();
    assert_eq!(&image[9..], &[0, 0, 0]);
    assert_eq!(&image[..9], &[255u8; 9]);
}

#[test]
fn disk_point_keeps_points_of_the_disk() {
    assert_eq!(disk_point(0, 0), Some(Vec3::new(0, 0, 0)));
    assert_eq!(disk_point(UNIT, 0), Some(Vec3::new(UNIT, 0, 0)));
    assert_eq!(disk_point(-600, 800), Some(Vec3::new(-600, 800, 0)));
    assert_eq!(disk_point(UNIT, 1), None);
    assert_eq!(disk_point(-800, -800), None);
}
