use ray_kernel::intersections::Intersectable;
use ray_kernel::material::Material;
use ray_kernel::matrix::Matrix;
use ray_kernel::ray::Ray;
use ray_kernel::scalar::Scalar;
use ray_kernel::sphere::Sphere;
use ray_kernel::tuple::Tuple;

fn si(n: i64) -> Scalar {
    Scalar::from_int(n)
}

fn point(x: i64, y: i64, z: i64) -> Tuple {
    Tuple::point(si(x), si(y), si(z))
}

fn vector(x: i64, y: i64, z: i64) -> Tuple {
    Tuple::vector(si(x), si(y), si(z))
}

#[test]
fn it_sets_the_object_on_the_intersection() {
    let r = Ray::new(point(0, 0, -5), vector(0, 0, 1));
    let s = Sphere::unit();
    let i = Intersectable::Sphere(Sphere::unit());
    let xs = r.intersect(&i).unwrap();
    assert_eq!(xs.count(), 2);
    let Intersectable::Sphere(s1) = &xs.at(0).intersectable;
    assert_eq!(&s, s1);
    let Intersectable::Sphere(s2) = &xs.at(1).intersectable;
    assert_eq!(&s, s2);
}

#[test]
fn it_has_a_default_transformation() {
    let s = Sphere::unit();
    assert_eq!(s.transform, Matrix::identity(4));
}

#[test]
fn it_can_intersect_with_a_ray_when_scaled() {
    let r = Ray::new(point(0, 0, -5), vector(0, 0, 1));
    let mut s = Sphere::unit();
    s.transform = Matrix::scale_matrix(si(2), si(2), si(2));
    let xs = s.intersections(&r).unwrap();
    assert_eq!(xs.count(), 2);
    assert_eq!(xs.at(0).t, si(3));
    assert_eq!(xs.at(1).t, si(7));
}

#[test]
fn it_can_intersect_with_a_ray_when_translated() {
    let r = Ray::new(point(0, 0, -5), vector(0, 0, 1));
    let mut s = Sphere::unit();
    s.transform = Matrix::translation_matrix(si(5), si(0), si(0));
    let xs = s.intersections(&r).unwrap();
    assert_eq!(xs.count(), 0);
}

#[test]
fn it_calculates_a_normal_at_a_point_on_the_x_axis() {
    let s = Sphere::unit();
    let n = s.normal_at(point(1, 0, 0)).unwrap();
    assert_eq!(n, vector(1, 0, 0));
}

#[test]
fn it_calculates_a_normal_at_a_point_on_the_y_axis() {
    let s = Sphere::unit();
    let n = s.normal_at(point(0, 1, 0)).unwrap();
    assert_eq!(n, vector(0, 1, 0));
}

#[test]
fn it_calculates_a_normal_at_a_point_on_the_z_axis() {
    let s = Sphere::unit();
    let n = s.normal_at(point(0, 0, 1)).unwrap();
    assert_eq!(n, vector(0, 0, 1));
}

#[test]
fn it_has_a_default_material() {
    let s = Sphere::unit();
    assert_eq!(s.material, Material::default());
}

#[test]
fn it_can_be_assigned_a_new_material() {
    let mut s = Sphere::unit();
    let m = Material::default();
    s.material = m;
    assert_eq!(s.material, m);
}

#[test]
fn it_reports_a_degenerate_direction_as_an_error() {
    let r = Ray::new(point(0, 0, -5), vector(0, 0, 0));
    let s = Sphere::unit();
    assert!(matches!(s.intersections(&r), Err(ray_kernel::Error::DegenerateDirection)));
}

#[test]
fn it_reports_a_flattened_sphere_as_not_invertible() {
    let r = Ray::new(point(0, 0, -5), vector(0, 0, 1));
    let mut s = Sphere::unit();
    s.transform = Matrix::scale_matrix(si(1), si(1), si(0));
    assert!(matches!(s.intersections(&r), Err(ray_kernel::Error::NotInvertible)));
}
