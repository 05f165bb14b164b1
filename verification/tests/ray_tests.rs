use ray_kernel::intersections::Intersectable;
use ray_kernel::matrix::Matrix;
use ray_kernel::ray::Ray;
use ray_kernel::scalar::Scalar;
use ray_kernel::sphere::Sphere;
use ray_kernel::tuple::Tuple;

fn s(n: i64, d: i64) -> Scalar {
    Scalar::new(n, d)
}

fn si(n: i64) -> Scalar {
    Scalar::from_int(n)
}

fn point(x: i64, y: i64, z: i64) -> Tuple {
    Tuple::point(si(x), si(y), si(z))
}

fn vector(x: i64, y: i64, z: i64) -> Tuple {
    Tuple::vector(si(x), si(y), si(z))
}

#[test]
fn it_create_rays() {
    let origin = point(1, 2, 3);
    let direction = vector(4, 5, 6);
    let ray = Ray::new(origin, direction);
    assert_eq!(origin, ray.origin);
    assert_eq!(direction, ray.direction);
}

#[test]
fn it_computes_a_point_from_a_distance() {
    let ray = Ray::new(point(2, 3, 4), vector(1, 0, 0));
    assert_eq!(ray.position(si(0)).unwrap(), point(2, 3, 4));
    assert_eq!(ray.position(si(1)).unwrap(), point(3, 3, 4));
    assert_eq!(ray.position(si(-1)).unwrap(), point(1, 3, 4));
    assert_eq!(
        ray.position(s(5, 2)).unwrap(),
        Tuple::point(s(9, 2), si(3), si(4))
    );
}

#[test]
fn it_intersects_a_sphere_at_two_points() {
    let r = Ray::new(point(0, 0, -5), vector(0, 0, 1));
    let s = Sphere::new(point(0, 0, 0), si(1));
    let i = Intersectable::Sphere(s);
    let xs = r.intersect(&i).unwrap();
    assert_eq!(xs.count(), 2);
    assert_eq!(xs.at(0).t, si(4));
    assert_eq!(xs.at(1).t, si(6));
}

#[test]
fn it_intersects_a_sphere_at_its_tangent() {
    let r = Ray::new(point(0, 1, -5), vector(0, 0, 1));
    let s = Sphere::new(point(0, 0, 0), si(1));
    let i = Intersectable::Sphere(s);
    let xs = r.intersect(&i).unwrap();
    assert_eq!(xs.count(), 2);
    assert_eq!(xs.at(0).t, si(5));
    assert_eq!(xs.at(1).t, si(5));
}

#[test]
fn it_misses_a_sphere() {
    let r = Ray::new(point(0, 2, -5), vector(0, 0, 1));
    let s = Sphere::new(point(0, 0, 0), si(1));
    let i = Intersectable::Sphere(s);
    let xs = r.intersect(&i).unwrap();
    assert_eq!(xs.count(), 0);
}

#[test]
fn it_intersects_a_sphere_at_two_points_when_originating_from_inside_the_sphere() {
    let r = Ray::new(point(0, 0, 0), vector(0, 0, 1));
    let s = Sphere::new(point(0, 0, 0), si(1));
    let i = Intersectable::Sphere(s);
    let xs = r.intersect(&i).unwrap();
    assert_eq!(xs.count(), 2);
    assert_eq!(xs.at(0).t, si(-1));
    assert_eq!(xs.at(1).t, si(1));
}

#[test]
fn it_intersects_a_sphere_at_two_points_when_the_sphere_is_behind_the_ray() {
    let r = Ray::new(point(0, 0, 5), vector(0, 0, 1));
    let s = Sphere::new(point(0, 0, 0), si(1));
    let i = Intersectable::Sphere(s);
    let xs = r.intersect(&i).unwrap();
    assert_eq!(xs.count(), 2);
    assert_eq!(xs.at(0).t, si(-6));
    assert_eq!(xs.at(1).t, si(-4));
}

#[test]
fn it_can_be_translated() {
    let r1 = Ray::new(point(1, 2, 3), vector(0, 1, 0));
    let m = Matrix::translation_matrix(si(3), si(4), si(5));
    let r2 = r1.transform(&m).unwrap();
    assert_eq!(r2.origin, point(4, 6, 8));
    assert_eq!(r2.direction, vector(0, 1, 0));
}

#[test]
fn it_can_be_scaled() {
    let r1 = Ray::new(point(1, 2, 3), vector(0, 1, 0));
    let m = Matrix::scale_matrix(si(2), si(3), si(4));
    let r2 = r1.transform(&m).unwrap();
    assert_eq!(r2.origin, point(2, 6, 12));
    assert_eq!(r2.direction, vector(0, 3, 0));
}
