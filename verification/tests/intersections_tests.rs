use ray_kernel::intersections::{Intersectable, Intersection, Intersections};
use ray_kernel::scalar::Scalar;
use ray_kernel::sphere::Sphere;

fn s(n: i64, d: i64) -> Scalar {
    Scalar::new(n, d)
}

fn si(n: i64) -> Scalar {
    Scalar::from_int(n)
}

#[test]
fn it_encapsulates_a_parameter_t_and_an_intersectable() {
    let i = Intersection::new(s(7, 2), Intersectable::Sphere(Sphere::unit()));
    let Intersectable::Sphere(s1) = &i.intersectable;
    assert_eq!(&Sphere::unit(), s1);
}

#[test]
fn it_aggregate_intersections() {
    let i1 = Intersection::new(si(1), Intersectable::Sphere(Sphere::unit()));
    let i2 = Intersection::new(si(2), Intersectable::Sphere(Sphere::unit()));
    let i = Intersections::new(vec![i1, i2]);
    assert_eq!(i.count(), 2);
    assert_eq!(i.at(0).t, si(1));
    assert_eq!(i.at(1).t, si(2))
}

#[test]
fn it_calculates_the_hit_value_when_all_intersections_have_a_positive_t_value() {
    let i1 = Intersection::new(si(1), Intersectable::Sphere(Sphere::unit()));
    let i2 = Intersection::new(si(2), Intersectable::Sphere(Sphere::unit()));
    let xs = Intersections::new(vec![i1, i2]);
    let expected = Intersection::new(si(1), Intersectable::Sphere(Sphere::unit()));
    assert_eq!(xs.hit(), Some(&expected));
}

#[test]
fn it_calculates_the_hit_value_when_some_intersections_have_a_negative_t_value() {
    let i1 = Intersection::new(si(-1), Intersectable::Sphere(Sphere::unit()));
    let i2 = Intersection::new(si(2), Intersectable::Sphere(Sphere::unit()));
    let xs = Intersections::new(vec![i1, i2]);
    let expected = Intersection::new(si(2), Intersectable::Sphere(Sphere::unit()));
    assert_eq!(xs.hit(), Some(&expected));
}

#[test]
fn it_has_a_none_hit_value_when_all_intersections_have_a_negative_t_value() {
    let i1 = Intersection::new(si(-2), Intersectable::Sphere(Sphere::unit()));
    let i2 = Intersection::new(si(-1), Intersectable::Sphere(Sphere::unit()));
    let xs = Intersections::new(vec![i1, i2]);
    assert_eq!(xs.hit(), None);
}

#[test]
fn it_calculates_the_hit_value_by_using_the_intersection_with_the_lowest_positive_value() {
    let i1 = Intersection::new(si(5), Intersectable::Sphere(Sphere::unit()));
    let i2 = Intersection::new(si(7), Intersectable::Sphere(Sphere::unit()));
    let i3 = Intersection::new(si(-3), Intersectable::Sphere(Sphere::unit()));
    let i4 = Intersection::new(si(2), Intersectable::Sphere(Sphere::unit()));
    let xs = Intersections::new(vec![i1, i2, i3, i4]);
    let expected = Intersection::new(si(2), Intersectable::Sphere(Sphere::unit()));
    assert_eq!(xs.hit(), Some(&expected));
}

#[test]
fn it_sorts_intersections_ascending_by_t() {
    let i1 = Intersection::new(si(5), Intersectable::Sphere(Sphere::unit()));
    let i2 = Intersection::new(si(7), Intersectable::Sphere(Sphere::unit()));
    let i3 = Intersection::new(si(-3), Intersectable::Sphere(Sphere::unit()));
    let i4 = Intersection::new(si(2), Intersectable::Sphere(Sphere::unit()));
    let xs = Intersections::new(vec![i1, i2, i3, i4]);
    assert_eq!(xs.at(0).t, si(-3));
    assert_eq!(xs.at(1).t, si(2));
    assert_eq!(xs.at(2).t, si(5));
    assert_eq!(xs.at(3).t, si(7));
}
