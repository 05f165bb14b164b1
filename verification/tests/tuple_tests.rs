use ray_kernel::scalar::Scalar;
use ray_kernel::tuple::Tuple;

fn s(n: i64, d: i64) -> Scalar {
    Scalar::new(n, d)
}

fn si(n: i64) -> Scalar {
    Scalar::from_int(n)
}

#[test]
fn it_is_a_point_when_w_equals_to_one() {
    let thing = Tuple::new(s(43, 10), s(-42, 10), s(31, 10), si(1));
    assert!(thing.is_point());
    assert_eq!(thing.x, s(43, 10));
    assert_eq!(thing.y, s(-42, 10));
    assert_eq!(thing.z, s(31, 10));
    assert_eq!(thing.is_vector(), false)
}

#[test]
fn it_is_a_vector_when_w_equals_to_zero() {
    let thing = Tuple::new(s(43, 10), s(-42, 10), s(31, 10), si(0));
    assert!(thing.is_vector());
    assert_eq!(thing.x, s(43, 10));
    assert_eq!(thing.y, s(-42, 10));
    assert_eq!(thing.z, s(31, 10));
    assert_eq!(thing.is_point(), false)
}

#[test]
fn it_creates_points() {
    let point = Tuple::point(s(43, 10), s(-42, 10), s(31, 10));
    assert_eq!(point.x, s(43, 10));
    assert_eq!(point.y, s(-42, 10));
    assert_eq!(point.z, s(31, 10));
    assert_eq!(point.w, si(1));
    assert!(point.is_point())
}

#[test]
fn it_creates_vectors() {
    let vector = Tuple::vector(s(43, 10), s(-42, 10), s(31, 10));
    assert_eq!(vector.x, s(43, 10));
    assert_eq!(vector.y, s(-42, 10));
    assert_eq!(vector.z, s(31, 10));
    assert_eq!(vector.w, si(0));
    assert!(vector.is_vector())
}

#[test]
fn it_adds_two_tuples() {
    let tuple1 = Tuple::new(si(3), si(-2), si(5), si(1));
    let tuple2 = Tuple::new(si(-2), si(3), si(1), si(0));
    assert_eq!(tuple1.add(tuple2).unwrap(), Tuple::new(si(1), si(1), si(6), si(1)))
}

#[test]
fn it_adds_two_vectors() {
    let vector1 = Tuple::vector(si(3), si(-2), si(5));
    let vector2 = Tuple::vector(si(-2), si(3), si(1));
    assert_eq!(vector1.add(vector2).unwrap(), Tuple::vector(si(1), si(1), si(6)))
}

#[test]
fn it_substracts_two_points() {
    let point1 = Tuple::point(si(3), si(2), si(1));
    let point2 = Tuple::point(si(5), si(6), si(7));
    assert_eq!(point1.sub(point2).unwrap(), Tuple::vector(si(-2), si(-4), si(-6)))
}

#[test]
fn it_substracts_a_vector_from_a_point() {
    let point = Tuple::point(si(3), si(2), si(1));
    let vector = Tuple::vector(si(5), si(6), si(7));
    assert_eq!(point.sub(vector).unwrap(), Tuple::point(si(-2), si(-4), si(-6)))
}

#[test]
fn it_substracts_two_vectors() {
    let vector1 = Tuple::vector(si(3), si(2), si(1));
    let vector2 = Tuple::vector(si(5), si(6), si(7));
    assert_eq!(vector1.sub(vector2).unwrap(), Tuple::vector(si(-2), si(-4), si(-6)))
}

#[test]
fn it_substracts_a_vector_from_the_zero_vector() {
    let zero = Tuple::vector(si(0), si(0), si(0));
    let vector = Tuple::vector(si(1), si(-2), si(3));
    assert_eq!(zero.sub(vector).unwrap(), Tuple::vector(si(-1), si(2), si(-3)))
}

#[test]
fn it_negates_a_tuple() {
    let tuple = Tuple::new(si(1), si(-2), si(3), si(-4));
    assert_eq!(tuple.neg(), Tuple::new(si(-1), si(2), si(-3), si(4)))
}

#[test]
fn it_multiplies_a_tuple_by_a_scalar() {
    let tuple = Tuple::new(si(1), si(-2), si(3), si(-4));
    assert_eq!(
        tuple.mul(s(7, 2)).unwrap(),
        Tuple::new(s(7, 2), si(-7), s(21, 2), si(-14))
    )
}

#[test]
fn it_divides_a_tuple_by_a_scalar() {
    let tuple = Tuple::new(si(1), si(-2), si(3), si(-4));
    assert_eq!(
        tuple.div(si(2)).unwrap(),
        Tuple::new(s(1, 2), si(-1), s(3, 2), si(-2))
    )
}

#[test]
fn it_computes_the_dot_product_of_tuples() {
    assert_eq!(
        Tuple::vector(si(1), si(2), si(3))
            .dot(&Tuple::vector(si(2), si(3), si(4)))
            .unwrap(),
        si(20)
    );
}

#[test]
fn it_computes_the_cross_product_of_vectors() {
    let vector1 = Tuple::vector(si(1), si(2), si(3));
    let vector2 = Tuple::vector(si(2), si(3), si(4));
    assert_eq!(vector1.cross(&vector2).unwrap(), Tuple::vector(si(-1), si(2), si(-1)));
    assert_eq!(vector2.cross(&vector1).unwrap(), Tuple::vector(si(1), si(-2), si(1)));
}

#[test]
fn base_it_is_a_point_when_w_equals_to_one() {
    let thing = Tuple::new(s(43, 10), s(-42, 10), s(31, 10), si(1));
    assert!(thing.is_point());
    assert_eq!(thing.is_vector(), false)
}

#[test]
fn base_it_is_a_vector_when_w_equals_to_zero() {
    let thing = Tuple::new(s(43, 10), s(-42, 10), s(31, 10), si(0));
    assert!(thing.is_vector());
    assert_eq!(thing.is_point(), false)
}

#[test]
fn base_it_creates_points() {
    let point = Tuple::point(s(43, 10), s(-42, 10), s(31, 10));
    assert!(point.is_point())
}

#[test]
fn base_it_creates_vectors() {
    let vector = Tuple::vector(s(43, 10), s(-42, 10), s(31, 10));
    assert!(vector.is_vector())
}

#[test]
fn base_it_adds_two_tuples() {
    let tuple1 = Tuple::new(si(3), si(-2), si(5), si(1));
    let tuple2 = Tuple::new(si(-2), si(3), si(1), si(0));
    assert_eq!(tuple1.add(tuple2).unwrap(), Tuple::new(si(1), si(1), si(6), si(1)))
}

#[test]
fn base_it_substracts_two_points() {
    let point1 = Tuple::point(si(3), si(2), si(1));
    let point2 = Tuple::point(si(5), si(6), si(7));
    assert_eq!(point1.sub(point2).unwrap(), Tuple::vector(si(-2), si(-4), si(-6)))
}

#[test]
fn base_it_negates_a_tuple() {
    let tuple = Tuple::new(si(1), si(-2), si(3), si(-4));
    assert_eq!(tuple.neg(), Tuple::new(si(-1), si(2), si(-3), si(4)))
}

#[test]
fn base_it_multiplies_a_tuple_by_a_scalar() {
    let tuple = Tuple::new(si(1), si(-2), si(3), si(-4));
    assert_eq!(
        tuple.mul(s(7, 2)).unwrap(),
        Tuple::new(s(7, 2), si(-7), s(21, 2), si(-14))
    )
}

#[test]
fn base_it_divides_a_tuple_by_a_scalar() {
    let tuple = Tuple::new(si(1), si(-2), si(3), si(-4));
    assert_eq!(
        tuple.div(si(2)).unwrap(),
        Tuple::new(s(1, 2), si(-1), s(3, 2), si(-2))
    )
}

#[test]
fn vector_it_substracts_two_vectors() {
    let vector1 = Tuple::vector(si(3), si(2), si(1));
    let vector2 = Tuple::vector(si(5), si(6), si(7));
    assert_eq!(vector1.sub(vector2).unwrap(), Tuple::vector(si(-2), si(-4), si(-6)))
}

#[test]
fn vector_it_adds_two_vectors() {
    let vector1 = Tuple::vector(si(3), si(-2), si(5));
    let vector2 = Tuple::vector(si(-2), si(3), si(1));
    assert_eq!(vector1.add(vector2).unwrap(), Tuple::vector(si(1), si(1), si(6)))
}

#[test]
fn vector_it_substracts_a_vector_from_a_point() {
    let point = Tuple::point(si(3), si(2), si(1));
    let vector = Tuple::vector(si(5), si(6), si(7));
    assert_eq!(point.sub(vector).unwrap(), Tuple::point(si(-2), si(-4), si(-6)))
}

#[test]
fn vector_it_substracts_a_vector_from_the_zero_vector() {
    let zero = Tuple::vector(si(0), si(0), si(0));
    let vector = Tuple::vector(si(1), si(-2), si(3));
    assert_eq!(zero.sub(vector).unwrap(), Tuple::vector(si(-1), si(2), si(-3)))
}

#[test]
fn it_computes_the_dot_product_of_two_vectors() {
    assert_eq!(
        Tuple::vector(si(1), si(2), si(3))
            .dot(&Tuple::vector(si(2), si(3), si(4)))
            .unwrap(),
        si(20)
    );
}

#[test]
fn it_computes_the_cross_product_of_two_vectors() {
    let vector1 = Tuple::vector(si(1), si(2), si(3));
    let vector2 = Tuple::vector(si(2), si(3), si(4));
    assert_eq!(vector1.cross(&vector2).unwrap(), Tuple::vector(si(-1), si(2), si(-1)));
    assert_eq!(vector2.cross(&vector1).unwrap(), Tuple::vector(si(1), si(-2), si(1)));
}

#[test]
fn it_reflects_a_vector_approachings_at_45_degrees() {
    let v = Tuple::vector(si(1), si(-1), si(0));
    let n = Tuple::vector(si(0), si(1), si(0));
    assert_eq!(v.reflect(n).unwrap(), Tuple::vector(si(1), si(1), si(0)));
}

#[test]
fn it_computes_exact_magnitudes_of_axis_vectors() {
    assert_eq!(Tuple::vector(si(1), si(0), si(0)).magnitude().unwrap(), si(1));
    assert_eq!(Tuple::vector(si(0), si(1), si(0)).magnitude().unwrap(), si(1));
    assert_eq!(Tuple::vector(si(0), si(0), si(1)).magnitude().unwrap(), si(1));
    assert_eq!(Tuple::vector(si(0), si(-4), si(3)).magnitude().unwrap(), si(5));
}

#[test]
fn it_normalizes_an_axis_aligned_vector_exactly() {
    assert_eq!(
        Tuple::vector(si(4), si(0), si(0)).normalized().unwrap(),
        Tuple::vector(si(1), si(0), si(0))
    );
}

#[test]
fn it_reports_an_error_when_normalizing_the_zero_vector() {
    let zero = Tuple::vector(si(0), si(0), si(0));
    assert_eq!(zero.normalized(), Err(ray_kernel::Error::ZeroMagnitudeNormalize));
}
