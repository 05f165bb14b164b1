use ray_kernel::matrix::Matrix;
use ray_kernel::scalar::Scalar;
use ray_kernel::tuple::Tuple;

fn si(n: i64) -> Scalar {
    Scalar::from_int(n)
}

fn point(x: i64, y: i64, z: i64) -> Tuple {
    Tuple::point(si(x), si(y), si(z))
}

fn vector(x: i64, y: i64, z: i64) -> Tuple {
    Tuple::vector(si(x), si(y), si(z))
}

#[test]
fn it_translates_points() {
    let matrix = Matrix::translation_matrix(si(5), si(-3), si(2));
    assert_eq!(matrix.mul_tuple(&point(-3, 4, 5)).unwrap(), point(2, 1, 7));
}

#[test]
fn it_inversely_translates_points() {
    let matrix = Matrix::translation_matrix(si(5), si(-3), si(2));
    let inverse = matrix.inverse().unwrap();
    assert_eq!(inverse.mul_tuple(&point(-3, 4, 5)).unwrap(), point(-8, 7, 3));
}

#[test]
fn it_does_not_translate_vectors() {
    let matrix = Matrix::translation_matrix(si(5), si(-3), si(2));
    let vec = vector(-3, 4, 5);
    assert_eq!(matrix.mul_tuple(&vec).unwrap(), vec);
}

#[test]
fn it_scales_points() {
    let matrix = Matrix::scale_matrix(si(2), si(3), si(4));
    assert_eq!(matrix.mul_tuple(&point(-4, 6, 8)).unwrap(), point(-8, 18, 32));
}

#[test]
fn it_scales_vectors() {
    let matrix = Matrix::scale_matrix(si(2), si(3), si(4));
    assert_eq!(matrix.mul_tuple(&vector(-4, 6, 8)).unwrap(), vector(-8, 18, 32));
}

#[test]
fn it_inversely_scales() {
    let matrix = Matrix::scale_matrix(si(2), si(3), si(4));
    let inverse = matrix.inverse().unwrap();
    assert_eq!(inverse.mul_tuple(&point(-4, 6, 8)).unwrap(), point(-2, 2, 2));
}

#[test]
fn it_reflect_by_scaling_by_a_negative_value() {
    let matrix = Matrix::scale_matrix(si(-1), si(1), si(1));
    assert_eq!(matrix.mul_tuple(&point(2, 3, 4)).unwrap(), point(-2, 3, 4));
}

#[test]
fn it_rotates_a_point_around_the_x_axis() {
    // A full quarter turn: sine 1, cosine 0.
    let full_quarter = Matrix::rotation_x_matrix(si(1), si(0));
    assert_eq!(full_quarter.mul_tuple(&point(0, 1, 0)).unwrap(), point(0, 0, 1));
}

#[test]
fn it_rotates_a_point_around_the_y_axis() {
    let full_quarter = Matrix::rotation_y_matrix(si(1), si(0));
    assert_eq!(full_quarter.mul_tuple(&point(0, 0, 1)).unwrap(), point(1, 0, 0));
}

#[test]
fn it_rotates_a_point_around_the_z_axis() {
    let full_quarter = Matrix::rotation_z_matrix(si(1), si(0));
    assert_eq!(full_quarter.mul_tuple(&point(0, 1, 0)).unwrap(), point(-1, 0, 0));
}

#[test]
fn it_shears_x_in_proportion_to_y() {
    let shearing = Matrix::shear_matrix(si(1), si(0), si(0), si(0), si(0), si(0));
    assert_eq!(shearing.mul_tuple(&point(2, 3, 4)).unwrap(), point(5, 3, 4));
}

#[test]
fn it_shears_x_in_proportion_to_z() {
    let shearing = Matrix::shear_matrix(si(0), si(1), si(0), si(0), si(0), si(0));
    assert_eq!(shearing.mul_tuple(&point(2, 3, 4)).unwrap(), point(6, 3, 4));
}

#[test]
fn it_shears_y_in_proportion_to_x() {
    let shearing = Matrix::shear_matrix(si(0), si(0), si(1), si(0), si(0), si(0));
    assert_eq!(shearing.mul_tuple(&point(2, 3, 4)).unwrap(), point(2, 5, 4));
}

#[test]
fn it_shears_y_in_proportion_to_z() {
    let shearing = Matrix::shear_matrix(si(0), si(0), si(0), si(1), si(0), si(0));
    assert_eq!(shearing.mul_tuple(&point(2, 3, 4)).unwrap(), point(2, 7, 4));
}

#[test]
fn it_shears_z_in_proportion_to_x() {
    let shearing = Matrix::shear_matrix(si(0), si(0), si(0), si(0), si(1), si(0));
    assert_eq!(shearing.mul_tuple(&point(2, 3, 4)).unwrap(), point(2, 3, 6));
}

#[test]
fn it_shears_z_in_proportion_to_y() {
    let shearing = Matrix::shear_matrix(si(0), si(0), si(0), si(0), si(0), si(1));
    assert_eq!(shearing.mul_tuple(&point(2, 3, 4)).unwrap(), point(2, 3, 7));
}

#[test]
fn it_applies_individual_transformations_in_sequence() {
    // A quarter turn about x: sine 1, cosine 0.
    let point1 = point(1, 0, 1);
    let rot_mat = Matrix::rotation_x_matrix(si(1), si(0));
    let scal_mat = Matrix::scale_matrix(si(5), si(5), si(5));
    let trans_mat = Matrix::translation_matrix(si(10), si(5), si(7));
    let point2 = rot_mat.mul_tuple(&point1).unwrap();
    let point3 = scal_mat.mul_tuple(&point2).unwrap();
    let point4 = trans_mat.mul_tuple(&point3).unwrap();
    assert_eq!(point4, point(15, 0, 7));
}

#[test]
fn it_applies_chained_transformation_in_reverse_order() {
    let point1 = point(1, 0, 1);
    let rot_mat = Matrix::rotation_x_matrix(si(1), si(0));
    let scal_mat = Matrix::scale_matrix(si(5), si(5), si(5));
    let trans_mat = Matrix::translation_matrix(si(10), si(5), si(7));
    let mat = trans_mat.mul(&scal_mat).unwrap().mul(&rot_mat).unwrap();
    assert_eq!(mat.mul_tuple(&point1).unwrap(), point(15, 0, 7));
}

#[test]
fn it_is_fluent() {
    let point1 = point(1, 0, 1);
    let matrix = Matrix::identity(4)
        .rotate_x(si(1), si(0))
        .unwrap()
        .scale(si(5), si(5), si(5))
        .unwrap()
        .translate(si(10), si(5), si(7))
        .unwrap();
    assert_eq!(matrix.mul_tuple(&point1).unwrap(), point(15, 0, 7));
}
