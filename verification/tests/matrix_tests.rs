use ray_kernel::matrix::Matrix;
use ray_kernel::scalar::Scalar;
use ray_kernel::tuple::Tuple;

fn s(n: i64, d: i64) -> Scalar {
    Scalar::new(n, d)
}

fn si(n: i64) -> Scalar {
    Scalar::from_int(n)
}

fn m2(rows: [[i64; 2]; 2]) -> Matrix {
    let mut v: Vec<Vec<Scalar>> = Vec::new();
    for r in rows.iter() {
        let mut rv: Vec<Scalar> = Vec::new();
        for c in r.iter() {
            rv.push(si(*c));
        }
        v.push(rv);
    }
    Matrix::from_rows(2, 2, v)
}

fn m3(rows: [[i64; 3]; 3]) -> Matrix {
    let mut v: Vec<Vec<Scalar>> = Vec::new();
    for r in rows.iter() {
        let mut rv: Vec<Scalar> = Vec::new();
        for c in r.iter() {
            rv.push(si(*c));
        }
        v.push(rv);
    }
    Matrix::from_rows(3, 3, v)
}

fn m4(rows: [[i64; 4]; 4]) -> Matrix {
    let mut v: Vec<Vec<Scalar>> = Vec::new();
    for r in rows.iter() {
        let mut rv: Vec<Scalar> = Vec::new();
        for c in r.iter() {
            rv.push(si(*c));
        }
        v.push(rv);
    }
    Matrix::from_rows(4, 4, v)
}

#[test]
fn matrix_it_creates_2_by_2_matrices() {
    let matrix = m2([[-3, 5], [1, -2]]);
    assert_eq!(matrix.get(0, 0), si(-3));
    assert_eq!(matrix.get(0, 1), si(5));
    assert_eq!(matrix.get(1, 0), si(1));
    assert_eq!(matrix.get(1, 1), si(-2));
}

#[test]
fn matrix_it_creates_3_by_3_matrices() {
    let matrix = m3([[-3, 5, 0], [1, -2, 7], [0, 1, 1]]);
    assert_eq!(matrix.get(0, 0), si(-3));
    assert_eq!(matrix.get(1, 1), si(-2));
    assert_eq!(matrix.get(2, 2), si(1));
}

#[test]
fn matrix_it_creates_4_by_4_matrices() {
    let matrix = Matrix::from_rows(
        4,
        4,
        vec![
            vec![si(1), si(2), si(3), si(4)],
            vec![s(11, 2), s(13, 2), s(15, 2), s(17, 2)],
            vec![si(9), si(10), si(11), si(1)],
            vec![s(27, 2), s(29, 2), s(31, 2), s(33, 2)],
        ],
    );
    assert_eq!(matrix.get(0, 0), si(1));
    assert_eq!(matrix.get(0, 3), si(4));
    assert_eq!(matrix.get(1, 0), s(11, 2));
    assert_eq!(matrix.get(1, 2), s(15, 2));
    assert_eq!(matrix.get(2, 2), si(11));
    assert_eq!(matrix.get(3, 0), s(27, 2));
    assert_eq!(matrix.get(3, 2), s(31, 2));
}

#[test]
fn matrix_it_asserts_as_equal_identical_matrices() {
    let matrix1 = m4([[1, 2, 3, 4], [5, 6, 7, 8], [9, 8, 7, 6], [5, 4, 3, 2]]);
    let matrix2 = m4([[1, 2, 3, 4], [5, 6, 7, 8], [9, 8, 7, 6], [5, 4, 3, 2]]);
    assert_eq!(matrix1, matrix2);
}

#[test]
fn matrix_it_asserts_as_not_equal_different_matrices() {
    let matrix1 = m4([[1, 2, 3, 4], [5, 6, 7, 8], [9, 8, 7, 6], [5, 4, 3, 2]]);
    let matrix2 = m4([[0, 2, 3, 4], [5, 0, 7, 8], [9, 8, 0, 6], [5, 4, 3, 0]]);
    assert_ne!(matrix1, matrix2);
}

#[test]
fn matrix_it_multiply_matrices() {
    let matrix1 = m4([[1, 2, 3, 4], [5, 6, 7, 8], [9, 8, 7, 6], [5, 4, 3, 2]]);
    let matrix2 = m4([[-2, 1, 2, 3], [3, 2, 1, -1], [4, 3, 6, 5], [1, 2, 7, 8]]);
    let expected = m4([[20, 22, 50, 48], [44, 54, 114, 108], [40, 58, 110, 102], [16, 26, 46, 42]]);
    assert_eq!(matrix1.mul(&matrix2).unwrap(), expected);
}

#[test]
fn matrix_it_multiply_matrices_and_tuples() {
    let matrix = m4([[1, 2, 3, 4], [2, 4, 4, 2], [8, 6, 4, 1], [0, 0, 0, 1]]);
    let tuple = Tuple::new(si(1), si(2), si(3), si(1));
    let expected = Tuple::new(si(18), si(24), si(33), si(1));
    assert_eq!(matrix.mul_tuple(&tuple).unwrap(), expected);
}

#[test]
fn matrix_it_can_be_multiplied_by_the_identity_matrix() {
    let matrix = m4([[0, 1, 2, 4], [1, 2, 4, 8], [2, 4, 8, 16], [4, 8, 16, 32]]);
    let identity = Matrix::identity(4);
    assert_eq!(matrix.mul(&identity).unwrap(), matrix);
}

#[test]
fn matrix_it_transpose_matrices() {
    let matrix = m4([[0, 9, 3, 0], [9, 8, 0, 8], [1, 8, 5, 3], [0, 0, 5, 8]]);
    let expected = m4([[0, 9, 1, 0], [9, 8, 8, 0], [3, 0, 5, 5], [0, 8, 3, 8]]);
    assert_eq!(matrix.transposed(), expected);
}

#[test]
fn matrix_it_transpose_the_identity_matrix() {
    let identity = Matrix::identity(4);
    assert_eq!(identity.transposed(), identity);
}

#[test]
fn matrix_it_calculate_the_determinant_of_a_2x2_matrix() {
    let matrix = m2([[1, 5], [-3, 2]]);
    assert_eq!(matrix.det().unwrap(), si(17));
}

#[test]
fn matrix_it_extract_a_2x2_submatrix_from_a_3x3_matrix() {
    let matrix = m3([[1, 5, 0], [-3, 2, 7], [0, 6, -3]]);
    let expected = m2([[-3, 2], [0, 6]]);
    assert_eq!(matrix.submatrix(0, 2), expected);
}

#[test]
fn matrix_it_extract_a_3x3_submatrix_from_a_4x4_matrix() {
    let matrix = m4([[-6, 1, 1, 6], [-8, 5, 8, 6], [-1, 0, 8, 2], [-7, 1, -1, 1]]);
    let expected = m3([[-6, 1, 6], [-8, 8, 6], [-7, -1, 1]]);
    assert_eq!(matrix.submatrix(2, 1), expected);
}

#[test]
fn matrix_it_calculate_the_minor_of_a_3x3_matrix() {
    let matrix = m3([[3, 5, 0], [2, -1, -7], [6, -1, 5]]);
    assert_eq!(matrix.minor(1, 0).unwrap(), si(25));
}

#[test]
fn matrix_it_calculate_the_cofactor_of_a_3x3_matrix() {
    let matrix = m3([[3, 5, 0], [2, -1, -7], [6, -1, 5]]);
    assert_eq!(matrix.minor(0, 0).unwrap(), si(-12));
    assert_eq!(matrix.cofactor(0, 0).unwrap(), si(-12));
    assert_eq!(matrix.minor(1, 0).unwrap(), si(25));
    assert_eq!(matrix.cofactor(1, 0).unwrap(), si(-25));
}

#[test]
fn matrix_it_calculate_the_determinant_of_a_3x3_matrix() {
    let matrix = m3([[1, 2, 6], [-5, 8, -4], [2, 6, 4]]);
    assert_eq!(matrix.cofactor(0, 0).unwrap(), si(56));
    assert_eq!(matrix.cofactor(0, 1).unwrap(), si(12));
    assert_eq!(matrix.cofactor(0, 2).unwrap(), si(-46));
    assert_eq!(matrix.det().unwrap(), si(-196));
}

#[test]
fn matrix_it_calculate_the_determinant_of_a_4x4_matrix() {
    let matrix = m4([[-2, -8, 3, 5], [-3, 1, 7, 3], [1, 2, -9, 6], [-6, 7, 7, -9]]);
    assert_eq!(matrix.cofactor(0, 0).unwrap(), si(690));
    assert_eq!(matrix.cofactor(0, 1).unwrap(), si(447));
    assert_eq!(matrix.cofactor(0, 2).unwrap(), si(210));
    assert_eq!(matrix.cofactor(0, 3).unwrap(), si(51));
    assert_eq!(matrix.det().unwrap(), si(-4071));
}

#[test]
fn matrix_it_tests_if_a_4x4_matrix_is_invertible() {
    let matrix = m4([[6, 4, 4, 4], [5, 5, 7, 6], [4, -9, 3, -7], [9, 1, 7, -6]]);
    assert_eq!(matrix.det().unwrap(), si(-2120));
    assert!(matrix.is_invertible().unwrap());
}

#[test]
fn matrix_it_tests_if_a_4x4_matrix_is_not_invertible() {
    let matrix = m4([[-4, 2, -2, 3], [9, 6, 2, 6], [0, -5, 1, -5], [0, 0, 0, 0]]);
    assert_eq!(matrix.det().unwrap(), si(0));
    assert_eq!(matrix.is_invertible().unwrap(), false);
}

#[test]
fn matrix_it_calculates_the_inverse_of_a_4x4_matrix() {
    let matrix = m4([[-5, 2, 6, -8], [1, -5, 1, 8], [7, 7, -6, -7], [1, -3, 7, 4]]);
    let expected = Matrix::from_rows(
        4,
        4,
        vec![
            vec![s(116, 532), s(240, 532), s(128, 532), s(-24, 532)],
            vec![s(-430, 532), s(-775, 532), s(-236, 532), s(277, 532)],
            vec![s(-42, 532), s(-119, 532), s(-28, 532), s(105, 532)],
            vec![s(-278, 532), s(-433, 532), s(-160, 532), s(163, 532)],
        ],
    );
    assert_eq!(matrix.det().unwrap(), si(532));
    assert_eq!(matrix.cofactor(2, 3).unwrap(), si(-160));
    assert_eq!(matrix.cofactor(3, 2).unwrap(), si(105));
    assert_eq!(matrix.inverse().unwrap(), expected);
}

#[test]
fn it_multuply_a_product_by_its_inverse() {
    let matrix1 = m4([[3, -9, 7, 3], [3, -8, 2, -9], [-4, 4, 4, 1], [-6, 5, -1, 1]]);
    let matrix2 = m4([[8, 2, 2, 2], [3, -1, 7, 0], [7, 0, 5, 4], [6, -2, 0, 5]]);
    let product = matrix1.mul(&matrix2).unwrap();
    assert_eq!(product.mul(&matrix2.inverse().unwrap()).unwrap(), matrix1);
}

#[test]
fn base_it_creates_2_by_2_matrices() {
    let matrix = m2([[-3, 5], [1, -2]]);
    assert_eq!(matrix.get(0, 0), si(-3));
    assert_eq!(matrix.get(0, 1), si(5));
    assert_eq!(matrix.get(1, 0), si(1));
    assert_eq!(matrix.get(1, 1), si(-2));
}

#[test]
fn base_it_creates_3_by_3_matrices() {
    let matrix = m3([[-3, 5, 0], [1, -2, 7], [0, 1, 1]]);
    assert_eq!(matrix.get(0, 0), si(-3));
    assert_eq!(matrix.get(1, 1), si(-2));
    assert_eq!(matrix.get(2, 2), si(1));
}

#[test]
fn base_it_creates_4_by_4_matrices() {
    let matrix = Matrix::from_rows(
        4,
        4,
        vec![
            vec![si(1), si(2), si(3), si(4)],
            vec![s(11, 2), s(13, 2), s(15, 2), s(17, 2)],
            vec![si(9), si(10), si(11), si(1)],
            vec![s(27, 2), s(29, 2), s(31, 2), s(33, 2)],
        ],
    );
    assert_eq!(matrix.get(0, 0), si(1));
    assert_eq!(matrix.get(0, 3), si(4));
    assert_eq!(matrix.get(1, 0), s(11, 2));
    assert_eq!(matrix.get(1, 2), s(15, 2));
    assert_eq!(matrix.get(2, 2), si(11));
    assert_eq!(matrix.get(3, 0), s(27, 2));
    assert_eq!(matrix.get(3, 2), s(31, 2));
}

#[test]
fn base_it_asserts_as_equal_identical_matrices() {
    let matrix1 = m4([[1, 2, 3, 4], [5, 6, 7, 8], [9, 8, 7, 6], [5, 4, 3, 2]]);
    let matrix2 = m4([[1, 2, 3, 4], [5, 6, 7, 8], [9, 8, 7, 6], [5, 4, 3, 2]]);
    assert_eq!(matrix1, matrix2);
}

#[test]
fn base_it_asserts_as_not_equal_different_matrices() {
    let matrix1 = m4([[1, 2, 3, 4], [5, 6, 7, 8], [9, 8, 7, 6], [5, 4, 3, 2]]);
    let matrix2 = m4([[0, 2, 3, 4], [5, 0, 7, 8], [9, 8, 0, 6], [5, 4, 3, 0]]);
    assert_ne!(matrix1, matrix2);
}

#[test]
fn base_it_multiply_matrices() {
    let matrix1 = m4([[1, 2, 3, 4], [5, 6, 7, 8], [9, 8, 7, 6], [5, 4, 3, 2]]);
    let matrix2 = m4([[-2, 1, 2, 3], [3, 2, 1, -1], [4, 3, 6, 5], [1, 2, 7, 8]]);
    let expected = m4([[20, 22, 50, 48], [44, 54, 114, 108], [40, 58, 110, 102], [16, 26, 46, 42]]);
    assert_eq!(matrix1.mul(&matrix2).unwrap(), expected);
}

#[test]
fn base_it_multiply_matrices_and_tuples() {
    let matrix = m4([[1, 2, 3, 4], [2, 4, 4, 2], [8, 6, 4, 1], [0, 0, 0, 1]]);
    let tuple = Tuple::new(si(1), si(2), si(3), si(1));
    let expected = Tuple::new(si(18), si(24), si(33), si(1));
    assert_eq!(matrix.mul_tuple(&tuple).unwrap(), expected);
}

#[test]
fn base_it_can_be_multiplied_by_the_identity_matrix() {
    let matrix = m4([[0, 1, 2, 4], [1, 2, 4, 8], [2, 4, 8, 16], [4, 8, 16, 32]]);
    let identity = Matrix::identity(4);
    assert_eq!(matrix.mul(&identity).unwrap(), matrix);
}

#[test]
fn it_inverts_the_inverse_back_to_the_original() {
    let matrix = m4([[-5, 2, 6, -8], [1, -5, 1, 8], [7, 7, -6, -7], [1, -3, 7, 4]]);
    let inverse = matrix.inverse().unwrap();
    assert_eq!(inverse.inverse().unwrap(), matrix);
}

#[test]
fn it_inverts_a_product_into_the_reversed_product_of_inverses() {
    let a = m4([[3, -9, 7, 3], [3, -8, 2, -9], [-4, 4, 4, 1], [-6, 5, -1, 1]]);
    let b = m4([[8, 2, 2, 2], [3, -1, 7, 0], [7, 0, 5, 4], [6, -2, 0, 5]]);
    let product_inverse = a.mul(&b).unwrap().inverse().unwrap();
    let reversed = b.inverse().unwrap().mul(&a.inverse().unwrap()).unwrap();
    assert_eq!(product_inverse, reversed);
}

#[test]
fn it_reports_a_zero_determinant_as_not_invertible() {
    let matrix = m4([[-4, 2, -2, 3], [9, 6, 2, 6], [0, -5, 1, -5], [0, 0, 0, 0]]);
    assert_eq!(matrix.inverse(), Err(ray_kernel::Error::NotInvertible));
}
