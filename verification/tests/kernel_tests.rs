use ray_kernel::demo::{run, tick, Environment, Projectile};
use ray_kernel::matrix::Matrix;
use ray_kernel::scalar::Scalar;
use ray_kernel::tuple::Tuple;
use ray_kernel::Error;

fn s(n: i64, d: i64) -> Scalar {
    Scalar::new(n, d)
}

fn si(n: i64) -> Scalar {
    Scalar::from_int(n)
}

fn m4(rows: [[i64; 4]; 4]) -> Matrix {
    let mut v: Vec<Vec<Scalar>> = Vec::new();
    for r in rows.iter() {
        let mut rv: Vec<Scalar> = Vec::new();
        for c in r.iter() {
            rv.push(si(*c));
        }
        v.push(rv);
    }
    Matrix::from_rows(4, 4, v)
}

#[test]
fn it_reduces_fractions_to_lowest_terms() {
    let a = s(6, 4);
    assert_eq!(a.num(), 3);
    assert_eq!(a.den(), 2);
    let b = s(-10, -4);
    assert_eq!(b.num(), 5);
    assert_eq!(b.den(), 2);
    let c = s(3, -6);
    assert_eq!(c.num(), -1);
    assert_eq!(c.den(), 2);
}

#[test]
fn it_adds_subtracts_multiplies_and_divides_exactly() {
    assert_eq!(s(1, 3).add(s(1, 6)).unwrap(), s(1, 2));
    assert_eq!(s(1, 2).sub(s(1, 3)).unwrap(), s(1, 6));
    assert_eq!(s(2, 3).mul(s(9, 4)).unwrap(), s(3, 2));
    assert_eq!(s(3, 4).div(s(3, 2)).unwrap(), s(1, 2));
    assert_eq!(s(3, 4).div(si(0)), Err(Error::DivisionByZero));
}

#[test]
fn it_reports_sums_that_leave_the_range_as_errors() {
    let big = si(i64::MAX);
    assert_eq!(big.add(si(1)), Err(Error::OutOfRange));
    assert_eq!(big.mul(si(2)), Err(Error::OutOfRange));
}

#[test]
fn it_takes_exact_square_roots_on_the_grid() {
    assert_eq!(s(9, 4).sqrt_floor(), s(3, 2));
    assert_eq!(si(25).sqrt_floor(), si(5));
    assert_eq!(si(0).sqrt_floor(), si(0));
    // The root of two is irrational: the result is the floor on the grid of
    // 1/65536, that is 92681/65536.
    assert_eq!(si(2).sqrt_floor(), s(92681, 65536));
}

#[test]
fn it_raises_to_integer_powers() {
    assert_eq!(si(2).pow(10).unwrap(), si(1024));
    assert_eq!(s(1, 2).pow(3).unwrap(), s(1, 8));
    assert_eq!(si(1).pow(200).unwrap(), si(1));
    assert_eq!(si(0).pow(5).unwrap(), si(0));
    assert_eq!(si(10).pow(40), Err(Error::OutOfRange));
}

#[test]
fn it_compares_scalars_as_rational_numbers() {
    assert!(s(1, 3).lt(&s(1, 2)));
    assert!(s(2, 4).le(&s(1, 2)));
    assert!(s(-1, 2).lt(&si(0)));
    assert_eq!(s(2, 4), s(1, 2));
    assert_ne!(s(1, 3), s(1, 2));
}

#[test]
fn it_inverts_an_inverse_back_to_the_sphere_transform() {
    let m = m4([[1, 0, 0, 5], [0, 2, 0, 0], [0, 0, 1, -3], [0, 0, 0, 1]]);
    let double_inverse = m.inverse().unwrap().inverse().unwrap();
    assert_eq!(double_inverse, m);
}

#[test]
fn it_leaves_a_matrix_unchanged_under_the_identity_on_the_left() {
    let m = m4([[1, 2, 3, 4], [5, 6, 7, 8], [9, 8, 7, 6], [5, 4, 3, 2]]);
    assert_eq!(Matrix::identity(4).mul(&m).unwrap(), m);
}

#[test]
fn it_steps_a_projectile_by_one_tick() {
    let proj = Projectile {
        position: Tuple::point(si(0), si(1), si(0)),
        velocity: Tuple::vector(si(1), si(1), si(0)),
    };
    let env = Environment {
        gravity: Tuple::vector(si(0), s(-1, 10), si(0)),
        wind: Tuple::vector(s(-1, 100), si(0), si(0)),
    };
    let next = tick(&env, proj).unwrap();
    assert_eq!(next.position, Tuple::point(si(1), si(2), si(0)));
    assert_eq!(next.velocity, Tuple::vector(s(99, 100), s(9, 10), si(0)));
}

#[test]
fn it_renders_the_demo_scene_into_a_square_grid() {
    let rows = run();
    assert_eq!(rows.len(), 100);
    for row in rows.iter() {
        assert_eq!(row.len(), 100);
    }
    // A corner ray misses the sphere: black. The center ray strikes it.
    let black = ray_kernel::color::Color::black();
    assert_eq!(rows[0][0], black);
    assert_ne!(rows[50][50], black);
}
