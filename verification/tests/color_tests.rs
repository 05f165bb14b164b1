use ray_kernel::color::Color;
use ray_kernel::scalar::Scalar;

fn s(n: i64, d: i64) -> Scalar {
    Scalar::new(n, d)
}

#[test]
fn it_creates_colors() {
    let color = Color::new(s(-1, 2), s(2, 5), s(17, 10));
    assert_eq!(color.r, s(-1, 2));
    assert_eq!(color.g, s(2, 5));
    assert_eq!(color.b, s(17, 10));
}

#[test]
fn it_adds_two_colors() {
    let color1 = Color::new(s(9, 10), s(3, 5), s(3, 4));
    let color2 = Color::new(s(7, 10), s(1, 10), s(1, 4));
    assert_eq!(
        color1.add(color2).unwrap(),
        Color::new(s(8, 5), s(7, 10), s(1, 1))
    );
}

#[test]
fn it_substracts_one_color_from_another() {
    let color1 = Color::new(s(9, 10), s(3, 5), s(3, 4));
    let color2 = Color::new(s(7, 10), s(1, 10), s(1, 4));
    assert_eq!(
        color1.sub(color2).unwrap(),
        Color::new(s(1, 5), s(1, 2), s(1, 2))
    );
}

#[test]
fn it_multiply_a_color_by_a_scaler() {
    let color = Color::new(s(1, 5), s(3, 10), s(2, 5));
    assert_eq!(
        color.mul(s(2, 1)).unwrap(),
        Color::new(s(2, 5), s(3, 5), s(4, 5))
    );
}

#[test]
fn it_multiplies_two_colors() {
    let color1 = Color::new(s(1, 1), s(1, 5), s(2, 5));
    let color2 = Color::new(s(9, 10), s(1, 1), s(1, 10));
    assert_eq!(
        color1.mul_color(color2).unwrap(),
        Color::new(s(9, 10), s(1, 5), s(1, 25))
    );
}
