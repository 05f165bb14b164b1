use ray_kernel::color::Color;
use ray_kernel::lights::PointLight;
use ray_kernel::material::Material;
use ray_kernel::scalar::Scalar;
use ray_kernel::tuple::Tuple;

fn s(n: i64, d: i64) -> Scalar {
    Scalar::new(n, d)
}

fn si(n: i64) -> Scalar {
    Scalar::from_int(n)
}

fn point(x: i64, y: i64, z: i64) -> Tuple {
    Tuple::point(si(x), si(y), si(z))
}

fn vector(x: i64, y: i64, z: i64) -> Tuple {
    Tuple::vector(si(x), si(y), si(z))
}

#[test]
fn it_has_default() {
    let material = Material::default();
    assert_eq!(material.color, Color::new(si(1), si(1), si(1)));
}

#[test]
fn it_calculate_lighting_when_the_eye_is_between_the_light_and_the_surface() {
    let material = Material::default();
    let position = point(0, 0, 0);
    let eye_vector = vector(0, 0, -1);
    let normal_vector = vector(0, 0, -1);
    let light = PointLight::new(point(0, 0, -10), Color::new(si(1), si(1), si(1)));
    let result = material.lighting(light, position, eye_vector, normal_vector).unwrap();
    assert_eq!(result, Color::new(s(19, 10), s(19, 10), s(19, 10)));
}

#[test]
fn it_calculate_lighting_when_the_light_is_behind_the_surface() {
    let material = Material::default();
    let position = point(0, 0, 0);
    let eye_vector = vector(0, 0, -1);
    let normal_vector = vector(0, 0, -1);
    let light = PointLight::new(point(0, 0, 10), Color::new(si(1), si(1), si(1)));
    let result = material.lighting(light, position, eye_vector, normal_vector).unwrap();
    assert_eq!(result, Color::new(s(1, 10), s(1, 10), s(1, 10)));
}

#[test]
fn it_reports_a_light_sitting_on_the_surface_point_as_an_error() {
    let material = Material::default();
    let position = point(1, 2, 3);
    let eye_vector = vector(0, 0, -1);
    let normal_vector = vector(0, 0, -1);
    let light = PointLight::new(point(1, 2, 3), Color::new(si(1), si(1), si(1)));
    let result = material.lighting(light, position, eye_vector, normal_vector);
    assert_eq!(result, Err(ray_kernel::Error::ZeroMagnitudeNormalize));
}

#[test]
fn it_has_a_position_and_intensity() {
    let position = point(0, 0, 0);
    let intensity = Color::new(si(1), si(1), si(1));
    let light = PointLight::new(position, intensity);
    assert_eq!(light.position, position);
    assert_eq!(light.intensity, intensity);
}
