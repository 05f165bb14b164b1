//! Small self-contained scenes built on the kernel: a projectile stepped
//! through gravity and wind, and a shaded rendering of a sphere into a grid
//! of colors that a pixel-buffer collaborator can write out.
use crate::color::Color;
use crate::intersections::Intersectable;
use crate::lights::PointLight;
use crate::ray::Ray;
use crate::scalar::Scalar;
use crate::sphere::Sphere;
use crate::tuple::{ctadd, Tuple, TupleView};
use crate::Error;
use vstd::prelude::*;

verus! {

/// A projectile: where it is and where it is going.
pub struct Projectile {
    pub position: Tuple,
    pub velocity: Tuple,
}

/// What acts on a projectile each tick.
pub struct Environment {
    pub gravity: Tuple,
    pub wind: Tuple,
}

/// One step of the projectile: the velocity moves the position, and gravity
/// and wind change the velocity.
pub fn tick(env: &Environment, proj: Projectile) -> (r: Result<Projectile, Error>)
    requires
        env.gravity.wf(),
        env.wind.wf(),
        proj.position.wf(),
        proj.velocity.wf(),
    ensures
        match r {
            Ok(p) => {
                &&& p.position.wf() && p.velocity.wf()
                &&& Some(p.position@) == ctadd(proj.position@, proj.velocity@)
                &&& (ctadd(proj.velocity@, env.gravity@) matches Some(vg) && Some(p.velocity@)
                    == ctadd(vg, env.wind@))
            },
            Err(e) => e == Error::OutOfRange && (ctadd(proj.position@, proj.velocity@) == None::<
                TupleView,
            > || ctadd(proj.velocity@, env.gravity@) == None::<TupleView> || (ctadd(
                proj.velocity@,
                env.gravity@,
            ) matches Some(vg) && ctadd(vg, env.wind@) == None::<TupleView>)),
        },
{
    let position = proj.position.add(proj.velocity)?;
    let vg = proj.velocity.add(env.gravity)?;
    let velocity = vg.add(env.wind)?;
    Ok(Projectile { position, velocity })
}

/// Renders the demo scene into a square grid of colors, row by row: a unit
/// sphere with a purple surface, lit by a white point light. Each pixel casts
/// a ray from a fixed origin through a wall behind the sphere; a pixel whose
/// exact shading computation leaves the representable range falls back to the
/// sphere's flat surface color, and a miss stays black.
pub fn run() -> (r: Vec<Vec<Color>>)
    ensures
        r@.len() == 100,
        forall|i: int| 0 <= i < 100 ==> (#[trigger] r@[i])@.len() == 100,
        forall|i: int, j: int| 0 <= i < 100 && 0 <= j < 100 ==> (#[trigger] r@[i]@[j]).wf(),
{
    let size: usize = 100;
    let ray_origin = Tuple::point(Scalar::zero(), Scalar::zero(), Scalar::from_int(-10));
    let half = Scalar::new(7, 2);
    let pixel_size = Scalar::new(7, 100);
    let surface = Color::new(Scalar::one(), Scalar::new(1, 5), Scalar::one());
    let mut shape = Sphere::unit();
    shape.material.color = surface;
    let light = PointLight::new(
        Tuple::point(Scalar::from_int(-10), Scalar::from_int(10), Scalar::from_int(-10)),
        Color::white(),
    );
    let wall_z = Scalar::from_int(10);
    let mut rows: Vec<Vec<Color>> = Vec::new();
    let mut y: usize = 0;
    while y < size
        invariant
            y <= size,
            size == 100,
            rows@.len() == y,
            shape.wf(),
            light.wf(),
            ray_origin.wf(),
            half.wf(),
            pixel_size.wf(),
            wall_z.wf(),
            forall|i: int| 0 <= i < y as int ==> (#[trigger] rows@[i])@.len() == 100,
            forall|i: int, j: int|
                0 <= i < y as int && 0 <= j < 100 ==> (#[trigger] rows@[i]@[j]).wf(),
        decreases size - y,
    {
        let mut row: Vec<Color> = Vec::new();
        let mut x: usize = 0;
        while x < size
            invariant
                x <= size,
                y < size,
                size == 100,
                row@.len() == x,
                shape.wf(),
                light.wf(),
                ray_origin.wf(),
                half.wf(),
                pixel_size.wf(),
                wall_z.wf(),
                forall|j: int| 0 <= j < x as int ==> (#[trigger] row@[j]).wf(),
            decreases size - x,
        {
            let c = shade_pixel(
                &shape,
                &light,
                ray_origin,
                half,
                pixel_size,
                wall_z,
                x,
                y,
            );
            row.push(c);
            x = x + 1;
        }
        rows.push(row);
        y = y + 1;
    }
    rows
}

/// Shades one pixel: casts the ray, takes the hit, and lights the surface
/// point; a miss is black and a shading computation out of range falls back
/// to the sphere's flat surface color.
fn shade_pixel(
    shape: &Sphere,
    light: &PointLight,
    ray_origin: Tuple,
    half: Scalar,
    pixel_size: Scalar,
    wall_z: Scalar,
    x: usize,
    y: usize,
) -> (c: Color)
    requires
        shape.wf(),
        light.wf(),
        ray_origin.wf(),
        half.wf(),
        pixel_size.wf(),
        wall_z.wf(),
        x <= 1000,
        y <= 1000,
    ensures
        c.wf(),
{
    let fallback = shape.material.color;
    let background = Color::black();
    let wx = match pixel_coord(half, pixel_size, x) {
        Ok(v) => v,
        Err(_) => {
            return background;
        },
    };
    let wy = match pixel_coord(half, pixel_size, y) {
        Ok(v) => v,
        Err(_) => {
            return background;
        },
    };
    let wall_point = Tuple::point(wx, wy.neg(), wall_z);
    let direction = match wall_point.sub(ray_origin) {
        Ok(d) => d,
        Err(_) => {
            return background;
        },
    };
    let ray = Ray::new(ray_origin, direction);
    let xs = match shape.intersections(&ray) {
        Ok(xs) => xs,
        Err(_) => {
            return background;
        },
    };
    let hit = match xs.hit() {
        Some(h) => h,
        None => {
            return background;
        },
    };
    let t = hit.t;
    let Intersectable::Sphere(hit_shape) = &hit.intersectable;
    let position = match ray.position(t) {
        Ok(p) => p,
        Err(_) => {
            return fallback;
        },
    };
    let normal = match hit_shape.normal_at(position) {
        Ok(n) => n,
        Err(_) => {
            return fallback;
        },
    };
    let eye = ray.direction.neg();
    match shape.material.lighting(*light, position, eye, normal) {
        Ok(c) => c,
        Err(_) => fallback,
    }
}

/// The world coordinate of a pixel: `-half + pixel_size * index`.
fn pixel_coord(half: Scalar, pixel_size: Scalar, index: usize) -> (r: Result<Scalar, Error>)
    requires
        half.wf(),
        pixel_size.wf(),
        index <= 1000,
    ensures
        match r {
            Ok(v) => v.wf() && (crate::frac::cmul(
                Some(pixel_size@),
                Some(crate::frac::ffrom(index as int)),
            ) matches Some(p) && Some(v@) == crate::frac::csub(Some(p), Some(half@))),
            Err(e) => e == Error::OutOfRange,
        },
{
    let idx = Scalar::from_int(index as i64);
    let scaled = pixel_size.mul(idx)?;
    let v = scaled.sub(half)?;
    Ok(v)
}

} // verus!
