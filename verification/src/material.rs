//! Surface materials and the Phong local-lighting model: an ambient, a
//! diffuse and a specular contribution added channel by channel, never
//! clamped.
use crate::color::{cblack, ccadd, ccmulc, ccmulk, ceq, Color, ColorView};
use crate::frac::{cpow, feq, fle, flt, fone, fzero, Frac};
use crate::lights::PointLight;
use crate::scalar::Scalar;
use crate::tuple::{ctsub, dot_checked, normalized_mirror, reflect_mirror, tneg, Tuple, TupleView};
use crate::Error;
use vstd::prelude::*;

verus! {

/// Reflectance coefficients of a surface. The shininess is the integer
/// exponent of the specular highlight.
#[derive(Clone, Copy, Debug)]
pub struct Material {
    pub color: Color,
    pub ambient: Scalar,
    pub diffuse: Scalar,
    pub specular: Scalar,
    pub shininess: u32,
}

/// The exact values of a material.
pub ghost struct MaterialView {
    pub color: ColorView,
    pub ambient: Frac,
    pub diffuse: Frac,
    pub specular: Frac,
    pub shininess: nat,
}

impl View for Material {
    type V = MaterialView;

    open spec fn view(&self) -> MaterialView {
        MaterialView {
            color: self.color@,
            ambient: self.ambient@,
            diffuse: self.diffuse@,
            specular: self.specular@,
            shininess: self.shininess as nat,
        }
    }
}

/// The sum of the three lighting contributions, folded as the executable
/// code folds it.
pub open spec fn csum3(a: ColorView, b: ColorView, c: ColorView) -> Result<ColorView, Error> {
    match ccadd(a, b) {
        None => Err(Error::OutOfRange),
        Some(s1) => match ccadd(s1, c) {
            None => Err(Error::OutOfRange),
            Some(s2) => Ok(s2),
        },
    }
}

/// The Phong lighting computation, step for step as the executable code
/// performs it: the effective color, the light direction normalized on the
/// root grid, the ambient term, and the diffuse and specular terms where the
/// light and the reflection face the surface.
pub open spec fn lighting_mirror(
    m: MaterialView,
    lp: TupleView,
    li: ColorView,
    pos: TupleView,
    eyev: TupleView,
    normalv: TupleView,
) -> Result<ColorView, Error> {
    match ccmulc(m.color, li) {
        None => Err(Error::OutOfRange),
        Some(effc) => match ctsub(lp, pos) {
            None => Err(Error::OutOfRange),
            Some(lv_raw) => match normalized_mirror(lv_raw) {
                Err(e) => Err(e),
                Ok(lv) => match ccmulk(effc, m.ambient) {
                    None => Err(Error::OutOfRange),
                    Some(amb) => match dot_checked(lv, normalv) {
                        None => Err(Error::OutOfRange),
                        Some(ldn) => if flt(ldn, fzero()) {
                            csum3(amb, cblack(), cblack())
                        } else {
                            match ccmulk(effc, m.diffuse) {
                                None => Err(Error::OutOfRange),
                                Some(d1) => match ccmulk(d1, ldn) {
                                    None => Err(Error::OutOfRange),
                                    Some(diff) => match reflect_mirror(tneg(lv), normalv) {
                                        Err(e) => Err(e),
                                        Ok(rv) => match dot_checked(rv, eyev) {
                                            None => Err(Error::OutOfRange),
                                            Some(rde) => if fle(rde, fzero()) {
                                                csum3(amb, diff, cblack())
                                            } else {
                                                match cpow(rde, m.shininess) {
                                                    None => Err(Error::OutOfRange),
                                                    Some(factor) => match ccmulk(li, m.specular) {
                                                        None => Err(Error::OutOfRange),
                                                        Some(s1) => match ccmulk(s1, factor) {
                                                            None => Err(Error::OutOfRange),
                                                            Some(spec) => csum3(amb, diff, spec),
                                                        },
                                                    },
                                                }
                                            },
                                        },
                                    },
                                },
                            }
                        },
                    },
                },
            },
        },
    }
}

/// The default material: white, ambient 1/10, diffuse and specular 9/10,
/// shininess 200.
pub open spec fn is_default_material(m: MaterialView) -> bool {
    &&& ceq(m.color, ColorView { r: fone(), g: fone(), b: fone() })
    &&& feq(m.ambient, Frac { n: 1, d: 10 })
    &&& feq(m.diffuse, Frac { n: 9, d: 10 })
    &&& feq(m.specular, Frac { n: 9, d: 10 })
    &&& m.shininess == 200
}

impl Material {
    /// Well-formed: the color and the nonnegative coefficients are
    /// well-formed and the shininess is at least one.
    pub open spec fn wf(self) -> bool {
        &&& self.color.wf()
        &&& self.ambient.wf() && self.ambient@.n >= 0
        &&& self.diffuse.wf() && self.diffuse@.n >= 0
        &&& self.specular.wf() && self.specular@.n >= 0
        &&& self.shininess >= 1
    }

    /// A material from its color, coefficients and shininess.
    pub fn new(color: Color, ambient: Scalar, diffuse: Scalar, specular: Scalar, shininess: u32) -> (r:
        Material)
        requires
            color.wf(),
            ambient.wf(),
            ambient@.n >= 0,
            diffuse.wf(),
            diffuse@.n >= 0,
            specular.wf(),
            specular@.n >= 0,
            shininess >= 1,
        ensures
            r.wf(),
            r.color == color,
            r.ambient == ambient,
            r.diffuse == diffuse,
            r.specular == specular,
            r.shininess == shininess,
    {
        Material { color, ambient, diffuse, specular, shininess }
    }

    /// The default material: white, ambient 1/10, diffuse and specular 9/10,
    /// shininess 200.
    pub fn default() -> (r: Material)
        ensures
            r.wf(),
            is_default_material(r@),
    {
        let ambient = Scalar::new(1, 10);
        let diffuse = Scalar::new(9, 10);
        let specular = Scalar::new(9, 10);
        proof {
            crate::frac::lemma_feq_sign(ambient@, Frac { n: 1, d: 10 });
            crate::frac::lemma_feq_sign(diffuse@, Frac { n: 9, d: 10 });
            crate::frac::lemma_feq_sign(specular@, Frac { n: 9, d: 10 });
        }
        Material::new(Color::white(), ambient, diffuse, specular, 200)
    }

    /// The Phong lighting of a point: the ambient term always, the diffuse
    /// term when the light faces the surface, and the specular term when the
    /// reflection faces the eye. A light sitting exactly on the point is a
    /// zero-magnitude normalization error.
    #[verifier::rlimit(100)]
    pub fn lighting(
        &self,
        light: PointLight,
        position: Tuple,
        eye_vector: Tuple,
        normal_vector: Tuple,
    ) -> (r: Result<Color, Error>)
        requires
            self.wf(),
            light.wf(),
            position.wf(),
            eye_vector.wf(),
            normal_vector.wf(),
        ensures
            match r {
                Ok(c) => c.wf() && lighting_mirror(
                    self@,
                    light@.position,
                    light@.intensity,
                    position@,
                    eye_vector@,
                    normal_vector@,
                ) == Ok::<ColorView, Error>(c@),
                Err(e) => lighting_mirror(
                    self@,
                    light@.position,
                    light@.intensity,
                    position@,
                    eye_vector@,
                    normal_vector@,
                ) == Err::<ColorView, Error>(e),
            },
    {
        let effective_color = self.color.mul_color(light.intensity)?;
        let lv_raw = light.position.sub(position)?;
        let light_vector = lv_raw.normalized()?;
        let ambient_contrib = effective_color.mul(self.ambient)?;
        let light_dot_normal = light_vector.dot(&normal_vector)?;
        let zero = Scalar::zero();
        let (diffuse_contrib, specular_contrib) = if light_dot_normal.lt(&zero) {
            (Color::black(), Color::black())
        } else {
            let diffuse_contrib = effective_color.mul(self.diffuse)?.mul(light_dot_normal)?;
            let reflected_vector = light_vector.neg().reflect(normal_vector)?;
            let reflect_dot_eye = reflected_vector.dot(&eye_vector)?;
            let specular_contrib = if reflect_dot_eye.le(&zero) {
                Color::black()
            } else {
                let factor = reflect_dot_eye.pow(self.shininess)?;
                light.intensity.mul(self.specular)?.mul(factor)?
            };
            (diffuse_contrib, specular_contrib)
        };
        let r = ambient_contrib.add(diffuse_contrib)?.add(specular_contrib)?;
        Ok(r)
    }
}

/// Two materials denote the same values.
pub open spec fn material_eqv(a: Material, b: Material) -> bool {
    &&& ceq(a@.color, b@.color)
    &&& feq(a@.ambient, b@.ambient)
    &&& feq(a@.diffuse, b@.diffuse)
    &&& feq(a@.specular, b@.specular)
    &&& a.shininess == b.shininess
}

impl PartialEq for Material {
    /// Materials are equal when every part denotes the same value.
    fn eq(&self, other: &Material) -> (r: bool) {
        self.color == other.color && self.ambient == other.ambient && self.diffuse == other.diffuse
            && self.specular == other.specular && self.shininess == other.shininess
    }
}

impl vstd::std_specs::cmp::PartialEqSpecImpl for Material {
    open spec fn obeys_eq_spec() -> bool {
        true
    }

    open spec fn eq_spec(&self, other: &Material) -> bool {
        material_eqv(*self, *other)
    }
}

} // verus!
