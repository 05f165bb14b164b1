//! The unit sphere in object space, carrying an affine transform and a
//! material. Intersections are computed by pulling the ray into object space
//! through the inverse transform and solving the quadratic exactly; normals
//! are pushed back through the transpose of the inverse.
use crate::frac::{
    cadd, cmul, cnorm, csub, fdiv, feq, ffrom, flt, fmul, fneg, fred, fwf, fzero, lemma_cnorm,
    lemma_feq_sign, Frac,
};
use crate::intersections::{Intersectable, Intersection, Intersections};
use crate::material::{is_default_material, Material, MaterialView};
use crate::matrix::{cinverse, cmt, strans, Matrix};
use crate::ray::Ray;
use crate::scalar::{root_floor, Scalar};
use crate::tuple::{
    ctsub, dot_checked, normalized_mirror, teq, Tuple, TupleView,
};
use crate::Error;
use vstd::prelude::*;

verus! {

/// A unit sphere in object space, placed in the world by its transform.
#[derive(Debug)]
pub struct Sphere {
    pub origin: Tuple,
    pub radius: Scalar,
    pub transform: Matrix,
    pub material: Material,
}

/// The exact values of a sphere.
pub ghost struct SphereView {
    pub origin: TupleView,
    pub radius: Frac,
    pub transform: Seq<Seq<Frac>>,
    pub material: MaterialView,
}

impl View for Sphere {
    type V = SphereView;

    open spec fn view(&self) -> SphereView {
        SphereView {
            origin: self.origin@,
            radius: self.radius@,
            transform: self.transform@,
            material: self.material@,
        }
    }
}

/// The `t` values of a ray against a sphere, step for step as the executable
/// code computes them: the ray is carried into object space by the inverse
/// transform, the quadratic coefficients are formed, a zero leading
/// coefficient is a degenerate direction, a negative discriminant yields no
/// roots, and otherwise the two roots use the grid square root of the
/// discriminant.
pub open spec fn intersections_mirror(s: SphereView, ro: TupleView, rd: TupleView) -> Result<
    Seq<Frac>,
    Error,
> {
    match cinverse(s.transform) {
        Err(e) => Err(e),
        Ok(inv) => match cmt(inv, ro) {
            None => Err(Error::OutOfRange),
            Some(to) => match cmt(inv, rd) {
                None => Err(Error::OutOfRange),
                Some(td) => match ctsub(to, s.origin) {
                    None => Err(Error::OutOfRange),
                    Some(str0) => match dot_checked(td, td) {
                        None => Err(Error::OutOfRange),
                        Some(av) => if av.n == 0 {
                            Err(Error::DegenerateDirection)
                        } else {
                            match dot_checked(td, str0) {
                                None => Err(Error::OutOfRange),
                                Some(b0) => match cmul(Some(b0), Some(Frac { n: 2, d: 1 })) {
                                    None => Err(Error::OutOfRange),
                                    Some(bv) => match dot_checked(str0, str0) {
                                        None => Err(Error::OutOfRange),
                                        Some(c0) => match cmul(Some(s.radius), Some(s.radius)) {
                                            None => Err(Error::OutOfRange),
                                            Some(rr) => match csub(Some(c0), Some(rr)) {
                                                None => Err(Error::OutOfRange),
                                                Some(cv) => roots_mirror(av, bv, cv),
                                            },
                                        },
                                    },
                                },
                            }
                        },
                    },
                },
            },
        },
    }
}

/// The roots of `a t^2 + b t + c`, as the executable code computes them.
pub open spec fn roots_mirror(av: Frac, bv: Frac, cv: Frac) -> Result<Seq<Frac>, Error> {
    match cmul(Some(bv), Some(bv)) {
        None => Err(Error::OutOfRange),
        Some(bb) => match cmul(Some(Frac { n: 4, d: 1 }), Some(av)) {
            None => Err(Error::OutOfRange),
            Some(fa) => match cmul(Some(fa), Some(cv)) {
                None => Err(Error::OutOfRange),
                Some(fac) => match csub(Some(bb), Some(fac)) {
                    None => Err(Error::OutOfRange),
                    Some(dv) => if flt(dv, fzero()) {
                        Ok(Seq::<Frac>::empty())
                    } else {
                        let sq = fred(root_floor(dv));
                        match cmul(Some(Frac { n: 2, d: 1 }), Some(av)) {
                            None => Err(Error::OutOfRange),
                            Some(ta) => match csub(Some(fneg(bv)), Some(sq)) {
                                None => Err(Error::OutOfRange),
                                Some(t1n) => match cnorm(fdiv(t1n, ta)) {
                                    None => Err(Error::OutOfRange),
                                    Some(t1) => match cadd(Some(fneg(bv)), Some(sq)) {
                                        None => Err(Error::OutOfRange),
                                        Some(t2n) => match cnorm(fdiv(t2n, ta)) {
                                            None => Err(Error::OutOfRange),
                                            Some(t2) => Ok(seq![t1, t2]),
                                        },
                                    },
                                },
                            },
                        }
                    },
                },
            },
        },
    }
}

/// The `t` values of a successful intersection computation.
pub open spec fn mirror_ts(s: SphereView, ro: TupleView, rd: TupleView) -> Seq<Frac> {
    match intersections_mirror(s, ro, rd) {
        Ok(ts) => ts,
        Err(_) => Seq::<Frac>::empty(),
    }
}

/// What a returned intersection collection holds: the mirrored `t` values in
/// ascending order, each paired with a copy of the sphere.
pub open spec fn intersections_post(
    s: Sphere,
    ro: TupleView,
    rd: TupleView,
    r: Result<Intersections, Error>,
) -> bool {
    match r {
        Ok(xs) => {
            &&& xs.wf()
            &&& intersections_mirror(s@, ro, rd) is Ok
            &&& (mirror_ts(s@, ro, rd).len() == 0 ==> xs.data@.len() == 0)
            &&& (mirror_ts(s@, ro, rd).len() == 2 ==> {
                let ts = mirror_ts(s@, ro, rd);
                &&& xs.data@.len() == 2
                &&& ((xs.data@[0].t@ == ts[0] && xs.data@[1].t@ == ts[1]) || (xs.data@[0].t@
                    == ts[1] && xs.data@[1].t@ == ts[0]))
                &&& (forall|k: int|
                    0 <= k < 2 ==> ((#[trigger] xs.data@[k]).intersectable matches
                    Intersectable::Sphere(s2) && s2@ == s@))
            })
        },
        Err(e) => intersections_mirror(s@, ro, rd) == Err::<Seq<Frac>, Error>(e),
    }
}

/// The world normal, step for step as the executable code computes it: the
/// point is pulled into object space, the object normal is the offset from
/// the center, it is pushed back through the transpose of the inverse, its
/// `w` component is forced to zero, and it is normalized on the root grid.
pub open spec fn normal_mirror(s: SphereView, wp: TupleView) -> Result<TupleView, Error> {
    match cinverse(s.transform) {
        Err(e) => Err(e),
        Ok(inv) => match cmt(inv, wp) {
            None => Err(Error::OutOfRange),
            Some(op) => match ctsub(op, s.origin) {
                None => Err(Error::OutOfRange),
                Some(onrm) => match cmt(strans(inv), onrm) {
                    None => Err(Error::OutOfRange),
                    Some(wn) => normalized_mirror(
                        TupleView { x: wn.x, y: wn.y, z: wn.z, w: fzero() },
                    ),
                },
            },
        },
    }
}

/// What `normal_at` returns.
pub open spec fn normal_post(s: Sphere, wp: TupleView, r: Result<Tuple, Error>) -> bool {
    match r {
        Ok(t) => t.wf() && normal_mirror(s@, wp) == Ok::<TupleView, Error>(t@),
        Err(e) => normal_mirror(s@, wp) == Err::<TupleView, Error>(e),
    }
}

impl Sphere {
    /// Well-formed: the parts are well-formed and the transform is 4 by 4.
    pub open spec fn wf(self) -> bool {
        &&& self.origin.wf()
        &&& self.radius.wf()
        &&& self.transform.wf()
        &&& self.transform.width == 4
        &&& self.transform.height == 4
        &&& self.material.wf()
    }

    /// A sphere at the given center with the given radius, the identity
    /// transform and the default material.
    pub fn new(origin: Tuple, radius: Scalar) -> (r: Sphere)
        requires
            origin.wf(),
            radius.wf(),
        ensures
            r.wf(),
            r.origin == origin,
            r.radius == radius,
            forall|i: int, j: int|
                0 <= i < 4 && 0 <= j < 4 ==> #[trigger] r.transform@[i][j] == if i == j {
                    crate::frac::fone()
                } else {
                    fzero()
                },
            is_default_material(r.material@),
    {
        Sphere {
            origin,
            radius,
            transform: Matrix::identity(4),
            material: Material::default(),
        }
    }

    /// The canonical unit sphere at the origin.
    pub fn unit() -> (r: Sphere)
        ensures
            r.wf(),
            r.origin@ == (TupleView {
                x: fzero(),
                y: fzero(),
                z: fzero(),
                w: crate::frac::fone(),
            }),
            r.radius@ == crate::frac::fone(),
            forall|i: int, j: int|
                0 <= i < 4 && 0 <= j < 4 ==> #[trigger] r.transform@[i][j] == if i == j {
                    crate::frac::fone()
                } else {
                    fzero()
                },
            is_default_material(r.material@),
    {
        Sphere::new(Tuple::origin(), Scalar::one())
    }

    /// A copy of this sphere in fresh storage, denoting the same values.
    fn duplicate(&self) -> (r: Sphere)
        requires
            self.wf(),
        ensures
            r.wf(),
            r@ == self@,
    {
        Sphere {
            origin: self.origin,
            radius: self.radius,
            transform: self.transform.copy_of(),
            material: self.material,
        }
    }

    /// The intersections of a world-space ray with this sphere, sorted
    /// ascending by `t`: none when the ray misses, and the two quadratic
    /// roots (equal at a tangent) when it strikes.
    #[verifier::rlimit(100)]
    pub fn intersections(&self, ray: &Ray) -> (r: Result<Intersections, Error>)
        requires
            self.wf(),
            ray.wf(),
        ensures
            intersections_post(*self, ray.origin@, ray.direction@, r),
    {
        let inv = match self.transform.inverse() {
            Ok(m) => m,
            Err(e) => {
                proof {
                    self.transform.lemma_inverse_mirror(Err(e));
                }
                return Err(e);
            },
        };
        proof {
            self.transform.lemma_inverse_mirror(Ok(inv));
        }
        let transformed_ray = ray.transform(&inv)?;
        let sphere_to_ray = transformed_ray.origin.sub(self.origin)?;
        let a = transformed_ray.direction.dot(&transformed_ray.direction)?;
        if a.is_zero() {
            return Err(Error::DegenerateDirection);
        }
        let two = Scalar::from_int(2);
        let b = transformed_ray.direction.dot(&sphere_to_ray)?.mul(two)?;
        let c0 = sphere_to_ray.dot(&sphere_to_ray)?;
        let rr = self.radius.mul(self.radius)?;
        let c = c0.sub(rr)?;
        let bb = b.mul(b)?;
        let four = Scalar::from_int(4);
        let fa = four.mul(a)?;
        let fac = fa.mul(c)?;
        let d = bb.sub(fac)?;
        let zero = Scalar::zero();
        if d.lt(&zero) {
            let empty: Vec<Intersection> = Vec::new();
            let xs = Intersections::new(empty);
            return Ok(xs);
        }
        proof {
            assert(d@.n >= 0);
        }
        let sq = d.sqrt_floor();
        let two_a = two.mul(a)?;
        proof {
            assert(fwf(fmul(ffrom(2), a@))) by (nonlinear_arith)
                requires
                    fwf(a@),
            ;
            lemma_cnorm(fmul(ffrom(2), a@));
            assert(fmul(ffrom(2), a@).n != 0) by (nonlinear_arith)
                requires
                    a@.n != 0,
                    fmul(ffrom(2), a@).n == 2 * a@.n,
            ;
            lemma_feq_sign(two_a@, fmul(ffrom(2), a@));
        }
        let neg_b = b.neg();
        let t1 = neg_b.sub(sq)?.div(two_a)?;
        let t2 = neg_b.add(sq)?.div(two_a)?;
        let i1 = Intersection::new(t1, Intersectable::Sphere(self.duplicate()));
        let i2 = Intersection::new(t2, Intersectable::Sphere(self.duplicate()));
        let ghost gi1 = i1;
        let ghost gi2 = i2;
        let mut items: Vec<Intersection> = Vec::new();
        items.push(i1);
        items.push(i2);
        proof {
            assert(items@ =~= seq![gi1, gi2]);
        }
        let xs = Intersections::new(items);
        proof {
            crate::intersections::lemma_two_perm(xs.data@, gi1, gi2);
        }
        Ok(xs)
    }

    /// The unit surface normal of the sphere at a world-space point, on the
    /// root grid: exact whenever the true normal's magnitude lies on the
    /// grid, as it does for an untransformed sphere.
    #[verifier::rlimit(100)]
    pub fn normal_at(&self, world_point: Tuple) -> (r: Result<Tuple, Error>)
        requires
            self.wf(),
            world_point.wf(),
        ensures
            normal_post(*self, world_point@, r),
    {
        let inv = match self.transform.inverse() {
            Ok(m) => m,
            Err(e) => {
                proof {
                    self.transform.lemma_inverse_mirror(Err(e));
                }
                return Err(e);
            },
        };
        proof {
            self.transform.lemma_inverse_mirror(Ok(inv));
        }
        let object_point = inv.mul_tuple(&world_point)?;
        let object_normal = object_point.sub(self.origin)?;
        let invt = inv.transposed();
        proof {
            assert forall|i: int| 0 <= i < 4 implies #[trigger] invt@[i] == strans(inv@)[i] by {
                assert(invt@[i] =~= strans(inv@)[i]);
            }
            assert(invt@ =~= strans(inv@));
        }
        let world_normal = invt.mul_tuple(&object_normal)?;
        let flattened = Tuple::new(
            world_normal.x,
            world_normal.y,
            world_normal.z,
            Scalar::zero(),
        );
        let n = flattened.normalized()?;
        Ok(n)
    }
}

impl Intersectable {
    /// The intersections of a ray with the carried shape.
    pub fn intersections(&self, ray: &Ray) -> (r: Result<Intersections, Error>)
        requires
            self.wf(),
            ray.wf(),
        ensures
            match *self {
                Intersectable::Sphere(s) => intersections_post(s, ray.origin@, ray.direction@, r),
            },
    {
        match self {
            Intersectable::Sphere(s) => s.intersections(ray),
        }
    }

    /// The surface normal of the carried shape at a world-space point.
    pub fn normal_at(&self, position: Tuple) -> (r: Result<Tuple, Error>)
        requires
            self.wf(),
            position.wf(),
        ensures
            match *self {
                Intersectable::Sphere(s) => normal_post(s, position@, r),
            },
    {
        match self {
            Intersectable::Sphere(s) => s.normal_at(position),
        }
    }

    /// The material of the carried shape.
    pub fn get_material(&self) -> (r: Material)
        requires
            self.wf(),
        ensures
            match *self {
                Intersectable::Sphere(s) => r == s.material,
            },
            r.wf(),
    {
        match self {
            Intersectable::Sphere(s) => s.material,
        }
    }
}

/// Two spheres denote the same values.
pub open spec fn sphere_eqv(a: Sphere, b: Sphere) -> bool {
    &&& teq(a@.origin, b@.origin)
    &&& feq(a@.radius, b@.radius)
    &&& crate::matrix::matrix_eqv(a.transform, b.transform)
    &&& crate::material::material_eqv(a.material, b.material)
}

impl PartialEq for Sphere {
    /// Spheres are equal when center, radius, transform and material all
    /// denote the same values.
    fn eq(&self, other: &Sphere) -> (r: bool) {
        self.origin == other.origin && self.radius == other.radius && self.transform
            == other.transform && self.material == other.material
    }
}

impl vstd::std_specs::cmp::PartialEqSpecImpl for Sphere {
    open spec fn obeys_eq_spec() -> bool {
        true
    }

    open spec fn eq_spec(&self, other: &Sphere) -> bool {
        sphere_eqv(*self, *other)
    }
}

} // verus!
