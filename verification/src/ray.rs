//! Rays: an origin point and a direction vector. A ray can report the point
//! at a parameter, be carried through an affine transform, and be cast
//! against a shape.
use crate::frac::{cadd, cmul, Frac};
use crate::intersections::{Intersectable, Intersections};
use crate::matrix::{cmt, Matrix};
use crate::scalar::Scalar;
use crate::sphere::intersections_post;
use crate::tuple::{Tuple, TupleView};
use crate::Error;
use vstd::prelude::*;

verus! {

/// A ray from an origin along a direction.
#[derive(Clone, Copy, Debug)]
pub struct Ray {
    pub origin: Tuple,
    pub direction: Tuple,
}

/// One component of `origin + direction * t`, as the executable code
/// computes it.
pub open spec fn cposition(o: Frac, d: Frac, t: Frac) -> Option<Frac> {
    cadd(Some(o), cmul(Some(d), Some(t)))
}

impl Ray {
    /// Well-formed: origin and direction are well-formed tuples.
    pub open spec fn wf(self) -> bool {
        self.origin.wf() && self.direction.wf()
    }

    /// A ray from its origin and direction.
    pub fn new(origin: Tuple, direction: Tuple) -> (r: Ray)
        requires
            origin.wf(),
            direction.wf(),
        ensures
            r.wf(),
            r.origin == origin,
            r.direction == direction,
    {
        Ray { origin, direction }
    }

    /// The point at parameter `distance`: `origin + direction * distance`.
    pub fn position(&self, distance: Scalar) -> (r: Result<Tuple, Error>)
        requires
            self.wf(),
            distance.wf(),
        ensures
            match r {
                Ok(p) => {
                    &&& p.wf()
                    &&& Some(p@.x) == cposition(self.origin@.x, self.direction@.x, distance@)
                    &&& Some(p@.y) == cposition(self.origin@.y, self.direction@.y, distance@)
                    &&& Some(p@.z) == cposition(self.origin@.z, self.direction@.z, distance@)
                    &&& Some(p@.w) == cposition(self.origin@.w, self.direction@.w, distance@)
                },
                Err(e) => e == Error::OutOfRange && (cposition(
                    self.origin@.x,
                    self.direction@.x,
                    distance@,
                ) == None::<Frac> || cposition(self.origin@.y, self.direction@.y, distance@)
                    == None::<Frac> || cposition(self.origin@.z, self.direction@.z, distance@)
                    == None::<Frac> || cposition(self.origin@.w, self.direction@.w, distance@)
                    == None::<Frac>),
            },
    {
        let scaled = self.direction.mul(distance)?;
        let p = self.origin.add(scaled)?;
        Ok(p)
    }

    /// The ray carried through a 4 by 4 matrix: both origin and direction are
    /// mapped, so a translation moves the origin but leaves the direction
    /// unchanged, since the direction has `w = 0`.
    pub fn transform(&self, matrix: &Matrix) -> (r: Result<Ray, Error>)
        requires
            self.wf(),
            matrix.wf(),
            matrix.width == 4,
            matrix.height == 4,
        ensures
            match r {
                Ok(r2) => {
                    &&& r2.wf()
                    &&& cmt(matrix@, self.origin@) == Some(r2.origin@)
                    &&& cmt(matrix@, self.direction@) == Some(r2.direction@)
                },
                Err(e) => e == Error::OutOfRange && (cmt(matrix@, self.origin@) == None::<TupleView>
                    || cmt(matrix@, self.direction@) == None::<TupleView>),
            },
    {
        let o = match matrix.mul_tuple(&self.origin) {
            Ok(t) => t,
            Err(e) => {
                proof {
                    crate::matrix::lemma_cmt_none(matrix@, self.origin@);
                }
                return Err(e);
            },
        };
        let d = match matrix.mul_tuple(&self.direction) {
            Ok(t) => t,
            Err(e) => {
                proof {
                    crate::matrix::lemma_cmt_none(matrix@, self.direction@);
                }
                return Err(e);
            },
        };
        Ok(Ray { origin: o, direction: d })
    }

    /// Casts the ray against a shape.
    pub fn intersect(&self, intersectable: &Intersectable) -> (r: Result<Intersections, Error>)
        requires
            self.wf(),
            intersectable.wf(),
        ensures
            match *intersectable {
                Intersectable::Sphere(s) => intersections_post(
                    s,
                    self.origin@,
                    self.direction@,
                    r,
                ),
            },
    {
        intersectable.intersections(self)
    }
}

} // verus!
