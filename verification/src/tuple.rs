//! Homogeneous 4-component tuples over exact scalars. A point carries `w = 1`,
//! a vector `w = 0`; all arithmetic is defined uniformly over the four
//! components, so subtracting two points yields a vector by itself.
use crate::frac::{
    cadd, cmul, cnorm, csub, fadd, fdiv, feq, fle, flt, fmul, fneg, fone, fsub, fwf, fzero,
    lemma_fadd_congr, lemma_feq_sign, lemma_feq_trans, lemma_fle_congr, lemma_fmul_congr,
    lemma_fred, Frac,
};
use crate::scalar::{root_floor, Scalar};
use crate::Error;
use vstd::prelude::*;

verus! {

/// A homogeneous coordinate tuple.
#[derive(Clone, Copy, Debug)]
pub struct Tuple {
    pub x: Scalar,
    pub y: Scalar,
    pub z: Scalar,
    pub w: Scalar,
}

/// A point in space is a tuple with `w = 1`.
pub type Point3 = Tuple;

/// A direction in space is a tuple with `w = 0`.
pub type Vector3 = Tuple;

/// The exact values of the four components.
pub ghost struct TupleView {
    pub x: Frac,
    pub y: Frac,
    pub z: Frac,
    pub w: Frac,
}

impl View for Tuple {
    type V = TupleView;

    open spec fn view(&self) -> TupleView {
        TupleView { x: self.x@, y: self.y@, z: self.z@, w: self.w@ }
    }
}

/// All four components are well-formed fractions.
pub open spec fn twf(v: TupleView) -> bool {
    fwf(v.x) && fwf(v.y) && fwf(v.z) && fwf(v.w)
}

/// Componentwise equality of values.
pub open spec fn teq(a: TupleView, b: TupleView) -> bool {
    feq(a.x, b.x) && feq(a.y, b.y) && feq(a.z, b.z) && feq(a.w, b.w)
}

/// The exact dot product over all four components.
pub open spec fn dot_plain(a: TupleView, b: TupleView) -> Frac {
    fadd(fadd(fadd(fmul(a.x, b.x), fmul(a.y, b.y)), fmul(a.z, b.z)), fmul(a.w, b.w))
}

/// The dot product as the executable code folds it, with each partial result
/// reduced and range-checked.
pub open spec fn dot_checked(a: TupleView, b: TupleView) -> Option<Frac> {
    cadd(
        cadd(
            cadd(cmul(Some(a.x), Some(b.x)), cmul(Some(a.y), Some(b.y))),
            cmul(Some(a.z), Some(b.z)),
        ),
        cmul(Some(a.w), Some(b.w)),
    )
}

/// The grid magnitude: the floor square root of the self dot product.
pub open spec fn magnitude_checked(a: TupleView) -> Option<Frac> {
    match dot_checked(a, a) {
        Some(d) => Some(crate::frac::fred(root_floor(d))),
        None => None,
    }
}

/// Checked quotient of a component by a nonzero scalar.
pub open spec fn cdiv(x: Frac, k: Frac) -> Option<Frac> {
    cnorm(fdiv(x, k))
}

/// What `normalized` returns, step for step: the magnitude on the root grid,
/// an explicit error when it is zero, and the componentwise quotient.
pub open spec fn normalized_mirror(a: TupleView) -> Result<TupleView, Error> {
    match magnitude_checked(a) {
        None => Err(Error::OutOfRange),
        Some(m) => if m.n == 0 {
            Err(Error::ZeroMagnitudeNormalize)
        } else {
            match (cdiv(a.x, m), cdiv(a.y, m), cdiv(a.z, m), cdiv(a.w, m)) {
                (Some(x), Some(y), Some(z), Some(w)) => Ok(TupleView { x, y, z, w }),
                _ => Err(Error::OutOfRange),
            }
        },
    }
}

/// What `reflect` returns, step for step:
/// `self - normal * (2 * dot(self, normal))`.
pub open spec fn reflect_mirror(a: TupleView, n: TupleView) -> Result<TupleView, Error> {
    match dot_checked(a, n) {
        None => Err(Error::OutOfRange),
        Some(d) => match cmul(Some(Frac { n: 2, d: 1 }), Some(d)) {
            None => Err(Error::OutOfRange),
            Some(k) => match (
                cmul(Some(n.x), Some(k)),
                cmul(Some(n.y), Some(k)),
                cmul(Some(n.z), Some(k)),
                cmul(Some(n.w), Some(k)),
            ) {
                (Some(sx), Some(sy), Some(sz), Some(sw)) => match (
                    csub(Some(a.x), Some(sx)),
                    csub(Some(a.y), Some(sy)),
                    csub(Some(a.z), Some(sz)),
                    csub(Some(a.w), Some(sw)),
                ) {
                    (Some(x), Some(y), Some(z), Some(w)) => Ok(TupleView { x, y, z, w }),
                    _ => Err(Error::OutOfRange),
                },
                _ => Err(Error::OutOfRange),
            },
        },
    }
}

/// Checked componentwise difference of two tuples.
pub open spec fn ctsub(a: TupleView, b: TupleView) -> Option<TupleView> {
    match (
        csub(Some(a.x), Some(b.x)),
        csub(Some(a.y), Some(b.y)),
        csub(Some(a.z), Some(b.z)),
        csub(Some(a.w), Some(b.w)),
    ) {
        (Some(x), Some(y), Some(z), Some(w)) => Some(TupleView { x, y, z, w }),
        _ => None,
    }
}

/// Checked componentwise sum of two tuples.
pub open spec fn ctadd(a: TupleView, b: TupleView) -> Option<TupleView> {
    match (
        cadd(Some(a.x), Some(b.x)),
        cadd(Some(a.y), Some(b.y)),
        cadd(Some(a.z), Some(b.z)),
        cadd(Some(a.w), Some(b.w)),
    ) {
        (Some(x), Some(y), Some(z), Some(w)) => Some(TupleView { x, y, z, w }),
        _ => None,
    }
}

/// Exact componentwise negation of a tuple value.
pub open spec fn tneg(a: TupleView) -> TupleView {
    TupleView { x: fneg(a.x), y: fneg(a.y), z: fneg(a.z), w: fneg(a.w) }
}

/// A self dot product is never negative.
pub proof fn lemma_self_dot_nonneg(a: TupleView)
    requires
        twf(a),
    ensures
        fwf(dot_plain(a, a)),
        dot_plain(a, a).n >= 0,
{
    let xx = fmul(a.x, a.x);
    let yy = fmul(a.y, a.y);
    let zz = fmul(a.z, a.z);
    let ww = fmul(a.w, a.w);
    assert(xx.n >= 0 && xx.d >= 1 && yy.n >= 0 && yy.d >= 1 && zz.n >= 0 && zz.d >= 1 && ww.n >= 0
        && ww.d >= 1) by (nonlinear_arith)
        requires
            twf(a),
            xx == fmul(a.x, a.x),
            yy == fmul(a.y, a.y),
            zz == fmul(a.z, a.z),
            ww == fmul(a.w, a.w),
    ;
    lemma_fadd_nonneg(xx, yy);
    lemma_fadd_nonneg(fadd(xx, yy), zz);
    lemma_fadd_nonneg(fadd(fadd(xx, yy), zz), ww);
}

/// A sum of nonnegative fractions is nonnegative.
proof fn lemma_fadd_nonneg(a: Frac, b: Frac)
    by (nonlinear_arith)
    requires
        a.n >= 0,
        a.d >= 1,
        b.n >= 0,
        b.d >= 1,
    ensures
        fadd(a, b).n >= 0,
        fadd(a, b).d >= 1,
{
}

impl Tuple {
    /// Well-formed: every component is a well-formed scalar.
    pub open spec fn wf(self) -> bool {
        self.x.wf() && self.y.wf() && self.z.wf() && self.w.wf()
    }

    /// A tuple from its four components.
    pub fn new(x: Scalar, y: Scalar, z: Scalar, w: Scalar) -> (r: Tuple)
        requires
            x.wf(),
            y.wf(),
            z.wf(),
            w.wf(),
        ensures
            r.wf(),
            r@ == (TupleView { x: x@, y: y@, z: z@, w: w@ }),
    {
        Tuple { x, y, z, w }
    }

    /// A point: `w = 1`.
    pub fn point(x: Scalar, y: Scalar, z: Scalar) -> (r: Tuple)
        requires
            x.wf(),
            y.wf(),
            z.wf(),
        ensures
            r.wf(),
            r@ == (TupleView { x: x@, y: y@, z: z@, w: fone() }),
    {
        Tuple { x, y, z, w: Scalar::one() }
    }

    /// A vector: `w = 0`.
    pub fn vector(x: Scalar, y: Scalar, z: Scalar) -> (r: Tuple)
        requires
            x.wf(),
            y.wf(),
            z.wf(),
        ensures
            r.wf(),
            r@ == (TupleView { x: x@, y: y@, z: z@, w: fzero() }),
    {
        Tuple { x, y, z, w: Scalar::zero() }
    }

    /// The point at the coordinate origin.
    pub fn origin() -> (r: Tuple)
        ensures
            r.wf(),
            r@ == (TupleView { x: fzero(), y: fzero(), z: fzero(), w: fone() }),
    {
        Tuple::point(Scalar::zero(), Scalar::zero(), Scalar::zero())
    }

    /// Whether `w` is exactly one.
    pub fn is_point(&self) -> (r: bool)
        ensures
            r == feq(self@.w, fone()),
    {
        let one = Scalar::one();
        self.w == one
    }

    /// Whether `w` is exactly zero.
    pub fn is_vector(&self) -> (r: bool)
        ensures
            r == feq(self@.w, fzero()),
    {
        self.w.is_zero()
    }

    /// Componentwise exact sum.
    pub fn add(self, other: Tuple) -> (r: Result<Tuple, Error>)
        requires
            self.wf(),
            other.wf(),
        ensures
            match r {
                Ok(t) => {
                    &&& t.wf()
                    &&& Some(t@.x) == cadd(Some(self@.x), Some(other@.x))
                    &&& Some(t@.y) == cadd(Some(self@.y), Some(other@.y))
                    &&& Some(t@.z) == cadd(Some(self@.z), Some(other@.z))
                    &&& Some(t@.w) == cadd(Some(self@.w), Some(other@.w))
                },
                Err(e) => e == Error::OutOfRange && (cadd(Some(self@.x), Some(other@.x)) == None::<
                    Frac,
                > || cadd(Some(self@.y), Some(other@.y)) == None::<Frac> || cadd(
                    Some(self@.z),
                    Some(other@.z),
                ) == None::<Frac> || cadd(Some(self@.w), Some(other@.w)) == None::<Frac>),
            },
    {
        let x = self.x.add(other.x)?;
        let y = self.y.add(other.y)?;
        let z = self.z.add(other.z)?;
        let w = self.w.add(other.w)?;
        Ok(Tuple { x, y, z, w })
    }

    /// Componentwise exact difference.
    pub fn sub(self, other: Tuple) -> (r: Result<Tuple, Error>)
        requires
            self.wf(),
            other.wf(),
        ensures
            match r {
                Ok(t) => {
                    &&& t.wf()
                    &&& Some(t@.x) == csub(Some(self@.x), Some(other@.x))
                    &&& Some(t@.y) == csub(Some(self@.y), Some(other@.y))
                    &&& Some(t@.z) == csub(Some(self@.z), Some(other@.z))
                    &&& Some(t@.w) == csub(Some(self@.w), Some(other@.w))
                },
                Err(e) => e == Error::OutOfRange && (csub(Some(self@.x), Some(other@.x)) == None::<
                    Frac,
                > || csub(Some(self@.y), Some(other@.y)) == None::<Frac> || csub(
                    Some(self@.z),
                    Some(other@.z),
                ) == None::<Frac> || csub(Some(self@.w), Some(other@.w)) == None::<Frac>),
            },
    {
        let x = self.x.sub(other.x)?;
        let y = self.y.sub(other.y)?;
        let z = self.z.sub(other.z)?;
        let w = self.w.sub(other.w)?;
        Ok(Tuple { x, y, z, w })
    }

    /// Componentwise exact negation; never fails.
    pub fn neg(self) -> (r: Tuple)
        requires
            self.wf(),
        ensures
            r.wf(),
            r@.x == fneg(self@.x),
            r@.y == fneg(self@.y),
            r@.z == fneg(self@.z),
            r@.w == fneg(self@.w),
    {
        Tuple { x: self.x.neg(), y: self.y.neg(), z: self.z.neg(), w: self.w.neg() }
    }

    /// Componentwise scaling by an exact scalar.
    pub fn mul(self, k: Scalar) -> (r: Result<Tuple, Error>)
        requires
            self.wf(),
            k.wf(),
        ensures
            match r {
                Ok(t) => {
                    &&& t.wf()
                    &&& Some(t@.x) == cmul(Some(self@.x), Some(k@))
                    &&& Some(t@.y) == cmul(Some(self@.y), Some(k@))
                    &&& Some(t@.z) == cmul(Some(self@.z), Some(k@))
                    &&& Some(t@.w) == cmul(Some(self@.w), Some(k@))
                },
                Err(e) => e == Error::OutOfRange && (cmul(Some(self@.x), Some(k@)) == None::<Frac>
                    || cmul(Some(self@.y), Some(k@)) == None::<Frac> || cmul(
                    Some(self@.z),
                    Some(k@),
                ) == None::<Frac> || cmul(Some(self@.w), Some(k@)) == None::<Frac>),
            },
    {
        let x = self.x.mul(k)?;
        let y = self.y.mul(k)?;
        let z = self.z.mul(k)?;
        let w = self.w.mul(k)?;
        Ok(Tuple { x, y, z, w })
    }

    /// Componentwise product of two tuples.
    pub fn mul_tuple(self, other: Tuple) -> (r: Result<Tuple, Error>)
        requires
            self.wf(),
            other.wf(),
        ensures
            match r {
                Ok(t) => {
                    &&& t.wf()
                    &&& Some(t@.x) == cmul(Some(self@.x), Some(other@.x))
                    &&& Some(t@.y) == cmul(Some(self@.y), Some(other@.y))
                    &&& Some(t@.z) == cmul(Some(self@.z), Some(other@.z))
                    &&& Some(t@.w) == cmul(Some(self@.w), Some(other@.w))
                },
                Err(e) => e == Error::OutOfRange && (cmul(Some(self@.x), Some(other@.x)) == None::<
                    Frac,
                > || cmul(Some(self@.y), Some(other@.y)) == None::<Frac> || cmul(
                    Some(self@.z),
                    Some(other@.z),
                ) == None::<Frac> || cmul(Some(self@.w), Some(other@.w)) == None::<Frac>),
            },
    {
        let x = self.x.mul(other.x)?;
        let y = self.y.mul(other.y)?;
        let z = self.z.mul(other.z)?;
        let w = self.w.mul(other.w)?;
        Ok(Tuple { x, y, z, w })
    }

    /// Componentwise division by an exact scalar; a zero divisor is its own
    /// error.
    pub fn div(self, k: Scalar) -> (r: Result<Tuple, Error>)
        requires
            self.wf(),
            k.wf(),
        ensures
            match r {
                Ok(t) => {
                    &&& k@.n != 0
                    &&& t.wf()
                    &&& Some(t@.x) == cdiv(self@.x, k@)
                    &&& Some(t@.y) == cdiv(self@.y, k@)
                    &&& Some(t@.z) == cdiv(self@.z, k@)
                    &&& Some(t@.w) == cdiv(self@.w, k@)
                },
                Err(e) => if k@.n == 0 {
                    e == Error::DivisionByZero
                } else {
                    e == Error::OutOfRange && (cdiv(self@.x, k@) == None::<Frac> || cdiv(
                        self@.y,
                        k@,
                    ) == None::<Frac> || cdiv(self@.z, k@) == None::<Frac> || cdiv(self@.w, k@)
                        == None::<Frac>)
                },
            },
    {
        let x = self.x.div(k)?;
        let y = self.y.div(k)?;
        let z = self.z.div(k)?;
        let w = self.w.div(k)?;
        Ok(Tuple { x, y, z, w })
    }

    /// The exact dot product over all four components.
    pub fn dot(&self, other: &Tuple) -> (r: Result<Scalar, Error>)
        requires
            self.wf(),
            other.wf(),
        ensures
            match r {
                Ok(s) => s.wf() && Some(s@) == dot_checked(self@, other@) && feq(
                    s@,
                    dot_plain(self@, other@),
                ),
                Err(e) => e == Error::OutOfRange && dot_checked(self@, other@) == None::<Frac>,
            },
    {
        let xx = self.x.mul(other.x)?;
        let yy = self.y.mul(other.y)?;
        let zz = self.z.mul(other.z)?;
        let ww = self.w.mul(other.w)?;
        let a1 = xx.add(yy)?;
        let a2 = a1.add(zz)?;
        let a3 = a2.add(ww)?;
        proof {
            lemma_dot_feq(self@, other@, xx@, yy@, zz@, ww@, a1@, a2@, a3@);
        }
        Ok(a3)
    }

    /// The magnitude on the root grid: the floor square root of the self dot
    /// product, bracketing the true magnitude from below within `1 / 65536`.
    pub fn magnitude(&self) -> (r: Result<Scalar, Error>)
        requires
            self.wf(),
        ensures
            match r {
                Ok(m) => {
                    &&& m.wf()
                    &&& m@.n >= 0
                    &&& Some(m@) == magnitude_checked(self@)
                    &&& fle(fmul(m@, m@), dot_plain(self@, self@))
                    &&& flt(
                        dot_plain(self@, self@),
                        fmul(fadd(m@, Frac { n: 1, d: 65536 }), fadd(m@, Frac { n: 1, d: 65536 })),
                    )
                },
                Err(e) => e == Error::OutOfRange && magnitude_checked(self@) == None::<Frac>,
            },
    {
        let d = self.dot(self)?;
        proof {
            lemma_self_dot_nonneg(self@);
            lemma_feq_sign(d@, dot_plain(self@, self@));
        }
        let m = d.sqrt_floor();
        proof {
            lemma_magnitude_bounds(self@, d@, m@);
        }
        Ok(m)
    }

    /// The unit tuple in the same direction, computed with the grid
    /// magnitude; exact whenever the true magnitude lies on the grid. A zero
    /// grid magnitude is an explicit error.
    pub fn normalized(&self) -> (r: Result<Tuple, Error>)
        requires
            self.wf(),
        ensures
            match r {
                Ok(t) => t.wf() && normalized_mirror(self@) == Ok::<TupleView, Error>(t@),
                Err(e) => normalized_mirror(self@) == Err::<TupleView, Error>(e),
            },
    {
        let m = self.magnitude()?;
        if m.is_zero() {
            return Err(Error::ZeroMagnitudeNormalize);
        }
        let r = self.div(m)?;
        Ok(r)
    }

    /// The 3-component cross product; the result is a vector (`w = 0`).
    pub fn cross(&self, other: &Tuple) -> (r: Result<Tuple, Error>)
        requires
            self.wf(),
            other.wf(),
        ensures
            match r {
                Ok(t) => {
                    &&& t.wf()
                    &&& Some(t@.x) == csub(
                        cmul(Some(self@.y), Some(other@.z)),
                        cmul(Some(self@.z), Some(other@.y)),
                    )
                    &&& Some(t@.y) == csub(
                        cmul(Some(self@.z), Some(other@.x)),
                        cmul(Some(self@.x), Some(other@.z)),
                    )
                    &&& Some(t@.z) == csub(
                        cmul(Some(self@.x), Some(other@.y)),
                        cmul(Some(self@.y), Some(other@.x)),
                    )
                    &&& t@.w == fzero()
                },
                Err(e) => e == Error::OutOfRange && (csub(
                    cmul(Some(self@.y), Some(other@.z)),
                    cmul(Some(self@.z), Some(other@.y)),
                ) == None::<Frac> || csub(
                    cmul(Some(self@.z), Some(other@.x)),
                    cmul(Some(self@.x), Some(other@.z)),
                ) == None::<Frac> || csub(
                    cmul(Some(self@.x), Some(other@.y)),
                    cmul(Some(self@.y), Some(other@.x)),
                ) == None::<Frac>),
            },
    {
        let x1 = self.y.mul(other.z)?;
        let x2 = self.z.mul(other.y)?;
        let y1 = self.z.mul(other.x)?;
        let y2 = self.x.mul(other.z)?;
        let z1 = self.x.mul(other.y)?;
        let z2 = self.y.mul(other.x)?;
        let x = x1.sub(x2)?;
        let y = y1.sub(y2)?;
        let z = z1.sub(z2)?;
        Ok(Tuple { x, y, z, w: Scalar::zero() })
    }

    /// Reflection about a normal: `self - normal * (2 * dot(self, normal))`.
    pub fn reflect(&self, normal: Tuple) -> (r: Result<Tuple, Error>)
        requires
            self.wf(),
            normal.wf(),
        ensures
            match r {
                Ok(t) => t.wf() && reflect_mirror(self@, normal@) == Ok::<TupleView, Error>(t@),
                Err(e) => reflect_mirror(self@, normal@) == Err::<TupleView, Error>(e),
            },
    {
        let d = self.dot(&normal)?;
        let two = Scalar::from_int(2);
        let k = two.mul(d)?;
        let scaled = normal.mul(k)?;
        let r = self.sub(scaled)?;
        Ok(r)
    }
}

/// The folded dot product is the exact dot product.
proof fn lemma_dot_feq(
    a: TupleView,
    b: TupleView,
    xx: Frac,
    yy: Frac,
    zz: Frac,
    ww: Frac,
    a1: Frac,
    a2: Frac,
    a3: Frac,
)
    requires
        twf(a),
        twf(b),
        fwf(xx),
        fwf(yy),
        fwf(zz),
        fwf(ww),
        fwf(a1),
        fwf(a2),
        fwf(a3),
        feq(xx, fmul(a.x, b.x)),
        feq(yy, fmul(a.y, b.y)),
        feq(zz, fmul(a.z, b.z)),
        feq(ww, fmul(a.w, b.w)),
        feq(a1, fadd(xx, yy)),
        feq(a2, fadd(a1, zz)),
        feq(a3, fadd(a2, ww)),
    ensures
        feq(a3, dot_plain(a, b)),
{
    let px = fmul(a.x, b.x);
    let py = fmul(a.y, b.y);
    let pz = fmul(a.z, b.z);
    let pw = fmul(a.w, b.w);
    assert(fwf(px) && fwf(py) && fwf(pz) && fwf(pw)) by (nonlinear_arith)
        requires
            twf(a),
            twf(b),
            px == fmul(a.x, b.x),
            py == fmul(a.y, b.y),
            pz == fmul(a.z, b.z),
            pw == fmul(a.w, b.w),
    ;
    assert(fwf(fadd(px, py)) && fwf(fadd(fadd(px, py), pz)) && fwf(fadd(fadd(fadd(px, py), pz), pw))
        && fwf(fadd(xx, yy)) && fwf(fadd(a1, zz)) && fwf(fadd(a2, ww))) by (nonlinear_arith)
        requires
            fwf(px),
            fwf(py),
            fwf(pz),
            fwf(xx),
            fwf(yy),
            fwf(pw),
            fwf(a1),
            fwf(zz),
            fwf(a2),
            fwf(ww),
    ;
    lemma_fadd_congr(xx, px, yy, py);
    lemma_feq_trans(a1, fadd(xx, yy), fadd(px, py));
    lemma_fadd_congr(a1, fadd(px, py), zz, pz);
    lemma_feq_trans(a2, fadd(a1, zz), fadd(fadd(px, py), pz));
    lemma_fadd_congr(a2, fadd(fadd(px, py), pz), ww, pw);
    lemma_feq_trans(a3, fadd(a2, ww), fadd(fadd(fadd(px, py), pz), pw));
}

/// The grid magnitude brackets the exact squared length.
proof fn lemma_magnitude_bounds(a: TupleView, d: Frac, m: Frac)
    requires
        twf(a),
        fwf(d),
        fwf(m),
        feq(d, dot_plain(a, a)),
        d.n >= 0,
        m == crate::frac::fred(root_floor(d)),
        feq(m, root_floor(d)),
        fle(fmul(root_floor(d), root_floor(d)), d),
        flt(d, fmul(fadd(root_floor(d), Frac { n: 1, d: 65536 }), fadd(root_floor(d), Frac { n: 1, d: 65536 }))),
    ensures
        fle(fmul(m, m), dot_plain(a, a)),
        flt(
            dot_plain(a, a),
            fmul(fadd(m, Frac { n: 1, d: 65536 }), fadd(m, Frac { n: 1, d: 65536 })),
        ),
{
    let rf = root_floor(d);
    let p = dot_plain(a, a);
    lemma_self_dot_nonneg(a);
    assert(fwf(rf)) by {
        assert(rf.d == 65536);
    }
    assert(fwf(fmul(rf, rf)) && fwf(fmul(m, m))) by (nonlinear_arith)
        requires
            fwf(rf),
            fwf(m),
    ;
    let step = Frac { n: 1, d: 65536 };
    assert(fwf(fadd(rf, step)) && fwf(fadd(m, step)) && fwf(fmul(fadd(rf, step), fadd(rf, step)))
        && fwf(fmul(fadd(m, step), fadd(m, step)))) by (nonlinear_arith)
        requires
            fwf(rf),
            fwf(m),
            step.d == 65536,
    ;
    lemma_fmul_congr(m, rf, m, rf);
    lemma_fle_congr(fmul(m, m), fmul(rf, rf), p, d);
    lemma_fadd_congr(m, rf, step, step);
    lemma_fmul_congr(fadd(m, step), fadd(rf, step), fadd(m, step), fadd(rf, step));
    lemma_fle_congr(p, d, fmul(fadd(m, step), fadd(m, step)), fmul(fadd(rf, step), fadd(rf, step)));
}

impl PartialEq for Tuple {
    /// Tuples are equal when all four components denote the same values.
    fn eq(&self, other: &Tuple) -> (r: bool) {
        self.x == other.x && self.y == other.y && self.z == other.z && self.w == other.w
    }
}

impl vstd::std_specs::cmp::PartialEqSpecImpl for Tuple {
    open spec fn obeys_eq_spec() -> bool {
        true
    }

    open spec fn eq_spec(&self, other: &Tuple) -> bool {
        teq(self@, other@)
    }
}

} // verus!
