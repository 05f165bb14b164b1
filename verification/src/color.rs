//! Colors as red, green and blue channels over exact scalars. The lighting
//! model adds and multiplies colors channel by channel and never clamps.
use crate::frac::{cadd, cmul, csub, feq, fone, fwf, fzero, Frac};
use crate::scalar::Scalar;
use crate::Error;
use vstd::prelude::*;

verus! {

/// An unclamped color with exact channels.
#[derive(Clone, Copy, Debug)]
pub struct Color {
    pub r: Scalar,
    pub g: Scalar,
    pub b: Scalar,
}

/// The exact values of the three channels.
pub ghost struct ColorView {
    pub r: Frac,
    pub g: Frac,
    pub b: Frac,
}

impl View for Color {
    type V = ColorView;

    open spec fn view(&self) -> ColorView {
        ColorView { r: self.r@, g: self.g@, b: self.b@ }
    }
}

/// All three channels are well-formed fractions.
pub open spec fn cwf(v: ColorView) -> bool {
    fwf(v.r) && fwf(v.g) && fwf(v.b)
}

/// Channelwise equality of values.
pub open spec fn ceq(a: ColorView, b: ColorView) -> bool {
    feq(a.r, b.r) && feq(a.g, b.g) && feq(a.b, b.b)
}

impl Color {
    /// Well-formed: every channel is a well-formed scalar.
    pub open spec fn wf(self) -> bool {
        self.r.wf() && self.g.wf() && self.b.wf()
    }

    /// A color from its three channels.
    pub fn new(r: Scalar, g: Scalar, b: Scalar) -> (c: Color)
        requires
            r.wf(),
            g.wf(),
            b.wf(),
        ensures
            c.wf(),
            c@ == (ColorView { r: r@, g: g@, b: b@ }),
    {
        Color { r, g, b }
    }

    /// All channels zero.
    pub fn black() -> (c: Color)
        ensures
            c.wf(),
            c@ == (ColorView { r: fzero(), g: fzero(), b: fzero() }),
    {
        Color { r: Scalar::zero(), g: Scalar::zero(), b: Scalar::zero() }
    }

    /// All channels one.
    pub fn white() -> (c: Color)
        ensures
            c.wf(),
            c@ == (ColorView { r: fone(), g: fone(), b: fone() }),
    {
        Color { r: Scalar::one(), g: Scalar::one(), b: Scalar::one() }
    }

    /// Full red, no green, no blue.
    pub fn red() -> (c: Color)
        ensures
            c.wf(),
            c@ == (ColorView { r: fone(), g: fzero(), b: fzero() }),
    {
        Color { r: Scalar::one(), g: Scalar::zero(), b: Scalar::zero() }
    }

    /// Channelwise exact sum.
    pub fn add(self, other: Color) -> (res: Result<Color, Error>)
        requires
            self.wf(),
            other.wf(),
        ensures
            match res {
                Ok(c) => {
                    &&& c.wf()
                    &&& Some(c@.r) == cadd(Some(self@.r), Some(other@.r))
                    &&& Some(c@.g) == cadd(Some(self@.g), Some(other@.g))
                    &&& Some(c@.b) == cadd(Some(self@.b), Some(other@.b))
                },
                Err(e) => e == Error::OutOfRange && (cadd(Some(self@.r), Some(other@.r)) == None::<
                    Frac,
                > || cadd(Some(self@.g), Some(other@.g)) == None::<Frac> || cadd(
                    Some(self@.b),
                    Some(other@.b),
                ) == None::<Frac>),
            },
    {
        let r = self.r.add(other.r)?;
        let g = self.g.add(other.g)?;
        let b = self.b.add(other.b)?;
        Ok(Color { r, g, b })
    }

    /// Channelwise exact difference.
    pub fn sub(self, other: Color) -> (res: Result<Color, Error>)
        requires
            self.wf(),
            other.wf(),
        ensures
            match res {
                Ok(c) => {
                    &&& c.wf()
                    &&& Some(c@.r) == csub(Some(self@.r), Some(other@.r))
                    &&& Some(c@.g) == csub(Some(self@.g), Some(other@.g))
                    &&& Some(c@.b) == csub(Some(self@.b), Some(other@.b))
                },
                Err(e) => e == Error::OutOfRange && (csub(Some(self@.r), Some(other@.r)) == None::<
                    Frac,
                > || csub(Some(self@.g), Some(other@.g)) == None::<Frac> || csub(
                    Some(self@.b),
                    Some(other@.b),
                ) == None::<Frac>),
            },
    {
        let r = self.r.sub(other.r)?;
        let g = self.g.sub(other.g)?;
        let b = self.b.sub(other.b)?;
        Ok(Color { r, g, b })
    }

    /// Channelwise scaling by an exact scalar.
    pub fn mul(self, k: Scalar) -> (res: Result<Color, Error>)
        requires
            self.wf(),
            k.wf(),
        ensures
            match res {
                Ok(c) => {
                    &&& c.wf()
                    &&& Some(c@.r) == cmul(Some(self@.r), Some(k@))
                    &&& Some(c@.g) == cmul(Some(self@.g), Some(k@))
                    &&& Some(c@.b) == cmul(Some(self@.b), Some(k@))
                },
                Err(e) => e == Error::OutOfRange && (cmul(Some(self@.r), Some(k@)) == None::<Frac>
                    || cmul(Some(self@.g), Some(k@)) == None::<Frac> || cmul(Some(self@.b), Some(k@))
                    == None::<Frac>),
            },
    {
        let r = self.r.mul(k)?;
        let g = self.g.mul(k)?;
        let b = self.b.mul(k)?;
        Ok(Color { r, g, b })
    }

    /// Channelwise product of two colors (the Hadamard product).
    pub fn mul_color(self, other: Color) -> (res: Result<Color, Error>)
        requires
            self.wf(),
            other.wf(),
        ensures
            match res {
                Ok(c) => {
                    &&& c.wf()
                    &&& Some(c@.r) == cmul(Some(self@.r), Some(other@.r))
                    &&& Some(c@.g) == cmul(Some(self@.g), Some(other@.g))
                    &&& Some(c@.b) == cmul(Some(self@.b), Some(other@.b))
                },
                Err(e) => e == Error::OutOfRange && (cmul(Some(self@.r), Some(other@.r)) == None::<
                    Frac,
                > || cmul(Some(self@.g), Some(other@.g)) == None::<Frac> || cmul(
                    Some(self@.b),
                    Some(other@.b),
                ) == None::<Frac>),
            },
    {
        let r = self.r.mul(other.r)?;
        let g = self.g.mul(other.g)?;
        let b = self.b.mul(other.b)?;
        Ok(Color { r, g, b })
    }
}

impl PartialEq for Color {
    /// Colors are equal when all three channels denote the same values.
    fn eq(&self, other: &Color) -> (r: bool) {
        self.r == other.r && self.g == other.g && self.b == other.b
    }
}

impl vstd::std_specs::cmp::PartialEqSpecImpl for Color {
    open spec fn obeys_eq_spec() -> bool {
        true
    }

    open spec fn eq_spec(&self, other: &Color) -> bool {
        ceq(self@, other@)
    }
}

/// All channels zero, as a value.
pub open spec fn cblack() -> ColorView {
    ColorView { r: fzero(), g: fzero(), b: fzero() }
}

/// Checked channelwise sum, as the executable addition computes it.
pub open spec fn ccadd(a: ColorView, b: ColorView) -> Option<ColorView> {
    match (cadd(Some(a.r), Some(b.r)), cadd(Some(a.g), Some(b.g)), cadd(Some(a.b), Some(b.b))) {
        (Some(r), Some(g), Some(bb)) => Some(ColorView { r, g, b: bb }),
        _ => None,
    }
}

/// Checked channelwise product of two colors.
pub open spec fn ccmulc(a: ColorView, b: ColorView) -> Option<ColorView> {
    match (cmul(Some(a.r), Some(b.r)), cmul(Some(a.g), Some(b.g)), cmul(Some(a.b), Some(b.b))) {
        (Some(r), Some(g), Some(bb)) => Some(ColorView { r, g, b: bb }),
        _ => None,
    }
}

/// Checked scaling of a color by a fraction.
pub open spec fn ccmulk(a: ColorView, k: Frac) -> Option<ColorView> {
    match (cmul(Some(a.r), Some(k)), cmul(Some(a.g), Some(k)), cmul(Some(a.b), Some(k))) {
        (Some(r), Some(g), Some(bb)) => Some(ColorView { r, g, b: bb }),
        _ => None,
    }
}

} // verus!
