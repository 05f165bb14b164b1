//! The executable scalar of the kernel: an exact fraction of 64-bit integers,
//! kept in lowest terms with a positive denominator. Operations that can leave
//! the representable range report `Error::OutOfRange` instead of rounding.
use crate::frac::{
    cadd, cmul, cnorm, cpow, csub, fadd, fdiv, feq, ffits, ffrom, finv, fle, flt, fmul, fneg, fone,
    fred, fsub, fwf, fzero, gcd, lemma_cpow_none, lemma_exact_div, lemma_fred, lemma_gcd, Frac,
};
use crate::Error;
use vstd::arithmetic::div_mod::lemma_fundamental_div_mod;
use vstd::math::abs;
use vstd::prelude::*;

verus! {

/// An exact rational scalar: `num / den` with `den >= 1`.
#[derive(Clone, Copy, Debug)]
pub struct Scalar {
    pub num: i64,
    pub den: i64,
}

impl View for Scalar {
    type V = Frac;

    open spec fn view(&self) -> Frac {
        Frac { n: self.num as int, d: self.den as int }
    }
}

/// The resolution of the square-root grid: roots are exact floors to
/// multiples of `1 / 65536`.
pub const ROOT_SCALE: i64 = 65536;

/// The integer square root: the greatest `r` with `r * r <= v`.
pub open spec fn isqrt(v: int) -> int
    decreases v,
{
    if v <= 0 {
        0
    } else {
        let p = isqrt(v - 1);
        if (p + 1) * (p + 1) <= v {
            p + 1
        } else {
            p
        }
    }
}

/// The floor of the square root of a nonnegative fraction on the root grid.
pub open spec fn root_floor(f: Frac) -> Frac {
    Frac { n: isqrt((f.n * 65536 * 65536) / f.d), d: 65536 }
}

/// `isqrt` is the floor of the real square root.
pub proof fn lemma_isqrt_bounds(v: int)
    requires
        v >= 0,
    ensures
        isqrt(v) >= 0,
        isqrt(v) * isqrt(v) <= v,
        v < (isqrt(v) + 1) * (isqrt(v) + 1),
    decreases v,
{
    if v == 0 {
        assert(isqrt(0) == 0);
    } else {
        lemma_isqrt_bounds(v - 1);
        let p = isqrt(v - 1);
        if (p + 1) * (p + 1) <= v {
            assert(v < ((p + 1) + 1) * ((p + 1) + 1)) by (nonlinear_arith)
                requires
                    v - 1 < (p + 1) * (p + 1),
                    p >= 0,
            ;
        }
    }
}

/// Any integer satisfying the floor bounds is the integer square root.
pub proof fn lemma_isqrt_unique(v: int, r: int)
    requires
        v >= 0,
        r >= 0,
        r * r <= v,
        v < (r + 1) * (r + 1),
    ensures
        r == isqrt(v),
{
    lemma_isqrt_bounds(v);
    let s = isqrt(v);
    assert(r == s) by (nonlinear_arith)
        requires
            r >= 0,
            s >= 0,
            r * r <= v,
            v < (r + 1) * (r + 1),
            s * s <= v,
            v < (s + 1) * (s + 1),
    ;
}

/// Euclid's algorithm on machine words.
fn gcd_u128(a: u128, b: u128) -> (g: u128)
    ensures
        g as nat == gcd(a as nat, b as nat),
{
    let mut x: u128 = a;
    let mut y: u128 = b;
    while y != 0
        invariant
            gcd(x as nat, y as nat) == gcd(a as nat, b as nat),
        decreases y,
    {
        let t: u128 = x % y;
        x = y;
        y = t;
    }
    x
}

impl Scalar {
    /// Well-formed: the stored fraction has a positive denominator and a
    /// numerator away from `i64::MIN`, so negation can never overflow.
    pub open spec fn wf(self) -> bool {
        ffits(self@)
    }

    /// Reduces `n / d` to lowest terms and stores it if it fits.
    fn norm128(n: i128, d: i128) -> (r: Result<Scalar, Error>)
        requires
            1 <= d,
            i128::MIN < n,
        ensures
            match r {
                Ok(s) => s.wf() && cnorm(Frac { n: n as int, d: d as int }) == Some(s@),
                Err(e) => e == Error::OutOfRange && cnorm(Frac { n: n as int, d: d as int })
                    == None::<Frac>,
            },
    {
        let ghost f = Frac { n: n as int, d: d as int };
        let na: u128 = if n >= 0 {
            n as u128
        } else {
            (-n) as u128
        };
        assert(na as nat == abs(f.n));
        let g: u128 = gcd_u128(na, d as u128);
        proof {
            lemma_gcd(abs(f.n), abs(f.d));
        }
        assert(g as int == gcd(abs(f.n), abs(f.d)) as int);
        assert(g >= 1);
        let nr: u128 = na / g;
        let dr: u128 = d as u128 / g;
        proof {
            lemma_fundamental_div_mod(na as int, g as int);
            lemma_fundamental_div_mod(d as int, g as int);
            assert(na as int == g as int * nr as int);
            assert(d as int == g as int * dr as int);
            if n < 0 {
                assert(f.n == g as int * (-(nr as int))) by (nonlinear_arith)
                    requires
                        na as int == g as int * nr as int,
                        f.n == -(na as int),
                ;
                lemma_exact_div(f.n, g as int, -(nr as int));
            } else {
                lemma_exact_div(f.n, g as int, nr as int);
            }
            lemma_exact_div(f.d, g as int, dr as int);
            assert(fred(f).d == dr as int);
            assert(fred(f).n == if n >= 0 {
                nr as int
            } else {
                -(nr as int)
            });
            assert(dr >= 1) by (nonlinear_arith)
                requires
                    d as int == g as int * dr as int,
                    d as int >= 1,
                    g as int >= 1,
            ;
        }
        if nr <= i64::MAX as u128 && dr <= i64::MAX as u128 {
            let num: i64 = if n >= 0 {
                nr as i64
            } else {
                -(nr as i64)
            };
            let s = Scalar { num, den: dr as i64 };
            assert(s@ == fred(f));
            assert(ffits(fred(f)));
            Ok(s)
        } else {
            assert(!ffits(fred(f)));
            Err(Error::OutOfRange)
        }
    }

    /// Builds the exact fraction `num / den`.
    ///
    /// The excluded extreme values are a machine limit: the representation
    /// needs `-num` and `-den` to exist. Any fraction of 64-bit integers
    /// reduces to a representable one, so construction cannot fail.
    pub fn new(num: i64, den: i64) -> (r: Scalar)
        requires
            den != 0,
            num != i64::MIN,
            den != i64::MIN,
        ensures
            r.wf(),
            feq(r@, Frac { n: num as int, d: den as int }),
    {
        let (n2, d2): (i64, i64) = if den < 0 {
            (-num, -den)
        } else {
            (num, den)
        };
        let ghost f = Frac { n: n2 as int, d: d2 as int };
        proof {
            lemma_fred(f);
        }
        match Self::norm128(n2 as i128, d2 as i128) {
            Ok(s) => {
                assert(feq(s@, f));
                proof {
                    if den < 0 {
                        assert(s@.n * (den as int) == (num as int) * s@.d) by (nonlinear_arith)
                            requires
                                f.n == -(num as int),
                                f.d == -(den as int),
                                s@.n * f.d == f.n * s@.d,
                        ;
                    }
                }
                s
            },
            Err(_) => {
                proof {
                    assert(false);
                }
                Scalar { num: 0, den: 1 }
            },
        }
    }

    /// The exact integer `i`.
    pub fn from_int(i: i64) -> (r: Scalar)
        requires
            i != i64::MIN,
        ensures
            r.wf(),
            r@ == ffrom(i as int),
    {
        Scalar { num: i, den: 1 }
    }

    /// Exactly zero.
    pub fn zero() -> (r: Scalar)
        ensures
            r.wf(),
            r@ == fzero(),
    {
        Scalar { num: 0, den: 1 }
    }

    /// Exactly one.
    pub fn one() -> (r: Scalar)
        ensures
            r.wf(),
            r@ == fone(),
    {
        Scalar { num: 1, den: 1 }
    }

    /// The stored numerator of the reduced fraction.
    pub fn num(&self) -> (r: i64)
        ensures
            r as int == self@.n,
    {
        self.num
    }

    /// The stored denominator of the reduced fraction.
    pub fn den(&self) -> (r: i64)
        ensures
            r as int == self@.d,
    {
        self.den
    }

    /// Exact sum; fails exactly when the reduced sum leaves the range.
    pub fn add(self, other: Scalar) -> (r: Result<Scalar, Error>)
        requires
            self.wf(),
            other.wf(),
        ensures
            match r {
                Ok(s) => s.wf() && Some(s@) == cadd(Some(self@), Some(other@)) && feq(
                    s@,
                    fadd(self@, other@),
                ),
                Err(e) => e == Error::OutOfRange && cadd(Some(self@), Some(other@)) == None::<Frac>,
            },
    {
        proof {
            lemma_wf_prod_bounds(self.num as int, other.den as int);
            lemma_wf_prod_bounds(other.num as int, self.den as int);
            lemma_wf_prod_bounds(self.den as int, other.den as int);
            assert(self.den as int * other.den as int >= 1) by (nonlinear_arith)
                requires
                    self.den as int >= 1,
                    other.den as int >= 1,
            ;
        }
        let n: i128 = self.num as i128 * other.den as i128 + other.num as i128 * self.den as i128;
        let d: i128 = self.den as i128 * other.den as i128;
        let r = Self::norm128(n, d);
        proof {
            if r is Ok {
                lemma_fred(fadd(self@, other@));
            }
        }
        r
    }

    /// Exact negation; never fails.
    pub fn neg(self) -> (r: Scalar)
        requires
            self.wf(),
        ensures
            r.wf(),
            r@ == fneg(self@),
    {
        Scalar { num: -self.num, den: self.den }
    }

    /// Exact difference; fails exactly when the reduced difference leaves the
    /// range.
    pub fn sub(self, other: Scalar) -> (r: Result<Scalar, Error>)
        requires
            self.wf(),
            other.wf(),
        ensures
            match r {
                Ok(s) => s.wf() && Some(s@) == csub(Some(self@), Some(other@)) && feq(
                    s@,
                    fsub(self@, other@),
                ),
                Err(e) => e == Error::OutOfRange && csub(Some(self@), Some(other@)) == None::<Frac>,
            },
    {
        self.add(other.neg())
    }

    /// Exact product; fails exactly when the reduced product leaves the range.
    pub fn mul(self, other: Scalar) -> (r: Result<Scalar, Error>)
        requires
            self.wf(),
            other.wf(),
        ensures
            match r {
                Ok(s) => s.wf() && Some(s@) == cmul(Some(self@), Some(other@)) && feq(
                    s@,
                    fmul(self@, other@),
                ),
                Err(e) => e == Error::OutOfRange && cmul(Some(self@), Some(other@)) == None::<Frac>,
            },
    {
        proof {
            lemma_i64_prod_bounds(self.num as int, other.num as int);
            lemma_i64_prod_bounds(self.den as int, other.den as int);
            assert(self.den as int * other.den as int >= 1) by (nonlinear_arith)
                requires
                    self.den as int >= 1,
                    other.den as int >= 1,
            ;
        }
        let n: i128 = self.num as i128 * other.num as i128;
        let d: i128 = self.den as i128 * other.den as i128;
        let r = Self::norm128(n, d);
        proof {
            if r is Ok {
                lemma_fred(fmul(self@, other@));
            }
        }
        r
    }

    /// Exact quotient. Division by zero is its own error; otherwise it fails
    /// exactly when the reduced quotient leaves the range.
    pub fn div(self, other: Scalar) -> (r: Result<Scalar, Error>)
        requires
            self.wf(),
            other.wf(),
        ensures
            match r {
                Ok(s) => other@.n != 0 && s.wf() && Some(s@) == cnorm(fdiv(self@, other@)) && feq(
                    s@,
                    fdiv(self@, other@),
                ),
                Err(e) => if other@.n == 0 {
                    e == Error::DivisionByZero
                } else {
                    e == Error::OutOfRange && cnorm(fdiv(self@, other@)) == None::<Frac>
                },
            },
    {
        if other.num == 0 {
            return Err(Error::DivisionByZero);
        }
        proof {
            lemma_i64_prod_bounds(self.num as int, other.den as int);
            lemma_i64_prod_bounds(self.den as int, other.num as int);
        }
        let n: i128 = self.num as i128 * other.den as i128;
        let d: i128 = self.den as i128 * other.num as i128;
        let (n2, d2): (i128, i128) = if other.num < 0 {
            (-n, -d)
        } else {
            (n, d)
        };
        proof {
            assert(d2 >= 1) by (nonlinear_arith)
                requires
                    d as int == self.den as int * other.num as int,
                    d2 as int == if other.num < 0 {
                        -(d as int)
                    } else {
                        d as int
                    },
                    self.den as int >= 1,
                    other.num as int != 0,
            ;
            if other.num < 0 {
                assert(n2 as int == self@.n * finv(other@).n && d2 as int == self@.d * finv(
                    other@,
                ).d) by (nonlinear_arith)
                    requires
                        n as int == self@.n * (other@.d as int),
                        d as int == self@.d * (other@.n as int),
                        n2 as int == -(n as int),
                        d2 as int == -(d as int),
                        other@.n < 0,
                        finv(other@).n == -other@.d,
                        finv(other@).d == -other@.n,
                ;
            }
            assert(Frac { n: n2 as int, d: d2 as int } == fdiv(self@, other@));
        }
        let r = Self::norm128(n2, d2);
        proof {
            if r is Ok {
                lemma_fred(fdiv(self@, other@));
            }
        }
        r
    }

    /// Exact comparison: `self <= other` as rational numbers.
    pub fn le(&self, other: &Scalar) -> (r: bool)
        ensures
            r == fle(self@, other@),
    {
        proof {
            lemma_i64_prod_bounds(self.num as int, other.den as int);
            lemma_i64_prod_bounds(other.num as int, self.den as int);
        }
        self.num as i128 * other.den as i128 <= other.num as i128 * self.den as i128
    }

    /// Exact comparison: `self < other` as rational numbers.
    pub fn lt(&self, other: &Scalar) -> (r: bool)
        ensures
            r == flt(self@, other@),
    {
        proof {
            lemma_i64_prod_bounds(self.num as int, other.den as int);
            lemma_i64_prod_bounds(other.num as int, self.den as int);
        }
        (self.num as i128 * other.den as i128) < (other.num as i128 * self.den as i128)
    }

    /// Whether the value is exactly zero.
    pub fn is_zero(&self) -> (r: bool)
        ensures
            r == (self@.n == 0),
            r == feq(self@, fzero()),
    {
        self.num == 0
    }

    /// Whether the value is zero or positive.
    pub fn is_nonneg(&self) -> (r: bool)
        ensures
            r == (self@.n >= 0),
    {
        self.num >= 0
    }

    /// The floor of the square root on the root grid: the greatest multiple
    /// `r` of `1 / 65536` with `r * r <= self`. Exact whenever the true root
    /// lies on the grid; never fails, because the root of a representable
    /// value always fits.
    pub fn sqrt_floor(&self) -> (r: Scalar)
        requires
            self.wf(),
            self@.n >= 0,
        ensures
            r.wf(),
            r@ == fred(root_floor(self@)),
            feq(r@, root_floor(self@)),
            r@.n >= 0,
            fle(fmul(root_floor(self@), root_floor(self@)), self@),
            flt(
                self@,
                fmul(
                    fadd(root_floor(self@), Frac { n: 1, d: 65536 }),
                    fadd(root_floor(self@), Frac { n: 1, d: 65536 }),
                ),
            ),
    {
        let scaled: u128 = self.num as u128 * 65536u128 * 65536u128;
        let q: u128 = scaled / self.den as u128;
        proof {
            assert(scaled as int == self@.n * 65536 * 65536 && scaled
                < 0x1_0000_0000_0000_0000_0000_0000_0000) by (nonlinear_arith)
                requires
                    scaled as int == (self.num as int) * 65536 * 65536,
                    0 <= self.num as int <= 0x7fff_ffff_ffff_ffff,
            ;
            assert(q as int == (self@.n * 65536 * 65536) / self@.d);
            assert(q <= scaled) by (nonlinear_arith)
                requires
                    q as int == scaled as int / self@.d,
                    self@.d >= 1,
                    scaled >= 0,
            ;
        }
        let s: u128 = isqrt_u128(q);
        let ghost rf = root_floor(self@);
        proof {
            assert(rf == Frac { n: s as int, d: 65536int });
            lemma_root_floor_bounds(self@, q as int, s as int);
            lemma_fred(rf);
        }
        match Self::norm128(s as i128, 65536i128) {
            Ok(r) => r,
            Err(_) => {
                proof {
                    assert(false);
                }
                Scalar { num: 0, den: 1 }
            },
        }
    }

    /// Exact integer power by repeated multiplication; fails exactly when
    /// some partial product leaves the range.
    pub fn pow(&self, e: u32) -> (r: Result<Scalar, Error>)
        requires
            self.wf(),
        ensures
            match r {
                Ok(s) => s.wf() && Some(s@) == cpow(self@, e as nat),
                Err(err) => err == Error::OutOfRange && cpow(self@, e as nat) == None::<Frac>,
            },
    {
        let mut acc: Scalar = Scalar::one();
        let mut i: u32 = 0;
        while i < e
            invariant
                i <= e,
                acc.wf(),
                self.wf(),
                Some(acc@) == cpow(self@, i as nat),
            decreases e - i,
        {
            match acc.mul(*self) {
                Ok(x) => {
                    acc = x;
                },
                Err(_) => {
                    proof {
                        lemma_cpow_none(self@, (i + 1) as nat, e as nat);
                    }
                    return Err(Error::OutOfRange);
                },
            }
            i = i + 1;
        }
        Ok(acc)
    }
}

/// The grid root of a representable fraction is itself representable, and it
/// brackets the fraction between its square and the next grid square.
proof fn lemma_root_floor_bounds(f: Frac, q: int, s: int)
    requires
        fwf(f),
        ffits(f),
        f.n >= 0,
        q == (f.n * 65536 * 65536) / f.d,
        s == isqrt(q),
    ensures
        root_floor(f) == (Frac { n: s, d: 65536int }),
        0 <= s < 0x1_0000_0000_0000,
        fle(fmul(root_floor(f), root_floor(f)), f),
        flt(
            f,
            fmul(
                fadd(root_floor(f), Frac { n: 1, d: 65536 }),
                fadd(root_floor(f), Frac { n: 1, d: 65536 }),
            ),
        ),
{
    let p: int = f.n * 65536 * 65536;
    assert(p >= 0 && p <= 0x7fff_ffff_ffff_ffff * 65536 * 65536) by (nonlinear_arith)
        requires
            p == f.n * 65536 * 65536,
            0 <= f.n <= 0x7fff_ffff_ffff_ffff,
    ;
    vstd::arithmetic::div_mod::lemma_fundamental_div_mod(p, f.d);
    let rem: int = p % f.d;
    assert(p == f.d * q + rem && 0 <= rem < f.d);
    assert(q >= 0 && q <= p) by (nonlinear_arith)
        requires
            p == f.d * q + rem,
            0 <= rem < f.d,
            f.d >= 1,
            p >= 0,
    ;
    lemma_isqrt_bounds(q);
    assert(s * s <= q && q < (s + 1) * (s + 1) && s >= 0);
    assert(s < 0x1_0000_0000_0000) by (nonlinear_arith)
        requires
            s >= 0,
            s * s <= q,
            q <= 0x7fff_ffff_ffff_ffff * 65536 * 65536,
    ;
    // lower bound: (s/65536)^2 <= f, that is s*s*f.d <= f.n * 65536^2 * ...
    assert(fle(fmul(root_floor(f), root_floor(f)), f)) by (nonlinear_arith)
        requires
            root_floor(f) == (Frac { n: s, d: 65536int }),
            s * s <= q,
            p == f.d * q + rem,
            0 <= rem,
            p == f.n * 65536 * 65536,
            f.d >= 1,
            fle(fmul(root_floor(f), root_floor(f)), f) == ((s * s) * f.d <= f.n * (65536
                * 65536)),
    ;
    // upper bound: f < ((s+1)/65536)^2
    assert(flt(
        f,
        fmul(
            fadd(root_floor(f), Frac { n: 1, d: 65536 }),
            fadd(root_floor(f), Frac { n: 1, d: 65536 }),
        ),
    )) by (nonlinear_arith)
        requires
            root_floor(f) == (Frac { n: s, d: 65536int }),
            q < (s + 1) * (s + 1),
            p == f.d * q + rem,
            0 <= rem < f.d,
            p == f.n * 65536 * 65536,
            f.d >= 1,
    ;
}


/// Floor integer square root by bisection.
fn isqrt_u128(x: u128) -> (r: u128)
    requires
        x < 0x1_0000_0000_0000_0000_0000_0000_0000,
    ensures
        r as int == isqrt(x as int),
        r as int * r as int <= x as int,
        (x as int) < (r as int + 1) * (r as int + 1),
{
    let mut lo: u128 = 0;
    let mut hi: u128 = 0x200_0000_0000_0000;
    proof {
        assert((hi as int) * (hi as int) > x as int) by (nonlinear_arith)
            requires
                hi as int == 0x200_0000_0000_0000,
                x < 0x1_0000_0000_0000_0000_0000_0000_0000,
        ;
    }
    while lo + 1 < hi
        invariant
            lo < hi,
            hi <= 0x200_0000_0000_0000,
            lo as int * lo as int <= x as int,
            (x as int) < (hi as int) * (hi as int),
        decreases hi - lo,
    {
        let mid: u128 = lo + (hi - lo) / 2;
        proof {
            assert((mid as int * mid as int) < 0x1_0000_0000_0000_0000_0000_0000_0000_0000)
                by (nonlinear_arith)
                requires
                    0 <= mid as int && mid as int <= 0x400_0000_0000_0000,
            ;
        }
        let sq: u128 = mid * mid;
        if sq <= x {
            lo = mid;
        } else {
            hi = mid;
        }
    }
    proof {
        lemma_isqrt_unique(x as int, lo as int);
    }
    lo
}

/// A product of two 64-bit values is comfortably inside the 128-bit range.
proof fn lemma_i64_prod_bounds(a: int, b: int)
    by (nonlinear_arith)
    requires
        -0x8000_0000_0000_0000 <= a <= 0x7fff_ffff_ffff_ffff,
        -0x8000_0000_0000_0000 <= b <= 0x7fff_ffff_ffff_ffff,
    ensures
        -0x4000_0000_0000_0000_0000_0000_0000_0000 <= a * b
            <= 0x4000_0000_0000_0000_0000_0000_0000_0000,
{
}

/// A product of two well-formed components stays strictly below half the
/// 128-bit range, so a sum of two such products cannot overflow.
proof fn lemma_wf_prod_bounds(a: int, b: int)
    by (nonlinear_arith)
    requires
        -0x7fff_ffff_ffff_ffff <= a <= 0x7fff_ffff_ffff_ffff,
        -0x7fff_ffff_ffff_ffff <= b <= 0x7fff_ffff_ffff_ffff,
    ensures
        -0x3fff_ffff_ffff_ffff_0000_0000_0000_0001 <= a * b
            <= 0x3fff_ffff_ffff_ffff_0000_0000_0000_0001,
{
}

impl PartialEq for Scalar {
    /// Two scalars are equal when they denote the same rational number.
    fn eq(&self, other: &Scalar) -> (r: bool) {
        proof {
            lemma_i64_prod_bounds(self.num as int, other.den as int);
            lemma_i64_prod_bounds(other.num as int, self.den as int);
        }
        self.num as i128 * other.den as i128 == other.num as i128 * self.den as i128
    }
}

impl vstd::std_specs::cmp::PartialEqSpecImpl for Scalar {
    open spec fn obeys_eq_spec() -> bool {
        true
    }

    open spec fn eq_spec(&self, other: &Scalar) -> bool {
        feq(self@, other@)
    }
}

} // verus!
