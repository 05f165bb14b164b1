//! The mathematical model of the kernel's scalars: fractions of unbounded
//! integers, together with the reduction to lowest terms that the executable
//! scalar performs and the lemmas that connect the two.
use vstd::arithmetic::div_mod::{
    lemma_add_mod_noop, lemma_fundamental_div_mod, lemma_fundamental_div_mod_converse,
    lemma_mod_self_0, lemma_mul_mod_noop_right, lemma_small_mod,
};
use vstd::math::abs;
use vstd::prelude::*;

verus! {

/// A fraction of unbounded integers; the value of an executable scalar.
/// Well-formed fractions keep the denominator positive, so the sign of the
/// value is the sign of the numerator.
pub ghost struct Frac {
    pub n: int,
    pub d: int,
}

/// A well-formed fraction: positive denominator.
pub open spec fn fwf(f: Frac) -> bool {
    f.d >= 1
}

/// Two fractions denote the same rational number (cross multiplication).
pub open spec fn feq(a: Frac, b: Frac) -> bool {
    a.n * b.d == b.n * a.d
}

/// `a <= b` as rational numbers, for well-formed fractions.
pub open spec fn fle(a: Frac, b: Frac) -> bool {
    a.n * b.d <= b.n * a.d
}

/// `a < b` as rational numbers, for well-formed fractions.
pub open spec fn flt(a: Frac, b: Frac) -> bool {
    a.n * b.d < b.n * a.d
}

pub open spec fn fzero() -> Frac {
    Frac { n: 0, d: 1 }
}

pub open spec fn fone() -> Frac {
    Frac { n: 1, d: 1 }
}

pub open spec fn ffrom(i: int) -> Frac {
    Frac { n: i, d: 1 }
}

/// Exact sum: common denominator, no reduction.
pub open spec fn fadd(a: Frac, b: Frac) -> Frac {
    Frac { n: a.n * b.d + b.n * a.d, d: a.d * b.d }
}

/// Exact negation.
pub open spec fn fneg(a: Frac) -> Frac {
    Frac { n: -a.n, d: a.d }
}

/// Exact difference.
pub open spec fn fsub(a: Frac, b: Frac) -> Frac {
    fadd(a, fneg(b))
}

/// Exact product, no reduction.
pub open spec fn fmul(a: Frac, b: Frac) -> Frac {
    Frac { n: a.n * b.n, d: a.d * b.d }
}

/// Exact reciprocal, keeping the denominator positive; meaningful only for
/// fractions with a nonzero numerator.
pub open spec fn finv(a: Frac) -> Frac {
    if a.n >= 0 {
        Frac { n: a.d, d: a.n }
    } else {
        Frac { n: -a.d, d: -a.n }
    }
}

/// Exact quotient, meaningful only for a nonzero divisor.
pub open spec fn fdiv(a: Frac, b: Frac) -> Frac {
    fmul(a, finv(b))
}

/// Greatest common divisor by the Euclidean algorithm.
pub open spec fn gcd(a: nat, b: nat) -> nat
    decreases b,
{
    if b == 0 {
        a
    } else {
        gcd(b, a % b)
    }
}

/// The fraction reduced to lowest terms. For a well-formed fraction this is
/// the canonical representative of its value.
pub open spec fn fred(f: Frac) -> Frac {
    let g: int = gcd(abs(f.n), abs(f.d)) as int;
    Frac { n: f.n / g, d: f.d / g }
}

/// Whether a fraction fits the executable representation: a numerator in
/// `-(2^63 - 1) ..= 2^63 - 1` and a denominator in `1 ..= 2^63 - 1`.
pub open spec fn ffits(f: Frac) -> bool {
    &&& -0x7fff_ffff_ffff_ffff <= f.n <= 0x7fff_ffff_ffff_ffff
    &&& 1 <= f.d <= 0x7fff_ffff_ffff_ffff
}

/// What the executable scalar makes of an exact fraction: the reduced form
/// when it fits, and nothing otherwise.
pub open spec fn cnorm(f: Frac) -> Option<Frac> {
    if ffits(fred(f)) {
        Some(fred(f))
    } else {
        None
    }
}

/// Checked sum of checked operands, as the executable addition computes it.
pub open spec fn cadd(a: Option<Frac>, b: Option<Frac>) -> Option<Frac> {
    match (a, b) {
        (Some(x), Some(y)) => cnorm(fadd(x, y)),
        _ => None,
    }
}

/// Checked difference of checked operands.
pub open spec fn csub(a: Option<Frac>, b: Option<Frac>) -> Option<Frac> {
    match (a, b) {
        (Some(x), Some(y)) => cnorm(fsub(x, y)),
        _ => None,
    }
}

/// Checked product of checked operands.
pub open spec fn cmul(a: Option<Frac>, b: Option<Frac>) -> Option<Frac> {
    match (a, b) {
        (Some(x), Some(y)) => cnorm(fmul(x, y)),
        _ => None,
    }
}

/// Checked integer power, folded from the left as the executable power
/// computes it.
pub open spec fn cpow(f: Frac, e: nat) -> Option<Frac>
    decreases e,
{
    if e == 0 {
        Some(fone())
    } else {
        match cpow(f, (e - 1) as nat) {
            Some(p) => cnorm(fmul(p, f)),
            None => None,
        }
    }
}

/// Once a checked power fails, every later power fails too.
pub proof fn lemma_cpow_none(f: Frac, i: nat, e: nat)
    requires
        i <= e,
        cpow(f, i) == None::<Frac>,
    ensures
        cpow(f, e) == None::<Frac>,
    decreases e,
{
    if e > i {
        lemma_cpow_none(f, i, (e - 1) as nat);
    }
}

/// A reduced-and-checked value, when it exists, is well-formed and keeps the
/// exact value.
pub proof fn lemma_cnorm(f: Frac)
    requires
        fwf(f),
    ensures
        match cnorm(f) {
            Some(x) => fwf(x) && feq(x, f),
            None => true,
        },
{
    if ffits(fred(f)) {
        lemma_fred(f);
    }
}

/// The greatest common divisor divides both arguments and is positive as
/// soon as one of them is.
pub proof fn lemma_gcd(a: nat, b: nat)
    requires
        a > 0 || b > 0,
    ensures
        gcd(a, b) >= 1,
        a as int % (gcd(a, b) as int) == 0,
        b as int % (gcd(a, b) as int) == 0,
    decreases b,
{
    let g: int = gcd(a, b) as int;
    if b == 0 {
        lemma_mod_self_0(a as int);
        lemma_small_mod(0, a);
    } else {
        let r: nat = a % b;
        lemma_gcd(b, r);
        assert(g >= 1);
        lemma_fundamental_div_mod(a as int, b as int);
        let q: int = a as int / b as int;
        assert(a as int == b as int * q + r as int);
        lemma_mul_mod_noop_right(q, b as int, g);
        assert((q * (b as int)) % g == (q * (((b as int) % g))) % g);
        assert((b as int) % g == 0);
        assert(q * (((b as int) % g)) == 0) by (nonlinear_arith)
            requires
                (b as int) % g == 0,
        ;
        lemma_small_mod(0, g as nat);
        assert((q * (b as int)) % g == 0);
        assert(b as int * q == q * (b as int)) by (nonlinear_arith);
        lemma_add_mod_noop(b as int * q, r as int, g);
        assert(((b as int * q) % g + (r as int) % g) % g == (b as int * q + r as int) % g);
        assert((b as int * q + r as int) % g == 0);
    }
}

/// When `g` divides `x` exactly, the Euclidean quotient recovers the factor.
pub proof fn lemma_exact_div(x: int, g: int, q: int)
    requires
        g >= 1,
        x == g * q,
    ensures
        x / g == q,
        x % g == 0,
{
    assert(x == q * g + 0) by (nonlinear_arith)
        requires
            x == g * q,
    ;
    lemma_fundamental_div_mod_converse(x, g, q, 0);
}

/// Reduction to lowest terms keeps the value, keeps the denominator positive,
/// and never grows either component.
pub proof fn lemma_fred(f: Frac)
    requires
        fwf(f),
    ensures
        fwf(fred(f)),
        feq(fred(f), f),
        abs(fred(f).n) <= abs(f.n),
        fred(f).d <= f.d,
        f.n == 0 ==> fred(f) == fzero(),
        ffits(f) ==> ffits(fred(f)),
{
    let g: int = gcd(abs(f.n), abs(f.d)) as int;
    lemma_gcd(abs(f.n), abs(f.d));
    assert(g >= 1);
    lemma_fundamental_div_mod(f.n, g);
    lemma_fundamental_div_mod(f.d, g);
    let qn: int = f.n / g;
    let qd: int = f.d / g;
    assert(f.n % g == 0 && f.d % g == 0) by {
        assert(abs(f.n) as int % g == 0 && abs(f.d) as int % g == 0);
        if f.n < 0 {
            lemma_fundamental_div_mod(abs(f.n) as int, g);
            let q: int = abs(f.n) as int / g;
            assert(abs(f.n) as int == g * q);
            assert(f.n == g * (-q)) by (nonlinear_arith)
                requires
                    abs(f.n) as int == g * q,
                    f.n < 0,
                    abs(f.n) == if f.n >= 0 { f.n } else { -f.n },
            ;
            lemma_exact_div(f.n, g, -q);
        }
    }
    assert(f.n == g * qn + 0 && f.d == g * qd + 0);
    assert(qd >= 1) by (nonlinear_arith)
        requires
            f.d == g * qd,
            f.d >= 1,
            g >= 1,
    ;
    assert(qn * f.d == f.n * qd) by (nonlinear_arith)
        requires
            f.n == g * qn,
            f.d == g * qd,
    ;
    assert(abs(qn) <= abs(f.n) && qd <= f.d) by (nonlinear_arith)
        requires
            f.n == g * qn,
            f.d == g * qd,
            g >= 1,
            qd >= 1,
    ;
    if f.n == 0 {
        assert(gcd(0, abs(f.d)) == gcd(abs(f.d), 0));
        assert(qd == 1) by (nonlinear_arith)
            requires
                f.d == g * qd,
                g == f.d,
                qd >= 1,
                f.d >= 1,
        ;
    }
}

/// Denoting the same rational is transitive over well-formed fractions.
pub proof fn lemma_feq_trans(a: Frac, b: Frac, c: Frac)
    requires
        b.d != 0,
        feq(a, b),
        feq(b, c),
    ensures
        feq(a, c),
{
    assert(a.n * c.d == c.n * a.d) by (nonlinear_arith)
        requires
            a.n * b.d == b.n * a.d,
            b.n * c.d == c.n * b.d,
            b.d != 0,
    ;
}

/// Sums of equal values are equal.
pub proof fn lemma_fadd_congr(a: Frac, a2: Frac, b: Frac, b2: Frac)
    requires
        feq(a, a2),
        feq(b, b2),
    ensures
        feq(fadd(a, b), fadd(a2, b2)),
{
    let an = a.n;
    let ad = a.d;
    let xn = a2.n;
    let xd = a2.d;
    let bn = b.n;
    let bd = b.d;
    let yn = b2.n;
    let yd = b2.d;
    assert((an * bd) * (xd * yd) == (xn * yd) * (ad * bd)) by (nonlinear_arith)
        requires
            an * xd == xn * ad,
    ;
    assert((bn * ad) * (xd * yd) == (yn * xd) * (ad * bd)) by (nonlinear_arith)
        requires
            bn * yd == yn * bd,
    ;
    assert((an * bd + bn * ad) * (xd * yd) == (an * bd) * (xd * yd) + (bn * ad) * (xd * yd))
        by (nonlinear_arith);
    assert((xn * yd + yn * xd) * (ad * bd) == (xn * yd) * (ad * bd) + (yn * xd) * (ad * bd))
        by (nonlinear_arith);
}

/// Products of equal values are equal.
pub proof fn lemma_fmul_congr(a: Frac, a2: Frac, b: Frac, b2: Frac)
    requires
        feq(a, a2),
        feq(b, b2),
    ensures
        feq(fmul(a, b), fmul(a2, b2)),
{
    assert((a.n * b.n) * (a2.d * b2.d) == (a2.n * b2.n) * (a.d * b.d)) by (nonlinear_arith)
        requires
            a.n * a2.d == a2.n * a.d,
            b.n * b2.d == b2.n * b.d,
    ;
}

/// Negations of equal values are equal.
pub proof fn lemma_fneg_congr(a: Frac, a2: Frac)
    requires
        feq(a, a2),
    ensures
        feq(fneg(a), fneg(a2)),
{
    assert((-a.n) * a2.d == (-a2.n) * a.d) by (nonlinear_arith)
        requires
            a.n * a2.d == a2.n * a.d,
    ;
}

/// Differences of equal values are equal.
pub proof fn lemma_fsub_congr(a: Frac, a2: Frac, b: Frac, b2: Frac)
    requires
        feq(a, a2),
        feq(b, b2),
    ensures
        feq(fsub(a, b), fsub(a2, b2)),
{
    lemma_fneg_congr(b, b2);
    lemma_fadd_congr(a, a2, fneg(b), fneg(b2));
}

/// Reciprocals of equal nonzero values are equal.
pub proof fn lemma_finv_congr(b: Frac, b2: Frac)
    requires
        fwf(b),
        fwf(b2),
        b.n != 0,
        b2.n != 0,
        feq(b, b2),
    ensures
        fwf(finv(b)),
        fwf(finv(b2)),
        feq(finv(b), finv(b2)),
{
    lemma_feq_sign(b, b2);
    assert(finv(b).n * finv(b2).d == finv(b2).n * finv(b).d) by (nonlinear_arith)
        requires
            b.n * b2.d == b2.n * b.d,
            finv(b) == (if b.n >= 0 {
                Frac { n: b.d, d: b.n }
            } else {
                Frac { n: -b.d, d: -b.n }
            }),
            finv(b2) == (if b2.n >= 0 {
                Frac { n: b2.d, d: b2.n }
            } else {
                Frac { n: -b2.d, d: -b2.n }
            }),
            b.n != 0,
            b2.n != 0,
            (b.n > 0) == (b2.n > 0),
    ;
}

/// Taking the reciprocal twice gives the fraction back.
pub proof fn lemma_finv_involutive(a: Frac)
    requires
        fwf(a),
        a.n != 0,
    ensures
        fwf(finv(a)),
        finv(a).n != 0,
        finv(finv(a)) == a,
{
}

/// Division is equal in value to the raw cross pair, whatever the divisor's
/// sign.
pub proof fn lemma_fdiv_raw(x: Frac, k: Frac)
    requires
        x.d != 0,
        k.n != 0,
        k.d != 0,
    ensures
        feq(fdiv(x, k), Frac { n: x.n * k.d, d: x.d * k.n }),
        fdiv(x, k).d != 0,
{
    assert(feq(fdiv(x, k), Frac { n: x.n * k.d, d: x.d * k.n }) && fdiv(x, k).d != 0)
        by (nonlinear_arith)
        requires
            x.d != 0,
            k.n != 0,
            k.d != 0,
            fdiv(x, k) == fmul(x, finv(k)),
            finv(k) == (if k.n >= 0 {
                Frac { n: k.d, d: k.n }
            } else {
                Frac { n: -k.d, d: -k.n }
            }),
            fmul(x, finv(k)) == (Frac { n: x.n * finv(k).n, d: x.d * finv(k).d }),
    ;
}

/// Quotients of equal values by equal nonzero divisors are equal.
pub proof fn lemma_fdiv_congr(a: Frac, a2: Frac, b: Frac, b2: Frac)
    requires
        fwf(a),
        fwf(a2),
        fwf(b),
        fwf(b2),
        b.n != 0,
        b2.n != 0,
        feq(a, a2),
        feq(b, b2),
    ensures
        feq(fdiv(a, b), fdiv(a2, b2)),
        fwf(fdiv(a, b)),
        fwf(fdiv(a2, b2)),
{
    lemma_finv_congr(b, b2);
    lemma_fmul_congr(a, a2, finv(b), finv(b2));
    assert(fwf(fdiv(a, b)) && fwf(fdiv(a2, b2))) by (nonlinear_arith)
        requires
            fwf(a),
            fwf(a2),
            fwf(finv(b)),
            fwf(finv(b2)),
            fdiv(a, b) == fmul(a, finv(b)),
            fdiv(a2, b2) == fmul(a2, finv(b2)),
    ;
}

/// Order comparisons agree across equal values.
pub proof fn lemma_fle_congr(a: Frac, a2: Frac, b: Frac, b2: Frac)
    requires
        fwf(a),
        fwf(a2),
        fwf(b),
        fwf(b2),
        feq(a, a2),
        feq(b, b2),
    ensures
        fle(a, b) == fle(a2, b2),
        flt(a, b) == flt(a2, b2),
{
    let an = a.n;
    let ad = a.d;
    let xn = a2.n;
    let xd = a2.d;
    let bn = b.n;
    let bd = b.d;
    let yn = b2.n;
    let yd = b2.d;
    assert((an * bd) * (xd * yd) == (xn * yd) * (ad * bd)) by (nonlinear_arith)
        requires
            an * xd == xn * ad,
    ;
    assert((bn * ad) * (xd * yd) == (yn * xd) * (ad * bd)) by (nonlinear_arith)
        requires
            bn * yd == yn * bd,
    ;
    assert((an * bd - bn * ad) * (xd * yd) == (an * bd) * (xd * yd) - (bn * ad) * (xd * yd))
        by (nonlinear_arith);
    assert((xn * yd - yn * xd) * (ad * bd) == (xn * yd) * (ad * bd) - (yn * xd) * (ad * bd))
        by (nonlinear_arith);
    let u = an * bd - bn * ad;
    let v = xn * yd - yn * xd;
    let p = xd * yd;
    let q = ad * bd;
    assert(p >= 1 && q >= 1) by (nonlinear_arith)
        requires
            ad >= 1,
            bd >= 1,
            xd >= 1,
            yd >= 1,
            p == xd * yd,
            q == ad * bd,
    ;
    assert((u <= 0 <==> v <= 0) && (u < 0 <==> v < 0)) by (nonlinear_arith)
        requires
            u * p == v * q,
            p >= 1,
            q >= 1,
    ;
}

/// Order on fractions is transitive, in its strict and loose forms.
pub proof fn lemma_order_trans(a: Frac, b: Frac, c: Frac)
    requires
        fwf(a),
        fwf(b),
        fwf(c),
    ensures
        fle(a, b) && fle(b, c) ==> fle(a, c),
        flt(a, b) && fle(b, c) ==> flt(a, c),
        fle(a, b) && flt(b, c) ==> flt(a, c),
{
    assert((fle(a, b) && fle(b, c) ==> fle(a, c)) && (flt(a, b) && fle(b, c) ==> flt(a, c)) && (fle(
        a,
        b,
    ) && flt(b, c) ==> flt(a, c))) by (nonlinear_arith)
        requires
            a.d >= 1,
            b.d >= 1,
            c.d >= 1,
            fle(a, b) == (a.n * b.d <= b.n * a.d),
            fle(b, c) == (b.n * c.d <= c.n * b.d),
            fle(a, c) == (a.n * c.d <= c.n * a.d),
            flt(a, b) == (a.n * b.d < b.n * a.d),
            flt(b, c) == (b.n * c.d < c.n * b.d),
            flt(a, c) == (a.n * c.d < c.n * a.d),
    ;
}

/// Equal values have equal signs, and order is respected by equality.
pub proof fn lemma_feq_sign(a: Frac, b: Frac)
    requires
        fwf(a),
        fwf(b),
        feq(a, b),
    ensures
        a.n > 0 <==> b.n > 0,
        a.n == 0 <==> b.n == 0,
        a.n < 0 <==> b.n < 0,
{
    assert((a.n > 0 <==> b.n > 0) && (a.n == 0 <==> b.n == 0)) by (nonlinear_arith)
        requires
            a.n * b.d == b.n * a.d,
            a.d >= 1,
            b.d >= 1,
    ;
}

} // verus!
