//! General laws of the matrix algebra, stated over the same spec functions
//! that the executable contracts use.
use crate::frac::{
    fadd, fdiv, feq, finv, fmul, fneg, fone, fsub, fwf, fzero, lemma_fdiv_congr, lemma_fdiv_raw,
    lemma_feq_sign, lemma_feq_trans, lemma_finv_involutive, lemma_fmul_congr, lemma_fneg_congr,
    lemma_fsub_congr, Frac,
};
use crate::matrix::{col, rwf, scof, sdet, sdot, ssub, swf};
use vstd::prelude::*;

verus! {

/// The identity matrix of size `n`, as a sequence matrix.
pub open spec fn sid(n: int) -> Seq<Seq<Frac>> {
    Seq::new(
        n as nat,
        |i: int|
            Seq::new(
                n as nat,
                |j: int|
                    if i == j {
                        fone()
                    } else {
                        fzero()
                    },
            ),
    )
}

/// Adding an exact zero on the left keeps the value.
proof fn lemma_fadd_zero_left(a: Frac, x: Frac)
    requires
        fwf(a),
        fwf(x),
        a.n == 0,
    ensures
        feq(fadd(a, x), x),
        fwf(fadd(a, x)),
{
    assert(feq(fadd(a, x), x) && fwf(fadd(a, x))) by (nonlinear_arith)
        requires
            a.n == 0,
            a.d >= 1,
            x.d >= 1,
            fadd(a, x) == (Frac { n: a.n * x.d + x.n * a.d, d: a.d * x.d }),
            feq(fadd(a, x), x) == (fadd(a, x).n * x.d == x.n * fadd(a, x).d),
    ;
}

/// Adding a fraction with zero numerator on the right keeps the value up to
/// equality of values.
proof fn lemma_fadd_zero_right(x: Frac, b: Frac)
    requires
        fwf(x),
        fwf(b),
        b.n == 0,
    ensures
        feq(fadd(x, b), x),
        fwf(fadd(x, b)),
        (x.n == 0 ==> fadd(x, b).n == 0),
{
    assert(feq(fadd(x, b), x) && fwf(fadd(x, b)) && (x.n == 0 ==> fadd(x, b).n == 0))
        by (nonlinear_arith)
        requires
            b.n == 0,
            b.d >= 1,
            x.d >= 1,
            fadd(x, b) == (Frac { n: x.n * b.d + b.n * x.d, d: x.d * b.d }),
            feq(fadd(x, b), x) == (fadd(x, b).n * x.d == x.n * fadd(x, b).d),
    ;
}

/// The dot product of row `i` of the identity with a prefix of a column:
/// zero until the prefix covers position `i`, and the column's entry at `i`
/// afterwards.
proof fn lemma_id_dot_prefix(idr: Seq<Frac>, cl: Seq<Frac>, i: int, k: int)
    requires
        0 <= k <= idr.len(),
        idr.len() == cl.len(),
        0 <= i < idr.len(),
        forall|u: int|
            0 <= u < idr.len() ==> #[trigger] idr[u] == if u == i {
                fone()
            } else {
                fzero()
            },
        rwf(cl),
    ensures
        fwf(sdot(idr.take(k), cl.take(k))),
        i < k ==> feq(sdot(idr.take(k), cl.take(k)), cl[i]),
        i >= k ==> sdot(idr.take(k), cl.take(k)).n == 0,
    decreases k,
{
    if k == 0 {
        assert(idr.take(0) =~= Seq::<Frac>::empty());
        assert(cl.take(0) =~= Seq::<Frac>::empty());
    } else {
        lemma_id_dot_prefix(idr, cl, i, k - 1);
        assert(idr.take(k).drop_last() =~= idr.take(k - 1));
        assert(cl.take(k).drop_last() =~= cl.take(k - 1));
        assert(idr.take(k).last() == idr[k - 1]);
        assert(cl.take(k).last() == cl[k - 1]);
        let prev = sdot(idr.take(k - 1), cl.take(k - 1));
        let term = fmul(idr[k - 1], cl[k - 1]);
        assert(fwf(cl[k - 1]));
        if k - 1 == i {
            assert(term == (Frac { n: 1 * cl[i].n, d: 1 * cl[i].d }));
            assert(term == cl[i]) by (nonlinear_arith)
                requires
                    term == (Frac { n: 1 * cl[i].n, d: 1 * cl[i].d }),
            ;
            lemma_fadd_zero_left(prev, cl[i]);
        } else {
            assert(term.n == 0 && term.d == cl[k - 1].d) by (nonlinear_arith)
                requires
                    term == fmul(fzero(), cl[k - 1]),
            ;
            if i < k - 1 {
                lemma_fadd_zero_right(prev, term);
                crate::frac::lemma_feq_trans(sdot(idr.take(k), cl.take(k)), prev, cl[i]);
            } else {
                lemma_fadd_zero_right(prev, term);
            }
        }
    }
}

/// Multiplying any matrix by the identity of matching dimension on the left
/// leaves every entry unchanged: entry `(i, j)` of `identity(n) * M` denotes
/// the same value as entry `(i, j)` of `M`.
pub proof fn lemma_identity_mul(m: Seq<Seq<Frac>>, h: int, w: int)
    requires
        swf(m, h, w),
        h >= 0,
        w >= 0,
    ensures
        forall|i: int, j: int|
            0 <= i < h && 0 <= j < w ==> feq(#[trigger] sdot(sid(h)[i], col(m, j)), m[i][j]),
{
    assert forall|i: int, j: int| 0 <= i < h && 0 <= j < w implies feq(
        #[trigger] sdot(sid(h)[i], col(m, j)),
        m[i][j],
    ) by {
        let idr = sid(h)[i];
        let cl = col(m, j);
        assert(idr.len() == h && cl.len() == h);
        assert(forall|u: int| 0 <= u < h ==> #[trigger] cl[u] == m[u][j]);
        assert(rwf(cl));
        lemma_id_dot_prefix(idr, cl, i, h);
        assert(idr.take(h) =~= idr);
        assert(cl.take(h) =~= cl);
        assert(cl[i] == m[i][j]);
    }
}

/// The exact inverse of a square sequence matrix: entry `(i, j)` is the
/// cofactor of the transposed position divided by the determinant.
pub open spec fn sinv(m: Seq<Seq<Frac>>) -> Seq<Seq<Frac>> {
    Seq::new(m.len(), |i: int| Seq::new(m.len(), |j: int| fdiv(scof(m, j, i), sdet(m))))
}

/// Recovering an entry: dividing by a value equal to the reciprocal of the
/// determinant is multiplying by the determinant, and the raw cross pair of
/// an entry times the determinant is the entry.
proof fn lemma_entry_recover(x: Frac, raw: Frac, dt: Frac, detn: Frac, target: Frac)
    requires
        fwf(x),
        fwf(dt),
        fwf(detn),
        fwf(target),
        dt.n != 0,
        detn.n != 0,
        feq(detn, finv(dt)),
        feq(x, raw),
        raw.n == target.n * dt.d,
        raw.d == target.d * dt.n,
    ensures
        feq(fdiv(x, detn), target),
{
    lemma_finv_involutive(dt);
    lemma_fdiv_congr(x, x, detn, finv(dt));
    assert(fdiv(x, finv(dt)) == fmul(x, dt));
    lemma_fmul_congr(x, raw, dt, dt);
    assert(feq(fmul(raw, dt), target) && fmul(raw, dt).d != 0 && fmul(x, dt).d != 0)
        by (nonlinear_arith)
        requires
            raw.n == target.n * dt.d,
            raw.d == target.d * dt.n,
            fmul(raw, dt) == (Frac { n: raw.n * dt.n, d: raw.d * dt.d }),
            fmul(x, dt) == (Frac { n: x.n * dt.n, d: x.d * dt.d }),
            target.d >= 1,
            dt.d >= 1,
            dt.n != 0,
            x.d >= 1,
    ;
    lemma_feq_trans(fdiv(x, detn), fdiv(x, finv(dt)), fmul(raw, dt));
    lemma_feq_trans(fdiv(x, detn), fmul(raw, dt), target);
}

/// The numerator of the determinant of a 2 by 2 inverse, written over raw
/// cross pairs, factors into the cube of the original determinant's numerator
/// times the square of its denominator.
proof fn lemma_det2_num(
    an: int,
    ad: int,
    bn: int,
    bd: int,
    cn: int,
    cd: int,
    dn: int,
    dd: int,
    dtn: int,
    dtd: int,
    pn: int,
    pd: int,
    qn: int,
    qd: int,
    rdn: int,
    rdd: int,
)
    requires
        dtn == an * dn * (cd * bd) + (-(cn * bn)) * (ad * dd),
        dtd == (ad * dd) * (cd * bd),
        pn == (dn * dtd) * (an * dtd),
        pd == (dd * dtn) * (ad * dtn),
        qn == (-cn * dtd) * (-bn * dtd),
        qd == (cd * dtn) * (bd * dtn),
        rdn == pn * qd + (-qn) * pd,
        rdd == pd * qd,
    ensures
        rdn == ((dtd * dtd) * (dtn * dtn)) * dtn,
        rdd == dtd * (((dtn * dtn) * dtn) * dtn),
{
    let t = (dtd * dtd) * (dtn * dtn);
    assert(pn == (dn * an) * (dtd * dtd)) by (nonlinear_arith)
        requires
            pn == (dn * dtd) * (an * dtd),
    ;
    assert(qd == (cd * bd) * (dtn * dtn)) by (nonlinear_arith)
        requires
            qd == (cd * dtn) * (bd * dtn),
    ;
    assert(pn * qd == t * (an * dn * (cd * bd))) by (nonlinear_arith)
        requires
            pn == (dn * an) * (dtd * dtd),
            qd == (cd * bd) * (dtn * dtn),
            t == (dtd * dtd) * (dtn * dtn),
    ;
    assert(qn == (cn * bn) * (dtd * dtd)) by (nonlinear_arith)
        requires
            qn == (-cn * dtd) * (-bn * dtd),
    ;
    assert(pd == (ad * dd) * (dtn * dtn)) by (nonlinear_arith)
        requires
            pd == (dd * dtn) * (ad * dtn),
    ;
    assert(qn * pd == t * ((cn * bn) * (ad * dd))) by (nonlinear_arith)
        requires
            qn == (cn * bn) * (dtd * dtd),
            pd == (ad * dd) * (dtn * dtn),
            t == (dtd * dtd) * (dtn * dtn),
    ;
    assert((-qn) * pd == -(qn * pd)) by (nonlinear_arith);
    assert(rdn == t * (an * dn * (cd * bd)) + (-(t * ((cn * bn) * (ad * dd)))));
    assert(rdn == t * (an * dn * (cd * bd) + (-(cn * bn)) * (ad * dd))) by (nonlinear_arith)
        requires
            rdn == t * (an * dn * (cd * bd)) + (-(t * ((cn * bn) * (ad * dd)))),
    ;
    assert(rdn == t * dtn);
    assert(rdn == ((dtd * dtd) * (dtn * dtn)) * dtn) by (nonlinear_arith)
        requires
            rdn == t * dtn,
            t == (dtd * dtd) * (dtn * dtn),
    ;
    assert(rdd == dtd * (((dtn * dtn) * dtn) * dtn)) by (nonlinear_arith)
        requires
            rdd == pd * qd,
            pd == (ad * dd) * (dtn * dtn),
            qd == (cd * bd) * (dtn * dtn),
            dtd == (ad * dd) * (cd * bd),
    ;
}

/// For every invertible 2 by 2 matrix, the inverse of the inverse denotes the
/// original matrix, entry by entry.
pub proof fn lemma_inverse_involutive_2x2(m: Seq<Seq<Frac>>)
    requires
        swf(m, 2, 2),
        !feq(sdet(m), fzero()),
    ensures
        forall|i: int, j: int|
            0 <= i < 2 && 0 <= j < 2 ==> feq(#[trigger] sinv(sinv(m))[i][j], m[i][j]),
{
    let a = m[0][0];
    let b = m[0][1];
    let c = m[1][0];
    let d = m[1][1];
    let dt = sdet(m);
    assert(dt == fsub(fmul(a, d), fmul(c, b)));
    assert(fwf(dt)) by (nonlinear_arith)
        requires
            a.d >= 1,
            b.d >= 1,
            c.d >= 1,
            d.d >= 1,
            dt.d == (a.d * d.d) * (c.d * b.d),
    ;
    assert(0 * dt.d == 0) by (nonlinear_arith);
    assert(dt.n != 0);
    // The four cofactors of a 2 by 2 matrix are the opposite entries with
    // signs.
    assert(ssub(m, 0, 0)[0][0] == d && ssub(m, 1, 0)[0][0] == b && ssub(m, 0, 1)[0][0] == c
        && ssub(m, 1, 1)[0][0] == a);
    assert(scof(m, 0, 0) == d && scof(m, 1, 0) == fneg(b) && scof(m, 0, 1) == fneg(c) && scof(
        m,
        1,
        1,
    ) == a);
    let nmat = sinv(m);
    let n00 = fdiv(d, dt);
    let n01 = fdiv(fneg(b), dt);
    let n10 = fdiv(fneg(c), dt);
    let n11 = fdiv(a, dt);
    assert(nmat[0][0] == n00 && nmat[0][1] == n01 && nmat[1][0] == n10 && nmat[1][1] == n11);
    lemma_fdiv_congr(d, d, dt, dt);
    lemma_fdiv_congr(fneg(b), fneg(b), dt, dt);
    lemma_fdiv_congr(fneg(c), fneg(c), dt, dt);
    lemma_fdiv_congr(a, a, dt, dt);
    let r00 = Frac { n: d.n * dt.d, d: d.d * dt.n };
    let r01 = Frac { n: -b.n * dt.d, d: b.d * dt.n };
    let r10 = Frac { n: -c.n * dt.d, d: c.d * dt.n };
    let r11 = Frac { n: a.n * dt.d, d: a.d * dt.n };
    lemma_fdiv_raw(d, dt);
    lemma_fdiv_raw(fneg(b), dt);
    lemma_fdiv_raw(fneg(c), dt);
    lemma_fdiv_raw(a, dt);
    assert(feq(n00, r00) && feq(n01, r01) && feq(n10, r10) && feq(n11, r11));
    // The determinant of the inverse is the reciprocal of the determinant.
    let detn = sdet(nmat);
    assert(detn == fsub(fmul(n00, n11), fmul(n10, n01)));
    lemma_fmul_congr(n00, r00, n11, r11);
    lemma_fmul_congr(n10, r10, n01, r01);
    lemma_fsub_congr(fmul(n00, n11), fmul(r00, r11), fmul(n10, n01), fmul(r10, r01));
    let rd = fsub(fmul(r00, r11), fmul(r10, r01));
    assert(feq(detn, rd)) by {
        assert(fmul(n00, n11).d != 0) by (nonlinear_arith)
            requires
                fmul(n00, n11).d == n00.d * n11.d,
                n00.d >= 1,
                n11.d >= 1,
        ;
        assert(fsub(fmul(n00, n11), fmul(n10, n01)).d != 0) by (nonlinear_arith)
            requires
                fsub(fmul(n00, n11), fmul(n10, n01)).d == fmul(n00, n11).d * fmul(n10, n01).d,
                fmul(n00, n11).d == n00.d * n11.d,
                fmul(n10, n01).d == n10.d * n01.d,
                n00.d >= 1,
                n11.d >= 1,
                n10.d >= 1,
                n01.d >= 1,
        ;
    }
    assert(fmul(r00, r11).n == (d.n * dt.d) * (a.n * dt.d) && fmul(r00, r11).d == (d.d * dt.n) * (
    a.d * dt.n) && fmul(r10, r01).n == (-c.n * dt.d) * (-b.n * dt.d) && fmul(r10, r01).d == (c.d
        * dt.n) * (b.d * dt.n) && rd.n == fmul(r00, r11).n * fmul(r10, r01).d + (-fmul(r10, r01).n)
        * fmul(r00, r11).d && rd.d == fmul(r00, r11).d * fmul(r10, r01).d);
    lemma_det2_num(
        a.n,
        a.d,
        b.n,
        b.d,
        c.n,
        c.d,
        d.n,
        d.d,
        dt.n,
        dt.d,
        fmul(r00, r11).n,
        fmul(r00, r11).d,
        fmul(r10, r01).n,
        fmul(r10, r01).d,
        rd.n,
        rd.d,
    );
    assert(feq(rd, finv(dt)) && rd.d != 0) by (nonlinear_arith)
        requires
            dt.n != 0,
            dt.d >= 1,
            rd.n == ((dt.d * dt.d) * (dt.n * dt.n)) * dt.n,
            rd.d == dt.d * (((dt.n * dt.n) * dt.n) * dt.n),
            finv(dt) == (if dt.n >= 0 {
                Frac { n: dt.d, d: dt.n }
            } else {
                Frac { n: -dt.d, d: -dt.n }
            }),
    ;
    lemma_feq_trans(detn, rd, finv(dt));
    lemma_finv_involutive(dt);
    assert(fwf(detn)) by (nonlinear_arith)
        requires
            detn.d == (n00.d * n11.d) * (n10.d * n01.d),
            n00.d >= 1,
            n11.d >= 1,
            n10.d >= 1,
            n01.d >= 1,
    ;
    lemma_feq_sign(detn, finv(dt));
    assert(detn.n != 0);
    // The cofactors of the inverse are its opposite entries with signs, and
    // dividing them by the inverse determinant recovers the original entries.
    assert(ssub(nmat, 0, 0)[0][0] == n11 && ssub(nmat, 1, 0)[0][0] == n01 && ssub(nmat, 0, 1)[0][0]
        == n10 && ssub(nmat, 1, 1)[0][0] == n00);
    assert(scof(nmat, 0, 0) == n11 && scof(nmat, 1, 0) == fneg(n01) && scof(nmat, 0, 1) == fneg(
        n10,
    ) && scof(nmat, 1, 1) == n00);
    let m2 = sinv(nmat);
    assert(m2[0][0] == fdiv(n11, detn) && m2[0][1] == fdiv(fneg(n01), detn) && m2[1][0] == fdiv(
        fneg(n10),
        detn,
    ) && m2[1][1] == fdiv(n00, detn));
    lemma_entry_recover(n11, r11, dt, detn, a);
    lemma_fneg_congr(n01, r01);
    assert(fneg(r01) == (Frac { n: b.n * dt.d, d: b.d * dt.n })) by (nonlinear_arith)
        requires
            r01 == (Frac { n: -b.n * dt.d, d: b.d * dt.n }),
            fneg(r01) == (Frac { n: -r01.n, d: r01.d }),
    ;
    assert(fwf(fneg(n01)));
    lemma_entry_recover(fneg(n01), fneg(r01), dt, detn, b);
    lemma_fneg_congr(n10, r10);
    assert(fneg(r10) == (Frac { n: c.n * dt.d, d: c.d * dt.n })) by (nonlinear_arith)
        requires
            r10 == (Frac { n: -c.n * dt.d, d: c.d * dt.n }),
            fneg(r10) == (Frac { n: -r10.n, d: r10.d }),
    ;
    lemma_entry_recover(fneg(n10), fneg(r10), dt, detn, c);
    lemma_entry_recover(n00, r00, dt, detn, d);
    assert(feq(m2[0][0], a) && feq(m2[0][1], b) && feq(m2[1][0], c) && feq(m2[1][1], d));
}

} // verus!
