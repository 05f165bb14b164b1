//! Square (and rectangular) matrices of exact scalars, stored row-major, with
//! determinant and inverse by cofactor expansion along the first row, and the
//! named affine constructors for translation, scale, rotation and shear.
use crate::frac::{
    cadd, cmul, cnorm, csub, fadd, feq, fle, fmul, fneg, fone, fsub, fwf, fzero, lemma_cnorm,
    lemma_fadd_congr, lemma_feq_sign, lemma_feq_trans, lemma_fmul_congr, lemma_fred, Frac,
};
use crate::scalar::Scalar;
use crate::tuple::{Tuple, TupleView};
use crate::Error;
use vstd::prelude::*;

verus! {

/// A row-major matrix of exact scalars.
#[derive(Clone, Debug)]
pub struct Matrix {
    pub data: Vec<Scalar>,
    pub width: usize,
    pub height: usize,
}

impl View for Matrix {
    type V = Seq<Seq<Frac>>;

    /// The matrix as a sequence of rows of exact fractions.
    open spec fn view(&self) -> Seq<Seq<Frac>> {
        Seq::new(
            self.height as nat,
            |r: int| Seq::new(self.width as nat, |c: int| self.data@[r * self.width + c]@),
        )
    }
}

/// A well-formed sequence matrix: `h` rows of `w` well-formed fractions.
pub open spec fn swf(m: Seq<Seq<Frac>>, h: int, w: int) -> bool {
    &&& m.len() == h
    &&& forall|i: int| 0 <= i < h ==> (#[trigger] m[i]).len() == w
    &&& forall|i: int, j: int| 0 <= i < h && 0 <= j < w ==> fwf(#[trigger] m[i][j])
}

/// Elementwise equality of values between two sequence matrices.
pub open spec fn meq(a: Seq<Seq<Frac>>, b: Seq<Seq<Frac>>, h: int, w: int) -> bool {
    forall|i: int, j: int| 0 <= i < h && 0 <= j < w ==> feq(#[trigger] a[i][j], b[i][j])
}

/// A row-major index stays inside the data array.
proof fn lemma_rc_index(r: int, c: int, w: int, h: int)
    by (nonlinear_arith)
    requires
        0 <= r < h,
        0 <= c < w,
    ensures
        0 <= r * w + c < h * w,
        h * w == w * h,
{
}

/// One more full row advances the row-major length by one width.
proof fn lemma_row_step(i: int, w: int)
    by (nonlinear_arith)
    ensures
        (i + 1) * w == i * w + w,
{
}

/// Distinct positions give distinct row-major indices.
proof fn lemma_rc_distinct(r1: int, c1: int, r2: int, c2: int, w: int)
    by (nonlinear_arith)
    requires
        0 <= c1 < w,
        0 <= c2 < w,
        r1 >= 0,
        r2 >= 0,
        r1 != r2 || c1 != c2,
    ensures
        r1 * w + c1 != r2 * w + c2,
{
}

impl Matrix {
    /// Well-formed: the data holds exactly `width * height` well-formed
    /// scalars in row-major order.
    pub open spec fn wf(self) -> bool {
        &&& self.data@.len() == self.width * self.height
        &&& self.width * self.height <= usize::MAX
        &&& forall|k: int| 0 <= k < self.data@.len() ==> (#[trigger] self.data@[k]).wf()
    }

    /// The view of a well-formed matrix is a well-formed sequence matrix.
    pub proof fn lemma_wf_view(&self)
        requires
            self.wf(),
        ensures
            swf(self@, self.height as int, self.width as int),
    {
        assert forall|i: int, j: int|
            0 <= i < self.height as int && 0 <= j < self.width as int implies fwf(
            #[trigger] self@[i][j],
        ) by {
            lemma_rc_index(i, j, self.width as int, self.height as int);
            assert(self@[i][j] == self.data@[i * self.width + j]@);
        }
    }

    /// One entry, by zero-based row and column.
    pub fn get(&self, row: usize, col: usize) -> (r: Scalar)
        requires
            self.wf(),
            row < self.height,
            col < self.width,
        ensures
            r.wf(),
            r@ == self@[row as int][col as int],
    {
        proof {
            lemma_rc_index(row as int, col as int, self.width as int, self.height as int);
        }
        let idx: usize = row * self.width + col;
        self.data[idx]
    }

    /// Replaces one entry, leaving every other entry unchanged.
    pub fn set(&mut self, row: usize, col: usize, v: Scalar)
        requires
            old(self).wf(),
            row < old(self).height,
            col < old(self).width,
            v.wf(),
        ensures
            final(self).wf(),
            final(self).width == old(self).width,
            final(self).height == old(self).height,
            forall|i: int, j: int|
                0 <= i < old(self).height as int && 0 <= j < old(self).width as int
                    ==> #[trigger] final(self)@[i][j] == if i == row as int && j == col as int {
                    v@
                } else {
                    old(self)@[i][j]
                },
    {
        proof {
            lemma_rc_index(row as int, col as int, self.width as int, self.height as int);
        }
        let idx: usize = row * self.width + col;
        self.data.set(idx, v);
        proof {
            assert forall|i: int, j: int|
                0 <= i < self.height as int && 0 <= j < self.width as int implies #[trigger] self@[i][j]
                == if i == row as int && j == col as int {
                v@
            } else {
                old(self)@[i][j]
            } by {
                lemma_rc_index(i, j, self.width as int, self.height as int);
                if i != row as int || j != col as int {
                    lemma_rc_distinct(i, j, row as int, col as int, self.width as int);
                }
            }
        }
    }

    /// A matrix of the given dimensions filled with exact zeros.
    pub fn zeroed(width: usize, height: usize) -> (r: Matrix)
        requires
            width * height <= usize::MAX,
        ensures
            r.wf(),
            r.width == width,
            r.height == height,
            forall|i: int, j: int|
                0 <= i < height as int && 0 <= j < width as int ==> #[trigger] r@[i][j] == fzero(),
    {
        let total: usize = width * height;
        let mut data: Vec<Scalar> = Vec::new();
        let mut k: usize = 0;
        while k < total
            invariant
                k <= total,
                data@.len() == k,
                forall|t: int| 0 <= t < k ==> (#[trigger] data@[t]).wf() && data@[t]@ == fzero(),
            decreases total - k,
        {
            data.push(Scalar::zero());
            k = k + 1;
        }
        let r = Matrix { data, width, height };
        proof {
            assert forall|i: int, j: int|
                0 <= i < height as int && 0 <= j < width as int implies #[trigger] r@[i][j]
                == fzero() by {
                lemma_rc_index(i, j, width as int, height as int);
            }
        }
        r
    }

    /// The identity matrix: exact ones on the diagonal, zeros elsewhere.
    pub fn identity(size: usize) -> (r: Matrix)
        requires
            size * size <= usize::MAX,
        ensures
            r.wf(),
            r.width == size,
            r.height == size,
            forall|i: int, j: int|
                0 <= i < size as int && 0 <= j < size as int ==> #[trigger] r@[i][j] == if i == j {
                    fone()
                } else {
                    fzero()
                },
    {
        let mut res = Matrix::zeroed(size, size);
        let mut i: usize = 0;
        while i < size
            invariant
                i <= size,
                res.wf(),
                res.width == size,
                res.height == size,
                forall|r2: int, c2: int|
                    0 <= r2 < size as int && 0 <= c2 < size as int ==> #[trigger] res@[r2][c2]
                        == if r2 == c2 && r2 < i as int {
                        fone()
                    } else {
                        fzero()
                    },
            decreases size - i,
        {
            res.set(i, i, Scalar::one());
            i = i + 1;
        }
        res
    }

    /// A matrix from explicit rows.
    pub fn from_rows(width: usize, height: usize, rows: Vec<Vec<Scalar>>) -> (r: Matrix)
        requires
            width * height <= usize::MAX,
            rows@.len() == height,
            forall|i: int| 0 <= i < height as int ==> (#[trigger] rows@[i])@.len() == width,
            forall|i: int, j: int|
                0 <= i < height as int && 0 <= j < width as int ==> (#[trigger] rows@[i]@[j]).wf(),
        ensures
            r.wf(),
            r.width == width,
            r.height == height,
            forall|i: int, j: int|
                0 <= i < height as int && 0 <= j < width as int ==> #[trigger] r@[i][j]
                    == rows@[i]@[j]@,
    {
        let mut data: Vec<Scalar> = Vec::new();
        let mut i: usize = 0;
        while i < height
            invariant
                i <= height,
                width * height <= usize::MAX,
                rows@.len() == height,
                forall|t: int| 0 <= t < height as int ==> (#[trigger] rows@[t])@.len() == width,
                forall|t: int, u: int|
                    0 <= t < height as int && 0 <= u < width as int ==> (
                    #[trigger] rows@[t]@[u]).wf(),
                data@.len() == i * width,
                forall|k: int| 0 <= k < data@.len() ==> (#[trigger] data@[k]).wf(),
                forall|t: int, u: int|
                    0 <= t < i as int && 0 <= u < width as int ==> #[trigger] data@[t * width + u]
                        == rows@[t]@[u],
            decreases height - i,
        {
            proof {
                assert(i as int * width as int + width <= height as int * width as int)
                    by (nonlinear_arith)
                    requires
                        0 <= i as int && (i as int) < height as int,
                        width as int >= 0,
                ;
            }
            let mut j: usize = 0;
            while j < width
                invariant
                    j <= width,
                    i < height,
                    width * height <= usize::MAX,
                    rows@.len() == height,
                    forall|t: int| 0 <= t < height as int ==> (#[trigger] rows@[t])@.len() == width,
                    forall|t: int, u: int|
                        0 <= t < height as int && 0 <= u < width as int ==> (
                        #[trigger] rows@[t]@[u]).wf(),
                    data@.len() == i * width + j,
                    forall|k: int| 0 <= k < data@.len() ==> (#[trigger] data@[k]).wf(),
                    i as int * width as int + width as int <= height as int * width as int,
                    height * width == width * height,
                    forall|t: int, u: int|
                        0 <= t < i as int && 0 <= u < width as int ==> #[trigger] data@[t * width
                            + u] == rows@[t]@[u],
                    forall|u: int|
                        0 <= u < j as int ==> #[trigger] data@[i as int * width as int + u]
                            == rows@[i as int]@[u],
                decreases width - j,
            {
                let row_i = &rows[i];
                data.push(row_i[j]);
                proof {
                    assert forall|t: int, u: int|
                        0 <= t < i as int && 0 <= u < width as int implies #[trigger] data@[t
                        * width + u] == rows@[t]@[u] by {
                        lemma_rc_index(t, u, width as int, i as int);
                        assert(t * width + u < i * width);
                    }
                }
                j = j + 1;
            }
            proof {
                lemma_row_step(i as int, width as int);
            }
            i = i + 1;
        }
        let r = Matrix { data, width, height };
        proof {
            assert(r.data@.len() == width * height) by (nonlinear_arith)
                requires
                    r.data@.len() == height as int * width as int,
            ;
            assert forall|i2: int, j2: int|
                0 <= i2 < height as int && 0 <= j2 < width as int implies #[trigger] r@[i2][j2]
                == rows@[i2]@[j2]@ by {
                lemma_rc_index(i2, j2, width as int, height as int);
            }
        }
        r
    }

    /// A tuple as a single-column matrix, in x, y, z, w order.
    pub fn from_tuple(tuple: Tuple) -> (r: Matrix)
        requires
            tuple.wf(),
        ensures
            r.wf(),
            r.width == 1,
            r.height == 4,
            r@[0][0] == tuple@.x,
            r@[1][0] == tuple@.y,
            r@[2][0] == tuple@.z,
            r@[3][0] == tuple@.w,
    {
        let mut data: Vec<Scalar> = Vec::new();
        data.push(tuple.x);
        data.push(tuple.y);
        data.push(tuple.z);
        data.push(tuple.w);
        Matrix { data, width: 1, height: 4 }
    }

    /// The transpose: rows and columns exchanged.
    pub fn transposed(&self) -> (r: Matrix)
        requires
            self.wf(),
        ensures
            r.wf(),
            r.width == self.height,
            r.height == self.width,
            forall|i: int, j: int|
                0 <= i < self.width as int && 0 <= j < self.height as int ==> #[trigger] r@[i][j]
                    == self@[j][i],
    {
        let nw: usize = self.height;
        let nh: usize = self.width;
        proof {
            assert(nh * nw <= usize::MAX) by (nonlinear_arith)
                requires
                    self.width * self.height <= usize::MAX,
                    nw == self.height,
                    nh == self.width,
            ;
        }
        let mut data: Vec<Scalar> = Vec::new();
        let mut i: usize = 0;
        while i < nh
            invariant
                i <= nh,
                self.wf(),
                nw == self.height,
                nh == self.width,
                data@.len() == i * nw,
                forall|k: int| 0 <= k < data@.len() ==> (#[trigger] data@[k]).wf(),
                forall|t: int, u: int|
                    0 <= t < i as int && 0 <= u < nw as int ==> (#[trigger] data@[t * nw + u]).wf()
                        && data@[t * nw + u]@ == self@[u][t],
            decreases nh - i,
        {
            let mut j: usize = 0;
            while j < nw
                invariant
                    j <= nw,
                    i < nh,
                    self.wf(),
                    nw == self.height,
                    nh == self.width,
                    data@.len() == i * nw + j,
                    forall|k: int| 0 <= k < data@.len() ==> (#[trigger] data@[k]).wf(),
                    forall|t: int, u: int|
                        0 <= t < i as int && 0 <= u < nw as int ==> (#[trigger] data@[t * nw
                            + u]).wf() && data@[t * nw + u]@ == self@[u][t],
                    forall|u: int|
                        0 <= u < j as int ==> (#[trigger] data@[i as int * nw as int + u]).wf()
                            && data@[i as int * nw as int + u]@ == self@[u][i as int],
                decreases nw - j,
            {
                proof {
                    lemma_rc_index(i as int, j as int, nw as int, nh as int);
                    assert(nh as int * nw as int == self.width * self.height) by (nonlinear_arith)
                        requires
                            nw == self.height,
                            nh == self.width,
                    ;
                }
                let v = self.get(j, i);
                data.push(v);
                proof {
                    assert forall|t: int, u: int|
                        0 <= t < i as int && 0 <= u < nw as int implies (#[trigger] data@[t * nw
                        + u]).wf() && data@[t * nw + u]@ == self@[u][t] by {
                        lemma_rc_index(t, u, nw as int, i as int);
                        assert(t * nw + u < i * nw);
                    }
                }
                j = j + 1;
            }
            proof {
                lemma_row_step(i as int, nw as int);
            }
            i = i + 1;
        }
        let r = Matrix { data, width: nw, height: nh };
        proof {
            assert(r.data@.len() == nw * nh) by (nonlinear_arith)
                requires
                    r.data@.len() == nh as int * nw as int,
            ;
            assert(nw * nh <= usize::MAX) by (nonlinear_arith)
                requires
                    self.width * self.height <= usize::MAX,
                    nw == self.height,
                    nh == self.width,
            ;
            assert forall|i2: int, j2: int|
                0 <= i2 < nh as int && 0 <= j2 < nw as int implies #[trigger] r@[i2][j2]
                == self@[j2][i2] by {
                lemma_rc_index(i2, j2, nw as int, nh as int);
            }
        }
        r
    }

    /// The matrix with the given row and column removed.
    pub fn submatrix(&self, row: usize, col: usize) -> (r: Matrix)
        requires
            self.wf(),
            self.height >= 1,
            self.width >= 1,
            row < self.height,
            col < self.width,
        ensures
            r.wf(),
            r.width == self.width - 1,
            r.height == self.height - 1,
            forall|i: int, j: int|
                0 <= i < self.height - 1 && 0 <= j < self.width - 1 ==> #[trigger] r@[i][j]
                    == self@[
                    if i < row as int {
                        i
                    } else {
                        i + 1
                    }
                ][
                    if j < col as int {
                        j
                    } else {
                        j + 1
                    }
                ],
    {
        let nw: usize = self.width - 1;
        let nh: usize = self.height - 1;
        proof {
            assert(nh * nw <= usize::MAX) by (nonlinear_arith)
                requires
                    self.width * self.height <= usize::MAX,
                    nw as int == self.width - 1,
                    nh as int == self.height - 1,
                    self.width >= 1,
                    self.height >= 1,
            ;
        }
        let mut data: Vec<Scalar> = Vec::new();
        let mut i: usize = 0;
        while i < nh
            invariant
                i <= nh,
                self.wf(),
                nw as int == self.width - 1,
                nh as int == self.height - 1,
                row < self.height,
                col < self.width,
                data@.len() == i * nw,
                forall|k: int| 0 <= k < data@.len() ==> (#[trigger] data@[k]).wf(),
                forall|t: int, u: int|
                    0 <= t < i as int && 0 <= u < nw as int ==> (#[trigger] data@[t * nw + u]).wf()
                        && data@[t * nw + u]@ == self@[
                        if t < row as int {
                            t
                        } else {
                            t + 1
                        }
                    ][
                        if u < col as int {
                            u
                        } else {
                            u + 1
                        }
                    ],
            decreases nh - i,
        {
            let src_r: usize = if i < row {
                i
            } else {
                i + 1
            };
            let mut j: usize = 0;
            while j < nw
                invariant
                    j <= nw,
                    i < nh,
                    self.wf(),
                    nw as int == self.width - 1,
                    nh as int == self.height - 1,
                    row < self.height,
                    col < self.width,
                    src_r as int == if (i as int) < row as int {
                        i as int
                    } else {
                        i as int + 1
                    },
                    src_r < self.height,
                    data@.len() == i * nw + j,
                    forall|k: int| 0 <= k < data@.len() ==> (#[trigger] data@[k]).wf(),
                    forall|t: int, u: int|
                        0 <= t < i as int && 0 <= u < nw as int ==> (#[trigger] data@[t * nw
                            + u]).wf() && data@[t * nw + u]@ == self@[
                            if t < row as int {
                                t
                            } else {
                                t + 1
                            }
                        ][
                            if u < col as int {
                                u
                            } else {
                                u + 1
                            }
                        ],
                    forall|u: int|
                        0 <= u < j as int ==> (#[trigger] data@[i as int * nw as int + u]).wf()
                            && data@[i as int * nw as int + u]@ == self@[
                            if (i as int) < row as int {
                                i as int
                            } else {
                                i as int + 1
                            }
                        ][
                            if u < col as int {
                                u
                            } else {
                                u + 1
                            }
                        ],
                decreases nw - j,
            {
                let src_c: usize = if j < col {
                    j
                } else {
                    j + 1
                };
                proof {
                    lemma_rc_index(i as int, j as int, nw as int, nh as int);
                }
                let v = self.get(src_r, src_c);
                data.push(v);
                proof {
                    assert forall|t: int, u: int|
                        0 <= t < i as int && 0 <= u < nw as int implies (#[trigger] data@[t * nw
                        + u]).wf() && data@[t * nw + u]@ == self@[
                        if t < row as int {
                            t
                        } else {
                            t + 1
                        }
                    ][
                        if u < col as int {
                            u
                        } else {
                            u + 1
                        }
                    ] by {
                        lemma_rc_index(t, u, nw as int, i as int);
                        assert(t * nw + u < i * nw);
                    }
                }
                j = j + 1;
            }
            proof {
                lemma_row_step(i as int, nw as int);
            }
            i = i + 1;
        }
        let r = Matrix { data, width: nw, height: nh };
        proof {
            assert(r.data@.len() == nw * nh && nw * nh <= usize::MAX) by (nonlinear_arith)
                requires
                    r.data@.len() == nh as int * nw as int,
                    nw as int == self.width - 1,
                    nh as int == self.height - 1,
                    self.width >= 1,
                    self.height >= 1,
                    self.width * self.height <= usize::MAX,
            ;
            assert forall|i2: int, j2: int|
                0 <= i2 < nh as int && 0 <= j2 < nw as int implies #[trigger] r@[i2][j2] == self@[
                if i2 < row as int {
                    i2
                } else {
                    i2 + 1
                }
            ][
                if j2 < col as int {
                    j2
                } else {
                    j2 + 1
                }
            ] by {
                lemma_rc_index(i2, j2, nw as int, nh as int);
            }
        }
        r
    }
}

/// Two matrices denote the same values: equal dimensions and entrywise
/// equal stored fractions.
pub open spec fn matrix_eqv(a: Matrix, b: Matrix) -> bool {
    &&& a.width == b.width
    &&& a.height == b.height
    &&& a.data@.len() == b.data@.len()
    &&& forall|t: int| 0 <= t < a.data@.len() ==> feq(#[trigger] a.data@[t]@, b.data@[t]@)
}

impl PartialEq for Matrix {
    /// Matrices are equal when their dimensions match and every pair of
    /// stored entries denotes the same value.
    fn eq(&self, other: &Matrix) -> (r: bool) {
        if self.width != other.width || self.height != other.height {
            return false;
        }
        if self.data.len() != other.data.len() {
            return false;
        }
        let mut k: usize = 0;
        while k < self.data.len()
            invariant
                k <= self.data@.len(),
                self.data@.len() == other.data@.len(),
                forall|t: int| 0 <= t < k as int ==> feq(#[trigger] self.data@[t]@, other.data@[t]@),
            decreases self.data@.len() - k,
        {
            let a = self.data[k];
            let b = other.data[k];
            if !(a == b) {
                return false;
            }
            k = k + 1;
        }
        true
    }
}

impl vstd::std_specs::cmp::PartialEqSpecImpl for Matrix {
    open spec fn obeys_eq_spec() -> bool {
        true
    }

    open spec fn eq_spec(&self, other: &Matrix) -> bool {
        matrix_eqv(*self, *other)
    }
}


/// Column `c` of a sequence matrix.
pub open spec fn col(m: Seq<Seq<Frac>>, c: int) -> Seq<Frac> {
    Seq::new(m.len(), |i: int| m[i][c])
}

/// The four components of a tuple as a column.
pub open spec fn tup_seq(t: TupleView) -> Seq<Frac> {
    seq![t.x, t.y, t.z, t.w]
}

/// The exact dot product of two equally long rows.
pub open spec fn sdot(a: Seq<Frac>, b: Seq<Frac>) -> Frac
    decreases a.len(),
{
    if a.len() == 0 {
        fzero()
    } else {
        fadd(sdot(a.drop_last(), b.drop_last()), fmul(a.last(), b.last()))
    }
}

/// The dot product as the executable loop folds it, each partial sum reduced
/// and range-checked.
pub open spec fn cdot(a: Seq<Frac>, b: Seq<Frac>) -> Option<Frac>
    decreases a.len(),
{
    if a.len() == 0 {
        Some(fzero())
    } else {
        cadd(cdot(a.drop_last(), b.drop_last()), cmul(Some(a.last()), Some(b.last())))
    }
}

/// Rows of well-formed fractions.
pub open spec fn rwf(a: Seq<Frac>) -> bool {
    forall|i: int| 0 <= i < a.len() ==> fwf(#[trigger] a[i])
}

/// Once a checked dot product fails on a prefix, it fails on the whole row.
pub proof fn lemma_cdot_none(a: Seq<Frac>, b: Seq<Frac>, i: int)
    requires
        0 <= i <= a.len(),
        a.len() == b.len(),
        cdot(a.take(i), b.take(i)) == None::<Frac>,
    ensures
        cdot(a, b) == None::<Frac>,
    decreases a.len() - i,
{
    if i == a.len() {
        assert(a.take(i) =~= a);
        assert(b.take(i) =~= b);
    } else {
        assert(a.take(i + 1).drop_last() =~= a.take(i));
        assert(b.take(i + 1).drop_last() =~= b.take(i));
        lemma_cdot_none(a, b, i + 1);
    }
}

/// A checked dot product that succeeds denotes the exact dot product.
pub proof fn lemma_cdot_feq(a: Seq<Frac>, b: Seq<Frac>)
    requires
        a.len() == b.len(),
        rwf(a),
        rwf(b),
    ensures
        fwf(sdot(a, b)),
        match cdot(a, b) {
            Some(v) => fwf(v) && feq(v, sdot(a, b)),
            None => true,
        },
    decreases a.len(),
{
    if a.len() == 0 {
    } else {
        let a2 = a.drop_last();
        let b2 = b.drop_last();
        assert(rwf(a2) && rwf(b2)) by {
            assert(forall|i: int| 0 <= i < a2.len() ==> #[trigger] a2[i] == a[i]);
            assert(forall|i: int| 0 <= i < b2.len() ==> #[trigger] b2[i] == b[i]);
        }
        lemma_cdot_feq(a2, b2);
        let p = fmul(a.last(), b.last());
        assert(fwf(p) && fwf(fadd(sdot(a2, b2), p))) by (nonlinear_arith)
            requires
                fwf(a.last()),
                fwf(b.last()),
                p == fmul(a.last(), b.last()),
                fwf(sdot(a2, b2)),
        ;
        match cdot(a, b) {
            Some(v) => {
                let v2 = match cdot(a2, b2) {
                    Some(x) => x,
                    None => fzero(),
                };
                let pr = match cmul(Some(a.last()), Some(b.last())) {
                    Some(x) => x,
                    None => fzero(),
                };
                lemma_cnorm(p);
                assert(fwf(fadd(v2, pr))) by (nonlinear_arith)
                    requires
                        fwf(v2),
                        fwf(pr),
                ;
                lemma_cnorm(fadd(v2, pr));
                lemma_fadd_congr(v2, sdot(a2, b2), pr, p);
                lemma_feq_trans(fadd(v2, pr), fadd(sdot(a2, b2), p), sdot(a, b));
                lemma_feq_trans(v, fadd(v2, pr), sdot(a, b));
            },
            None => {},
        }
    }
}

impl Matrix {
    /// The matrix product; the inner dimensions must agree. Each entry is the
    /// exact dot product of a row of `self` with a column of `other`.
    pub fn mul(&self, other: &Matrix) -> (r: Result<Matrix, Error>)
        requires
            self.wf(),
            other.wf(),
            self.width == other.height,
            self.height * other.width <= usize::MAX,
        ensures
            match r {
                Ok(m) => {
                    &&& m.wf()
                    &&& m.width == other.width
                    &&& m.height == self.height
                    &&& forall|i: int, j: int|
                        0 <= i < self.height as int && 0 <= j < other.width as int ==> Some(
                            #[trigger] m@[i][j],
                        ) == cdot(self@[i], col(other@, j))
                    &&& forall|i: int, j: int|
                        0 <= i < self.height as int && 0 <= j < other.width as int ==> feq(
                            #[trigger] m@[i][j],
                            sdot(self@[i], col(other@, j)),
                        )
                },
                Err(e) => e == Error::OutOfRange && exists|i: int, j: int|
                    0 <= i < self.height as int && 0 <= j < other.width as int && #[trigger] cdot(
                        self@[i],
                        col(other@, j),
                    ) == None::<Frac>,
            },
    {
        let nh: usize = self.height;
        let nw: usize = other.width;
        let n: usize = self.width;
        let mut data: Vec<Scalar> = Vec::new();
        let mut i: usize = 0;
        while i < nh
            invariant
                i <= nh,
                self.wf(),
                other.wf(),
                nh == self.height,
                nw == other.width,
                n == self.width,
                n == other.height,
                nh * nw <= usize::MAX,
                data@.len() == i * nw,
                forall|k: int| 0 <= k < data@.len() ==> (#[trigger] data@[k]).wf(),
                forall|t: int, u: int|
                    0 <= t < i as int && 0 <= u < nw as int ==> Some(
                        (#[trigger] data@[t * nw + u])@,
                    ) == cdot(self@[t], col(other@, u)),
            decreases nh - i,
        {
            let mut j: usize = 0;
            while j < nw
                invariant
                    j <= nw,
                    i < nh,
                    self.wf(),
                    other.wf(),
                    nh == self.height,
                    nw == other.width,
                    n == self.width,
                    n == other.height,
                    nh * nw <= usize::MAX,
                    data@.len() == i * nw + j,
                    forall|k: int| 0 <= k < data@.len() ==> (#[trigger] data@[k]).wf(),
                    forall|t: int, u: int|
                        0 <= t < i as int && 0 <= u < nw as int ==> Some(
                            (#[trigger] data@[t * nw + u])@,
                        ) == cdot(self@[t], col(other@, u)),
                    forall|u: int|
                        0 <= u < j as int ==> Some(
                            (#[trigger] data@[i as int * nw as int + u])@,
                        ) == cdot(self@[i as int], col(other@, u)),
                decreases nw - j,
            {
                let ghost row = self@[i as int];
                let ghost column = col(other@, j as int);
                let mut acc: Scalar = Scalar::zero();
                let mut k: usize = 0;
                proof {
                    assert(row.take(0) =~= Seq::<Frac>::empty());
                    assert(column.take(0) =~= Seq::<Frac>::empty());
                }
                while k < n
                    invariant
                        k <= n,
                        i < nh,
                        j < nw,
                        self.wf(),
                        other.wf(),
                        nh == self.height,
                        nw == other.width,
                        n == self.width,
                        n == other.height,
                        row == self@[i as int],
                        column == col(other@, j as int),
                        row.len() == n,
                        column.len() == n,
                        acc.wf(),
                        Some(acc@) == cdot(row.take(k as int), column.take(k as int)),
                    decreases n - k,
                {
                    let ghost prefix = row.take(k as int);
                    let a = self.get(i, k);
                    let b = other.get(k, j);
                    proof {
                        assert(row.take(k as int + 1).drop_last() =~= row.take(k as int));
                        assert(column.take(k as int + 1).drop_last() =~= column.take(k as int));
                        assert(row.take(k as int + 1).last() == a@);
                        assert(column.take(k as int + 1).last() == b@);
                    }
                    let p = match a.mul(b) {
                        Ok(p) => p,
                        Err(_) => {
                            proof {
                                lemma_cdot_none(row, column, k as int + 1);
                            }
                            return Err(Error::OutOfRange);
                        },
                    };
                    let acc2 = match acc.add(p) {
                        Ok(s) => s,
                        Err(_) => {
                            proof {
                                lemma_cdot_none(row, column, k as int + 1);
                            }
                            return Err(Error::OutOfRange);
                        },
                    };
                    acc = acc2;
                    k = k + 1;
                }
                proof {
                    assert(row.take(n as int) =~= row);
                    assert(column.take(n as int) =~= column);
                }
                data.push(acc);
                proof {
                    assert forall|t: int, u: int|
                        0 <= t < i as int && 0 <= u < nw as int implies Some(
                        (#[trigger] data@[t * nw + u])@,
                    ) == cdot(self@[t], col(other@, u)) by {
                        lemma_rc_index(t, u, nw as int, i as int);
                        assert(t * nw + u < i * nw);
                    }
                }
                j = j + 1;
            }
            proof {
                lemma_row_step(i as int, nw as int);
            }
            i = i + 1;
        }
        let m = Matrix { data, width: nw, height: nh };
        proof {
            assert(m.data@.len() == nw * nh && nw * nh <= usize::MAX && nw * nh == nh * nw)
                by (nonlinear_arith)
                requires
                    m.data@.len() == nh as int * nw as int,
                    nh * nw <= usize::MAX,
            ;
            self.lemma_wf_view();
            other.lemma_wf_view();
            assert forall|i2: int, j2: int|
                0 <= i2 < nh as int && 0 <= j2 < nw as int implies Some(#[trigger] m@[i2][j2])
                == cdot(self@[i2], col(other@, j2)) && feq(
                m@[i2][j2],
                sdot(self@[i2], col(other@, j2)),
            ) by {
                lemma_rc_index(i2, j2, nw as int, nh as int);
                assert(forall|t: int|
                    0 <= t < n as int ==> fwf(#[trigger] col(other@, j2)[t]) && fwf(self@[i2][t]));
                assert(rwf(self@[i2]) && rwf(col(other@, j2)));
                lemma_cdot_feq(self@[i2], col(other@, j2));
            }
        }
        Ok(m)
    }

    /// The image of a homogeneous tuple under a 4 by 4 matrix: the tuple is
    /// lifted to a single-column matrix and each component is the dot product
    /// of a row with it.
    pub fn mul_tuple(&self, t: &Tuple) -> (r: Result<Tuple, Error>)
        requires
            self.wf(),
            t.wf(),
            self.width == 4,
            self.height == 4,
        ensures
            match r {
                Ok(u) => {
                    &&& u.wf()
                    &&& Some(u@.x) == cdot(self@[0], tup_seq(t@))
                    &&& Some(u@.y) == cdot(self@[1], tup_seq(t@))
                    &&& Some(u@.z) == cdot(self@[2], tup_seq(t@))
                    &&& Some(u@.w) == cdot(self@[3], tup_seq(t@))
                    &&& feq(u@.x, sdot(self@[0], tup_seq(t@)))
                    &&& feq(u@.y, sdot(self@[1], tup_seq(t@)))
                    &&& feq(u@.z, sdot(self@[2], tup_seq(t@)))
                    &&& feq(u@.w, sdot(self@[3], tup_seq(t@)))
                },
                Err(e) => e == Error::OutOfRange && exists|i: int|
                    0 <= i < 4 && #[trigger] cdot(self@[i], tup_seq(t@)) == None::<Frac>,
            },
    {
        let tm = Matrix::from_tuple(*t);
        proof {
            assert(col(tm@, 0) =~= tup_seq(t@));
        }
        let res = match self.mul(&tm) {
            Ok(m) => m,
            Err(_) => {
                return Err(Error::OutOfRange);
            },
        };
        let x = res.get(0, 0);
        let y = res.get(1, 0);
        let z = res.get(2, 0);
        let w = res.get(3, 0);
        Ok(Tuple::new(x, y, z, w))
    }
}

/// The sequence matrix with row `r` and column `c` removed.
pub open spec fn ssub(m: Seq<Seq<Frac>>, r: int, c: int) -> Seq<Seq<Frac>> {
    Seq::new(
        (m.len() - 1) as nat,
        |i: int|
            Seq::new(
                (m.len() - 1) as nat,
                |j: int|
                    m[if i < r {
                        i
                    } else {
                        i + 1
                    }][
                        if j < c {
                            j
                        } else {
                            j + 1
                        }
                    ],
            ),
    )
}

/// The exact determinant by cofactor expansion along the first row. The
/// determinant of a single entry is that entry, which grounds the recursion.
pub open spec fn sdet(m: Seq<Seq<Frac>>) -> Frac
    decreases m.len(), 3int, 0int,
{
    if m.len() <= 0 {
        fone()
    } else if m.len() == 1 {
        m[0][0]
    } else if m.len() == 2 {
        fsub(fmul(m[0][0], m[1][1]), fmul(m[1][0], m[0][1]))
    } else {
        sdet_sum(m, m.len() as int)
    }
}

/// The partial first-row expansion over the first `c` columns.
pub open spec fn sdet_sum(m: Seq<Seq<Frac>>, c: int) -> Frac
    decreases m.len(), 2int, c,
{
    if c <= 0 {
        fzero()
    } else {
        fadd(sdet_sum(m, c - 1), fmul(m[0][c - 1], scof(m, 0, c - 1)))
    }
}

/// The exact cofactor: the signed minor.
pub open spec fn scof(m: Seq<Seq<Frac>>, r: int, c: int) -> Frac
    decreases m.len(), 1int, 0int,
{
    if m.len() >= 1 {
        if (r + c) % 2 == 0 {
            sdet(ssub(m, r, c))
        } else {
            fneg(sdet(ssub(m, r, c)))
        }
    } else {
        fone()
    }
}

/// The determinant as the executable code computes it, every intermediate
/// value reduced and range-checked.
pub open spec fn cdet(m: Seq<Seq<Frac>>) -> Option<Frac>
    decreases m.len(), 3int, 0int,
{
    if m.len() <= 0 {
        Some(fone())
    } else if m.len() == 1 {
        Some(m[0][0])
    } else if m.len() == 2 {
        csub(cmul(Some(m[0][0]), Some(m[1][1])), cmul(Some(m[1][0]), Some(m[0][1])))
    } else {
        cdet_sum(m, m.len() as int)
    }
}

/// The checked partial first-row expansion.
pub open spec fn cdet_sum(m: Seq<Seq<Frac>>, c: int) -> Option<Frac>
    decreases m.len(), 2int, c,
{
    if c <= 0 {
        Some(fzero())
    } else {
        cadd(cdet_sum(m, c - 1), cmul(Some(m[0][c - 1]), ccof(m, 0, c - 1)))
    }
}

/// The checked cofactor.
pub open spec fn ccof(m: Seq<Seq<Frac>>, r: int, c: int) -> Option<Frac>
    decreases m.len(), 1int, 0int,
{
    if m.len() >= 1 {
        match cdet(ssub(m, r, c)) {
            Some(mi) => if (r + c) % 2 == 0 {
                Some(mi)
            } else {
                Some(fneg(mi))
            },
            None => None,
        }
    } else {
        Some(fone())
    }
}

/// One entry of the checked inverse: the cofactor of the transposed position
/// divided by the determinant.
pub open spec fn cinv_entry(m: Seq<Seq<Frac>>, r: int, c: int) -> Option<Frac> {
    match (ccof(m, c, r), cdet(m)) {
        (Some(cf), Some(dv)) => cnorm(crate::frac::fdiv(cf, dv)),
        _ => None,
    }
}

/// Removing a row and a column of a well-formed square matrix leaves a
/// well-formed square matrix.
pub proof fn lemma_ssub_swf(m: Seq<Seq<Frac>>, n: int, r: int, c: int)
    requires
        swf(m, n, n),
        n >= 1,
        0 <= r < n,
        0 <= c < n,
    ensures
        swf(ssub(m, r, c), n - 1, n - 1),
{
    assert forall|i: int, j: int| 0 <= i < n - 1 && 0 <= j < n - 1 implies fwf(
        #[trigger] ssub(m, r, c)[i][j],
    ) by {}
}

/// Once the checked expansion fails at some column, it fails at every later
/// column.
pub proof fn lemma_cdet_sum_none(m: Seq<Seq<Frac>>, i: int, c: int)
    requires
        0 <= i <= c,
        cdet_sum(m, i) == None::<Frac>,
    ensures
        cdet_sum(m, c) == None::<Frac>,
    decreases c - i,
{
    if c > i {
        lemma_cdet_sum_none(m, i, c - 1);
    }
}

/// A checked determinant that succeeds denotes the exact determinant, and the
/// exact determinant of a well-formed matrix is well-formed.
pub proof fn lemma_cdet_feq(m: Seq<Seq<Frac>>, n: int)
    requires
        n == m.len(),
        swf(m, n, n),
    ensures
        fwf(sdet(m)),
        match cdet(m) {
            Some(v) => fwf(v) && feq(v, sdet(m)),
            None => true,
        },
    decreases m.len(), 3int, 0int,
{
    if n <= 0 {
    } else if n == 1 {
    } else if n == 2 {
        let pa = fmul(m[0][0], m[1][1]);
        let pb = fmul(m[1][0], m[0][1]);
        assert(fwf(pa) && fwf(pb) && fwf(fsub(pa, pb))) by (nonlinear_arith)
            requires
                fwf(m[0][0]),
                fwf(m[1][1]),
                fwf(m[1][0]),
                fwf(m[0][1]),
                pa == fmul(m[0][0], m[1][1]),
                pb == fmul(m[1][0], m[0][1]),
        ;
        match cdet(m) {
            Some(v) => {
                let qa = match cmul(Some(m[0][0]), Some(m[1][1])) {
                    Some(x) => x,
                    None => fzero(),
                };
                let qb = match cmul(Some(m[1][0]), Some(m[0][1])) {
                    Some(x) => x,
                    None => fzero(),
                };
                lemma_cnorm(pa);
                lemma_cnorm(pb);
                assert(fwf(fsub(qa, qb))) by (nonlinear_arith)
                    requires
                        fwf(qa),
                        fwf(qb),
                ;
                lemma_cnorm(fsub(qa, qb));
                crate::frac::lemma_fsub_congr(qa, pa, qb, pb);
                lemma_feq_trans(v, fsub(qa, qb), fsub(pa, pb));
            },
            None => {},
        }
    } else {
        lemma_cdet_sum_feq(m, n, n);
    }
}

/// The checked partial expansion denotes the exact partial expansion.
pub proof fn lemma_cdet_sum_feq(m: Seq<Seq<Frac>>, n: int, c: int)
    requires
        n == m.len(),
        swf(m, n, n),
        n >= 1,
        0 <= c <= n,
    ensures
        fwf(sdet_sum(m, c)),
        match cdet_sum(m, c) {
            Some(v) => fwf(v) && feq(v, sdet_sum(m, c)),
            None => true,
        },
    decreases m.len(), 2int, c,
{
    if c <= 0 {
    } else {
        lemma_cdet_sum_feq(m, n, c - 1);
        lemma_ccof_feq(m, n, 0, c - 1);
        let e = m[0][c - 1];
        let sc = scof(m, 0, c - 1);
        let p = fmul(e, sc);
        assert(fwf(p) && fwf(fadd(sdet_sum(m, c - 1), p))) by (nonlinear_arith)
            requires
                fwf(e),
                fwf(sc),
                p == fmul(e, sc),
                fwf(sdet_sum(m, c - 1)),
        ;
        match cdet_sum(m, c) {
            Some(v) => {
                let v2 = match cdet_sum(m, c - 1) {
                    Some(x) => x,
                    None => fzero(),
                };
                let cf = match ccof(m, 0, c - 1) {
                    Some(x) => x,
                    None => fzero(),
                };
                let pr = match cmul(Some(e), ccof(m, 0, c - 1)) {
                    Some(x) => x,
                    None => fzero(),
                };
                assert(fwf(fmul(e, cf))) by (nonlinear_arith)
                    requires
                        fwf(e),
                        fwf(cf),
                ;
                lemma_cnorm(fmul(e, cf));
                lemma_fmul_congr(e, e, cf, sc);
                lemma_feq_trans(pr, fmul(e, cf), p);
                assert(fwf(fadd(v2, pr))) by (nonlinear_arith)
                    requires
                        fwf(v2),
                        fwf(pr),
                ;
                lemma_cnorm(fadd(v2, pr));
                lemma_fadd_congr(v2, sdet_sum(m, c - 1), pr, p);
                lemma_feq_trans(v, fadd(v2, pr), fadd(sdet_sum(m, c - 1), p));
            },
            None => {},
        }
    }
}

/// The checked cofactor denotes the exact cofactor.
pub proof fn lemma_ccof_feq(m: Seq<Seq<Frac>>, n: int, r: int, c: int)
    requires
        n == m.len(),
        swf(m, n, n),
        n >= 1,
        0 <= r < n,
        0 <= c < n,
    ensures
        fwf(scof(m, r, c)),
        match ccof(m, r, c) {
            Some(v) => fwf(v) && feq(v, scof(m, r, c)),
            None => true,
        },
    decreases m.len(), 1int, 0int,
{
    lemma_ssub_swf(m, n, r, c);
    lemma_cdet_feq(ssub(m, r, c), n - 1);
    match ccof(m, r, c) {
        Some(v) => {
            let mi = match cdet(ssub(m, r, c)) {
                Some(x) => x,
                None => fzero(),
            };
            if (r + c) % 2 != 0 {
                crate::frac::lemma_fneg_congr(mi, sdet(ssub(m, r, c)));
            }
        },
        None => {},
    }
}

impl Matrix {
    /// The determinant: the base case of one entry is the entry itself, two
    /// by two is `a * d - b * c`, and larger matrices expand along the first
    /// row.
    pub fn det(&self) -> (r: Result<Scalar, Error>)
        requires
            self.wf(),
            self.width == self.height,
            self.width >= 1,
        ensures
            match r {
                Ok(s) => s.wf() && Some(s@) == cdet(self@) && feq(s@, sdet(self@)),
                Err(e) => e == Error::OutOfRange && cdet(self@) == None::<Frac>,
            },
        decreases self.width, 3int,
    {
        proof {
            self.lemma_wf_view();
            lemma_cdet_feq(self@, self.width as int);
        }
        if self.width == 1 {
            Ok(self.get(0, 0))
        } else if self.width == 2 {
            let p1 = self.get(0, 0).mul(self.get(1, 1))?;
            let p2 = self.get(1, 0).mul(self.get(0, 1))?;
            let d = p1.sub(p2)?;
            Ok(d)
        } else {
            let mut acc: Scalar = Scalar::zero();
            let mut c: usize = 0;
            while c < self.width
                invariant
                    c <= self.width,
                    self.wf(),
                    self.width == self.height,
                    self.width >= 3,
                    acc.wf(),
                    Some(acc@) == cdet_sum(self@, c as int),
                decreases self.width - c, 4int,
            {
                let cof = match self.cofactor(0, c) {
                    Ok(x) => x,
                    Err(_) => {
                        proof {
                            lemma_cdet_sum_none(self@, c as int + 1, self.width as int);
                        }
                        return Err(Error::OutOfRange);
                    },
                };
                let p = match self.get(0, c).mul(cof) {
                    Ok(x) => x,
                    Err(_) => {
                        proof {
                            lemma_cdet_sum_none(self@, c as int + 1, self.width as int);
                        }
                        return Err(Error::OutOfRange);
                    },
                };
                let acc2 = match acc.add(p) {
                    Ok(x) => x,
                    Err(_) => {
                        proof {
                            lemma_cdet_sum_none(self@, c as int + 1, self.width as int);
                        }
                        return Err(Error::OutOfRange);
                    },
                };
                acc = acc2;
                c = c + 1;
            }
            Ok(acc)
        }
    }

    /// The minor: the determinant of the matrix with the given row and column
    /// removed.
    pub fn minor(&self, row: usize, col: usize) -> (r: Result<Scalar, Error>)
        requires
            self.wf(),
            self.width == self.height,
            self.width >= 2,
            row < self.height,
            col < self.width,
        ensures
            match r {
                Ok(s) => s.wf() && Some(s@) == cdet(ssub(self@, row as int, col as int)) && feq(
                    s@,
                    sdet(ssub(self@, row as int, col as int)),
                ),
                Err(e) => e == Error::OutOfRange && cdet(ssub(self@, row as int, col as int))
                    == None::<Frac>,
            },
        decreases self.width, 1int,
    {
        let sub = self.submatrix(row, col);
        proof {
            assert forall|i: int| 0 <= i < sub.height as int implies #[trigger] sub@[i] == ssub(
                self@,
                row as int,
                col as int,
            )[i] by {
                assert(sub@[i] =~= ssub(self@, row as int, col as int)[i]);
            }
            assert(sub@ =~= ssub(self@, row as int, col as int));
        }
        sub.det()
    }

    /// The cofactor: the minor, negated on positions where row plus column is
    /// odd.
    pub fn cofactor(&self, row: usize, col: usize) -> (r: Result<Scalar, Error>)
        requires
            self.wf(),
            self.width == self.height,
            self.width >= 2,
            row < self.height,
            col < self.width,
        ensures
            match r {
                Ok(s) => s.wf() && Some(s@) == ccof(self@, row as int, col as int) && feq(
                    s@,
                    scof(self@, row as int, col as int),
                ),
                Err(e) => e == Error::OutOfRange && ccof(self@, row as int, col as int) == None::<
                    Frac,
                >,
            },
        decreases self.width, 2int,
    {
        proof {
            self.lemma_wf_view();
            lemma_ccof_feq(self@, self.width as int, row as int, col as int);
        }
        let mi = self.minor(row, col)?;
        proof {
            assert(row as int + col as int <= usize::MAX) by (nonlinear_arith)
                requires
                    (row as int) < self.width as int,
                    (col as int) < self.width as int,
                    self.width * self.height <= usize::MAX,
                    self.width == self.height,
                    self.width >= 2,
            ;
        }
        if (row + col) % 2 == 0 {
            Ok(mi)
        } else {
            Ok(mi.neg())
        }
    }

    /// Whether the determinant is nonzero, so that the inverse exists.
    pub fn is_invertible(&self) -> (r: Result<bool, Error>)
        requires
            self.wf(),
            self.width == self.height,
            self.width >= 1,
        ensures
            match r {
                Ok(b) => cdet(self@) is Some && (b <==> !feq(sdet(self@), fzero())),
                Err(e) => e == Error::OutOfRange && cdet(self@) == None::<Frac>,
            },
    {
        let d = self.det()?;
        proof {
            self.lemma_wf_view();
            lemma_cdet_feq(self@, self.width as int);
            lemma_feq_sign(d@, sdet(self@));
        }
        Ok(!d.is_zero())
    }

    /// The inverse by the adjugate: entry `(row, col)` is
    /// `cofactor(col, row) / det`. A zero determinant is its own error.
    pub fn inverse(&self) -> (r: Result<Matrix, Error>)
        requires
            self.wf(),
            self.width == self.height,
            self.width >= 2,
        ensures
            match r {
                Ok(m) => {
                    &&& cdet(self@) is Some
                    &&& !feq(sdet(self@), fzero())
                    &&& m.wf()
                    &&& m.width == self.width
                    &&& m.height == self.height
                    &&& forall|i: int, j: int|
                        0 <= i < self.height as int && 0 <= j < self.width as int ==> Some(
                            #[trigger] m@[i][j],
                        ) == cinv_entry(self@, i, j)
                    &&& forall|i: int, j: int|
                        0 <= i < self.height as int && 0 <= j < self.width as int ==> feq(
                            #[trigger] m@[i][j],
                            crate::frac::fdiv(scof(self@, j, i), sdet(self@)),
                        )
                },
                Err(e) => if e == Error::NotInvertible {
                    cdet(self@) is Some && feq(sdet(self@), fzero())
                } else {
                    e == Error::OutOfRange && (cdet(self@) == None::<Frac> || (!feq(
                        sdet(self@),
                        fzero(),
                    ) && exists|i: int, j: int|
                        0 <= i < self.height as int && 0 <= j < self.width as int
                            && #[trigger] cinv_entry(self@, i, j) == None::<Frac>))
                },
            },
    {
        proof {
            self.lemma_wf_view();
            lemma_cdet_feq(self@, self.width as int);
        }
        let d = self.det()?;
        proof {
            lemma_feq_sign(d@, sdet(self@));
        }
        if d.is_zero() {
            return Err(Error::NotInvertible);
        }
        let n: usize = self.width;
        let mut data: Vec<Scalar> = Vec::new();
        let mut i: usize = 0;
        while i < n
            invariant
                i <= n,
                self.wf(),
                self.width == self.height,
                n == self.width,
                n >= 2,
                d.wf(),
                Some(d@) == cdet(self@),
                d@.n != 0,
                sdet(self@).n != 0,
                fwf(sdet(self@)),
                feq(d@, sdet(self@)),
                data@.len() == i * n,
                forall|k: int| 0 <= k < data@.len() ==> (#[trigger] data@[k]).wf(),
                forall|t: int, u: int|
                    0 <= t < i as int && 0 <= u < n as int ==> Some((#[trigger] data@[t * n + u])@)
                        == cinv_entry(self@, t, u),
            decreases n - i,
        {
            let mut j: usize = 0;
            while j < n
                invariant
                    j <= n,
                    i < n,
                    self.wf(),
                    self.width == self.height,
                    n == self.width,
                    n >= 2,
                    d.wf(),
                    Some(d@) == cdet(self@),
                    d@.n != 0,
                    sdet(self@).n != 0,
                    fwf(sdet(self@)),
                    feq(d@, sdet(self@)),
                    data@.len() == i * n + j,
                    forall|k: int| 0 <= k < data@.len() ==> (#[trigger] data@[k]).wf(),
                    forall|t: int, u: int|
                        0 <= t < i as int && 0 <= u < n as int ==> Some(
                            (#[trigger] data@[t * n + u])@,
                        ) == cinv_entry(self@, t, u),
                    forall|u: int|
                        0 <= u < j as int ==> Some((#[trigger] data@[i as int * n as int + u])@)
                            == cinv_entry(self@, i as int, u),
                decreases n - j,
            {
                let cof = match self.cofactor(j, i) {
                    Ok(x) => x,
                    Err(_) => {
                        proof {
                            assert(cinv_entry(self@, i as int, j as int) == None::<Frac>);
                        }
                        return Err(Error::OutOfRange);
                    },
                };
                let e = match cof.div(d) {
                    Ok(x) => x,
                    Err(_) => {
                        proof {
                            assert(cinv_entry(self@, i as int, j as int) == None::<Frac>);
                        }
                        return Err(Error::OutOfRange);
                    },
                };
                data.push(e);
                proof {
                    assert forall|t: int, u: int|
                        0 <= t < i as int && 0 <= u < n as int implies Some(
                        (#[trigger] data@[t * n + u])@,
                    ) == cinv_entry(self@, t, u) by {
                        lemma_rc_index(t, u, n as int, i as int);
                        assert(t * n + u < i * n);
                    }
                }
                j = j + 1;
            }
            proof {
                lemma_row_step(i as int, n as int);
            }
            i = i + 1;
        }
        let m = Matrix { data, width: n, height: n };
        proof {
            assert forall|i2: int, j2: int|
                0 <= i2 < n as int && 0 <= j2 < n as int implies Some(#[trigger] m@[i2][j2])
                == cinv_entry(self@, i2, j2) && feq(
                m@[i2][j2],
                crate::frac::fdiv(scof(self@, j2, i2), sdet(self@)),
            ) by {
                lemma_rc_index(i2, j2, n as int, n as int);
                assert(m@[i2][j2] == m.data@[i2 * n + j2]@);
                assert(Some(m@[i2][j2]) == cinv_entry(self@, i2, j2));
                assert(ccof(self@, j2, i2) is Some);
                lemma_ccof_feq(self@, n as int, j2, i2);
                let cf = match ccof(self@, j2, i2) {
                    Some(x) => x,
                    None => fzero(),
                };
                crate::frac::lemma_fdiv_congr(cf, scof(self@, j2, i2), d@, sdet(self@));
                lemma_cnorm(crate::frac::fdiv(cf, d@));
                lemma_feq_trans(
                    m@[i2][j2],
                    crate::frac::fdiv(cf, d@),
                    crate::frac::fdiv(scof(self@, j2, i2), sdet(self@)),
                );
            }
        }
        Ok(m)
    }
}

/// The translation matrix: the identity with `(x, y, z)` in the last column.
pub open spec fn stranslation(x: Frac, y: Frac, z: Frac) -> Seq<Seq<Frac>> {
    seq![
        seq![fone(), fzero(), fzero(), x],
        seq![fzero(), fone(), fzero(), y],
        seq![fzero(), fzero(), fone(), z],
        seq![fzero(), fzero(), fzero(), fone()],
    ]
}

/// The scale matrix: `(x, y, z, 1)` on the diagonal.
pub open spec fn sscale(x: Frac, y: Frac, z: Frac) -> Seq<Seq<Frac>> {
    seq![
        seq![x, fzero(), fzero(), fzero()],
        seq![fzero(), y, fzero(), fzero()],
        seq![fzero(), fzero(), z, fzero()],
        seq![fzero(), fzero(), fzero(), fone()],
    ]
}

/// Rotation about the x axis, given the sine and cosine of the angle.
pub open spec fn srot_x(s: Frac, c: Frac) -> Seq<Seq<Frac>> {
    seq![
        seq![fone(), fzero(), fzero(), fzero()],
        seq![fzero(), c, fneg(s), fzero()],
        seq![fzero(), s, c, fzero()],
        seq![fzero(), fzero(), fzero(), fone()],
    ]
}

/// Rotation about the y axis, given the sine and cosine of the angle.
pub open spec fn srot_y(s: Frac, c: Frac) -> Seq<Seq<Frac>> {
    seq![
        seq![c, fzero(), s, fzero()],
        seq![fzero(), fone(), fzero(), fzero()],
        seq![fneg(s), fzero(), c, fzero()],
        seq![fzero(), fzero(), fzero(), fone()],
    ]
}

/// Rotation about the z axis, given the sine and cosine of the angle.
pub open spec fn srot_z(s: Frac, c: Frac) -> Seq<Seq<Frac>> {
    seq![
        seq![c, fneg(s), fzero(), fzero()],
        seq![s, c, fzero(), fzero()],
        seq![fzero(), fzero(), fone(), fzero()],
        seq![fzero(), fzero(), fzero(), fone()],
    ]
}

/// The shear matrix: the identity with the six named off-diagonal cells set.
pub open spec fn sshear(xy: Frac, xz: Frac, yx: Frac, yz: Frac, zx: Frac, zy: Frac) -> Seq<
    Seq<Frac>,
> {
    seq![
        seq![fone(), xy, xz, fzero()],
        seq![yx, fone(), yz, fzero()],
        seq![zx, zy, fone(), fzero()],
        seq![fzero(), fzero(), fzero(), fone()],
    ]
}

impl Matrix {
    /// Builds a 4 by 4 matrix from four explicit rows of four scalars.
    fn from_rows4(rows: [[Scalar; 4]; 4]) -> (r: Matrix)
        requires
            forall|i: int, j: int| 0 <= i < 4 && 0 <= j < 4 ==> (#[trigger] rows[i][j]).wf(),
        ensures
            r.wf(),
            r.width == 4,
            r.height == 4,
            forall|i: int, j: int|
                0 <= i < 4 && 0 <= j < 4 ==> #[trigger] r@[i][j] == rows[i][j]@,
    {
        let mut data: Vec<Scalar> = Vec::new();
        let mut i: usize = 0;
        while i < 4
            invariant
                i <= 4,
                forall|t: int, u: int| 0 <= t < 4 && 0 <= u < 4 ==> (#[trigger] rows[t][u]).wf(),
                data@.len() == 4 * i,
                forall|k: int|
                    0 <= k < data@.len() ==> (#[trigger] data@[k]).wf() && data@[k] == rows[k / 4][
                        k % 4
                    ],
            decreases 4 - i,
        {
            let mut j: usize = 0;
            while j < 4
                invariant
                    j <= 4,
                    i < 4,
                    forall|t: int, u: int|
                        0 <= t < 4 && 0 <= u < 4 ==> (#[trigger] rows[t][u]).wf(),
                    data@.len() == 4 * i + j,
                    forall|k: int|
                        0 <= k < data@.len() ==> (#[trigger] data@[k]).wf() && data@[k] == rows[k
                            / 4][k % 4],
                decreases 4 - j,
            {
                data.push(rows[i][j]);
                j = j + 1;
            }
            i = i + 1;
        }
        let r = Matrix { data, width: 4, height: 4 };
        proof {
            assert forall|i2: int, j2: int| 0 <= i2 < 4 && 0 <= j2 < 4 implies #[trigger] r@[i2][j2]
                == rows[i2][j2]@ by {
                assert(r@[i2][j2] == r.data@[i2 * 4 + j2]@);
                assert((i2 * 4 + j2) / 4 == i2 && (i2 * 4 + j2) % 4 == j2) by (nonlinear_arith)
                    requires
                        0 <= i2 < 4,
                        0 <= j2 < 4,
                ;
            }
        }
        r
    }

    /// The translation by `(x, y, z)`.
    pub fn translation_matrix(x: Scalar, y: Scalar, z: Scalar) -> (r: Matrix)
        requires
            x.wf(),
            y.wf(),
            z.wf(),
        ensures
            r.wf(),
            r.width == 4,
            r.height == 4,
            r@ == stranslation(x@, y@, z@),
    {
        let o = Scalar::one();
        let n = Scalar::zero();
        let r = Matrix::from_rows4(
            [[o, n, n, x], [n, o, n, y], [n, n, o, z], [n, n, n, o]],
        );
        proof {
            assert(r@ =~~= stranslation(x@, y@, z@));
        }
        r
    }

    /// The scale by `(x, y, z)`.
    pub fn scale_matrix(x: Scalar, y: Scalar, z: Scalar) -> (r: Matrix)
        requires
            x.wf(),
            y.wf(),
            z.wf(),
        ensures
            r.wf(),
            r.width == 4,
            r.height == 4,
            r@ == sscale(x@, y@, z@),
    {
        let o = Scalar::one();
        let n = Scalar::zero();
        let r = Matrix::from_rows4(
            [[x, n, n, n], [n, y, n, n], [n, n, z, n], [n, n, n, o]],
        );
        proof {
            assert(r@ =~~= sscale(x@, y@, z@));
        }
        r
    }

    /// Rotation about the x axis. The caller supplies the exact sine and
    /// cosine of the angle, since the kernel has no transcendental functions.
    pub fn rotation_x_matrix(sin_a: Scalar, cos_a: Scalar) -> (r: Matrix)
        requires
            sin_a.wf(),
            cos_a.wf(),
        ensures
            r.wf(),
            r.width == 4,
            r.height == 4,
            r@ == srot_x(sin_a@, cos_a@),
    {
        let o = Scalar::one();
        let n = Scalar::zero();
        let r = Matrix::from_rows4(
            [
                [o, n, n, n],
                [n, cos_a, sin_a.neg(), n],
                [n, sin_a, cos_a, n],
                [n, n, n, o],
            ],
        );
        proof {
            assert(r@ =~~= srot_x(sin_a@, cos_a@));
        }
        r
    }

    /// Rotation about the y axis, from the exact sine and cosine.
    pub fn rotation_y_matrix(sin_a: Scalar, cos_a: Scalar) -> (r: Matrix)
        requires
            sin_a.wf(),
            cos_a.wf(),
        ensures
            r.wf(),
            r.width == 4,
            r.height == 4,
            r@ == srot_y(sin_a@, cos_a@),
    {
        let o = Scalar::one();
        let n = Scalar::zero();
        let r = Matrix::from_rows4(
            [
                [cos_a, n, sin_a, n],
                [n, o, n, n],
                [sin_a.neg(), n, cos_a, n],
                [n, n, n, o],
            ],
        );
        proof {
            assert(r@ =~~= srot_y(sin_a@, cos_a@));
        }
        r
    }

    /// Rotation about the z axis, from the exact sine and cosine.
    pub fn rotation_z_matrix(sin_a: Scalar, cos_a: Scalar) -> (r: Matrix)
        requires
            sin_a.wf(),
            cos_a.wf(),
        ensures
            r.wf(),
            r.width == 4,
            r.height == 4,
            r@ == srot_z(sin_a@, cos_a@),
    {
        let o = Scalar::one();
        let n = Scalar::zero();
        let r = Matrix::from_rows4(
            [
                [cos_a, sin_a.neg(), n, n],
                [sin_a, cos_a, n, n],
                [n, n, o, n],
                [n, n, n, o],
            ],
        );
        proof {
            assert(r@ =~~= srot_z(sin_a@, cos_a@));
        }
        r
    }

    /// The shear with the six named proportions.
    pub fn shear_matrix(
        xy: Scalar,
        xz: Scalar,
        yx: Scalar,
        yz: Scalar,
        zx: Scalar,
        zy: Scalar,
    ) -> (r: Matrix)
        requires
            xy.wf(),
            xz.wf(),
            yx.wf(),
            yz.wf(),
            zx.wf(),
            zy.wf(),
        ensures
            r.wf(),
            r.width == 4,
            r.height == 4,
            r@ == sshear(xy@, xz@, yx@, yz@, zx@, zy@),
    {
        let o = Scalar::one();
        let n = Scalar::zero();
        let r = Matrix::from_rows4(
            [
                [o, xy, xz, n],
                [yx, o, yz, n],
                [zx, zy, o, n],
                [n, n, n, o],
            ],
        );
        proof {
            assert(r@ =~~= sshear(xy@, xz@, yx@, yz@, zx@, zy@));
        }
        r
    }

    /// Fluent translation: the translation matrix multiplied onto the left,
    /// so that of a chain of fluent calls the last one acts first on a point.
    pub fn translate(&self, x: Scalar, y: Scalar, z: Scalar) -> (r: Result<Matrix, Error>)
        requires
            self.wf(),
            self.height == 4,
            x.wf(),
            y.wf(),
            z.wf(),
        ensures
            match r {
                Ok(m) => {
                    &&& m.wf()
                    &&& m.width == self.width
                    &&& m.height == 4
                    &&& forall|i: int, j: int|
                        0 <= i < 4 && 0 <= j < self.width as int ==> Some(#[trigger] m@[i][j])
                            == cdot(stranslation(x@, y@, z@)[i], col(self@, j)) && feq(
                            m@[i][j],
                            sdot(stranslation(x@, y@, z@)[i], col(self@, j)),
                        )
                },
                Err(e) => e == Error::OutOfRange && exists|i: int, j: int|
                    0 <= i < 4 && 0 <= j < self.width as int && #[trigger] cdot(
                        stranslation(x@, y@, z@)[i],
                        col(self@, j),
                    ) == None::<Frac>,
            },
    {
        let t = Matrix::translation_matrix(x, y, z);
        proof {
            lemma_left_mul_fits(self.width as int, self.height as int);
        }
        t.mul(self)
    }

    /// Fluent scale: the scale matrix multiplied onto the left.
    pub fn scale(&self, x: Scalar, y: Scalar, z: Scalar) -> (r: Result<Matrix, Error>)
        requires
            self.wf(),
            self.height == 4,
            x.wf(),
            y.wf(),
            z.wf(),
        ensures
            match r {
                Ok(m) => {
                    &&& m.wf()
                    &&& m.width == self.width
                    &&& m.height == 4
                    &&& forall|i: int, j: int|
                        0 <= i < 4 && 0 <= j < self.width as int ==> Some(#[trigger] m@[i][j])
                            == cdot(sscale(x@, y@, z@)[i], col(self@, j)) && feq(
                            m@[i][j],
                            sdot(sscale(x@, y@, z@)[i], col(self@, j)),
                        )
                },
                Err(e) => e == Error::OutOfRange && exists|i: int, j: int|
                    0 <= i < 4 && 0 <= j < self.width as int && #[trigger] cdot(
                        sscale(x@, y@, z@)[i],
                        col(self@, j),
                    ) == None::<Frac>,
            },
    {
        let t = Matrix::scale_matrix(x, y, z);
        proof {
            lemma_left_mul_fits(self.width as int, self.height as int);
        }
        t.mul(self)
    }

    /// Fluent rotation about the x axis, from the exact sine and cosine.
    pub fn rotate_x(&self, sin_a: Scalar, cos_a: Scalar) -> (r: Result<Matrix, Error>)
        requires
            self.wf(),
            self.height == 4,
            sin_a.wf(),
            cos_a.wf(),
        ensures
            match r {
                Ok(m) => {
                    &&& m.wf()
                    &&& m.width == self.width
                    &&& m.height == 4
                    &&& forall|i: int, j: int|
                        0 <= i < 4 && 0 <= j < self.width as int ==> Some(#[trigger] m@[i][j])
                            == cdot(srot_x(sin_a@, cos_a@)[i], col(self@, j)) && feq(
                            m@[i][j],
                            sdot(srot_x(sin_a@, cos_a@)[i], col(self@, j)),
                        )
                },
                Err(e) => e == Error::OutOfRange && exists|i: int, j: int|
                    0 <= i < 4 && 0 <= j < self.width as int && #[trigger] cdot(
                        srot_x(sin_a@, cos_a@)[i],
                        col(self@, j),
                    ) == None::<Frac>,
            },
    {
        let t = Matrix::rotation_x_matrix(sin_a, cos_a);
        proof {
            lemma_left_mul_fits(self.width as int, self.height as int);
        }
        t.mul(self)
    }
}

/// A product with four rows has as many entries as the right factor.
proof fn lemma_left_mul_fits(w: int, h: int)
    by (nonlinear_arith)
    requires
        w * h <= usize::MAX,
        h == 4,
        w >= 0,
    ensures
        4 * w <= usize::MAX,
{
}

/// The image of a tuple under a 4 by 4 sequence matrix, as the executable
/// multiplication computes it.
pub open spec fn cmt(m: Seq<Seq<Frac>>, t: TupleView) -> Option<TupleView> {
    match (
        cdot(m[0], tup_seq(t)),
        cdot(m[1], tup_seq(t)),
        cdot(m[2], tup_seq(t)),
        cdot(m[3], tup_seq(t)),
    ) {
        (Some(x), Some(y), Some(z), Some(w)) => Some(TupleView { x, y, z, w }),
        _ => None,
    }
}

/// The transpose of a square sequence matrix.
pub open spec fn strans(m: Seq<Seq<Frac>>) -> Seq<Seq<Frac>> {
    Seq::new(m.len(), |i: int| Seq::new(m.len(), |j: int| m[j][i]))
}

/// The value of one checked inverse entry, where it exists.
pub open spec fn cinv_val(m: Seq<Seq<Frac>>, i: int, j: int) -> Frac {
    match cinv_entry(m, i, j) {
        Some(v) => v,
        None => fzero(),
    }
}

/// The inverse as the executable code computes it: the determinant first,
/// a zero determinant as its own error, then every adjugate entry divided by
/// the determinant, each reduced and range-checked.
pub open spec fn cinverse(m: Seq<Seq<Frac>>) -> Result<Seq<Seq<Frac>>, Error> {
    match cdet(m) {
        None => Err(Error::OutOfRange),
        Some(dv) => if dv.n == 0 {
            Err(Error::NotInvertible)
        } else if exists|i: int, j: int|
            0 <= i < m.len() && 0 <= j < m.len() && #[trigger] cinv_entry(m, i, j) == None::<
                Frac,
            > {
            Err(Error::OutOfRange)
        } else {
            Ok(Seq::new(m.len(), |i: int| Seq::new(m.len(), |j: int| cinv_val(m, i, j))))
        },
    }
}

impl Matrix {
    /// An entrywise copy in fresh storage, denoting the same matrix.
    pub fn copy_of(&self) -> (r: Matrix)
        requires
            self.wf(),
        ensures
            r.wf(),
            r.width == self.width,
            r.height == self.height,
            r@ == self@,
    {
        let mut data: Vec<Scalar> = Vec::new();
        let mut k: usize = 0;
        while k < self.data.len()
            invariant
                k <= self.data@.len(),
                self.wf(),
                data@.len() == k,
                forall|u: int| 0 <= u < k as int ==> #[trigger] data@[u] == self.data@[u],
            decreases self.data@.len() - k,
        {
            data.push(self.data[k]);
            k = k + 1;
        }
        let r = Matrix { data, width: self.width, height: self.height };
        proof {
            assert forall|i: int| 0 <= i < self.height as int implies #[trigger] r@[i]
                == self@[i] by {
                assert forall|j: int| 0 <= j < self.width as int implies #[trigger] r@[i][j]
                    == self@[i][j] by {
                    lemma_rc_index(i, j, self.width as int, self.height as int);
                }
                assert(r@[i] =~= self@[i]);
            }
            assert(r@ =~= self@);
        }
        r
    }

    /// What the executable inverse returns is exactly the checked inverse.
    pub proof fn lemma_inverse_mirror(&self, r: Result<Matrix, Error>)
        requires
            self.wf(),
            self.width == self.height,
            self.width >= 2,
            match r {
                Ok(m) => {
                    &&& cdet(self@) is Some
                    &&& !feq(sdet(self@), fzero())
                    &&& m.wf()
                    &&& m.width == self.width
                    &&& m.height == self.height
                    &&& forall|i: int, j: int|
                        0 <= i < self.height as int && 0 <= j < self.width as int ==> Some(
                            #[trigger] m@[i][j],
                        ) == cinv_entry(self@, i, j)
                },
                Err(e) => if e == Error::NotInvertible {
                    cdet(self@) is Some && feq(sdet(self@), fzero())
                } else {
                    e == Error::OutOfRange && (cdet(self@) == None::<Frac> || (!feq(
                        sdet(self@),
                        fzero(),
                    ) && exists|i: int, j: int|
                        0 <= i < self.height as int && 0 <= j < self.width as int
                            && #[trigger] cinv_entry(self@, i, j) == None::<Frac>))
                },
            },
        ensures
            match r {
                Ok(m) => cinverse(self@) == Ok::<Seq<Seq<Frac>>, Error>(m@),
                Err(e) => cinverse(self@) == Err::<Seq<Seq<Frac>>, Error>(e),
            },
    {
        self.lemma_wf_view();
        lemma_cdet_feq(self@, self.width as int);
        match r {
            Ok(m) => {
                let dv = match cdet(self@) {
                    Some(x) => x,
                    None => fzero(),
                };
                lemma_feq_sign(dv, sdet(self@));
                assert(0 * sdet(self@).d == 0) by (nonlinear_arith);
                assert(sdet(self@).n != 0);
                assert(dv.n != 0);
                assert forall|i: int, j: int|
                    0 <= i < self@.len() && 0 <= j < self@.len() implies #[trigger] cinv_entry(
                    self@,
                    i,
                    j,
                ) != None::<Frac> by {
                    assert(Some(m@[i][j]) == cinv_entry(self@, i, j));
                }
                let built = Seq::new(
                    self@.len(),
                    |i: int| Seq::new(self@.len(), |j: int| cinv_val(self@, i, j)),
                );
                assert forall|i: int| 0 <= i < self@.len() implies #[trigger] m@[i] == built[i] by {
                    assert forall|j: int| 0 <= j < self@.len() implies #[trigger] m@[i][j]
                        == built[i][j] by {
                        assert(Some(m@[i][j]) == cinv_entry(self@, i, j));
                    }
                    assert(m@[i] =~= built[i]);
                }
                assert(m@ =~= built);
            },
            Err(e) => {
                assert(0 * sdet(self@).d == 0) by (nonlinear_arith);
                if e == Error::NotInvertible {
                    let dv = match cdet(self@) {
                        Some(x) => x,
                        None => fzero(),
                    };
                    lemma_feq_sign(dv, sdet(self@));
                    assert(sdet(self@).n == 0 && dv.n == 0);
                } else {
                    match cdet(self@) {
                        Some(dv) => {
                            lemma_feq_sign(dv, sdet(self@));
                        },
                        None => {},
                    }
                }
            },
        }
    }
}

/// When some row's checked dot product against a tuple fails, the whole
/// checked image fails.
pub proof fn lemma_cmt_none(m: Seq<Seq<Frac>>, t: TupleView)
    requires
        exists|i: int| 0 <= i < 4 && #[trigger] cdot(m[i], tup_seq(t)) == None::<Frac>,
    ensures
        cmt(m, t) == None::<TupleView>,
{
    let i = choose|i: int| 0 <= i < 4 && #[trigger] cdot(m[i], tup_seq(t)) == None::<Frac>;
    if i == 0 {
    } else if i == 1 {
    } else if i == 2 {
    } else {
    }
}

} // verus!
