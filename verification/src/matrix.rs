//! Dense matrices over fixed-point scalars.
//!
//! A `Matrix` stores `rows * cols` scalars in row-major order.  Its
//! mathematical model is `MatModel`, a shape plus a sequence of unbounded
//! integers; every operation's contract is stated over that model.

use vstd::prelude::*;

use crate::fixed::lemma_div_trunc_bounded;
use crate::sampling::{isqrt_spec, isqrt_u64, sample_centered_normal_units, sample_uniform};
use crate::fixed::{
    add_units, div_trunc, fx_add, fx_clamp, fx_in_range, fx_mul, fx_sub, fx_scale_down, mul_units,
    sub_units, FX_EPSILON, FX_MAX, FX_SCALE,
};

verus! {

/// Largest admitted row or column count.  Together with the scalar bound
/// `FX_MAX` it keeps every accumulated dot product inside `i128` range.
pub const DIM_LIMIT: usize = 65536;

/// Mathematical model of a matrix: a shape and the row-major sequence of
/// fixed-point units.
#[verifier::ext_equal]
pub ghost struct MatModel {
    pub rows: nat,
    pub cols: nat,
    pub data: Seq<int>,
}

impl MatModel {
    /// Shape is admitted, the data sequence fills the shape, and every
    /// element is a scalar in range.
    pub open spec fn wf(self) -> bool {
        &&& self.rows <= DIM_LIMIT
        &&& self.cols <= DIM_LIMIT
        &&& self.data.len() == self.rows * self.cols
        &&& forall|n: int| 0 <= n < self.data.len() ==> fx_in_range(#[trigger] self.data[n])
    }

    /// The element in row `i`, column `j`.
    pub open spec fn entry(self, i: int, j: int) -> int
        recommends
            0 <= i < self.rows,
            0 <= j < self.cols,
    {
        self.data[i * self.cols + j]
    }
}

/// Row-major position of a valid (row, column) pair is a valid data index.
pub proof fn lemma_row_major_index(i: int, j: int, rows: int, cols: int)
    requires
        0 <= i < rows,
        0 <= j < cols,
    ensures
        0 <= i * cols + j < rows * cols,
        i * cols <= i * cols + j,
{
    assert(0 <= i * cols + j < rows * cols) by (nonlinear_arith)
        requires
            0 <= i < rows,
            0 <= j < cols,
    ;
}

/// A row-major position decodes back to its (row, column) pair.
pub proof fn lemma_row_major_decode(i: int, j: int, cols: int)
    requires
        0 <= i,
        0 <= j < cols,
    ensures
        (i * cols + j) / cols == i,
        (i * cols + j) % cols == j,
{
    assert((i * cols + j) / cols == i && (i * cols + j) % cols == j) by (nonlinear_arith)
        requires
            0 <= i,
            0 <= j < cols,
    ;
}

/// The all-zero matrix of a given shape.
pub open spec fn mat_zero(rows: nat, cols: nat) -> MatModel {
    MatModel { rows, cols, data: Seq::new(rows * cols, |n: int| 0int) }
}

/// Transposition: `entry(i, j)` of the result is `entry(j, i)` of the input.
pub open spec fn mat_transpose(a: MatModel) -> MatModel {
    MatModel {
        rows: a.cols,
        cols: a.rows,
        data: Seq::new(a.cols * a.rows, |n: int| a.entry(n % a.rows as int, n / a.rows as int)),
    }
}

/// Elementwise saturating sum; shapes must agree.
pub open spec fn mat_add(a: MatModel, b: MatModel) -> MatModel {
    MatModel {
        rows: a.rows,
        cols: a.cols,
        data: Seq::new(a.data.len(), |n: int| fx_add(a.data[n], b.data[n])),
    }
}

/// Elementwise saturating difference; shapes must agree.
pub open spec fn mat_sub(a: MatModel, b: MatModel) -> MatModel {
    MatModel {
        rows: a.rows,
        cols: a.cols,
        data: Seq::new(a.data.len(), |n: int| fx_sub(a.data[n], b.data[n])),
    }
}

/// Shapes agree and every pair of elements differs by at most `FX_EPSILON`.
pub open spec fn mat_approx_eq(a: MatModel, b: MatModel) -> bool {
    &&& a.rows == b.rows
    &&& a.cols == b.cols
    &&& forall|n: int|
        0 <= n < a.data.len() ==> -(FX_EPSILON as int) <= #[trigger] (a.data[n] - b.data[n])
            <= FX_EPSILON as int
}

/// A dense matrix of fixed-point scalars in row-major order.
#[derive(Debug)]
pub struct Matrix {
    rows: usize,
    cols: usize,
    data: Vec<i64>,
}

impl View for Matrix {
    type V = MatModel;

    closed spec fn view(&self) -> MatModel {
        MatModel {
            rows: self.rows as nat,
            cols: self.cols as nat,
            data: self.data@.map_values(|v: i64| v as int),
        }
    }
}

impl Matrix {
    /// The matrix fills its shape with scalars in range.
    pub open spec fn wf(&self) -> bool {
        self@.wf()
    }

    pub fn rows(&self) -> (r: usize)
        ensures
            r == self@.rows,
    {
        self.rows
    }

    pub fn cols(&self) -> (r: usize)
        ensures
            r == self@.cols,
    {
        self.cols
    }

    pub fn data(&self) -> (r: &Vec<i64>)
        ensures
            r@.map_values(|v: i64| v as int) == self@.data,
    {
        &self.data
    }

    pub fn num_elements(&self) -> (r: usize)
        requires
            self.wf(),
        ensures
            r == self@.rows * self@.cols,
    {
        self.data.len()
    }

    /// The element in row `r`, column `c`.
    pub fn get(&self, r: usize, c: usize) -> (v: i64)
        requires
            self.wf(),
            r < self@.rows,
            c < self@.cols,
        ensures
            v as int == self@.entry(r as int, c as int),
    {
        // Reading the length bounds the row-major index by usize::MAX.
        let len: usize = self.data.len();
        proof {
            lemma_row_major_index(r as int, c as int, self@.rows as int, self@.cols as int);
        }
        self.data[r * self.cols + c]
    }

    /// Overwrite the element in row `r`, column `c`.
    pub fn set(&mut self, r: usize, c: usize, v: i64)
        requires
            old(self).wf(),
            r < old(self)@.rows,
            c < old(self)@.cols,
            fx_in_range(v as int),
        ensures
            final(self).wf(),
            final(self)@ == (MatModel {
                data: old(self)@.data.update(r as int * old(self)@.cols as int + c as int, v as int),
                ..old(self)@
            }),
    {
        // Reading the length bounds the row-major index by usize::MAX.
        let len: usize = self.data.len();
        proof {
            lemma_row_major_index(r as int, c as int, self@.rows as int, self@.cols as int);
        }
        let idx: usize = r * self.cols + c;
        self.data[idx] = v;
        proof {
            assert(final(self)@.data =~= old(self)@.data.update(
                r as int * old(self)@.cols as int + c as int,
                v as int,
            ));
        }
    }

    /// A matrix of the given shape, every element zero.
    pub fn new(num_rows: usize, num_cols: usize) -> (result: Matrix)
        requires
            num_rows <= DIM_LIMIT,
            num_cols <= DIM_LIMIT,
            num_rows * num_cols <= usize::MAX,
        ensures
            result.wf(),
            result@ == mat_zero(num_rows as nat, num_cols as nat),
    {
        proof {
            assert(num_rows * num_cols >= 0) by (nonlinear_arith)
                requires
                    num_rows >= 0,
                    num_cols >= 0,
            ;
        }
        let total: usize = num_rows * num_cols;
        let mut data: Vec<i64> = Vec::new();
        let mut n: usize = 0;
        while n < total
            invariant
                n <= total,
                data@.len() == n,
                forall|k: int| 0 <= k < n ==> data@[k] == 0i64,
            decreases total - n,
        {
            data.push(0);
            n += 1;
        }
        let result = Matrix { rows: num_rows, cols: num_cols, data };
        proof {
            assert(result@.data =~= mat_zero(num_rows as nat, num_cols as nat).data);
        }
        result
    }

    /// A matrix of the given shape wrapping the given row-major data.
    pub fn from_vec(num_rows: usize, num_cols: usize, data: Vec<i64>) -> (result: Matrix)
        requires
            num_rows <= DIM_LIMIT,
            num_cols <= DIM_LIMIT,
            data@.len() == num_rows * num_cols,
            forall|n: int| 0 <= n < data@.len() ==> fx_in_range(#[trigger] data@[n] as int),
        ensures
            result.wf(),
            result@ == (MatModel {
                rows: num_rows as nat,
                cols: num_cols as nat,
                data: data@.map_values(|v: i64| v as int),
            }),
    {
        Matrix { rows: num_rows, cols: num_cols, data }
    }

    /// The transposed matrix.
    pub fn transpose(&self) -> (result: Matrix)
        requires
            self.wf(),
        ensures
            result.wf(),
            result@ == mat_transpose(self@),
    {
        let t_rows: usize = self.cols;
        let t_cols: usize = self.rows;
        let ghost spec_result = mat_transpose(self@);
        proof {
            assert(spec_result.data.len() == t_rows * t_cols);
        }
        let mut data: Vec<i64> = Vec::new();
        let mut i: usize = 0;
        while i < t_rows
            invariant
                self.wf(),
                t_rows == self@.cols,
                t_cols == self@.rows,
                spec_result == mat_transpose(self@),
                spec_result.data.len() == t_rows * t_cols,
                i <= t_rows,
                data@.len() == i * t_cols,
                forall|n: int|
                    0 <= n < data@.len() ==> #[trigger] data@[n] as int == spec_result.data[n],
                forall|n: int| 0 <= n < data@.len() ==> fx_in_range(#[trigger] data@[n] as int),
            decreases t_rows - i,
        {
            let mut j: usize = 0;
            while j < t_cols
                invariant
                    self.wf(),
                    t_rows == self@.cols,
                    t_cols == self@.rows,
                    spec_result == mat_transpose(self@),
                    spec_result.data.len() == t_rows * t_cols,
                    i < t_rows,
                    j <= t_cols,
                    data@.len() == i * t_cols + j,
                    forall|n: int|
                        0 <= n < data@.len() ==> #[trigger] data@[n] as int == spec_result.data[n],
                    forall|n: int| 0 <= n < data@.len() ==> fx_in_range(#[trigger] data@[n] as int),
                decreases t_cols - j,
            {
                proof {
                    lemma_row_major_index(i as int, j as int, t_rows as int, t_cols as int);
                    lemma_row_major_decode(i as int, j as int, t_cols as int);
                    lemma_row_major_index(j as int, i as int, self@.rows as int, self@.cols as int);
                }
                let v: i64 = self.get(j, i);
                data.push(v);
                j += 1;
            }
            i += 1;
            proof {
                assert(i * t_cols == (i - 1) * t_cols + t_cols) by (nonlinear_arith);
            }
        }
        let result = Matrix { rows: t_rows, cols: t_cols, data };
        proof {
            assert(result@ =~= spec_result);
        }
        result
    }

    /// Tolerant comparison: shapes equal and every pair of elements within
    /// `FX_EPSILON` units of one another.
    pub fn equals(&self, other: &Matrix) -> (r: bool)
        requires
            self.wf(),
            other.wf(),
        ensures
            r == mat_approx_eq(self@, other@),
    {
        if self.rows != other.rows || self.cols != other.cols {
            return false;
        }
        let len: usize = self.data.len();
        let mut n: usize = 0;
        while n < len
            invariant
                self.wf(),
                other.wf(),
                self@.rows == other@.rows,
                self@.cols == other@.cols,
                len == self@.data.len(),
                other@.data.len() == len,
                n <= len,
                forall|k: int|
                    0 <= k < n ==> -(FX_EPSILON as int) <= #[trigger] (self@.data[k]
                        - other@.data[k]) <= FX_EPSILON as int,
            decreases len - n,
        {
            let a: i64 = self.data[n];
            let b: i64 = other.data[n];
            proof {
                assert(a as int == self@.data[n as int]);
                assert(b as int == other@.data[n as int]);
            }
            let diff: i128 = (a as i128) - (b as i128);
            if diff > FX_EPSILON as i128 || diff < -(FX_EPSILON as i128) {
                return false;
            }
            n += 1;
        }
        true
    }

    /// Elementwise saturating sum, returning a new matrix.
    pub fn add(self, rhs: &Matrix) -> (result: Matrix)
        requires
            self.wf(),
            rhs.wf(),
            self@.rows == rhs@.rows,
            self@.cols == rhs@.cols,
        ensures
            result.wf(),
            result@ == mat_add(self@, rhs@),
    {
        let mut out = self;
        out.add_assign(rhs);
        out
    }

    /// Elementwise saturating sum in place.
    pub fn add_assign(&mut self, rhs: &Matrix)
        requires
            old(self).wf(),
            rhs.wf(),
            old(self)@.rows == rhs@.rows,
            old(self)@.cols == rhs@.cols,
        ensures
            final(self).wf(),
            final(self)@ == mat_add(old(self)@, rhs@),
    {
        let ghost orig = self@;
        let len: usize = self.data.len();
        let mut n: usize = 0;
        while n < len
            invariant
                rhs.wf(),
                self@.rows == orig.rows,
                self@.cols == orig.cols,
                orig.rows == rhs@.rows,
                orig.cols == rhs@.cols,
                len == self@.data.len(),
                rhs@.data.len() == len,
                orig.data.len() == len,
                n <= len,
                forall|k: int| n <= k < len ==> #[trigger] self@.data[k] == orig.data[k],
                forall|k: int|
                    0 <= k < n ==> #[trigger] self@.data[k] == fx_add(orig.data[k], rhs@.data[k]),
                forall|k: int| 0 <= k < n ==> fx_in_range(#[trigger] self@.data[k]),
                forall|k: int| 0 <= k < len ==> fx_in_range(#[trigger] orig.data[k]),
            decreases len - n,
        {
            let a: i64 = self.data[n];
            let b: i64 = rhs.data[n];
            let s: i64 = add_units(a, b);
            let ghost prevec = self.data@;
            let ghost premodel = self@;
            self.data[n] = s;
            proof {
                assert(self.data@ == prevec.update(n as int, s));
                assert(forall|k: int|
                    0 <= k < len && k != n ==> #[trigger] self@.data[k] == premodel.data[k]);
                assert(a as int == premodel.data[n as int]);
                assert(premodel.data[n as int] == orig.data[n as int]);
                assert(b as int == rhs@.data[n as int]);
                assert(self@.data[n as int] == s as int);
                assert(self@.data[n as int] == fx_add(orig.data[n as int], rhs@.data[n as int]));
            }
            n += 1;
        }
        proof {
            assert(final(self)@ =~= mat_add(orig, rhs@));
        }
    }

    /// Elementwise saturating difference in place.
    pub fn sub_assign(&mut self, rhs: &Matrix)
        requires
            old(self).wf(),
            rhs.wf(),
            old(self)@.rows == rhs@.rows,
            old(self)@.cols == rhs@.cols,
        ensures
            final(self).wf(),
            final(self)@ == mat_sub(old(self)@, rhs@),
    {
        let ghost orig = self@;
        let len: usize = self.data.len();
        let mut n: usize = 0;
        while n < len
            invariant
                rhs.wf(),
                self@.rows == orig.rows,
                self@.cols == orig.cols,
                orig.rows == rhs@.rows,
                orig.cols == rhs@.cols,
                len == self@.data.len(),
                rhs@.data.len() == len,
                orig.data.len() == len,
                n <= len,
                forall|k: int| n <= k < len ==> #[trigger] self@.data[k] == orig.data[k],
                forall|k: int|
                    0 <= k < n ==> #[trigger] self@.data[k] == fx_sub(orig.data[k], rhs@.data[k]),
                forall|k: int| 0 <= k < n ==> fx_in_range(#[trigger] self@.data[k]),
                forall|k: int| 0 <= k < len ==> fx_in_range(#[trigger] orig.data[k]),
            decreases len - n,
        {
            let a: i64 = self.data[n];
            let b: i64 = rhs.data[n];
            let s: i64 = sub_units(a, b);
            let ghost prevec = self.data@;
            let ghost premodel = self@;
            self.data[n] = s;
            proof {
                assert(self.data@ == prevec.update(n as int, s));
                assert(forall|k: int|
                    0 <= k < len && k != n ==> #[trigger] self@.data[k] == premodel.data[k]);
                assert(a as int == premodel.data[n as int]);
                assert(premodel.data[n as int] == orig.data[n as int]);
                assert(b as int == rhs@.data[n as int]);
                assert(self@.data[n as int] == s as int);
                assert(self@.data[n as int] == fx_sub(orig.data[n as int], rhs@.data[n as int]));
            }
            n += 1;
        }
        proof {
            assert(final(self)@ =~= mat_sub(orig, rhs@));
        }
    }
}


/// Dot product of the first `k` terms of row `i` of `a` with column `j` of `b`,
/// over unbounded integers (no truncation, no saturation).
pub open spec fn dot_prefix(a: MatModel, b: MatModel, i: int, j: int, k: nat) -> int
    recommends
        a.cols == b.rows,
        0 <= i < a.rows,
        0 <= j < b.cols,
        k <= a.cols,
    decreases k,
{
    if k == 0 {
        0
    } else {
        dot_prefix(a, b, i, j, (k - 1) as nat) + a.entry(i, k - 1) * b.entry(k - 1, j)
    }
}

/// One element of a matrix product: the full dot product, truncated back to
/// units and saturated.
pub open spec fn mul_entry(a: MatModel, b: MatModel, i: int, j: int) -> int {
    fx_clamp(div_trunc(dot_prefix(a, b, i, j, a.cols), FX_SCALE as int))
}

/// Matrix product: requires `a.cols == b.rows`; the result is
/// `a.rows x b.cols` with `entry(i, j) == mul_entry(a, b, i, j)`.
pub open spec fn mat_mul(a: MatModel, b: MatModel) -> MatModel {
    MatModel {
        rows: a.rows,
        cols: b.cols,
        data: Seq::new(
            a.rows * b.cols,
            |n: int| mul_entry(a, b, n / b.cols as int, n % b.cols as int),
        ),
    }
}

/// Elementwise saturating product; shapes must agree.
pub open spec fn mat_hadamard(a: MatModel, b: MatModel) -> MatModel {
    MatModel {
        rows: a.rows,
        cols: a.cols,
        data: Seq::new(a.data.len(), |n: int| fx_mul(a.data[n], b.data[n])),
    }
}

/// Hadamard product against a single column `b`, broadcast by linear index:
/// element `n` of `a` is multiplied by element `n % b.rows` of `b`.
pub open spec fn mat_hadamard_bcast(a: MatModel, b: MatModel) -> MatModel {
    MatModel {
        rows: a.rows,
        cols: a.cols,
        data: Seq::new(a.data.len(), |n: int| fx_mul(a.data[n], b.data[n % b.rows as int])),
    }
}

/// Every element multiplied by the scalar `s` (saturating).
pub open spec fn mat_scale(a: MatModel, s: int) -> MatModel {
    MatModel {
        rows: a.rows,
        cols: a.cols,
        data: Seq::new(a.data.len(), |n: int| fx_mul(a.data[n], s)),
    }
}

/// Every element divided by the integer `d`, truncating toward zero.
pub open spec fn mat_scale_div(a: MatModel, d: int) -> MatModel {
    MatModel {
        rows: a.rows,
        cols: a.cols,
        data: Seq::new(a.data.len(), |n: int| div_trunc(a.data[n], d)),
    }
}


impl Matrix {
    /// Matrix product.  The shapes must be compatible:
    /// `self` is `M x N`, `other` is `N x O`, the result is `M x O`.
    pub fn multiply(&self, other: &Matrix) -> (result: Matrix)
        requires
            self.wf(),
            other.wf(),
            self@.cols == other@.rows,
        ensures
            result.wf(),
            result@ == mat_mul(self@, other@),
    {
        let m: usize = self.rows;
        let o: usize = other.cols;
        let inner: usize = self.cols;
        let ghost spec_result = mat_mul(self@, other@);
        proof {
            assert(m * o >= 0) by (nonlinear_arith)
                requires
                    m >= 0,
                    o >= 0,
            ;
            assert(spec_result.data.len() == m * o);
        }
        let mut data: Vec<i64> = Vec::new();
        let mut i: usize = 0;
        while i < m
            invariant
                self.wf(),
                other.wf(),
                self@.cols == other@.rows,
                m == self@.rows,
                o == other@.cols,
                inner == self@.cols,
                spec_result == mat_mul(self@, other@),
                spec_result.data.len() == m * o,
                i <= m,
                data@.len() == i * o,
                forall|n: int|
                    0 <= n < data@.len() ==> #[trigger] data@[n] as int == spec_result.data[n],
                forall|n: int| 0 <= n < data@.len() ==> fx_in_range(#[trigger] data@[n] as int),
            decreases m - i,
        {
            let mut j: usize = 0;
            while j < o
                invariant
                    self.wf(),
                    other.wf(),
                    self@.cols == other@.rows,
                    m == self@.rows,
                    o == other@.cols,
                    inner == self@.cols,
                    spec_result == mat_mul(self@, other@),
                    spec_result.data.len() == m * o,
                    i < m,
                    j <= o,
                    data@.len() == i * o + j,
                    forall|n: int|
                        0 <= n < data@.len() ==> #[trigger] data@[n] as int == spec_result.data[n],
                    forall|n: int| 0 <= n < data@.len() ==> fx_in_range(#[trigger] data@[n] as int),
                decreases o - j,
            {
                let mut sum: i128 = 0;
                let mut k: usize = 0;
                while k < inner
                    invariant
                        self.wf(),
                        other.wf(),
                        self@.cols == other@.rows,
                        m == self@.rows,
                        o == other@.cols,
                        inner == self@.cols,
                        i < m,
                        j < o,
                        k <= inner,
                        sum as int == dot_prefix(self@, other@, i as int, j as int, k as nat),
                        -((k as int) * (FX_MAX as int) * (FX_MAX as int)) <= sum as int
                            <= (k as int) * (FX_MAX as int) * (FX_MAX as int),
                    decreases inner - k,
                {
                    let av: i64 = self.get(i, k);
                    let bv: i64 = other.get(k, j);
                    proof {
                        lemma_row_major_index(i as int, k as int, self@.rows as int,
                            self@.cols as int);
                        lemma_row_major_index(k as int, j as int, other@.rows as int,
                            other@.cols as int);
                        assert(fx_in_range(av as int));
                        assert(fx_in_range(bv as int));
                        assert(-((FX_MAX as int) * (FX_MAX as int)) <= (av as int) * (bv as int)
                            <= (FX_MAX as int) * (FX_MAX as int)) by (nonlinear_arith)
                            requires
                                -(FX_MAX as int) <= av as int <= FX_MAX as int,
                                -(FX_MAX as int) <= bv as int <= FX_MAX as int,
                        ;
                        assert((k as int) * (FX_MAX as int) * (FX_MAX as int) <= (
                        DIM_LIMIT as int) * (FX_MAX as int) * (FX_MAX as int)) by (nonlinear_arith)
                            requires
                                0 <= k as int <= DIM_LIMIT as int,
                        ;
                        assert(((k + 1) as int) * (FX_MAX as int) * (FX_MAX as int) == (k as int)
                            * (FX_MAX as int) * (FX_MAX as int) + (FX_MAX as int) * (
                        FX_MAX as int)) by (nonlinear_arith);
                    }
                    let p: i128 = (av as i128) * (bv as i128);
                    sum = sum + p;
                    k += 1;
                }
                let v: i64 = fx_scale_down(sum);
                proof {
                    lemma_row_major_index(i as int, j as int, m as int, o as int);
                    lemma_row_major_decode(i as int, j as int, o as int);
                    assert(v as int == mul_entry(self@, other@, i as int, j as int));
                    assert(spec_result.data[(i * o + j) as int] == mul_entry(self@, other@,
                        i as int, j as int));
                }
                data.push(v);
                j += 1;
            }
            i += 1;
            proof {
                assert(i * o == (i - 1) * o + o) by (nonlinear_arith);
            }
        }
        let result = Matrix { rows: m, cols: o, data };
        proof {
            assert(result@ =~= spec_result);
        }
        result
    }

    /// Elementwise saturating product, returning a new matrix; shapes must
    /// agree exactly.
    pub fn hadamard_product(&self, other: &Matrix) -> (result: Matrix)
        requires
            self.wf(),
            other.wf(),
            self@.rows == other@.rows,
            self@.cols == other@.cols,
        ensures
            result.wf(),
            result@ == mat_hadamard(self@, other@),
    {
        let len: usize = self.data.len();
        let mut data: Vec<i64> = Vec::new();
        let mut n: usize = 0;
        while n < len
            invariant
                self.wf(),
                other.wf(),
                self@.rows == other@.rows,
                self@.cols == other@.cols,
                len == self@.data.len(),
                other@.data.len() == len,
                n <= len,
                data@.len() == n,
                forall|k: int|
                    0 <= k < n ==> #[trigger] data@[k] as int == fx_mul(
                        self@.data[k],
                        other@.data[k],
                    ),
                forall|k: int| 0 <= k < n ==> fx_in_range(#[trigger] data@[k] as int),
            decreases len - n,
        {
            let a: i64 = self.data[n];
            let b: i64 = other.data[n];
            proof {
                assert(a as int == self@.data[n as int]);
                assert(b as int == other@.data[n as int]);
            }
            let v: i64 = mul_units(a, b);
            data.push(v);
            n += 1;
        }
        let result = Matrix { rows: self.rows, cols: self.cols, data };
        proof {
            assert(result@ =~= mat_hadamard(self@, other@));
        }
        result
    }

    /// Elementwise saturating product in place.  Either the shapes agree
    /// exactly, or `other` is a single column with as many rows as `self`,
    /// in which case element `n` of `self` is multiplied by element
    /// `n % other.rows` of `other`.
    pub fn mut_hadamard_product(&mut self, other: &Matrix)
        requires
            old(self).wf(),
            other.wf(),
            (old(self)@.rows == other@.rows && old(self)@.cols == other@.cols) || (old(
                self,
            )@.rows == other@.rows && other@.cols == 1),
        ensures
            final(self).wf(),
            final(self)@ == if old(self)@.rows == other@.rows && old(self)@.cols == other@.cols {
                mat_hadamard(old(self)@, other@)
            } else {
                mat_hadamard_bcast(old(self)@, other@)
            },
    {
        let ghost orig = self@;
        let len: usize = self.data.len();
        if self.rows == other.rows && self.cols == other.cols {
            let mut n: usize = 0;
            while n < len
                invariant
                    other.wf(),
                    self@.rows == orig.rows,
                    self@.cols == orig.cols,
                    orig.rows == other@.rows,
                    orig.cols == other@.cols,
                    len == self@.data.len(),
                    other@.data.len() == len,
                    orig.data.len() == len,
                    n <= len,
                    forall|k: int| n <= k < len ==> #[trigger] self@.data[k] == orig.data[k],
                    forall|k: int|
                        0 <= k < n ==> #[trigger] self@.data[k] == fx_mul(
                            orig.data[k],
                            other@.data[k],
                        ),
                    forall|k: int| 0 <= k < n ==> fx_in_range(#[trigger] self@.data[k]),
                    forall|k: int| 0 <= k < len ==> fx_in_range(#[trigger] orig.data[k]),
                decreases len - n,
            {
                let a: i64 = self.data[n];
                let b: i64 = other.data[n];
                let s: i64 = mul_units(a, b);
                let ghost prevec = self.data@;
                let ghost premodel = self@;
                self.data[n] = s;
                proof {
                    assert(self.data@ == prevec.update(n as int, s));
                    assert(forall|k: int|
                        0 <= k < len && k != n ==> #[trigger] self@.data[k] == premodel.data[k]);
                    assert(a as int == premodel.data[n as int]);
                    assert(premodel.data[n as int] == orig.data[n as int]);
                    assert(b as int == other@.data[n as int]);
                    assert(self@.data[n as int] == s as int);
                }
                n += 1;
            }
            proof {
                assert(final(self)@ =~= mat_hadamard(orig, other@));
            }
        } else {
            let b_rows: usize = other.rows;
            let mut n: usize = 0;
            while n < len
                invariant
                    other.wf(),
                    self@.rows == orig.rows,
                    self@.cols == orig.cols,
                    orig.rows == other@.rows,
                    other@.cols == 1,
                    b_rows == other@.rows,
                    len == self@.data.len(),
                    len == orig.rows * orig.cols,
                    other@.data.len() == other@.rows,
                    orig.data.len() == len,
                    n <= len,
                    forall|k: int| n <= k < len ==> #[trigger] self@.data[k] == orig.data[k],
                    forall|k: int|
                        0 <= k < n ==> #[trigger] self@.data[k] == fx_mul(
                            orig.data[k],
                            other@.data[k % other@.rows as int],
                        ),
                    forall|k: int| 0 <= k < n ==> fx_in_range(#[trigger] self@.data[k]),
                    forall|k: int| 0 <= k < len ==> fx_in_range(#[trigger] orig.data[k]),
                decreases len - n,
            {
                proof {
                    assert(orig.rows > 0) by (nonlinear_arith)
                        requires
                            orig.rows * orig.cols > n >= 0,
                    ;
                }
                let j: usize = n % b_rows;
                let a: i64 = self.data[n];
                let b: i64 = other.data[j];
                let s: i64 = mul_units(a, b);
                let ghost prevec = self.data@;
                let ghost premodel = self@;
                self.data[n] = s;
                proof {
                    assert(self.data@ == prevec.update(n as int, s));
                    assert(forall|k: int|
                        0 <= k < len && k != n ==> #[trigger] self@.data[k] == premodel.data[k]);
                    assert(a as int == premodel.data[n as int]);
                    assert(premodel.data[n as int] == orig.data[n as int]);
                    assert(b as int == other@.data[j as int]);
                    assert(self@.data[n as int] == s as int);
                }
                n += 1;
            }
            proof {
                assert(final(self)@ =~= mat_hadamard_bcast(orig, other@));
            }
        }
    }

    /// Every element multiplied by `scalar` (saturating), returning a new
    /// matrix and consuming `self`.
    pub fn scalar_product(self, scalar: i64) -> (result: Matrix)
        requires
            self.wf(),
        ensures
            result.wf(),
            result@ == mat_scale(self@, scalar as int),
    {
        let mut out = self;
        out.mut_scalar_product(scalar);
        out
    }

    /// Every element multiplied by `scalar` (saturating), in place.
    pub fn mut_scalar_product(&mut self, scalar: i64)
        requires
            old(self).wf(),
        ensures
            final(self).wf(),
            final(self)@ == mat_scale(old(self)@, scalar as int),
    {
        let ghost orig = self@;
        let len: usize = self.data.len();
        let mut n: usize = 0;
        while n < len
            invariant
                self@.rows == orig.rows,
                self@.cols == orig.cols,
                len == self@.data.len(),
                orig.data.len() == len,
                orig.rows * orig.cols == len,
                orig.rows <= DIM_LIMIT,
                orig.cols <= DIM_LIMIT,
                n <= len,
                forall|k: int| n <= k < len ==> #[trigger] self@.data[k] == orig.data[k],
                forall|k: int|
                    0 <= k < n ==> #[trigger] self@.data[k] == fx_mul(orig.data[k], scalar as int),
                forall|k: int| 0 <= k < n ==> fx_in_range(#[trigger] self@.data[k]),
                forall|k: int| 0 <= k < len ==> fx_in_range(#[trigger] orig.data[k]),
            decreases len - n,
        {
            let a: i64 = self.data[n];
            let s: i64 = mul_units(a, scalar);
            let ghost prevec = self.data@;
            let ghost premodel = self@;
            self.data[n] = s;
            proof {
                assert(self.data@ == prevec.update(n as int, s));
                assert(forall|k: int|
                    0 <= k < len && k != n ==> #[trigger] self@.data[k] == premodel.data[k]);
                assert(a as int == premodel.data[n as int]);
                assert(premodel.data[n as int] == orig.data[n as int]);
                assert(self@.data[n as int] == s as int);
            }
            n += 1;
        }
        proof {
            assert(final(self)@ =~= mat_scale(orig, scalar as int));
        }
    }

    /// Every element divided by `divisor` (truncating toward zero), in place.
    pub fn mut_scalar_divide(&mut self, divisor: i64)
        requires
            old(self).wf(),
            divisor >= 1,
        ensures
            final(self).wf(),
            final(self)@ == mat_scale_div(old(self)@, divisor as int),
    {
        let ghost orig = self@;
        let len: usize = self.data.len();
        let mut n: usize = 0;
        while n < len
            invariant
                divisor >= 1,
                self@.rows == orig.rows,
                self@.cols == orig.cols,
                len == self@.data.len(),
                orig.data.len() == len,
                orig.rows * orig.cols == len,
                orig.rows <= DIM_LIMIT,
                orig.cols <= DIM_LIMIT,
                n <= len,
                forall|k: int| n <= k < len ==> #[trigger] self@.data[k] == orig.data[k],
                forall|k: int|
                    0 <= k < n ==> #[trigger] self@.data[k] == div_trunc(
                        orig.data[k],
                        divisor as int,
                    ),
                forall|k: int| 0 <= k < n ==> fx_in_range(#[trigger] self@.data[k]),
                forall|k: int| 0 <= k < len ==> fx_in_range(#[trigger] orig.data[k]),
            decreases len - n,
        {
            let a: i64 = self.data[n];
            proof {
                assert(a as int == self@.data[n as int]);
                assert(fx_in_range(a as int));
            }
            let s: i64 = if a >= 0 {
                let q: u64 = (a as u64) / (divisor as u64);
                proof {
                    assert(q <= a as u64) by (nonlinear_arith)
                        requires
                            q == (a as u64) / (divisor as u64),
                            divisor as u64 >= 1,
                    ;
                }
                q as i64
            } else {
                let q: u64 = ((-a) as u64) / (divisor as u64);
                proof {
                    assert(q <= (-a) as u64) by (nonlinear_arith)
                        requires
                            q == ((-a) as u64) / (divisor as u64),
                            divisor as u64 >= 1,
                    ;
                }
                -(q as i64)
            };
            let ghost prevec = self.data@;
            let ghost premodel = self@;
            self.data[n] = s;
            proof {
                assert(self.data@ == prevec.update(n as int, s));
                assert(forall|k: int|
                    0 <= k < len && k != n ==> #[trigger] self@.data[k] == premodel.data[k]);
                assert(a as int == premodel.data[n as int]);
                assert(premodel.data[n as int] == orig.data[n as int]);
                assert(self@.data[n as int] == s as int);
                assert(s as int == div_trunc(orig.data[n as int], divisor as int));
                assert(fx_in_range(s as int));
            }
            n += 1;
        }
        proof {
            assert(final(self)@ =~= mat_scale_div(orig, divisor as int));
        }
    }
}

/// The Glorot-style uniform bound in units:
/// `sqrt(sqrt(6) / (n_in + n_out))`, computed with integer square roots
/// exactly as the initializer computes it.
pub open spec fn glorot_bound(n_in: int, n_out: int) -> int
    recommends
        n_in + n_out >= 1,
{
    let sqrt6 = isqrt_spec((6 * (FX_SCALE as int) * (FX_SCALE as int)) as nat) as int;
    let inner = sqrt6 / (n_in + n_out);
    isqrt_spec((inner * (FX_SCALE as int)) as nat) as int
}

/// The He-style standard deviation in units: `sqrt(2 / n_in)`, computed
/// with an integer square root exactly as the initializer computes it.
pub open spec fn he_sigma(n_in: int) -> int
    recommends
        n_in >= 1,
{
    let ratio = (2 * (FX_SCALE as int)) / n_in;
    isqrt_spec((ratio * (FX_SCALE as int)) as nat) as int
}

impl Matrix {
    /// Glorot-style initialization: every element drawn uniformly from
    /// `[-h, h]` with `h = sqrt(sqrt(6) / (n_in + n_out))`, computed in
    /// fixed point with integer square roots.  Note that the bound nests
    /// one more square root than the textbook Glorot rule; the historical
    /// formula is kept deliberately.
    pub fn new_random_glorot(n_in: usize, n_out: usize) -> (result: Matrix)
        requires
            n_in <= DIM_LIMIT,
            n_out <= DIM_LIMIT,
            n_in * n_out <= usize::MAX,
            n_in + n_out >= 1,
        ensures
            result.wf(),
            result@.rows == n_in,
            result@.cols == n_out,
            forall|n: int|
                0 <= n < result@.data.len() ==> -glorot_bound(n_in as int, n_out as int)
                    <= #[trigger] result@.data[n] <= glorot_bound(n_in as int, n_out as int),
    {
        let sqrt6: u64 = isqrt_u64(6 * (FX_SCALE as u64) * (FX_SCALE as u64));
        proof {
            assert(sqrt6 <= 2_500_000_000u64) by (nonlinear_arith)
                requires
                    (sqrt6 as int) * (sqrt6 as int) <= 6_000_000_000_000_000_000int,
            ;
        }
        let denom: u64 = (n_in + n_out) as u64;
        let inner: u64 = sqrt6 / denom;
        proof {
            assert(inner <= sqrt6) by (nonlinear_arith)
                requires
                    inner == sqrt6 / denom,
                    denom >= 1,
            ;
        }
        let high_u: u64 = isqrt_u64(inner * (FX_SCALE as u64));
        proof {
            assert(high_u <= FX_MAX as u64) by (nonlinear_arith)
                requires
                    (high_u as int) * (high_u as int) <= 2_500_000_000_000_000_000int,
                    FX_MAX == 1_000_000_000_000i64,
            ;
        }
        let high: i64 = high_u as i64;
        proof {
            assert(high as int == glorot_bound(n_in as int, n_out as int));
            assert(n_in * n_out >= 0) by (nonlinear_arith)
                requires
                    n_in >= 0,
                    n_out >= 0,
            ;
        }
        let total: usize = n_in * n_out;
        let mut data: Vec<i64> = Vec::new();
        let mut n: usize = 0;
        while n < total
            invariant
                0 <= high <= FX_MAX,
                high as int == glorot_bound(n_in as int, n_out as int),
                n <= total,
                data@.len() == n,
                forall|k: int|
                    0 <= k < n ==> -(high as int) <= #[trigger] data@[k] as int <= high as int,
                forall|k: int| 0 <= k < n ==> fx_in_range(#[trigger] data@[k] as int),
            decreases total - n,
        {
            let v: i64 = sample_uniform(-high, high);
            data.push(v);
            n += 1;
        }
        let result = Matrix { rows: n_in, cols: n_out, data };
        proof {
            assert forall|k: int|
                0 <= k < result@.data.len() implies -glorot_bound(n_in as int, n_out as int)
                <= #[trigger] result@.data[k] <= glorot_bound(n_in as int, n_out as int) by {
                assert(result@.data[k] == data@[k] as int);
            }
        }
        result
    }

    /// He-style initialization: every element is an approximately normal
    /// draw with standard deviation `sqrt(2 / n_in)`, formed by scaling a
    /// centered sum of uniform draws.
    pub fn new_random_he(n_in: usize, n_out: usize) -> (result: Matrix)
        requires
            1 <= n_in <= DIM_LIMIT,
            n_out <= DIM_LIMIT,
            n_in * n_out <= usize::MAX,
        ensures
            result.wf(),
            result@.rows == n_in,
            result@.cols == n_out,
            forall|n: int|
                0 <= n < result@.data.len() ==> -6 * he_sigma(n_in as int)
                    <= #[trigger] result@.data[n] <= 6 * he_sigma(n_in as int),
    {
        let two_units: u64 = 2 * FX_SCALE as u64;
        let ratio: u64 = two_units / (n_in as u64);
        proof {
            assert(ratio <= two_units) by (nonlinear_arith)
                requires
                    ratio == two_units / (n_in as u64),
                    n_in >= 1,
            ;
        }
        let sigma_u: u64 = isqrt_u64(ratio * (FX_SCALE as u64));
        proof {
            assert(sigma_u <= FX_MAX as u64) by (nonlinear_arith)
                requires
                    (sigma_u as int) * (sigma_u as int) <= 2_000_000_000_000_000_000int,
                    FX_MAX == 1_000_000_000_000i64,
            ;
        }
        let sigma: i64 = sigma_u as i64;
        proof {
            assert(sigma as int == he_sigma(n_in as int));
            assert(n_in * n_out >= 0) by (nonlinear_arith)
                requires
                    n_in >= 0,
                    n_out >= 0,
            ;
        }
        let total: usize = n_in * n_out;
        let mut data: Vec<i64> = Vec::new();
        let mut n: usize = 0;
        while n < total
            invariant
                0 <= sigma,
                sigma as int == he_sigma(n_in as int),
                n <= total,
                data@.len() == n,
                forall|k: int|
                    0 <= k < n ==> -6 * (sigma as int) <= #[trigger] data@[k] as int <= 6 * (
                    sigma as int),
                forall|k: int| 0 <= k < n ==> fx_in_range(#[trigger] data@[k] as int),
            decreases total - n,
        {
            let z: i64 = sample_centered_normal_units();
            let v: i64 = mul_units(z, sigma);
            proof {
                let zi = z as int;
                let si = sigma as int;
                let p = zi * si;
                assert(-(6 * (FX_SCALE as int) * si) <= p <= 6 * (FX_SCALE as int) * si)
                    by (nonlinear_arith)
                    requires
                        p == zi * si,
                        -(6 * (FX_SCALE as int)) <= zi <= 6 * (FX_SCALE as int),
                        si >= 0,
                ;
                assert(6 * si * (FX_SCALE as int) == 6 * (FX_SCALE as int) * si)
                    by (nonlinear_arith);
                lemma_div_trunc_bounded(p, 6 * si, FX_SCALE as int);
                assert(-6 * si <= fx_mul(zi, si) <= 6 * si);
                assert(-6 * si <= v as int <= 6 * si);
            }
            data.push(v);
            n += 1;
        }
        let result = Matrix { rows: n_in, cols: n_out, data };
        proof {
            assert forall|k: int|
                0 <= k < result@.data.len() implies -6 * he_sigma(n_in as int)
                <= #[trigger] result@.data[k] <= 6 * he_sigma(n_in as int) by {
                assert(result@.data[k] == data@[k] as int);
            }
        }
        result
    }

    /// Default random initialization: the He policy, aimed at rectifier
    /// activations.
    pub fn new_random(num_rows: usize, num_cols: usize) -> (result: Matrix)
        requires
            1 <= num_rows <= DIM_LIMIT,
            num_cols <= DIM_LIMIT,
            num_rows * num_cols <= usize::MAX,
        ensures
            result.wf(),
            result@.rows == num_rows,
            result@.cols == num_cols,
            forall|n: int|
                0 <= n < result@.data.len() ==> -6 * he_sigma(num_rows as int)
                    <= #[trigger] result@.data[n] <= 6 * he_sigma(num_rows as int),
    {
        Matrix::new_random_he(num_rows, num_cols)
    }
}

impl Clone for Matrix {
    /// A deep copy with the same model.
    fn clone(&self) -> (result: Self)
        ensures
            result@ == self@,
    {
        let len: usize = self.data.len();
        let mut data: Vec<i64> = Vec::new();
        let mut n: usize = 0;
        while n < len
            invariant
                len == self.data@.len(),
                n <= len,
                data@.len() == n,
                forall|k: int| 0 <= k < n ==> #[trigger] data@[k] == self.data@[k],
            decreases len - n,
        {
            let v: i64 = self.data[n];
            data.push(v);
            n += 1;
        }
        let result = Matrix { rows: self.rows, cols: self.cols, data };
        proof {
            assert(data@ =~= self.data@);
            assert(result@ =~= self@);
        }
        result
    }
}

} // verus!

