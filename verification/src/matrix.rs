//! The matrix type: flat row-major storage, validated construction,
//! element access, addition and multiplication.

use vstd::prelude::*;
use vstd::std_specs::cmp::PartialEqSpec;

verus! {

/// A dense matrix of `i64` values.
///
/// The elements live in a flat vector of length `rows * cols`, in row-major
/// order: element `(i, j)` sits at flat offset `i * cols + j`.  The shape is
/// fixed at construction; individual cells may be overwritten through
/// [`Matrix::set`].
#[derive(Debug)]
pub struct Matrix {
    data: Vec<i64>,
    rows: usize,
    cols: usize,
}

/// Why construction from nested rows was rejected.
#[derive(Debug, Clone, Copy, PartialEq, Eq, Structural)]
pub enum MatrixError {
    /// The outer vector held no rows at all.
    EmptyInput,
    /// The first row held no columns.
    EmptyRow,
    /// Some row's length differs from the first row's length.
    RaggedRows,
}

impl MatrixError {
    /// The human-readable message for this error.
    pub open spec fn spec_message(&self) -> Seq<char> {
        match *self {
            MatrixError::EmptyInput => "Nested vec is empty"@,
            MatrixError::EmptyRow => "Nested vec contains an empty row"@,
            MatrixError::RaggedRows => "Nested vec is not a matrix"@,
        }
    }

    /// A human-readable description of which validation step failed.
    pub fn message(&self) -> (r: String)
        ensures
            r@ == self.spec_message(),
    {
        match *self {
            MatrixError::EmptyInput => "Nested vec is empty".to_owned(),
            MatrixError::EmptyRow => "Nested vec contains an empty row".to_owned(),
            MatrixError::RaggedRows => "Nested vec is not a matrix".to_owned(),
        }
    }
}

impl Matrix {
    /// The number of rows, as a mathematical integer.
    pub closed spec fn spec_rows(&self) -> int {
        self.rows as int
    }

    /// The number of columns, as a mathematical integer.
    pub closed spec fn spec_cols(&self) -> int {
        self.cols as int
    }

    /// The flat backing sequence, in row-major order.
    pub closed spec fn spec_data(&self) -> Seq<i64> {
        self.data@
    }

    /// Shape invariant: the backing store holds exactly `rows * cols` elements.
    pub open spec fn wf(&self) -> bool {
        self.spec_data().len() == self.spec_rows() * self.spec_cols()
    }

    /// The element at row `i`, column `j`, read through the row-major layout.
    pub open spec fn spec_at(&self, i: int, j: int) -> i64 {
        self.spec_data()[i * self.spec_cols() + j]
    }

    /// Builds a `rows` by `cols` matrix with every cell set to zero.
    ///
    /// The dimensions are not themselves validated: a zero-dimension request
    /// yields a degenerate matrix with an empty backing store.
    pub fn new(rows: usize, cols: usize) -> (m: Matrix)
        requires
            rows * cols <= usize::MAX,
        ensures
            m.wf(),
            m.spec_rows() == rows,
            m.spec_cols() == cols,
            forall|k: int| 0 <= k < rows * cols ==> m.spec_data()[k] == 0i64,
            forall|i: int, j: int|
                0 <= i < rows && 0 <= j < cols ==> m.spec_at(i, j) == 0i64,
    {
        let dim = rows * cols;
        let mut data: Vec<i64> = Vec::new();
        let mut k: usize = 0;
        while k < dim
            invariant
                k <= dim,
                data@.len() == k,
                forall|t: int| 0 <= t < k ==> data@[t] == 0i64,
            decreases dim - k,
        {
            data.push(0i64);
            k = k + 1;
        }
        let m = Matrix { data, rows, cols };
        proof {
            assert forall|i: int, j: int|
                0 <= i < rows && 0 <= j < cols implies m.spec_at(i, j) == 0i64 by {
                lemma_flat_index_in_range(i, j, rows as int, cols as int);
            }
        }
        m
    }

    /// The number of rows.
    pub fn rows(&self) -> (r: usize)
        ensures
            r == self.spec_rows(),
    {
        self.rows
    }

    /// The number of columns.
    pub fn cols(&self) -> (c: usize)
        ensures
            c == self.spec_cols(),
    {
        self.cols
    }

    /// Reads the element at row `i`, column `j`.
    pub fn get(&self, i: usize, j: usize) -> (v: i64)
        requires
            self.wf(),
            i < self.spec_rows(),
            j < self.spec_cols(),
        ensures
            v == self.spec_at(i as int, j as int),
    {
        proof {
            lemma_flat_index_in_range(i as int, j as int, self.spec_rows(), self.spec_cols());
        }
        // the length, a usize, bounds the flat offset, so it cannot overflow
        let _n: usize = self.data.len();
        self.data[i * self.cols + j]
    }

    /// Overwrites the element at row `i`, column `j` with `v`; every other
    /// cell and the shape are unchanged.
    pub fn set(&mut self, i: usize, j: usize, v: i64)
        requires
            old(self).wf(),
            i < old(self).spec_rows(),
            j < old(self).spec_cols(),
        ensures
            final(self).wf(),
            final(self).spec_rows() == old(self).spec_rows(),
            final(self).spec_cols() == old(self).spec_cols(),
            final(self).spec_data() == old(self).spec_data().update(
                i * old(self).spec_cols() + j,
                v,
            ),
            final(self).spec_at(i as int, j as int) == v,
            forall|i2: int, j2: int|
                0 <= i2 < old(self).spec_rows() && 0 <= j2 < old(self).spec_cols()
                    && !(i2 == i && j2 == j) ==> final(self).spec_at(i2, j2) == old(
                    self,
                ).spec_at(i2, j2),
    {
        proof {
            lemma_flat_index_in_range(i as int, j as int, self.spec_rows(), self.spec_cols());
        }
        // the length, a usize, bounds the flat offset, so it cannot overflow
        let _n: usize = self.data.len();
        let idx = i * self.cols + j;
        self.data[idx] = v;
        proof {
            assert forall|i2: int, j2: int|
                0 <= i2 < old(self).spec_rows() && 0 <= j2 < old(self).spec_cols()
                    && !(i2 == i && j2 == j) implies final(self).spec_at(i2, j2) == old(
                self,
            ).spec_at(i2, j2) by {
                lemma_flat_index_in_range(i2, j2, old(self).spec_rows(), old(self).spec_cols());
                lemma_flat_index_injective(
                    i as int,
                    j as int,
                    i2,
                    j2,
                    old(self).spec_cols(),
                );
            }
        }
    }
}

/// Every row of `v` has the same length as the first row.
pub open spec fn rectangular(v: Seq<Seq<i64>>) -> bool {
    forall|i: int| 0 <= i < v.len() ==> #[trigger] v[i].len() == v[0].len()
}

/// `v` describes a matrix: at least one row, a non-empty first row, and no
/// ragged rows.
pub open spec fn valid_rows(v: Seq<Seq<i64>>) -> bool {
    v.len() > 0 && v[0].len() > 0 && rectangular(v)
}

/// Every pairwise sum of corresponding elements stays within `i64`.
pub open spec fn sums_fit(a: Seq<i64>, b: Seq<i64>) -> bool {
    forall|k: int| 0 <= k < a.len() ==> i64::MIN <= (#[trigger] a[k]) + b[k] <= i64::MAX
}

impl Matrix {
    /// Builds a matrix from nested rows, validating that they are rectangular.
    ///
    /// The outer vector supplies the rows in order; the first row fixes the
    /// column count.  On success the rows are flattened, in order, into the
    /// row-major backing store, so `get(i, j)` reads back exactly
    /// `value[i][j]`.
    pub fn try_from(value: Vec<Vec<i64>>) -> (r: Result<Matrix, MatrixError>)
        ensures
            r is Ok <==> valid_rows(value.deep_view()),
            value.deep_view().len() == 0 ==> r == Err::<Matrix, MatrixError>(
                MatrixError::EmptyInput,
            ),
            value.deep_view().len() > 0 && value.deep_view()[0].len() == 0 ==> r
                == Err::<Matrix, MatrixError>(MatrixError::EmptyRow),
            value.deep_view().len() > 0 && value.deep_view()[0].len() > 0 && !rectangular(
                value.deep_view(),
            ) ==> r == Err::<Matrix, MatrixError>(MatrixError::RaggedRows),
            r is Ok ==> ({
                let m = r->Ok_0;
                let v = value.deep_view();
                &&& m.wf()
                &&& m.spec_rows() == v.len()
                &&& m.spec_cols() == v[0].len()
                &&& m.spec_rows() >= 1
                &&& m.spec_cols() >= 1
                &&& forall|i: int, j: int|
                    0 <= i < v.len() && 0 <= j < v[0].len() ==> #[trigger] m.spec_at(i, j)
                        == v[i][j]
            }),
    {
        proof {
            lemma_deep_view_rows(&value);
        }
        let rows = value.len();
        if rows == 0 {
            return Err(MatrixError::EmptyInput);
        }
        let cols = value[0].len();
        if cols == 0 {
            return Err(MatrixError::EmptyRow);
        }
        let mut i: usize = 0;
        while i < rows
            invariant
                rows == value@.len(),
                cols == value@[0]@.len(),
                cols > 0,
                i <= rows,
                forall|t: int| 0 <= t < i ==> #[trigger] value@[t]@.len() == cols,
            decreases rows - i,
        {
            if value[i].len() != cols {
                proof {
                    lemma_deep_view_rows(&value);
                    assert(value.deep_view()[i as int].len() != value.deep_view()[0].len());
                    assert(!rectangular(value.deep_view()));
                }
                return Err(MatrixError::RaggedRows);
            }
            i = i + 1;
        }
        let mut data: Vec<i64> = Vec::new();
        let mut i: usize = 0;
        while i < rows
            invariant
                rows == value@.len(),
                cols == value@[0]@.len(),
                forall|t: int| 0 <= t < rows ==> #[trigger] value@[t]@.len() == cols,
                i <= rows,
                data@.len() == i * cols,
                forall|i2: int, j2: int|
                    0 <= i2 < i && 0 <= j2 < cols ==> #[trigger] data@[i2 * cols + j2]
                        == value@[i2]@[j2],
            decreases rows - i,
        {
            let row = &value[i];
            let mut j: usize = 0;
            while j < cols
                invariant
                    rows == value@.len(),
                    cols == value@[0]@.len(),
                    forall|t: int| 0 <= t < rows ==> #[trigger] value@[t]@.len() == cols,
                    i < rows,
                    j <= cols,
                    row@ == value@[i as int]@,
                    data@.len() == i * cols + j,
                    forall|i2: int, j2: int|
                        0 <= i2 < i && 0 <= j2 < cols ==> #[trigger] data@[i2 * cols + j2]
                            == value@[i2]@[j2],
                    forall|j2: int|
                        0 <= j2 < j ==> #[trigger] data@[i * cols + j2] == value@[i as int]@[j2],
                decreases cols - j,
            {
                data.push(row[j]);
                j = j + 1;
                proof {
                    assert forall|i2: int, j2: int|
                        0 <= i2 < i && 0 <= j2 < cols implies #[trigger] data@[i2 * cols + j2]
                        == value@[i2]@[j2] by {
                        lemma_flat_index_in_range(i2, j2, i as int, cols as int);
                    }
                }
            }
            proof {
                assert(data@.len() == i * cols + cols == (i + 1) * cols) by (nonlinear_arith)
                    requires
                        data@.len() == i * cols + cols,
                ;
                assert forall|i2: int, j2: int|
                    0 <= i2 < i + 1 && 0 <= j2 < cols implies #[trigger] data@[i2 * cols + j2]
                    == value@[i2]@[j2] by {
                    lemma_flat_index_in_range(i2, j2, i + 1, cols as int);
                }
            }
            i = i + 1;
        }
        let m = Matrix { data, rows, cols };
        proof {
            lemma_deep_view_rows(&value);
            assert forall|i: int, j: int|
                0 <= i < rows && 0 <= j < cols implies #[trigger] m.spec_at(i, j)
                == value.deep_view()[i][j] by {
                lemma_flat_index_in_range(i, j, rows as int, cols as int);
            }
        }
        Ok(m)
    }

    /// Elementwise sum: the result holds, at every position, the sum of the
    /// two operands' elements at that position.  Both operands must share a
    /// shape, and every pairwise sum must stay within `i64`.
    pub fn add(self, other: Matrix) -> (r: Matrix)
        requires
            self.wf(),
            other.wf(),
            self.spec_rows() == other.spec_rows(),
            self.spec_cols() == other.spec_cols(),
            sums_fit(self.spec_data(), other.spec_data()),
        ensures
            r.wf(),
            r.spec_rows() == self.spec_rows(),
            r.spec_cols() == self.spec_cols(),
            forall|k: int|
                0 <= k < self.spec_data().len() ==> #[trigger] r.spec_data()[k]
                    == self.spec_data()[k] + other.spec_data()[k],
            forall|i: int, j: int|
                0 <= i < self.spec_rows() && 0 <= j < self.spec_cols() ==> #[trigger] r.spec_at(
                    i,
                    j,
                ) == self.spec_at(i, j) + other.spec_at(i, j),
    {
        let n: usize = self.data.len();
        let mut data: Vec<i64> = Vec::new();
        let mut k: usize = 0;
        while k < n
            invariant
                n == self.spec_data().len(),
                other.spec_data().len() == n,
                sums_fit(self.spec_data(), other.spec_data()),
                k <= n,
                data@.len() == k,
                forall|t: int|
                    0 <= t < k ==> #[trigger] data@[t] == self.spec_data()[t]
                        + other.spec_data()[t],
            decreases n - k,
        {
            let s = self.data[k] + other.data[k];
            data.push(s);
            k = k + 1;
        }
        let r = Matrix { data, rows: self.rows, cols: self.cols };
        proof {
            assert forall|i: int, j: int|
                0 <= i < self.spec_rows() && 0 <= j < self.spec_cols() implies #[trigger] r.spec_at(
                i,
                j,
            ) == self.spec_at(i, j) + other.spec_at(i, j) by {
                lemma_flat_index_in_range(i, j, self.spec_rows(), self.spec_cols());
            }
        }
        r
    }
}

/// The sum of the first `k` terms of the dot product of row `i` of `a` with
/// column `j` of `b`: the partial sum after accumulating
/// `a(i, 0)·b(0, j), …, a(i, k-1)·b(k-1, j)` in that order.
pub open spec fn spec_dot_prefix(a: Matrix, b: Matrix, i: int, j: int, k: int) -> int
    decreases k,
{
    if k <= 0 {
        0
    } else {
        spec_dot_prefix(a, b, i, j, k - 1) + a.spec_at(i, k - 1) * b.spec_at(k - 1, j)
    }
}

/// The full dot product of row `i` of `a` with column `j` of `b`:
/// the sum over `t` in `[0, a.cols)` of `a(i, t)·b(t, j)`.
pub open spec fn spec_dot(a: Matrix, b: Matrix, i: int, j: int) -> int {
    spec_dot_prefix(a, b, i, j, a.spec_cols())
}

/// Every single product `a(i, k)·b(k, j)` taken by the multiplication stays
/// within `i64`.
pub open spec fn products_fit(a: Matrix, b: Matrix) -> bool {
    forall|i: int, k: int, j: int|
        #![trigger a.spec_at(i, k), b.spec_at(k, j)]
        0 <= i < a.spec_rows() && 0 <= k < a.spec_cols() && 0 <= j < b.spec_cols() ==> i64::MIN
            <= a.spec_at(i, k) * b.spec_at(k, j) <= i64::MAX
}

/// Every partial sum of every dot product taken by the multiplication stays
/// within `i64`.
pub open spec fn prefixes_fit(a: Matrix, b: Matrix) -> bool {
    forall|i: int, j: int, k: int|
        0 <= i < a.spec_rows() && 0 <= j < b.spec_cols() && 0 <= k <= a.spec_cols() ==> i64::MIN
            <= #[trigger] spec_dot_prefix(a, b, i, j, k) <= i64::MAX
}

impl Matrix {
    /// Matrix product: a `self.rows` by `other.cols` matrix whose cell
    /// `(i, j)` is the dot product of row `i` of `self` with column `j` of
    /// `other`.
    ///
    /// The shared dimension is the outermost accumulation loop, so for each
    /// cell the products are added in increasing order of the shared index;
    /// over `i64` the accumulated value is the plain sum.  Every intermediate
    /// product and partial sum must stay within `i64`.
    pub fn mul(self, other: Matrix) -> (r: Matrix)
        requires
            self.wf(),
            other.wf(),
            self.spec_cols() == other.spec_rows(),
            self.spec_rows() * other.spec_cols() <= usize::MAX,
            products_fit(self, other),
            prefixes_fit(self, other),
        ensures
            r.wf(),
            r.spec_rows() == self.spec_rows(),
            r.spec_cols() == other.spec_cols(),
            forall|i: int, j: int|
                0 <= i < self.spec_rows() && 0 <= j < other.spec_cols() ==> #[trigger] r.spec_at(
                    i,
                    j,
                ) == spec_dot(self, other, i, j),
    {
        let rows = self.rows;
        let inner = self.cols;
        let ocols = other.cols;
        let mut res = Matrix::new(rows, ocols);
        let mut k: usize = 0;
        while k < inner
            invariant
                rows == self.spec_rows(),
                inner == self.spec_cols(),
                ocols == other.spec_cols(),
                self.wf(),
                other.wf(),
                self.spec_cols() == other.spec_rows(),
                products_fit(self, other),
                prefixes_fit(self, other),
                res.wf(),
                res.spec_rows() == rows,
                res.spec_cols() == ocols,
                k <= inner,
                forall|i2: int, j2: int|
                    0 <= i2 < rows && 0 <= j2 < ocols ==> #[trigger] res.spec_at(i2, j2)
                        == spec_dot_prefix(self, other, i2, j2, k as int),
            decreases inner - k,
        {
            let mut i: usize = 0;
            while i < rows
                invariant
                    rows == self.spec_rows(),
                    inner == self.spec_cols(),
                    ocols == other.spec_cols(),
                    self.wf(),
                    other.wf(),
                    self.spec_cols() == other.spec_rows(),
                    products_fit(self, other),
                    prefixes_fit(self, other),
                    res.wf(),
                    res.spec_rows() == rows,
                    res.spec_cols() == ocols,
                    k < inner,
                    i <= rows,
                    forall|i2: int, j2: int|
                        0 <= i2 < i && 0 <= j2 < ocols ==> #[trigger] res.spec_at(i2, j2)
                            == spec_dot_prefix(self, other, i2, j2, k + 1),
                    forall|i2: int, j2: int|
                        i <= i2 < rows && 0 <= j2 < ocols ==> #[trigger] res.spec_at(i2, j2)
                            == spec_dot_prefix(self, other, i2, j2, k as int),
                decreases rows - i,
            {
                let mut j: usize = 0;
                while j < ocols
                    invariant
                        rows == self.spec_rows(),
                        inner == self.spec_cols(),
                        ocols == other.spec_cols(),
                        self.wf(),
                        other.wf(),
                        self.spec_cols() == other.spec_rows(),
                        products_fit(self, other),
                        prefixes_fit(self, other),
                        res.wf(),
                        res.spec_rows() == rows,
                        res.spec_cols() == ocols,
                        k < inner,
                        i < rows,
                        j <= ocols,
                        forall|i2: int, j2: int|
                            0 <= i2 < i && 0 <= j2 < ocols ==> #[trigger] res.spec_at(i2, j2)
                                == spec_dot_prefix(self, other, i2, j2, k + 1),
                        forall|j2: int|
                            0 <= j2 < j ==> #[trigger] res.spec_at(i as int, j2)
                                == spec_dot_prefix(self, other, i as int, j2, k + 1),
                        forall|j2: int|
                            j <= j2 < ocols ==> #[trigger] res.spec_at(i as int, j2)
                                == spec_dot_prefix(self, other, i as int, j2, k as int),
                        forall|i2: int, j2: int|
                            i < i2 < rows && 0 <= j2 < ocols ==> #[trigger] res.spec_at(i2, j2)
                                == spec_dot_prefix(self, other, i2, j2, k as int),
                    decreases ocols - j,
                {
                    proof {
                        assert(i64::MIN <= self.spec_at(i as int, k as int) * other.spec_at(
                            k as int,
                            j as int,
                        ) <= i64::MAX);
                        assert(i64::MIN <= spec_dot_prefix(
                            self,
                            other,
                            i as int,
                            j as int,
                            k as int,
                        ) <= i64::MAX);
                        assert(i64::MIN <= spec_dot_prefix(
                            self,
                            other,
                            i as int,
                            j as int,
                            k + 1,
                        ) <= i64::MAX);
                    }
                    let p = self.get(i, k) * other.get(k, j);
                    let cur = res.get(i, j);
                    res.set(i, j, cur + p);
                    j = j + 1;
                }
                i = i + 1;
            }
            k = k + 1;
        }
        res
    }
}

impl PartialEq for Matrix {
    fn eq(&self, other: &Matrix) -> (r: bool) {
        if self.rows != other.rows || self.cols != other.cols {
            return false;
        }
        if self.data.len() != other.data.len() {
            return false;
        }
        let n: usize = self.data.len();
        let mut t: usize = 0;
        while t < n
            invariant
                n == self.spec_data().len(),
                other.spec_data().len() == n,
                t <= n,
                forall|u: int| 0 <= u < t ==> #[trigger] self.spec_data()[u]
                    == other.spec_data()[u],
            decreases n - t,
        {
            if self.data[t] != other.data[t] {
                return false;
            }
            t = t + 1;
        }
        proof {
            assert(self.spec_data() =~= other.spec_data());
        }
        true
    }
}

impl Eq for Matrix {

}

impl vstd::std_specs::cmp::PartialEqSpecImpl for Matrix {
    open spec fn obeys_eq_spec() -> bool {
        true
    }

    /// Two matrices are equal exactly when their row counts, column counts
    /// and full element sequences agree.
    open spec fn eq_spec(&self, other: &Matrix) -> bool {
        self.spec_rows() == other.spec_rows() && self.spec_cols() == other.spec_cols()
            && self.spec_data() == other.spec_data()
    }
}

/// Law: construction from nested rows is deterministic.  Any two matrices
/// that satisfy the construction contract for the same nested rows `v` are
/// equal, so building twice from identical input compares equal.
pub proof fn lemma_construction_deterministic(v: Seq<Seq<i64>>, m1: Matrix, m2: Matrix)
    requires
        m1.wf(),
        m1.spec_rows() == v.len(),
        m1.spec_cols() == v[0].len(),
        forall|i: int, j: int|
            0 <= i < v.len() && 0 <= j < v[0].len() ==> #[trigger] m1.spec_at(i, j) == v[i][j],
        m2.wf(),
        m2.spec_rows() == v.len(),
        m2.spec_cols() == v[0].len(),
        forall|i: int, j: int|
            0 <= i < v.len() && 0 <= j < v[0].len() ==> #[trigger] m2.spec_at(i, j) == v[i][j],
    ensures
        m1.eq_spec(&m2),
{
    lemma_eq_of_pointwise(m1, m2);
}

/// Law: matrices that share a shape and agree cell for cell are equal.
pub proof fn lemma_eq_of_pointwise(a: Matrix, b: Matrix)
    requires
        a.wf(),
        b.wf(),
        a.spec_rows() == b.spec_rows(),
        a.spec_cols() == b.spec_cols(),
        forall|i: int, j: int|
            0 <= i < a.spec_rows() && 0 <= j < a.spec_cols() ==> #[trigger] a.spec_at(i, j)
                == b.spec_at(i, j),
    ensures
        a.eq_spec(&b),
{
    assert forall|k: int| 0 <= k < a.spec_data().len() implies #[trigger] a.spec_data()[k]
        == b.spec_data()[k] by {
        lemma_flat_index_decompose(k, a.spec_rows(), a.spec_cols());
        let i = k / a.spec_cols();
        let j = k % a.spec_cols();
        assert(a.spec_at(i, j) == b.spec_at(i, j));
    }
    assert(a.spec_data() =~= b.spec_data());
}

/// Law: changing a single cell breaks equality.  Matrices of one shape that
/// differ at some position are unequal.
pub proof fn lemma_single_change_breaks_eq(a: Matrix, b: Matrix, i: int, j: int)
    requires
        a.wf(),
        b.wf(),
        a.spec_rows() == b.spec_rows(),
        a.spec_cols() == b.spec_cols(),
        0 <= i < a.spec_rows(),
        0 <= j < a.spec_cols(),
        a.spec_at(i, j) != b.spec_at(i, j),
    ensures
        !a.eq_spec(&b),
{
    lemma_flat_index_in_range(i, j, a.spec_rows(), a.spec_cols());
}

/// Law: addition is commutative.  Any matrix meeting `add`'s contract for
/// the operands `(a, b)` equals any matrix meeting it for `(b, a)`.
pub proof fn lemma_add_comm(a: Matrix, b: Matrix, ab: Matrix, ba: Matrix)
    requires
        a.wf(),
        b.wf(),
        a.spec_rows() == b.spec_rows(),
        a.spec_cols() == b.spec_cols(),
        ab.wf(),
        ab.spec_rows() == a.spec_rows(),
        ab.spec_cols() == a.spec_cols(),
        forall|k: int|
            0 <= k < a.spec_data().len() ==> #[trigger] ab.spec_data()[k] == a.spec_data()[k]
                + b.spec_data()[k],
        ba.wf(),
        ba.spec_rows() == b.spec_rows(),
        ba.spec_cols() == b.spec_cols(),
        forall|k: int|
            0 <= k < b.spec_data().len() ==> #[trigger] ba.spec_data()[k] == b.spec_data()[k]
                + a.spec_data()[k],
    ensures
        ab.eq_spec(&ba),
{
    assert(ab.spec_data() =~= ba.spec_data());
}

/// Law: a zero-filled matrix is the identity of addition.  Any matrix
/// meeting `add`'s contract for an operand `a` and an all-zero matrix of the
/// same shape equals `a`.
pub proof fn lemma_add_zero(a: Matrix, z: Matrix, az: Matrix)
    requires
        a.wf(),
        z.wf(),
        a.spec_rows() == z.spec_rows(),
        a.spec_cols() == z.spec_cols(),
        forall|k: int| 0 <= k < z.spec_data().len() ==> #[trigger] z.spec_data()[k] == 0i64,
        az.wf(),
        az.spec_rows() == a.spec_rows(),
        az.spec_cols() == a.spec_cols(),
        forall|k: int|
            0 <= k < a.spec_data().len() ==> #[trigger] az.spec_data()[k] == a.spec_data()[k]
                + z.spec_data()[k],
    ensures
        az.eq_spec(&a),
{
    assert(az.spec_data() =~= a.spec_data());
}

/// A flat offset into a well-formed backing store decomposes uniquely into a
/// row index and a column index.
proof fn lemma_flat_index_decompose(k: int, rows: int, cols: int)
    requires
        0 <= k < rows * cols,
        0 <= rows,
        0 <= cols,
    ensures
        cols > 0,
        0 <= k / cols < rows,
        0 <= k % cols < cols,
        k == (k / cols) * cols + (k % cols),
{
    assert(cols > 0) by (nonlinear_arith)
        requires
            0 <= k < rows * cols,
            0 <= cols,
    ;
    vstd::arithmetic::div_mod::lemma_fundamental_div_mod(k, cols);
    vstd::arithmetic::div_mod::lemma_mod_pos_bound(k, cols);
    vstd::arithmetic::div_mod::lemma_div_pos_is_pos(k, cols);
    assert(cols * (k / cols) == (k / cols) * cols) by (nonlinear_arith);
    assert(k / cols < rows) by (nonlinear_arith)
        requires
            k < rows * cols,
            cols > 0,
            0 <= k % cols < cols,
            k == cols * (k / cols) + (k % cols),
    ;
}

/// The deep view of nested rows is, row by row, the view of each inner vector.
proof fn lemma_deep_view_rows(v: &Vec<Vec<i64>>)
    ensures
        v.deep_view().len() == v@.len(),
        forall|i: int| 0 <= i < v@.len() ==> #[trigger] v.deep_view()[i] == v@[i]@,
{
    assert forall|i: int| 0 <= i < v@.len() implies #[trigger] v.deep_view()[i] == v@[i]@ by {
        assert(v.deep_view()[i] =~= v@[i]@);
    }
}

/// A valid position's flat offset lies inside the backing store.
proof fn lemma_flat_index_in_range(i: int, j: int, rows: int, cols: int)
    requires
        0 <= i < rows,
        0 <= j < cols,
    ensures
        0 <= i * cols + j < rows * cols,
{
    assert(i * cols + j < rows * cols) by (nonlinear_arith)
        requires
            0 <= i < rows,
            0 <= j < cols,
    ;
    assert(0 <= i * cols) by (nonlinear_arith)
        requires
            0 <= i,
            0 <= cols,
    ;
}

/// Distinct positions have distinct flat offsets.
proof fn lemma_flat_index_injective(i1: int, j1: int, i2: int, j2: int, cols: int)
    requires
        0 <= i1,
        0 <= i2,
        0 <= j1 < cols,
        0 <= j2 < cols,
    ensures
        i1 * cols + j1 == i2 * cols + j2 ==> i1 == i2 && j1 == j2,
{
    assert(i1 * cols + j1 == i2 * cols + j2 ==> i1 == i2 && j1 == j2) by (nonlinear_arith)
        requires
            0 <= i1,
            0 <= i2,
            0 <= j1 < cols,
            0 <= j2 < cols,
    ;
}

} // verus!
