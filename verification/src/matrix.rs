//! Sparse matrices in compressed-column form, composed block by block.

use crate::scalar::Scalar;
use vstd::prelude::*;

verus! {

/// What a sparse matrix is: its height and, for each column, the stored
/// entries from top to bottom, each a row index with its coefficient.
pub struct MatrixView {
    pub rows: nat,
    pub columns: Seq<Seq<(int, Scalar)>>,
}

/// A column with every row index moved down by `by`.
pub open spec fn shift_column(column: Seq<(int, Scalar)>, by: int) -> Seq<(int, Scalar)> {
    Seq::new(column.len(), |t: int| (column[t].0 + by, column[t].1))
}

/// A column with the sign of every coefficient flipped.
pub open spec fn negate_column(column: Seq<(int, Scalar)>) -> Seq<(int, Scalar)> {
    Seq::new(column.len(), |t: int| (column[t].0, column[t].1.neg()))
}

/// A vector with the sign of every coefficient flipped.
pub open spec fn negate_seq(values: Seq<Scalar>) -> Seq<Scalar> {
    Seq::new(values.len(), |t: int| values[t].neg())
}

/// The column of a one-row matrix that holds `value`: empty where it is zero.
pub open spec fn row_cell(value: Scalar) -> Seq<(int, Scalar)> {
    if value.is_zero() {
        Seq::empty()
    } else {
        seq![(0int, value)]
    }
}

impl MatrixView {
    /// Every stored row index lies inside the matrix, and each column lists
    /// its entries by strictly increasing row.
    pub open spec fn wf(self) -> bool {
        &&& forall|j: int, t: int|
            0 <= j < self.columns.len() && 0 <= t < self.columns[j].len() ==> 0 <= (
            #[trigger] self.columns[j][t]).0 < self.rows
        &&& forall|j: int, t: int, u: int|
            0 <= j < self.columns.len() && 0 <= t < u < self.columns[j].len() ==> (
            #[trigger] self.columns[j][t]).0 < (#[trigger] self.columns[j][u]).0
    }

    /// The matrix of the given shape that stores nothing.
    pub open spec fn zeros(rows: nat, columns: nat) -> MatrixView {
        MatrixView { rows, columns: Seq::new(columns, |j: int| Seq::empty()) }
    }

    /// `self` with the columns of `right` placed after its own.
    pub open spec fn hcat(self, right: MatrixView) -> MatrixView {
        MatrixView { rows: self.rows, columns: self.columns + right.columns }
    }

    /// `self` with the rows of `bottom` placed below its own.
    pub open spec fn vcat(self, bottom: MatrixView) -> MatrixView {
        MatrixView {
            rows: self.rows + bottom.rows,
            columns: Seq::new(
                self.columns.len(),
                |j: int| self.columns[j] + shift_column(bottom.columns[j], self.rows as int),
            ),
        }
    }

    /// Same shape and stored positions, every coefficient with its sign flipped.
    pub open spec fn negate(self) -> MatrixView {
        MatrixView {
            rows: self.rows,
            columns: Seq::new(self.columns.len(), |j: int| negate_column(self.columns[j])),
        }
    }

    /// The one-row matrix of the given coefficients, zeros left out.
    pub open spec fn from_row(values: Seq<Scalar>) -> MatrixView {
        MatrixView { rows: 1, columns: Seq::new(values.len(), |j: int| row_cell(values[j])) }
    }
}

/// A matrix that stores nothing is well formed.
pub proof fn lemma_zeros_wf(rows: nat, columns: nat)
    ensures
        MatrixView::zeros(rows, columns).wf(),
{
}

/// Placing well-formed matrices of one height side by side gives a
/// well-formed matrix.
pub proof fn lemma_hcat_wf(left: MatrixView, right: MatrixView)
    requires
        left.wf(),
        right.wf(),
        left.rows == right.rows,
    ensures
        left.hcat(right).wf(),
{
    let m = left.hcat(right);
    assert forall|j: int, t: int| 0 <= j < m.columns.len() && 0 <= t < m.columns[j].len() implies 0
        <= (#[trigger] m.columns[j][t]).0 < m.rows by {
        if j < left.columns.len() {
            assert(m.columns[j] == left.columns[j]);
        } else {
            assert(m.columns[j] == right.columns[j - left.columns.len()]);
        }
    }
    assert forall|j: int, t: int, u: int|
        0 <= j < m.columns.len() && 0 <= t < u < m.columns[j].len() implies (
    #[trigger] m.columns[j][t]).0 < (#[trigger] m.columns[j][u]).0 by {
        if j < left.columns.len() {
            assert(m.columns[j] == left.columns[j]);
        } else {
            assert(m.columns[j] == right.columns[j - left.columns.len()]);
        }
    }
}

/// Stacking well-formed matrices of one width gives a well-formed matrix.
pub proof fn lemma_vcat_wf(top: MatrixView, bottom: MatrixView)
    requires
        top.wf(),
        bottom.wf(),
        top.columns.len() == bottom.columns.len(),
    ensures
        top.vcat(bottom).wf(),
{
    let m = top.vcat(bottom);
    let d = top.rows as int;
    assert forall|j: int, t: int| 0 <= j < m.columns.len() && 0 <= t < m.columns[j].len() implies 0
        <= (#[trigger] m.columns[j][t]).0 < m.rows by {
        let a = top.columns[j];
        let b = bottom.columns[j];
        if t < a.len() {
            assert(m.columns[j][t] == a[t]);
        } else {
            assert(m.columns[j][t] == shift_column(b, d)[t - a.len()]);
            assert(0 <= b[t - a.len()].0 < bottom.rows);
        }
    }
    assert forall|j: int, t: int, u: int|
        0 <= j < m.columns.len() && 0 <= t < u < m.columns[j].len() implies (
    #[trigger] m.columns[j][t]).0 < (#[trigger] m.columns[j][u]).0 by {
        let a = top.columns[j];
        let b = bottom.columns[j];
        if u < a.len() {
            assert(m.columns[j][t] == a[t]);
            assert(m.columns[j][u] == a[u]);
        } else if t < a.len() {
            assert(m.columns[j][t] == a[t]);
            assert(m.columns[j][u] == shift_column(b, d)[u - a.len()]);
            assert(0 <= a[t].0 < top.rows);
            assert(0 <= b[u - a.len()].0);
        } else {
            assert(m.columns[j][t] == shift_column(b, d)[t - a.len()]);
            assert(m.columns[j][u] == shift_column(b, d)[u - a.len()]);
            assert(b[t - a.len()].0 < b[u - a.len()].0);
        }
    }
}

/// Flipping signs keeps a matrix well formed.
pub proof fn lemma_negate_wf(m: MatrixView)
    requires
        m.wf(),
    ensures
        m.negate().wf(),
{
    let n = m.negate();
    assert forall|j: int, t: int| 0 <= j < n.columns.len() && 0 <= t < n.columns[j].len() implies 0
        <= (#[trigger] n.columns[j][t]).0 < n.rows by {
        assert(n.columns[j][t].0 == m.columns[j][t].0);
    }
    assert forall|j: int, t: int, u: int|
        0 <= j < n.columns.len() && 0 <= t < u < n.columns[j].len() implies (
    #[trigger] n.columns[j][t]).0 < (#[trigger] n.columns[j][u]).0 by {
        assert(n.columns[j][t].0 == m.columns[j][t].0);
        assert(n.columns[j][u].0 == m.columns[j][u].0);
    }
}

/// A one-row matrix is well formed.
pub proof fn lemma_from_row_wf(values: Seq<Scalar>)
    ensures
        MatrixView::from_row(values).wf(),
{
}

/// A sparse matrix of coefficients in compressed-column form.
///
/// Column `j` owns the stored entries `colptr[j] .. colptr[j + 1]`, whose rows
/// are in `rowval` and whose coefficients are in `nzval`.
pub struct SparseBlockMatrix {
    pub rows: usize,
    pub columns: usize,
    pub colptr: Vec<usize>,
    pub rowval: Vec<usize>,
    pub nzval: Vec<Scalar>,
}

/// The entries that the three arrays give to column `j`.
pub open spec fn csc_column(
    colptr: Seq<usize>,
    rowval: Seq<usize>,
    nzval: Seq<Scalar>,
    j: int,
) -> Seq<(int, Scalar)> {
    Seq::new(
        (colptr[j + 1] - colptr[j]) as nat,
        |t: int| (rowval[colptr[j] + t] as int, nzval[colptr[j] + t]),
    )
}

/// The arrays hold the first `n` columns of `target`, and nothing more.
pub open spec fn holds_columns(
    colptr: Seq<usize>,
    rowval: Seq<usize>,
    nzval: Seq<Scalar>,
    target: MatrixView,
    n: int,
) -> bool {
    &&& 0 <= n <= target.columns.len()
    &&& colptr.len() == n + 1
    &&& colptr[0] == 0
    &&& colptr[n] == rowval.len()
    &&& rowval.len() == nzval.len()
    &&& forall|c: int|
        0 <= c < n ==> (#[trigger] colptr[c]) <= colptr[c + 1] <= rowval.len() && colptr[c + 1]
            - colptr[c] == target.columns[c].len()
    &&& forall|c: int, t: int|
        0 <= c < n && 0 <= t < target.columns[c].len() ==> rowval[colptr[c] + t] == (
        #[trigger] target.columns[c][t]).0 && nzval[colptr[c] + t] == target.columns[c][t].1
    &&& forall|k: int| 0 <= k < rowval.len() ==> (#[trigger] rowval[k]) < target.rows
}

/// Appending the entries of column `n` and closing it extends what the
/// arrays hold by one column.
proof fn lemma_holds_next(
    colptr: Seq<usize>,
    rowval: Seq<usize>,
    nzval: Seq<Scalar>,
    target: MatrixView,
    n: int,
    colptr2: Seq<usize>,
    rowval2: Seq<usize>,
    nzval2: Seq<Scalar>,
)
    requires
        holds_columns(colptr, rowval, nzval, target, n),
        target.wf(),
        n < target.columns.len(),
        rowval2.len() == rowval.len() + target.columns[n].len(),
        nzval2.len() == rowval2.len(),
        rowval2.len() <= usize::MAX,
        colptr2 == colptr.push(rowval2.len() as usize),
        forall|i: int|
            0 <= i < rowval.len() ==> #[trigger] rowval2[i] == rowval[i] && nzval2[i] == nzval[i],
        forall|t: int|
            0 <= t < target.columns[n].len() ==> rowval2[rowval.len() + t] == (
            #[trigger] target.columns[n][t]).0 && nzval2[rowval.len() + t]
                == target.columns[n][t].1,
    ensures
        holds_columns(colptr2, rowval2, nzval2, target, n + 1),
{
    assert forall|c: int| 0 <= c < n + 1 implies (#[trigger] colptr2[c]) <= colptr2[c + 1]
        <= rowval2.len() && colptr2[c + 1] - colptr2[c] == target.columns[c].len() by {
        if c < n {
            assert(colptr2[c] == colptr[c]);
            assert(colptr2[c + 1] == colptr[c + 1]);
        } else {
            assert(colptr2[c] == colptr[n]);
        }
    }
    assert forall|c: int, t: int|
        0 <= c < n + 1 && 0 <= t < target.columns[c].len() implies rowval2[colptr2[c] + t] == (
    #[trigger] target.columns[c][t]).0 && nzval2[colptr2[c] + t] == target.columns[c][t].1 by {
        if c < n {
            assert(colptr2[c] == colptr[c]);
            assert(colptr[c] <= colptr[c + 1] <= rowval.len());
            assert(colptr[c + 1] - colptr[c] == target.columns[c].len());
            let i = colptr[c] + t;
            assert(0 <= i < rowval.len());
            assert(rowval[i] == target.columns[c][t].0 && nzval[i] == target.columns[c][t].1);
            assert(rowval2[i] == rowval[i] && nzval2[i] == nzval[i]);
        } else {
            assert(colptr2[c] == rowval.len());
        }
    }
    assert forall|k: int| 0 <= k < rowval2.len() implies (#[trigger] rowval2[k]) < target.rows by {
        if k < rowval.len() {
            assert(rowval2[k] == rowval[k]);
        } else {
            let t = k - rowval.len();
            assert(rowval2[rowval.len() + t] == target.columns[n][t].0);
        }
    }
}

impl View for SparseBlockMatrix {
    type V = MatrixView;

    open spec fn view(&self) -> MatrixView {
        MatrixView {
            rows: self.rows as nat,
            columns: Seq::new(
                self.columns as nat,
                |j: int| csc_column(self.colptr@, self.rowval@, self.nzval@, j),
            ),
        }
    }
}

impl SparseBlockMatrix {
    /// The column pointers start at zero, never decrease and end at the
    /// number of stored entries; every stored row lies inside the matrix.
    pub open spec fn layout_wf(&self) -> bool {
        &&& self.colptr@.len() == self.columns + 1
        &&& self.colptr@[0] == 0
        &&& self.colptr@[self.columns as int] == self.rowval@.len()
        &&& self.rowval@.len() == self.nzval@.len()
        &&& forall|j: int|
            0 <= j < self.columns ==> (#[trigger] self.colptr@[j]) <= self.colptr@[j + 1]
                <= self.rowval@.len()
        &&& forall|k: int| 0 <= k < self.rowval@.len() ==> (#[trigger] self.rowval@[k]) < self.rows
    }

    /// The layout is sound and each column lists its entries by strictly
    /// increasing row.
    pub open spec fn wf(&self) -> bool {
        &&& self.layout_wf()
        &&& self@.wf()
    }

    /// Arrays that hold every column of `target` make a well-formed matrix
    /// whose view is `target`.
    proof fn lemma_holds_all(&self, target: MatrixView)
        requires
            holds_columns(
                self.colptr@,
                self.rowval@,
                self.nzval@,
                target,
                target.columns.len() as int,
            ),
            target.wf(),
            self.rows == target.rows,
            self.columns == target.columns.len(),
        ensures
            self.wf(),
            self@ == target,
    {
        let colptr = self.colptr@;
        assert forall|j: int| 0 <= j < self.columns implies (#[trigger] self@.columns[j])
            =~= target.columns[j] by {
            assert(colptr[j] <= colptr[j + 1]);
            let col = csc_column(colptr, self.rowval@, self.nzval@, j);
            assert forall|t: int| 0 <= t < col.len() implies col[t] == target.columns[j][t] by {
                assert(self.rowval@[colptr[j] + t] == target.columns[j][t].0);
            }
        }
        assert(self@.columns =~= target.columns);
    }

    /// The all-zero matrix of the given shape.
    pub fn zeros(rows: usize, columns: usize) -> (m: SparseBlockMatrix)
        requires
            columns < usize::MAX,
        ensures
            m.wf(),
            m@ == MatrixView::zeros(rows as nat, columns as nat),
            m.rows == rows,
            m.columns == columns,
    {
        let ghost target = MatrixView::zeros(rows as nat, columns as nat);
        let mut colptr: Vec<usize> = Vec::new();
        let rowval: Vec<usize> = Vec::new();
        let nzval: Vec<Scalar> = Vec::new();
        colptr.push(0);
        let mut j: usize = 0;
        while j < columns
            invariant
                j <= columns,
                rowval@.len() == 0,
                nzval@.len() == 0,
                target == MatrixView::zeros(rows as nat, columns as nat),
                holds_columns(colptr@, rowval@, nzval@, target, j as int),
            decreases columns - j,
        {
            proof {
                lemma_zeros_wf(rows as nat, columns as nat);
                lemma_holds_next(
                    colptr@,
                    rowval@,
                    nzval@,
                    target,
                    j as int,
                    colptr@.push(0),
                    rowval@,
                    nzval@,
                );
            }
            colptr.push(0);
            j += 1;
        }
        let m = SparseBlockMatrix { rows, columns, colptr, rowval, nzval };
        proof {
            lemma_zeros_wf(rows as nat, columns as nat);
            m.lemma_holds_all(target);
        }
        m
    }

    /// Copies the entries of column `j` of `src` to the end of the two
    /// arrays, each row moved down by `shift`.
    fn append_column(
        rowval: &mut Vec<usize>,
        nzval: &mut Vec<Scalar>,
        src: &SparseBlockMatrix,
        j: usize,
        shift: usize,
    )
        requires
            src.wf(),
            j < src.columns,
            src.rows + shift <= usize::MAX,
            old(rowval)@.len() == old(nzval)@.len(),
        ensures
            final(rowval)@.len() == old(rowval)@.len() + src@.columns[j as int].len(),
            final(nzval)@.len() == final(rowval)@.len(),
            forall|i: int|
                0 <= i < old(rowval)@.len() ==> #[trigger] final(rowval)@[i] == old(rowval)@[i]
                    && final(nzval)@[i] == old(nzval)@[i],
            forall|t: int|
                0 <= t < src@.columns[j as int].len() ==> final(rowval)@[old(rowval)@.len() + t]
                    == (#[trigger] src@.columns[j as int][t]).0 + shift && final(nzval)@[old(
                    rowval,
                )@.len() + t] == src@.columns[j as int][t].1,
    {
        let ghost rowval0 = rowval@;
        let ghost nzval0 = nzval@;
        let ghost column = src@.columns[j as int];
        let start: usize = src.colptr[j];
        let end: usize = src.colptr[j + 1];
        assert(src.colptr@[j as int] <= src.colptr@[j + 1] <= src.rowval@.len());
        let mut k: usize = start;
        while k < end
            invariant
                src.wf(),
                j < src.columns,
                src.rows + shift <= usize::MAX,
                start == src.colptr@[j as int],
                end == src.colptr@[j + 1],
                start <= k <= end <= src.rowval@.len(),
                column == src@.columns[j as int],
                column.len() == end - start,
                rowval@.len() == rowval0.len() + (k - start),
                nzval@.len() == rowval@.len(),
                rowval0.len() == nzval0.len(),
                forall|i: int|
                    0 <= i < rowval0.len() ==> #[trigger] rowval@[i] == rowval0[i] && nzval@[i]
                        == nzval0[i],
                forall|t: int|
                    0 <= t < k - start ==> rowval@[rowval0.len() + t] == (#[trigger] column[t]).0
                        + shift && nzval@[rowval0.len() + t] == column[t].1,
            decreases end - k,
        {
            assert(src.rowval@[k as int] < src.rows);
            assert(column[k - start] == (src.rowval@[k as int] as int, src.nzval@[k as int]));
            rowval.push(src.rowval[k] + shift);
            nzval.push(src.nzval[k]);
            k += 1;
        }
    }

    /// `left` and `right` side by side: the columns of `left`, then those of
    /// `right`, rows unchanged.
    pub fn horizontal_concat(left: &SparseBlockMatrix, right: &SparseBlockMatrix) -> (m:
        SparseBlockMatrix)
        requires
            left.wf(),
            right.wf(),
            left.rows == right.rows,
            left.columns + right.columns < usize::MAX,
        ensures
            m.wf(),
            m@ == left@.hcat(right@),
            m.rows == left.rows,
            m.columns == left.columns + right.columns,
    {
        let ghost target = left@.hcat(right@);
        proof {
            lemma_hcat_wf(left@, right@);
        }
        let mut colptr: Vec<usize> = Vec::new();
        let mut rowval: Vec<usize> = Vec::new();
        let mut nzval: Vec<Scalar> = Vec::new();
        colptr.push(0);
        let mut j: usize = 0;
        while j < left.columns
            invariant
                left.wf(),
                right.wf(),
                left.rows == right.rows,
                left.columns + right.columns < usize::MAX,
                target == left@.hcat(right@),
                target.wf(),
                j <= left.columns,
                holds_columns(colptr@, rowval@, nzval@, target, j as int),
            decreases left.columns - j,
        {
            let ghost colptr0 = colptr@;
            let ghost rowval0 = rowval@;
            let ghost nzval0 = nzval@;
            Self::append_column(&mut rowval, &mut nzval, left, j, 0);
            colptr.push(rowval.len());
            proof {
                assert(target.columns[j as int] == left@.columns[j as int]);
                lemma_holds_next(
                    colptr0,
                    rowval0,
                    nzval0,
                    target,
                    j as int,
                    colptr@,
                    rowval@,
                    nzval@,
                );
            }
            j += 1;
        }
        let mut i: usize = 0;
        while i < right.columns
            invariant
                left.wf(),
                right.wf(),
                left.rows == right.rows,
                left.columns + right.columns < usize::MAX,
                target == left@.hcat(right@),
                target.wf(),
                i <= right.columns,
                holds_columns(colptr@, rowval@, nzval@, target, left.columns + i),
            decreases right.columns - i,
        {
            let ghost colptr0 = colptr@;
            let ghost rowval0 = rowval@;
            let ghost nzval0 = nzval@;
            Self::append_column(&mut rowval, &mut nzval, right, i, 0);
            colptr.push(rowval.len());
            proof {
                assert(target.columns[left.columns + i] == right@.columns[i as int]);
                lemma_holds_next(
                    colptr0,
                    rowval0,
                    nzval0,
                    target,
                    left.columns + i,
                    colptr@,
                    rowval@,
                    nzval@,
                );
            }
            i += 1;
        }
        let m = SparseBlockMatrix {
            rows: left.rows,
            columns: left.columns + right.columns,
            colptr,
            rowval,
            nzval,
        };
        proof {
            m.lemma_holds_all(target);
        }
        m
    }

    /// `top` above `bottom`: each column holds the entries of `top`, then
    /// those of `bottom` with their rows moved down by the height of `top`.
    pub fn vertical_concat(top: &SparseBlockMatrix, bottom: &SparseBlockMatrix) -> (m:
        SparseBlockMatrix)
        requires
            top.wf(),
            bottom.wf(),
            top.columns == bottom.columns,
            top.rows + bottom.rows <= usize::MAX,
        ensures
            m.wf(),
            m@ == top@.vcat(bottom@),
            m.rows == top.rows + bottom.rows,
            m.columns == top.columns,
    {
        let ghost target = top@.vcat(bottom@);
        proof {
            lemma_vcat_wf(top@, bottom@);
        }
        let mut colptr: Vec<usize> = Vec::new();
        let mut rowval: Vec<usize> = Vec::new();
        let mut nzval: Vec<Scalar> = Vec::new();
        colptr.push(0);
        let mut j: usize = 0;
        while j < top.columns
            invariant
                top.wf(),
                bottom.wf(),
                top.columns == bottom.columns,
                top.rows + bottom.rows <= usize::MAX,
                target == top@.vcat(bottom@),
                target.wf(),
                j <= top.columns,
                holds_columns(colptr@, rowval@, nzval@, target, j as int),
            decreases top.columns - j,
        {
            let ghost colptr0 = colptr@;
            let ghost rowval0 = rowval@;
            let ghost nzval0 = nzval@;
            Self::append_column(&mut rowval, &mut nzval, top, j, 0);
            let ghost rowval1 = rowval@;
            Self::append_column(&mut rowval, &mut nzval, bottom, j, top.rows);
            colptr.push(rowval.len());
            proof {
                let a = top@.columns[j as int];
                let b = bottom@.columns[j as int];
                let col = target.columns[j as int];
                assert(col == a + shift_column(b, top.rows as int));
                assert forall|t: int| 0 <= t < col.len() implies rowval@[rowval0.len() + t] == (
                #[trigger] col[t]).0 && nzval@[rowval0.len() + t] == col[t].1 by {
                    if t < a.len() {
                        assert(col[t] == a[t]);
                        assert(rowval1[rowval0.len() + t] == a[t].0 + 0);
                        assert(rowval@[rowval0.len() + t] == rowval1[rowval0.len() + t]);
                    } else {
                        let u = t - a.len();
                        assert(col[t] == shift_column(b, top.rows as int)[u]);
                        assert(rowval@[rowval1.len() + u] == b[u].0 + top.rows);
                    }
                }
                assert forall|i: int| 0 <= i < rowval0.len() implies #[trigger] rowval@[i]
                    == rowval0[i] && nzval@[i] == nzval0[i] by {
                    assert(rowval1[i] == rowval0[i]);
                    assert(rowval@[i] == rowval1[i]);
                }
                lemma_holds_next(
                    colptr0,
                    rowval0,
                    nzval0,
                    target,
                    j as int,
                    colptr@,
                    rowval@,
                    nzval@,
                );
            }
            j += 1;
        }
        let m = SparseBlockMatrix {
            rows: top.rows + bottom.rows,
            columns: top.columns,
            colptr,
            rowval,
            nzval,
        };
        proof {
            m.lemma_holds_all(target);
        }
        m
    }

    /// The one-row matrix of the given coefficients. Zeros, of either sign,
    /// are not stored.
    pub fn from_row(values: &[Scalar]) -> (m: SparseBlockMatrix)
        requires
            values@.len() < usize::MAX,
        ensures
            m.wf(),
            m@ == MatrixView::from_row(values@),
            m.rows == 1,
            m.columns == values@.len(),
    {
        let ghost target = MatrixView::from_row(values@);
        proof {
            lemma_from_row_wf(values@);
        }
        let mut colptr: Vec<usize> = Vec::new();
        let mut rowval: Vec<usize> = Vec::new();
        let mut nzval: Vec<Scalar> = Vec::new();
        colptr.push(0);
        let mut j: usize = 0;
        while j < values.len()
            invariant
                values@.len() < usize::MAX,
                target == MatrixView::from_row(values@),
                target.wf(),
                j <= values@.len(),
                holds_columns(colptr@, rowval@, nzval@, target, j as int),
            decreases values@.len() - j,
        {
            let ghost colptr0 = colptr@;
            let ghost rowval0 = rowval@;
            let ghost nzval0 = nzval@;
            let value: Scalar = values[j];
            if !value.is_zero() {
                rowval.push(0);
                nzval.push(value);
            }
            colptr.push(rowval.len());
            proof {
                assert(target.columns[j as int] == row_cell(values@[j as int]));
                lemma_holds_next(
                    colptr0,
                    rowval0,
                    nzval0,
                    target,
                    j as int,
                    colptr@,
                    rowval@,
                    nzval@,
                );
            }
            j += 1;
        }
        let m = SparseBlockMatrix { rows: 1, columns: values.len(), colptr, rowval, nzval };
        proof {
            m.lemma_holds_all(target);
        }
        m
    }

    /// The matrix of the same shape and stored positions with the sign of
    /// every coefficient flipped.
    pub fn negate(&self) -> (m: SparseBlockMatrix)
        requires
            self.wf(),
        ensures
            m.wf(),
            m@ == self@.negate(),
            m.rows == self.rows,
            m.columns == self.columns,
    {
        let ghost target = self@.negate();
        proof {
            lemma_negate_wf(self@);
        }
        let mut colptr: Vec<usize> = Vec::new();
        let mut rowval: Vec<usize> = Vec::new();
        let mut nzval: Vec<Scalar> = Vec::new();
        let mut j: usize = 0;
        while j < self.colptr.len()
            invariant
                j <= self.colptr@.len(),
                colptr@ == self.colptr@.take(j as int),
            decreases self.colptr@.len() - j,
        {
            colptr.push(self.colptr[j]);
            proof {
                assert(self.colptr@.take(j + 1) =~= self.colptr@.take(j as int).push(
                    self.colptr@[j as int],
                ));
            }
            j += 1;
        }
        let mut k: usize = 0;
        while k < self.rowval.len()
            invariant
                self.rowval@.len() == self.nzval@.len(),
                k <= self.rowval@.len(),
                rowval@ == self.rowval@.take(k as int),
                nzval@.len() == k,
                forall|i: int| 0 <= i < k ==> #[trigger] nzval@[i] == self.nzval@[i].neg(),
            decreases self.rowval@.len() - k,
        {
            rowval.push(self.rowval[k]);
            nzval.push(self.nzval[k].neg());
            proof {
                assert(self.rowval@.take(k + 1) =~= self.rowval@.take(k as int).push(
                    self.rowval@[k as int],
                ));
            }
            k += 1;
        }
        let m = SparseBlockMatrix { rows: self.rows, columns: self.columns, colptr, rowval, nzval };
        proof {
            assert(m.colptr@ =~= self.colptr@);
            assert(m.rowval@ =~= self.rowval@);
            assert forall|c: int| 0 <= c < m.columns implies (#[trigger] m@.columns[c])
                =~= target.columns[c] by {
                assert(self.colptr@[c] <= self.colptr@[c + 1] <= self.rowval@.len());
                assert(self@.columns[c] == csc_column(
                    self.colptr@,
                    self.rowval@,
                    self.nzval@,
                    c,
                ));
            }
            assert(m@.columns =~= target.columns);
        }
        m
    }

    /// A copy of the matrix.
    pub fn duplicate(&self) -> (m: SparseBlockMatrix)
        requires
            self.wf(),
        ensures
            m.wf(),
            m@ == self@,
            m.rows == self.rows,
            m.columns == self.columns,
    {
        let pointers: usize = self.colptr.len();
        assert(self.columns + 1 == pointers);
        let empty = SparseBlockMatrix::zeros(self.rows, 0);
        let m = SparseBlockMatrix::horizontal_concat(&empty, self);
        proof {
            lemma_hcat_zeros_left(self@);
        }
        m
    }
}

/// An empty block of the same height on the left changes nothing.
pub proof fn lemma_hcat_zeros_left(m: MatrixView)
    ensures
        MatrixView::zeros(m.rows, 0).hcat(m) == m,
{
    let z = MatrixView::zeros(m.rows, 0);
    assert(z.columns + m.columns =~= m.columns);
}

/// An empty block of the same height on the right changes nothing.
pub proof fn lemma_hcat_zeros_right(m: MatrixView)
    ensures
        m.hcat(MatrixView::zeros(m.rows, 0)) == m,
{
    let z = MatrixView::zeros(m.rows, 0);
    assert(m.columns + z.columns =~= m.columns);
}

/// An empty block of the same width on top changes nothing.
pub proof fn lemma_vcat_zeros_top(m: MatrixView)
    ensures
        MatrixView::zeros(0, m.columns.len()).vcat(m) == m,
{
    let z = MatrixView::zeros(0, m.columns.len());
    let r = z.vcat(m);
    assert forall|j: int| 0 <= j < m.columns.len() implies #[trigger] r.columns[j]
        =~= m.columns[j] by {
        assert(shift_column(m.columns[j], 0) =~= m.columns[j]);
    }
    assert(r.columns =~= m.columns);
}

/// An empty block of the same width below changes nothing.
pub proof fn lemma_vcat_zeros_bottom(m: MatrixView)
    ensures
        m.vcat(MatrixView::zeros(0, m.columns.len())) == m,
{
    let z = MatrixView::zeros(0, m.columns.len());
    let r = m.vcat(z);
    assert forall|j: int| 0 <= j < m.columns.len() implies #[trigger] r.columns[j]
        =~= m.columns[j] by {
        assert(shift_column(z.columns[j], m.rows as int) =~= Seq::<(int, Scalar)>::empty());
    }
    assert(r.columns =~= m.columns);
}

/// Side by side, the grouping of three blocks does not matter.
pub proof fn lemma_hcat_associative(a: MatrixView, b: MatrixView, c: MatrixView)
    ensures
        a.hcat(b).hcat(c) == a.hcat(b.hcat(c)),
{
    assert((a.columns + b.columns) + c.columns =~= a.columns + (b.columns + c.columns));
}

/// Stacked, the grouping of three blocks of one width does not matter.
pub proof fn lemma_vcat_associative(a: MatrixView, b: MatrixView, c: MatrixView)
    requires
        a.columns.len() == b.columns.len(),
        b.columns.len() == c.columns.len(),
    ensures
        a.vcat(b).vcat(c) == a.vcat(b.vcat(c)),
{
    let l = a.vcat(b).vcat(c);
    let r = a.vcat(b.vcat(c));
    let ar = a.rows as int;
    let br = b.rows as int;
    assert forall|j: int| 0 <= j < a.columns.len() implies #[trigger] l.columns[j]
        =~= r.columns[j] by {
        let aj = a.columns[j];
        let bj = b.columns[j];
        let cj = c.columns[j];
        let lj = l.columns[j];
        let rj = r.columns[j];
        assert(a.vcat(b).columns[j] == aj + shift_column(bj, ar));
        assert(b.vcat(c).columns[j] == bj + shift_column(cj, br));
        assert(lj == (aj + shift_column(bj, ar)) + shift_column(cj, ar + br));
        assert(rj == aj + shift_column(bj + shift_column(cj, br), ar));
        assert(lj.len() == rj.len());
        assert forall|t: int| 0 <= t < lj.len() implies lj[t] == rj[t] by {
            if t < aj.len() {
            } else if t < aj.len() + bj.len() {
                assert(rj[t] == shift_column(bj + shift_column(cj, br), ar)[t - aj.len()]);
            } else {
                let u = t - aj.len() - bj.len();
                assert(lj[t] == shift_column(cj, ar + br)[u]);
                assert(rj[t] == shift_column(bj + shift_column(cj, br), ar)[t - aj.len()]);
                assert((bj + shift_column(cj, br))[t - aj.len()] == shift_column(cj, br)[u]);
            }
        }
    }
    assert(l.columns =~= r.columns);
}

/// Flipping signs twice gives the matrix back.
pub proof fn lemma_negate_involution(m: MatrixView)
    ensures
        m.negate().negate() == m,
{
    let r = m.negate().negate();
    assert forall|j: int| 0 <= j < m.columns.len() implies #[trigger] r.columns[j]
        =~= m.columns[j] by {
        assert forall|t: int| 0 <= t < m.columns[j].len() implies r.columns[j][t]
            == m.columns[j][t] by {
            crate::scalar::lemma_neg_involution(m.columns[j][t].1);
        }
    }
    assert(r.columns =~= m.columns);
}

/// A matrix that stores nothing is its own negation.
pub proof fn lemma_negate_zeros(rows: nat, columns: nat)
    ensures
        MatrixView::zeros(rows, columns).negate() == MatrixView::zeros(rows, columns),
{
    let z = MatrixView::zeros(rows, columns);
    let r = z.negate();
    assert forall|j: int| 0 <= j < columns implies #[trigger] r.columns[j] =~= z.columns[j] by {}
    assert(r.columns =~= z.columns);
}

} // verus!
