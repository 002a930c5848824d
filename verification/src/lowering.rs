//! What the stored constraints mean, and why a `>=` constraint may be stored
//! as the `<=` constraint of its negation.
//!
//! Meaning is given in exact arithmetic, under a reading of the encodings as
//! real numbers.

use crate::cone::ConeTag;
use crate::matrix::{lemma_from_row_wf, negate_seq, row_cell, shift_column, MatrixView};
use crate::model::{chosen_vector, chosen_vector_negated, ModelView};
use crate::scalar::Scalar;
use vstd::prelude::*;

verus! {

/// The value of `row . x` in exact arithmetic, each coefficient read as the
/// number that `reading` gives to its encoding.
pub open spec fn dot(reading: spec_fn(Scalar) -> real, row: Seq<Scalar>, x: Seq<real>) -> real
    decreases row.len(),
{
    if row.len() == 0 {
        0real
    } else {
        dot(reading, row.drop_last(), x) + reading(row.last()) * x[row.len() - 1]
    }
}

/// Flipping the sign of an encoding negates the number it is read as.
pub open spec fn sign_symmetric(reading: spec_fn(Scalar) -> real) -> bool {
    forall|s: Scalar| #[trigger] reading(s.neg()) == 0real - reading(s)
}

/// Flipping the sign of every coefficient negates the product with `x`.
pub proof fn lemma_dot_negate(reading: spec_fn(Scalar) -> real, row: Seq<Scalar>, x: Seq<real>)
    requires
        sign_symmetric(reading),
    ensures
        dot(reading, negate_seq(row), x) == 0real - dot(reading, row, x),
    decreases row.len(),
{
    if row.len() > 0 {
        let a = reading(row.last());
        let b = x[row.len() - 1];
        assert(negate_seq(row).drop_last() =~= negate_seq(row.drop_last()));
        assert(negate_seq(row).last() == row.last().neg());
        lemma_dot_negate(reading, row.drop_last(), x);
        assert((0real - a) * b == 0real - a * b) by (nonlinear_arith);
    }
}

/// The linear objective that `maximize` stores for `q` takes at every point
/// the negated value of `q . x`: minimising it maximises `q . x`, and the
/// minimum found is the negated maximum.
pub proof fn lemma_maximize_negates_objective(
    reading: spec_fn(Scalar) -> real,
    q: &[Scalar],
    n: nat,
    x: Seq<real>,
)
    requires
        sign_symmetric(reading),
    ensures
        dot(reading, chosen_vector_negated(Some(q), n), x) == 0real - dot(
            reading,
            chosen_vector(Some(q), n),
            x,
        ),
{
    lemma_dot_negate(reading, q@, x);
}

/// The points that satisfy `(-row) . x <= -rhs`, the form in which
/// `add_constraint_geq` stores its constraint, are the points that satisfy
/// `row . x >= rhs`. This holds in exact arithmetic under every reading of
/// the encodings for which a flipped sign means the negated number.
pub proof fn lemma_geq_lowering(
    reading: spec_fn(Scalar) -> real,
    row: Seq<Scalar>,
    rhs: Scalar,
    x: Seq<real>,
)
    requires
        sign_symmetric(reading),
    ensures
        dot(reading, negate_seq(row), x) <= reading(rhs.neg()) <==> dot(reading, row, x)
            >= reading(rhs),
{
    lemma_dot_negate(reading, row, x);
}

/// Every encoding of zero is read as the number zero.
pub open spec fn reads_zero(reading: spec_fn(Scalar) -> real) -> bool {
    forall|s: Scalar| s.is_zero() ==> #[trigger] reading(s) == 0real
}

/// The number a column holds at `row`: the stored one, or zero.
pub open spec fn column_number(
    reading: spec_fn(Scalar) -> real,
    column: Seq<(int, Scalar)>,
    row: int,
) -> real
    decreases column.len(),
{
    if column.len() == 0 {
        0real
    } else if column.last().0 == row {
        reading(column.last().1)
    } else {
        column_number(reading, column.drop_last(), row)
    }
}

/// Row `i` of `m` times `x`, over the first `n` columns.
pub open spec fn row_dot(
    reading: spec_fn(Scalar) -> real,
    m: MatrixView,
    i: int,
    x: Seq<real>,
    n: nat,
) -> real
    decreases n,
{
    if n == 0 {
        0real
    } else {
        row_dot(reading, m, i, x, (n - 1) as nat) + column_number(reading, m.columns[n - 1], i)
            * x[n - 1]
    }
}

/// Whether a row with the given product and right-hand side leaves its slack
/// in the cone: equal for the zero cone, at most for the nonnegative cone.
pub open spec fn in_cone(
    reading: spec_fn(Scalar) -> real,
    cone: ConeTag,
    product: real,
    rhs: Scalar,
) -> bool {
    match cone {
        ConeTag::Zero(_) => product == reading(rhs),
        ConeTag::Nonnegative(_) => product <= reading(rhs),
    }
}

/// Whether `x` satisfies constraint row `i` of the model.
pub open spec fn row_feasible(
    reading: spec_fn(Scalar) -> real,
    model: ModelView,
    i: int,
    x: Seq<real>,
) -> bool {
    in_cone(
        reading,
        model.k[i],
        row_dot(reading, model.a, i, x, model.a.columns.len()),
        model.b[i],
    )
}

/// Whether `x` satisfies every constraint row of the model.
pub open spec fn feasible(reading: spec_fn(Scalar) -> real, model: ModelView, x: Seq<real>) -> bool {
    forall|i: int| 0 <= i < model.b.len() ==> #[trigger] row_feasible(reading, model, i, x)
}

/// A column holds zero at every row at or below a bound on its rows.
proof fn lemma_column_absent(
    reading: spec_fn(Scalar) -> real,
    column: Seq<(int, Scalar)>,
    bound: int,
    row: int,
)
    requires
        forall|t: int| 0 <= t < column.len() ==> (#[trigger] column[t]).0 < bound,
        bound <= row,
    ensures
        column_number(reading, column, row) == 0real,
    decreases column.len(),
{
    if column.len() > 0 {
        assert(column.last().0 < bound);
        lemma_column_absent(reading, column.drop_last(), bound, row);
    }
}

/// A stacked column holds above the seam what the top holds, and below it
/// what the bottom holds.
proof fn lemma_column_stacked(
    reading: spec_fn(Scalar) -> real,
    a: Seq<(int, Scalar)>,
    b: Seq<(int, Scalar)>,
    d: int,
    row: int,
)
    requires
        forall|t: int| 0 <= t < a.len() ==> (#[trigger] a[t]).0 < d,
        forall|t: int| 0 <= t < b.len() ==> 0 <= (#[trigger] b[t]).0,
    ensures
        row < d ==> column_number(reading, a + shift_column(b, d), row) == column_number(
            reading,
            a,
            row,
        ),
        row >= d ==> column_number(reading, a + shift_column(b, d), row) == column_number(
            reading,
            b,
            row - d,
        ),
    decreases b.len(),
{
    let s = a + shift_column(b, d);
    if b.len() == 0 {
        assert(s =~= a);
        if row >= d {
            lemma_column_absent(reading, a, d, row);
        }
    } else {
        let rest = b.drop_last();
        assert(s.last() == (b.last().0 + d, b.last().1));
        assert(s.drop_last() =~= a + shift_column(rest, d));
        assert(0 <= b.last().0);
        lemma_column_stacked(reading, a, rest, d, row);
    }
}

/// A row of a stacked matrix is the row of the block it lies in.
proof fn lemma_row_dot_stacked(
    reading: spec_fn(Scalar) -> real,
    top: MatrixView,
    bottom: MatrixView,
    i: int,
    x: Seq<real>,
    n: nat,
)
    requires
        top.wf(),
        bottom.wf(),
        top.columns.len() == bottom.columns.len(),
        n <= top.columns.len(),
    ensures
        i < top.rows ==> row_dot(reading, top.vcat(bottom), i, x, n) == row_dot(
            reading,
            top,
            i,
            x,
            n,
        ),
        i >= top.rows ==> row_dot(reading, top.vcat(bottom), i, x, n) == row_dot(
            reading,
            bottom,
            i - top.rows,
            x,
            n,
        ),
    decreases n,
{
    if n > 0 {
        let j = n - 1;
        lemma_row_dot_stacked(reading, top, bottom, i, x, j as nat);
        let a = top.columns[j];
        let b = bottom.columns[j];
        assert(top.vcat(bottom).columns[j] == a + shift_column(b, top.rows as int));
        assert forall|t: int| 0 <= t < a.len() implies (#[trigger] a[t]).0 < top.rows by {
            assert(0 <= top.columns[j][t].0 < top.rows);
        }
        assert forall|t: int| 0 <= t < b.len() implies 0 <= (#[trigger] b[t]).0 by {
            assert(0 <= bottom.columns[j][t].0 < bottom.rows);
        }
        lemma_column_stacked(reading, a, b, top.rows as int, i);
    }
}

/// The only row of a one-row matrix times `x` is the product of its
/// coefficients with `x`, though zeros are not stored.
proof fn lemma_row_dot_single(
    reading: spec_fn(Scalar) -> real,
    values: Seq<Scalar>,
    x: Seq<real>,
    n: nat,
)
    requires
        reads_zero(reading),
        n <= values.len(),
    ensures
        row_dot(reading, MatrixView::from_row(values), 0, x, n) == dot(
            reading,
            values.take(n as int),
            x,
        ),
    decreases n,
{
    if n > 0 {
        let j = n - 1;
        lemma_row_dot_single(reading, values, x, j as nat);
        let cell = MatrixView::from_row(values).columns[j];
        assert(cell == row_cell(values[j]));
        assert(column_number(reading, cell, 0) == reading(values[j])) by {
            if values[j].is_zero() {
                assert(reading(values[j]) == 0real);
            } else {
                assert(cell.len() == 1);
                assert(cell.last() == (0int, values[j]));
            }
        }
        assert(values.take(n as int).drop_last() =~= values.take(j));
        assert(values.take(n as int).last() == values[j]);
    }
}

/// Appending a constraint row narrows the feasible set by exactly that
/// constraint: `x` satisfies the grown model if and only if it satisfied the
/// model before and `row . x` meets `rhs` as the cone asks.
pub proof fn lemma_added_row(
    reading: spec_fn(Scalar) -> real,
    before: ModelView,
    after: ModelView,
    row: Seq<Scalar>,
    rhs: Scalar,
    cone: ConeTag,
    x: Seq<real>,
)
    requires
        reads_zero(reading),
        before.a.wf(),
        before.a.rows == before.b.len(),
        before.k.len() == before.b.len(),
        before.a.columns.len() == row.len(),
        after.a == before.a.vcat(MatrixView::from_row(row)),
        after.b == before.b.push(rhs),
        after.k == before.k.push(cone),
    ensures
        feasible(reading, after, x) <==> feasible(reading, before, x) && in_cone(
            reading,
            cone,
            dot(reading, row, x),
            rhs,
        ),
{
    let n = row.len();
    let m = before.b.len() as int;
    let single = MatrixView::from_row(row);
    lemma_from_row_wf(row);
    assert(after.a.columns.len() == n);
    assert forall|i: int| 0 <= i < m implies row_feasible(reading, after, i, x) == row_feasible(
        reading,
        before,
        i,
        x,
    ) by {
        lemma_row_dot_stacked(reading, before.a, single, i, x, n);
    }
    assert(row_feasible(reading, after, m, x) == in_cone(reading, cone, dot(reading, row, x), rhs))
        by {
        lemma_row_dot_stacked(reading, before.a, single, m, x, n);
        lemma_row_dot_single(reading, row, x, n);
        assert(row.take(n as int) =~= row);
    }
    if feasible(reading, after, x) {
        assert(row_feasible(reading, after, m, x));
        assert forall|i: int| 0 <= i < m implies #[trigger] row_feasible(reading, before, i, x) by {
            assert(row_feasible(reading, after, i, x));
        }
    }
    if feasible(reading, before, x) && in_cone(reading, cone, dot(reading, row, x), rhs) {
        assert forall|i: int| 0 <= i < m + 1 implies #[trigger] row_feasible(
            reading,
            after,
            i,
            x,
        ) by {
            if i < m {
                assert(row_feasible(reading, before, i, x));
            }
        }
    }
}

/// After `add_constraint_geq(row, rhs)` the feasible set is the one before,
/// cut by `row . x >= rhs`.
pub proof fn lemma_geq_feasible(
    reading: spec_fn(Scalar) -> real,
    before: ModelView,
    after: ModelView,
    row: Seq<Scalar>,
    rhs: Scalar,
    x: Seq<real>,
)
    requires
        sign_symmetric(reading),
        reads_zero(reading),
        before.a.wf(),
        before.a.rows == before.b.len(),
        before.k.len() == before.b.len(),
        before.a.columns.len() == row.len(),
        after.a == before.a.vcat(MatrixView::from_row(negate_seq(row))),
        after.b == before.b.push(rhs.neg()),
        after.k == before.k.push(ConeTag::Nonnegative(1)),
    ensures
        feasible(reading, after, x) <==> feasible(reading, before, x) && dot(reading, row, x)
            >= reading(rhs),
{
    lemma_added_row(
        reading,
        before,
        after,
        negate_seq(row),
        rhs.neg(),
        ConeTag::Nonnegative(1),
        x,
    );
    lemma_geq_lowering(reading, row, rhs, x);
}

} // verus!
