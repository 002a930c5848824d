//! The model under construction: variables, objective and constraints.

use crate::cone::{lemma_unit_widths, total_width, ConeTag};
use crate::matrix::{
    lemma_negate_zeros, negate_seq, MatrixView, SparseBlockMatrix,
};
use crate::scalar::Scalar;
use vstd::prelude::*;

verus! {

/// The vector of `n` zeros.
pub open spec fn zero_vector(n: nat) -> Seq<Scalar> {
    Seq::new(n, |i: int| Scalar::zero())
}

/// The problem a model states: minimise `(1/2) x'Px + q'x` subject to
/// `Ax + s = b` with `s` in the cones of `k`, block after block.
pub struct ModelView {
    pub p: MatrixView,
    pub q: Seq<Scalar>,
    pub a: MatrixView,
    pub b: Seq<Scalar>,
    pub k: Seq<ConeTag>,
}

/// An optimisation model that grows by variables and constraint rows.
pub struct Model {
    pub variable_count: usize,
    pub constraint_count: usize,
    pub objective_matrix: SparseBlockMatrix,
    pub objective_vector: Vec<Scalar>,
    pub constraint_matrix: SparseBlockMatrix,
    pub constraint_rhs: Vec<Scalar>,
    pub cone_list: Vec<ConeTag>,
}

impl View for Model {
    type V = ModelView;

    open spec fn view(&self) -> ModelView {
        ModelView {
            p: self.objective_matrix@,
            q: self.objective_vector@,
            a: self.constraint_matrix@,
            b: self.constraint_rhs@,
            k: self.cone_list@,
        }
    }
}

/// The quadratic term that `minimize` installs for the given argument.
pub open spec fn chosen_matrix(p: Option<&SparseBlockMatrix>, n: nat) -> MatrixView {
    match p {
        Some(m) => m@,
        None => MatrixView::zeros(n, n),
    }
}

/// The linear term that `minimize` installs for the given argument.
pub open spec fn chosen_vector(q: Option<&[Scalar]>, n: nat) -> Seq<Scalar> {
    match q {
        Some(v) => v@,
        None => zero_vector(n),
    }
}

/// The quadratic term that `maximize` installs for the given argument.
pub open spec fn chosen_matrix_negated(p: Option<&SparseBlockMatrix>, n: nat) -> MatrixView {
    match p {
        Some(m) => m@.negate(),
        None => MatrixView::zeros(n, n),
    }
}

/// The linear term that `maximize` installs for the given argument.
pub open spec fn chosen_vector_negated(q: Option<&[Scalar]>, n: nat) -> Seq<Scalar> {
    match q {
        Some(v) => negate_seq(v@),
        None => zero_vector(n),
    }
}

/// Whether an objective has the shape of a model with `n` variables.
pub open spec fn objective_fits(p: Option<&SparseBlockMatrix>, q: Option<&[Scalar]>, n: nat) -> bool {
    &&& match p {
        Some(m) => m.wf() && m.rows == n && m.columns == n,
        None => true,
    }
    &&& match q {
        Some(v) => v@.len() == n,
        None => true,
    }
}

/// Maximising an objective installs what minimising its negation installs:
/// the same quadratic and the same linear term, whether given or left out.
pub proof fn lemma_maximize_is_minimize_of_negation(
    p: Option<&SparseBlockMatrix>,
    q: Option<&[Scalar]>,
    p_negated: Option<&SparseBlockMatrix>,
    q_negated: Option<&[Scalar]>,
    n: nat,
)
    requires
        p is Some <==> p_negated is Some,
        q is Some <==> q_negated is Some,
        p matches Some(m) ==> p_negated->Some_0@ == m@.negate(),
        q matches Some(v) ==> q_negated->Some_0@ == negate_seq(v@),
    ensures
        chosen_matrix_negated(p, n) == chosen_matrix(p_negated, n),
        chosen_vector_negated(q, n) == chosen_vector(q_negated, n),
{
}

/// Appends `count` zeros.
fn extend_zeros(values: &mut Vec<Scalar>, count: usize)
    ensures
        final(values)@ == old(values)@ + zero_vector(count as nat),
{
    let ghost before = values@;
    let mut i: usize = 0;
    while i < count
        invariant
            i <= count,
            values@ == before + zero_vector(i as nat),
        decreases count - i,
    {
        values.push(Scalar::zero());
        proof {
            assert(values@ =~= before + zero_vector((i + 1) as nat));
        }
        i += 1;
    }
    proof {
        assert(before + zero_vector(0) =~= before);
    }
}

/// A copy of the coefficients.
pub fn copy_row(values: &[Scalar]) -> (copy: Vec<Scalar>)
    ensures
        copy@ == values@,
{
    let mut copy: Vec<Scalar> = Vec::new();
    let mut i: usize = 0;
    while i < values.len()
        invariant
            i <= values@.len(),
            copy@ == values@.take(i as int),
        decreases values@.len() - i,
    {
        copy.push(values[i]);
        proof {
            assert(values@.take(i + 1) =~= values@.take(i as int).push(values@[i as int]));
        }
        i += 1;
    }
    proof {
        assert(values@.take(values@.len() as int) =~= values@);
    }
    copy
}

/// The coefficients with the sign of each flipped.
pub fn negate_row(values: &[Scalar]) -> (negated: Vec<Scalar>)
    ensures
        negated@ == negate_seq(values@),
{
    let mut negated: Vec<Scalar> = Vec::new();
    let mut i: usize = 0;
    while i < values.len()
        invariant
            i <= values@.len(),
            negated@.len() == i,
            forall|t: int| 0 <= t < i ==> #[trigger] negated@[t] == values@[t].neg(),
        decreases values@.len() - i,
    {
        negated.push(values[i].neg());
        i += 1;
    }
    proof {
        assert(negated@ =~= negate_seq(values@));
    }
    negated
}

impl Model {
    /// The shapes agree: the objective matrix is square with one side per
    /// variable, the constraint matrix has a column per variable and a row
    /// per constraint, both vectors have matching lengths, and each
    /// constraint row has its own cone of width one.
    pub open spec fn wf(&self) -> bool {
        &&& self.objective_matrix.wf()
        &&& self.constraint_matrix.wf()
        &&& self.objective_matrix.rows == self.variable_count
        &&& self.objective_matrix.columns == self.variable_count
        &&& self.objective_vector@.len() == self.variable_count
        &&& self.constraint_matrix.rows == self.constraint_count
        &&& self.constraint_matrix.columns == self.variable_count
        &&& self.constraint_rhs@.len() == self.constraint_count
        &&& self.cone_list@.len() == self.constraint_count
        &&& forall|i: int|
            0 <= i < self.cone_list@.len() ==> (#[trigger] self.cone_list@[i]).spec_width() == 1
    }

    /// In a well-formed model the widths of the cones add up to the number
    /// of constraint rows.
    pub proof fn lemma_cones_cover_rows(&self)
        requires
            self.wf(),
        ensures
            total_width(self@.k) == self.constraint_count,
    {
        lemma_unit_widths(self.cone_list@);
    }

    /// The model without variables or constraints.
    pub fn new() -> (model: Model)
        ensures
            model.wf(),
            model.variable_count == 0,
            model.constraint_count == 0,
            model@ == (ModelView {
                p: MatrixView::zeros(0, 0),
                q: Seq::empty(),
                a: MatrixView::zeros(0, 0),
                b: Seq::empty(),
                k: Seq::empty(),
            }),
    {
        Model {
            variable_count: 0,
            constraint_count: 0,
            objective_matrix: SparseBlockMatrix::zeros(0, 0),
            objective_vector: Vec::new(),
            constraint_matrix: SparseBlockMatrix::zeros(0, 0),
            constraint_rhs: Vec::new(),
            cone_list: Vec::new(),
        }
    }

    /// Declares `count` more variables. The objective matrix keeps its
    /// entries as the top-left block and is zero elsewhere; the objective
    /// vector and every constraint row get zeros for the new variables.
    pub fn add_variables(&mut self, count: usize)
        requires
            old(self).wf(),
            old(self).variable_count + count < usize::MAX,
        ensures
            final(self).wf(),
            final(self).variable_count == old(self).variable_count + count,
            final(self).constraint_count == old(self).constraint_count,
            final(self)@.p == old(self)@.p.hcat(
                MatrixView::zeros(old(self).variable_count as nat, count as nat),
            ).vcat(
                MatrixView::zeros(count as nat, (old(self).variable_count + count) as nat),
            ),
            final(self)@.q == old(self)@.q + zero_vector(count as nat),
            final(self)@.a == old(self)@.a.hcat(
                MatrixView::zeros(old(self).constraint_count as nat, count as nat),
            ),
            final(self)@.b == old(self)@.b,
            final(self)@.k == old(self)@.k,
    {
        let n: usize = self.variable_count;
        let right = SparseBlockMatrix::zeros(n, count);
        let upper = SparseBlockMatrix::horizontal_concat(&self.objective_matrix, &right);
        let lower = SparseBlockMatrix::zeros(count, n + count);
        self.objective_matrix = SparseBlockMatrix::vertical_concat(&upper, &lower);
        extend_zeros(&mut self.objective_vector, count);
        let extra = SparseBlockMatrix::zeros(self.constraint_count, count);
        self.constraint_matrix = SparseBlockMatrix::horizontal_concat(
            &self.constraint_matrix,
            &extra,
        );
        self.variable_count = n + count;
    }

    /// Appends one constraint row with its right-hand side and its cone.
    pub fn add_constraint(&mut self, row: &[Scalar], rhs: Scalar, cone: ConeTag)
        requires
            old(self).wf(),
            row@.len() == old(self).variable_count,
            cone.spec_width() == 1,
        ensures
            final(self).wf(),
            final(self).variable_count == old(self).variable_count,
            final(self).constraint_count == old(self).constraint_count + 1,
            final(self)@.p == old(self)@.p,
            final(self)@.q == old(self)@.q,
            final(self)@.a == old(self)@.a.vcat(MatrixView::from_row(row@)),
            final(self)@.b == old(self)@.b.push(rhs),
            final(self)@.k == old(self)@.k.push(cone),
    {
        let pointers: usize = self.constraint_matrix.colptr.len();
        assert(pointers == self.variable_count + 1);
        self.constraint_rhs.push(rhs);
        self.cone_list.push(cone);
        let count: usize = self.constraint_rhs.len();
        let bottom = SparseBlockMatrix::from_row(row);
        self.constraint_matrix = SparseBlockMatrix::vertical_concat(
            &self.constraint_matrix,
            &bottom,
        );
        self.constraint_count = count;
    }

    /// Appends the constraint `row . x = rhs`.
    pub fn add_constraint_eq(&mut self, row: &[Scalar], rhs: Scalar)
        requires
            old(self).wf(),
            row@.len() == old(self).variable_count,
        ensures
            final(self).wf(),
            final(self).variable_count == old(self).variable_count,
            final(self).constraint_count == old(self).constraint_count + 1,
            final(self)@.p == old(self)@.p,
            final(self)@.q == old(self)@.q,
            final(self)@.a == old(self)@.a.vcat(MatrixView::from_row(row@)),
            final(self)@.b == old(self)@.b.push(rhs),
            final(self)@.k == old(self)@.k.push(ConeTag::Zero(1)),
    {
        self.add_constraint(row, rhs, ConeTag::Zero(1));
    }

    /// Appends the constraint `row . x <= rhs`: the slack `rhs - row . x`
    /// lies in the nonnegative cone.
    pub fn add_constraint_leq(&mut self, row: &[Scalar], rhs: Scalar)
        requires
            old(self).wf(),
            row@.len() == old(self).variable_count,
        ensures
            final(self).wf(),
            final(self).variable_count == old(self).variable_count,
            final(self).constraint_count == old(self).constraint_count + 1,
            final(self)@.p == old(self)@.p,
            final(self)@.q == old(self)@.q,
            final(self)@.a == old(self)@.a.vcat(MatrixView::from_row(row@)),
            final(self)@.b == old(self)@.b.push(rhs),
            final(self)@.k == old(self)@.k.push(ConeTag::Nonnegative(1)),
    {
        self.add_constraint(row, rhs, ConeTag::Nonnegative(1));
    }

    /// Appends the constraint `row . x >= rhs`, stored as
    /// `(-row) . x <= -rhs`.
    pub fn add_constraint_geq(&mut self, row: &[Scalar], rhs: Scalar)
        requires
            old(self).wf(),
            row@.len() == old(self).variable_count,
        ensures
            final(self).wf(),
            final(self).variable_count == old(self).variable_count,
            final(self).constraint_count == old(self).constraint_count + 1,
            final(self)@.p == old(self)@.p,
            final(self)@.q == old(self)@.q,
            final(self)@.a == old(self)@.a.vcat(MatrixView::from_row(negate_seq(row@))),
            final(self)@.b == old(self)@.b.push(rhs.neg()),
            final(self)@.k == old(self)@.k.push(ConeTag::Nonnegative(1)),
    {
        let negated = negate_row(row);
        self.add_constraint_leq(negated.as_slice(), rhs.neg());
    }

    /// Replaces the quadratic term of the objective.
    fn set_p(&mut self, p: SparseBlockMatrix)
        ensures
            final(self).objective_matrix == p,
            final(self).variable_count == old(self).variable_count,
            final(self).constraint_count == old(self).constraint_count,
            final(self).objective_vector == old(self).objective_vector,
            final(self).constraint_matrix == old(self).constraint_matrix,
            final(self).constraint_rhs == old(self).constraint_rhs,
            final(self).cone_list == old(self).cone_list,
    {
        self.objective_matrix = p;
    }

    /// Replaces the linear term of the objective.
    fn set_q(&mut self, q: Vec<Scalar>)
        ensures
            final(self).objective_vector == q,
            final(self).variable_count == old(self).variable_count,
            final(self).constraint_count == old(self).constraint_count,
            final(self).objective_matrix == old(self).objective_matrix,
            final(self).constraint_matrix == old(self).constraint_matrix,
            final(self).constraint_rhs == old(self).constraint_rhs,
            final(self).cone_list == old(self).cone_list,
    {
        self.objective_vector = q;
    }

    /// Replaces the objective.
    fn set_objective(&mut self, p: SparseBlockMatrix, q: Vec<Scalar>)
        ensures
            final(self).objective_matrix == p,
            final(self).objective_vector == q,
            final(self).variable_count == old(self).variable_count,
            final(self).constraint_count == old(self).constraint_count,
            final(self).constraint_matrix == old(self).constraint_matrix,
            final(self).constraint_rhs == old(self).constraint_rhs,
            final(self).cone_list == old(self).cone_list,
    {
        self.set_p(p);
        self.set_q(q);
    }

    /// Sets the objective to minimise `(1/2) x'Px + q'x`. A term left out is
    /// zero, sized for the variables declared so far. The objective set
    /// before is dropped.
    pub fn minimize(&mut self, p: Option<&SparseBlockMatrix>, q: Option<&[Scalar]>)
        requires
            old(self).wf(),
            objective_fits(p, q, old(self).variable_count as nat),
        ensures
            final(self).wf(),
            final(self).variable_count == old(self).variable_count,
            final(self).constraint_count == old(self).constraint_count,
            final(self)@.p == chosen_matrix(p, old(self).variable_count as nat),
            final(self)@.q == chosen_vector(q, old(self).variable_count as nat),
            final(self)@.a == old(self)@.a,
            final(self)@.b == old(self)@.b,
            final(self)@.k == old(self)@.k,
    {
        let n: usize = self.variable_count;
        let pointers: usize = self.objective_matrix.colptr.len();
        assert(pointers == n + 1);
        let p_inner = match p {
            Some(given) => given.duplicate(),
            None => SparseBlockMatrix::zeros(n, n),
        };
        let q_inner = match q {
            Some(given) => copy_row(given),
            None => {
                let mut zeros: Vec<Scalar> = Vec::new();
                extend_zeros(&mut zeros, n);
                proof {
                    assert(Seq::<Scalar>::empty() + zero_vector(n as nat) =~= zero_vector(
                        n as nat,
                    ));
                }
                zeros
            },
        };
        self.set_objective(p_inner, q_inner);
    }

    /// Sets the objective to maximise `(1/2) x'Px + q'x`, stored as the
    /// minimisation of its negation: every coefficient given has its sign
    /// flipped. A term left out is zero.
    pub fn maximize(&mut self, p: Option<&SparseBlockMatrix>, q: Option<&[Scalar]>)
        requires
            old(self).wf(),
            objective_fits(p, q, old(self).variable_count as nat),
        ensures
            final(self).wf(),
            final(self).variable_count == old(self).variable_count,
            final(self).constraint_count == old(self).constraint_count,
            final(self)@.p == chosen_matrix_negated(p, old(self).variable_count as nat),
            final(self)@.q == chosen_vector_negated(q, old(self).variable_count as nat),
            final(self)@.a == old(self)@.a,
            final(self)@.b == old(self)@.b,
            final(self)@.k == old(self)@.k,
    {
        let n: usize = self.variable_count;
        let pointers: usize = self.objective_matrix.colptr.len();
        assert(pointers == n + 1);
        let p_minus = match p {
            Some(given) => given.negate(),
            None => {
                proof {
                    lemma_negate_zeros(n as nat, n as nat);
                }
                SparseBlockMatrix::zeros(n, n).negate()
            },
        };
        let q_minus = match q {
            Some(given) => negate_row(given),
            None => {
                let mut zeros: Vec<Scalar> = Vec::new();
                extend_zeros(&mut zeros, n);
                proof {
                    assert(Seq::<Scalar>::empty() + zero_vector(n as nat) =~= zero_vector(
                        n as nat,
                    ));
                }
                zeros
            },
        };
        self.set_objective(p_minus, q_minus);
    }
}

} // verus!
