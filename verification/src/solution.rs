//! What solving a model yields, and the models that need no solver.

use crate::cone::ConeTag;
use crate::model::{zero_vector, Model};
use crate::scalar::Scalar;
use vstd::prelude::*;

verus! {

/// How a solve ended.
#[derive(Clone, Copy, Debug, PartialEq, Eq, Structural)]
pub enum SolveStatus {
    Solved,
    PrimalInfeasible,
    DualInfeasible,
    NumericalError,
}

/// The outcome of a solve: the variables, the multiplier and the slack of
/// each constraint row, the value of the objective as it was minimised, and
/// how the solve ended.
pub struct SolveResult {
    pub primal: Vec<Scalar>,
    pub dual: Vec<Scalar>,
    pub slack: Vec<Scalar>,
    pub objective_value: Scalar,
    pub status: SolveStatus,
}

/// Whether a right-hand side lies in the cone of its row when no variable
/// contributes to the row.
pub open spec fn rhs_in_cone(cone: ConeTag, rhs: Scalar) -> bool {
    match cone {
        ConeTag::Zero(_) => rhs.is_zero(),
        ConeTag::Nonnegative(_) => rhs.is_nonnegative(),
    }
}

/// Whether the first `n` right-hand sides lie in the cones of their rows.
pub open spec fn rows_hold(cones: Seq<ConeTag>, rhs: Seq<Scalar>, n: int) -> bool {
    forall|i: int| 0 <= i < n ==> rhs_in_cone(#[trigger] cones[i], rhs[i])
}

/// The status of a model without variables: solved where every right-hand
/// side lies in its cone, infeasible otherwise.
pub open spec fn status_without_variables(cones: Seq<ConeTag>, rhs: Seq<Scalar>) -> SolveStatus {
    if rows_hold(cones, rhs, rhs.len() as int) {
        SolveStatus::Solved
    } else {
        SolveStatus::PrimalInfeasible
    }
}

impl SolveResult {
    /// The result has one primal entry per variable and one multiplier and
    /// one slack per constraint row of `model`.
    pub open spec fn fits(&self, model: &Model) -> bool {
        &&& self.primal@.len() == model.variable_count
        &&& self.dual@.len() == model.constraint_count
        &&& self.slack@.len() == model.constraint_count
    }
}

impl Model {
    /// Solves a model that has no variables. The primal vector is empty and
    /// the objective is zero; each slack is the right-hand side of its row,
    /// and the model is feasible exactly if each lies in its cone. The
    /// multipliers are reported as zero.
    pub fn solve_without_variables(&self) -> (result: SolveResult)
        requires
            self.wf(),
            self.variable_count == 0,
        ensures
            result.fits(self),
            result.primal@ == Seq::<Scalar>::empty(),
            result.dual@ == zero_vector(self.constraint_count as nat),
            result.slack@ == self@.b,
            result.objective_value == Scalar::zero(),
            result.status == status_without_variables(self@.k, self@.b),
    {
        let mut dual: Vec<Scalar> = Vec::new();
        let mut slack: Vec<Scalar> = Vec::new();
        let mut feasible = true;
        let mut i: usize = 0;
        while i < self.constraint_rhs.len()
            invariant
                self.wf(),
                i <= self.constraint_rhs@.len(),
                dual@ == zero_vector(i as nat),
                slack@ == self.constraint_rhs@.take(i as int),
                feasible == rows_hold(self.cone_list@, self.constraint_rhs@, i as int),
            decreases self.constraint_rhs@.len() - i,
        {
            let rhs: Scalar = self.constraint_rhs[i];
            let inside = match self.cone_list[i] {
                ConeTag::Zero(_) => rhs.is_zero(),
                ConeTag::Nonnegative(_) => rhs.is_nonnegative(),
            };
            proof {
                assert(inside == rhs_in_cone(self.cone_list@[i as int], self.constraint_rhs@[i as int]));
                assert(self.constraint_rhs@.take(i + 1) =~= self.constraint_rhs@.take(
                    i as int,
                ).push(rhs));
                assert(dual@.push(Scalar::zero()) =~= zero_vector((i + 1) as nat));
            }
            if !inside {
                feasible = false;
            }
            dual.push(Scalar::zero());
            slack.push(rhs);
            i += 1;
        }
        proof {
            assert(self.constraint_rhs@.take(self.constraint_rhs@.len() as int)
                =~= self.constraint_rhs@);
        }
        let status = if feasible {
            SolveStatus::Solved
        } else {
            SolveStatus::PrimalInfeasible
        };
        SolveResult { primal: Vec::new(), dual, slack, objective_value: Scalar::zero(), status }
    }

    /// Packages what a solver reported for this model, if it has one primal
    /// entry per variable and one multiplier and one slack per constraint
    /// row.
    pub fn package(
        &self,
        primal: Vec<Scalar>,
        dual: Vec<Scalar>,
        slack: Vec<Scalar>,
        objective_value: Scalar,
        status: SolveStatus,
    ) -> (result: Option<SolveResult>)
        ensures
            result is Some <==> primal@.len() == self.variable_count && dual@.len()
                == self.constraint_count && slack@.len() == self.constraint_count,
            result matches Some(r) ==> r.fits(self) && r.primal == primal && r.dual == dual
                && r.slack == slack && r.objective_value == objective_value && r.status == status,
    {
        if primal.len() == self.variable_count && dual.len() == self.constraint_count
            && slack.len() == self.constraint_count {
            Some(SolveResult { primal, dual, slack, objective_value, status })
        } else {
            None
        }
    }
}

} // verus!
