//! The cones a block of constraint rows can be tagged with.

use vstd::prelude::*;

verus! {

/// The cone that the residuals of a block of consecutive constraint rows must
/// lie in, with the number of rows in the block.
#[derive(Clone, Copy, Debug, PartialEq, Eq, Structural)]
pub enum ConeTag {
    /// Every residual is zero: the rows are equalities.
    Zero(usize),
    /// Every residual is at least zero: the rows are `<=` inequalities.
    Nonnegative(usize),
}

impl ConeTag {
    /// The number of rows the tag covers.
    pub open spec fn spec_width(self) -> nat {
        match self {
            ConeTag::Zero(width) => width as nat,
            ConeTag::Nonnegative(width) => width as nat,
        }
    }

    /// The number of rows the tag covers.
    pub fn width(self) -> (w: usize)
        ensures
            w == self.spec_width(),
    {
        match self {
            ConeTag::Zero(width) => width,
            ConeTag::Nonnegative(width) => width,
        }
    }
}

/// The number of rows that a list of tags covers together.
pub open spec fn total_width(cones: Seq<ConeTag>) -> nat
    decreases cones.len(),
{
    if cones.len() == 0 {
        0
    } else {
        total_width(cones.drop_last()) + cones.last().spec_width()
    }
}

/// Tags of one row each cover as many rows as there are tags.
pub proof fn lemma_unit_widths(cones: Seq<ConeTag>)
    requires
        forall|i: int| 0 <= i < cones.len() ==> (#[trigger] cones[i]).spec_width() == 1,
    ensures
        total_width(cones) == cones.len(),
    decreases cones.len(),
{
    if cones.len() > 0 {
        lemma_unit_widths(cones.drop_last());
    }
}

} // verus!
