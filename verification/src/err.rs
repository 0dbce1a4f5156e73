//! The error kinds of the crate.

use vstd::prelude::*;

use crate::idx::PrdIdx;
use crate::op::Op;

verus! {

/// Everything that can go wrong in the core.
#[derive(Debug)]
pub enum Error {
    /// Malformed input text: position of the failure and what was expected
    /// there.
    Parse { pos: usize, expected: String },
    /// A value was projected to the wrong tag.
    TypeMismatch,
    /// An operator was applied to the wrong number of arguments.
    Arity,
    /// Evaluation of an operator application failed; wraps the failure.
    EvalError { op: Op, cause: Box<Error> },
    /// Two conflicting `force_pred` calls.
    IncoherentForce { pred: PrdIdx },
    /// A forced term evaluated to the unknown value under a supposedly
    /// complete model.
    PartialForcedTerm { pred: PrdIdx },
    /// A clause without predicates was invalidated by the teacher: the
    /// problem is genuinely unsatisfiable.
    UnsafeGround,
    /// Invariant violation.
    Internal,
}

} // verus!
