//! Dense indices for the parallel arrays of an instance.
//!
//! Variables, predicates and clauses are all numbered from zero, but the
//! three families of numbers must not be interchanged, so each gets a
//! newtype of its own.

use vstd::prelude::*;

verus! {

/// Index of a variable in a clause's variable context.
#[derive(Clone, Copy, PartialEq, Eq, Structural, Debug, Hash)]
pub struct VarIdx(pub usize);

/// Index of a predicate in the instance's predicate registry.
#[derive(Clone, Copy, PartialEq, Eq, Structural, Debug, Hash)]
pub struct PrdIdx(pub usize);

/// Index of a clause in the instance's clause pool.
#[derive(Clone, Copy, PartialEq, Eq, Structural, Debug, Hash)]
pub struct ClsIdx(pub usize);

} // verus!
