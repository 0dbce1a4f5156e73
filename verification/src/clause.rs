//! Clauses and the information carried per variable and per predicate.

use vstd::prelude::*;

use crate::idx::{PrdIdx, VarIdx};
use crate::term::RTermV;
use crate::tterm::{tterm_terms_ok, tterm_vars_ok, TTerm, TTermV};
use crate::val::Typ;

verus! {

/// What a clause knows of one of its variables.
pub struct VarInfo {
    /// The variable's name.
    pub name: String,
    /// The variable's index in the clause's context.
    pub idx: VarIdx,
    /// The variable's declared type.
    pub typ: Typ,
}

/// What an instance knows of one of its predicates.
pub struct PrdInfo {
    /// The predicate's name.
    pub name: String,
    /// The predicate's index in the registry.
    pub idx: PrdIdx,
    /// The declared types of the predicate's parameters.
    pub sig: Vec<Typ>,
}

/// A Horn clause: a variable context, an antecedent list, a consequent.
pub struct Clause {
    vars: Vec<VarInfo>,
    lhs: Vec<TTerm>,
    rhs: TTerm,
}

/// The mathematical shape of a clause.
pub struct ClauseV {
    /// The variable context.
    pub vars: Seq<VarInfo>,
    /// The antecedents.
    pub lhs: Seq<TTermV>,
    /// The consequent.
    pub rhs: TTermV,
}

impl View for Clause {
    type V = ClauseV;

    closed spec fn view(&self) -> ClauseV {
        ClauseV {
            vars: self.vars@,
            lhs: self.lhs@.map_values(|t: TTerm| t@),
            rhs: self.rhs@,
        }
    }
}

/// A predicate application fits a registry: the predicate exists and the
/// argument vector has exactly the declared arity. Pure top terms fit any
/// registry.
pub open spec fn tterm_preds_ok(tt: TTermV, preds: Seq<PrdInfo>) -> bool {
    match tt {
        TTermV::P { pred, args } => (pred.0 as int) < preds.len() && args.len() == preds[pred.0 as int].sig@.len(),
        _ => true,
    }
}

/// Well-formedness of one top term within a clause: its handles point into
/// the arena, its variables into the clause's context, its predicate into
/// the registry with the right arity.
pub open spec fn tterm_wf(tt: TTermV, ts: Seq<RTermV>, preds: Seq<PrdInfo>, nv: int) -> bool {
    &&& tterm_terms_ok(tt, ts.len() as int)
    &&& tterm_vars_ok(ts, tt, nv)
    &&& tterm_preds_ok(tt, preds)
}

/// Well-formedness of a clause against an arena and a predicate registry.
pub open spec fn clause_wf(c: ClauseV, ts: Seq<RTermV>, preds: Seq<PrdInfo>) -> bool {
    &&& forall|k: int| 0 <= k < c.vars.len() ==> (#[trigger] c.vars[k].idx.0 as int) == k
    &&& forall|k: int|
        0 <= k < c.lhs.len() ==> tterm_wf(#[trigger] c.lhs[k], ts, preds, c.vars.len() as int)
    &&& tterm_wf(c.rhs, ts, preds, c.vars.len() as int)
}

impl Clause {
    /// Creates a clause.
    pub fn mk(vars: Vec<VarInfo>, lhs: Vec<TTerm>, rhs: TTerm) -> (r: Clause)
        ensures
            r@.vars == vars@,
            r@.lhs == lhs@.map_values(|t: TTerm| t@),
            r@.rhs == rhs@,
    {
        Clause { vars, lhs, rhs }
    }

    /// The antecedents.
    pub fn lhs(&self) -> (r: &Vec<TTerm>)
        ensures
            r@.map_values(|t: TTerm| t@) == self@.lhs,
    {
        &self.lhs
    }

    /// The consequent.
    pub fn rhs(&self) -> (r: &TTerm)
        ensures
            r@ == self@.rhs,
    {
        &self.rhs
    }

    /// The variable context.
    pub fn vars(&self) -> (r: &Vec<VarInfo>)
        ensures
            r@ == self@.vars,
    {
        &self.vars
    }
}

} // verus!
