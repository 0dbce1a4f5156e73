//! Top terms: what the sides of a clause are made of.

use vstd::prelude::*;

use crate::idx::PrdIdx;
use crate::term::{vars_ok_at, RTermV, Term};

verus! {

/// A top term, as they appear in clauses.
pub enum TTerm {
    /// A predicate application.
    P {
        /// The predicate applied.
        pred: PrdIdx,
        /// The arguments, one term per parameter position.
        args: Vec<Term>,
    },
    /// The negation of a pure term.
    N(Term),
    /// Just a pure term.
    T(Term),
}

/// The mathematical shape of a top term.
pub enum TTermV {
    /// A predicate application.
    P {
        /// The predicate applied.
        pred: PrdIdx,
        /// The arguments.
        args: Seq<Term>,
    },
    /// The negation of a pure term.
    N(Term),
    /// Just a pure term.
    T(Term),
}

impl View for TTerm {
    type V = TTermV;

    open spec fn view(&self) -> TTermV {
        match self {
            TTerm::P { pred, args } => TTermV::P { pred: *pred, args: args@ },
            TTerm::N(t) => TTermV::N(*t),
            TTerm::T(t) => TTermV::T(*t),
        }
    }
}

/// A top term is equivalent to `true` iff it is a pure `true` or a negated
/// `false`; a predicate application never is.
pub open spec fn tterm_is_true(ts: Seq<RTermV>, tt: TTermV) -> bool {
    match tt {
        TTermV::N(t) => ts[t.uid as int] == RTermV::Bool(false),
        TTermV::T(t) => ts[t.uid as int] == RTermV::Bool(true),
        TTermV::P { .. } => false,
    }
}

/// A top term is equivalent to `false` iff it is a pure `false` or a
/// negated `true`.
pub open spec fn tterm_is_false(ts: Seq<RTermV>, tt: TTermV) -> bool {
    match tt {
        TTermV::N(t) => ts[t.uid as int] == RTermV::Bool(true),
        TTermV::T(t) => ts[t.uid as int] == RTermV::Bool(false),
        TTermV::P { .. } => false,
    }
}

/// Every handle of a top term points into an arena of `n` terms.
pub open spec fn tterm_terms_ok(tt: TTermV, n: int) -> bool {
    match tt {
        TTermV::P { pred, args } => forall|k: int|
            0 <= k < args.len() ==> (#[trigger] args[k].uid as int) < n,
        TTermV::N(t) => (t.uid as int) < n,
        TTermV::T(t) => (t.uid as int) < n,
    }
}

/// Every variable of a top term lies below `nv`.
pub open spec fn tterm_vars_ok(ts: Seq<RTermV>, tt: TTermV, nv: int) -> bool {
    match tt {
        TTermV::P { pred, args } => forall|k: int|
            0 <= k < args.len() ==> vars_ok_at(ts, #[trigger] args[k].uid as int, nv),
        TTermV::N(t) => vars_ok_at(ts, t.uid as int, nv),
        TTermV::T(t) => vars_ok_at(ts, t.uid as int, nv),
    }
}

impl TTerm {
    /// True if the top term is equivalent to `true`. The arena the handles
    /// point into must be supplied.
    pub fn is_true(&self, terms: &crate::term::Factory) -> (r: bool)
        requires
            terms.wf(),
            tterm_terms_ok(self@, terms@.len() as int),
        ensures
            r == tterm_is_true(terms@, self@),
    {
        match self {
            TTerm::N(t) => terms.get(*t).is_false(),
            TTerm::T(t) => terms.get(*t).is_true(),
            TTerm::P { .. } => false,
        }
    }

    /// True if the top term is equivalent to `false`.
    pub fn is_false(&self, terms: &crate::term::Factory) -> (r: bool)
        requires
            terms.wf(),
            tterm_terms_ok(self@, terms@.len() as int),
        ensures
            r == tterm_is_false(terms@, self@),
    {
        match self {
            TTerm::N(t) => terms.get(*t).is_true(),
            TTerm::T(t) => terms.get(*t).is_false(),
            TTerm::P { .. } => false,
        }
    }
}

} // verus!
