//! The instance: the factory, the predicate registry, the clause pool and
//! the forced-term assignments.

use vstd::prelude::*;

use crate::big::Int;
use crate::clause::{clause_wf, Clause, ClauseV, PrdInfo};
use crate::err::Error;
use crate::idx::{PrdIdx, VarIdx};
use crate::op::Op;
use crate::term::{
    div_safe_at, eval_at, find_key, mk_s, op_s, terms_wf, vars_ok_at, Factory, RTermV, Term,
};
use crate::val::{AbsVal, Typ, Val};

verus! {

/// The mathematical shape of an instance.
pub struct InstanceV {
    /// The arena of the term factory.
    pub terms: Seq<RTermV>,
    /// The constants known to the instance.
    pub consts: Seq<Term>,
    /// The predicate registry.
    pub preds: Seq<PrdInfo>,
    /// For each predicate, its forced definition if any.
    pub preds_term: Seq<Option<Term>>,
    /// The largest declared arity.
    pub max_pred_arity: int,
    /// The clause pool.
    pub clauses: Seq<ClauseV>,
}

/// The largest arity declared in a registry, zero when it is empty.
pub open spec fn max_arity(preds: Seq<PrdInfo>) -> int
    decreases preds.len(),
{
    if preds.len() == 0 {
        0
    } else {
        let rest = max_arity(preds.drop_last());
        let last = preds.last().sig@.len() as int;
        if last > rest {
            last
        } else {
            rest
        }
    }
}

/// The invariants tying the instance's parallel arrays together: the arena
/// is well-formed, the forced-term array parallels the registry, every
/// index points where it should, the arity bound is tight, and every clause
/// is well-formed against the arena and the registry.
pub open spec fn inst_wf(v: InstanceV) -> bool {
    &&& terms_wf(v.terms)
    &&& v.preds_term.len() == v.preds.len()
    &&& forall|p: int| 0 <= p < v.preds.len() ==> (#[trigger] v.preds[p].idx.0 as int) == p
    &&& forall|p: int|
        0 <= p < v.preds_term.len() ==> match #[trigger] v.preds_term[p] {
            Some(t) => (t.uid as int) < v.terms.len(),
            None => true,
        }
    &&& v.max_pred_arity == max_arity(v.preds)
    &&& forall|k: int| 0 <= k < v.consts.len() ==> (#[trigger] v.consts[k].uid as int) < v.terms.len()
    &&& forall|c: int| 0 <= c < v.clauses.len() ==> clause_wf(#[trigger] v.clauses[c], v.terms, v.preds)
}

/// All fields but the arena agree.
pub open spec fn same_but_terms(v1: InstanceV, v2: InstanceV) -> bool {
    &&& v2.consts == v1.consts
    &&& v2.preds == v1.preds
    &&& v2.preds_term == v1.preds_term
    &&& v2.max_pred_arity == v1.max_pred_arity
    &&& v2.clauses == v1.clauses
}

/// The second arena extends the first.
pub open spec fn terms_grow(ts1: Seq<RTermV>, ts2: Seq<RTermV>) -> bool {
    &&& ts1.len() <= ts2.len()
    &&& forall|j: int| 0 <= j < ts1.len() ==> ts2[j] == #[trigger] ts1[j]
}

/// Whether a term's variables stay below a bound is untouched by growing
/// the arena above the term.
pub proof fn lemma_vars_ok_grow(ts1: Seq<RTermV>, ts2: Seq<RTermV>, i: int, nv: int)
    requires
        terms_wf(ts1),
        terms_wf(ts2),
        terms_grow(ts1, ts2),
        0 <= i < ts1.len(),
    ensures
        vars_ok_at(ts1, i, nv) == vars_ok_at(ts2, i, nv),
    decreases i,
{
    assert(ts2[i] == ts1[i]);
    match ts1[i] {
        RTermV::App { op, args } => {
            assert(forall|k: int| 0 <= k < args.len() ==> (#[trigger] args[k].uid as int) < i);
            assert forall|k: int| 0 <= k < args.len() implies vars_ok_at(
                ts1,
                #[trigger] args[k].uid as int,
                nv,
            ) == vars_ok_at(ts2, args[k].uid as int, nv) by {
                lemma_vars_ok_grow(ts1, ts2, args[k].uid as int, nv);
            }
        },
        _ => {},
    }
}

/// Clause well-formedness survives growing the arena.
pub proof fn lemma_wf_grow(v1: InstanceV, v2: InstanceV)
    requires
        inst_wf(v1),
        terms_wf(v2.terms),
        terms_grow(v1.terms, v2.terms),
        same_but_terms(v1, v2),
    ensures
        inst_wf(v2),
{
    assert forall|c: int| 0 <= c < v2.clauses.len() implies clause_wf(
        #[trigger] v2.clauses[c],
        v2.terms,
        v2.preds,
    ) by {
        let cl = v2.clauses[c];
        assert(cl == v1.clauses[c]);
        assert(clause_wf(v1.clauses[c], v1.terms, v1.preds));
        let nv = cl.vars.len() as int;
        assert forall|k: int| 0 <= k < cl.lhs.len() implies crate::clause::tterm_wf(
            #[trigger] cl.lhs[k],
            v2.terms,
            v2.preds,
            nv,
        ) by {
            lemma_tterm_wf_grow(cl.lhs[k], v1.terms, v2.terms, v1.preds, nv);
        }
        lemma_tterm_wf_grow(cl.rhs, v1.terms, v2.terms, v1.preds, nv);
    }
}

/// Top-term well-formedness survives growing the arena.
pub proof fn lemma_tterm_wf_grow(
    tt: crate::tterm::TTermV,
    ts1: Seq<RTermV>,
    ts2: Seq<RTermV>,
    preds: Seq<PrdInfo>,
    nv: int,
)
    requires
        terms_wf(ts1),
        terms_wf(ts2),
        terms_grow(ts1, ts2),
        crate::clause::tterm_wf(tt, ts1, preds, nv),
    ensures
        crate::clause::tterm_wf(tt, ts2, preds, nv),
{
    match tt {
        crate::tterm::TTermV::P { pred, args } => {
            assert forall|k: int| 0 <= k < args.len() implies vars_ok_at(
                ts2,
                #[trigger] args[k].uid as int,
                nv,
            ) by {
                lemma_vars_ok_grow(ts1, ts2, args[k].uid as int, nv);
            }
        },
        crate::tterm::TTermV::N(t) => {
            lemma_vars_ok_grow(ts1, ts2, t.uid as int, nv);
        },
        crate::tterm::TTermV::T(t) => {
            lemma_vars_ok_grow(ts1, ts2, t.uid as int, nv);
        },
    }
}

/// The invariants survive any change that keeps the arena, the registry
/// and the constants, keeps the forced terms in range, and keeps every
/// clause well-formed.
pub proof fn lemma_inst_wf_frame(v1: InstanceV, v2: InstanceV)
    requires
        inst_wf(v1),
        v2.terms == v1.terms,
        v2.preds == v1.preds,
        v2.consts == v1.consts,
        v2.max_pred_arity == v1.max_pred_arity,
        v2.preds_term.len() == v1.preds_term.len(),
        forall|p: int|
            0 <= p < v2.preds_term.len() ==> match #[trigger] v2.preds_term[p] {
                Some(t) => (t.uid as int) < v2.terms.len(),
                None => true,
            },
        forall|c: int|
            0 <= c < v2.clauses.len() ==> clause_wf(#[trigger] v2.clauses[c], v1.terms, v1.preds),
    ensures
        inst_wf(v2),
{
}

/// Stores the instance: the clauses, the factory and so on.
pub struct Instance {
    factory: Factory,
    consts: Vec<Term>,
    preds: Vec<PrdInfo>,
    preds_term: Vec<Option<Term>>,
    max_pred_arity: usize,
    clauses: Vec<Clause>,
}

impl View for Instance {
    type V = InstanceV;

    closed spec fn view(&self) -> InstanceV {
        InstanceV {
            terms: self.factory@,
            consts: self.consts@,
            preds: self.preds@,
            preds_term: self.preds_term@,
            max_pred_arity: self.max_pred_arity as int,
            clauses: self.clauses@.map_values(|c: Clause| c@),
        }
    }
}

impl Instance {
    /// The instance's invariants hold.
    pub open spec fn wf(&self) -> bool {
        inst_wf(self@)
    }

    /// A handle points into the instance's factory.
    pub open spec fn has(&self, t: Term) -> bool {
        (t.uid as int) < self@.terms.len()
    }

    /// Every handle of a sequence points into the instance's factory.
    pub open spec fn has_all(&self, args: Seq<Term>) -> bool {
        forall|k: int| 0 <= k < args.len() ==> (#[trigger] args[k].uid as int) < self@.terms.len()
    }

    /// Instance constructor. The factory starts out with the constants one
    /// and zero, which are also recorded as known constants.
    pub fn mk(term_capa: usize, clauses_capa: usize, pred_capa: usize) -> (r: Instance)
        ensures
            r.wf(),
            r@.terms =~= seq![RTermV::Int(1), RTermV::Int(0)],
            r@.consts =~= seq![Term { uid: 0 }, Term { uid: 1 }],
            r@.preds =~= Seq::<PrdInfo>::empty(),
            r@.preds_term =~= Seq::<Option<Term>>::empty(),
            r@.clauses =~= Seq::<ClauseV>::empty(),
            r@.max_pred_arity == 0,
    {
        let mut instance = Instance {
            factory: Factory::new(term_capa),
            consts: Vec::with_capacity(103),
            preds: Vec::with_capacity(pred_capa),
            preds_term: Vec::with_capacity(pred_capa),
            max_pred_arity: 0,
            clauses: Vec::with_capacity(clauses_capa),
        };
        proof {
            assert(instance@.terms =~= Seq::<RTermV>::empty());
            assert(instance@.consts =~= Seq::<Term>::empty());
            assert(instance@.preds =~= Seq::<PrdInfo>::empty());
            assert(instance@.preds_term =~= Seq::<Option<Term>>::empty());
            assert(instance@.clauses =~= Seq::<ClauseV>::empty());
            assert(instance.wf());
        }
        let wan = instance.one();
        proof {
            assert(find_key(Seq::<RTermV>::empty(), RTermV::Int(1)) is None);
            assert(instance@.terms =~= seq![RTermV::Int(1)]);
        }
        let too = instance.zero();
        proof {
            let one_seq = seq![RTermV::Int(1)];
            assert(one_seq.drop_first() =~= Seq::<RTermV>::empty());
            assert(find_key(Seq::<RTermV>::empty(), RTermV::Int(0)) is None);
            assert(find_key(one_seq, RTermV::Int(0)) is None);
            assert(instance@.terms =~= seq![RTermV::Int(1), RTermV::Int(0)]);
        }
        let ghost v1 = instance@;
        instance.consts.push(wan);
        instance.consts.push(too);
        proof {
            assert(instance@.consts =~= seq![wan, too]);
            assert(instance@.clauses =~= v1.clauses);
            assert(inst_wf(instance@));
        }
        instance
    }

    /// The term a predicate is forced to, if any.
    pub fn term_of(&self, pred: PrdIdx) -> (r: Option<Term>)
        requires
            (pred.0 as int) < self@.preds_term.len(),
        ensures
            r == self@.preds_term[pred.0 as int],
    {
        self.preds_term[pred.0]
    }

    /// The constants known to the instance.
    pub fn consts(&self) -> (r: &Vec<Term>)
        ensures
            r@ == self@.consts,
    {
        &self.consts
    }

    /// The indices of all predicates, in order.
    pub fn pred_indices(&self) -> (r: Vec<PrdIdx>)
        ensures
            r@.len() == self@.preds.len(),
            forall|p: int| 0 <= p < r@.len() ==> (#[trigger] r@[p].0 as int) == p,
    {
        let mut out: Vec<PrdIdx> = Vec::with_capacity(self.preds.len());
        let mut p: usize = 0;
        while p < self.preds.len()
            invariant
                0 <= p <= self.preds@.len(),
                out@.len() == p,
                forall|q: int| 0 <= q < p ==> (#[trigger] out@[q].0 as int) == q,
            decreases self.preds@.len() - p,
        {
            out.push(PrdIdx(p));
            p = p + 1;
        }
        out
    }

    /// The predicate registry.
    pub fn preds(&self) -> (r: &Vec<PrdInfo>)
        ensures
            r@ == self@.preds,
    {
        &self.preds
    }

    /// The clause pool.
    pub fn clauses(&self) -> (r: &Vec<Clause>)
        ensures
            r@.map_values(|c: Clause| c@) == self@.clauses,
    {
        &self.clauses
    }

    /// The largest declared arity.
    pub fn max_pred_arity(&self) -> (r: usize)
        ensures
            r as int == self@.max_pred_arity,
    {
        self.max_pred_arity
    }

    /// The term factory.
    pub fn factory(&self) -> (r: &Factory)
        ensures
            r@ == self@.terms,
    {
        &self.factory
    }

    /// Pushes a new predicate and returns its index. The arity bound and
    /// the forced-term array follow along.
    pub fn push_pred(&mut self, name: String, sig: Vec<Typ>) -> (r: PrdIdx)
        requires
            old(self).wf(),
        ensures
            final(self).wf(),
            (r.0 as int) == old(self)@.preds.len(),
            final(self)@.preds == old(self)@.preds.push(
                PrdInfo { name: name, idx: r, sig: sig },
            ),
            final(self)@.preds_term == old(self)@.preds_term.push(None::<Term>),
            final(self)@.max_pred_arity == if sig@.len() as int > old(self)@.max_pred_arity {
                sig@.len() as int
            } else {
                old(self)@.max_pred_arity
            },
            final(self)@.terms == old(self)@.terms,
            final(self)@.consts == old(self)@.consts,
            final(self)@.clauses == old(self)@.clauses,
    {
        let ghost v1 = self@;
        if sig.len() > self.max_pred_arity {
            self.max_pred_arity = sig.len();
        }
        let idx = PrdIdx(self.preds.len());
        let info = PrdInfo { name, idx, sig };
        let ghost info_v = info;
        self.preds.push(info);
        self.preds_term.push(None);
        proof {
            let v2 = self@;
            assert(v2.preds =~= v1.preds.push(info_v));
            assert(v2.preds_term =~= v1.preds_term.push(None::<Term>));
            assert(v2.preds.drop_last() =~= v1.preds);
            assert(v2.preds.last() == info_v);
            assert(v2.max_pred_arity == max_arity(v2.preds));
            assert forall|p: int| 0 <= p < v2.preds.len() implies (
            #[trigger] v2.preds[p].idx.0 as int) == p by {
                if p < v1.preds.len() {
                    assert(v2.preds[p] == v1.preds[p]);
                }
            }
            assert forall|p: int|
                0 <= p < v2.preds_term.len() implies match #[trigger] v2.preds_term[p] {
                Some(t) => (t.uid as int) < v2.terms.len(),
                None => true,
            } by {
                if p < v1.preds_term.len() {
                    assert(v2.preds_term[p] == v1.preds_term[p]);
                }
            }
            assert(v2.clauses == v1.clauses);
            assert forall|k: int| 0 <= k < v2.consts.len() implies (
            #[trigger] v2.consts[k].uid as int) < v2.terms.len() by {
                assert(v2.consts[k] == v1.consts[k]);
            }
            assert forall|c: int| 0 <= c < v2.clauses.len() implies clause_wf(
                #[trigger] v2.clauses[c],
                v2.terms,
                v2.preds,
            ) by {
                let cl = v2.clauses[c];
                assert(cl == v1.clauses[c]);
                assert(clause_wf(v1.clauses[c], v1.terms, v1.preds));
                assert forall|k: int| 0 <= k < cl.lhs.len() implies crate::clause::tterm_wf(
                    #[trigger] cl.lhs[k],
                    v2.terms,
                    v2.preds,
                    cl.vars.len() as int,
                ) by {
                    assert(crate::clause::tterm_wf(cl.lhs[k], v1.terms, v1.preds, cl.vars.len() as int));
                    lemma_tterm_preds_push(cl.lhs[k], v2.terms, v1.preds, info_v, cl.vars.len() as int);
                }
                lemma_tterm_preds_push(cl.rhs, v2.terms, v1.preds, info_v, cl.vars.len() as int);
            }
        }
        idx
    }

    /// Forces a predicate to be a term. Forcing it again to the same term
    /// is idempotent; forcing it to a different term fails and changes
    /// nothing.
    pub fn force_pred(&mut self, pred: PrdIdx, term: Term) -> (r: Result<(), Error>)
        requires
            old(self).wf(),
            (pred.0 as int) < old(self)@.preds.len(),
            old(self).has(term),
        ensures
            final(self).wf(),
            match old(self)@.preds_term[pred.0 as int] {
                None => r is Ok && final(self)@.preds_term == old(self)@.preds_term.update(
                    pred.0 as int,
                    Some(term),
                ),
                Some(t) => if t == term {
                    r is Ok && final(self)@.preds_term == old(self)@.preds_term
                } else {
                    (r matches Err(e) && e matches Error::IncoherentForce { pred: p } && p == pred)
                        && final(self)@.preds_term == old(self)@.preds_term
                },
            },
            final(self)@.terms == old(self)@.terms,
            final(self)@.consts == old(self)@.consts,
            final(self)@.preds == old(self)@.preds,
            final(self)@.max_pred_arity == old(self)@.max_pred_arity,
            final(self)@.clauses == old(self)@.clauses,
    {
        let ghost v1 = self@;
        match &self.preds_term[pred.0] {
            Some(t) => {
                if !(*t == term) {
                    return Err(Error::IncoherentForce { pred });
                }
                Ok(())
            },
            None => {
                self.preds_term[pred.0] = Some(term);
                proof {
                    let v2 = self@;
                    assert(v2.preds_term =~= v1.preds_term.update(pred.0 as int, Some(term)));
                    assert forall|p: int|
                        0 <= p < v2.preds_term.len() implies match #[trigger] v2.preds_term[p] {
                        Some(t2) => (t2.uid as int) < v2.terms.len(),
                        None => true,
                    } by {
                        if p != pred.0 as int {
                            assert(v2.preds_term[p] == v1.preds_term[p]);
                        }
                    }
                    assert forall|c: int| 0 <= c < v2.clauses.len() implies clause_wf(
                        #[trigger] v2.clauses[c],
                        v1.terms,
                        v1.preds,
                    ) by {
                        assert(v2.clauses[c] == v1.clauses[c]);
                        assert(clause_wf(v1.clauses[c], v1.terms, v1.preds));
                    }
                    lemma_inst_wf_frame(v1, v2);
                }
                Ok(())
            },
        }
    }

    /// Forgets a clause by swap-remove: the last clause, if any remains,
    /// takes the forgotten clause's index. Clause order is not preserved.
    pub fn forget_clause(&mut self, clause: crate::idx::ClsIdx) -> (r: Clause)
        requires
            old(self).wf(),
            (clause.0 as int) < old(self)@.clauses.len(),
        ensures
            final(self).wf(),
            r@ == old(self)@.clauses[clause.0 as int],
            final(self)@.clauses == old(self)@.clauses.update(
                clause.0 as int,
                old(self)@.clauses.last(),
            ).drop_last(),
            final(self)@.terms == old(self)@.terms,
            final(self)@.consts == old(self)@.consts,
            final(self)@.preds == old(self)@.preds,
            final(self)@.preds_term == old(self)@.preds_term,
            final(self)@.max_pred_arity == old(self)@.max_pred_arity,
    {
        let ghost v1 = self@;
        let r = self.clauses.swap_remove(clause.0);
        proof {
            let v2 = self@;
            assert(v2.clauses =~= v1.clauses.update(clause.0 as int, v1.clauses.last()).drop_last());
            assert forall|c: int| 0 <= c < v2.clauses.len() implies clause_wf(
                #[trigger] v2.clauses[c],
                v1.terms,
                v1.preds,
            ) by {
                if c == clause.0 as int {
                    assert(v2.clauses[c] == v1.clauses[v1.clauses.len() - 1]);
                    assert(clause_wf(v1.clauses[v1.clauses.len() - 1], v1.terms, v1.preds));
                } else {
                    assert(v2.clauses[c] == v1.clauses[c]);
                    assert(clause_wf(v1.clauses[c], v1.terms, v1.preds));
                }
            }
            lemma_inst_wf_frame(v1, v2);
        }
        r
    }

    /// Pushes a new clause.
    pub fn push_clause(&mut self, clause: Clause) -> (r: ())
        requires
            old(self).wf(),
            clause_wf(clause@, old(self)@.terms, old(self)@.preds),
        ensures
            final(self).wf(),
            final(self)@.clauses == old(self)@.clauses.push(clause@),
            final(self)@.terms == old(self)@.terms,
            final(self)@.consts == old(self)@.consts,
            final(self)@.preds == old(self)@.preds,
            final(self)@.preds_term == old(self)@.preds_term,
            final(self)@.max_pred_arity == old(self)@.max_pred_arity,
    {
        let ghost v1 = self@;
        self.clauses.push(clause);
        proof {
            let v2 = self@;
            assert(v2.clauses =~= v1.clauses.push(clause@));
            assert forall|c: int| 0 <= c < v2.clauses.len() implies clause_wf(
                #[trigger] v2.clauses[c],
                v1.terms,
                v1.preds,
            ) by {
                if c < v1.clauses.len() {
                    assert(v2.clauses[c] == v1.clauses[c]);
                    assert(clause_wf(v1.clauses[c], v1.terms, v1.preds));
                } else {
                    assert(v2.clauses[c] == clause@);
                }
            }
            lemma_inst_wf_frame(v1, v2);
        }
    }
}

/// Preserving top-term well-formedness when the registry grows by one.
pub proof fn lemma_tterm_preds_push(
    tt: crate::tterm::TTermV,
    ts: Seq<RTermV>,
    preds: Seq<PrdInfo>,
    info: PrdInfo,
    nv: int,
)
    requires
        crate::clause::tterm_wf(tt, ts, preds, nv),
    ensures
        crate::clause::tterm_wf(tt, ts, preds.push(info), nv),
{
}

impl Instance {
    /// Creates a variable term.
    pub fn var(&mut self, v: VarIdx) -> (t: Term)
        requires
            old(self).wf(),
        ensures
            final(self).wf(),
            (final(self)@.terms, t.uid as int) == mk_s(old(self)@.terms, RTermV::Var(v)),
            final(self).has(t),
            final(self)@.terms[t.uid as int] == RTermV::Var(v),
            terms_grow(old(self)@.terms, final(self)@.terms),
            same_but_terms(old(self)@, final(self)@),
    {
        let ghost v1 = self@;
        let t = self.factory.var(v);
        proof {
            lemma_wf_grow(v1, self@);
        }
        t
    }

    /// Creates an integer constant term.
    pub fn int_term(&mut self, i: Int) -> (t: Term)
        requires
            old(self).wf(),
        ensures
            final(self).wf(),
            (final(self)@.terms, t.uid as int) == mk_s(old(self)@.terms, RTermV::Int(i@)),
            final(self).has(t),
            final(self)@.terms[t.uid as int] == RTermV::Int(i@),
            terms_grow(old(self)@.terms, final(self)@.terms),
            same_but_terms(old(self)@, final(self)@),
    {
        let ghost v1 = self@;
        let t = self.factory.int_term(i);
        proof {
            lemma_wf_grow(v1, self@);
        }
        t
    }

    /// Creates the constant zero.
    pub fn zero(&mut self) -> (t: Term)
        requires
            old(self).wf(),
        ensures
            final(self).wf(),
            (final(self)@.terms, t.uid as int) == mk_s(old(self)@.terms, RTermV::Int(0)),
            final(self).has(t),
            terms_grow(old(self)@.terms, final(self)@.terms),
            same_but_terms(old(self)@, final(self)@),
    {
        self.int_term(Int::from_i64(0))
    }

    /// Creates the constant one.
    pub fn one(&mut self) -> (t: Term)
        requires
            old(self).wf(),
        ensures
            final(self).wf(),
            (final(self)@.terms, t.uid as int) == mk_s(old(self)@.terms, RTermV::Int(1)),
            final(self).has(t),
            terms_grow(old(self)@.terms, final(self)@.terms),
            same_but_terms(old(self)@, final(self)@),
    {
        self.int_term(Int::from_i64(1))
    }

    /// Creates a boolean constant term.
    pub fn bool(&mut self, b: bool) -> (t: Term)
        requires
            old(self).wf(),
        ensures
            final(self).wf(),
            (final(self)@.terms, t.uid as int) == mk_s(old(self)@.terms, RTermV::Bool(b)),
            final(self).has(t),
            final(self)@.terms[t.uid as int] == RTermV::Bool(b),
            terms_grow(old(self)@.terms, final(self)@.terms),
            same_but_terms(old(self)@, final(self)@),
    {
        let ghost v1 = self@;
        let t = self.factory.bool(b);
        proof {
            lemma_wf_grow(v1, self@);
        }
        t
    }

    /// Creates an operator application, after the construction-time
    /// simplification of degenerate conjunctions and disjunctions.
    pub fn op(&mut self, op: Op, args: Vec<Term>) -> (t: Term)
        requires
            old(self).wf(),
            old(self).has_all(args@),
        ensures
            final(self).wf(),
            (final(self)@.terms, t.uid as int) == op_s(old(self)@.terms, op, args@),
            final(self).has(t),
            terms_grow(old(self)@.terms, final(self)@.terms),
            same_but_terms(old(self)@, final(self)@),
    {
        let ghost v1 = self@;
        let t = self.factory.op(op, args);
        proof {
            lemma_wf_grow(v1, self@);
        }
        t
    }

    /// Creates a `<=` application.
    pub fn le(&mut self, lhs: Term, rhs: Term) -> (t: Term)
        requires
            old(self).wf(),
            old(self).has(lhs),
            old(self).has(rhs),
        ensures
            final(self).wf(),
            (final(self)@.terms, t.uid as int) == op_s(old(self)@.terms, Op::Le, seq![lhs, rhs]),
            final(self).has(t),
            terms_grow(old(self)@.terms, final(self)@.terms),
            same_but_terms(old(self)@, final(self)@),
    {
        let args = vec![lhs, rhs];
        proof {
            assert(args@ =~= seq![lhs, rhs]);
        }
        self.op(Op::Le, args)
    }

    /// Creates a `<` application.
    pub fn lt(&mut self, lhs: Term, rhs: Term) -> (t: Term)
        requires
            old(self).wf(),
            old(self).has(lhs),
            old(self).has(rhs),
        ensures
            final(self).wf(),
            (final(self)@.terms, t.uid as int) == op_s(old(self)@.terms, Op::Lt, seq![lhs, rhs]),
            final(self).has(t),
            terms_grow(old(self)@.terms, final(self)@.terms),
            same_but_terms(old(self)@, final(self)@),
    {
        let args = vec![lhs, rhs];
        proof {
            assert(args@ =~= seq![lhs, rhs]);
        }
        self.op(Op::Lt, args)
    }

    /// Creates a `>` application.
    pub fn gt(&mut self, lhs: Term, rhs: Term) -> (t: Term)
        requires
            old(self).wf(),
            old(self).has(lhs),
            old(self).has(rhs),
        ensures
            final(self).wf(),
            (final(self)@.terms, t.uid as int) == op_s(old(self)@.terms, Op::Gt, seq![lhs, rhs]),
            final(self).has(t),
            terms_grow(old(self)@.terms, final(self)@.terms),
            same_but_terms(old(self)@, final(self)@),
    {
        let args = vec![lhs, rhs];
        proof {
            assert(args@ =~= seq![lhs, rhs]);
        }
        self.op(Op::Gt, args)
    }

    /// Creates a `>=` application.
    pub fn ge(&mut self, lhs: Term, rhs: Term) -> (t: Term)
        requires
            old(self).wf(),
            old(self).has(lhs),
            old(self).has(rhs),
        ensures
            final(self).wf(),
            (final(self)@.terms, t.uid as int) == op_s(old(self)@.terms, Op::Ge, seq![lhs, rhs]),
            final(self).has(t),
            terms_grow(old(self)@.terms, final(self)@.terms),
            same_but_terms(old(self)@, final(self)@),
    {
        let args = vec![lhs, rhs];
        proof {
            assert(args@ =~= seq![lhs, rhs]);
        }
        self.op(Op::Ge, args)
    }

    /// Creates an equality application.
    pub fn eq(&mut self, lhs: Term, rhs: Term) -> (t: Term)
        requires
            old(self).wf(),
            old(self).has(lhs),
            old(self).has(rhs),
        ensures
            final(self).wf(),
            (final(self)@.terms, t.uid as int) == op_s(old(self)@.terms, Op::Eql, seq![lhs, rhs]),
            final(self).has(t),
            terms_grow(old(self)@.terms, final(self)@.terms),
            same_but_terms(old(self)@, final(self)@),
    {
        let args = vec![lhs, rhs];
        proof {
            assert(args@ =~= seq![lhs, rhs]);
        }
        self.op(Op::Eql, args)
    }

    /// Evaluates a term under a model.
    pub fn eval(&self, t: Term, model: &Vec<Val>) -> (r: Result<Val, Error>)
        requires
            self.wf(),
            self.has(t),
            vars_ok_at(self@.terms, t.uid as int, model@.len() as int),
            div_safe_at(self@.terms, model.deep_view(), t.uid as int),
        ensures
            crate::term::eval_matches(r, eval_at(self@.terms, model.deep_view(), t.uid as int)),
    {
        self.factory.eval(t, model)
    }

    /// Evaluates a term and projects the result to an integer.
    pub fn int_eval(&self, t: Term, model: &Vec<Val>) -> (r: Result<Option<Int>, Error>)
        requires
            self.wf(),
            self.has(t),
            vars_ok_at(self@.terms, t.uid as int, model@.len() as int),
            div_safe_at(self@.terms, model.deep_view(), t.uid as int),
        ensures
            match eval_at(self@.terms, model.deep_view(), t.uid as int) {
                Ok(AbsVal::I(n)) => r matches Ok(o) && o matches Some(v) && v@ == n,
                Ok(AbsVal::B(_)) => r matches Err(e) && e matches Error::TypeMismatch,
                Ok(AbsVal::N) => r matches Ok(o) && o is None,
                Err(_) => r is Err,
            },
    {
        self.factory.int_eval(t, model)
    }

    /// Evaluates a term and projects the result to a boolean.
    pub fn bool_eval(&self, t: Term, model: &Vec<Val>) -> (r: Result<Option<bool>, Error>)
        requires
            self.wf(),
            self.has(t),
            vars_ok_at(self@.terms, t.uid as int, model@.len() as int),
            div_safe_at(self@.terms, model.deep_view(), t.uid as int),
        ensures
            match eval_at(self@.terms, model.deep_view(), t.uid as int) {
                Ok(AbsVal::B(b)) => r matches Ok(o) && o == Some(b),
                Ok(AbsVal::I(_)) => r matches Err(e) && e matches Error::TypeMismatch,
                Ok(AbsVal::N) => r matches Ok(o) && o is None,
                Err(_) => r is Err,
            },
    {
        self.factory.bool_eval(t, model)
    }

    /// Evaluates the term a predicate is forced to, if any. A complete
    /// model is expected: the unknown value is an error here.
    pub fn eval_term_of(&self, pred: PrdIdx, model: &Vec<Val>) -> (r: Result<Option<bool>, Error>)
        requires
            self.wf(),
            (pred.0 as int) < self@.preds_term.len(),
            match self@.preds_term[pred.0 as int] {
                Some(t) => vars_ok_at(self@.terms, t.uid as int, model@.len() as int)
                    && div_safe_at(self@.terms, model.deep_view(), t.uid as int),
                None => true,
            },
        ensures
            match self@.preds_term[pred.0 as int] {
                None => r matches Ok(o) && o is None,
                Some(t) => match eval_at(self@.terms, model.deep_view(), t.uid as int) {
                    Ok(AbsVal::B(b)) => r matches Ok(o) && o == Some(b),
                    Ok(AbsVal::I(_)) => r matches Err(e) && e matches Error::TypeMismatch,
                    Ok(AbsVal::N) => r matches Err(e) && (e matches Error::PartialForcedTerm {
                        pred: p,
                    } && p == pred),
                    Err(_) => r is Err,
                },
            },
    {
        match self.term_of(pred) {
            None => Ok(None),
            Some(t) => match self.bool_eval(t, model) {
                Ok(None) => Err(Error::PartialForcedTerm { pred }),
                Ok(Some(b)) => Ok(Some(b)),
                Err(e) => Err(e),
            },
        }
    }
}

impl Op {
    /// Simplifies an operator application before interning it; what the
    /// instance's term constructor does.
    pub fn simplify(self, instance: &mut Instance, args: Vec<Term>) -> (t: Term)
        requires
            old(instance).wf(),
            old(instance).has_all(args@),
        ensures
            final(instance).wf(),
            (final(instance)@.terms, t.uid as int) == op_s(old(instance)@.terms, self, args@),
            final(instance).has(t),
            terms_grow(old(instance)@.terms, final(instance)@.terms),
            same_but_terms(old(instance)@, final(instance)@),
    {
        instance.op(self, args)
    }
}

} // verus!
