//! Learning data, and the translation of teacher counterexamples into it.

use vstd::prelude::*;

use crate::clause::ClauseV;
use crate::err::Error;
use crate::idx::{ClsIdx, PrdIdx};
use crate::instance::Instance;
use crate::term::{div_safe_at, eval_err_matches, eval_list, EvalErr, RTermV, Term};
use crate::tterm::{TTerm, TTermV};
use crate::val::{AbsVal, Val};

verus! {

/// A fully-evaluated predicate application: a predicate and one value per
/// parameter position.
pub type Sample = (PrdIdx, Vec<Val>);

/// A counterexample for one clause: one value per clause variable.
pub type Cex = Vec<Val>;

/// Counterexamples, one per falsified clause.
pub type Cexs = Vec<(ClsIdx, Cex)>;

/// The mathematical shape of a sample.
pub type SampleV = (PrdIdx, Seq<AbsVal>);

/// The view of a sample.
pub open spec fn sample_v(s: Sample) -> SampleV {
    (s.0, s.1.deep_view())
}

/// The view of a vector of samples.
pub open spec fn samples_v(s: Seq<Sample>) -> Seq<SampleV> {
    s.map_values(|x: Sample| sample_v(x))
}

/// The view of the counterexamples.
pub open spec fn cexs_v(s: Seq<(ClsIdx, Cex)>) -> Seq<(ClsIdx, Seq<AbsVal>)> {
    s.map_values(|p: (ClsIdx, Cex)| (p.0, p.1.deep_view()))
}

/// An implication constraint: evaluated antecedents, and an evaluated
/// consequent unless the clause's consequent was a pure term.
pub struct Cstr {
    /// The antecedent samples.
    pub lhs: Vec<Sample>,
    /// The consequent sample, if any.
    pub rhs: Option<Sample>,
}

/// The mathematical shape of a constraint.
pub struct CstrV {
    /// The antecedent samples.
    pub lhs: Seq<SampleV>,
    /// The consequent sample, if any.
    pub rhs: Option<SampleV>,
}

impl View for Cstr {
    type V = CstrV;

    open spec fn view(&self) -> CstrV {
        CstrV {
            lhs: samples_v(self.lhs@),
            rhs: match self.rhs {
                Some(s) => Some(sample_v(s)),
                None => None,
            },
        }
    }
}

/// The learning-data sink: positive samples, negative samples, implication
/// constraints.
pub struct Data {
    pos: Vec<Sample>,
    neg: Vec<Sample>,
    cstrs: Vec<Cstr>,
}

/// The mathematical shape of the sink.
pub struct DataV {
    /// The staged positive samples.
    pub pos: Seq<SampleV>,
    /// The staged negative samples.
    pub neg: Seq<SampleV>,
    /// The implication constraints.
    pub cstrs: Seq<CstrV>,
}

impl View for Data {
    type V = DataV;

    closed spec fn view(&self) -> DataV {
        DataV {
            pos: samples_v(self.pos@),
            neg: samples_v(self.neg@),
            cstrs: self.cstrs@.map_values(|c: Cstr| c@),
        }
    }
}

impl Data {
    /// An empty sink.
    pub fn new() -> (r: Data)
        ensures
            r@.pos =~= Seq::<SampleV>::empty(),
            r@.neg =~= Seq::<SampleV>::empty(),
            r@.cstrs =~= Seq::<CstrV>::empty(),
    {
        Data { pos: Vec::new(), neg: Vec::new(), cstrs: Vec::new() }
    }

    /// Stages a positive sample.
    pub fn stage_raw_pos(&mut self, pred: PrdIdx, args: Vec<Val>) -> (r: Result<(), Error>)
        ensures
            r is Ok,
            final(self)@.pos == old(self)@.pos.push((pred, args.deep_view())),
            final(self)@.neg == old(self)@.neg,
            final(self)@.cstrs == old(self)@.cstrs,
    {
        let ghost v1 = self@;
        self.pos.push((pred, args));
        proof {
            assert(self@.pos =~= v1.pos.push((pred, args.deep_view())));
        }
        Ok(())
    }

    /// Stages a negative sample.
    pub fn stage_raw_neg(&mut self, pred: PrdIdx, args: Vec<Val>) -> (r: Result<(), Error>)
        ensures
            r is Ok,
            final(self)@.neg == old(self)@.neg.push((pred, args.deep_view())),
            final(self)@.pos == old(self)@.pos,
            final(self)@.cstrs == old(self)@.cstrs,
    {
        let ghost v1 = self@;
        self.neg.push((pred, args));
        proof {
            assert(self@.neg =~= v1.neg.push((pred, args.deep_view())));
        }
        Ok(())
    }

    /// Adds an implication constraint.
    pub fn add_cstr(&mut self, lhs: Vec<Sample>, rhs: Option<Sample>) -> (r: Result<(), Error>)
        ensures
            r is Ok,
            final(self)@.cstrs == old(self)@.cstrs.push(
                CstrV {
                    lhs: samples_v(lhs@),
                    rhs: match rhs {
                        Some(s) => Some(sample_v(s)),
                        None => None,
                    },
                },
            ),
            final(self)@.pos == old(self)@.pos,
            final(self)@.neg == old(self)@.neg,
    {
        let ghost v1 = self@;
        self.cstrs.push(Cstr { lhs, rhs });
        proof {
            assert(self@.cstrs =~= v1.cstrs.push(self.cstrs@.last()@));
        }
        Ok(())
    }

    /// The staged positive samples.
    pub fn pos(&self) -> (r: &Vec<Sample>)
        ensures
            samples_v(r@) == self@.pos,
    {
        &self.pos
    }

    /// The staged negative samples.
    pub fn neg(&self) -> (r: &Vec<Sample>)
        ensures
            samples_v(r@) == self@.neg,
    {
        &self.neg
    }

    /// The implication constraints.
    pub fn cstrs(&self) -> (r: &Vec<Cstr>)
        ensures
            r@.map_values(|c: Cstr| c@) == self@.cstrs,
    {
        &self.cstrs
    }
}

/// The antecedent samples of a clause under a counterexample: one sample
/// per predicate application whose predicate is not forced, in order, each
/// argument evaluated; the first evaluation failure wins. Pure top terms
/// contribute nothing.
pub open spec fn ante_s(
    ts: Seq<RTermV>,
    pt: Seq<Option<Term>>,
    m: Seq<AbsVal>,
    lhs: Seq<TTermV>,
) -> Result<Seq<SampleV>, EvalErr>
    decreases lhs.len(),
{
    if lhs.len() == 0 {
        Ok(Seq::empty())
    } else {
        match lhs[0] {
            TTermV::P { pred, args } => if pt[pred.0 as int] is None {
                match eval_list(ts, m, args) {
                    Err(e) => Err(e),
                    Ok(vals) => match ante_s(ts, pt, m, lhs.drop_first()) {
                        Err(e) => Err(e),
                        Ok(rest) => Ok(seq![(pred, vals)] + rest),
                    },
                }
            } else {
                ante_s(ts, pt, m, lhs.drop_first())
            },
            _ => ante_s(ts, pt, m, lhs.drop_first()),
        }
    }
}

/// The consequent sample of a clause under a counterexample: the evaluated
/// predicate application, or nothing for a pure consequent.
pub open spec fn conseq_s(ts: Seq<RTermV>, m: Seq<AbsVal>, rhs: TTermV) -> Result<
    Option<SampleV>,
    EvalErr,
> {
    match rhs {
        TTermV::P { pred, args } => match eval_list(ts, m, args) {
            Err(e) => Err(e),
            Ok(vals) => Ok(Some((pred, vals))),
        },
        _ => Ok(None),
    }
}

/// What one counterexample becomes.
pub enum TrItem {
    /// A positive sample: the clause had no antecedent application and a
    /// predicate consequent.
    Pos(SampleV),
    /// A negative sample: one antecedent application and a pure consequent.
    Neg(SampleV),
    /// An implication constraint: everything else.
    Cstr(Seq<SampleV>, Option<SampleV>),
}

/// How translating one counterexample can fail.
pub enum TrErr {
    /// The clause had neither antecedent application nor predicate
    /// consequent: a ground clause was falsified, the problem is
    /// unsatisfiable.
    Ground,
    /// Evaluating an argument failed.
    Eval(EvalErr),
}

/// The classification of one (clause, counterexample) pair.
pub open spec fn translate_s(
    ts: Seq<RTermV>,
    pt: Seq<Option<Term>>,
    m: Seq<AbsVal>,
    cl: ClauseV,
) -> Result<TrItem, TrErr> {
    match ante_s(ts, pt, m, cl.lhs) {
        Err(e) => Err(TrErr::Eval(e)),
        Ok(ants) => match conseq_s(ts, m, cl.rhs) {
            Err(e) => Err(TrErr::Eval(e)),
            Ok(cons) => if ants.len() == 0 && cons is None {
                Err(TrErr::Ground)
            } else if ants.len() == 1 && cons is None {
                Ok(TrItem::Neg(ants[0]))
            } else if ants.len() == 0 {
                Ok(TrItem::Pos(cons->Some_0))
            } else {
                Ok(TrItem::Cstr(ants, cons))
            },
        },
    }
}

/// One translated item lands in the sink.
pub open spec fn apply_item(d: DataV, item: TrItem) -> DataV {
    match item {
        TrItem::Pos(s) => DataV { pos: d.pos.push(s), neg: d.neg, cstrs: d.cstrs },
        TrItem::Neg(s) => DataV { pos: d.pos, neg: d.neg.push(s), cstrs: d.cstrs },
        TrItem::Cstr(l, r) => DataV {
            pos: d.pos,
            neg: d.neg,
            cstrs: d.cstrs.push(CstrV { lhs: l, rhs: r }),
        },
    }
}

/// Translating a sequence of counterexamples: each is classified and lands
/// in the sink, until the first failure, whose earlier updates stay.
pub open spec fn run_cexs(
    ts: Seq<RTermV>,
    pt: Seq<Option<Term>>,
    clauses: Seq<ClauseV>,
    cexs: Seq<(ClsIdx, Seq<AbsVal>)>,
    d: DataV,
) -> (DataV, Option<TrErr>)
    decreases cexs.len(),
{
    if cexs.len() == 0 {
        (d, None)
    } else {
        let ci = cexs[0].0;
        let m = cexs[0].1;
        match translate_s(ts, pt, m, clauses[ci.0 as int]) {
            Err(e) => (d, Some(e)),
            Ok(item) => run_cexs(ts, pt, clauses, cexs.drop_first(), apply_item(d, item)),
        }
    }
}

/// The divisions met while translating one clause under one counterexample
/// are all safe: the arguments of every unforced antecedent application and
/// of a predicate consequent avoid zero divisors under the counterexample.
pub open spec fn cex_div_safe(
    ts: Seq<RTermV>,
    pt: Seq<Option<Term>>,
    m: Seq<AbsVal>,
    cl: ClauseV,
) -> bool {
    &&& forall|j: int|
        0 <= j < cl.lhs.len() ==> match #[trigger] cl.lhs[j] {
            TTermV::P { pred, args } => pt[pred.0 as int] is None ==> (forall|k: int|
                0 <= k < args.len() ==> div_safe_at(ts, m, #[trigger] args[k].uid as int)),
            _ => true,
        }
    &&& match cl.rhs {
        TTermV::P { pred, args } => forall|k: int|
            0 <= k < args.len() ==> div_safe_at(ts, m, #[trigger] args[k].uid as int),
        _ => true,
    }
}

impl Instance {
    /// Turns a teacher counterexample into learning data: for each
    /// falsified clause, the unforced antecedent applications and the
    /// predicate consequent are evaluated under the counterexample, and
    /// their classification lands in the sink — a lone antecedent becomes a
    /// negative sample, a lone consequent a positive one, anything else an
    /// implication constraint, and a clause with neither is unsatisfiable.
    pub fn cexs_to_data(&self, data: &mut Data, cexs: Cexs) -> (r: Result<(), Error>)
        requires
            self.wf(),
            forall|c: int|
                0 <= c < cexs@.len() ==> (#[trigger] cexs@[c].0.0 as int) < self@.clauses.len(),
            forall|c: int|
                0 <= c < cexs@.len() ==> (#[trigger] cexs@[c].1)@.len()
                    == self@.clauses[cexs@[c].0.0 as int].vars.len(),
            forall|c: int|
                0 <= c < cexs@.len() ==> cex_div_safe(
                    self@.terms,
                    self@.preds_term,
                    (#[trigger] cexs@[c].1).deep_view(),
                    self@.clauses[cexs@[c].0.0 as int],
                ),
        ensures
            ({
                let (d2, e) = run_cexs(
                    self@.terms,
                    self@.preds_term,
                    self@.clauses,
                    cexs_v(cexs@),
                    old(data)@,
                );
                final(data)@ == d2 && match e {
                    None => r is Ok,
                    Some(TrErr::Ground) => r matches Err(er) && er matches Error::UnsafeGround,
                    Some(TrErr::Eval(se)) => r matches Err(er) && eval_err_matches(er, se),
                }
            }),
    {
        let ghost ts = self@.terms;
        let ghost pt = self@.preds_term;
        let ghost cls = self@.clauses;
        let ghost cv = cexs_v(cexs@);
        let ghost d0 = old(data)@;
        let mut c: usize = 0;
        proof {
            assert(cv.skip(0) =~= cv);
        }
        while c < cexs.len()
            invariant
                0 <= c <= cexs.len(),
                ts == self@.terms,
                pt == self@.preds_term,
                cls == self@.clauses,
                cv == cexs_v(cexs@),
                cv.len() == cexs@.len(),
                self.wf(),
                forall|j: int|
                    0 <= j < cexs@.len() ==> (#[trigger] cexs@[j].0.0 as int) < cls.len(),
                forall|j: int|
                    0 <= j < cexs@.len() ==> (#[trigger] cexs@[j].1)@.len()
                        == cls[cexs@[j].0.0 as int].vars.len(),
                forall|j: int|
                    0 <= j < cexs@.len() ==> cex_div_safe(
                        ts,
                        pt,
                        (#[trigger] cexs@[j].1).deep_view(),
                        cls[cexs@[j].0.0 as int],
                    ),
                d0 == old(data)@,
                run_cexs(ts, pt, cls, cv, d0) == run_cexs(ts, pt, cls, cv.skip(c as int), data@),
            decreases cexs.len() - c,
        {
            let ghost rest = cv.skip(c as int);
            proof {
                assert(rest[0] == cv[c as int]);
                assert(rest.drop_first() =~= cv.skip(c as int + 1));
                assert(cv[c as int] == (cexs@[c as int].0, cexs@[c as int].1.deep_view()));
            }
            let pair = &cexs[c];
            let ci = pair.0;
            let cex = &pair.1;
            let ghost m = cex.deep_view();
            let ghost clv = cls[ci.0 as int];
            let ghost spec_res = translate_s(ts, pt, m, clv);
            let res = self.translate_one(ci, cex);
            match res {
                Err(e) => {
                    proof {
                        assert(spec_res is Err);
                        assert(run_cexs(ts, pt, cls, rest, data@) == (
                            data@,
                            Some(spec_res->Err_0),
                        ));
                    }
                    return Err(e);
                },
                Ok(item) => {
                    let ghost d_pre = data@;
                    let ghost item_v = trout_v(item);
                    proof {
                        assert(spec_res == Ok::<TrItem, TrErr>(item_v));
                        assert(run_cexs(ts, pt, cls, rest, d_pre) == run_cexs(
                            ts,
                            pt,
                            cls,
                            rest.drop_first(),
                            apply_item(d_pre, item_v),
                        ));
                    }
                    match item {
                        TrOut::Pos(pred, args) => {
                            let ghost sv = sample_v((pred, args));
                            match data.stage_raw_pos(pred, args) {
                                Ok(()) => {
                                    proof {
                                        assert(data@ == apply_item(d_pre, item_v));
                                    }
                                },
                                Err(e) => {
                                    return Err(e);
                                },
                            }
                        },
                        TrOut::Neg(pred, args) => {
                            match data.stage_raw_neg(pred, args) {
                                Ok(()) => {
                                    proof {
                                        assert(data@ == apply_item(d_pre, item_v));
                                    }
                                },
                                Err(e) => {
                                    return Err(e);
                                },
                            }
                        },
                        TrOut::Cstr(ants, cons) => {
                            let ghost ants_v = samples_v(ants@);
                            match data.add_cstr(ants, cons) {
                                Ok(()) => {
                                    proof {
                                        assert(data@ == apply_item(d_pre, item_v));
                                    }
                                },
                                Err(e) => {
                                    return Err(e);
                                },
                            }
                        },
                    }
                },
            }
            c = c + 1;
        }
        proof {
            assert(cv.skip(c as int) =~= Seq::<(ClsIdx, Seq<AbsVal>)>::empty());
        }
        Ok(())
    }
}

/// The run-time form of a translated item.
enum TrOut {
    /// A positive sample.
    Pos(PrdIdx, Vec<Val>),
    /// A negative sample.
    Neg(PrdIdx, Vec<Val>),
    /// An implication constraint.
    Cstr(Vec<Sample>, Option<Sample>),
}

/// The view of a run-time translated item.
spec fn trout_v(t: TrOut) -> TrItem {
    match t {
        TrOut::Pos(p, a) => TrItem::Pos(sample_v((p, a))),
        TrOut::Neg(p, a) => TrItem::Neg(sample_v((p, a))),
        TrOut::Cstr(l, r) => TrItem::Cstr(
            samples_v(l@),
            match r {
                Some(s) => Some(sample_v(s)),
                None => None,
            },
        ),
    }
}

impl Instance {
    /// Classifies one falsified clause under its counterexample.
    fn translate_one(&self, ci: ClsIdx, cex: &Vec<Val>) -> (r: Result<TrOut, Error>)
        requires
            self.wf(),
            (ci.0 as int) < self@.clauses.len(),
            cex@.len() == self@.clauses[ci.0 as int].vars.len(),
            cex_div_safe(
                self@.terms,
                self@.preds_term,
                cex.deep_view(),
                self@.clauses[ci.0 as int],
            ),
        ensures
            ({
                let s = translate_s(
                    self@.terms,
                    self@.preds_term,
                    cex.deep_view(),
                    self@.clauses[ci.0 as int],
                );
                match s {
                    Ok(item) => r matches Ok(t) && trout_v(t) == item,
                    Err(TrErr::Ground) => r matches Err(er) && er matches Error::UnsafeGround,
                    Err(TrErr::Eval(se)) => r matches Err(er) && eval_err_matches(er, se),
                }
            }),
    {
        let ghost ts = self@.terms;
        let ghost pt = self@.preds_term;
        let ghost m = cex.deep_view();
        let ghost clv = self@.clauses[ci.0 as int];
        let clauses = self.clauses();
        let clause = &clauses[ci.0];
        proof {
            assert(clause@ == clv);
            assert(crate::clause::clause_wf(clv, ts, self@.preds));
        }
        let fac = self.factory();
        let lhs = clause.lhs();
        let ghost lv = clv.lhs;
        let mut antecedents: Vec<Sample> = Vec::new();
        let mut j: usize = 0;
        proof {
            assert(lv.skip(0) =~= lv);
            assert(lhs@.map_values(|t: TTerm| t@) == lv);
            match ante_s(ts, pt, m, lv) {
                Ok(whole) => {
                    assert(samples_v(antecedents@) + whole =~= whole);
                },
                Err(_) => {},
            }
        }
        while j < lhs.len()
            invariant
                0 <= j <= lhs.len(),
                ts == self@.terms,
                pt == self@.preds_term,
                m == cex.deep_view(),
                m.len() == clv.vars.len(),
                self.wf(),
                lhs@.map_values(|t: TTerm| t@) == lv,
                lv.len() == lhs@.len(),
                clv == self@.clauses[ci.0 as int],
                (ci.0 as int) < self@.clauses.len(),
                lv == clv.lhs,
                fac@ == ts,
                cex_div_safe(ts, pt, m, clv),
                crate::clause::clause_wf(clv, ts, self@.preds),
                ante_s(ts, pt, m, lv) == match ante_s(ts, pt, m, lv.skip(j as int)) {
                    Ok(rs) => Ok::<Seq<SampleV>, EvalErr>(samples_v(antecedents@) + rs),
                    Err(e) => Err::<Seq<SampleV>, EvalErr>(e),
                },
            decreases lhs.len() - j,
        {
            let ghost lrest = lv.skip(j as int);
            proof {
                assert(lrest[0] == lv[j as int]);
                assert(lrest.drop_first() =~= lv.skip(j as int + 1));
                assert(lv[j as int] == lhs@[j as int]@);
                assert(crate::clause::tterm_wf(clv.lhs[j as int], ts, self@.preds, clv.vars.len() as int));
            }
            match &lhs[j] {
                TTerm::P { pred, args } => {
                    proof {
                        assert(clv.lhs[j as int] == (TTermV::P { pred: *pred, args: args@ }));
                        assert(crate::clause::tterm_preds_ok(clv.lhs[j as int], self@.preds));
                        assert((pred.0 as int) < self@.preds.len());
                    }
                    if self.term_of(*pred).is_none() {
                        let ghost old_ants = samples_v(antecedents@);
                        match fac.eval_vec(args, cex) {
                            Err(e) => {
                                proof {
                                    lemma_ante_err(ts, pt, m, lv, j as int);
                                }
                                return Err(e);
                            },
                            Ok(values) => {
                                antecedents.push((*pred, values));
                                proof {
                                    assert(samples_v(antecedents@) =~= old_ants.push(
                                        sample_v(antecedents@.last()),
                                    ));
                                    let nxt = ante_s(ts, pt, m, lv.skip(j as int + 1));
                                    if nxt is Ok {
                                        let r2 = nxt->Ok_0;
                                        assert(old_ants + (seq![sample_v(antecedents@.last())]
                                            + r2) =~= old_ants.push(
                                            sample_v(antecedents@.last()),
                                        ) + r2);
                                    }
                                }
                            },
                        }
                    }
                },
                _ => {},
            }
            j = j + 1;
        }
        proof {
            assert(lv.skip(j as int) =~= Seq::<TTermV>::empty());
            assert(samples_v(antecedents@) + Seq::<SampleV>::empty() =~= samples_v(antecedents@));
        }
        let consequent: Option<Sample> = match clause.rhs() {
            TTerm::P { pred, args } => {
                proof {
                    assert(clv.rhs == (TTermV::P { pred: *pred, args: args@ }));
                }
                match fac.eval_vec(args, cex) {
                    Err(e) => {
                        return Err(e);
                    },
                    Ok(values) => Some((*pred, values)),
                }
            },
            _ => None,
        };
        if antecedents.len() == 0 && consequent.is_none() {
            Err(Error::UnsafeGround)
        } else if antecedents.len() == 1 && consequent.is_none() {
            let ghost ants_v = samples_v(antecedents@);
            let last = antecedents.pop();
            match last {
                Some((pred, args)) => {
                    proof {
                        assert(ants_v[0] == sample_v((pred, args)));
                        assert(ante_s(ts, pt, m, lv) == Ok::<Seq<SampleV>, EvalErr>(ants_v));
                    }
                    Ok(TrOut::Neg(pred, args))
                },
                None => Err(Error::Internal),
            }
        } else if antecedents.len() == 0 {
            match consequent {
                Some((pred, args)) => Ok(TrOut::Pos(pred, args)),
                None => Err(Error::Internal),
            }
        } else {
            Ok(TrOut::Cstr(antecedents, consequent))
        }
    }
}

/// When an antecedent's arguments fail to evaluate, the whole antecedent
/// walk fails with that error.
pub proof fn lemma_ante_err(
    ts: Seq<RTermV>,
    pt: Seq<Option<Term>>,
    m: Seq<AbsVal>,
    lhs: Seq<TTermV>,
    j: int,
)
    requires
        0 <= j < lhs.len(),
        lhs[j] matches TTermV::P { pred, args } && pt[pred.0 as int] is None && eval_list(
            ts,
            m,
            args,
        ) is Err,
    ensures
        ({
            let rest = lhs.skip(j);
            ante_s(ts, pt, m, rest) == Err::<Seq<SampleV>, EvalErr>(
                match lhs[j] {
                    TTermV::P { pred, args } => eval_list(ts, m, args)->Err_0,
                    _ => EvalErr::Var,
                },
            )
        }),
{
    let rest = lhs.skip(j);
    assert(rest[0] == lhs[j]);
}

} // verus!
