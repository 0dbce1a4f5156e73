//! Terms and the term factory.
//!
//! Terms are hash-consed: the factory owns every term ever built, in an
//! arena ordered so that the sub-terms of an application always precede it,
//! and it never holds two structurally equal terms. A [`Term`] is the index
//! of its term in the arena, so equality of handles is identity of terms,
//! and two constructions of structurally equal terms yield the same handle.

use vstd::prelude::*;

use crate::big::Int;
use crate::err::Error;
use crate::idx::VarIdx;
use crate::op::{op_eval, op_panics, Op, OpErr};
use crate::val::{AbsVal, Val};

verus! {

/// Handle of a hash-consed term: the index of the term in its factory.
#[derive(Clone, Copy, PartialEq, Eq, Structural, Debug, Hash)]
pub struct Term {
    /// Unique identifier of the term within its factory.
    pub uid: usize,
}

/// A real term.
pub enum RTerm {
    /// A clause variable.
    Var(VarIdx),
    /// An integer constant.
    Int(Int),
    /// A boolean constant.
    Bool(bool),
    /// An operator application.
    App {
        /// The operator.
        op: Op,
        /// The arguments.
        args: Vec<Term>,
    },
}

/// The mathematical shape of a real term: integers by value, argument lists
/// as sequences of handles.
pub enum RTermV {
    /// A clause variable.
    Var(VarIdx),
    /// An integer constant.
    Int(int),
    /// A boolean constant.
    Bool(bool),
    /// An operator application.
    App {
        /// The operator.
        op: Op,
        /// The arguments.
        args: Seq<Term>,
    },
}

impl View for RTerm {
    type V = RTermV;

    open spec fn view(&self) -> RTermV {
        match self {
            RTerm::Var(v) => RTermV::Var(*v),
            RTerm::Int(i) => RTermV::Int(i@),
            RTerm::Bool(b) => RTermV::Bool(*b),
            RTerm::App { op, args } => RTermV::App { op: *op, args: args@ },
        }
    }
}

impl RTerm {
    /// True if the term is the constant `true`.
    pub fn is_true(&self) -> (r: bool)
        ensures
            r == (self@ == RTermV::Bool(true)),
    {
        matches!(self, RTerm::Bool(true))
    }

    /// True if the term is the constant `false`.
    pub fn is_false(&self) -> (r: bool)
        ensures
            r == (self@ == RTermV::Bool(false)),
    {
        matches!(self, RTerm::Bool(false))
    }

    /// If the term is an integer constant, its value.
    pub fn int_val(&self) -> (r: Option<Int>)
        ensures
            match self@ {
                RTermV::Int(n) => r matches Some(i) && i@ == n,
                _ => r is None,
            },
    {
        match self {
            RTerm::Int(i) => Some(i.clone()),
            _ => None,
        }
    }

    /// If the term is a variable, its index.
    pub fn var_idx(&self) -> (r: Option<VarIdx>)
        ensures
            match self@ {
                RTermV::Var(v) => r == Some(v),
                _ => r is None,
            },
    {
        match self {
            RTerm::Var(v) => Some(*v),
            _ => None,
        }
    }
}

/// Equality of handle vectors.
fn terms_eq(a: &Vec<Term>, b: &Vec<Term>) -> (r: bool)
    ensures
        r == (a@ == b@),
{
    if a.len() != b.len() {
        return false;
    }
    let mut k: usize = 0;
    while k < a.len()
        invariant
            0 <= k <= a.len(),
            a@.len() == b@.len(),
            forall|j: int| 0 <= j < k ==> a@[j] == b@[j],
        decreases a.len() - k,
    {
        if !(a[k] == b[k]) {
            return false;
        }
        k = k + 1;
    }
    proof {
        assert(a@ =~= b@);
    }
    true
}

/// Structural equality of real terms, at the level of their views.
fn rterm_eq(a: &RTerm, b: &RTerm) -> (r: bool)
    ensures
        r == (a@ == b@),
{
    match (a, b) {
        (RTerm::Var(x), RTerm::Var(y)) => *x == *y,
        (RTerm::Int(x), RTerm::Int(y)) => x.eq_val(y),
        (RTerm::Bool(x), RTerm::Bool(y)) => *x == *y,
        (RTerm::App { op: oa, args: aa }, RTerm::App { op: ob, args: ab }) => *oa == *ob
            && terms_eq(aa, ab),
        _ => false,
    }
}

/// Well-formedness of one arena entry: the arguments of an application all
/// point strictly below it, so the arena is acyclic.
pub open spec fn rterm_wf_at(t: RTermV, i: int) -> bool {
    match t {
        RTermV::App { op, args } => forall|k: int|
            0 <= k < args.len() ==> (#[trigger] args[k].uid as int) < i,
        _ => true,
    }
}

/// Well-formedness of an arena: entries only point below themselves, and no
/// two entries are structurally equal.
pub open spec fn terms_wf(ts: Seq<RTermV>) -> bool {
    &&& forall|i: int| 0 <= i < ts.len() ==> rterm_wf_at(#[trigger] ts[i], i)
    &&& forall|i: int, j: int| 0 <= i < j < ts.len() ==> ts[i] != ts[j]
}

/// The first index holding `key`, if any.
pub open spec fn find_key(ts: Seq<RTermV>, key: RTermV) -> Option<int>
    decreases ts.len(),
{
    if ts.len() == 0 {
        None
    } else if ts[0] == key {
        Some(0int)
    } else {
        match find_key(ts.drop_first(), key) {
            Some(i) => Some(i + 1),
            None => None,
        }
    }
}

pub proof fn lemma_find_key(ts: Seq<RTermV>, key: RTermV)
    ensures
        match find_key(ts, key) {
            Some(i) => 0 <= i < ts.len() && ts[i] == key && (forall|j: int|
                0 <= j < i ==> ts[j] != key),
            None => forall|j: int| 0 <= j < ts.len() ==> ts[j] != key,
        },
    decreases ts.len(),
{
    if ts.len() == 0 {
    } else if ts[0] == key {
    } else {
        let tail = ts.drop_first();
        lemma_find_key(tail, key);
        match find_key(tail, key) {
            Some(i) => {
                assert(ts[i + 1] == tail[i]);
                assert forall|j: int| 0 <= j < i + 1 implies ts[j] != key by {
                    if j > 0 {
                        assert(tail[j - 1] != key);
                        assert(ts[j] == tail[j - 1]);
                    }
                }
            },
            None => {
                assert forall|j: int| 0 <= j < ts.len() implies ts[j] != key by {
                    if j > 0 {
                        assert(tail[j - 1] != key);
                        assert(ts[j] == tail[j - 1]);
                    }
                }
            },
        }
    }
}

/// What interning a term does to an arena: if a structurally equal entry is
/// already there, nothing, and the result is its index; otherwise the term
/// is appended and the result is its fresh index.
pub open spec fn mk_s(ts: Seq<RTermV>, key: RTermV) -> (Seq<RTermV>, int) {
    match find_key(ts, key) {
        Some(i) => (ts, i),
        None => (ts.push(key), ts.len() as int),
    }
}

/// What constructing an operator application does to an arena: an empty
/// conjunction is the constant `false`, an empty disjunction the constant
/// `true`, a one-argument conjunction or disjunction is its argument, and
/// anything else is interned as an application.
pub open spec fn op_s(ts: Seq<RTermV>, op: Op, args: Seq<Term>) -> (Seq<RTermV>, int) {
    if (op == Op::And || op == Op::Or) && args.len() == 0 {
        mk_s(ts, RTermV::Bool(op == Op::Or))
    } else if (op == Op::And || op == Op::Or) && args.len() == 1 {
        (ts, args[0].uid as int)
    } else {
        mk_s(ts, RTermV::App { op, args })
    }
}

/// The term factory: the owner of every term.
pub struct Factory {
    terms: Vec<RTerm>,
}

impl View for Factory {
    type V = Seq<RTermV>;

    closed spec fn view(&self) -> Seq<RTermV> {
        self.terms@.map_values(|t: RTerm| t@)
    }
}

impl Factory {
    /// The factory's arena is well-formed.
    pub open spec fn wf(&self) -> bool {
        terms_wf(self@)
    }

    /// A handle points into this factory.
    pub open spec fn has(&self, t: Term) -> bool {
        (t.uid as int) < self@.len()
    }

    /// Every handle of a vector points into this factory.
    pub open spec fn has_all(&self, args: Seq<Term>) -> bool {
        forall|k: int| 0 <= k < args.len() ==> (#[trigger] args[k].uid as int) < self@.len()
    }

    /// An empty factory.
    pub fn new(capacity: usize) -> (r: Factory)
        ensures
            r@ =~= Seq::<RTermV>::empty(),
            r.wf(),
    {
        Factory { terms: Vec::with_capacity(capacity) }
    }

    /// The number of terms interned so far.
    pub fn len(&self) -> (r: usize)
        ensures
            r == self@.len(),
    {
        self.terms.len()
    }

    /// The term behind a handle.
    pub fn get(&self, t: Term) -> (r: &RTerm)
        requires
            self.has(t),
        ensures
            r@ == self@[t.uid as int],
    {
        &self.terms[t.uid]
    }

    /// Interns a term: returns the handle of the entry structurally equal
    /// to it, appending the term only if there was none. The handle
    /// returned for a given term is therefore a function of the arena
    /// alone, and interning the same term twice returns the same handle.
    pub fn mk(&mut self, rt: RTerm) -> (t: Term)
        requires
            old(self).wf(),
            rterm_wf_at(rt@, old(self)@.len() as int),
        ensures
            final(self).wf(),
            (final(self)@, t.uid as int) == mk_s(old(self)@, rt@),
            final(self).has(t),
            final(self)@[t.uid as int] == rt@,
            old(self)@.len() <= final(self)@.len(),
            forall|i: int| 0 <= i < old(self)@.len() ==> final(self)@[i] == old(self)@[i],
    {
        let ghost ts = self@;
        let mut k: usize = 0;
        while k < self.terms.len()
            invariant
                0 <= k <= self.terms.len(),
                ts == self@,
                ts == old(self)@,
                terms_wf(ts),
                rterm_wf_at(rt@, ts.len() as int),
                ts.len() == self.terms@.len(),
                forall|j: int| 0 <= j < ts.len() ==> ts[j] == self.terms@[j]@,
                forall|j: int| 0 <= j < k ==> ts[j] != rt@,
            decreases self.terms.len() - k,
        {
            if rterm_eq(&self.terms[k], &rt) {
                proof {
                    assert(ts[k as int] == rt@);
                    lemma_find_key(ts, rt@);
                    match find_key(ts, rt@) {
                        None => {
                            assert(false);
                        },
                        Some(i) => {
                            assert(ts[i] == rt@);
                            if i < k as int {
                                assert(ts[i] != rt@);
                            }
                            if i > k as int {
                                assert(ts[k as int] != rt@);
                            }
                            assert(i == k as int);
                        },
                    }
                }
                return Term { uid: k };
            }
            k = k + 1;
        }
        proof {
            lemma_find_key(ts, rt@);
            match find_key(ts, rt@) {
                Some(i) => {
                    assert(ts[i] != rt@);
                },
                None => {},
            }
        }
        let uid = self.terms.len();
        self.terms.push(rt);
        proof {
            assert(self@ =~= ts.push(rt@));
        }
        Term { uid }
    }

    /// The handle of a variable.
    pub fn var(&mut self, v: VarIdx) -> (t: Term)
        requires
            old(self).wf(),
        ensures
            final(self).wf(),
            (final(self)@, t.uid as int) == mk_s(old(self)@, RTermV::Var(v)),
            final(self).has(t),
            final(self)@[t.uid as int] == RTermV::Var(v),
            old(self)@.len() <= final(self)@.len(),
            forall|i: int| 0 <= i < old(self)@.len() ==> final(self)@[i] == old(self)@[i],
    {
        self.mk(RTerm::Var(v))
    }

    /// The handle of an integer constant.
    pub fn int_term(&mut self, i: Int) -> (t: Term)
        requires
            old(self).wf(),
        ensures
            final(self).wf(),
            (final(self)@, t.uid as int) == mk_s(old(self)@, RTermV::Int(i@)),
            final(self).has(t),
            final(self)@[t.uid as int] == RTermV::Int(i@),
            old(self)@.len() <= final(self)@.len(),
            forall|j: int| 0 <= j < old(self)@.len() ==> final(self)@[j] == old(self)@[j],
    {
        self.mk(RTerm::Int(i))
    }

    /// The handle of a boolean constant.
    pub fn bool(&mut self, b: bool) -> (t: Term)
        requires
            old(self).wf(),
        ensures
            final(self).wf(),
            (final(self)@, t.uid as int) == mk_s(old(self)@, RTermV::Bool(b)),
            final(self).has(t),
            final(self)@[t.uid as int] == RTermV::Bool(b),
            old(self)@.len() <= final(self)@.len(),
            forall|j: int| 0 <= j < old(self)@.len() ==> final(self)@[j] == old(self)@[j],
    {
        self.mk(RTerm::Bool(b))
    }

    /// The handle of an operator application, after the construction-time
    /// simplification of degenerate conjunctions and disjunctions.
    pub fn op(&mut self, op: Op, args: Vec<Term>) -> (t: Term)
        requires
            old(self).wf(),
            old(self).has_all(args@),
        ensures
            final(self).wf(),
            (final(self)@, t.uid as int) == op_s(old(self)@, op, args@),
            final(self).has(t),
            old(self)@.len() <= final(self)@.len(),
            forall|j: int| 0 <= j < old(self)@.len() ==> final(self)@[j] == old(self)@[j],
    {
        let is_and_or = matches!(op, Op::And | Op::Or);
        if is_and_or && args.len() == 0 {
            self.bool(matches!(op, Op::Or))
        } else if is_and_or && args.len() == 1 {
            args[0]
        } else {
            self.mk(RTerm::App { op, args })
        }
    }
}

/// How term evaluation can fail.
pub enum EvalErr {
    /// Evaluating an operator application failed.
    Op {
        /// The operator whose application failed.
        op: Op,
        /// The reason.
        kind: OpErr,
    },
    /// A variable was not covered by the model. Evaluation requires such
    /// terms away: see [`vars_ok_at`].
    Var,
}

/// What evaluating the term at `i` under model `m` yields.
pub open spec fn eval_at(ts: Seq<RTermV>, m: Seq<AbsVal>, i: int) -> Result<AbsVal, EvalErr>
    decreases i, 1int, 0int,
    when terms_wf(ts) && 0 <= i < ts.len()
{
    match ts[i] {
        RTermV::Var(v) => if (v.0 as int) < m.len() {
            Ok(m[v.0 as int])
        } else {
            Err(EvalErr::Var)
        },
        RTermV::Int(n) => Ok(AbsVal::I(n)),
        RTermV::Bool(b) => Ok(AbsVal::B(b)),
        RTermV::App { op, args } => match eval_args(ts, m, i, args) {
            Err(e) => Err(e),
            Ok(vals) => match op_eval(op, vals) {
                Ok(v) => Ok(v),
                Err(k) => Err(EvalErr::Op { op, kind: k }),
            },
        },
    }
}

/// Evaluation of an argument list, left to right; the first failure wins.
pub open spec fn eval_args(ts: Seq<RTermV>, m: Seq<AbsVal>, i: int, args: Seq<Term>) -> Result<
    Seq<AbsVal>,
    EvalErr,
>
    decreases i, 0int, args.len(),
    when terms_wf(ts) && 0 <= i < ts.len() && (forall|k: int|
        0 <= k < args.len() ==> (#[trigger] args[k].uid as int) < i)
{
    if args.len() == 0 {
        Ok(Seq::empty())
    } else {
        match eval_at(ts, m, args[0].uid as int) {
            Err(e) => Err(e),
            Ok(v) => match eval_args(ts, m, i, args.drop_first()) {
                Err(e) => Err(e),
                Ok(rest) => Ok(seq![v] + rest),
            },
        }
    }
}

/// Every variable of the term at `i` lies below `n`.
pub open spec fn vars_ok_at(ts: Seq<RTermV>, i: int, n: int) -> bool
    decreases i,
    when terms_wf(ts) && 0 <= i < ts.len()
{
    match ts[i] {
        RTermV::Var(v) => (v.0 as int) < n,
        RTermV::Int(_) => true,
        RTermV::Bool(_) => true,
        RTermV::App { op, args } => forall|k: int|
            0 <= k < args.len() ==> vars_ok_at(ts, #[trigger] args[k].uid as int, n),
    }
}

/// No division or modulo inside the term at `i` meets a zero divisor under
/// model `m`. The underlying big-integer operations do not return on a zero
/// divisor, so evaluation requires this of its inputs.
pub open spec fn div_safe_at(ts: Seq<RTermV>, m: Seq<AbsVal>, i: int) -> bool
    decreases i,
    when terms_wf(ts) && 0 <= i < ts.len()
{
    match ts[i] {
        RTermV::App { op, args } => (forall|k: int|
            0 <= k < args.len() ==> div_safe_at(ts, m, #[trigger] args[k].uid as int)) && match eval_args(
            ts,
            m,
            i,
            args,
        ) {
            Ok(vals) => !op_panics(op, vals),
            Err(_) => true,
        },
        _ => true,
    }
}

/// Whether an evaluation failure surfaces as the error it must: the failure
/// of an operator application is wrapped in an `EvalError` naming the
/// operator.
pub open spec fn err_is_kind(e: Error, k: OpErr) -> bool {
    match k {
        OpErr::Arity => e matches Error::Arity,
        OpErr::Type => e matches Error::TypeMismatch,
        OpErr::DivZero => false,
    }
}

/// Whether an error value surfaces an evaluation failure as it must: the
/// failure of an operator application is an `EvalError` naming the
/// operator and wrapping the reason.
pub open spec fn eval_err_matches(e: Error, se: EvalErr) -> bool {
    match se {
        EvalErr::Op { op, kind } => e matches Error::EvalError { op: eop, cause } && eop == op
            && err_is_kind(*cause, kind),
        EvalErr::Var => false,
    }
}

/// How the result of an evaluation relates to [`eval_at`].
pub open spec fn eval_matches(r: Result<Val, Error>, s: Result<AbsVal, EvalErr>) -> bool {
    match s {
        Ok(av) => r matches Ok(v) && v@ == av,
        Err(se) => r matches Err(e) && eval_err_matches(e, se),
    }
}

/// Evaluation of a free-standing list of terms, left to right; the first
/// failure wins.
pub open spec fn eval_list(ts: Seq<RTermV>, m: Seq<AbsVal>, args: Seq<Term>) -> Result<
    Seq<AbsVal>,
    EvalErr,
>
    decreases args.len(),
{
    if args.len() == 0 {
        Ok(Seq::empty())
    } else {
        match eval_at(ts, m, args[0].uid as int) {
            Err(e) => Err(e),
            Ok(v) => match eval_list(ts, m, args.drop_first()) {
                Err(e) => Err(e),
                Ok(rest) => Ok(seq![v] + rest),
            },
        }
    }
}

/// Whether applying the operator to these values would meet a zero
/// divisor, which the underlying big-integer operations do not survive.
fn would_panic(op: Op, vals: &Vec<Val>) -> (r: bool)
    ensures
        r == op_panics(op, vals.deep_view()),
{
    let ghost dv = vals.deep_view();
    if matches!(op, Op::Div) {
        let zero = Int::from_i64(0);
        let mut all_int = true;
        let mut found = false;
        let mut k: usize = 0;
        while k < vals.len()
            invariant
                0 <= k <= vals.len(),
                dv == vals.deep_view(),
                dv.len() == vals@.len(),
                zero@ == 0,
                all_int == (forall|jj: int| 0 <= jj < k ==> (#[trigger] dv[jj]) is I),
                found == (exists|kk: int|
                    1 <= kk < k && dv[kk] == AbsVal::I(0) && (forall|jj: int|
                        0 <= jj < kk ==> dv[jj] is I)),
            decreases vals.len() - k,
        {
            let ghost found_before = found;
            match &vals[k] {
                Val::I(x) => {
                    if k >= 1 && all_int && x.eq_val(&zero) {
                        proof {
                            assert(dv[k as int] == AbsVal::I(0));
                        }
                        found = true;
                    }
                    proof {
                        assert(dv[k as int] is I);
                        assert forall|jj: int| 0 <= jj < k + 1 implies (#[trigger] dv[jj]) is I
                            || !all_int by {}
                        if !found {
                            assert forall|kk: int|
                                1 <= kk < k + 1 implies !(dv[kk] == AbsVal::I(0) && (forall|
                                jj: int,
                            | 0 <= jj < kk ==> dv[jj] is I)) by {
                                if kk < k as int {
                                } else {
                                    if dv[kk] == AbsVal::I(0) && (forall|jj: int|
                                        0 <= jj < kk ==> dv[jj] is I) {
                                        assert(found_before == found);
                                        assert(false);
                                    }
                                }
                            }
                        }
                    }
                },
                _ => {
                    proof {
                        assert(!(dv[k as int] is I));
                        if !found {
                            assert forall|kk: int|
                                1 <= kk < k + 1 implies !(dv[kk] == AbsVal::I(0) && (forall|
                                jj: int,
                            | 0 <= jj < kk ==> dv[jj] is I)) by {
                                if kk == k as int {
                                    assert(!(dv[kk] == AbsVal::I(0)));
                                }
                            }
                        }
                    }
                    all_int = false;
                },
            }
            k = k + 1;
        }
        found
    } else if matches!(op, Op::Mod) {
        if vals.len() == 2 {
            let zero = Int::from_i64(0);
            let first_int = matches!(&vals[0], Val::I(_));
            let second_zero = match &vals[1] {
                Val::I(x) => x.eq_val(&zero),
                _ => false,
            };
            first_int && second_zero
        } else {
            false
        }
    } else {
        false
    }
}

/// One memoized evaluation result, for one arena entry: a value, an
/// operator failure, or nothing claimable (the entry's variables are not
/// covered by the model, or one of its divisions would not return).
enum Cell {
    /// The entry evaluates to this value.
    V(Val),
    /// Evaluating the entry fails in this operator for this reason.
    E(Op, OpErr),
    /// Nothing is claimed of the entry.
    X,
}

/// What a memo cell promises: wherever the entry's variables are covered
/// and its divisions are safe, the cell is exactly what evaluation yields.
spec fn cell_ok(ts: Seq<RTermV>, m: Seq<AbsVal>, nv: int, j: int, cell: Cell) -> bool {
    &&& (cell matches Cell::E(o, k) ==> k != OpErr::DivZero)
    &&& (vars_ok_at(ts, j, nv) && div_safe_at(ts, m, j)) ==> match eval_at(ts, m, j) {
        Ok(av) => cell matches Cell::V(v) && v@ == av,
        Err(EvalErr::Op { op, kind }) => cell matches Cell::E(o, k) && o == op && k == kind,
        Err(EvalErr::Var) => false,
    }
}

impl Factory {
    /// Evaluates one application entry out of the memo of its sub-entries.
    fn eval_app_cell(
        &self,
        j: usize,
        op: Op,
        args: &Vec<Term>,
        memo: &Vec<Cell>,
        model: &Vec<Val>,
    ) -> (cell: Cell)
        requires
            self.wf(),
            (j as int) < self@.len(),
            self@[j as int] == (RTermV::App { op: op, args: args@ }),
            memo@.len() == j,
            forall|jj: int|
                0 <= jj < j ==> cell_ok(
                    self@,
                    model.deep_view(),
                    model@.len() as int,
                    jj,
                    #[trigger] memo@[jj],
                ),
        ensures
            cell_ok(self@, model.deep_view(), model@.len() as int, j as int, cell),
    {
        let ghost ts = self@;
        let ghost m = model.deep_view();
        let ghost nv = model@.len() as int;
        let ghost i = j as int;
        let ghost av = args@;
        let ghost safe = vars_ok_at(ts, i, nv) && div_safe_at(ts, m, i);
        proof {
            assert(rterm_wf_at(ts[i], i));
            if safe {
                assert(forall|kk: int|
                    0 <= kk < av.len() ==> vars_ok_at(ts, #[trigger] av[kk].uid as int, nv));
                assert(forall|kk: int|
                    0 <= kk < av.len() ==> div_safe_at(ts, m, #[trigger] av[kk].uid as int));
            }
        }
        let mut vals: Vec<Val> = Vec::new();
        let mut k: usize = 0;
        proof {
            assert(av.skip(0) =~= av);
            if safe {
                match eval_args(ts, m, i, av) {
                    Ok(whole) => {
                        assert(vals.deep_view() + whole =~= whole);
                    },
                    Err(_) => {},
                }
            }
        }
        while k < args.len()
            invariant
                0 <= k <= args.len(),
                ts == self@,
                m == model.deep_view(),
                nv == model@.len(),
                i == j as int,
                0 <= i < ts.len(),
                self.wf(),
                ts[i] == (RTermV::App { op: op, args: av }),
                av == args@,
                memo@.len() == j,
                safe == (vars_ok_at(ts, i, nv) && div_safe_at(ts, m, i)),
                forall|jj: int|
                    0 <= jj < j ==> cell_ok(ts, m, nv, jj, #[trigger] memo@[jj]),
                vals.deep_view().len() == k,
                safe ==> eval_args(ts, m, i, av) == match eval_args(ts, m, i, av.skip(k as int)) {
                    Ok(rest) => Ok::<Seq<AbsVal>, EvalErr>(vals.deep_view() + rest),
                    Err(e) => Err::<Seq<AbsVal>, EvalErr>(e),
                },
            decreases args.len() - k,
        {
            let ghost rest = av.skip(k as int);
            proof {
                assert(rest[0] == av[k as int]);
                assert(rest.drop_first() =~= av.skip(k as int + 1));
                assert((av[k as int].uid as int) < i);
            }
            let child = args[k];
            proof {
                assert(child == av[k as int]);
                assert(cell_ok(ts, m, nv, child.uid as int, memo@[child.uid as int]));
            }
            match &memo[child.uid] {
                Cell::V(v) => {
                    let ghost old_vals = vals.deep_view();
                    vals.push(v.clone());
                    proof {
                        assert(vals.deep_view() =~= old_vals.push(v@));
                        if safe {
                            assert(eval_at(ts, m, child.uid as int) == Ok::<AbsVal, EvalErr>(v@));
                            let nxt = eval_args(ts, m, i, av.skip(k as int + 1));
                            if nxt is Ok {
                                let r2 = nxt->Ok_0;
                                assert(old_vals + (seq![v@] + r2) =~= old_vals.push(v@) + r2);
                            }
                        }
                    }
                },
                Cell::E(o, kind) => {
                    proof {
                        if safe {
                            assert(eval_at(ts, m, child.uid as int) == Err::<AbsVal, EvalErr>(
                                EvalErr::Op { op: *o, kind: *kind },
                            ));
                            assert(eval_args(ts, m, i, rest) == Err::<Seq<AbsVal>, EvalErr>(
                                EvalErr::Op { op: *o, kind: *kind },
                            ));
                        }
                    }
                    return Cell::E(*o, *kind);
                },
                Cell::X => {
                    proof {
                        if safe {
                            assert(vars_ok_at(ts, child.uid as int, nv) && div_safe_at(
                                ts,
                                m,
                                child.uid as int,
                            ));
                            assert(false);
                        }
                    }
                    return Cell::X;
                },
            }
            k = k + 1;
        }
        proof {
            assert(av.skip(k as int) =~= Seq::<Term>::empty());
            if safe {
                assert(vals.deep_view() + Seq::<AbsVal>::empty() =~= vals.deep_view());
                assert(eval_args(ts, m, i, av) == Ok::<Seq<AbsVal>, EvalErr>(vals.deep_view()));
            }
        }
        let ghost dv = vals.deep_view();
        let panics = would_panic(op, &vals);
        if panics {
            proof {
                if safe {
                    assert(!op_panics(op, dv));
                    assert(false);
                }
            }
            return Cell::X;
        }
        let res = op.eval(vals);
        match res {
            Ok(v) => Cell::V(v),
            Err(e) => match e {
                Error::Arity => Cell::E(op, OpErr::Arity),
                Error::TypeMismatch => Cell::E(op, OpErr::Type),
                _ => {
                    proof {
                        assert(false);
                    }
                    Cell::X
                },
            },
        }
    }

    /// Evaluates a term under a model mapping each variable to a value.
    pub fn eval(&self, t: Term, model: &Vec<Val>) -> (r: Result<Val, Error>)
        requires
            self.wf(),
            self.has(t),
            vars_ok_at(self@, t.uid as int, model@.len() as int),
            div_safe_at(self@, model.deep_view(), t.uid as int),
        ensures
            eval_matches(r, eval_at(self@, model.deep_view(), t.uid as int)),
    {
        let ghost ts = self@;
        let ghost m = model.deep_view();
        let ghost nv = model@.len() as int;
        // Terms can be arbitrarily deep, so evaluation must not recurse on
        // the call stack: every entry of the arena up to the term is
        // evaluated bottom-up instead, children always preceding parents.
        let n = self.terms.len();
        proof {
            assert(ts.len() == n as int);
        }
        let mut memo: Vec<Cell> = Vec::new();
        let mut j: usize = 0;
        while j <= t.uid
            invariant
                0 <= j <= t.uid + 1,
                ts.len() == n as int,
                ts == self@,
                m == model.deep_view(),
                nv == model@.len(),
                (t.uid as int) < ts.len(),
                self.wf(),
                memo@.len() == j,
                forall|jj: int|
                    0 <= jj < j ==> cell_ok(ts, m, nv, jj, #[trigger] memo@[jj]),
            decreases t.uid + 1 - j,
        {
            let ghost i = j as int;
            let cell: Cell = match self.get(Term { uid: j }) {
                RTerm::Var(v) => {
                    proof {
                        assert(ts[i] == RTermV::Var(*v));
                        assert(m.len() == model@.len());
                    }
                    if v.0 < model.len() {
                        Cell::V(model[v.0].clone())
                    } else {
                        Cell::X
                    }
                },
                RTerm::Int(n) => {
                    proof {
                        assert(ts[i] == RTermV::Int(n@));
                    }
                    Cell::V(Val::I(n.clone()))
                },
                RTerm::Bool(b) => {
                    proof {
                        assert(ts[i] == RTermV::Bool(*b));
                    }
                    Cell::V(Val::B(*b))
                },
                RTerm::App { op, args } => self.eval_app_cell(j, *op, args, &memo, model),
            };
            memo.push(cell);
            j = j + 1;
        }
        let last = memo.pop();
        match last {
            Some(cell) => {
                proof {
                    assert(cell == memo@.push(cell)[t.uid as int]);
                    assert(cell_ok(ts, m, nv, t.uid as int, cell));
                }
                match cell {
                    Cell::V(v) => Ok(v),
                    Cell::E(op, kind) => {
                        let cause: Error = match kind {
                            OpErr::Arity => Error::Arity,
                            OpErr::Type => Error::TypeMismatch,
                            OpErr::DivZero => {
                                proof {
                                    assert(false);
                                }
                                Error::Internal
                            },
                        };
                        Err(Error::EvalError { op, cause: Box::new(cause) })
                    },
                    Cell::X => {
                        proof {
                            assert(false);
                        }
                        Err(Error::Internal)
                    },
                }
            },
            None => {
                proof {
                    assert(false);
                }
                Err(Error::Internal)
            },
        }
    }

    /// Evaluates each term of a vector under a model, left to right,
    /// stopping at the first failure.
    pub fn eval_vec(&self, args: &Vec<Term>, model: &Vec<Val>) -> (r: Result<Vec<Val>, Error>)
        requires
            self.wf(),
            forall|k: int| 0 <= k < args@.len() ==> (#[trigger] args@[k].uid as int) < self@.len(),
            forall|k: int|
                0 <= k < args@.len() ==> vars_ok_at(
                    self@,
                    #[trigger] args@[k].uid as int,
                    model@.len() as int,
                ),
            forall|k: int|
                0 <= k < args@.len() ==> div_safe_at(
                    self@,
                    model.deep_view(),
                    #[trigger] args@[k].uid as int,
                ),
        ensures
            match eval_list(self@, model.deep_view(), args@) {
                Ok(vs) => r matches Ok(v) && v.deep_view() == vs,
                Err(se) => r matches Err(e) && eval_err_matches(e, se),
            },
    {
        let ghost ts = self@;
        let ghost m = model.deep_view();
        let ghost av = args@;
        let mut vals: Vec<Val> = Vec::new();
        let mut k: usize = 0;
        proof {
            assert(av.skip(0) =~= av);
            match eval_list(ts, m, av) {
                Ok(whole) => {
                    assert(vals.deep_view() + whole =~= whole);
                },
                Err(_) => {},
            }
        }
        while k < args.len()
            invariant
                0 <= k <= args.len(),
                ts == self@,
                m == model.deep_view(),
                av == args@,
                self.wf(),
                forall|j: int| 0 <= j < av.len() ==> (#[trigger] av[j].uid as int) < ts.len(),
                forall|j: int|
                    0 <= j < av.len() ==> vars_ok_at(
                        ts,
                        #[trigger] av[j].uid as int,
                        model@.len() as int,
                    ),
                forall|j: int|
                    0 <= j < av.len() ==> div_safe_at(ts, m, #[trigger] av[j].uid as int),
                vals.deep_view().len() == k,
                eval_list(ts, m, av) == match eval_list(ts, m, av.skip(k as int)) {
                    Ok(rest) => Ok::<Seq<AbsVal>, EvalErr>(vals.deep_view() + rest),
                    Err(e) => Err::<Seq<AbsVal>, EvalErr>(e),
                },
            decreases args.len() - k,
        {
            let ghost rest = av.skip(k as int);
            proof {
                assert(rest[0] == av[k as int]);
                assert(rest.drop_first() =~= av.skip(k as int + 1));
            }
            match self.eval(args[k], model) {
                Err(e) => {
                    proof {
                        let se = eval_at(ts, m, av[k as int].uid as int);
                        assert(se is Err);
                        assert(eval_list(ts, m, rest) == Result::<Seq<AbsVal>, EvalErr>::Err(
                            se->Err_0,
                        ));
                    }
                    return Err(e);
                },
                Ok(v) => {
                    let ghost old_vals = vals.deep_view();
                    vals.push(v);
                    proof {
                        assert(vals.deep_view() =~= old_vals.push(v@));
                        let nxt = eval_list(ts, m, av.skip(k as int + 1));
                        if nxt is Ok {
                            let r2 = nxt->Ok_0;
                            assert(old_vals + (seq![v@] + r2) =~= old_vals.push(v@) + r2);
                        }
                    }
                },
            }
            k = k + 1;
        }
        proof {
            assert(av.skip(k as int) =~= Seq::<Term>::empty());
            assert(vals.deep_view() + Seq::<AbsVal>::empty() =~= vals.deep_view());
        }
        Ok(vals)
    }

    /// Evaluates a term and projects the result to an integer.
    pub fn int_eval(&self, t: Term, model: &Vec<Val>) -> (r: Result<Option<Int>, Error>)
        requires
            self.wf(),
            self.has(t),
            vars_ok_at(self@, t.uid as int, model@.len() as int),
            div_safe_at(self@, model.deep_view(), t.uid as int),
        ensures
            match eval_at(self@, model.deep_view(), t.uid as int) {
                Ok(AbsVal::I(n)) => r matches Ok(o) && o matches Some(v) && v@ == n,
                Ok(AbsVal::B(_)) => r matches Err(e) && e matches Error::TypeMismatch,
                Ok(AbsVal::N) => r matches Ok(o) && o is None,
                Err(_) => r is Err,
            },
    {
        match self.eval(t, model) {
            Ok(v) => v.to_int(),
            Err(e) => Err(e),
        }
    }

    /// Evaluates a term and projects the result to a boolean.
    pub fn bool_eval(&self, t: Term, model: &Vec<Val>) -> (r: Result<Option<bool>, Error>)
        requires
            self.wf(),
            self.has(t),
            vars_ok_at(self@, t.uid as int, model@.len() as int),
            div_safe_at(self@, model.deep_view(), t.uid as int),
        ensures
            match eval_at(self@, model.deep_view(), t.uid as int) {
                Ok(AbsVal::B(b)) => r matches Ok(o) && o == Some(b),
                Ok(AbsVal::I(_)) => r matches Err(e) && e matches Error::TypeMismatch,
                Ok(AbsVal::N) => r matches Ok(o) && o is None,
                Err(_) => r is Err,
            },
    {
        match self.eval(t, model) {
            Ok(v) => v.to_bool(),
            Err(e) => Err(e),
        }
    }
}


/// The larger of two optional indices.
pub open spec fn opt_max(a: Option<int>, b: Option<int>) -> Option<int> {
    match (a, b) {
        (None, x) => x,
        (Some(x), None) => Some(x),
        (Some(x), Some(y)) => Some(
            if x > y {
                x
            } else {
                y
            },
        ),
    }
}

/// The highest variable index in the term at `i`, if it has any variable.
pub open spec fn hvar_at(ts: Seq<RTermV>, i: int) -> Option<int>
    decreases i, 1int, 0int,
    when terms_wf(ts) && 0 <= i < ts.len()
{
    match ts[i] {
        RTermV::Var(v) => Some(v.0 as int),
        RTermV::Int(_) => None,
        RTermV::Bool(_) => None,
        RTermV::App { op, args } => hvar_args(ts, i, args),
    }
}

/// The highest variable index across an argument list.
pub open spec fn hvar_args(ts: Seq<RTermV>, i: int, args: Seq<Term>) -> Option<int>
    decreases i, 0int, args.len(),
    when terms_wf(ts) && 0 <= i < ts.len() && (forall|k: int|
        0 <= k < args.len() ==> (#[trigger] args[k].uid as int) < i)
{
    if args.len() == 0 {
        None
    } else {
        opt_max(hvar_at(ts, args[0].uid as int), hvar_args(ts, i, args.drop_first()))
    }
}

impl Factory {
    /// The highest variable index appearing in the term, if any variable
    /// appears in it.
    pub fn highest_var(&self, t: Term) -> (r: Option<VarIdx>)
        requires
            self.wf(),
            self.has(t),
        ensures
            match hvar_at(self@, t.uid as int) {
                Some(n) => r matches Some(v) && (v.0 as int) == n,
                None => r is None,
            },
        decreases t.uid,
    {
        let ghost ts = self@;
        let ghost i = t.uid as int;
        match self.get(t) {
            RTerm::Var(v) => Some(*v),
            RTerm::Int(_) => None,
            RTerm::Bool(_) => None,
            RTerm::App { op, args } => {
                let ghost av = args@;
                proof {
                    assert(ts[i] == RTermV::App { op: *op, args: av });
                    assert(rterm_wf_at(ts[i], i));
                    assert(av.skip(0) =~= av);
                }
                let mut best: Option<VarIdx> = None;
                let mut k: usize = 0;
                while k < args.len()
                    invariant
                        0 <= k <= args.len(),
                        ts == self@,
                        i == t.uid as int,
                        0 <= i < ts.len(),
                        self.wf(),
                        ts[i] == (RTermV::App { op: *op, args: av }),
                        av == args@,
                        hvar_at(ts, i) == opt_max(
                            match best {
                                Some(v) => Some(v.0 as int),
                                None => None,
                            },
                            hvar_args(ts, i, av.skip(k as int)),
                        ),
                    decreases args.len() - k,
                {
                    let ghost rest = av.skip(k as int);
                    proof {
                        assert(rest[0] == av[k as int]);
                        assert(rest.drop_first() =~= av.skip(k as int + 1));
                        assert((av[k as int].uid as int) < i);
                    }
                    let child = args[k];
                    proof {
                        assert(child == av[k as int]);
                    }
                    let sub = self.highest_var(child);
                    best = match (best, sub) {
                        (None, x) => x,
                        (Some(b), None) => Some(b),
                        (Some(b), Some(s)) => if s.0 > b.0 {
                            Some(s)
                        } else {
                            Some(b)
                        },
                    };
                    k = k + 1;
                }
                proof {
                    assert(av.skip(k as int) =~= Seq::<Term>::empty());
                }
                best
            },
        }
    }
}

} // verus!
