//! Printing: terms, top terms and clauses as text.
//!
//! The term layer does not know how to name variables, so every printer
//! takes a rendering style: bare `v_<idx>` names, SMT-style `v<idx>` names,
//! the names declared by a clause, or substitution of argument terms for a
//! candidate's formal variables.

use vstd::prelude::*;

use crate::big::{dec_digits, dec_int, digit_char};
use crate::idx::VarIdx;
use crate::op::{op_token, Op};
use crate::term::{rterm_wf_at, terms_wf, vars_ok_at, Factory, RTerm, RTermV, Term};
use crate::val::Typ;

verus! {

/// One decimal digit as text.
fn digit_str(d: usize) -> (r: &'static str)
    requires
        d < 10,
    ensures
        r@ == seq![digit_char(d as nat)],
{
    proof {
        reveal_strlit("0");
        reveal_strlit("1");
        reveal_strlit("2");
        reveal_strlit("3");
        reveal_strlit("4");
        reveal_strlit("5");
        reveal_strlit("6");
        reveal_strlit("7");
        reveal_strlit("8");
        reveal_strlit("9");
    }
    match d {
        0 => "0",
        1 => "1",
        2 => "2",
        3 => "3",
        4 => "4",
        5 => "5",
        6 => "6",
        7 => "7",
        8 => "8",
        _ => "9",
    }
}

/// The decimal digits of a machine integer.
pub fn usize_dec(n: usize) -> (r: String)
    ensures
        r@ == dec_digits(n as nat),
    decreases n,
{
    if n < 10 {
        digit_str(n).to_owned()
    } else {
        let mut s = usize_dec(n / 10);
        s.append(digit_str(n % 10));
        s
    }
}

impl Typ {
    /// The fixed textual form of the type.
    pub fn as_str(&self) -> (r: &'static str)
        ensures
            r@ == typ_str(*self),
    {
        match *self {
            Typ::Int => "Int",
            Typ::Bool => "Bool",
        }
    }
}

/// The token of each type.
pub open spec fn typ_str(t: Typ) -> Seq<char> {
    match t {
        Typ::Int => "Int"@,
        Typ::Bool => "Bool"@,
    }
}

/// How a printer renders a variable.
pub enum VarStyle {
    /// `v_<idx>`.
    Plain,
    /// `v<idx>`, as terms are written for an SMT solver.
    Smt,
    /// The name declared for the variable, from a clause's context.
    Named(Vec<String>),
}

/// The mathematical shape of a rendering style.
pub enum VarStyleV {
    /// `v_<idx>`.
    Plain,
    /// `v<idx>`.
    Smt,
    /// Declared names.
    Named(Seq<Seq<char>>),
}

impl View for VarStyle {
    type V = VarStyleV;

    open spec fn view(&self) -> VarStyleV {
        match self {
            VarStyle::Plain => VarStyleV::Plain,
            VarStyle::Smt => VarStyleV::Smt,
            VarStyle::Named(names) => VarStyleV::Named(names.deep_view()),
        }
    }
}

/// A variable as text.
pub open spec fn var_str(vs: VarStyleV, v: VarIdx) -> Seq<char> {
    match vs {
        VarStyleV::Plain => "v_"@ + dec_digits(v.0 as nat),
        VarStyleV::Smt => "v"@ + dec_digits(v.0 as nat),
        VarStyleV::Named(names) => names[v.0 as int],
    }
}

/// A term as text: constants by value, applications as
/// `(op arg1 .. argn)`, variables by the style.
pub open spec fn print_term(ts: Seq<RTermV>, i: int, vs: VarStyleV) -> Seq<char>
    decreases i, 1int, 0int,
    when terms_wf(ts) && 0 <= i < ts.len()
{
    match ts[i] {
        RTermV::Var(v) => var_str(vs, v),
        RTermV::Int(n) => dec_int(n),
        RTermV::Bool(b) => if b {
            "true"@
        } else {
            "false"@
        },
        RTermV::App { op, args } => "("@ + op_token(op) + print_args(ts, i, args, vs) + ")"@,
    }
}

/// An argument list as text, one space before each argument.
pub open spec fn print_args(ts: Seq<RTermV>, i: int, args: Seq<Term>, vs: VarStyleV) -> Seq<char>
    decreases i, 0int, args.len(),
    when terms_wf(ts) && 0 <= i < ts.len() && (forall|k: int|
        0 <= k < args.len() ==> (#[trigger] args[k].uid as int) < i)
{
    if args.len() == 0 {
        Seq::empty()
    } else {
        " "@ + print_term(ts, args[0].uid as int, vs) + print_args(ts, i, args.drop_first(), vs)
    }
}

/// Whether a style can render every variable of the arena entry at `j`.
pub open spec fn style_ok(ts: Seq<RTermV>, vs: VarStyleV, j: int) -> bool {
    match vs {
        VarStyleV::Named(names) => vars_ok_at(ts, j, names.len() as int),
        _ => true,
    }
}

/// What a print memo cell promises: wherever the style covers the entry's
/// variables, the cell holds exactly the entry's text.
spec fn pcell_ok(ts: Seq<RTermV>, vs: VarStyleV, j: int, cell: Option<String>) -> bool {
    style_ok(ts, vs, j) ==> (cell matches Some(s) && s@ == print_term(ts, j, vs))
}

impl Factory {
    /// Writes one application entry out of the print memo of its
    /// sub-entries.
    fn write_app_cell(
        &self,
        j: usize,
        op: Op,
        args: &Vec<Term>,
        memo: &Vec<Option<String>>,
        style: &VarStyle,
    ) -> (cell: Option<String>)
        requires
            self.wf(),
            (j as int) < self@.len(),
            self@[j as int] == (RTermV::App { op: op, args: args@ }),
            memo@.len() == j,
            forall|jj: int|
                0 <= jj < j ==> pcell_ok(self@, style@, jj, #[trigger] memo@[jj]),
        ensures
            pcell_ok(self@, style@, j as int, cell),
    {
        let ghost ts = self@;
        let ghost vs = style@;
        let ghost i = j as int;
        let ghost av = args@;
        let ghost covered = style_ok(ts, vs, i);
        proof {
            assert(rterm_wf_at(ts[i], i));
            if covered {
                match vs {
                    VarStyleV::Named(names) => {
                        assert(forall|kk: int|
                            0 <= kk < av.len() ==> vars_ok_at(
                                ts,
                                #[trigger] av[kk].uid as int,
                                names.len() as int,
                            ));
                    },
                    _ => {},
                }
            }
        }
        let mut out = "(".to_owned();
        out.append(op.as_str());
        proof {
            assert(av.skip(0) =~= av);
            assert(out@ =~= "("@ + op_token(op));
            if covered {
                assert(out@ + print_args(ts, i, av.skip(0), vs) + ")"@ =~= print_term(ts, i, vs));
            }
        }
        let mut k: usize = 0;
        while k < args.len()
            invariant
                0 <= k <= args.len(),
                ts == self@,
                vs == style@,
                i == j as int,
                0 <= i < ts.len(),
                self.wf(),
                ts[i] == (RTermV::App { op: op, args: av }),
                av == args@,
                memo@.len() == j,
                covered == style_ok(ts, vs, i),
                forall|jj: int|
                    0 <= jj < j ==> pcell_ok(ts, vs, jj, #[trigger] memo@[jj]),
                covered ==> out@ + print_args(ts, i, av.skip(k as int), vs) + ")"@ == print_term(
                    ts,
                    i,
                    vs,
                ),
            decreases args.len() - k,
        {
            let ghost rest = av.skip(k as int);
            proof {
                assert(rest[0] == av[k as int]);
                assert(rest.drop_first() =~= av.skip(k as int + 1));
                assert((av[k as int].uid as int) < i);
            }
            let child = args[k];
            proof {
                assert(child == av[k as int]);
                assert(pcell_ok(ts, vs, child.uid as int, memo@[child.uid as int]));
            }
            match &memo[child.uid] {
                Some(cs) => {
                    let ghost out_before = out@;
                    let cs2 = cs.clone();
                    out.append(" ");
                    out.append(cs2.as_str());
                    proof {
                        if covered {
                            assert(out@ =~= out_before + " "@ + cs@);
                            assert(out_before + (" "@ + cs@ + print_args(
                                ts,
                                i,
                                av.skip(k as int + 1),
                                vs,
                            )) + ")"@ =~= (out_before + " "@ + cs@) + print_args(
                                ts,
                                i,
                                av.skip(k as int + 1),
                                vs,
                            ) + ")"@);
                        }
                    }
                },
                None => {
                    proof {
                        if covered {
                            assert(style_ok(ts, vs, child.uid as int));
                            assert(false);
                        }
                    }
                    return None;
                },
            }
            k = k + 1;
        }
        proof {
            assert(av.skip(k as int) =~= Seq::<Term>::empty());
            if covered {
                assert(print_args(ts, i, av.skip(k as int), vs) == Seq::<char>::empty());
                assert(out@ + Seq::<char>::empty() + ")"@ =~= out@ + ")"@);
            }
        }
        out.append(")");
        Some(out)
    }

    /// Writes a term, rendering variables by the given style.
    pub fn write_term(&self, t: Term, style: &VarStyle) -> (r: String)
        requires
            self.wf(),
            self.has(t),
            style@ matches VarStyleV::Named(names) ==> vars_ok_at(
                self@,
                t.uid as int,
                match style@ {
                    VarStyleV::Named(names) => names.len() as int,
                    _ => 0,
                },
            ),
        ensures
            r@ == print_term(self@, t.uid as int, style@),
    {
        let ghost ts = self@;
        let ghost vs = style@;
        // terms can be deep, so printing walks the arena bottom-up rather
        // than recursing on the term structure
        let n = self.len();
        proof {
            assert(ts.len() == n as int);
            assert(style_ok(ts, vs, t.uid as int));
        }
        let mut memo: Vec<Option<String>> = Vec::new();
        let mut j: usize = 0;
        while j <= t.uid
            invariant
                0 <= j <= t.uid + 1,
                ts.len() == n as int,
                ts == self@,
                vs == style@,
                (t.uid as int) < ts.len(),
                self.wf(),
                memo@.len() == j,
                forall|jj: int|
                    0 <= jj < j ==> pcell_ok(ts, vs, jj, #[trigger] memo@[jj]),
            decreases t.uid + 1 - j,
        {
            let ghost i = j as int;
            let cell: Option<String> = match self.get(Term { uid: j }) {
                RTerm::Var(v) => {
                    proof {
                        assert(ts[i] == RTermV::Var(*v));
                    }
                    match style {
                        VarStyle::Plain => {
                            let mut s = "v_".to_owned();
                            s.append(usize_dec(v.0).as_str());
                            Some(s)
                        },
                        VarStyle::Smt => {
                            let mut s = "v".to_owned();
                            s.append(usize_dec(v.0).as_str());
                            Some(s)
                        },
                        VarStyle::Named(names) => {
                            if v.0 < names.len() {
                                proof {
                                    assert(names.deep_view()[v.0 as int] == names@[v.0 as int]@);
                                }
                                Some(names[v.0].clone())
                            } else {
                                None
                            }
                        },
                    }
                },
                RTerm::Int(c) => {
                    proof {
                        assert(ts[i] == RTermV::Int(c@));
                    }
                    Some(c.to_dec_string())
                },
                RTerm::Bool(b) => {
                    proof {
                        assert(ts[i] == RTermV::Bool(*b));
                    }
                    if *b {
                        Some("true".to_owned())
                    } else {
                        Some("false".to_owned())
                    }
                },
                RTerm::App { op, args } => self.write_app_cell(j, *op, args, &memo, style),
            };
            memo.push(cell);
            j = j + 1;
        }
        let last = memo.pop();
        match last {
            Some(cell) => {
                proof {
                    assert(pcell_ok(ts, vs, t.uid as int, cell));
                }
                match cell {
                    Some(s) => s,
                    None => {
                        proof {
                            assert(false);
                        }
                        String::new()
                    },
                }
            },
            None => {
                proof {
                    assert(false);
                }
                String::new()
            },
        }
    }
}



/// A candidate term as text, its formal variables replaced by the SMT-style
/// text of the actual argument terms.
pub open spec fn print_subst(ts: Seq<RTermV>, i: int, args: Seq<Term>) -> Seq<char>
    decreases i, 1int, 0int,
    when terms_wf(ts) && 0 <= i < ts.len()
{
    match ts[i] {
        RTermV::Var(v) => print_term(ts, args[v.0 as int].uid as int, VarStyleV::Smt),
        RTermV::Int(n) => dec_int(n),
        RTermV::Bool(b) => if b {
            "true"@
        } else {
            "false"@
        },
        RTermV::App { op, args: kids } => "("@ + op_token(op) + print_subst_args(ts, i, kids, args)
            + ")"@,
    }
}

/// Argument lists under substitution.
pub open spec fn print_subst_args(ts: Seq<RTermV>, i: int, kids: Seq<Term>, args: Seq<Term>) -> Seq<
    char,
>
    decreases i, 0int, kids.len(),
    when terms_wf(ts) && 0 <= i < ts.len() && (forall|k: int|
        0 <= k < kids.len() ==> (#[trigger] kids[k].uid as int) < i)
{
    if kids.len() == 0 {
        Seq::empty()
    } else {
        " "@ + print_subst(ts, kids[0].uid as int, args) + print_subst_args(
            ts,
            i,
            kids.drop_first(),
            args,
        )
    }
}

/// What a substitution memo cell promises: wherever the argument vector
/// covers the entry's variables, the cell holds exactly the entry's
/// substituted text.
spec fn scell_ok(ts: Seq<RTermV>, args: Seq<Term>, j: int, cell: Option<String>) -> bool {
    vars_ok_at(ts, j, args.len() as int) ==> (cell matches Some(s) && s@ == print_subst(
        ts,
        j,
        args,
    ))
}

impl Factory {
    /// Writes one application entry out of the substitution memo of its
    /// sub-entries.
    fn write_subst_app_cell(
        &self,
        j: usize,
        op: Op,
        kids: &Vec<Term>,
        memo: &Vec<Option<String>>,
        args: &Vec<Term>,
    ) -> (cell: Option<String>)
        requires
            self.wf(),
            (j as int) < self@.len(),
            self@[j as int] == (RTermV::App { op: op, args: kids@ }),
            memo@.len() == j,
            forall|jj: int| 0 <= jj < j ==> scell_ok(self@, args@, jj, #[trigger] memo@[jj]),
        ensures
            scell_ok(self@, args@, j as int, cell),
    {
        let ghost ts = self@;
        let ghost i = j as int;
        let ghost kv = kids@;
        let ghost covered = vars_ok_at(ts, i, args@.len() as int);
        proof {
            assert(rterm_wf_at(ts[i], i));
            if covered {
                assert(forall|kk: int|
                    0 <= kk < kv.len() ==> vars_ok_at(
                        ts,
                        #[trigger] kv[kk].uid as int,
                        args@.len() as int,
                    ));
            }
        }
        let mut out = "(".to_owned();
        out.append(op.as_str());
        proof {
            assert(kv.skip(0) =~= kv);
            assert(out@ =~= "("@ + op_token(op));
            if covered {
                assert(out@ + print_subst_args(ts, i, kv.skip(0), args@) + ")"@ =~= print_subst(
                    ts,
                    i,
                    args@,
                ));
            }
        }
        let mut k: usize = 0;
        while k < kids.len()
            invariant
                0 <= k <= kids.len(),
                ts == self@,
                i == j as int,
                0 <= i < ts.len(),
                self.wf(),
                ts[i] == (RTermV::App { op: op, args: kv }),
                kv == kids@,
                memo@.len() == j,
                covered == vars_ok_at(ts, i, args@.len() as int),
                forall|jj: int| 0 <= jj < j ==> scell_ok(ts, args@, jj, #[trigger] memo@[jj]),
                covered ==> out@ + print_subst_args(ts, i, kv.skip(k as int), args@) + ")"@
                    == print_subst(ts, i, args@),
            decreases kids.len() - k,
        {
            let ghost rest = kv.skip(k as int);
            proof {
                assert(rest[0] == kv[k as int]);
                assert(rest.drop_first() =~= kv.skip(k as int + 1));
                assert((kv[k as int].uid as int) < i);
            }
            let child = kids[k];
            proof {
                assert(child == kv[k as int]);
                assert(scell_ok(ts, args@, child.uid as int, memo@[child.uid as int]));
            }
            match &memo[child.uid] {
                Some(cs) => {
                    let ghost out_before = out@;
                    let cs2 = cs.clone();
                    out.append(" ");
                    out.append(cs2.as_str());
                    proof {
                        if covered {
                            assert(out@ =~= out_before + " "@ + cs@);
                            assert(out_before + (" "@ + cs@ + print_subst_args(
                                ts,
                                i,
                                kv.skip(k as int + 1),
                                args@,
                            )) + ")"@ =~= (out_before + " "@ + cs@) + print_subst_args(
                                ts,
                                i,
                                kv.skip(k as int + 1),
                                args@,
                            ) + ")"@);
                        }
                    }
                },
                None => {
                    proof {
                        if covered {
                            assert(vars_ok_at(ts, child.uid as int, args@.len() as int));
                            assert(false);
                        }
                    }
                    return None;
                },
            }
            k = k + 1;
        }
        proof {
            assert(kv.skip(k as int) =~= Seq::<Term>::empty());
            if covered {
                assert(print_subst_args(ts, i, kv.skip(k as int), args@) == Seq::<char>::empty());
                assert(out@ + Seq::<char>::empty() + ")"@ =~= out@ + ")"@);
            }
        }
        out.append(")");
        Some(out)
    }

    /// Writes a term with its variables replaced by the SMT-style text of
    /// the given argument terms: how a candidate's body is materialized at
    /// an application site.
    pub fn write_term_subst(&self, t: Term, args: &Vec<Term>) -> (r: String)
        requires
            self.wf(),
            self.has(t),
            vars_ok_at(self@, t.uid as int, args@.len() as int),
            self.has_all(args@),
        ensures
            r@ == print_subst(self@, t.uid as int, args@),
    {
        let ghost ts = self@;
        let n = self.len();
        proof {
            assert(ts.len() == n as int);
        }
        let mut memo: Vec<Option<String>> = Vec::new();
        let mut j: usize = 0;
        while j <= t.uid
            invariant
                0 <= j <= t.uid + 1,
                ts.len() == n as int,
                ts == self@,
                (t.uid as int) < ts.len(),
                self.wf(),
                self.has_all(args@),
                memo@.len() == j,
                forall|jj: int| 0 <= jj < j ==> scell_ok(ts, args@, jj, #[trigger] memo@[jj]),
            decreases t.uid + 1 - j,
        {
            let ghost i = j as int;
            let cell: Option<String> = match self.get(Term { uid: j }) {
                RTerm::Var(v) => {
                    proof {
                        assert(ts[i] == RTermV::Var(*v));
                    }
                    if v.0 < args.len() {
                        Some(self.write_term(args[v.0], &VarStyle::Smt))
                    } else {
                        None
                    }
                },
                RTerm::Int(c) => {
                    proof {
                        assert(ts[i] == RTermV::Int(c@));
                    }
                    Some(c.to_dec_string())
                },
                RTerm::Bool(b) => {
                    proof {
                        assert(ts[i] == RTermV::Bool(*b));
                    }
                    if *b {
                        Some("true".to_owned())
                    } else {
                        Some("false".to_owned())
                    }
                },
                RTerm::App { op, args: kids } => self.write_subst_app_cell(
                    j,
                    *op,
                    kids,
                    &memo,
                    args,
                ),
            };
            memo.push(cell);
            j = j + 1;
        }
        let last = memo.pop();
        match last {
            Some(cell) => {
                proof {
                    assert(scell_ok(ts, args@, t.uid as int, cell));
                }
                match cell {
                    Some(s) => s,
                    None => {
                        proof {
                            assert(false);
                        }
                        String::new()
                    },
                }
            },
            None => {
                proof {
                    assert(false);
                }
                String::new()
            },
        }
    }
}

/// An argument list as text, one space before each argument; for lists
/// whose terms are not tied to one application node.
pub open spec fn print_term_list(ts: Seq<RTermV>, kids: Seq<Term>, vs: VarStyleV) -> Seq<char>
    decreases kids.len(),
{
    if kids.len() == 0 {
        Seq::empty()
    } else {
        " "@ + print_term(ts, kids[0].uid as int, vs) + print_term_list(ts, kids.drop_first(), vs)
    }
}

/// A top term as text: a predicate application as `(name arg..)` with the
/// given predicate names, a negation as `(not t)`, a pure term as itself.
pub open spec fn print_tterm(
    ts: Seq<RTermV>,
    tt: crate::tterm::TTermV,
    vs: VarStyleV,
    pnames: Seq<Seq<char>>,
) -> Seq<char> {
    match tt {
        crate::tterm::TTermV::P { pred, args } => "("@ + pnames[pred.0 as int] + print_term_list(
            ts,
            args,
            vs,
        ) + ")"@,
        crate::tterm::TTermV::N(t) => "(not "@ + print_term(ts, t.uid as int, vs) + ")"@,
        crate::tterm::TTermV::T(t) => print_term(ts, t.uid as int, vs),
    }
}

/// Whether a style can render a top term: a named style must cover the
/// variables of each of its terms.
pub open spec fn style_fits(ts: Seq<RTermV>, tt: crate::tterm::TTermV, vs: VarStyleV) -> bool {
    match vs {
        VarStyleV::Named(names) => crate::tterm::tterm_vars_ok(ts, tt, names.len() as int),
        _ => true,
    }
}

impl crate::tterm::TTerm {
    /// Writes a top term, naming predicates out of the given table.
    pub fn write(&self, f: &Factory, style: &VarStyle, pnames: &Vec<String>) -> (r: String)
        requires
            f.wf(),
            crate::tterm::tterm_terms_ok(self@, f@.len() as int),
            style_fits(f@, self@, style@),
            self@ matches crate::tterm::TTermV::P { pred, args } ==> (pred.0 as int)
                < pnames.deep_view().len(),
        ensures
            r@ == print_tterm(f@, self@, style@, pnames.deep_view()),
    {
        let ghost ts = f@;
        match self {
            crate::tterm::TTerm::P { pred, args } => {
                let ghost av = args@;
                proof {
                    assert(pnames.deep_view().len() == pnames@.len());
                }
                let mut s = "(".to_owned();
                s.append(pnames[pred.0].as_str());
                proof {
                    assert(pnames.deep_view()[pred.0 as int] == pnames@[pred.0 as int]@);
                    assert(av.skip(0) =~= av);
                    assert(s@ =~= "("@ + pnames.deep_view()[pred.0 as int]);
                    assert(s@ + print_term_list(ts, av.skip(0), style@) + ")"@ =~= print_tterm(
                        ts,
                        self@,
                        style@,
                        pnames.deep_view(),
                    ));
                }
                let mut k: usize = 0;
                while k < args.len()
                    invariant
                        0 <= k <= args.len(),
                        ts == f@,
                        f.wf(),
                        av == args@,
                        forall|j: int| 0 <= j < av.len() ==> (#[trigger] av[j].uid as int) < ts.len(),
                        match style@ {
                            VarStyleV::Named(names) => forall|j: int|
                                0 <= j < av.len() ==> vars_ok_at(
                                    ts,
                                    #[trigger] av[j].uid as int,
                                    names.len() as int,
                                ),
                            _ => true,
                        },
                        s@ + print_term_list(ts, av.skip(k as int), style@) + ")"@ == print_tterm(
                            ts,
                            self@,
                            style@,
                            pnames.deep_view(),
                        ),
                    decreases args.len() - k,
                {
                    let ghost rest = av.skip(k as int);
                    proof {
                        assert(rest[0] == av[k as int]);
                        assert(rest.drop_first() =~= av.skip(k as int + 1));
                    }
                    let child = args[k];
                    let cs = f.write_term(child, style);
                    let ghost s_before = s@;
                    s.append(" ");
                    s.append(cs.as_str());
                    proof {
                        assert(s@ =~= s_before + " "@ + cs@);
                        assert(s_before + (" "@ + cs@ + print_term_list(
                            ts,
                            av.skip(k as int + 1),
                            style@,
                        )) + ")"@ =~= (s_before + " "@ + cs@) + print_term_list(
                            ts,
                            av.skip(k as int + 1),
                            style@,
                        ) + ")"@);
                    }
                    k = k + 1;
                }
                proof {
                    assert(av.skip(k as int) =~= Seq::<Term>::empty());
                    assert(s@ + Seq::<char>::empty() + ")"@ =~= s@ + ")"@);
                }
                s.append(")");
                s
            },
            crate::tterm::TTerm::N(t) => {
                let mut s = "(not ".to_owned();
                s.append(f.write_term(*t, style).as_str());
                s.append(")");
                proof {
                    assert(s@ =~= "(not "@ + print_term(ts, t.uid as int, style@) + ")"@);
                }
                s
            },
            crate::tterm::TTerm::T(t) => f.write_term(*t, style),
        }
    }
}


/// The declared-name rendering style of a clause.
pub open spec fn clause_style(cl: crate::clause::ClauseV) -> VarStyleV {
    VarStyleV::Named(cl.vars.map_values(|vi: crate::clause::VarInfo| vi.name@))
}

/// The variable context of a clause as text: ` (name type)` per variable.
pub open spec fn print_var_decls(vars: Seq<crate::clause::VarInfo>) -> Seq<char>
    decreases vars.len(),
{
    if vars.len() == 0 {
        Seq::empty()
    } else {
        " ("@ + vars[0].name@ + " "@ + typ_str(vars[0].typ) + ")"@ + print_var_decls(
            vars.drop_first(),
        )
    }
}

/// The antecedents after the first, each on its own indented line.
pub open spec fn print_lhs_rest(
    ts: Seq<RTermV>,
    lhs: Seq<crate::tterm::TTermV>,
    vs: VarStyleV,
    pnames: Seq<Seq<char>>,
) -> Seq<char>
    decreases lhs.len(),
{
    if lhs.len() == 0 {
        Seq::empty()
    } else {
        "\n    "@ + print_tterm(ts, lhs[0], vs, pnames) + print_lhs_rest(
            ts,
            lhs.drop_first(),
            vs,
            pnames,
        )
    }
}

/// A clause's antecedent list as text: `()` when empty, otherwise the
/// antecedents between parentheses, one per line.
pub open spec fn print_lhs(
    ts: Seq<RTermV>,
    lhs: Seq<crate::tterm::TTermV>,
    vs: VarStyleV,
    pnames: Seq<Seq<char>>,
) -> Seq<char> {
    if lhs.len() == 0 {
        "()"@
    } else {
        "( "@ + print_tterm(ts, lhs[0], vs, pnames) + print_lhs_rest(ts, lhs.drop_first(), vs, pnames)
            + "\n  )"@
    }
}

/// A clause as text: the `clause` keyword, the variable context, the
/// antecedents, the consequent.
pub open spec fn print_clause(
    ts: Seq<RTermV>,
    cl: crate::clause::ClauseV,
    pnames: Seq<Seq<char>>,
) -> Seq<char> {
    "(clause\n  ("@ + print_var_decls(cl.vars) + " )\n  "@ + print_lhs(
        ts,
        cl.lhs,
        clause_style(cl),
        pnames,
    ) + "\n  "@ + print_tterm(ts, cl.rhs, clause_style(cl), pnames) + "\n)"@
}

/// The names of a clause's variables.
fn names_of_vars(vars: &Vec<crate::clause::VarInfo>) -> (r: Vec<String>)
    ensures
        r.deep_view() == vars@.map_values(|vi: crate::clause::VarInfo| vi.name@),
{
    let mut out: Vec<String> = Vec::new();
    let mut k: usize = 0;
    while k < vars.len()
        invariant
            0 <= k <= vars.len(),
            out.deep_view().len() == k,
            forall|j: int| 0 <= j < k ==> out.deep_view()[j] == (#[trigger] vars@[j]).name@,
        decreases vars.len() - k,
    {
        out.push(vars[k].name.clone());
        k = k + 1;
    }
    proof {
        assert(out.deep_view() =~= vars@.map_values(|vi: crate::clause::VarInfo| vi.name@));
    }
    out
}

/// The names of the registry's predicates.
fn names_of_preds(preds: &Vec<crate::clause::PrdInfo>) -> (r: Vec<String>)
    ensures
        r.deep_view() == preds@.map_values(|p: crate::clause::PrdInfo| p.name@),
{
    let mut out: Vec<String> = Vec::new();
    let mut k: usize = 0;
    while k < preds.len()
        invariant
            0 <= k <= preds.len(),
            out.deep_view().len() == k,
            forall|j: int| 0 <= j < k ==> out.deep_view()[j] == (#[trigger] preds@[j]).name@,
        decreases preds.len() - k,
    {
        out.push(preds[k].name.clone());
        k = k + 1;
    }
    proof {
        assert(out.deep_view() =~= preds@.map_values(|p: crate::clause::PrdInfo| p.name@));
    }
    out
}

impl crate::clause::Clause {
    /// Writes the clause in the checker's format, naming variables out of
    /// its own context and predicates out of the registry.
    pub fn write(&self, f: &Factory, preds: &Vec<crate::clause::PrdInfo>) -> (r: String)
        requires
            f.wf(),
            crate::clause::clause_wf(self@, f@, preds@),
        ensures
            r@ == print_clause(
                f@,
                self@,
                preds@.map_values(|p: crate::clause::PrdInfo| p.name@),
            ),
    {
        let ghost ts = f@;
        let ghost clv = self@;
        let ghost pn = preds@.map_values(|p: crate::clause::PrdInfo| p.name@);
        let vnames = names_of_vars(self.vars());
        let ghost style_v = clause_style(clv);
        let style = VarStyle::Named(vnames);
        proof {
            assert(style@ == style_v);
        }
        let pnames = names_of_preds(preds);
        let lhs = self.lhs();
        let ghost lv = clv.lhs;
        proof {
            assert(lhs@.map_values(|t: crate::tterm::TTerm| t@) == lv);
        }
        let mut s = "(clause\n  (".to_owned();
        // variable context
        let vars = self.vars();
        let ghost vv = clv.vars;
        let mut k: usize = 0;
        proof {
            assert(vv.skip(0) =~= vv);
            assert(s@ =~= "(clause\n  ("@ + Seq::<char>::empty());
        }
        while k < vars.len()
            invariant
                0 <= k <= vars.len(),
                vv == vars@,
                s@ + print_var_decls(vv.skip(k as int)) == "(clause\n  ("@ + print_var_decls(vv),
            decreases vars.len() - k,
        {
            let ghost rest = vv.skip(k as int);
            proof {
                assert(rest[0] == vv[k as int]);
                assert(rest.drop_first() =~= vv.skip(k as int + 1));
            }
            let ghost s_before = s@;
            s.append(" (");
            s.append(vars[k].name.as_str());
            s.append(" ");
            s.append(vars[k].typ.as_str());
            s.append(")");
            proof {
                assert(s@ =~= s_before + (" ("@ + vv[k as int].name@ + " "@ + typ_str(
                    vv[k as int].typ,
                ) + ")"@));
                assert(s_before + (" ("@ + vv[k as int].name@ + " "@ + typ_str(vv[k as int].typ)
                    + ")"@) + print_var_decls(vv.skip(k as int + 1)) =~= s_before + print_var_decls(
                    rest,
                ));
            }
            k = k + 1;
        }
        proof {
            assert(vv.skip(k as int) =~= Seq::<crate::clause::VarInfo>::empty());
            assert(s@ + Seq::<char>::empty() =~= s@);
        }
        s.append(" )\n  ");
        // antecedents
        let ghost s_decl = s@;
        if lhs.len() == 0 {
            s.append("()");
            proof {
                assert(s@ =~= s_decl + "()"@);
            }
        } else {
            proof {
                assert(crate::clause::tterm_wf(lv[0], ts, preds@, clv.vars.len() as int));
                assert(vv.map_values(|vi: crate::clause::VarInfo| vi.name@).len() == vv.len());
            }
            s.append("( ");
            s.append(lhs[0].write(f, &style, &pnames).as_str());
            let ghost s_first = s@;
            proof {
                assert(lv.skip(1) =~= lv.drop_first());
                assert(s_first =~= s_decl + "( "@ + print_tterm(ts, lv[0], style_v, pn));
            }
            let mut j: usize = 1;
            while j < lhs.len()
                invariant
                    1 <= j <= lhs.len(),
                    ts == f@,
                    f.wf(),
                    pn == preds@.map_values(|p: crate::clause::PrdInfo| p.name@),
                    pnames.deep_view() == pn,
                    style@ == style_v,
                    style_v == clause_style(clv),
                    lv == clv.lhs,
                    lhs@.map_values(|t: crate::tterm::TTerm| t@) == lv,
                    lv.len() == lhs@.len(),
                    crate::clause::clause_wf(clv, ts, preds@),
                    s@ + print_lhs_rest(ts, lv.skip(j as int), style_v, pn) == s_first
                        + print_lhs_rest(ts, lv.skip(1), style_v, pn),
                decreases lhs.len() - j,
            {
                let ghost rest = lv.skip(j as int);
                proof {
                    assert(rest[0] == lv[j as int]);
                    assert(rest.drop_first() =~= lv.skip(j as int + 1));
                    assert(lv[j as int] == lhs@[j as int]@);
                    assert(crate::clause::tterm_wf(clv.lhs[j as int], ts, preds@, clv.vars.len() as int));
                    assert(clause_style(clv) matches VarStyleV::Named(nm) && nm.len()
                        == clv.vars.len());
                }
                let ghost s_before = s@;
                s.append("\n    ");
                s.append(lhs[j].write(f, &style, &pnames).as_str());
                proof {
                    assert(s@ =~= s_before + ("\n    "@ + print_tterm(ts, lv[j as int], style_v, pn)));
                    assert(s_before + ("\n    "@ + print_tterm(ts, lv[j as int], style_v, pn))
                        + print_lhs_rest(ts, lv.skip(j as int + 1), style_v, pn) =~= s_before
                        + print_lhs_rest(ts, rest, style_v, pn));
                }
                j = j + 1;
            }
            proof {
                assert(lv.skip(j as int) =~= Seq::<crate::tterm::TTermV>::empty());
                assert(s@ + Seq::<char>::empty() =~= s@);
            }
            s.append("\n  )");
            proof {
                assert(s@ =~= s_decl + ("( "@ + print_tterm(ts, lv[0], style_v, pn) + print_lhs_rest(
                    ts,
                    lv.drop_first(),
                    style_v,
                    pn,
                ) + "\n  )"@));
            }
        }
        // consequent
        s.append("\n  ");
        proof {
            assert(crate::clause::tterm_wf(clv.rhs, ts, preds@, clv.vars.len() as int));
        }
        s.append(self.rhs().write(f, &style, &pnames).as_str());
        s.append("\n)");
        proof {
            assert(s@ =~= "(clause\n  ("@ + print_var_decls(clv.vars) + " )\n  "@ + print_lhs(
                ts,
                clv.lhs,
                style_v,
                pn,
            ) + "\n  "@ + print_tterm(ts, clv.rhs, style_v, pn) + "\n)"@);
        }
        s
    }
}


/// A top term in SMT form, every predicate application expanded through a
/// candidate map: the candidate's body with the application's arguments
/// substituted for its formal variables.
pub open spec fn print_tterm_cands(
    ts: Seq<RTermV>,
    tt: crate::tterm::TTermV,
    cands: Seq<Option<Term>>,
) -> Seq<char> {
    match tt {
        crate::tterm::TTermV::P { pred, args } => print_subst(
            ts,
            cands[pred.0 as int]->Some_0.uid as int,
            args,
        ),
        crate::tterm::TTermV::N(t) => "(not "@ + print_term(ts, t.uid as int, VarStyleV::Smt)
            + ")"@,
        crate::tterm::TTermV::T(t) => print_term(ts, t.uid as int, VarStyleV::Smt),
    }
}

/// The antecedents in SMT form, one space before each.
pub open spec fn print_lhs_cands(
    ts: Seq<RTermV>,
    lhs: Seq<crate::tterm::TTermV>,
    cands: Seq<Option<Term>>,
) -> Seq<char>
    decreases lhs.len(),
{
    if lhs.len() == 0 {
        Seq::empty()
    } else {
        " "@ + print_tterm_cands(ts, lhs[0], cands) + print_lhs_cands(ts, lhs.drop_first(), cands)
    }
}

/// A clause in SMT form: the negation of the implication from the
/// conjunction of the antecedents to the consequent, predicates expanded
/// through the candidates.
pub open spec fn print_clause_smt2(
    ts: Seq<RTermV>,
    cl: crate::clause::ClauseV,
    cands: Seq<Option<Term>>,
) -> Seq<char> {
    if cl.lhs.len() == 0 {
        "(not "@ + print_tterm_cands(ts, cl.rhs, cands) + ")"@
    } else {
        "(not (=> (and"@ + print_lhs_cands(ts, cl.lhs, cands) + ") "@ + print_tterm_cands(
            ts,
            cl.rhs,
            cands,
        ) + "))"@
    }
}

/// A candidate map can expand a top term: every predicate applied has a
/// candidate whose variables are covered by the application's arguments.
pub open spec fn cands_fit(
    ts: Seq<RTermV>,
    tt: crate::tterm::TTermV,
    cands: Seq<Option<Term>>,
) -> bool {
    match tt {
        crate::tterm::TTermV::P { pred, args } => {
            &&& (pred.0 as int) < cands.len()
            &&& cands[pred.0 as int] matches Some(t) && (t.uid as int) < ts.len() && vars_ok_at(
                ts,
                t.uid as int,
                args.len() as int,
            )
        },
        _ => true,
    }
}

impl crate::tterm::TTerm {
    /// Writes a top term in SMT form, expanding predicate applications
    /// through the candidate map.
    pub fn write_smt2(&self, f: &Factory, cands: &Vec<Option<Term>>) -> (r: String)
        requires
            f.wf(),
            crate::tterm::tterm_terms_ok(self@, f@.len() as int),
            cands_fit(f@, self@, cands@),
        ensures
            r@ == print_tterm_cands(f@, self@, cands@),
    {
        match self {
            crate::tterm::TTerm::P { pred, args } => match &cands[pred.0] {
                Some(t) => f.write_term_subst(*t, args),
                None => {
                    // unreachable: the caller supplies a candidate for
                    // every predicate applied
                    proof {
                        assert(false);
                    }
                    String::new()
                },
            },
            crate::tterm::TTerm::N(t) => {
                let mut s = "(not ".to_owned();
                s.append(f.write_term(*t, &VarStyle::Smt).as_str());
                s.append(")");
                proof {
                    assert(s@ =~= "(not "@ + print_term(f@, t.uid as int, VarStyleV::Smt) + ")"@);
                }
                s
            },
            crate::tterm::TTerm::T(t) => f.write_term(*t, &VarStyle::Smt),
        }
    }
}

impl crate::clause::Clause {
    /// Writes the clause for an SMT solver: the negation of its
    /// implication, every predicate application expanded through the
    /// candidate map.
    pub fn to_smt2(&self, f: &Factory, cands: &Vec<Option<Term>>) -> (r: String)
        requires
            f.wf(),
            forall|k: int|
                0 <= k < self@.lhs.len() ==> crate::tterm::tterm_terms_ok(
                    #[trigger] self@.lhs[k],
                    f@.len() as int,
                ),
            crate::tterm::tterm_terms_ok(self@.rhs, f@.len() as int),
            forall|k: int|
                0 <= k < self@.lhs.len() ==> cands_fit(f@, #[trigger] self@.lhs[k], cands@),
            cands_fit(f@, self@.rhs, cands@),
        ensures
            r@ == print_clause_smt2(f@, self@, cands@),
    {
        let ghost ts = f@;
        let ghost clv = self@;
        let ghost lv = clv.lhs;
        let lhs = self.lhs();
        proof {
            assert(lhs@.map_values(|t: crate::tterm::TTerm| t@) == lv);
        }
        let mut s = "(not ".to_owned();
        if lhs.len() == 0 {
            s.append(self.rhs().write_smt2(f, cands).as_str());
            s.append(")");
            proof {
                assert(s@ =~= "(not "@ + print_tterm_cands(ts, clv.rhs, cands@) + ")"@);
            }
            s
        } else {
            s.append("(=> (and");
            let ghost s_head = s@;
            proof {
                assert(lv.skip(0) =~= lv);
                assert(s_head =~= "(not "@ + "(=> (and"@);
            }
            let mut j: usize = 0;
            while j < lhs.len()
                invariant
                    0 <= j <= lhs.len(),
                    ts == f@,
                    f.wf(),
                    lv == clv.lhs,
                    lhs@.map_values(|t: crate::tterm::TTerm| t@) == lv,
                    lv.len() == lhs@.len(),
                    forall|k: int|
                        0 <= k < lv.len() ==> crate::tterm::tterm_terms_ok(
                            #[trigger] lv[k],
                            ts.len() as int,
                        ),
                    forall|k: int| 0 <= k < lv.len() ==> cands_fit(ts, #[trigger] lv[k], cands@),
                    s@ + print_lhs_cands(ts, lv.skip(j as int), cands@) == s_head
                        + print_lhs_cands(ts, lv, cands@),
                    s_head == "(not "@ + "(=> (and"@,
                decreases lhs.len() - j,
            {
                let ghost rest = lv.skip(j as int);
                proof {
                    assert(rest[0] == lv[j as int]);
                    assert(rest.drop_first() =~= lv.skip(j as int + 1));
                    assert(lv[j as int] == lhs@[j as int]@);
                }
                let ghost s_before = s@;
                s.append(" ");
                s.append(lhs[j].write_smt2(f, cands).as_str());
                proof {
                    assert(s@ =~= s_before + (" "@ + print_tterm_cands(ts, lv[j as int], cands@)));
                    assert(s_before + (" "@ + print_tterm_cands(ts, lv[j as int], cands@))
                        + print_lhs_cands(ts, lv.skip(j as int + 1), cands@) =~= s_before
                        + print_lhs_cands(ts, rest, cands@));
                }
                j = j + 1;
            }
            proof {
                assert(lv.skip(j as int) =~= Seq::<crate::tterm::TTermV>::empty());
                assert(s@ + Seq::<char>::empty() =~= s@);
            }
            s.append(") ");
            s.append(self.rhs().write_smt2(f, cands).as_str());
            s.append("))");
            proof {
                reveal_strlit("(not ");
                reveal_strlit("(=> (and");
                reveal_strlit("(not (=> (and");
                assert("(not "@ + "(=> (and"@ =~= "(not (=> (and"@);
                assert(s@ =~= "(not (=> (and"@ + print_lhs_cands(ts, lv, cands@) + ") "@
                    + print_tterm_cands(ts, clv.rhs, cands@) + "))"@);
            }
            s
        }
    }
}

/// One predicate declaration as text.
pub open spec fn print_pred_dec(p: crate::clause::PrdInfo) -> Seq<char> {
    "(declare-pred\n  "@ + p.name@ + " ("@ + print_sig(p.sig@) + " )\n)\n"@
}

/// A signature as text, one space before each type.
pub open spec fn print_sig(sig: Seq<Typ>) -> Seq<char>
    decreases sig.len(),
{
    if sig.len() == 0 {
        Seq::empty()
    } else {
        " "@ + typ_str(sig[0]) + print_sig(sig.drop_first())
    }
}

/// All predicate declarations as text.
pub open spec fn print_pred_decs(preds: Seq<crate::clause::PrdInfo>) -> Seq<char>
    decreases preds.len(),
{
    if preds.len() == 0 {
        Seq::empty()
    } else {
        print_pred_dec(preds[0]) + print_pred_decs(preds.drop_first())
    }
}

/// All clauses as text, one blank line before each.
pub open spec fn print_clauses(
    ts: Seq<RTermV>,
    clauses: Seq<crate::clause::ClauseV>,
    pnames: Seq<Seq<char>>,
) -> Seq<char>
    decreases clauses.len(),
{
    if clauses.len() == 0 {
        Seq::empty()
    } else {
        "\n"@ + print_clause(ts, clauses[0], pnames) + print_clauses(
            ts,
            clauses.drop_first(),
            pnames,
        )
    }
}

/// The whole instance as text: the declarations, then the clauses.
pub open spec fn print_instance(v: crate::instance::InstanceV) -> Seq<char> {
    print_pred_decs(v.preds) + print_clauses(
        v.terms,
        v.clauses,
        v.preds.map_values(|p: crate::clause::PrdInfo| p.name@),
    ) + "\n"@
}

impl crate::instance::Instance {
    /// Writes the instance in the checker's format: every predicate
    /// declaration, then every clause.
    pub fn to_text(&self) -> (r: String)
        requires
            self.wf(),
        ensures
            r@ == print_instance(self@),
    {
        let ghost v = self@;
        let preds = self.preds();
        let ghost pv = v.preds;
        let mut s = String::new();
        let mut k: usize = 0;
        proof {
            assert(pv.skip(0) =~= pv);
            assert(s@ + print_pred_decs(pv.skip(0)) =~= print_pred_decs(pv));
        }
        while k < preds.len()
            invariant
                0 <= k <= preds.len(),
                pv == preds@,
                s@ + print_pred_decs(pv.skip(k as int)) == print_pred_decs(pv),
            decreases preds.len() - k,
        {
            let ghost rest = pv.skip(k as int);
            proof {
                assert(rest[0] == pv[k as int]);
                assert(rest.drop_first() =~= pv.skip(k as int + 1));
            }
            let ghost s_before = s@;
            s.append("(declare-pred\n  ");
            s.append(preds[k].name.as_str());
            s.append(" (");
            let p = &preds[k];
            let ghost sg = pv[k as int].sig@;
            let ghost s_sig0 = s@;
            let mut t: usize = 0;
            proof {
                assert(sg.skip(0) =~= sg);
                assert(s@ + print_sig(sg.skip(0)) =~= s_sig0 + print_sig(sg));
            }
            while t < p.sig.len()
                invariant
                    0 <= t <= p.sig.len(),
                    sg == p.sig@,
                    s@ + print_sig(sg.skip(t as int)) == s_sig0 + print_sig(sg),
                decreases p.sig.len() - t,
            {
                let ghost srest = sg.skip(t as int);
                proof {
                    assert(srest[0] == sg[t as int]);
                    assert(srest.drop_first() =~= sg.skip(t as int + 1));
                }
                let ghost s_b = s@;
                s.append(" ");
                s.append(p.sig[t].as_str());
                proof {
                    assert(s@ =~= s_b + (" "@ + typ_str(sg[t as int])));
                    assert(s_b + (" "@ + typ_str(sg[t as int])) + print_sig(sg.skip(t as int + 1))
                        =~= s_b + print_sig(srest));
                }
                t = t + 1;
            }
            proof {
                assert(sg.skip(t as int) =~= Seq::<Typ>::empty());
                assert(s@ + Seq::<char>::empty() =~= s@);
            }
            s.append(" )\n)\n");
            proof {
                assert(s@ =~= s_before + print_pred_dec(pv[k as int]));
                assert(s_before + print_pred_dec(pv[k as int]) + print_pred_decs(
                    pv.skip(k as int + 1),
                ) =~= s_before + print_pred_decs(rest));
            }
            k = k + 1;
        }
        proof {
            assert(pv.skip(k as int) =~= Seq::<crate::clause::PrdInfo>::empty());
            assert(s@ + Seq::<char>::empty() =~= s@);
            assert(s@ == print_pred_decs(pv));
        }
        let ghost pn = pv.map_values(|p: crate::clause::PrdInfo| p.name@);
        let clauses = self.clauses();
        let ghost cv = v.clauses;
        proof {
            assert(clauses@.map_values(|c: crate::clause::Clause| c@) == cv);
        }
        let f = self.factory();
        let ghost s_decs = s@;
        let mut c: usize = 0;
        proof {
            assert(cv.skip(0) =~= cv);
            assert(s@ + print_clauses(v.terms, cv.skip(0), pn) =~= s_decs + print_clauses(
                v.terms,
                cv,
                pn,
            ));
        }
        while c < clauses.len()
            invariant
                0 <= c <= clauses.len(),
                cv == v.clauses,
                v == self@,
                pv == v.preds,
                preds@ == pv,
                pn == pv.map_values(|p: crate::clause::PrdInfo| p.name@),
                clauses@.map_values(|cl: crate::clause::Clause| cl@) == cv,
                cv.len() == clauses@.len(),
                f@ == v.terms,
                f.wf(),
                self.wf(),
                s@ + print_clauses(v.terms, cv.skip(c as int), pn) == s_decs + print_clauses(
                    v.terms,
                    cv,
                    pn,
                ),
            decreases clauses.len() - c,
        {
            let ghost rest = cv.skip(c as int);
            proof {
                assert(rest[0] == cv[c as int]);
                assert(rest.drop_first() =~= cv.skip(c as int + 1));
                assert(cv[c as int] == clauses@[c as int]@);
                assert(crate::clause::clause_wf(cv[c as int], v.terms, v.preds));
            }
            let ghost s_before = s@;
            s.append("\n");
            s.append(clauses[c].write(f, preds).as_str());
            proof {
                assert(s@ =~= s_before + ("\n"@ + print_clause(v.terms, cv[c as int], pn)));
                assert(s_before + ("\n"@ + print_clause(v.terms, cv[c as int], pn)) + print_clauses(
                    v.terms,
                    cv.skip(c as int + 1),
                    pn,
                ) =~= s_before + print_clauses(v.terms, rest, pn));
            }
            c = c + 1;
        }
        proof {
            assert(cv.skip(c as int) =~= Seq::<crate::clause::ClauseV>::empty());
            assert(s@ + Seq::<char>::empty() =~= s@);
        }
        s.append("\n");
        proof {
            assert(s@ =~= print_pred_decs(pv) + print_clauses(v.terms, cv, pn) + "\n"@);
        }
        s
    }
}

} // verus!
