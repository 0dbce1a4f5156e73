//! Hash-consing identity, simplification, unknown-value propagation,
//! printing, parsing and counterexample translation on concrete values.

use horn_core::check;
use horn_core::clause::VarInfo;
use horn_core::data::Data;
use horn_core::text::VarStyle;
use horn_core::tterm::TTerm;
use horn_core::{ClsIdx, Clause, Error, Instance, Int, Op, PrdIdx, Term, Typ, Val, VarIdx};

fn int_of(instance: &mut Instance, n: i64) -> Term {
    instance.int_term(Int::from_i64(n))
}

#[test]
fn hash_consing_identity() {
    let mut instance = Instance::mk(10, 10, 10);
    // the same recipe built twice gives identity-equal handles
    let v = instance.var(VarIdx(3));
    let c = int_of(&mut instance, 42);
    let t1 = instance.op(Op::Add, vec![v, c]);
    let v2 = instance.var(VarIdx(3));
    let c2 = int_of(&mut instance, 42);
    let t2 = instance.op(Op::Add, vec![v2, c2]);
    assert_eq!(v, v2);
    assert_eq!(c, c2);
    assert_eq!(t1, t2);
    // an application's children are identity-equal to the arguments
    let app = instance.op(Op::Mul, vec![t1, t1]);
    match instance.factory().get(app) {
        horn_core::RTerm::App { op, args } => {
            assert_eq!(*op, Op::Mul);
            assert_eq!(args.len(), 2);
            assert_eq!(args[0], t1);
            assert_eq!(args[1], t1);
        },
        _ => panic!("expected an application"),
    }
}

#[test]
fn simplification_contract() {
    let mut instance = Instance::mk(10, 10, 10);
    let fls = instance.bool(false);
    let tru = instance.bool(true);
    let empty_and = instance.op(Op::And, vec![]);
    let empty_or = instance.op(Op::Or, vec![]);
    assert_eq!(empty_and, fls);
    assert_eq!(empty_or, tru);
    let x = instance.var(VarIdx(0));
    let single_and = instance.op(Op::And, vec![x]);
    let single_or = instance.op(Op::Or, vec![x]);
    assert_eq!(single_and, x);
    assert_eq!(single_or, x);
}

#[test]
fn n_propagation() {
    let mut instance = Instance::mk(10, 10, 10);
    let v0 = instance.var(VarIdx(0));
    let v1 = instance.var(VarIdx(1));
    let and = instance.op(Op::And, vec![v0, v1]);
    let or = instance.op(Op::Or, vec![v0, v1]);

    let true_n: Vec<Val> = vec![Val::B(true), Val::N];
    let false_n: Vec<Val> = vec![Val::B(false), Val::N];

    assert!(instance.eval(and, &true_n).unwrap() == Val::N);
    assert!(instance.eval(and, &false_n).unwrap() == Val::B(false));
    assert!(instance.eval(or, &false_n).unwrap() == Val::N);
    assert!(instance.eval(or, &true_n).unwrap() == Val::B(true));
}

#[test]
fn floor_mod() {
    let mut instance = Instance::mk(10, 10, 10);
    let seven = int_of(&mut instance, 7);
    let neg_seven = int_of(&mut instance, -7);
    let three = int_of(&mut instance, 3);
    let m1 = instance.op(Op::Mod, vec![seven, three]);
    let m2 = instance.op(Op::Mod, vec![neg_seven, three]);
    let model: Vec<Val> = vec![];
    let r1 = instance.int_eval(m1, &model).unwrap().unwrap();
    let r2 = instance.int_eval(m2, &model).unwrap().unwrap();
    assert!(r1.eq_val(&Int::from_i64(1)));
    assert!(r2.eq_val(&Int::from_i64(2)));
}

#[test]
fn forget_is_swap_remove() {
    let mut instance = Instance::mk(10, 10, 10);
    let t0 = int_of(&mut instance, 0);
    let t1 = int_of(&mut instance, 1);
    let t2 = int_of(&mut instance, 2);
    instance.push_clause(Clause::mk(vec![], vec![], TTerm::T(t0)));
    instance.push_clause(Clause::mk(vec![], vec![], TTerm::T(t1)));
    instance.push_clause(Clause::mk(vec![], vec![], TTerm::T(t2)));
    let forgotten = instance.forget_clause(ClsIdx(0));
    assert!(matches!(forgotten.rhs(), TTerm::T(t) if *t == t0));
    assert_eq!(instance.clauses().len(), 2);
    // the previously-last clause took the forgotten clause's place
    assert!(matches!(instance.clauses()[0].rhs(), TTerm::T(t) if *t == t2));
    assert!(matches!(instance.clauses()[1].rhs(), TTerm::T(t) if *t == t1));
}

#[test]
fn force_pred_coherence() {
    let mut instance = Instance::mk(10, 10, 10);
    let p = instance.push_pred("p".to_string(), vec![Typ::Int]);
    let tru = instance.bool(true);
    let fls = instance.bool(false);
    assert!(instance.term_of(p).is_none());
    assert!(instance.force_pred(p, tru).is_ok());
    // equal re-forcing is idempotent
    assert!(instance.force_pred(p, tru).is_ok());
    // conflicting re-forcing fails
    assert!(matches!(
        instance.force_pred(p, fls),
        Err(Error::IncoherentForce { pred }) if pred == p
    ));
    assert_eq!(instance.term_of(p), Some(tru));
}

#[test]
fn eval_term_of_partial_model() {
    let mut instance = Instance::mk(10, 10, 10);
    let p = instance.push_pred("p".to_string(), vec![Typ::Bool]);
    let v0 = instance.var(VarIdx(0));
    instance.force_pred(p, v0).unwrap();
    let complete: Vec<Val> = vec![Val::B(true)];
    assert_eq!(instance.eval_term_of(p, &complete).unwrap(), Some(true));
    let partial: Vec<Val> = vec![Val::N];
    assert!(matches!(
        instance.eval_term_of(p, &partial),
        Err(Error::PartialForcedTerm { pred }) if pred == p
    ));
    let q = instance.push_pred("q".to_string(), vec![]);
    assert_eq!(instance.eval_term_of(q, &complete).unwrap(), None);
}

#[test]
fn eval_errors() {
    let mut instance = Instance::mk(10, 10, 10);
    // wrong-tag projection
    assert!(matches!(Val::B(true).to_int(), Err(Error::TypeMismatch)));
    assert!(matches!(Val::of_i64(3).to_bool(), Err(Error::TypeMismatch)));
    // wrong arity, wrapped with the operator
    let tru = instance.bool(true);
    let bad = instance.op(Op::Not, vec![tru, tru]);
    let model: Vec<Val> = vec![];
    match instance.eval(bad, &model) {
        Err(Error::EvalError { op, cause }) => {
            assert_eq!(op, Op::Not);
            assert!(matches!(*cause, Error::Arity));
        },
        _ => panic!("expected an arity failure"),
    }
    // wrong type inside an application
    let one = int_of(&mut instance, 1);
    let mixed = instance.op(Op::And, vec![one, tru]);
    match instance.eval(mixed, &model) {
        Err(Error::EvalError { op, cause }) => {
            assert_eq!(op, Op::And);
            assert!(matches!(*cause, Error::TypeMismatch));
        },
        _ => panic!("expected a type failure"),
    }
}

#[test]
fn term_printing() {
    let mut instance = Instance::mk(100, 100, 100);
    let v_2 = instance.var(VarIdx(1));
    let v_3 = instance.var(VarIdx(2));
    let seven = int_of(&mut instance, 7);
    let two = int_of(&mut instance, 2);
    let sub = instance.op(Op::Sub, vec![seven, v_2]);
    let mul = instance.op(Op::Mul, vec![v_2, two]);
    let neg = instance.op(Op::Sub, vec![v_3]);
    let lhs = instance.op(Op::Add, vec![sub, mul, neg]);
    let plain = instance.factory().write_term(lhs, &VarStyle::Plain);
    assert_eq!(plain, "(+ (- 7 v_1) (* v_1 2) (- v_2))");
    let smt = instance.factory().write_term(lhs, &VarStyle::Smt);
    assert_eq!(smt, "(+ (- 7 v1) (* v1 2) (- v2))");
    let named = instance
        .factory()
        .write_term(lhs, &VarStyle::Named(vec!["a".to_string(), "x".to_string(), "y".to_string()]));
    assert_eq!(named, "(+ (- 7 x) (* x 2) (- y))");
    let neg_c = int_of(&mut instance, -42);
    assert_eq!(instance.factory().write_term(neg_c, &VarStyle::Plain), "-42");
}

#[test]
fn clause_printing() {
    let mut instance = Instance::mk(10, 10, 10);
    let p = instance.push_pred("p".to_string(), vec![Typ::Int]);
    let x = instance.var(VarIdx(0));
    let fls = instance.bool(false);
    let cl = Clause::mk(
        vec![VarInfo { name: "x".to_string(), idx: VarIdx(0), typ: Typ::Int }],
        vec![TTerm::P { pred: p, args: vec![x] }],
        TTerm::T(fls),
    );
    let text = cl.write(instance.factory(), instance.preds());
    assert_eq!(text, "(clause\n  ( (x Int) )\n  ( (p x)\n  )\n  false\n)");
    instance.push_clause(cl);
    let whole = instance.to_text();
    assert_eq!(
        whole,
        "(declare-pred\n  p ( Int )\n)\n\n(clause\n  ( (x Int) )\n  ( (p x)\n  )\n  false\n)\n"
    );
}

#[test]
fn smt_embedding() {
    let mut instance = Instance::mk(10, 10, 10);
    let p = instance.push_pred("p".to_string(), vec![Typ::Int]);
    let x = instance.var(VarIdx(0));
    let fls = instance.bool(false);
    let zero = instance.zero();
    let formal = instance.var(VarIdx(0));
    let cand = instance.gt(formal, zero);
    let cl = Clause::mk(
        vec![VarInfo { name: "x".to_string(), idx: VarIdx(0), typ: Typ::Int }],
        vec![TTerm::P { pred: p, args: vec![x] }],
        TTerm::T(fls),
    );
    let cands: Vec<Option<Term>> = vec![Some(cand)];
    let text = cl.to_smt2(instance.factory(), &cands);
    assert_eq!(text, "(not (=> (and (> v0 0)) false))");
}

#[test]
fn token_parsing() {
    assert_eq!(Op::parse(b">=", 0), Some((Op::Ge, 2)));
    assert_eq!(Op::parse(b"=>", 0), Some((Op::Impl, 2)));
    assert_eq!(Op::parse(b"mod 7", 0), Some((Op::Mod, 3)));
    assert_eq!(Op::parse(b"<", 0), Some((Op::Lt, 1)));
    assert_eq!(Op::parse(b"?", 0), None);
    assert_eq!(Typ::parse(b"Int", 0), Some((Typ::Int, 3)));
    assert_eq!(Typ::parse(b"Bool)", 0), Some((Typ::Bool, 4)));
    assert_eq!(Typ::parse(b"Real", 0), None);
    let (v, p) = Val::parse(b"true", 0).unwrap();
    assert!(v == Val::B(true));
    assert_eq!(p, 4);
    let (v, p) = Val::parse(b"17rest", 0).unwrap();
    assert!(v == Val::of_i64(17));
    assert_eq!(p, 2);
    let (v, p) = Val::parse(b"(- 42)", 0).unwrap();
    assert!(v == Val::of_i64(-42));
    assert_eq!(p, 6);
    assert!(Val::parse(b"?", 0).is_none());
}

#[test]
fn parse_one_problem() {
    let text = b"(declare-pred p (Int Int)) \
                 (clause ((x Int)(y Int)) ((> x y)) (p x y)) \
                 (infer)";
    let (input, _) = check::parse_input(text, 0).unwrap();
    assert_eq!(input.pred_decs.len(), 1);
    assert_eq!(input.pred_decs[0].pred, "p");
    assert_eq!(input.pred_decs[0].sig, vec!["Int".to_string(), "Int".to_string()]);
    assert_eq!(input.clauses.len(), 1);
    let cl = &input.clauses[0];
    assert_eq!(cl.args.len(), 2);
    assert_eq!(cl.args[0], ("x".to_string(), "Int".to_string()));
    assert_eq!(cl.args[1], ("y".to_string(), "Int".to_string()));
    assert_eq!(cl.lhs, vec!["( > x y )".to_string()]);
    assert_eq!(cl.rhs, "( p x y )");
}

#[test]
fn parse_round_trip() {
    // an input in the printer's own shape comes back verbatim
    let text = "(declare-pred p ( Int Int ))\n(clause ( (x Int) (y Int) ) ( ( > x y ) ) ( p x y ))\n(infer)\n";
    let (input, consumed) = check::parse_input(text.as_bytes(), 0).unwrap();
    assert_eq!(consumed, text.len());
    assert_eq!(input.write(), text);
    // comments and stray whitespace normalize away
    let noisy = "; a problem\n(declare-pred p ( Int  Int ))\n\n(clause ( (x Int) (y Int) )\n  ( (>  x y ) ) ( p x y ))\n(infer)   ; done\n";
    let (noisy_input, _) = check::parse_input(noisy.as_bytes(), 0).unwrap();
    assert_eq!(noisy_input.write(), text);
}

#[test]
fn parse_solution() {
    let text = "(safe\n  (define-pred p ( (x Int) (y Int) ) ( > x y ))\n)\n";
    let (output, consumed) = check::parse_output(text.as_bytes(), 0).unwrap();
    assert_eq!(consumed, text.len());
    assert_eq!(output.pred_defs.len(), 1);
    assert_eq!(output.pred_defs[0].pred, "p");
    assert_eq!(output.pred_defs[0].body, "( > x y )");
    assert_eq!(output.write(), text);
    assert!(matches!(check::read_input(b"nope"), Err(Error::Parse { .. })));
}

#[test]
fn translation_negative_sample() {
    let mut instance = Instance::mk(10, 10, 10);
    let p = instance.push_pred("p".to_string(), vec![Typ::Int]);
    let x = instance.var(VarIdx(0));
    let fls = instance.bool(false);
    let cl = Clause::mk(
        vec![VarInfo { name: "x".to_string(), idx: VarIdx(0), typ: Typ::Int }],
        vec![TTerm::P { pred: p, args: vec![x] }],
        TTerm::T(fls),
    );
    instance.push_clause(cl);
    let mut data = Data::new();
    let cexs = vec![(ClsIdx(0), vec![Val::of_i64(5)])];
    instance.cexs_to_data(&mut data, cexs).unwrap();
    assert_eq!(data.pos().len(), 0);
    assert_eq!(data.neg().len(), 1);
    assert_eq!(data.cstrs().len(), 0);
    let (pred, args) = &data.neg()[0];
    assert_eq!(*pred, p);
    assert_eq!(args.len(), 1);
    assert!(args[0] == Val::of_i64(5));
}

#[test]
fn translation_cases() {
    let mut instance = Instance::mk(10, 10, 10);
    let p = instance.push_pred("p".to_string(), vec![Typ::Int]);
    let q = instance.push_pred("q".to_string(), vec![Typ::Int]);
    let x = instance.var(VarIdx(0));
    let one = instance.one();
    let x_plus_1 = instance.op(Op::Add, vec![x, one]);
    let tru = instance.bool(true);
    let fls = instance.bool(false);
    // positive sample: no antecedent, predicate consequent
    instance.push_clause(Clause::mk(
        vec![VarInfo { name: "x".to_string(), idx: VarIdx(0), typ: Typ::Int }],
        vec![TTerm::T(tru)],
        TTerm::P { pred: p, args: vec![x] },
    ));
    // implication constraint: one antecedent, one consequent
    instance.push_clause(Clause::mk(
        vec![VarInfo { name: "x".to_string(), idx: VarIdx(0), typ: Typ::Int }],
        vec![TTerm::P { pred: p, args: vec![x] }],
        TTerm::P { pred: q, args: vec![x_plus_1] },
    ));
    // ground falsified clause
    instance.push_clause(Clause::mk(vec![], vec![], TTerm::T(fls)));

    let mut data = Data::new();
    let cexs = vec![
        (ClsIdx(0), vec![Val::of_i64(3)]),
        (ClsIdx(1), vec![Val::of_i64(4)]),
    ];
    instance.cexs_to_data(&mut data, cexs).unwrap();
    assert_eq!(data.pos().len(), 1);
    assert!(data.pos()[0].1[0] == Val::of_i64(3));
    assert_eq!(data.cstrs().len(), 1);
    let cstr = &data.cstrs()[0];
    assert_eq!(cstr.lhs.len(), 1);
    assert!(cstr.lhs[0].1[0] == Val::of_i64(4));
    assert!(cstr.rhs.as_ref().unwrap().1[0] == Val::of_i64(5));

    let mut data2 = Data::new();
    let ground = vec![(ClsIdx(2), vec![])];
    assert!(matches!(
        instance.cexs_to_data(&mut data2, ground),
        Err(Error::UnsafeGround)
    ));
}

#[test]
fn highest_var_and_queries() {
    let mut instance = Instance::mk(10, 10, 10);
    let v0 = instance.var(VarIdx(0));
    let v5 = instance.var(VarIdx(5));
    let c = int_of(&mut instance, 3);
    let t = instance.op(Op::Add, vec![v0, v5, c]);
    assert_eq!(instance.factory().highest_var(t), Some(VarIdx(5)));
    assert_eq!(instance.factory().highest_var(c), None);
    assert_eq!(instance.factory().get(v5).var_idx(), Some(VarIdx(5)));
    assert!(instance.factory().get(c).int_val().unwrap().eq_val(&Int::from_i64(3)));
    let tru = instance.bool(true);
    assert!(instance.factory().get(tru).is_true());
    assert!(!instance.factory().get(tru).is_false());
    let tt = TTerm::N(instance.bool(false));
    assert!(tt.is_true(instance.factory()));
    let consts = instance.consts();
    assert_eq!(consts.len(), 2);
    assert_eq!(instance.pred_indices().len(), 0);
    assert_eq!(instance.max_pred_arity(), 0);
    let _ = instance.push_pred("p".to_string(), vec![Typ::Int, Typ::Bool]);
    assert_eq!(instance.max_pred_arity(), 2);
    assert_eq!(instance.pred_indices(), vec![PrdIdx(0)]);
}

#[test]
fn quoted_identifiers() {
    // bars around a simple identifier are stripped
    let text = b"(declare-pred |p| (Int)) (infer)";
    let (input, _) = check::parse_input(text, 0).unwrap();
    assert_eq!(input.pred_decs[0].pred, "p");
    // anything else between bars is kept verbatim, bars included
    let text = b"(declare-pred |my pred| (Int)) (infer)";
    let (input, _) = check::parse_input(text, 0).unwrap();
    assert_eq!(input.pred_decs[0].pred, "|my pred|");
}

#[test]
fn tokens_and_digits() {
    let mut instance = Instance::mk(10, 10, 10);
    assert_eq!(Op::Impl.as_str(), "=>");
    assert_eq!(Op::Mod.as_str(), "mod");
    assert_eq!(Typ::Int.as_str(), "Int");
    assert_eq!(Typ::Bool.as_str(), "Bool");
    let zero = instance.int_term(Int::from_i64(0));
    assert_eq!(instance.factory().write_term(zero, &VarStyle::Plain), "0");
    let big = instance.var(VarIdx(1905));
    assert_eq!(instance.factory().write_term(big, &VarStyle::Smt), "v1905");
}

#[test]
fn default_values() {
    assert!(Typ::Int.default_val() == Val::of_i64(0));
    assert!(Typ::Bool.default_val() == Val::B(true));
}
