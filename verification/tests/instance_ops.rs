//! Construction-time simplification and operator evaluation, exercised
//! through the instance.

use horn_core::{Instance, Int, Op, Val, VarIdx};

/// Just creates an instance.
fn instance() -> Instance {
    Instance::mk(100, 100, 100)
}

fn int_of(instance: &mut Instance, n: i64) -> horn_core::Term {
    instance.int_term(Int::from_i64(n))
}

fn eval_int(instance: &Instance, t: horn_core::Term, model: &Vec<Val>) -> Int {
    instance.int_eval(t, model).unwrap().unwrap()
}

fn eval_bool(instance: &Instance, t: horn_core::Term, model: &Vec<Val>) -> bool {
    instance.bool_eval(t, model).unwrap().unwrap()
}

#[test]
fn simplify() {
    let mut instance = Instance::mk(10, 10, 10);
    let tru = instance.bool(true);
    let fls = instance.bool(false);
    let var_1 = instance.var(VarIdx(7));
    let var_2 = instance.var(VarIdx(2));

    assert_eq!(fls, Op::And.simplify(&mut instance, vec![]));
    assert_eq!(tru, Op::Or.simplify(&mut instance, vec![]));
    assert_eq!(var_2, Op::And.simplify(&mut instance, vec![var_2]));
    assert_eq!(var_1, Op::Or.simplify(&mut instance, vec![var_1]));
    let and = instance.op(Op::And, vec![var_2, var_1]);
    assert_eq!(and, Op::And.simplify(&mut instance, vec![var_2, var_1]));
    let or = instance.op(Op::Or, vec![var_2, and]);
    assert_eq!(or, Op::Or.simplify(&mut instance, vec![var_2, and]));
}

#[test]
fn cst_add() {
    let mut instance = instance();
    let c_1 = int_of(&mut instance, 7);
    let c_2 = int_of(&mut instance, 3);
    let sum = instance.op(Op::Add, vec![c_1, c_2]);
    let model: Vec<Val> = vec![];
    assert!(eval_int(&instance, sum, &model).eq_val(&Int::from_i64(10)));
}

#[test]
fn cst_sub_1() {
    let mut instance = instance();
    let c_1 = int_of(&mut instance, 7);
    let c_2 = int_of(&mut instance, 3);
    let sub = instance.op(Op::Sub, vec![c_1, c_2]);
    let model: Vec<Val> = vec![];
    assert!(eval_int(&instance, sub, &model).eq_val(&Int::from_i64(4)));
}

#[test]
fn cst_sub_2() {
    let mut instance = instance();
    let c_1 = int_of(&mut instance, 7);
    let sub = instance.op(Op::Sub, vec![c_1]);
    let model: Vec<Val> = vec![];
    assert!(eval_int(&instance, sub, &model).eq_val(&Int::from_i64(-7)));
}

#[test]
fn cst_mul() {
    let mut instance = instance();
    let c_1 = int_of(&mut instance, 7);
    let c_2 = int_of(&mut instance, 3);
    let mul = instance.op(Op::Mul, vec![c_1, c_2]);
    let model: Vec<Val> = vec![];
    assert!(eval_int(&instance, mul, &model).eq_val(&Int::from_i64(21)));
}

#[test]
fn cst_div() {
    let mut instance = instance();
    let c_1 = int_of(&mut instance, 7);
    let c_2 = int_of(&mut instance, 3);
    let div = instance.op(Op::Div, vec![c_1, c_2]);
    let model: Vec<Val> = vec![];
    assert!(eval_int(&instance, div, &model).eq_val(&Int::from_i64(2)));
}

#[test]
fn cst_mod() {
    let mut instance = instance();
    let c_1 = int_of(&mut instance, 7);
    let c_2 = int_of(&mut instance, 3);
    let m0d = instance.op(Op::Mod, vec![c_1, c_2]);
    let model: Vec<Val> = vec![];
    assert!(eval_int(&instance, m0d, &model).eq_val(&Int::from_i64(1)));
}

#[test]
fn cst_gt_1() {
    let mut instance = instance();
    let c_1 = int_of(&mut instance, 7);
    let c_2 = int_of(&mut instance, 3);
    let gt = instance.op(Op::Gt, vec![c_1, c_2]);
    let model: Vec<Val> = vec![];
    assert!(eval_bool(&instance, gt, &model));
}

#[test]
fn cst_gt_2() {
    let mut instance = instance();
    let c_1 = int_of(&mut instance, 7);
    let c_2 = int_of(&mut instance, 7);
    let gt = instance.op(Op::Gt, vec![c_1, c_2]);
    let model: Vec<Val> = vec![];
    assert!(!eval_bool(&instance, gt, &model));
}

#[test]
fn cst_ge_1() {
    let mut instance = instance();
    let c_1 = int_of(&mut instance, 7);
    let c_2 = int_of(&mut instance, 3);
    let ge = instance.op(Op::Ge, vec![c_1, c_2]);
    let model: Vec<Val> = vec![];
    assert!(eval_bool(&instance, ge, &model));
}

#[test]
fn cst_ge_2() {
    let mut instance = instance();
    let c_1 = int_of(&mut instance, 7);
    let c_2 = int_of(&mut instance, 7);
    let ge = instance.op(Op::Ge, vec![c_1, c_2]);
    let model: Vec<Val> = vec![];
    assert!(eval_bool(&instance, ge, &model));
}

#[test]
fn cst_le_1() {
    let mut instance = instance();
    let c_1 = int_of(&mut instance, 7);
    let c_2 = int_of(&mut instance, 3);
    let le = instance.op(Op::Le, vec![c_1, c_2]);
    let model: Vec<Val> = vec![];
    assert!(!eval_bool(&instance, le, &model));
}

#[test]
fn cst_le_2() {
    let mut instance = instance();
    let c_1 = int_of(&mut instance, 7);
    let c_2 = int_of(&mut instance, 7);
    let le = instance.op(Op::Le, vec![c_1, c_2]);
    let model: Vec<Val> = vec![];
    assert!(eval_bool(&instance, le, &model));
}

#[test]
fn cst_lt_1() {
    let mut instance = instance();
    let c_1 = int_of(&mut instance, 7);
    let c_2 = int_of(&mut instance, 3);
    let lt = instance.op(Op::Lt, vec![c_1, c_2]);
    let model: Vec<Val> = vec![];
    assert!(!eval_bool(&instance, lt, &model));
}

#[test]
fn cst_lt_2() {
    let mut instance = instance();
    let c_1 = int_of(&mut instance, 7);
    let c_2 = int_of(&mut instance, 7);
    let lt = instance.op(Op::Lt, vec![c_1, c_2]);
    let model: Vec<Val> = vec![];
    assert!(!eval_bool(&instance, lt, &model));
}

#[test]
fn cst_eq_1() {
    let mut instance = instance();
    let c_1 = int_of(&mut instance, 7);
    let c_2 = int_of(&mut instance, 7);
    let eq = instance.op(Op::Eql, vec![c_1, c_2]);
    let model: Vec<Val> = vec![];
    assert!(eval_bool(&instance, eq, &model));
}

#[test]
fn cst_eq_2() {
    let mut instance = instance();
    let c_1 = int_of(&mut instance, 7);
    let c_2 = int_of(&mut instance, 3);
    let eq = instance.op(Op::Eql, vec![c_1, c_2]);
    let model: Vec<Val> = vec![];
    assert!(!eval_bool(&instance, eq, &model));
}

#[test]
fn cst_eq_3() {
    let mut instance = instance();
    let c_1 = instance.bool(true);
    let c_2 = instance.bool(true);
    let eq = instance.op(Op::Eql, vec![c_1, c_2]);
    let model: Vec<Val> = vec![];
    assert!(eval_bool(&instance, eq, &model));
}

#[test]
fn cst_eq_4() {
    let mut instance = instance();
    let c_1 = instance.bool(false);
    let c_2 = instance.bool(true);
    let eq = instance.op(Op::Eql, vec![c_1, c_2]);
    let model: Vec<Val> = vec![];
    assert!(!eval_bool(&instance, eq, &model));
}

#[test]
fn cst_impl_1() {
    let mut instance = instance();
    let c_1 = instance.bool(false);
    let c_2 = instance.bool(false);
    let imp = instance.op(Op::Impl, vec![c_1, c_2]);
    let model: Vec<Val> = vec![];
    assert!(eval_bool(&instance, imp, &model));
}

#[test]
fn cst_impl_2() {
    let mut instance = instance();
    let c_1 = instance.bool(true);
    let c_2 = instance.bool(false);
    let imp = instance.op(Op::Impl, vec![c_1, c_2]);
    let model: Vec<Val> = vec![];
    assert!(!eval_bool(&instance, imp, &model));
}

#[test]
fn cst_impl_3() {
    let mut instance = instance();
    let c_1 = instance.bool(false);
    let c_2 = instance.bool(true);
    let imp = instance.op(Op::Impl, vec![c_1, c_2]);
    let model: Vec<Val> = vec![];
    assert!(eval_bool(&instance, imp, &model));
}

#[test]
fn cst_impl_4() {
    let mut instance = instance();
    let c_1 = instance.bool(true);
    let c_2 = instance.bool(true);
    let imp = instance.op(Op::Impl, vec![c_1, c_2]);
    let model: Vec<Val> = vec![];
    assert!(eval_bool(&instance, imp, &model));
}

#[test]
fn cst_not_1() {
    let mut instance = instance();
    let c_1 = instance.bool(false);
    let not = instance.op(Op::Not, vec![c_1]);
    let model: Vec<Val> = vec![];
    assert!(eval_bool(&instance, not, &model));
}

#[test]
fn cst_not_2() {
    let mut instance = instance();
    let c_1 = instance.bool(true);
    let not = instance.op(Op::Not, vec![c_1]);
    let model: Vec<Val> = vec![];
    assert!(!eval_bool(&instance, not, &model));
}

#[test]
fn cst_and_1() {
    let mut instance = instance();
    let c_1 = instance.bool(true);
    let c_2 = instance.bool(true);
    let c_3 = instance.bool(true);
    let c_4 = instance.bool(true);
    let and = instance.op(Op::And, vec![c_1, c_2, c_3, c_4]);
    let model: Vec<Val> = vec![];
    assert!(eval_bool(&instance, and, &model));
}

#[test]
fn cst_and_2() {
    let mut instance = instance();
    let c_1 = instance.bool(true);
    let c_2 = instance.bool(true);
    let c_3 = instance.bool(false);
    let c_4 = instance.bool(true);
    let and = instance.op(Op::And, vec![c_1, c_2, c_3, c_4]);
    let model: Vec<Val> = vec![];
    assert!(!eval_bool(&instance, and, &model));
}

#[test]
fn cst_and_3() {
    let mut instance = instance();
    let c_1 = instance.bool(false);
    let c_2 = instance.bool(true);
    let c_3 = instance.bool(true);
    let c_4 = instance.bool(true);
    let and = instance.op(Op::And, vec![c_1, c_2, c_3, c_4]);
    let model: Vec<Val> = vec![];
    assert!(!eval_bool(&instance, and, &model));
}

#[test]
fn cst_and_4() {
    let mut instance = instance();
    let c_1 = instance.bool(true);
    let c_2 = instance.bool(false);
    let c_3 = instance.bool(false);
    let c_4 = instance.bool(true);
    let and = instance.op(Op::And, vec![c_1, c_2, c_3, c_4]);
    let model: Vec<Val> = vec![];
    assert!(!eval_bool(&instance, and, &model));
}

#[test]
fn cst_or_1() {
    let mut instance = instance();
    let c_1 = instance.bool(true);
    let c_2 = instance.bool(true);
    let c_3 = instance.bool(true);
    let c_4 = instance.bool(true);
    let or = instance.op(Op::Or, vec![c_1, c_2, c_3, c_4]);
    let model: Vec<Val> = vec![];
    assert!(eval_bool(&instance, or, &model));
}

#[test]
fn cst_or_2() {
    let mut instance = instance();
    let c_1 = instance.bool(true);
    let c_2 = instance.bool(true);
    let c_3 = instance.bool(false);
    let c_4 = instance.bool(true);
    let or = instance.op(Op::Or, vec![c_1, c_2, c_3, c_4]);
    let model: Vec<Val> = vec![];
    assert!(eval_bool(&instance, or, &model));
}

#[test]
fn cst_or_3() {
    let mut instance = instance();
    let c_1 = instance.bool(false);
    let c_2 = instance.bool(true);
    let c_3 = instance.bool(true);
    let c_4 = instance.bool(true);
    let or = instance.op(Op::Or, vec![c_1, c_2, c_3, c_4]);
    let model: Vec<Val> = vec![];
    assert!(eval_bool(&instance, or, &model));
}

#[test]
fn cst_or_4() {
    let mut instance = instance();
    let c_1 = instance.bool(true);
    let c_2 = instance.bool(false);
    let c_3 = instance.bool(false);
    let c_4 = instance.bool(true);
    let or = instance.op(Op::Or, vec![c_1, c_2, c_3, c_4]);
    let model: Vec<Val> = vec![];
    assert!(eval_bool(&instance, or, &model));
}

#[test]
fn cst_or_5() {
    let mut instance = instance();
    let c_1 = instance.bool(false);
    let c_2 = instance.bool(false);
    let c_3 = instance.bool(false);
    let c_4 = instance.bool(false);
    let or = instance.op(Op::Or, vec![c_1, c_2, c_3, c_4]);
    let model: Vec<Val> = vec![];
    assert!(!eval_bool(&instance, or, &model));
}

#[test]
fn models() {
    let mut instance = instance();
    let v_1 = instance.var(VarIdx(0));
    let v_2 = instance.var(VarIdx(1));
    let v_3 = instance.var(VarIdx(2));

    let model_1: Vec<Val> = vec![Val::from(true), Val::of_i64(2), Val::of_i64(3)];
    let model_2: Vec<Val> = vec![Val::from(true), Val::of_i64(7), Val::of_i64(0)];

    // (7 - v_2) + (v_2 * 2) + (- v_3)
    let seven = int_of(&mut instance, 7);
    let two = int_of(&mut instance, 2);
    let sub = instance.op(Op::Sub, vec![seven, v_2]);
    let mul = instance.op(Op::Mul, vec![v_2, two]);
    let neg = instance.op(Op::Sub, vec![v_3]);
    let lhs = instance.op(Op::Add, vec![sub, mul, neg]);
    assert!(eval_int(&instance, lhs, &model_1).eq_val(&Int::from_i64(6)));
    assert!(eval_int(&instance, lhs, &model_2).eq_val(&Int::from_i64(14)));

    // v_3 * 3
    let three = int_of(&mut instance, 3);
    let rhs = instance.op(Op::Mul, vec![v_3, three]);
    assert!(eval_int(&instance, rhs, &model_1).eq_val(&Int::from_i64(9)));
    assert!(eval_int(&instance, rhs, &model_2).eq_val(&Int::from_i64(0)));

    // 7 + v_2 + (- v_3) > v_3 * 3
    let gt = instance.op(Op::Gt, vec![lhs, rhs]);
    assert!(!eval_bool(&instance, gt, &model_1));
    assert!(eval_bool(&instance, gt, &model_2));

    // v_1 && (7 + v_2 + (- v_3) > v_3 * 3)
    let and = instance.op(Op::And, vec![v_1, gt]);
    assert!(!eval_bool(&instance, and, &model_1));
    assert!(eval_bool(&instance, and, &model_2));
}
