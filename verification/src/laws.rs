//! The crate-level laws of the term factory.

use vstd::prelude::*;

use crate::op::{
    and_fold, arith_fold, chain_fold, div_panics, eql_fold, mod_panics, op_panics, op_token,
    or_fold, Op, OpErr,
};
use crate::term::{
    div_safe_at, eval_args, eval_at, find_key, lemma_find_key, mk_s, op_s, rterm_wf_at, terms_wf,
    RTermV, Term,
};
use crate::val::{typ_parse_s, AbsVal, Typ};

verus! {

/// Interning a key into an arena where every entry differs from it finds
/// the key right where it was appended.
pub proof fn lemma_find_key_push(ts: Seq<RTermV>, key: RTermV)
    requires
        forall|j: int| 0 <= j < ts.len() ==> ts[j] != key,
    ensures
        find_key(ts.push(key), key) == Some(ts.len() as int),
    decreases ts.len(),
{
    let pushed = ts.push(key);
    if ts.len() == 0 {
        assert(pushed[0] == key);
    } else {
        assert(pushed[0] == ts[0]);
        assert(pushed.drop_first() =~= ts.drop_first().push(key));
        assert forall|j: int| 0 <= j < ts.drop_first().len() implies ts.drop_first()[j] != key by {
            assert(ts.drop_first()[j] == ts[j + 1]);
        }
        lemma_find_key_push(ts.drop_first(), key);
    }
}

/// Hash-consing identity: interning a term is idempotent. Once a
/// construction has interned its term, constructing the same term again
/// returns the same handle and leaves the arena untouched, so two builds of
/// one recipe are identity-equal.
pub proof fn lemma_mk_idempotent(ts: Seq<RTermV>, key: RTermV)
    ensures
        mk_s(mk_s(ts, key).0, key) == mk_s(ts, key),
{
    lemma_find_key(ts, key);
    match find_key(ts, key) {
        Some(i) => {},
        None => {
            lemma_find_key_push(ts, key);
        },
    }
}

/// The children of a constructed application are exactly the handles that
/// were passed in: building `App { op, args }` (in any form the
/// construction-time simplification does not collapse) yields a term whose
/// arguments are identity-equal to `args`.
pub proof fn lemma_op_children(ts: Seq<RTermV>, op: Op, args: Seq<Term>)
    requires
        !((op == Op::And || op == Op::Or) && args.len() <= 1),
    ensures
        ({
            let (ts2, i) = op_s(ts, op, args);
            ts2[i] == (RTermV::App { op, args })
        }),
{
    let key = RTermV::App { op, args };
    lemma_find_key(ts, key);
    match find_key(ts, key) {
        Some(i) => {},
        None => {},
    }
}

/// Simplification contract, empty conjunction: constructing `op(And, [])`
/// is constructing `bool(false)` — same arena, same handle.
pub proof fn lemma_op_and_empty(ts: Seq<RTermV>)
    ensures
        op_s(ts, Op::And, Seq::<Term>::empty()) == mk_s(ts, RTermV::Bool(false)),
{
}

/// Simplification contract, empty disjunction: constructing `op(Or, [])`
/// is constructing `bool(true)` — same arena, same handle.
pub proof fn lemma_op_or_empty(ts: Seq<RTermV>)
    ensures
        op_s(ts, Op::Or, Seq::<Term>::empty()) == mk_s(ts, RTermV::Bool(true)),
{
}

/// Simplification contract, one-argument conjunction: constructing
/// `op(And, [t])` returns `t` itself and leaves the arena untouched.
pub proof fn lemma_op_and_single(ts: Seq<RTermV>, t: Term)
    ensures
        op_s(ts, Op::And, seq![t]) == (ts, t.uid as int),
{
}

/// Simplification contract, one-argument disjunction: constructing
/// `op(Or, [t])` returns `t` itself and leaves the arena untouched.
pub proof fn lemma_op_or_single(ts: Seq<RTermV>, t: Term)
    ensures
        op_s(ts, Op::Or, seq![t]) == (ts, t.uid as int),
{
}


/// The argument type an operator demands: integers, booleans, or any one
/// type shared by all operands (equality).
pub open spec fn op_arg_typ(op: Op) -> Option<Typ> {
    match op {
        Op::Add | Op::Sub | Op::Mul | Op::Div | Op::Mod => Some(Typ::Int),
        Op::Gt | Op::Ge | Op::Le | Op::Lt => Some(Typ::Int),
        Op::Not | Op::And | Op::Or | Op::Impl => Some(Typ::Bool),
        Op::Eql => None,
    }
}

/// The result type of an operator.
pub open spec fn op_res_typ(op: Op) -> Typ {
    match op {
        Op::Add | Op::Sub | Op::Mul | Op::Div | Op::Mod => Typ::Int,
        _ => Typ::Bool,
    }
}

/// The argument counts an operator accepts.
pub open spec fn op_arity_ok(op: Op, n: int) -> bool {
    n >= 1 && match op {
        Op::Mod => n == 2,
        Op::Not => n == 1,
        Op::Impl => n == 2,
        _ => true,
    }
}

/// The type of the term at `i` under a typing of the variables, if the
/// term is well-typed.
pub open spec fn typ_of(ts: Seq<RTermV>, env: Seq<Typ>, i: int) -> Option<Typ>
    decreases i,
    when terms_wf(ts) && 0 <= i < ts.len()
{
    match ts[i] {
        RTermV::Var(v) => if (v.0 as int) < env.len() {
            Some(env[v.0 as int])
        } else {
            None
        },
        RTermV::Int(_) => Some(Typ::Int),
        RTermV::Bool(_) => Some(Typ::Bool),
        RTermV::App { op, args } => if op_arity_ok(op, args.len() as int) && match op_arg_typ(op) {
            Some(t) => forall|k: int|
                0 <= k < args.len() ==> typ_of(ts, env, #[trigger] args[k].uid as int) == Some(t),
            None => typ_of(ts, env, args[0].uid as int) is Some && (forall|k: int|
                0 <= k < args.len() ==> typ_of(ts, env, #[trigger] args[k].uid as int) == typ_of(
                    ts,
                    env,
                    args[0].uid as int,
                )),
        } {
            Some(op_res_typ(op))
        } else {
            None
        },
    }
}

/// A value fits a type: the right tag, and never the unknown value.
pub open spec fn val_has_typ(v: AbsVal, t: Typ) -> bool {
    match t {
        Typ::Int => v is I,
        Typ::Bool => v is B,
    }
}

/// A model fits a typing: one value per variable, each of its declared
/// type.
pub open spec fn model_matches(m: Seq<AbsVal>, env: Seq<Typ>) -> bool {
    m.len() == env.len() && (forall|v: int| 0 <= v < m.len() ==> val_has_typ(#[trigger] m[v], env[v]))
}

/// Values fit types elementwise.
pub open spec fn vals_have_typ(vals: Seq<AbsVal>, t: Typ) -> bool {
    forall|k: int| 0 <= k < vals.len() ==> val_has_typ(#[trigger] vals[k], t)
}

/// An arithmetic fold over integers succeeds unless a zero divisor occurs.
proof fn lemma_arith_fold_total(op: Op, vals: Seq<AbsVal>, acc: int)
    requires
        op == Op::Add || op == Op::Sub || op == Op::Mul || op == Op::Div,
        vals_have_typ(vals, Typ::Int),
        op == Op::Div ==> forall|k: int| 0 <= k < vals.len() ==> vals[k] != AbsVal::I(0),
    ensures
        arith_fold(op, vals, acc) matches Ok(v) && v is I,
    decreases vals.len(),
{
    if vals.len() > 0 {
        assert(vals[0] is I);
        assert forall|k: int| 0 <= k < vals.drop_first().len() implies val_has_typ(
            #[trigger] vals.drop_first()[k],
            Typ::Int,
        ) by {
            assert(vals.drop_first()[k] == vals[k + 1]);
        }
        if op == Op::Div {
            assert forall|k: int|
                0 <= k < vals.drop_first().len() implies vals.drop_first()[k] != AbsVal::I(0) by {
                assert(vals.drop_first()[k] == vals[k + 1]);
            }
        }
        lemma_arith_fold_total(op, vals.drop_first(), crate::op::arith_step(op, acc, vals[0]->I_0));
    }
}

/// A comparison chain over integers always yields a boolean.
proof fn lemma_chain_fold_total(op: Op, vals: Seq<AbsVal>, last: int)
    requires
        op == Op::Gt || op == Op::Ge || op == Op::Le || op == Op::Lt,
        vals_have_typ(vals, Typ::Int),
    ensures
        chain_fold(op, vals, last) matches Ok(v) && v is B,
    decreases vals.len(),
{
    if vals.len() > 0 {
        assert(vals[0] is I);
        assert forall|k: int| 0 <= k < vals.drop_first().len() implies val_has_typ(
            #[trigger] vals.drop_first()[k],
            Typ::Int,
        ) by {
            assert(vals.drop_first()[k] == vals[k + 1]);
        }
        lemma_chain_fold_total(op, vals.drop_first(), vals[0]->I_0);
    }
}

/// An equality fold always yields a boolean.
proof fn lemma_eql_fold_b(vals: Seq<AbsVal>, mem: AbsVal)
    ensures
        eql_fold(vals, mem) is B,
    decreases vals.len(),
{
    if vals.len() > 0 && vals[0] == mem {
        lemma_eql_fold_b(vals.drop_first(), mem);
    }
}

/// A conjunction fold over booleans yields a boolean.
proof fn lemma_and_fold_total(vals: Seq<AbsVal>, unknown: bool)
    requires
        vals_have_typ(vals, Typ::Bool),
    ensures
        and_fold(vals, unknown) matches Ok(v) && (!unknown ==> v is B),
    decreases vals.len(),
{
    if vals.len() > 0 {
        assert(vals[0] is B);
        assert forall|k: int| 0 <= k < vals.drop_first().len() implies val_has_typ(
            #[trigger] vals.drop_first()[k],
            Typ::Bool,
        ) by {
            assert(vals.drop_first()[k] == vals[k + 1]);
        }
        if vals[0]->B_0 {
            lemma_and_fold_total(vals.drop_first(), unknown);
        }
    }
}

/// A disjunction fold over booleans yields a boolean.
proof fn lemma_or_fold_total(vals: Seq<AbsVal>, unknown: bool)
    requires
        vals_have_typ(vals, Typ::Bool),
    ensures
        or_fold(vals, unknown) matches Ok(v) && (!unknown ==> v is B),
    decreases vals.len(),
{
    if vals.len() > 0 {
        assert(vals[0] is B);
        assert forall|k: int| 0 <= k < vals.drop_first().len() implies val_has_typ(
            #[trigger] vals.drop_first()[k],
            Typ::Bool,
        ) by {
            assert(vals.drop_first()[k] == vals[k + 1]);
        }
        if !vals[0]->B_0 {
            lemma_or_fold_total(vals.drop_first(), unknown);
        }
    }
}

/// Evaluation totality modulo types: a term that is well-typed under a
/// typing of the variables evaluates without error under any model that
/// fits the typing, provided no division in it meets a zero divisor, and
/// the value has the term's type.
pub proof fn lemma_eval_total(ts: Seq<RTermV>, env: Seq<Typ>, m: Seq<AbsVal>, i: int)
    requires
        terms_wf(ts),
        0 <= i < ts.len(),
        typ_of(ts, env, i) is Some,
        model_matches(m, env),
        div_safe_at(ts, m, i),
    ensures
        eval_at(ts, m, i) matches Ok(v) && val_has_typ(v, typ_of(ts, env, i)->Some_0),
    decreases i, 1int, 0int,
{
    match ts[i] {
        RTermV::Var(v) => {},
        RTermV::Int(_) => {},
        RTermV::Bool(_) => {},
        RTermV::App { op, args } => {
            assert(rterm_wf_at(ts[i], i));
            let n = args.len() as int;
            lemma_eval_args_total_sub(ts, env, m, i, args, 0);
            proof_skip_zero(args);
            let vals = eval_args(ts, m, i, args)->Ok_0;
            assert(vals == eval_args(ts, m, i, args.skip(0))->Ok_0);
            assert(vals.len() == n);
            assert(!op_panics(op, vals));
            match op {
                Op::Add | Op::Sub | Op::Mul | Op::Div => {
                    assert(vals[0] is I);
                    assert forall|k: int| 0 <= k < vals.drop_first().len() implies val_has_typ(
                        #[trigger] vals.drop_first()[k],
                        Typ::Int,
                    ) by {
                        assert(vals.drop_first()[k] == vals[k + 1]);
                    }
                    if op == Op::Div {
                        assert forall|k: int|
                            0 <= k < vals.drop_first().len() implies vals.drop_first()[k]
                            != AbsVal::I(0) by {
                            assert(vals.drop_first()[k] == vals[k + 1]);
                            if vals[k + 1] == AbsVal::I(0) {
                                assert(forall|j: int| 0 <= j < k + 1 ==> vals[j] is I);
                                assert(div_panics(vals));
                            }
                        }
                    }
                    lemma_arith_fold_total(op, vals.drop_first(), vals[0]->I_0);
                },
                Op::Mod => {
                    assert(vals[0] is I && vals[1] is I);
                    assert(vals[1] != AbsVal::I(0)) by {
                        if vals[1] == AbsVal::I(0) {
                            assert(mod_panics(vals));
                        }
                    }
                },
                Op::Gt | Op::Ge | Op::Le | Op::Lt => {
                    assert(vals[0] is I);
                    assert forall|k: int| 0 <= k < vals.drop_first().len() implies val_has_typ(
                        #[trigger] vals.drop_first()[k],
                        Typ::Int,
                    ) by {
                        assert(vals.drop_first()[k] == vals[k + 1]);
                    }
                    lemma_chain_fold_total(op, vals.drop_first(), vals[0]->I_0);
                },
                Op::Eql => {
                    lemma_eql_fold_b(vals.drop_first(), vals[0]);
                },
                Op::Not => {
                    assert(vals[0] is B);
                },
                Op::And => {
                    lemma_and_fold_total(vals, false);
                },
                Op::Or => {
                    lemma_or_fold_total(vals, false);
                },
                Op::Impl => {
                    assert(vals[0] is B && vals[1] is B);
                },
            }
        },
    }
}

/// A sequence is its own zero-skip.
proof fn proof_skip_zero(args: Seq<Term>)
    ensures
        args.skip(0) == args,
{
    assert(args.skip(0) =~= args);
}

/// The working form of the argument lemma: from position `k` on.
proof fn lemma_eval_args_total_sub(
    ts: Seq<RTermV>,
    env: Seq<Typ>,
    m: Seq<AbsVal>,
    i: int,
    whole: Seq<Term>,
    k: int,
)
    requires
        terms_wf(ts),
        0 <= i < ts.len(),
        ts[i] matches RTermV::App { op, args: a } && a == whole && typ_of(ts, env, i) is Some,
        model_matches(m, env),
        div_safe_at(ts, m, i),
        0 <= k <= whole.len(),
    ensures
        eval_args(ts, m, i, whole.skip(k)) is Ok,
        ({
            let vals = eval_args(ts, m, i, whole.skip(k))->Ok_0;
            &&& vals.len() == whole.len() - k
            &&& forall|j: int|
                0 <= j < vals.len() ==> val_has_typ(
                    #[trigger] vals[j],
                    typ_of(ts, env, whole.skip(k)[j].uid as int)->Some_0,
                ) && typ_of(ts, env, whole.skip(k)[j].uid as int) is Some
        }),
    decreases i, 0int, whole.len() - k,
{
    assert(rterm_wf_at(ts[i], i));
    let op = ts[i]->App_op;
    let rest = whole.skip(k);
    if k == whole.len() {
        assert(rest =~= Seq::<Term>::empty());
    } else {
        assert(rest[0] == whole[k]);
        assert((whole[k].uid as int) < i);
        assert(typ_of(ts, env, whole[k].uid as int) is Some) by {
            match op_arg_typ(op) {
                Some(t) => {
                    assert(typ_of(ts, env, whole[k].uid as int) == Some(t));
                },
                None => {},
            }
        }
        assert(div_safe_at(ts, m, whole[k].uid as int));
        lemma_eval_total(ts, env, m, whole[k].uid as int);
        lemma_eval_args_total_sub(ts, env, m, i, whole, k + 1);
        assert(rest.drop_first() =~= whole.skip(k + 1));
        let v0 = eval_at(ts, m, whole[k].uid as int)->Ok_0;
        let tail_vals = eval_args(ts, m, i, whole.skip(k + 1))->Ok_0;
        let vals = eval_args(ts, m, i, rest)->Ok_0;
        assert(vals =~= seq![v0] + tail_vals);
        assert forall|j: int| 0 <= j < vals.len() implies val_has_typ(
            #[trigger] vals[j],
            typ_of(ts, env, rest[j].uid as int)->Some_0,
        ) && typ_of(ts, env, rest[j].uid as int) is Some by {
            if j == 0 {
            } else {
                assert(vals[j] == tail_vals[j - 1]);
                assert(rest[j] == whole.skip(k + 1)[j - 1]);
            }
        }
    }
}


/// Some value of the sequence is the given one.
pub open spec fn has_val(vals: Seq<AbsVal>, v: AbsVal) -> bool {
    exists|k: int| 0 <= k < vals.len() && vals[k] == v
}

/// Some value of the sequence is unknown.
pub open spec fn has_n(vals: Seq<AbsVal>) -> bool {
    exists|k: int| 0 <= k < vals.len() && vals[k] is N
}

/// N-propagation through conjunction: over boolean and unknown operands, a
/// false operand makes the conjunction false, otherwise any unknown operand
/// makes it unknown, otherwise it is true.
pub proof fn lemma_and_n_propagation(vals: Seq<AbsVal>, unknown: bool)
    requires
        forall|k: int| 0 <= k < vals.len() ==> !((#[trigger] vals[k]) is I),
    ensures
        and_fold(vals, unknown) == Ok::<AbsVal, OpErr>(
            if has_val(vals, AbsVal::B(false)) {
                AbsVal::B(false)
            } else if unknown || has_n(vals) {
                AbsVal::N
            } else {
                AbsVal::B(true)
            },
        ),
    decreases vals.len(),
{
    if vals.len() == 0 {
        assert(!has_val(vals, AbsVal::B(false)));
        assert(!has_n(vals));
    } else {
        let tail = vals.drop_first();
        assert forall|k: int| 0 <= k < tail.len() implies !((#[trigger] tail[k]) is I) by {
            assert(tail[k] == vals[k + 1]);
        }
        match vals[0] {
            AbsVal::B(b) => {
                if !b {
                    assert(has_val(vals, AbsVal::B(false)));
                } else {
                    lemma_and_n_propagation(tail, unknown);
                    lemma_shift_exists(vals, tail);
                }
            },
            AbsVal::N => {
                lemma_and_n_propagation(tail, true);
                lemma_shift_exists(vals, tail);
                assert(vals[0] is N);
                assert(has_n(vals));
            },
            AbsVal::I(_) => {
                assert(false);
            },
        }
    }
}

/// N-propagation through disjunction, the dual: a true operand makes the
/// disjunction true, otherwise any unknown operand makes it unknown,
/// otherwise it is false.
pub proof fn lemma_or_n_propagation(vals: Seq<AbsVal>, unknown: bool)
    requires
        forall|k: int| 0 <= k < vals.len() ==> !((#[trigger] vals[k]) is I),
    ensures
        or_fold(vals, unknown) == Ok::<AbsVal, OpErr>(
            if has_val(vals, AbsVal::B(true)) {
                AbsVal::B(true)
            } else if unknown || has_n(vals) {
                AbsVal::N
            } else {
                AbsVal::B(false)
            },
        ),
    decreases vals.len(),
{
    if vals.len() == 0 {
        assert(!has_val(vals, AbsVal::B(true)));
        assert(!has_n(vals));
    } else {
        let tail = vals.drop_first();
        assert forall|k: int| 0 <= k < tail.len() implies !((#[trigger] tail[k]) is I) by {
            assert(tail[k] == vals[k + 1]);
        }
        match vals[0] {
            AbsVal::B(b) => {
                if b {
                    assert(has_val(vals, AbsVal::B(true)));
                } else {
                    lemma_or_n_propagation(tail, unknown);
                    lemma_shift_exists(vals, tail);
                }
            },
            AbsVal::N => {
                lemma_or_n_propagation(tail, true);
                lemma_shift_exists(vals, tail);
                assert(vals[0] is N);
                assert(has_n(vals));
            },
            AbsVal::I(_) => {
                assert(false);
            },
        }
    }
}

/// Membership facts transfer between a sequence and its tail when the head
/// is neither of the values in question.
proof fn lemma_shift_exists(vals: Seq<AbsVal>, tail: Seq<AbsVal>)
    requires
        vals.len() >= 1,
        tail == vals.drop_first(),
    ensures
        forall|v: AbsVal| has_val(tail, v) ==> has_val(vals, v),
        forall|v: AbsVal| vals[0] != v && #[trigger] has_val(vals, v) ==> has_val(tail, v),
        has_n(tail) ==> has_n(vals),
        !(vals[0] is N) && has_n(vals) ==> has_n(tail),
{
    assert forall|v: AbsVal| has_val(tail, v) implies has_val(vals, v) by {
        let k = choose|k: int| 0 <= k < tail.len() && tail[k] == v;
        assert(vals[k + 1] == v);
    }
    assert forall|v: AbsVal| vals[0] != v && #[trigger] has_val(vals, v) implies has_val(
        tail,
        v,
    ) by {
        let k = choose|k: int| 0 <= k < vals.len() && vals[k] == v;
        assert(k >= 1);
        assert(tail[k - 1] == v);
    }
    if has_n(tail) {
        let k = choose|k: int| 0 <= k < tail.len() && tail[k] is N;
        assert(vals[k + 1] is N);
    }
    if !(vals[0] is N) && has_n(vals) {
        let k = choose|k: int| 0 <= k < vals.len() && vals[k] is N;
        assert(k >= 1);
        assert(tail[k - 1] is N);
    }
}


/// No division or modulo occurs anywhere in the term at `i`.
pub open spec fn div_free_at(ts: Seq<RTermV>, i: int) -> bool
    decreases i,
    when terms_wf(ts) && 0 <= i < ts.len()
{
    match ts[i] {
        RTermV::App { op, args } => op != Op::Div && op != Op::Mod && (forall|k: int|
            0 <= k < args.len() ==> div_free_at(ts, #[trigger] args[k].uid as int)),
        _ => true,
    }
}

/// A term without divisions is division-safe under every model.
pub proof fn lemma_div_free_safe(ts: Seq<RTermV>, m: Seq<AbsVal>, i: int)
    requires
        terms_wf(ts),
        0 <= i < ts.len(),
        div_free_at(ts, i),
    ensures
        div_safe_at(ts, m, i),
    decreases i,
{
    match ts[i] {
        RTermV::App { op, args } => {
            assert(rterm_wf_at(ts[i], i));
            assert forall|k: int| 0 <= k < args.len() implies div_safe_at(
                ts,
                m,
                #[trigger] args[k].uid as int,
            ) by {
                lemma_div_free_safe(ts, m, args[k].uid as int);
            }
        },
        _ => {},
    }
}

/// Evaluation totality for division-free terms: well-typed and fully
/// covered by a fitting model, they evaluate to a value of their type
/// under no further condition.
pub proof fn lemma_eval_total_div_free(ts: Seq<RTermV>, env: Seq<Typ>, m: Seq<AbsVal>, i: int)
    requires
        terms_wf(ts),
        0 <= i < ts.len(),
        typ_of(ts, env, i) is Some,
        model_matches(m, env),
        div_free_at(ts, i),
    ensures
        eval_at(ts, m, i) matches Ok(v) && val_has_typ(v, typ_of(ts, env, i)->Some_0),
{
    lemma_div_free_safe(ts, m, i);
    lemma_eval_total(ts, env, m, i);
}


/// The bytes of an ASCII character sequence.
pub open spec fn bytes_of(s: Seq<char>) -> Seq<u8> {
    Seq::new(s.len(), |i: int| s[i] as u8)
}

/// A token whose first character differs from the first byte does not
/// stand at the start.
proof fn lemma_tag_mismatch0(b: Seq<u8>, t: Seq<char>)
    requires
        t.len() >= 1,
        b.len() >= 1,
        b[0] != t[0] as u8,
    ensures
        !crate::check::tag_s(b, 0, t),
{
    assert(b[0int + 0int] != t[0] as u8);
}

/// Operator tokens round-trip: parsing the bytes of an operator's own
/// token yields that operator, consuming the whole token.
pub proof fn lemma_op_token_round_trip(op: Op)
    ensures
        crate::op::op_parse_s(bytes_of(op_token(op)), 0) == Some(
            (op, op_token(op).len() as int),
        ),
{
    reveal_strlit("+");
    reveal_strlit("-");
    reveal_strlit("*");
    reveal_strlit("/");
    reveal_strlit("mod");
    reveal_strlit("<=");
    reveal_strlit("<");
    reveal_strlit(">=");
    reveal_strlit(">");
    reveal_strlit("=>");
    reveal_strlit("=");
    reveal_strlit("not");
    reveal_strlit("and");
    reveal_strlit("or");
    let b = bytes_of(op_token(op));
    match op {
        Op::Add => {
            assert(b[0] == '+' as u8);
            assert(crate::check::tag_s(b, 0, "+"@));
        },
        Op::Sub => {
            lemma_tag_mismatch0(b, "+"@);
            assert(b[0] == '-' as u8);
            assert(crate::check::tag_s(b, 0, "-"@));
        },
        Op::Mul => {
            lemma_tag_mismatch0(b, "+"@);
            lemma_tag_mismatch0(b, "-"@);
            assert(b[0] == '*' as u8);
            assert(crate::check::tag_s(b, 0, "*"@));
        },
        Op::Div => {
            lemma_tag_mismatch0(b, "+"@);
            lemma_tag_mismatch0(b, "-"@);
            lemma_tag_mismatch0(b, "*"@);
            assert(b[0] == '/' as u8);
            assert(crate::check::tag_s(b, 0, "/"@));
        },
        Op::Mod => {
            lemma_tag_mismatch0(b, "+"@);
            lemma_tag_mismatch0(b, "-"@);
            lemma_tag_mismatch0(b, "*"@);
            lemma_tag_mismatch0(b, "/"@);
            assert(b[0] == 'm' as u8);
            assert(crate::check::tag_s(b, 0, "mod"@));
        },
        Op::Le => {
            lemma_tag_mismatch0(b, "+"@);
            lemma_tag_mismatch0(b, "-"@);
            lemma_tag_mismatch0(b, "*"@);
            lemma_tag_mismatch0(b, "/"@);
            assert(b[0] == '<' as u8);
            assert(crate::check::tag_s(b, 0, "<="@));
        },
        Op::Lt => {
            lemma_tag_mismatch0(b, "+"@);
            lemma_tag_mismatch0(b, "-"@);
            lemma_tag_mismatch0(b, "*"@);
            lemma_tag_mismatch0(b, "/"@);
            assert(b[0] == '<' as u8);
            assert(crate::check::tag_s(b, 0, "<"@));
            assert(!crate::check::tag_s(b, 0, "<="@));
        },
        Op::Ge => {
            lemma_tag_mismatch0(b, "+"@);
            lemma_tag_mismatch0(b, "-"@);
            lemma_tag_mismatch0(b, "*"@);
            lemma_tag_mismatch0(b, "/"@);
            lemma_tag_mismatch0(b, "<="@);
            lemma_tag_mismatch0(b, "<"@);
            assert(b[0] == '>' as u8);
            assert(crate::check::tag_s(b, 0, ">="@));
        },
        Op::Gt => {
            lemma_tag_mismatch0(b, "+"@);
            lemma_tag_mismatch0(b, "-"@);
            lemma_tag_mismatch0(b, "*"@);
            lemma_tag_mismatch0(b, "/"@);
            lemma_tag_mismatch0(b, "<"@);
            assert(b[0] == '>' as u8);
            assert(crate::check::tag_s(b, 0, ">"@));
            assert(!crate::check::tag_s(b, 0, ">="@));
        },
        Op::Impl => {
            lemma_tag_mismatch0(b, "+"@);
            lemma_tag_mismatch0(b, "-"@);
            lemma_tag_mismatch0(b, "*"@);
            lemma_tag_mismatch0(b, "/"@);
            lemma_tag_mismatch0(b, "<="@);
            lemma_tag_mismatch0(b, "<"@);
            lemma_tag_mismatch0(b, ">="@);
            lemma_tag_mismatch0(b, ">"@);
            assert(b[0] == '=' as u8);
            assert(crate::check::tag_s(b, 0, "=>"@));
        },
        Op::Eql => {
            lemma_tag_mismatch0(b, "+"@);
            lemma_tag_mismatch0(b, "-"@);
            lemma_tag_mismatch0(b, "*"@);
            lemma_tag_mismatch0(b, "/"@);
            lemma_tag_mismatch0(b, "<"@);
            lemma_tag_mismatch0(b, ">"@);
            assert(b[0] == '=' as u8);
            assert(crate::check::tag_s(b, 0, "="@));
            assert(!crate::check::tag_s(b, 0, "=>"@));
        },
        Op::Not => {
            lemma_tag_mismatch0(b, "+"@);
            lemma_tag_mismatch0(b, "-"@);
            lemma_tag_mismatch0(b, "*"@);
            lemma_tag_mismatch0(b, "/"@);
            lemma_tag_mismatch0(b, "mod"@);
            lemma_tag_mismatch0(b, "<="@);
            lemma_tag_mismatch0(b, "<"@);
            lemma_tag_mismatch0(b, ">="@);
            lemma_tag_mismatch0(b, ">"@);
            lemma_tag_mismatch0(b, "=>"@);
            lemma_tag_mismatch0(b, "="@);
            assert(b[0] == 'n' as u8);
            assert(crate::check::tag_s(b, 0, "not"@));
        },
        Op::And => {
            lemma_tag_mismatch0(b, "+"@);
            lemma_tag_mismatch0(b, "-"@);
            lemma_tag_mismatch0(b, "*"@);
            lemma_tag_mismatch0(b, "/"@);
            lemma_tag_mismatch0(b, "mod"@);
            lemma_tag_mismatch0(b, "<="@);
            lemma_tag_mismatch0(b, "<"@);
            lemma_tag_mismatch0(b, ">="@);
            lemma_tag_mismatch0(b, ">"@);
            lemma_tag_mismatch0(b, "=>"@);
            lemma_tag_mismatch0(b, "="@);
            lemma_tag_mismatch0(b, "not"@);
            assert(b[0] == 'a' as u8);
            assert(crate::check::tag_s(b, 0, "and"@));
        },
        Op::Or => {
            lemma_tag_mismatch0(b, "+"@);
            lemma_tag_mismatch0(b, "-"@);
            lemma_tag_mismatch0(b, "*"@);
            lemma_tag_mismatch0(b, "/"@);
            lemma_tag_mismatch0(b, "<="@);
            lemma_tag_mismatch0(b, "<"@);
            lemma_tag_mismatch0(b, ">="@);
            lemma_tag_mismatch0(b, ">"@);
            lemma_tag_mismatch0(b, "=>"@);
            lemma_tag_mismatch0(b, "="@);
            assert(b[0] == 'o' as u8);
            assert(crate::check::tag_s(b, 0, "or"@));
        },
    }
}

/// Type tokens round-trip: parsing the bytes of a type's own token yields
/// that type, consuming the whole token.
pub proof fn lemma_typ_token_round_trip(t: Typ)
    ensures
        typ_parse_s(bytes_of(crate::text::typ_str(t)), 0) == Some(
            (t, crate::text::typ_str(t).len() as int),
        ),
{
    reveal_strlit("Int");
    reveal_strlit("Bool");
    let b = bytes_of(crate::text::typ_str(t));
    match t {
        Typ::Int => {
            assert(crate::check::tag_s(b, 0, "Int"@));
        },
        Typ::Bool => {
            assert(b[0] == 'B' as u8);
            assert("Int"@[0] == 'I' as u8);
            assert(crate::check::tag_s(b, 0, "Bool"@));
            assert(!crate::check::tag_s(b, 0, "Int"@));
        },
    }
}

/// Decimal printing and parsing round-trip: the digits a non-negative
/// integer prints to evaluate back to the integer.
pub proof fn lemma_dec_round_trip(n: nat)
    ensures
        ({
            let b = bytes_of(crate::big::dec_digits(n));
            crate::check::dec_val_b(b, 0, b.len() as int) == n
        }),
    decreases n,
{
    let s = crate::big::dec_digits(n);
    let b = bytes_of(s);
    if n < 10 {
        assert(s == seq![crate::big::digit_char(n)]);
        assert(b[0] == crate::big::digit_char(n) as u8);
        assert(crate::big::digit_char(n) as u8 == n + 48);
        assert(crate::check::dec_val_b(b, 0, 1) == crate::check::dec_val_b(b, 0, 0) * 10 + (b[0]
            - 48));
    } else {
        lemma_dec_round_trip(n / 10);
        let sp = crate::big::dec_digits(n / 10);
        let bp = bytes_of(sp);
        assert(s == sp + seq![crate::big::digit_char(n % 10)]);
        assert(b.len() == sp.len() + 1);
        assert forall|i: int| 0 <= i < bp.len() implies b[i] == bp[i] by {
            assert(s[i] == sp[i]);
        }
        assert(b[b.len() - 1] == crate::big::digit_char(n % 10) as u8);
        assert(crate::big::digit_char(n % 10) as u8 == n % 10 + 48);
        lemma_dec_val_prefix(b, bp, bp.len() as int);
        assert(crate::check::dec_val_b(b, 0, b.len() as int) == crate::check::dec_val_b(
            b,
            0,
            b.len() - 1,
        ) * 10 + (b[b.len() - 1] - 48));
        assert(crate::check::dec_val_b(b, 0, b.len() - 1) == crate::check::dec_val_b(
            bp,
            0,
            bp.len() as int,
        ));
    }
}

/// The value of a digit run only depends on the bytes inside the range.
proof fn lemma_dec_val_prefix(b: Seq<u8>, bp: Seq<u8>, to: int)
    requires
        0 <= to <= bp.len(),
        bp.len() <= b.len(),
        forall|i: int| 0 <= i < bp.len() ==> b[i] == bp[i],
    ensures
        crate::check::dec_val_b(b, 0, to) == crate::check::dec_val_b(bp, 0, to),
    decreases to,
{
    if to > 0 {
        lemma_dec_val_prefix(b, bp, to - 1);
    }
}


/// A run of identifier characters reaching the end of the text ends there.
proof fn lemma_ident_run_full(b: Seq<u8>, pos: int)
    requires
        0 <= pos <= b.len(),
        forall|k: int| pos <= k < b.len() ==> crate::check::is_ident_char(#[trigger] b[k]),
    ensures
        crate::check::ident_run_end(b, pos) == b.len(),
    decreases b.len() - pos,
{
    if pos < b.len() {
        lemma_ident_run_full(b, pos + 1);
    }
}

/// Simple identifiers round-trip: parsing the bytes of a well-formed
/// simple identifier yields it back, consuming all of it.
pub proof fn lemma_sident_round_trip(s: Seq<char>)
    requires
        s.len() >= 1,
        crate::check::is_alpha(s[0] as u8),
        forall|k: int| 1 <= k < s.len() ==> crate::check::is_ident_char(#[trigger] s[k] as u8),
        forall|k: int| 0 <= k < s.len() ==> ((#[trigger] s[k] as u8) as char) == s[k],
    ensures
        crate::check::sident_s(bytes_of(s), 0) == Some((s, s.len() as int)),
{
    let b = bytes_of(s);
    assert(crate::check::is_alpha(b[0]));
    assert forall|k: int| 1 <= k < b.len() implies crate::check::is_ident_char(
        #[trigger] b[k],
    ) by {
        assert(b[k] == s[k] as u8);
    }
    lemma_ident_run_full(b, 1);
    assert(crate::check::ascii_str(b, 0, b.len() as int) =~= s);
}

} // verus!
