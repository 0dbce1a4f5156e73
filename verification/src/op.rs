//! The operators of the term language and their evaluation.

use vstd::prelude::*;

use crate::big::{div_trunc, mod_floor, Int};
use crate::err::Error;
use crate::val::{AbsVal, Val};

verus! {

/// Operators.
#[derive(Debug, Clone, Copy, PartialEq, Eq, Structural, Hash)]
pub enum Op {
    /// Addition.
    Add,
    /// Subtraction.
    Sub,
    /// Multiplication.
    Mul,
    /// Division.
    Div,
    /// Modulo.
    Mod,
    /// Greater than.
    Gt,
    /// Greater than or equal to.
    Ge,
    /// Less than or equal to.
    Le,
    /// Less than.
    Lt,
    /// Implication.
    Impl,
    /// Equal to.
    Eql,
    /// Negation.
    Not,
    /// Conjunction.
    And,
    /// Disjunction.
    Or,
}

/// How the evaluation of one operator application can fail.
#[derive(Clone, Copy, PartialEq, Eq, Structural, Debug)]
pub enum OpErr {
    /// Wrong number of arguments (including zero arguments).
    Arity,
    /// An argument of the wrong type.
    Type,
    /// A zero divisor. Evaluation is never asked to handle this case: see
    /// [`op_panics`].
    DivZero,
}

/// One step of the left fold of an arithmetic operator.
pub open spec fn arith_step(op: Op, acc: int, n: int) -> int {
    match op {
        Op::Add => acc + n,
        Op::Sub => acc - n,
        Op::Mul => acc * n,
        Op::Div => div_trunc(acc, n),
        _ => 0,
    }
}

/// Left fold of `+ - * /` over the values after the first, starting from the
/// accumulator `acc`. A boolean is a type error; the unknown value makes the
/// whole application unknown.
pub open spec fn arith_fold(op: Op, vals: Seq<AbsVal>, acc: int) -> Result<AbsVal, OpErr>
    decreases vals.len(),
{
    if vals.len() == 0 {
        Ok(AbsVal::I(acc))
    } else {
        match vals[0] {
            AbsVal::B(_) => Err(OpErr::Type),
            AbsVal::N => Ok(AbsVal::N),
            AbsVal::I(n) => if op == Op::Div && n == 0 {
                Err(OpErr::DivZero)
            } else {
                arith_fold(op, vals.drop_first(), arith_step(op, acc, n))
            },
        }
    }
}

/// The pairwise relation of a comparison operator.
pub open spec fn cmp_rel(op: Op, a: int, b: int) -> bool {
    match op {
        Op::Gt => a > b,
        Op::Ge => a >= b,
        Op::Le => a <= b,
        Op::Lt => a < b,
        _ => false,
    }
}

/// Monotone-chain fold of a comparison: true iff each adjacent pair is in
/// the operator's relation, walking left to right from `last`.
pub open spec fn chain_fold(op: Op, vals: Seq<AbsVal>, last: int) -> Result<AbsVal, OpErr>
    decreases vals.len(),
{
    if vals.len() == 0 {
        Ok(AbsVal::B(true))
    } else {
        match vals[0] {
            AbsVal::B(_) => Err(OpErr::Type),
            AbsVal::N => Ok(AbsVal::N),
            AbsVal::I(n) => if cmp_rel(op, last, n) {
                chain_fold(op, vals.drop_first(), n)
            } else {
                Ok(AbsVal::B(false))
            },
        }
    }
}

/// Equality fold: true iff every value equals the first one. Never a type
/// error; the unknown value only equals itself.
pub open spec fn eql_fold(vals: Seq<AbsVal>, mem: AbsVal) -> AbsVal
    decreases vals.len(),
{
    if vals.len() == 0 {
        AbsVal::B(true)
    } else if vals[0] == mem {
        eql_fold(vals.drop_first(), mem)
    } else {
        AbsVal::B(false)
    }
}

/// Conjunction fold: false as soon as a false operand is met, a type error
/// on the first integer, otherwise unknown iff some operand was unknown.
pub open spec fn and_fold(vals: Seq<AbsVal>, unknown: bool) -> Result<AbsVal, OpErr>
    decreases vals.len(),
{
    if vals.len() == 0 {
        Ok(if unknown {
            AbsVal::N
        } else {
            AbsVal::B(true)
        })
    } else {
        match vals[0] {
            AbsVal::I(_) => Err(OpErr::Type),
            AbsVal::B(b) => if !b {
                Ok(AbsVal::B(false))
            } else {
                and_fold(vals.drop_first(), unknown)
            },
            AbsVal::N => and_fold(vals.drop_first(), true),
        }
    }
}

/// Disjunction fold, the dual of [`and_fold`].
pub open spec fn or_fold(vals: Seq<AbsVal>, unknown: bool) -> Result<AbsVal, OpErr>
    decreases vals.len(),
{
    if vals.len() == 0 {
        Ok(if unknown {
            AbsVal::N
        } else {
            AbsVal::B(false)
        })
    } else {
        match vals[0] {
            AbsVal::I(_) => Err(OpErr::Type),
            AbsVal::B(b) => if b {
                Ok(AbsVal::B(true))
            } else {
                or_fold(vals.drop_first(), unknown)
            },
            AbsVal::N => or_fold(vals.drop_first(), true),
        }
    }
}

/// Binary modulo: both operands projected to integers (the divisor first,
/// as evaluation does), then floored modulo.
pub open spec fn mod_eval(a: AbsVal, b: AbsVal) -> Result<AbsVal, OpErr> {
    match b {
        AbsVal::B(_) => Err(OpErr::Type),
        AbsVal::N => Ok(AbsVal::N),
        AbsVal::I(m) => match a {
            AbsVal::B(_) => Err(OpErr::Type),
            AbsVal::N => Ok(AbsVal::N),
            AbsVal::I(n) => if m == 0 {
                Err(OpErr::DivZero)
            } else {
                Ok(AbsVal::I(mod_floor(n, m)))
            },
        },
    }
}

/// Binary implication: true if the right side is true or the left side is
/// false; unknown when an unknown operand forces no short-circuit.
pub open spec fn impl_eval(l: AbsVal, r: AbsVal) -> Result<AbsVal, OpErr> {
    match l {
        AbsVal::I(_) => Err(OpErr::Type),
        _ => match r {
            AbsVal::I(_) => Err(OpErr::Type),
            _ => if r == AbsVal::B(true) || l == AbsVal::B(false) {
                Ok(AbsVal::B(true))
            } else if l is B && r is B {
                Ok(AbsVal::B(l->B_0 ==> r->B_0))
            } else {
                Ok(AbsVal::N)
            },
        },
    }
}

/// What applying an operator to a sequence of values yields: a value, or
/// the reason evaluation fails. Applying any operator to zero values is an
/// arity error.
pub open spec fn op_eval(op: Op, vals: Seq<AbsVal>) -> Result<AbsVal, OpErr> {
    if vals.len() == 0 {
        Err(OpErr::Arity)
    } else {
        match op {
            Op::Add | Op::Mul | Op::Div => match vals[0] {
                AbsVal::B(_) => Err(OpErr::Type),
                AbsVal::N => Ok(AbsVal::N),
                AbsVal::I(n) => arith_fold(op, vals.drop_first(), n),
            },
            Op::Sub => match vals[0] {
                AbsVal::B(_) => Err(OpErr::Type),
                AbsVal::N => Ok(AbsVal::N),
                AbsVal::I(n) => if vals.len() == 1 {
                    Ok(AbsVal::I(-n))
                } else {
                    arith_fold(op, vals.drop_first(), n)
                },
            },
            Op::Mod => if vals.len() != 2 {
                Err(OpErr::Arity)
            } else {
                mod_eval(vals[0], vals[1])
            },
            Op::Gt | Op::Ge | Op::Le | Op::Lt => match vals[0] {
                AbsVal::B(_) => Err(OpErr::Type),
                AbsVal::N => Ok(AbsVal::N),
                AbsVal::I(n) => chain_fold(op, vals.drop_first(), n),
            },
            Op::Eql => Ok(eql_fold(vals.drop_first(), vals[0])),
            Op::Not => if vals.len() != 1 {
                Err(OpErr::Arity)
            } else {
                match vals[0] {
                    AbsVal::I(_) => Err(OpErr::Type),
                    AbsVal::N => Ok(AbsVal::N),
                    AbsVal::B(b) => Ok(AbsVal::B(!b)),
                }
            },
            Op::And => and_fold(vals, false),
            Op::Or => or_fold(vals, false),
            Op::Impl => if vals.len() != 2 {
                Err(OpErr::Arity)
            } else {
                impl_eval(vals[0], vals[1])
            },
        }
    }
}

/// The inputs on which evaluating a division would divide by zero: a zero
/// divisor is reached after integer operands only. Evaluation requires such
/// inputs away, as the underlying big-integer division does not return on
/// them.
pub open spec fn div_panics(vals: Seq<AbsVal>) -> bool {
    exists|k: int|
        1 <= k < vals.len() && vals[k] == AbsVal::I(0) && (forall|j: int|
            0 <= j < k ==> vals[j] is I)
}

/// The inputs on which evaluating a modulo would divide by zero.
pub open spec fn mod_panics(vals: Seq<AbsVal>) -> bool {
    vals.len() == 2 && vals[0] is I && vals[1] == AbsVal::I(0)
}

/// The inputs an operator evaluation must not be asked about.
pub open spec fn op_panics(op: Op, vals: Seq<AbsVal>) -> bool {
    (op == Op::Div && div_panics(vals)) || (op == Op::Mod && mod_panics(vals))
}

/// How the result of an evaluation relates to [`op_eval`]: success yields
/// exactly the specified value, and each failure kind surfaces as its error.
pub open spec fn eval_result_ok(r: Result<Val, Error>, s: Result<AbsVal, OpErr>) -> bool {
    match s {
        Ok(av) => r matches Ok(v) && v@ == av,
        Err(OpErr::Arity) => r matches Err(e) && e matches Error::Arity,
        Err(OpErr::Type) => r matches Err(e) && e matches Error::TypeMismatch,
        Err(OpErr::DivZero) => false,
    }
}

impl Op {
    /// The fixed textual form of the operator.
    pub fn as_str(&self) -> (r: &'static str)
        ensures
            r@ == op_token(*self),
    {
        match *self {
            Op::Add => "+",
            Op::Sub => "-",
            Op::Mul => "*",
            Op::Div => "/",
            Op::Mod => "mod",
            Op::Gt => ">",
            Op::Ge => ">=",
            Op::Le => "<=",
            Op::Lt => "<",
            Op::Eql => "=",
            Op::Not => "not",
            Op::And => "and",
            Op::Or => "or",
            Op::Impl => "=>",
        }
    }

    /// Applies the operator to evaluated arguments.
    pub fn eval(self, args: Vec<Val>) -> (r: Result<Val, Error>)
        requires
            !op_panics(self, args.deep_view()),
        ensures
            eval_result_ok(r, op_eval(self, args.deep_view())),
    {
        let ghost dv = args.deep_view();
        assert(dv.len() == args@.len());
        if args.len() == 0 {
            return Err(Error::Arity);
        }
        match self {
            Op::Add | Op::Sub | Op::Mul | Op::Div => self.eval_arith(args),
            Op::Gt | Op::Ge | Op::Le | Op::Lt => self.eval_chain(args),
            Op::Eql => Op::eval_eql(args),
            Op::Not => {
                if args.len() != 1 {
                    return Err(Error::Arity);
                }
                match &args[0] {
                    Val::I(_) => Err(Error::TypeMismatch),
                    Val::N => Ok(Val::N),
                    Val::B(b) => Ok(Val::B(!*b)),
                }
            },
            Op::And => Op::eval_and(args),
            Op::Or => Op::eval_or(args),
            Op::Mod => {
                if args.len() != 2 {
                    return Err(Error::Arity);
                }
                match &args[1] {
                    Val::B(_) => Err(Error::TypeMismatch),
                    Val::N => Ok(Val::N),
                    Val::I(m) => match &args[0] {
                        Val::B(_) => Err(Error::TypeMismatch),
                        Val::N => Ok(Val::N),
                        Val::I(n) => {
                            let zero = Int::from_i64(0);
                            if m.eq_val(&zero) {
                                proof {
                                    assert(mod_panics(dv));
                                }
                                // unreachable: excluded by the precondition
                                Err(Error::Internal)
                            } else {
                                Ok(Val::I(n.mod_floor(m)))
                            }
                        },
                    },
                }
            },
            Op::Impl => {
                if args.len() != 2 {
                    return Err(Error::Arity);
                }
                let l_int = matches!(&args[0], Val::I(_));
                let r_int = matches!(&args[1], Val::I(_));
                if l_int || r_int {
                    return Err(Error::TypeMismatch);
                }
                let r_true = matches!(&args[1], Val::B(true));
                let l_false = matches!(&args[0], Val::B(false));
                if r_true || l_false {
                    Ok(Val::B(true))
                } else {
                    match (&args[0], &args[1]) {
                        (Val::B(lb), Val::B(rb)) => Ok(Val::B(*rb || !*lb)),
                        _ => Ok(Val::N),
                    }
                }
            },
        }
    }

    /// The `+ - * /` left folds.
    fn eval_arith(self, args: Vec<Val>) -> (r: Result<Val, Error>)
        requires
            self == Op::Add || self == Op::Sub || self == Op::Mul || self == Op::Div,
            args.deep_view().len() >= 1,
            !op_panics(self, args.deep_view()),
        ensures
            eval_result_ok(r, op_eval(self, args.deep_view())),
    {
        let ghost dv = args.deep_view();
        let first: Int = match &args[0] {
            Val::B(_) => {
                return Err(Error::TypeMismatch);
            },
            Val::N => {
                return Ok(Val::N);
            },
            Val::I(n) => n.clone(),
        };
        if matches!(self, Op::Sub) && args.len() == 1 {
            return Ok(Val::I(first.neg()));
        }
        let mut acc: Int = first;
        let mut k: usize = 1;
        proof {
            assert(dv.skip(1) =~= dv.drop_first());
        }
        while k < args.len()
            invariant
                1 <= k <= args.len(),
                dv == args.deep_view(),
                dv.len() == args@.len(),
                self == Op::Add || self == Op::Sub || self == Op::Mul || self == Op::Div,
                !op_panics(self, dv),
                forall|j: int| 0 <= j < k ==> dv[j] is I,
                op_eval(self, dv) == arith_fold(self, dv.skip(k as int), acc@),
            decreases args.len() - k,
        {
            let ghost rest = dv.skip(k as int);
            proof {
                assert(rest[0] == dv[k as int]);
                assert(rest.drop_first() =~= dv.skip(k as int + 1));
            }
            match &args[k] {
                Val::B(_) => {
                    return Err(Error::TypeMismatch);
                },
                Val::N => {
                    return Ok(Val::N);
                },
                Val::I(n) => {
                    let zero = Int::from_i64(0);
                    if matches!(self, Op::Div) && n.eq_val(&zero) {
                        proof {
                            assert(dv[k as int] == AbsVal::I(0));
                            assert(div_panics(dv));
                        }
                        // unreachable: excluded by the precondition
                        return Err(Error::Internal);
                    }
                    let next: Int = match self {
                        Op::Add => acc.add(n),
                        Op::Sub => acc.sub(n),
                        Op::Mul => acc.mul(n),
                        _ => acc.div(n),
                    };
                    acc = next;
                },
            }
            k = k + 1;
        }
        proof {
            assert(dv.skip(k as int) =~= Seq::<AbsVal>::empty());
        }
        Ok(Val::I(acc))
    }

    /// The `> >= <= <` monotone chains.
    fn eval_chain(self, args: Vec<Val>) -> (r: Result<Val, Error>)
        requires
            self == Op::Gt || self == Op::Ge || self == Op::Le || self == Op::Lt,
            args.deep_view().len() >= 1,
        ensures
            eval_result_ok(r, op_eval(self, args.deep_view())),
    {
        let ghost dv = args.deep_view();
        let mut last: Int = match &args[0] {
            Val::B(_) => {
                return Err(Error::TypeMismatch);
            },
            Val::N => {
                return Ok(Val::N);
            },
            Val::I(n) => n.clone(),
        };
        let mut k: usize = 1;
        proof {
            assert(dv.skip(1) =~= dv.drop_first());
        }
        while k < args.len()
            invariant
                1 <= k <= args.len(),
                dv == args.deep_view(),
                dv.len() == args@.len(),
                self == Op::Gt || self == Op::Ge || self == Op::Le || self == Op::Lt,
                op_eval(self, dv) == chain_fold(self, dv.skip(k as int), last@),
            decreases args.len() - k,
        {
            let ghost rest = dv.skip(k as int);
            proof {
                assert(rest[0] == dv[k as int]);
                assert(rest.drop_first() =~= dv.skip(k as int + 1));
            }
            match &args[k] {
                Val::B(_) => {
                    return Err(Error::TypeMismatch);
                },
                Val::N => {
                    return Ok(Val::N);
                },
                Val::I(n) => {
                    let holds: bool = match self {
                        Op::Gt => n.lt(&last),
                        Op::Ge => n.le(&last),
                        Op::Le => last.le(n),
                        _ => last.lt(n),
                    };
                    if !holds {
                        return Ok(Val::B(false));
                    }
                    last = n.clone();
                },
            }
            k = k + 1;
        }
        proof {
            assert(dv.skip(k as int) =~= Seq::<AbsVal>::empty());
        }
        Ok(Val::B(true))
    }

    /// The n-ary equality walk.
    fn eval_eql(args: Vec<Val>) -> (r: Result<Val, Error>)
        requires
            args.deep_view().len() >= 1,
        ensures
            eval_result_ok(r, op_eval(Op::Eql, args.deep_view())),
    {
        let ghost dv = args.deep_view();
        let mut k: usize = 1;
        proof {
            assert(dv.skip(1) =~= dv.drop_first());
        }
        while k < args.len()
            invariant
                1 <= k <= args.len(),
                dv == args.deep_view(),
                dv.len() == args@.len(),
                op_eval(Op::Eql, dv) == Ok::<AbsVal, OpErr>(eql_fold(dv.skip(k as int), dv[0])),
            decreases args.len() - k,
        {
            let ghost rest = dv.skip(k as int);
            proof {
                assert(rest[0] == dv[k as int]);
                assert(rest.drop_first() =~= dv.skip(k as int + 1));
            }
            if !(args[k] == args[0]) {
                return Ok(Val::B(false));
            }
            k = k + 1;
        }
        proof {
            assert(dv.skip(k as int) =~= Seq::<AbsVal>::empty());
        }
        Ok(Val::B(true))
    }

    /// The conjunction walk.
    fn eval_and(args: Vec<Val>) -> (r: Result<Val, Error>)
        requires
            args.deep_view().len() >= 1,
        ensures
            eval_result_ok(r, op_eval(Op::And, args.deep_view())),
    {
        let ghost dv = args.deep_view();
        let mut unknown: bool = false;
        let mut k: usize = 0;
        proof {
            assert(dv.skip(0) =~= dv);
        }
        while k < args.len()
            invariant
                0 <= k <= args.len(),
                dv == args.deep_view(),
                dv.len() == args@.len(),
                dv.len() >= 1,
                op_eval(Op::And, dv) == and_fold(dv.skip(k as int), unknown),
            decreases args.len() - k,
        {
            let ghost rest = dv.skip(k as int);
            proof {
                assert(rest[0] == dv[k as int]);
                assert(rest.drop_first() =~= dv.skip(k as int + 1));
            }
            match &args[k] {
                Val::I(_) => {
                    return Err(Error::TypeMismatch);
                },
                Val::B(b) => {
                    if !*b {
                        return Ok(Val::B(false));
                    }
                },
                Val::N => {
                    unknown = true;
                },
            }
            k = k + 1;
        }
        proof {
            assert(dv.skip(k as int) =~= Seq::<AbsVal>::empty());
        }
        if unknown {
            Ok(Val::N)
        } else {
            Ok(Val::B(true))
        }
    }

    /// The disjunction walk.
    fn eval_or(args: Vec<Val>) -> (r: Result<Val, Error>)
        requires
            args.deep_view().len() >= 1,
        ensures
            eval_result_ok(r, op_eval(Op::Or, args.deep_view())),
    {
        let ghost dv = args.deep_view();
        let mut unknown: bool = false;
        let mut k: usize = 0;
        proof {
            assert(dv.skip(0) =~= dv);
        }
        while k < args.len()
            invariant
                0 <= k <= args.len(),
                dv == args.deep_view(),
                dv.len() == args@.len(),
                dv.len() >= 1,
                op_eval(Op::Or, dv) == or_fold(dv.skip(k as int), unknown),
            decreases args.len() - k,
        {
            let ghost rest = dv.skip(k as int);
            proof {
                assert(rest[0] == dv[k as int]);
                assert(rest.drop_first() =~= dv.skip(k as int + 1));
            }
            match &args[k] {
                Val::I(_) => {
                    return Err(Error::TypeMismatch);
                },
                Val::B(b) => {
                    if *b {
                        return Ok(Val::B(true));
                    }
                },
                Val::N => {
                    unknown = true;
                },
            }
            k = k + 1;
        }
        proof {
            assert(dv.skip(k as int) =~= Seq::<AbsVal>::empty());
        }
        if unknown {
            Ok(Val::N)
        } else {
            Ok(Val::B(false))
        }
    }
}

/// The token of each operator.
pub open spec fn op_token(op: Op) -> Seq<char> {
    match op {
        Op::Add => "+"@,
        Op::Sub => "-"@,
        Op::Mul => "*"@,
        Op::Div => "/"@,
        Op::Mod => "mod"@,
        Op::Gt => ">"@,
        Op::Ge => ">="@,
        Op::Le => "<="@,
        Op::Lt => "<"@,
        Op::Eql => "="@,
        Op::Not => "not"@,
        Op::And => "and"@,
        Op::Or => "or"@,
        Op::Impl => "=>"@,
    }
}


/// What parsing an operator token at `pos` yields, trying the tokens in
/// their fixed priority order.
pub open spec fn op_parse_s(b: Seq<u8>, pos: int) -> Option<(Op, int)> {
    if crate::check::tag_s(b, pos, "+"@) {
        Some((Op::Add, pos + 1))
    } else if crate::check::tag_s(b, pos, "-"@) {
        Some((Op::Sub, pos + 1))
    } else if crate::check::tag_s(b, pos, "*"@) {
        Some((Op::Mul, pos + 1))
    } else if crate::check::tag_s(b, pos, "/"@) {
        Some((Op::Div, pos + 1))
    } else if crate::check::tag_s(b, pos, "mod"@) {
        Some((Op::Mod, pos + 3))
    } else if crate::check::tag_s(b, pos, "<="@) {
        Some((Op::Le, pos + 2))
    } else if crate::check::tag_s(b, pos, "<"@) {
        Some((Op::Lt, pos + 1))
    } else if crate::check::tag_s(b, pos, ">="@) {
        Some((Op::Ge, pos + 2))
    } else if crate::check::tag_s(b, pos, ">"@) {
        Some((Op::Gt, pos + 1))
    } else if crate::check::tag_s(b, pos, "=>"@) {
        Some((Op::Impl, pos + 2))
    } else if crate::check::tag_s(b, pos, "="@) {
        Some((Op::Eql, pos + 1))
    } else if crate::check::tag_s(b, pos, "not"@) {
        Some((Op::Not, pos + 3))
    } else if crate::check::tag_s(b, pos, "and"@) {
        Some((Op::And, pos + 3))
    } else if crate::check::tag_s(b, pos, "or"@) {
        Some((Op::Or, pos + 2))
    } else {
        None
    }
}

impl Op {
    /// Parses an operator token.
    pub fn parse(bytes: &[u8], pos: usize) -> (r: Option<(Op, usize)>)
        requires
            pos <= bytes@.len(),
        ensures
            match op_parse_s(bytes@, pos as int) {
                Some((o, p)) => r matches Some((ro, rp)) && ro == o && rp as int == p,
                None => r is None,
            },
    {
        proof {
            reveal_strlit("+");
            reveal_strlit("-");
            reveal_strlit("*");
            reveal_strlit("/");
            reveal_strlit("mod");
            reveal_strlit("<=");
            reveal_strlit("<");
            reveal_strlit(">=");
            reveal_strlit(">");
            reveal_strlit("=>");
            reveal_strlit("=");
            reveal_strlit("not");
            reveal_strlit("and");
            reveal_strlit("or");
        }
        if let Some(p) = crate::check::kw(bytes, pos, "+") {
            Some((Op::Add, p))
        } else if let Some(p) = crate::check::kw(bytes, pos, "-") {
            Some((Op::Sub, p))
        } else if let Some(p) = crate::check::kw(bytes, pos, "*") {
            Some((Op::Mul, p))
        } else if let Some(p) = crate::check::kw(bytes, pos, "/") {
            Some((Op::Div, p))
        } else if let Some(p) = crate::check::kw(bytes, pos, "mod") {
            Some((Op::Mod, p))
        } else if let Some(p) = crate::check::kw(bytes, pos, "<=") {
            Some((Op::Le, p))
        } else if let Some(p) = crate::check::kw(bytes, pos, "<") {
            Some((Op::Lt, p))
        } else if let Some(p) = crate::check::kw(bytes, pos, ">=") {
            Some((Op::Ge, p))
        } else if let Some(p) = crate::check::kw(bytes, pos, ">") {
            Some((Op::Gt, p))
        } else if let Some(p) = crate::check::kw(bytes, pos, "=>") {
            Some((Op::Impl, p))
        } else if let Some(p) = crate::check::kw(bytes, pos, "=") {
            Some((Op::Eql, p))
        } else if let Some(p) = crate::check::kw(bytes, pos, "not") {
            Some((Op::Not, p))
        } else if let Some(p) = crate::check::kw(bytes, pos, "and") {
            Some((Op::And, p))
        } else if let Some(p) = crate::check::kw(bytes, pos, "or") {
            Some((Op::Or, p))
        } else {
            None
        }
    }
}

} // verus!
