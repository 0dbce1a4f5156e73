//! Types and values.

use vstd::prelude::*;

use crate::big::Int;
use crate::err::Error;

verus! {

/// The two types of the term language.
#[derive(Clone, Copy, PartialEq, Eq, Structural, Debug, Hash)]
pub enum Typ {
    /// Integers.
    Int,
    /// Booleans.
    Bool,
}

/// The mathematical counterpart of a [`Val`]: what the contracts speak of.
pub enum AbsVal {
    /// A boolean.
    B(bool),
    /// An integer.
    I(int),
    /// No value: the evaluation context was incomplete.
    N,
}

/// Values, as produced by evaluation.
pub enum Val {
    /// A boolean value.
    B(bool),
    /// An integer value.
    I(Int),
    /// No value (context was incomplete).
    N,
}

impl View for Val {
    type V = AbsVal;

    open spec fn view(&self) -> AbsVal {
        match self {
            Val::B(b) => AbsVal::B(*b),
            Val::I(i) => AbsVal::I(i@),
            Val::N => AbsVal::N,
        }
    }
}

impl DeepView for Val {
    type V = AbsVal;

    open spec fn deep_view(&self) -> AbsVal {
        self.view()
    }
}

impl Typ {
    /// The canonical default value of a type.
    pub fn default_val(&self) -> (r: Val)
        ensures
            *self == Typ::Int ==> r@ == AbsVal::I(0),
            *self == Typ::Bool ==> r@ == AbsVal::B(true),
    {
        match self {
            Typ::Int => Val::I(Int::from_i64(0)),
            Typ::Bool => Val::B(true),
        }
    }
}

impl Val {
    /// Extracts a boolean value: fails on an integer, yields nothing on the
    /// unknown value.
    pub fn to_bool(self) -> (r: Result<Option<bool>, Error>)
        ensures
            match self@ {
                AbsVal::B(b) => r matches Ok(o) && o == Some(b),
                AbsVal::I(_) => r matches Err(e) && e matches Error::TypeMismatch,
                AbsVal::N => r matches Ok(o) && o is None,
            },
    {
        match self {
            Val::B(b) => Ok(Some(b)),
            Val::I(_) => Err(Error::TypeMismatch),
            Val::N => Ok(None),
        }
    }

    /// Extracts an integer value: fails on a boolean, yields nothing on the
    /// unknown value.
    pub fn to_int(self) -> (r: Result<Option<Int>, Error>)
        ensures
            match self@ {
                AbsVal::I(n) => r matches Ok(o) && o matches Some(i) && i@ == n,
                AbsVal::B(_) => r matches Err(e) && e matches Error::TypeMismatch,
                AbsVal::N => r matches Ok(o) && o is None,
            },
    {
        match self {
            Val::B(_) => Err(Error::TypeMismatch),
            Val::I(i) => Ok(Some(i)),
            Val::N => Ok(None),
        }
    }
}

impl Clone for Val {
    fn clone(&self) -> (r: Self)
        ensures
            r@ == self@,
    {
        match self {
            Val::B(b) => Val::B(*b),
            Val::I(i) => Val::I(i.clone()),
            Val::N => Val::N,
        }
    }
}

impl PartialEq for Val {
    fn eq(&self, other: &Val) -> (r: bool) {
        match (self, other) {
            (Val::B(a), Val::B(b)) => *a == *b,
            (Val::I(a), Val::I(b)) => a.eq_val(b),
            (Val::N, Val::N) => true,
            _ => false,
        }
    }
}

impl vstd::std_specs::cmp::PartialEqSpecImpl for Val {
    open spec fn obeys_eq_spec() -> bool {
        true
    }

    open spec fn eq_spec(&self, other: &Val) -> bool {
        self@ == other@
    }
}

impl From<bool> for Val {
    fn from(b: bool) -> (r: Val) {
        Val::B(b)
    }
}

impl vstd::std_specs::convert::FromSpecImpl<bool> for Val {
    open spec fn obeys_from_spec() -> bool {
        true
    }

    open spec fn from_spec(b: bool) -> Val {
        Val::B(b)
    }
}

impl Val {
    /// The integer value of a machine integer.
    pub fn of_i64(n: i64) -> (r: Val)
        ensures
            r@ == AbsVal::I(n as int),
    {
        Val::I(Int::from_i64(n))
    }
}


/// What parsing a type token at `pos` yields: exactly `Int` or `Bool`.
pub open spec fn typ_parse_s(b: Seq<u8>, pos: int) -> Option<(Typ, int)> {
    if crate::check::tag_s(b, pos, "Int"@) {
        Some((Typ::Int, pos + 3))
    } else if crate::check::tag_s(b, pos, "Bool"@) {
        Some((Typ::Bool, pos + 4))
    } else {
        None
    }
}

impl Typ {
    /// Parses a type token.
    pub fn parse(bytes: &[u8], pos: usize) -> (r: Option<(Typ, usize)>)
        requires
            pos <= bytes@.len(),
        ensures
            match typ_parse_s(bytes@, pos as int) {
                Some((t, p)) => r matches Some((rt, rp)) && rt == t && rp as int == p,
                None => r is None,
            },
    {
        proof {
            reveal_strlit("Int");
            reveal_strlit("Bool");
        }
        if let Some(p) = crate::check::kw(bytes, pos, "Int") {
            Some((Typ::Int, p))
        } else if let Some(p) = crate::check::kw(bytes, pos, "Bool") {
            Some((Typ::Bool, p))
        } else {
            None
        }
    }
}

/// What parsing a value at `pos` yields: a boolean constant, an unsigned
/// integer, or a parenthesized negated integer.
pub open spec fn val_parse_s(b: Seq<u8>, pos: int) -> Option<(AbsVal, int)> {
    if crate::check::tag_s(b, pos, "true"@) {
        Some((AbsVal::B(true), pos + 4))
    } else if crate::check::tag_s(b, pos, "false"@) {
        Some((AbsVal::B(false), pos + 5))
    } else if pos < b.len() && crate::check::is_digit(b[pos]) {
        let end = crate::check::digit_run_end(b, pos);
        Some((AbsVal::I(crate::check::dec_val_b(b, pos, end)), end))
    } else if pos < b.len() && b[pos] == 40 {
        let p1 = crate::check::skip_ws(b, pos + 1);
        if p1 < pos || p1 > b.len() || !(p1 < b.len() && b[p1] == 45) {
            None
        } else {
            let p2 = crate::check::skip_ws(b, p1 + 1);
            if p2 < pos || p2 > b.len() || !(p2 < b.len() && crate::check::is_digit(b[p2])) {
                None
            } else {
                let end = crate::check::digit_run_end(b, p2);
                let p3 = crate::check::skip_ws(b, end);
                if 0 <= p3 <= b.len() && p3 < b.len() && b[p3] == 41 {
                    Some((AbsVal::I(-crate::check::dec_val_b(b, p2, end)), p3 + 1))
                } else {
                    None
                }
            }
        }
    } else {
        None
    }
}

impl Val {
    /// Parses a value.
    pub fn parse(bytes: &[u8], pos: usize) -> (r: Option<(Val, usize)>)
        requires
            pos <= bytes@.len(),
        ensures
            match val_parse_s(bytes@, pos as int) {
                Some((v, p)) => r matches Some((rv, rp)) && rv@ == v && rp as int == p,
                None => r is None,
            },
    {
        proof {
            reveal_strlit("true");
            reveal_strlit("false");
        }
        if let Some(p) = crate::check::kw(bytes, pos, "true") {
            Some((Val::B(true), p))
        } else if let Some(p) = crate::check::kw(bytes, pos, "false") {
            Some((Val::B(false), p))
        } else if let Some((v, p)) = crate::check::parse_nat(bytes, pos) {
            Some((Val::I(v), p))
        } else if pos < bytes.len() && bytes[pos] == 40 {
            let p1 = crate::check::spc_cmt(bytes, pos + 1);
            if p1 < bytes.len() && bytes[p1] == 45 {
                let p2 = crate::check::spc_cmt(bytes, p1 + 1);
                match crate::check::parse_nat(bytes, p2) {
                    Some((v, end)) => {
                        let p3 = crate::check::spc_cmt(bytes, end);
                        if p3 < bytes.len() && bytes[p3] == 41 {
                            Some((Val::I(v.neg()), p3 + 1))
                        } else {
                            None
                        }
                    },
                    None => None,
                }
            } else {
                None
            }
        } else {
            None
        }
    }
}

} // verus!
