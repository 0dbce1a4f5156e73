//! Arbitrary-precision integers.
//!
//! Values are `num::BigInt`s; each one carries its mathematical value as a
//! ghost `int`, which is what every contract in the crate speaks about. The
//! arithmetic itself is done by `num`, behind the trusted wrappers of this
//! module; everything downstream is verified against the ghost views.

use vstd::prelude::*;

verus! {

#[verifier::external_type_specification]
#[verifier::external_body]
pub struct ExBigInt(num::BigInt);

/// An integer of unbounded magnitude.
///
/// The `rep` field holds the run-time number, the `val` field its
/// mathematical value. Every constructor of this module keeps the two in
/// step, and they are private, so no other module can break the tie.
pub struct Int {
    rep: num::BigInt,
    val: Ghost<int>,
}

impl View for Int {
    type V = int;

    closed spec fn view(&self) -> int {
        self.val@
    }
}

impl DeepView for Int {
    type V = int;

    open spec fn deep_view(&self) -> int {
        self.view()
    }
}

/// Truncated division, the semantics of `/` on `num::BigInt`: the quotient
/// of the magnitudes, negated when the signs of the operands differ.
pub open spec fn div_trunc(a: int, b: int) -> int {
    let q = vstd::math::abs(a) as int / vstd::math::abs(b) as int;
    if (a < 0) == (b < 0) {
        q
    } else {
        -q
    }
}

/// Floored modulo: the remainder takes the sign of the divisor.
pub open spec fn mod_floor(a: int, b: int) -> int {
    let m = a % b;
    if b > 0 || m == 0 {
        m
    } else {
        m + b
    }
}

/// The character for a single decimal digit.
pub open spec fn digit_char(d: nat) -> char {
    ((d + 0x30) as u8) as char
}

/// Decimal digits of a non-negative integer, most significant first,
/// without leading zeroes.
pub open spec fn dec_digits(n: nat) -> Seq<char>
    decreases n,
{
    if n < 10 {
        seq![digit_char(n)]
    } else {
        dec_digits(n / 10) + seq![digit_char(n % 10)]
    }
}

/// Decimal rendering of an integer: a minus sign, if negative, then the
/// digits of the magnitude.
pub open spec fn dec_int(n: int) -> Seq<char> {
    if n < 0 {
        seq!['-'] + dec_digits((-n) as nat)
    } else {
        dec_digits(n as nat)
    }
}

impl Int {
    /// Relies on `num::BigInt: From<i64>`: the exact value is kept.
    #[verifier::external_body]
    pub fn from_i64(n: i64) -> (r: Int)
        ensures
            r@ == n as int,
    {
        Int { rep: num::BigInt::from(n), val: Ghost(n as int) }
    }

    /// Relies on `num::BigInt`'s `Add`: exact arbitrary-precision addition.
    #[verifier::external_body]
    pub fn add(&self, other: &Int) -> (r: Int)
        ensures
            r@ == self@ + other@,
    {
        Int { rep: &self.rep + &other.rep, val: Ghost(self@ + other@) }
    }

    /// Relies on `num::BigInt`'s `Sub`: exact arbitrary-precision subtraction.
    #[verifier::external_body]
    pub fn sub(&self, other: &Int) -> (r: Int)
        ensures
            r@ == self@ - other@,
    {
        Int { rep: &self.rep - &other.rep, val: Ghost(self@ - other@) }
    }

    /// Relies on `num::BigInt`'s `Mul`: exact arbitrary-precision product.
    #[verifier::external_body]
    pub fn mul(&self, other: &Int) -> (r: Int)
        ensures
            r@ == self@ * other@,
    {
        Int { rep: &self.rep * &other.rep, val: Ghost(self@ * other@) }
    }

    /// Relies on `num::BigInt`'s `Neg`.
    #[verifier::external_body]
    pub fn neg(&self) -> (r: Int)
        ensures
            r@ == -self@,
    {
        Int { rep: -&self.rep, val: Ghost(-self@) }
    }

    /// Relies on `num::BigInt`'s `Div`, which truncates towards zero and
    /// panics on a zero divisor.
    #[verifier::external_body]
    pub fn div(&self, other: &Int) -> (r: Int)
        requires
            other@ != 0,
        ensures
            r@ == div_trunc(self@, other@),
    {
        Int { rep: &self.rep / &other.rep, val: Ghost(div_trunc(self@, other@)) }
    }

    /// Relies on `num::Integer::mod_floor` for `num::BigInt`: the remainder
    /// takes the sign of the divisor; panics on a zero divisor.
    #[verifier::external_body]
    pub fn mod_floor(&self, other: &Int) -> (r: Int)
        requires
            other@ != 0,
        ensures
            r@ == mod_floor(self@, other@),
    {
        Int {
            rep: num::Integer::mod_floor(&self.rep, &other.rep),
            val: Ghost(mod_floor(self@, other@)),
        }
    }

    /// Relies on `num::BigInt`'s `PartialOrd`: the numeric order.
    #[verifier::external_body]
    pub fn lt(&self, other: &Int) -> (r: bool)
        ensures
            r == (self@ < other@),
    {
        self.rep < other.rep
    }

    /// Relies on `num::BigInt`'s `PartialOrd`: the numeric order.
    #[verifier::external_body]
    pub fn le(&self, other: &Int) -> (r: bool)
        ensures
            r == (self@ <= other@),
    {
        self.rep <= other.rep
    }

    /// Relies on `num::BigInt`'s `Display`: a minus sign for a negative
    /// number, then the decimal digits without leading zeroes.
    #[verifier::external_body]
    pub fn to_dec_string(&self) -> (r: String)
        ensures
            r@ == dec_int(self@),
    {
        self.rep.to_string()
    }
}

impl Clone for Int {
    /// Relies on `num::BigInt`'s `Clone`: the copy has the same value.
    #[verifier::external_body]
    fn clone(&self) -> (r: Self)
        ensures
            r@ == self@,
    {
        Int { rep: self.rep.clone(), val: self.val }
    }
}

impl Int {
    /// Relies on `num::BigInt`'s `PartialEq`: numeric equality.
    #[verifier::external_body]
    pub fn eq_val(&self, other: &Int) -> (r: bool)
        ensures
            r == (self@ == other@),
    {
        self.rep == other.rep
    }
}

} // verus!
