//! The checker's text format: parsers and printers.
//!
//! The grammar reads a problem (predicate declarations, clauses, a final
//! `(infer)`) and a candidate solution (`(safe ...)` with predicate
//! definitions). S-expressions are not interpreted: they are kept as flat
//! strings, re-parenthesized with single spaces, to be handed to an SMT
//! solver. Whitespace and `;`-to-end-of-line comments are allowed between
//! any two tokens.

use vstd::prelude::*;

use crate::err::Error;

verus! {

/// Relies on `String::from_utf8`: ASCII bytes decode to their characters.
#[verifier::external_body]
pub fn ascii_to_string(v: Vec<u8>) -> (r: String)
    requires
        forall|k: int| 0 <= k < v@.len() ==> v@[k] < 128,
    ensures
        r@ == v@.map_values(|b: u8| b as char),
{
    String::from_utf8(v).unwrap_or(String::new())
}

/// Whitespace, as the format knows it.
pub open spec fn is_space(b: u8) -> bool {
    b == 32 || b == 9 || b == 10 || b == 13
}

/// A letter.
pub open spec fn is_alpha(b: u8) -> bool {
    (97 <= b && b <= 122) || (65 <= b && b <= 90)
}

/// An upper-case letter.
pub open spec fn is_upper(b: u8) -> bool {
    65 <= b && b <= 90
}

/// A decimal digit.
pub open spec fn is_digit(b: u8) -> bool {
    48 <= b && b <= 57
}

/// A character of a simple identifier after the first.
pub open spec fn is_ident_char(b: u8) -> bool {
    is_alpha(b) || is_digit(b) || b == 95
}

/// An exec test for [`is_space`].
fn space(b: u8) -> (r: bool)
    ensures
        r == is_space(b),
{
    b == 32 || b == 9 || b == 10 || b == 13
}

/// An exec test for [`is_alpha`].
fn alpha(b: u8) -> (r: bool)
    ensures
        r == is_alpha(b),
{
    (97 <= b && b <= 122) || (65 <= b && b <= 90)
}

/// An exec test for [`is_digit`].
fn digit(b: u8) -> (r: bool)
    ensures
        r == is_digit(b),
{
    48 <= b && b <= 57
}

/// An exec test for [`is_ident_char`].
fn ident_char(b: u8) -> (r: bool)
    ensures
        r == is_ident_char(b),
{
    alpha(b) || digit(b) || b == 95
}

/// Where skipping whitespace and comments from `pos` ends.
pub open spec fn skip_ws(b: Seq<u8>, pos: int) -> int
    decreases b.len() - pos, 0int,
    when 0 <= pos <= b.len()
{
    if pos < b.len() && is_space(b[pos]) {
        skip_ws(b, pos + 1)
    } else if pos < b.len() && b[pos] == 59 {
        skip_cmt(b, pos + 1)
    } else {
        pos
    }
}

/// Where skipping the rest of a comment from `pos` ends: everything up to
/// the end of the line, then whitespace and comments again.
pub open spec fn skip_cmt(b: Seq<u8>, pos: int) -> int
    decreases b.len() - pos, 1int,
    when 0 <= pos <= b.len()
{
    if pos >= b.len() {
        pos
    } else if b[pos] == 10 || b[pos] == 13 {
        skip_ws(b, pos)
    } else {
        skip_cmt(b, pos + 1)
    }
}

/// Skipping never moves backwards nor past the end.
pub proof fn lemma_skip_ws_bounds(b: Seq<u8>, pos: int)
    requires
        0 <= pos <= b.len(),
    ensures
        pos <= skip_ws(b, pos) <= b.len(),
        pos <= skip_cmt(b, pos) <= b.len(),
    decreases b.len() - pos, 2int,
{
    if pos < b.len() {
        lemma_skip_ws_bounds(b, pos + 1);
    }
}

/// Consumes whitespace and comments. Comments can be long, so this walks
/// the text in a loop rather than recursing per character.
pub fn spc_cmt(bytes: &[u8], pos: usize) -> (r: usize)
    requires
        pos <= bytes@.len(),
    ensures
        r == skip_ws(bytes@, pos as int),
        pos <= r <= bytes@.len(),
{
    let blen = bytes.len();
    let mut cur = pos;
    let mut in_cmt = false;
    loop
        invariant
            pos <= cur <= blen,
            blen == bytes@.len(),
            if in_cmt {
                skip_ws(bytes@, pos as int) == skip_cmt(bytes@, cur as int)
            } else {
                skip_ws(bytes@, pos as int) == skip_ws(bytes@, cur as int)
            },
        decreases
                2 * (blen - cur) + (if in_cmt {
                    1int
                } else {
                    0int
                }),
    {
        proof {
            lemma_skip_ws_bounds(bytes@, cur as int);
        }
        if in_cmt {
            if cur >= blen {
                return cur;
            } else if bytes[cur] == 10 || bytes[cur] == 13 {
                in_cmt = false;
            } else {
                cur = cur + 1;
            }
        } else {
            if cur < blen && space(bytes[cur]) {
                cur = cur + 1;
            } else if cur < blen && bytes[cur] == 59 {
                in_cmt = true;
                cur = cur + 1;
            } else {
                return cur;
            }
        }
    }
}

/// The characters of an ASCII byte range.
pub open spec fn ascii_str(b: Seq<u8>, from: int, to: int) -> Seq<char> {
    b.subrange(from, to).map_values(|x: u8| x as char)
}

/// The end of a run of identifier characters starting at `pos`.
pub open spec fn ident_run_end(b: Seq<u8>, pos: int) -> int
    decreases b.len() - pos,
    when 0 <= pos <= b.len()
{
    if pos < b.len() && is_ident_char(b[pos]) {
        ident_run_end(b, pos + 1)
    } else {
        pos
    }
}

/// A run never moves backwards nor past the end.
pub proof fn lemma_ident_run_bounds(b: Seq<u8>, pos: int)
    requires
        0 <= pos <= b.len(),
    ensures
        pos <= ident_run_end(b, pos) <= b.len(),
    decreases b.len() - pos,
{
    if pos < b.len() && is_ident_char(b[pos]) {
        lemma_ident_run_bounds(b, pos + 1);
    }
}

/// What parsing a simple identifier at `pos` yields: a letter followed by
/// the longest run of identifier characters.
pub open spec fn sident_s(b: Seq<u8>, pos: int) -> Option<(Seq<char>, int)> {
    if pos < b.len() && is_alpha(b[pos]) {
        let end = ident_run_end(b, pos + 1);
        Some((ascii_str(b, pos, end), end))
    } else {
        None
    }
}

/// Collects the bytes of a range as a string. The range must be ASCII.
fn range_to_string(bytes: &[u8], from: usize, to: usize) -> (r: String)
    requires
        from <= to <= bytes@.len(),
        forall|k: int| from <= k < to ==> bytes@[k] < 128,
    ensures
        r@ == ascii_str(bytes@, from as int, to as int),
{
    let mut out: Vec<u8> = Vec::new();
    let mut k: usize = from;
    while k < to
        invariant
            from <= k <= to <= bytes@.len(),
            forall|j: int| from <= j < to ==> bytes@[j] < 128,
            out@ == bytes@.subrange(from as int, k as int),
        decreases to - k,
    {
        let ghost before = out@;
        out.push(bytes[k]);
        proof {
            assert(out@ =~= bytes@.subrange(from as int, k as int + 1));
        }
        k = k + 1;
    }
    let r = ascii_to_string(out);
    proof {
        assert(r@ =~= ascii_str(bytes@, from as int, to as int));
    }
    r
}

/// Parses a simple identifier.
pub fn sident(bytes: &[u8], pos: usize) -> (r: Option<(String, usize)>)
    requires
        pos <= bytes@.len(),
    ensures
        match sident_s(bytes@, pos as int) {
            Some((s, p)) => r matches Some((rs, rp)) && rs@ == s && rp as int == p && pos < p
                <= bytes@.len(),
            None => r is None,
        },
{
    if pos < bytes.len() && alpha(bytes[pos]) {
        proof {
            lemma_ident_run_bounds(bytes@, pos as int + 1);
        }
        let mut end: usize = pos + 1;
        while end < bytes.len() && ident_char(bytes[end])
            invariant
                pos + 1 <= end <= bytes@.len(),
                ident_run_end(bytes@, pos as int + 1) == ident_run_end(bytes@, end as int),
                forall|j: int| pos + 1 <= j < end ==> is_ident_char(bytes@[j]),
            decreases bytes@.len() - end,
        {
            end = end + 1;
        }
        proof {
            assert(ident_run_end(bytes@, end as int) == end as int);
            assert forall|k: int| pos <= k < end implies bytes@[k] < 128 by {
                if k == pos {
                    assert(is_alpha(bytes@[k]));
                } else {
                    assert(is_ident_char(bytes@[k]));
                }
            }
        }
        Some((range_to_string(bytes, pos, end), end))
    } else {
        None
    }
}


/// The end of a run of non-bar characters starting at `pos`.
pub open spec fn bar_run_end(b: Seq<u8>, pos: int) -> int
    decreases b.len() - pos,
    when 0 <= pos <= b.len()
{
    if pos < b.len() && b[pos] != 124 {
        bar_run_end(b, pos + 1)
    } else {
        pos
    }
}

/// The run never moves backwards nor past the end.
pub proof fn lemma_bar_run_bounds(b: Seq<u8>, pos: int)
    requires
        0 <= pos <= b.len(),
    ensures
        pos <= bar_run_end(b, pos) <= b.len(),
    decreases b.len() - pos,
{
    if pos < b.len() && b[pos] != 124 {
        lemma_bar_run_bounds(b, pos + 1);
    }
}

/// What parsing a quoted identifier at `pos` yields: for `|` around a
/// simple identifier, the identifier without the bars; otherwise anything
/// up to the next bar, kept with its bars.
pub open spec fn qident_s(b: Seq<u8>, pos: int) -> Option<(Seq<char>, int)> {
    if pos < b.len() && b[pos] == 124 {
        match sident_s(b, pos + 1) {
            Some((s, p)) => if p < b.len() && b[p] == 124 {
                Some((s, p + 1))
            } else {
                qident_raw_s(b, pos)
            },
            None => qident_raw_s(b, pos),
        }
    } else {
        None
    }
}

/// The fallback form of a quoted identifier: `|`, anything but a bar, `|`,
/// kept verbatim.
pub open spec fn qident_raw_s(b: Seq<u8>, pos: int) -> Option<(Seq<char>, int)> {
    let end = bar_run_end(b, pos + 1);
    if end < b.len() {
        Some((ascii_str(b, pos, end + 1), end + 1))
    } else {
        None
    }
}

/// What parsing an identifier at `pos` yields: simple or quoted.
pub open spec fn ident_s(b: Seq<u8>, pos: int) -> Option<(Seq<char>, int)> {
    match sident_s(b, pos) {
        Some(r) => Some(r),
        None => qident_s(b, pos),
    }
}

/// Every byte is ASCII.
pub open spec fn ascii_bytes(b: Seq<u8>) -> bool {
    forall|k: int| 0 <= k < b.len() ==> b[k] < 128
}

/// Parses a quoted identifier.
pub fn qident(bytes: &[u8], pos: usize) -> (r: Option<(String, usize)>)
    requires
        pos <= bytes@.len(),
        ascii_bytes(bytes@),
    ensures
        match qident_s(bytes@, pos as int) {
            Some((s, p)) => r matches Some((rs, rp)) && rs@ == s && rp as int == p && pos < p
                <= bytes@.len(),
            None => r is None,
        },
{
    if pos < bytes.len() && bytes[pos] == 124 {
        let first = sident(bytes, pos + 1);
        match first {
            Some((s, p)) => {
                proof {
                    lemma_ident_run_bounds(bytes@, pos as int + 2);
                }
                if p < bytes.len() && bytes[p] == 124 {
                    return Some((s, p + 1));
                }
                qident_raw(bytes, pos)
            },
            None => qident_raw(bytes, pos),
        }
    } else {
        None
    }
}

/// Parses the fallback form of a quoted identifier.
fn qident_raw(bytes: &[u8], pos: usize) -> (r: Option<(String, usize)>)
    requires
        pos < bytes@.len(),
        ascii_bytes(bytes@),
    ensures
        match qident_raw_s(bytes@, pos as int) {
            Some((s, p)) => r matches Some((rs, rp)) && rs@ == s && rp as int == p && pos < p
                <= bytes@.len(),
            None => r is None,
        },
{
    let blen = bytes.len();
    proof {
        lemma_bar_run_bounds(bytes@, pos as int + 1);
    }
    let mut end: usize = pos + 1;
    while end < bytes.len() && bytes[end] != 124
        invariant
            pos + 1 <= end <= bytes@.len(),
            bar_run_end(bytes@, pos as int + 1) == bar_run_end(bytes@, end as int),
        decreases bytes@.len() - end,
    {
        end = end + 1;
    }
    proof {
        assert(bar_run_end(bytes@, end as int) == end as int);
    }
    if end < bytes.len() {
        Some((range_to_string(bytes, pos, end + 1), end + 1))
    } else {
        None
    }
}

/// Parses an identifier, simple or quoted.
pub fn ident(bytes: &[u8], pos: usize) -> (r: Option<(String, usize)>)
    requires
        pos <= bytes@.len(),
        ascii_bytes(bytes@),
    ensures
        match ident_s(bytes@, pos as int) {
            Some((s, p)) => r matches Some((rs, rp)) && rs@ == s && rp as int == p && pos < p
                <= bytes@.len(),
            None => r is None,
        },
{
    match sident(bytes, pos) {
        Some(r) => Some(r),
        None => qident(bytes, pos),
    }
}

/// The end of a run of letters starting at `pos`.
pub open spec fn alpha_run_end(b: Seq<u8>, pos: int) -> int
    decreases b.len() - pos,
    when 0 <= pos <= b.len()
{
    if pos < b.len() && is_alpha(b[pos]) {
        alpha_run_end(b, pos + 1)
    } else {
        pos
    }
}

/// The run never moves backwards nor past the end.
pub proof fn lemma_alpha_run_bounds(b: Seq<u8>, pos: int)
    requires
        0 <= pos <= b.len(),
    ensures
        pos <= alpha_run_end(b, pos) <= b.len(),
    decreases b.len() - pos,
{
    if pos < b.len() && is_alpha(b[pos]) {
        lemma_alpha_run_bounds(b, pos + 1);
    }
}

/// What parsing a type token at `pos` yields: an upper-case letter followed
/// by the longest run of letters.
pub open spec fn typ_tok_s(b: Seq<u8>, pos: int) -> Option<(Seq<char>, int)> {
    if pos < b.len() && is_upper(b[pos]) {
        let end = alpha_run_end(b, pos + 1);
        Some((ascii_str(b, pos, end), end))
    } else {
        None
    }
}

/// Parses a type token.
pub fn typ_tok(bytes: &[u8], pos: usize) -> (r: Option<(String, usize)>)
    requires
        pos <= bytes@.len(),
        ascii_bytes(bytes@),
    ensures
        match typ_tok_s(bytes@, pos as int) {
            Some((s, p)) => r matches Some((rs, rp)) && rs@ == s && rp as int == p && pos < p
                <= bytes@.len(),
            None => r is None,
        },
{
    if pos < bytes.len() && 65 <= bytes[pos] && bytes[pos] <= 90 {
        proof {
            lemma_alpha_run_bounds(bytes@, pos as int + 1);
        }
        let mut end: usize = pos + 1;
        while end < bytes.len() && alpha(bytes[end])
            invariant
                pos + 1 <= end <= bytes@.len(),
                alpha_run_end(bytes@, pos as int + 1) == alpha_run_end(bytes@, end as int),
            decreases bytes@.len() - end,
        {
            end = end + 1;
        }
        proof {
            assert(alpha_run_end(bytes@, end as int) == end as int);
        }
        Some((range_to_string(bytes, pos, end), end))
    } else {
        None
    }
}

/// A fixed token stands at `pos`.
pub open spec fn tag_s(b: Seq<u8>, pos: int, t: Seq<char>) -> bool {
    pos + t.len() <= b.len() && (forall|k: int| 0 <= k < t.len() ==> b[pos + k] == t[k] as u8)
}

/// Tests a fixed ASCII token.
fn tag(bytes: &[u8], pos: usize, t: &str) -> (r: bool)
    requires
        pos <= bytes@.len(),
        vstd::string::is_ascii(t),
    ensures
        r == tag_s(bytes@, pos as int, t@),
{
    proof {
        vstd::string::is_ascii_spec_bytes(t);
    }
    let tb = t.as_bytes();
    let blen = bytes.len();
    if blen - pos < tb.len() {
        return false;
    }
    let mut k: usize = 0;
    while k < tb.len()
        invariant
            0 <= k <= tb@.len(),
            blen == bytes@.len(),
            pos + tb@.len() <= bytes@.len(),
            tb@.len() == t@.len(),
            forall|j: int| 0 <= j < tb@.len() ==> tb@[j] == t@[j] as u8,
            forall|j: int| 0 <= j < k ==> bytes@[pos + j] == t@[j] as u8,
        decreases tb@.len() - k,
    {
        if bytes[pos + k] != tb[k] {
            return false;
        }
        k = k + 1;
    }
    true
}


/// A character an unquoted atom may hold: anything but whitespace and
/// parentheses.
pub open spec fn is_atom_char(b: u8) -> bool {
    !is_space(b) && b != 40 && b != 41
}

/// An exec test for [`is_atom_char`].
fn atom_char(b: u8) -> (r: bool)
    ensures
        r == is_atom_char(b),
{
    !space(b) && b != 40 && b != 41
}

/// The end of a run of atom characters starting at `pos`.
pub open spec fn atom_run_end(b: Seq<u8>, pos: int) -> int
    decreases b.len() - pos,
    when 0 <= pos <= b.len()
{
    if pos < b.len() && is_atom_char(b[pos]) {
        atom_run_end(b, pos + 1)
    } else {
        pos
    }
}

/// The run never moves backwards nor past the end.
pub proof fn lemma_atom_run_bounds(b: Seq<u8>, pos: int)
    requires
        0 <= pos <= b.len(),
    ensures
        pos <= atom_run_end(b, pos) <= b.len(),
    decreases b.len() - pos,
{
    if pos < b.len() && is_atom_char(b[pos]) {
        lemma_atom_run_bounds(b, pos + 1);
    }
}

/// What parsing an s-expression at `pos` yields, as a flat string: an
/// identifier, an atom, or a parenthesized list re-parenthesized with
/// single spaces.
pub open spec fn sexpr_s(b: Seq<u8>, pos: int) -> Option<(Seq<char>, int)>
    decreases b.len() - pos, 0int,
    when 0 <= pos <= b.len()
{
    match ident_s(b, pos) {
        Some(r) => Some(r),
        None => if pos < b.len() && is_atom_char(b[pos]) {
            let end = atom_run_end(b, pos + 1);
            Some((ascii_str(b, pos, end), end))
        } else if pos < b.len() && b[pos] == 40 {
            let p1 = skip_ws(b, pos + 1);
            if p1 <= pos || p1 > b.len() {
                None
            } else {
                match sexpr_list_s(b, p1) {
                    Some((mid, p2)) => Some(("( "@ + mid + ")"@, p2)),
                    None => None,
                }
            }
        } else {
            None
        },
    }
}

/// One or more s-expressions, each followed by optional whitespace, closed
/// by `)`: the flat strings, each followed by one space, and the position
/// after the closing parenthesis.
pub open spec fn sexpr_list_s(b: Seq<u8>, pos: int) -> Option<(Seq<char>, int)>
    decreases b.len() - pos, 1int,
    when 0 <= pos <= b.len()
{
    match sexpr_s(b, pos) {
        None => None,
        Some((s, p2)) => if p2 <= pos || p2 > b.len() {
            None
        } else {
            let p3 = skip_ws(b, p2);
            if p3 <= pos || p3 > b.len() {
                None
            } else if p3 < b.len() && b[p3] == 41 {
                Some((s + " "@, p3 + 1))
            } else {
                match sexpr_list_s(b, p3) {
                    Some((rest, p4)) => Some((s + " "@ + rest, p4)),
                    None => None,
                }
            }
        },
    }
}

/// Parses an s-expression into its flat form.
pub fn s_expr(bytes: &[u8], pos: usize) -> (r: Option<(String, usize)>)
    requires
        pos <= bytes@.len(),
        ascii_bytes(bytes@),
    ensures
        match sexpr_s(bytes@, pos as int) {
            Some((s, p)) => r matches Some((rs, rp)) && rs@ == s && rp as int == p && pos < p
                <= bytes@.len(),
            None => r is None,
        },
    decreases bytes@.len() - pos, 0int,
{
    let blen = bytes.len();
    match ident(bytes, pos) {
        Some((s, p)) => {
            proof {
                match sident_s(bytes@, pos as int) {
                    Some(_) => {
                        lemma_ident_run_bounds(bytes@, pos as int + 1);
                    },
                    None => {
                        lemma_ident_run_bounds(bytes@, pos as int + 2);
                        lemma_bar_run_bounds(bytes@, pos as int + 1);
                    },
                }
            }
            Some((s, p))
        },
        None => {
            if pos < blen && atom_char(bytes[pos]) {
                proof {
                    lemma_atom_run_bounds(bytes@, pos as int + 1);
                }
                let mut end: usize = pos + 1;
                while end < blen && atom_char(bytes[end])
                    invariant
                        pos + 1 <= end <= bytes@.len(),
                        blen == bytes@.len(),
                        atom_run_end(bytes@, pos as int + 1) == atom_run_end(bytes@, end as int),
                    decreases bytes@.len() - end,
                {
                    end = end + 1;
                }
                proof {
                    assert(atom_run_end(bytes@, end as int) == end as int);
                }
                Some((range_to_string(bytes, pos, end), end))
            } else if pos < blen && bytes[pos] == 40 {
                let p1 = spc_cmt(bytes, pos + 1);
                match s_expr_list(bytes, p1) {
                    Some((mid, p2)) => {
                        let mut out = "( ".to_owned();
                        out.append(mid.as_str());
                        out.append(")");
                        proof {
                            assert(out@ =~= "( "@ + mid@ + ")"@);
                        }
                        Some((out, p2))
                    },
                    None => None,
                }
            } else {
                None
            }
        },
    }
}

/// Parses a list of s-expressions up to and including the closing `)`.
fn s_expr_list(bytes: &[u8], pos: usize) -> (r: Option<(String, usize)>)
    requires
        pos <= bytes@.len(),
        ascii_bytes(bytes@),
    ensures
        match sexpr_list_s(bytes@, pos as int) {
            Some((s, p)) => r matches Some((rs, rp)) && rs@ == s && rp as int == p && pos < p
                <= bytes@.len(),
            None => r is None,
        },
    decreases bytes@.len() - pos, 1int,
{
    let blen = bytes.len();
    match s_expr(bytes, pos) {
        None => None,
        Some((s, p2)) => {
            let p3 = spc_cmt(bytes, p2);
            if p3 < blen && bytes[p3] == 41 {
                let mut out = s;
                out.append(" ");
                proof {
                    assert(out@ =~= sexpr_list_s(bytes@, pos as int)->Some_0.0);
                }
                Some((out, p3 + 1))
            } else {
                match s_expr_list(bytes, p3) {
                    Some((rest, p4)) => {
                        let mut out = s;
                        out.append(" ");
                        out.append(rest.as_str());
                        proof {
                            assert(out@ =~= sexpr_list_s(bytes@, pos as int)->Some_0.0);
                        }
                        Some((out, p4))
                    },
                    None => None,
                }
            }
        },
    }
}


/// Where a fixed token at `pos` ends, if it stands there.
pub open spec fn after_tag(b: Seq<u8>, pos: int, t: Seq<char>) -> Option<int> {
    if tag_s(b, pos, t) {
        Some(pos + t.len() as int)
    } else {
        None
    }
}

/// Consumes a fixed ASCII token.
pub fn kw(bytes: &[u8], pos: usize, t: &str) -> (r: Option<usize>)
    requires
        pos <= bytes@.len(),
        vstd::string::is_ascii(t),
    ensures
        match after_tag(bytes@, pos as int, t@) {
            Some(p) => r matches Some(rp) && rp as int == p && pos <= p <= bytes@.len(),
            None => r is None,
        },
{
    proof {
        vstd::string::is_ascii_spec_bytes(t);
    }
    let blen = bytes.len();
    if tag(bytes, pos, t) {
        let tl = t.as_bytes().len();
        proof {
            assert(pos + tl <= blen);
        }
        Some(pos + tl)
    } else {
        None
    }
}

/// A parsed predicate declaration: a name and the types of the parameters.
pub struct PredDec {
    /// The predicate's name.
    pub pred: String,
    /// The declared parameter types, as type tokens.
    pub sig: Vec<String>,
}

/// The mathematical shape of a predicate declaration.
pub struct PredDecV {
    /// The predicate's name.
    pub pred: Seq<char>,
    /// The declared parameter types.
    pub sig: Seq<Seq<char>>,
}

impl View for PredDec {
    type V = PredDecV;

    open spec fn view(&self) -> PredDecV {
        PredDecV { pred: self.pred@, sig: self.sig.deep_view() }
    }
}

/// A parsed argument list: names and type tokens.
pub type ParsedArgs = Vec<(String, String)>;

/// The view of a parsed argument list.
pub open spec fn pairs_v(a: Seq<(String, String)>) -> Seq<(Seq<char>, Seq<char>)> {
    a.map_values(|p: (String, String)| (p.0@, p.1@))
}

/// A parsed clause: arguments, antecedent s-expressions, consequent
/// s-expression, all kept as flat strings.
pub struct ParsedClause {
    /// The variable declarations.
    pub args: ParsedArgs,
    /// The antecedents.
    pub lhs: Vec<String>,
    /// The consequent.
    pub rhs: String,
}

/// The mathematical shape of a parsed clause.
pub struct ParsedClauseV {
    /// The variable declarations.
    pub args: Seq<(Seq<char>, Seq<char>)>,
    /// The antecedents.
    pub lhs: Seq<Seq<char>>,
    /// The consequent.
    pub rhs: Seq<char>,
}

impl View for ParsedClause {
    type V = ParsedClauseV;

    open spec fn view(&self) -> ParsedClauseV {
        ParsedClauseV { args: pairs_v(self.args@), lhs: self.lhs.deep_view(), rhs: self.rhs@ }
    }
}

/// A parsed predicate definition: a name, an argument list, a body kept as
/// a flat string.
pub struct PredDef {
    /// The predicate's name.
    pub pred: String,
    /// The parameter list.
    pub args: ParsedArgs,
    /// The body.
    pub body: String,
}

/// The mathematical shape of a predicate definition.
pub struct PredDefV {
    /// The predicate's name.
    pub pred: Seq<char>,
    /// The parameter list.
    pub args: Seq<(Seq<char>, Seq<char>)>,
    /// The body.
    pub body: Seq<char>,
}

impl View for PredDef {
    type V = PredDefV;

    open spec fn view(&self) -> PredDefV {
        PredDefV { pred: self.pred@, args: pairs_v(self.args@), body: self.body@ }
    }
}

/// A parsed problem: declarations, then clauses, then `(infer)`.
pub struct Input {
    /// The predicate declarations.
    pub pred_decs: Vec<PredDec>,
    /// The clauses.
    pub clauses: Vec<ParsedClause>,
}

/// The mathematical shape of a parsed problem.
pub struct InputV {
    /// The predicate declarations.
    pub pred_decs: Seq<PredDecV>,
    /// The clauses.
    pub clauses: Seq<ParsedClauseV>,
}

impl View for Input {
    type V = InputV;

    open spec fn view(&self) -> InputV {
        InputV {
            pred_decs: self.pred_decs@.map_values(|d: PredDec| d@),
            clauses: self.clauses@.map_values(|c: ParsedClause| c@),
        }
    }
}

/// A parsed solution: `(safe ...)` with predicate definitions.
pub struct Output {
    /// The predicate definitions.
    pub pred_defs: Vec<PredDef>,
}

/// The mathematical shape of a parsed solution.
pub struct OutputV {
    /// The predicate definitions.
    pub pred_defs: Seq<PredDefV>,
}

impl View for Output {
    type V = OutputV;

    open spec fn view(&self) -> OutputV {
        OutputV { pred_defs: self.pred_defs@.map_values(|d: PredDef| d@) }
    }
}

/// Zero or more type tokens, each followed by optional whitespace.
pub open spec fn typs_s(b: Seq<u8>, pos: int) -> Option<(Seq<Seq<char>>, int)>
    decreases b.len() - pos,
    when 0 <= pos <= b.len()
{
    match typ_tok_s(b, pos) {
        None => Some((Seq::empty(), pos)),
        Some((t, p)) => if p <= pos || p > b.len() {
            None
        } else {
            let p2 = skip_ws(b, p);
            if p2 <= pos || p2 > b.len() {
                None
            } else {
                match typs_s(b, p2) {
                    Some((rest, p3)) => Some((seq![t] + rest, p3)),
                    None => None,
                }
            }
        },
    }
}

/// Parses zero or more type tokens.
fn typs(bytes: &[u8], pos: usize) -> (r: Option<(Vec<String>, usize)>)
    requires
        pos <= bytes@.len(),
        ascii_bytes(bytes@),
    ensures
        match typs_s(bytes@, pos as int) {
            Some((ts, p)) => r matches Some((rs, rp)) && rs.deep_view() == ts && rp as int == p
                && pos <= p <= bytes@.len(),
            None => r is None,
        },
    decreases bytes@.len() - pos,
{
    match typ_tok(bytes, pos) {
        None => Some((Vec::new(), pos)),
        Some((t, p)) => {
            let p2 = spc_cmt(bytes, p);
            match typs(bytes, p2) {
                Some((rest, p3)) => {
                    let mut out = rest;
                    out.insert(0, t);
                    proof {
                        assert(out.deep_view() =~= typs_s(bytes@, pos as int)->Some_0.0);
                    }
                    Some((out, p3))
                },
                None => None,
            }
        },
    }
}

/// What parsing a predicate declaration at `pos` yields.
pub open spec fn pred_dec_s(b: Seq<u8>, pos: int) -> Option<(PredDecV, int)> {
    if pos < b.len() && b[pos] == 40 {
        let p1 = skip_ws(b, pos + 1);
        match after_tag(b, p1, "declare-pred"@) {
            None => None,
            Some(p2) => {
                let p3 = skip_ws(b, p2);
                match ident_s(b, p3) {
                    None => None,
                    Some((name, p4)) => {
                        let p5 = skip_ws(b, p4);
                        if p5 < b.len() && b[p5] == 40 {
                            let p6 = skip_ws(b, p5 + 1);
                            match typs_s(b, p6) {
                                None => None,
                                Some((sig, p7)) => if p7 < b.len() && b[p7] == 41 {
                                    let p8 = skip_ws(b, p7 + 1);
                                    if p8 < b.len() && b[p8] == 41 {
                                        Some((PredDecV { pred: name, sig }, p8 + 1))
                                    } else {
                                        None
                                    }
                                } else {
                                    None
                                },
                            }
                        } else {
                            None
                        }
                    },
                }
            },
        }
    } else {
        None
    }
}

/// Parses a predicate declaration.
pub fn pred_dec(bytes: &[u8], pos: usize) -> (r: Option<(PredDec, usize)>)
    requires
        pos <= bytes@.len(),
        ascii_bytes(bytes@),
    ensures
        match pred_dec_s(bytes@, pos as int) {
            Some((d, p)) => r matches Some((rd, rp)) && rd@ == d && rp as int == p && pos < p
                <= bytes@.len(),
            None => r is None,
        },
{
    proof {
        reveal_strlit("declare-pred");
    }
    if pos < bytes.len() && bytes[pos] == 40 {
        let p1 = spc_cmt(bytes, pos + 1);
        match kw(bytes, p1, "declare-pred") {
            None => None,
            Some(p2) => {
                let p3 = spc_cmt(bytes, p2);
                match ident(bytes, p3) {
                    None => None,
                    Some((name, p4)) => {
                        let p5 = spc_cmt(bytes, p4);
                        if p5 < bytes.len() && bytes[p5] == 40 {
                            let p6 = spc_cmt(bytes, p5 + 1);
                            match typs(bytes, p6) {
                                None => None,
                                Some((sig, p7)) => if p7 < bytes.len() && bytes[p7] == 41 {
                                    let p8 = spc_cmt(bytes, p7 + 1);
                                    if p8 < bytes.len() && bytes[p8] == 41 {
                                        Some((PredDec { pred: name, sig }, p8 + 1))
                                    } else {
                                        None
                                    }
                                } else {
                                    None
                                },
                            }
                        } else {
                            None
                        }
                    },
                }
            },
        }
    } else {
        None
    }
}


/// The pairs of an argument list after its opening parenthesis, up to and
/// including the closing parenthesis.
pub open spec fn args_list_s(b: Seq<u8>, pos: int) -> Option<
    (Seq<(Seq<char>, Seq<char>)>, int),
>
    decreases b.len() - pos,
    when 0 <= pos <= b.len()
{
    if pos < b.len() && b[pos] == 41 {
        Some((Seq::empty(), pos + 1))
    } else if pos < b.len() && b[pos] == 40 {
        let p1 = skip_ws(b, pos + 1);
        if p1 <= pos || p1 > b.len() {
            None
        } else {
            match ident_s(b, p1) {
                None => None,
                Some((id, p2)) => if p2 <= pos || p2 > b.len() {
                    None
                } else {
                    let p3 = skip_ws(b, p2);
                    match typ_tok_s(b, p3) {
                        None => None,
                        Some((ty, p4)) => if p4 <= pos || p4 > b.len() {
                            None
                        } else {
                            let p5 = skip_ws(b, p4);
                            if p5 < b.len() && b[p5] == 41 {
                                let p6 = skip_ws(b, p5 + 1);
                                if p6 <= pos || p6 > b.len() {
                                    None
                                } else {
                                    match args_list_s(b, p6) {
                                        Some((rest, p7)) => Some((seq![(id, ty)] + rest, p7)),
                                        None => None,
                                    }
                                }
                            } else {
                                None
                            }
                        },
                    }
                },
            }
        }
    } else {
        None
    }
}

/// What parsing an argument list at `pos` yields: `(` then zero or more
/// `(name type)` pairs then `)`.
pub open spec fn arguments_s(b: Seq<u8>, pos: int) -> Option<(Seq<(Seq<char>, Seq<char>)>, int)> {
    if pos < b.len() && b[pos] == 40 {
        let p1 = skip_ws(b, pos + 1);
        if p1 <= pos || p1 > b.len() {
            None
        } else {
            args_list_s(b, p1)
        }
    } else {
        None
    }
}

/// Parses the pairs of an argument list.
fn args_list(bytes: &[u8], pos: usize) -> (r: Option<(ParsedArgs, usize)>)
    requires
        pos <= bytes@.len(),
        ascii_bytes(bytes@),
    ensures
        match args_list_s(bytes@, pos as int) {
            Some((a, p)) => r matches Some((ra, rp)) && pairs_v(ra@) == a && rp as int == p && pos
                < p <= bytes@.len(),
            None => r is None,
        },
    decreases bytes@.len() - pos,
{
    if pos < bytes.len() && bytes[pos] == 41 {
        proof {
            assert(pairs_v(Seq::<(String, String)>::empty()) =~= Seq::<
                (Seq<char>, Seq<char>),
            >::empty());
        }
        Some((Vec::new(), pos + 1))
    } else if pos < bytes.len() && bytes[pos] == 40 {
        let p1 = spc_cmt(bytes, pos + 1);
        match ident(bytes, p1) {
            None => None,
            Some((id, p2)) => {
                let p3 = spc_cmt(bytes, p2);
                match typ_tok(bytes, p3) {
                    None => None,
                    Some((ty, p4)) => {
                        let p5 = spc_cmt(bytes, p4);
                        if p5 < bytes.len() && bytes[p5] == 41 {
                            let p6 = spc_cmt(bytes, p5 + 1);
                            match args_list(bytes, p6) {
                                Some((rest, p7)) => {
                                    let mut out = rest;
                                    out.insert(0, (id, ty));
                                    proof {
                                        assert(pairs_v(out@) =~= args_list_s(
                                            bytes@,
                                            pos as int,
                                        )->Some_0.0);
                                    }
                                    Some((out, p7))
                                },
                                None => None,
                            }
                        } else {
                            None
                        }
                    },
                }
            },
        }
    } else {
        None
    }
}

/// Parses an argument list.
pub fn arguments(bytes: &[u8], pos: usize) -> (r: Option<(ParsedArgs, usize)>)
    requires
        pos <= bytes@.len(),
        ascii_bytes(bytes@),
    ensures
        match arguments_s(bytes@, pos as int) {
            Some((a, p)) => r matches Some((ra, rp)) && pairs_v(ra@) == a && rp as int == p && pos
                < p <= bytes@.len(),
            None => r is None,
        },
{
    if pos < bytes.len() && bytes[pos] == 40 {
        let p1 = spc_cmt(bytes, pos + 1);
        args_list(bytes, p1)
    } else {
        None
    }
}

/// Zero or more s-expressions, each followed by optional whitespace; the
/// list ends where no s-expression starts.
pub open spec fn sexprs_s(b: Seq<u8>, pos: int) -> Option<(Seq<Seq<char>>, int)>
    decreases b.len() - pos,
    when 0 <= pos <= b.len()
{
    match sexpr_s(b, pos) {
        None => Some((Seq::empty(), pos)),
        Some((s, p)) => if p <= pos || p > b.len() {
            None
        } else {
            let p2 = skip_ws(b, p);
            if p2 <= pos || p2 > b.len() {
                None
            } else {
                match sexprs_s(b, p2) {
                    Some((rest, p3)) => Some((seq![s] + rest, p3)),
                    None => None,
                }
            }
        },
    }
}

/// Parses zero or more s-expressions.
fn sexprs(bytes: &[u8], pos: usize) -> (r: Option<(Vec<String>, usize)>)
    requires
        pos <= bytes@.len(),
        ascii_bytes(bytes@),
    ensures
        match sexprs_s(bytes@, pos as int) {
            Some((ss, p)) => r matches Some((rs, rp)) && rs.deep_view() == ss && rp as int == p
                && pos <= p <= bytes@.len(),
            None => r is None,
        },
    decreases bytes@.len() - pos,
{
    match s_expr(bytes, pos) {
        None => {
            let out: Vec<String> = Vec::new();
            proof {
                assert(out.deep_view() =~= Seq::<Seq<char>>::empty());
            }
            Some((out, pos))
        },
        Some((s, p)) => {
            let p2 = spc_cmt(bytes, p);
            match sexprs(bytes, p2) {
                Some((rest, p3)) => {
                    let mut out = rest;
                    out.insert(0, s);
                    proof {
                        assert(out.deep_view() =~= sexprs_s(bytes@, pos as int)->Some_0.0);
                    }
                    Some((out, p3))
                },
                None => None,
            }
        },
    }
}

/// What parsing a clause at `pos` yields.
pub open spec fn clause_s(b: Seq<u8>, pos: int) -> Option<(ParsedClauseV, int)> {
    if pos < b.len() && b[pos] == 40 {
        let p1 = skip_ws(b, pos + 1);
        match after_tag(b, p1, "clause"@) {
            None => None,
            Some(p2) => {
                let p3 = skip_ws(b, p2);
                match arguments_s(b, p3) {
                    None => None,
                    Some((args, p4)) => {
                        let p5 = skip_ws(b, p4);
                        if p5 < b.len() && b[p5] == 40 {
                            let p6 = skip_ws(b, p5 + 1);
                            match sexprs_s(b, p6) {
                                None => None,
                                Some((lhs, p7)) => if p7 < b.len() && b[p7] == 41 {
                                    let p8 = skip_ws(b, p7 + 1);
                                    match sexpr_s(b, p8) {
                                        None => None,
                                        Some((rhs, p9)) => {
                                            let p10 = skip_ws(b, p9);
                                            if p10 < b.len() && b[p10] == 41 {
                                                Some(
                                                    (
                                                        ParsedClauseV { args, lhs, rhs },
                                                        p10 + 1,
                                                    ),
                                                )
                                            } else {
                                                None
                                            }
                                        },
                                    }
                                } else {
                                    None
                                },
                            }
                        } else {
                            None
                        }
                    },
                }
            },
        }
    } else {
        None
    }
}

/// Parses a clause.
pub fn clause(bytes: &[u8], pos: usize) -> (r: Option<(ParsedClause, usize)>)
    requires
        pos <= bytes@.len(),
        ascii_bytes(bytes@),
    ensures
        match clause_s(bytes@, pos as int) {
            Some((c, p)) => r matches Some((rc, rp)) && rc@ == c && rp as int == p && pos < p
                <= bytes@.len(),
            None => r is None,
        },
{
    proof {
        reveal_strlit("clause");
    }
    if pos < bytes.len() && bytes[pos] == 40 {
        let p1 = spc_cmt(bytes, pos + 1);
        match kw(bytes, p1, "clause") {
            None => None,
            Some(p2) => {
                let p3 = spc_cmt(bytes, p2);
                match arguments(bytes, p3) {
                    None => None,
                    Some((args, p4)) => {
                        let p5 = spc_cmt(bytes, p4);
                        if p5 < bytes.len() && bytes[p5] == 40 {
                            let p6 = spc_cmt(bytes, p5 + 1);
                            match sexprs(bytes, p6) {
                                None => None,
                                Some((lhs, p7)) => if p7 < bytes.len() && bytes[p7] == 41 {
                                    let p8 = spc_cmt(bytes, p7 + 1);
                                    match s_expr(bytes, p8) {
                                        None => None,
                                        Some((rhs, p9)) => {
                                            let p10 = spc_cmt(bytes, p9);
                                            if p10 < bytes.len() && bytes[p10] == 41 {
                                                Some((ParsedClause { args, lhs, rhs }, p10 + 1))
                                            } else {
                                                None
                                            }
                                        },
                                    }
                                } else {
                                    None
                                },
                            }
                        } else {
                            None
                        }
                    },
                }
            },
        }
    } else {
        None
    }
}

/// What parsing a predicate definition at `pos` yields.
pub open spec fn pred_def_s(b: Seq<u8>, pos: int) -> Option<(PredDefV, int)> {
    if pos < b.len() && b[pos] == 40 {
        let p1 = skip_ws(b, pos + 1);
        match after_tag(b, p1, "define-pred"@) {
            None => None,
            Some(p2) => {
                let p3 = skip_ws(b, p2);
                match ident_s(b, p3) {
                    None => None,
                    Some((name, p4)) => {
                        let p5 = skip_ws(b, p4);
                        match arguments_s(b, p5) {
                            None => None,
                            Some((args, p6)) => {
                                let p7 = skip_ws(b, p6);
                                match sexpr_s(b, p7) {
                                    None => None,
                                    Some((body, p8)) => {
                                        let p9 = skip_ws(b, p8);
                                        if p9 < b.len() && b[p9] == 41 {
                                            Some(
                                                (
                                                    PredDefV { pred: name, args, body },
                                                    p9 + 1,
                                                ),
                                            )
                                        } else {
                                            None
                                        }
                                    },
                                }
                            },
                        }
                    },
                }
            },
        }
    } else {
        None
    }
}

/// Parses a predicate definition.
pub fn pred_def(bytes: &[u8], pos: usize) -> (r: Option<(PredDef, usize)>)
    requires
        pos <= bytes@.len(),
        ascii_bytes(bytes@),
    ensures
        match pred_def_s(bytes@, pos as int) {
            Some((d, p)) => r matches Some((rd, rp)) && rd@ == d && rp as int == p && pos < p
                <= bytes@.len(),
            None => r is None,
        },
{
    proof {
        reveal_strlit("define-pred");
    }
    if pos < bytes.len() && bytes[pos] == 40 {
        let p1 = spc_cmt(bytes, pos + 1);
        match kw(bytes, p1, "define-pred") {
            None => None,
            Some(p2) => {
                let p3 = spc_cmt(bytes, p2);
                match ident(bytes, p3) {
                    None => None,
                    Some((name, p4)) => {
                        let p5 = spc_cmt(bytes, p4);
                        match arguments(bytes, p5) {
                            None => None,
                            Some((args, p6)) => {
                                let p7 = spc_cmt(bytes, p6);
                                match s_expr(bytes, p7) {
                                    None => None,
                                    Some((body, p8)) => {
                                        let p9 = spc_cmt(bytes, p8);
                                        if p9 < bytes.len() && bytes[p9] == 41 {
                                            Some((PredDef { pred: name, args, body }, p9 + 1))
                                        } else {
                                            None
                                        }
                                    },
                                }
                            },
                        }
                    },
                }
            },
        }
    } else {
        None
    }
}

/// What parsing the `(infer)` command at `pos` yields: the position after
/// it.
pub open spec fn infer_s(b: Seq<u8>, pos: int) -> Option<int> {
    if pos < b.len() && b[pos] == 40 {
        let p1 = skip_ws(b, pos + 1);
        match after_tag(b, p1, "infer"@) {
            None => None,
            Some(p2) => {
                let p3 = skip_ws(b, p2);
                if p3 < b.len() && b[p3] == 41 {
                    Some(p3 + 1)
                } else {
                    None
                }
            },
        }
    } else {
        None
    }
}

/// Parses the `(infer)` command.
pub fn infer(bytes: &[u8], pos: usize) -> (r: Option<usize>)
    requires
        pos <= bytes@.len(),
        ascii_bytes(bytes@),
    ensures
        match infer_s(bytes@, pos as int) {
            Some(p) => r matches Some(rp) && rp as int == p && pos < p <= bytes@.len(),
            None => r is None,
        },
{
    proof {
        reveal_strlit("infer");
    }
    if pos < bytes.len() && bytes[pos] == 40 {
        let p1 = spc_cmt(bytes, pos + 1);
        match kw(bytes, p1, "infer") {
            None => None,
            Some(p2) => {
                let p3 = spc_cmt(bytes, p2);
                if p3 < bytes.len() && bytes[p3] == 41 {
                    Some(p3 + 1)
                } else {
                    None
                }
            },
        }
    } else {
        None
    }
}


/// Zero or more predicate declarations, each followed by optional
/// whitespace.
pub open spec fn pred_decs_s(b: Seq<u8>, pos: int) -> Option<(Seq<PredDecV>, int)>
    decreases b.len() - pos,
    when 0 <= pos <= b.len()
{
    match pred_dec_s(b, pos) {
        None => Some((Seq::empty(), pos)),
        Some((d, p)) => if p <= pos || p > b.len() {
            None
        } else {
            let p2 = skip_ws(b, p);
            if p2 <= pos || p2 > b.len() {
                None
            } else {
                match pred_decs_s(b, p2) {
                    Some((rest, p3)) => Some((seq![d] + rest, p3)),
                    None => None,
                }
            }
        },
    }
}

/// Parses zero or more predicate declarations.
fn pred_decs(bytes: &[u8], pos: usize) -> (r: Option<(Vec<PredDec>, usize)>)
    requires
        pos <= bytes@.len(),
        ascii_bytes(bytes@),
    ensures
        match pred_decs_s(bytes@, pos as int) {
            Some((ds, p)) => r matches Some((rs, rp)) && rs@.map_values(|d: PredDec| d@) == ds
                && rp as int == p && pos <= p <= bytes@.len(),
            None => r is None,
        },
    decreases bytes@.len() - pos,
{
    match pred_dec(bytes, pos) {
        None => {
            let out: Vec<PredDec> = Vec::new();
            proof {
                assert(out@.map_values(|d: PredDec| d@) =~= Seq::<PredDecV>::empty());
            }
            Some((out, pos))
        },
        Some((d, p)) => {
            let p2 = spc_cmt(bytes, p);
            match pred_decs(bytes, p2) {
                Some((rest, p3)) => {
                    let mut out = rest;
                    out.insert(0, d);
                    proof {
                        assert(out@.map_values(|x: PredDec| x@) =~= pred_decs_s(
                            bytes@,
                            pos as int,
                        )->Some_0.0);
                    }
                    Some((out, p3))
                },
                None => None,
            }
        },
    }
}

/// Zero or more clauses, each followed by optional whitespace.
pub open spec fn clauses_s(b: Seq<u8>, pos: int) -> Option<(Seq<ParsedClauseV>, int)>
    decreases b.len() - pos,
    when 0 <= pos <= b.len()
{
    match clause_s(b, pos) {
        None => Some((Seq::empty(), pos)),
        Some((c, p)) => if p <= pos || p > b.len() {
            None
        } else {
            let p2 = skip_ws(b, p);
            if p2 <= pos || p2 > b.len() {
                None
            } else {
                match clauses_s(b, p2) {
                    Some((rest, p3)) => Some((seq![c] + rest, p3)),
                    None => None,
                }
            }
        },
    }
}

/// Parses zero or more clauses.
fn clauses(bytes: &[u8], pos: usize) -> (r: Option<(Vec<ParsedClause>, usize)>)
    requires
        pos <= bytes@.len(),
        ascii_bytes(bytes@),
    ensures
        match clauses_s(bytes@, pos as int) {
            Some((cs, p)) => r matches Some((rs, rp)) && rs@.map_values(|c: ParsedClause| c@)
                == cs && rp as int == p && pos <= p <= bytes@.len(),
            None => r is None,
        },
    decreases bytes@.len() - pos,
{
    match clause(bytes, pos) {
        None => {
            let out: Vec<ParsedClause> = Vec::new();
            proof {
                assert(out@.map_values(|c: ParsedClause| c@) =~= Seq::<ParsedClauseV>::empty());
            }
            Some((out, pos))
        },
        Some((c, p)) => {
            let p2 = spc_cmt(bytes, p);
            match clauses(bytes, p2) {
                Some((rest, p3)) => {
                    let mut out = rest;
                    out.insert(0, c);
                    proof {
                        assert(out@.map_values(|x: ParsedClause| x@) =~= clauses_s(
                            bytes@,
                            pos as int,
                        )->Some_0.0);
                    }
                    Some((out, p3))
                },
                None => None,
            }
        },
    }
}

/// What parsing a whole problem yields: declarations, clauses, `(infer)`,
/// and the position after the trailing whitespace.
pub open spec fn parse_input_s(b: Seq<u8>, pos: int) -> Option<(InputV, int)> {
    let p0 = skip_ws(b, pos);
    if p0 < pos || p0 > b.len() {
        None
    } else {
        match pred_decs_s(b, p0) {
            None => None,
            Some((ds, p1)) => match clauses_s(b, p1) {
                None => None,
                Some((cs, p2)) => match infer_s(b, p2) {
                    None => None,
                    Some(p3) => Some((InputV { pred_decs: ds, clauses: cs }, skip_ws(b, p3))),
                },
            },
        }
    }
}

/// Parses a whole problem.
pub fn parse_input(bytes: &[u8], pos: usize) -> (r: Option<(Input, usize)>)
    requires
        pos <= bytes@.len(),
        ascii_bytes(bytes@),
    ensures
        match parse_input_s(bytes@, pos as int) {
            Some((i, p)) => r matches Some((ri, rp)) && ri@ == i && rp as int == p && pos <= p
                <= bytes@.len(),
            None => r is None,
        },
{
    let p0 = spc_cmt(bytes, pos);
    match pred_decs(bytes, p0) {
        None => None,
        Some((ds, p1)) => match clauses(bytes, p1) {
            None => None,
            Some((cs, p2)) => match infer(bytes, p2) {
                None => None,
                Some(p3) => {
                    let p4 = spc_cmt(bytes, p3);
                    Some((Input { pred_decs: ds, clauses: cs }, p4))
                },
            },
        },
    }
}

/// Zero or more predicate definitions, each followed by optional
/// whitespace.
pub open spec fn pred_defs_s(b: Seq<u8>, pos: int) -> Option<(Seq<PredDefV>, int)>
    decreases b.len() - pos,
    when 0 <= pos <= b.len()
{
    match pred_def_s(b, pos) {
        None => Some((Seq::empty(), pos)),
        Some((d, p)) => if p <= pos || p > b.len() {
            None
        } else {
            let p2 = skip_ws(b, p);
            if p2 <= pos || p2 > b.len() {
                None
            } else {
                match pred_defs_s(b, p2) {
                    Some((rest, p3)) => Some((seq![d] + rest, p3)),
                    None => None,
                }
            }
        },
    }
}

/// Parses zero or more predicate definitions.
fn pred_defs(bytes: &[u8], pos: usize) -> (r: Option<(Vec<PredDef>, usize)>)
    requires
        pos <= bytes@.len(),
        ascii_bytes(bytes@),
    ensures
        match pred_defs_s(bytes@, pos as int) {
            Some((ds, p)) => r matches Some((rs, rp)) && rs@.map_values(|d: PredDef| d@) == ds
                && rp as int == p && pos <= p <= bytes@.len(),
            None => r is None,
        },
    decreases bytes@.len() - pos,
{
    match pred_def(bytes, pos) {
        None => {
            let out: Vec<PredDef> = Vec::new();
            proof {
                assert(out@.map_values(|d: PredDef| d@) =~= Seq::<PredDefV>::empty());
            }
            Some((out, pos))
        },
        Some((d, p)) => {
            let p2 = spc_cmt(bytes, p);
            match pred_defs(bytes, p2) {
                Some((rest, p3)) => {
                    let mut out = rest;
                    out.insert(0, d);
                    proof {
                        assert(out@.map_values(|x: PredDef| x@) =~= pred_defs_s(
                            bytes@,
                            pos as int,
                        )->Some_0.0);
                    }
                    Some((out, p3))
                },
                None => None,
            }
        },
    }
}

/// What parsing a solution yields: `(safe ...)` with predicate
/// definitions, and the position after the trailing whitespace.
pub open spec fn parse_output_s(b: Seq<u8>, pos: int) -> Option<(OutputV, int)> {
    let p0 = skip_ws(b, pos);
    if p0 < pos || p0 > b.len() || !(p0 < b.len() && b[p0] == 40) {
        None
    } else {
        let p1 = skip_ws(b, p0 + 1);
        match after_tag(b, p1, "safe"@) {
            None => None,
            Some(p2) => {
                let p3 = skip_ws(b, p2);
                match pred_defs_s(b, p3) {
                    None => None,
                    Some((ds, p4)) => if p4 < b.len() && b[p4] == 41 {
                        Some((OutputV { pred_defs: ds }, skip_ws(b, p4 + 1)))
                    } else {
                        None
                    },
                }
            },
        }
    }
}

/// Parses a solution.
pub fn parse_output(bytes: &[u8], pos: usize) -> (r: Option<(Output, usize)>)
    requires
        pos <= bytes@.len(),
        ascii_bytes(bytes@),
    ensures
        match parse_output_s(bytes@, pos as int) {
            Some((o, p)) => r matches Some((ro, rp)) && ro@ == o && rp as int == p && pos <= p
                <= bytes@.len(),
            None => r is None,
        },
{
    proof {
        reveal_strlit("safe");
    }
    let p0 = spc_cmt(bytes, pos);
    if p0 < bytes.len() && bytes[p0] == 40 {
        let p1 = spc_cmt(bytes, p0 + 1);
        match kw(bytes, p1, "safe") {
            None => None,
            Some(p2) => {
                let p3 = spc_cmt(bytes, p2);
                match pred_defs(bytes, p3) {
                    None => None,
                    Some((ds, p4)) => if p4 < bytes.len() && bytes[p4] == 41 {
                        let p5 = spc_cmt(bytes, p4 + 1);
                        Some((Output { pred_defs: ds }, p5))
                    } else {
                        None
                    },
                }
            },
        }
    } else {
        None
    }
}


/// An argument list's pairs as text: ` (name type)` each.
pub open spec fn print_pairs(args: Seq<(Seq<char>, Seq<char>)>) -> Seq<char>
    decreases args.len(),
{
    if args.len() == 0 {
        Seq::empty()
    } else {
        " ("@ + args[0].0 + " "@ + args[0].1 + ")"@ + print_pairs(args.drop_first())
    }
}

/// An argument list as text.
pub open spec fn print_arguments(args: Seq<(Seq<char>, Seq<char>)>) -> Seq<char> {
    "("@ + print_pairs(args) + " )"@
}

/// Type tokens as text, one space before each.
pub open spec fn print_typs(sig: Seq<Seq<char>>) -> Seq<char>
    decreases sig.len(),
{
    if sig.len() == 0 {
        Seq::empty()
    } else {
        " "@ + sig[0] + print_typs(sig.drop_first())
    }
}

/// A predicate declaration as text.
pub open spec fn print_pred_dec(d: PredDecV) -> Seq<char> {
    "(declare-pred "@ + d.pred + " ("@ + print_typs(d.sig) + " ))"@
}

/// Flat s-expressions as text, one space before each.
pub open spec fn print_sexprs(ss: Seq<Seq<char>>) -> Seq<char>
    decreases ss.len(),
{
    if ss.len() == 0 {
        Seq::empty()
    } else {
        " "@ + ss[0] + print_sexprs(ss.drop_first())
    }
}

/// A parsed clause as text.
pub open spec fn print_parsed_clause(c: ParsedClauseV) -> Seq<char> {
    "(clause "@ + print_arguments(c.args) + " ("@ + print_sexprs(c.lhs) + " ) "@ + c.rhs + ")"@
}

/// A predicate definition as text.
pub open spec fn print_pred_def(d: PredDefV) -> Seq<char> {
    "(define-pred "@ + d.pred + " "@ + print_arguments(d.args) + " "@ + d.body + ")"@
}

/// A whole problem as text: the declarations and the clauses, one per line,
/// then the `(infer)` command.
pub open spec fn print_input_v(i: InputV) -> Seq<char> {
    print_pred_decs_v(i.pred_decs) + print_parsed_clauses_v(i.clauses) + "(infer)\n"@
}

/// Predicate declarations as text, one per line.
pub open spec fn print_pred_decs_v(ds: Seq<PredDecV>) -> Seq<char>
    decreases ds.len(),
{
    if ds.len() == 0 {
        Seq::empty()
    } else {
        print_pred_dec(ds[0]) + "\n"@ + print_pred_decs_v(ds.drop_first())
    }
}

/// Parsed clauses as text, one per line.
pub open spec fn print_parsed_clauses_v(cs: Seq<ParsedClauseV>) -> Seq<char>
    decreases cs.len(),
{
    if cs.len() == 0 {
        Seq::empty()
    } else {
        print_parsed_clause(cs[0]) + "\n"@ + print_parsed_clauses_v(cs.drop_first())
    }
}

/// A solution as text.
pub open spec fn print_output_v(o: OutputV) -> Seq<char> {
    "(safe\n"@ + print_pred_defs_v(o.pred_defs) + ")\n"@
}

/// Predicate definitions as text, one per line.
pub open spec fn print_pred_defs_v(ds: Seq<PredDefV>) -> Seq<char>
    decreases ds.len(),
{
    if ds.len() == 0 {
        Seq::empty()
    } else {
        "  "@ + print_pred_def(ds[0]) + "\n"@ + print_pred_defs_v(ds.drop_first())
    }
}

/// Writes an argument list.
fn write_arguments(args: &ParsedArgs) -> (r: String)
    ensures
        r@ == print_arguments(pairs_v(args@)),
{
    let ghost av = pairs_v(args@);
    let mut s = "(".to_owned();
    let mut k: usize = 0;
    proof {
        assert(av.skip(0) =~= av);
        assert(s@ + print_pairs(av.skip(0)) =~= "("@ + print_pairs(av));
        assert(av.len() == args@.len());
    }
    while k < args.len()
        invariant
            0 <= k <= args.len(),
            av == pairs_v(args@),
            av.len() == args@.len(),
            s@ + print_pairs(av.skip(k as int)) == "("@ + print_pairs(av),
        decreases args.len() - k,
    {
        let ghost rest = av.skip(k as int);
        proof {
            assert(rest[0] == av[k as int]);
            assert(rest.drop_first() =~= av.skip(k as int + 1));
            assert(av[k as int] == (args@[k as int].0@, args@[k as int].1@));
        }
        let ghost s_before = s@;
        s.append(" (");
        s.append(args[k].0.as_str());
        s.append(" ");
        s.append(args[k].1.as_str());
        s.append(")");
        proof {
            assert(s@ =~= s_before + (" ("@ + av[k as int].0 + " "@ + av[k as int].1 + ")"@));
            assert(s_before + (" ("@ + av[k as int].0 + " "@ + av[k as int].1 + ")"@)
                + print_pairs(av.skip(k as int + 1)) =~= s_before + print_pairs(rest));
        }
        k = k + 1;
    }
    proof {
        assert(av.skip(k as int) =~= Seq::<(Seq<char>, Seq<char>)>::empty());
        assert(s@ + Seq::<char>::empty() =~= s@);
    }
    s.append(" )");
    s
}

/// Writes a string list, one space before each element.
fn write_str_list(ss: &Vec<String>) -> (r: String)
    ensures
        r@ == print_sexprs(ss.deep_view()),
{
    let ghost sv = ss.deep_view();
    let mut s = String::new();
    let mut k: usize = 0;
    proof {
        assert(sv.skip(0) =~= sv);
        assert(s@ + print_sexprs(sv.skip(0)) =~= print_sexprs(sv));
        assert(sv.len() == ss@.len());
    }
    while k < ss.len()
        invariant
            0 <= k <= ss.len(),
            sv == ss.deep_view(),
            sv.len() == ss@.len(),
            s@ + print_sexprs(sv.skip(k as int)) == print_sexprs(sv),
        decreases ss.len() - k,
    {
        let ghost rest = sv.skip(k as int);
        proof {
            assert(rest[0] == sv[k as int]);
            assert(rest.drop_first() =~= sv.skip(k as int + 1));
            assert(sv[k as int] == ss@[k as int]@);
        }
        let ghost s_before = s@;
        s.append(" ");
        s.append(ss[k].as_str());
        proof {
            assert(s@ =~= s_before + (" "@ + sv[k as int]));
            assert(s_before + (" "@ + sv[k as int]) + print_sexprs(sv.skip(k as int + 1))
                =~= s_before + print_sexprs(rest));
        }
        k = k + 1;
    }
    proof {
        assert(sv.skip(k as int) =~= Seq::<Seq<char>>::empty());
        assert(s@ + Seq::<char>::empty() =~= s@);
    }
    s
}

impl PredDec {
    /// Writes the declaration.
    pub fn write(&self) -> (r: String)
        ensures
            r@ == print_pred_dec(self@),
    {
        let mut s = "(declare-pred ".to_owned();
        s.append(self.pred.as_str());
        s.append(" (");
        s.append(write_str_list(&self.sig).as_str());
        s.append(" ))");
        proof {
            assert(print_typs(self.sig.deep_view()) =~= print_sexprs(self.sig.deep_view())) by {
                lemma_typs_sexprs(self.sig.deep_view());
            }
            assert(s@ =~= print_pred_dec(self@));
        }
        s
    }
}

/// Type lists and s-expression lists print the same way.
pub proof fn lemma_typs_sexprs(ss: Seq<Seq<char>>)
    ensures
        print_typs(ss) == print_sexprs(ss),
    decreases ss.len(),
{
    if ss.len() > 0 {
        lemma_typs_sexprs(ss.drop_first());
    }
}

impl ParsedClause {
    /// Writes the clause.
    pub fn write(&self) -> (r: String)
        ensures
            r@ == print_parsed_clause(self@),
    {
        let mut s = "(clause ".to_owned();
        s.append(write_arguments(&self.args).as_str());
        s.append(" (");
        s.append(write_str_list(&self.lhs).as_str());
        s.append(" ) ");
        s.append(self.rhs.as_str());
        s.append(")");
        proof {
            assert(s@ =~= print_parsed_clause(self@));
        }
        s
    }
}

impl PredDef {
    /// Writes the definition.
    pub fn write(&self) -> (r: String)
        ensures
            r@ == print_pred_def(self@),
    {
        let mut s = "(define-pred ".to_owned();
        s.append(self.pred.as_str());
        s.append(" ");
        s.append(write_arguments(&self.args).as_str());
        s.append(" ");
        s.append(self.body.as_str());
        s.append(")");
        proof {
            assert(s@ =~= print_pred_def(self@));
        }
        s
    }
}

impl Input {
    /// Writes the problem back as text.
    pub fn write(&self) -> (r: String)
        ensures
            r@ == print_input_v(self@),
    {
        let ghost dv = self@.pred_decs;
        let ghost cv = self@.clauses;
        let mut s = String::new();
        let mut k: usize = 0;
        proof {
            assert(dv.skip(0) =~= dv);
            assert(s@ + print_pred_decs_v(dv.skip(0)) =~= print_pred_decs_v(dv));
            assert(dv.len() == self.pred_decs@.len());
        }
        while k < self.pred_decs.len()
            invariant
                0 <= k <= self.pred_decs@.len(),
                dv == self@.pred_decs,
                dv.len() == self.pred_decs@.len(),
                s@ + print_pred_decs_v(dv.skip(k as int)) == print_pred_decs_v(dv),
            decreases self.pred_decs@.len() - k,
        {
            let ghost rest = dv.skip(k as int);
            proof {
                assert(rest[0] == dv[k as int]);
                assert(rest.drop_first() =~= dv.skip(k as int + 1));
                assert(dv[k as int] == self.pred_decs@[k as int]@);
            }
            let ghost s_before = s@;
            s.append(self.pred_decs[k].write().as_str());
            s.append("\n");
            proof {
                assert(s@ =~= s_before + (print_pred_dec(dv[k as int]) + "\n"@));
                assert(s_before + (print_pred_dec(dv[k as int]) + "\n"@) + print_pred_decs_v(
                    dv.skip(k as int + 1),
                ) =~= s_before + print_pred_decs_v(rest));
            }
            k = k + 1;
        }
        proof {
            assert(dv.skip(k as int) =~= Seq::<PredDecV>::empty());
            assert(s@ + Seq::<char>::empty() =~= s@);
        }
        let ghost s_decs = s@;
        let mut c: usize = 0;
        proof {
            assert(cv.skip(0) =~= cv);
            assert(s@ + print_parsed_clauses_v(cv.skip(0)) =~= s_decs + print_parsed_clauses_v(cv));
            assert(cv.len() == self.clauses@.len());
        }
        while c < self.clauses.len()
            invariant
                0 <= c <= self.clauses@.len(),
                cv == self@.clauses,
                cv.len() == self.clauses@.len(),
                s@ + print_parsed_clauses_v(cv.skip(c as int)) == s_decs + print_parsed_clauses_v(
                    cv,
                ),
            decreases self.clauses@.len() - c,
        {
            let ghost rest = cv.skip(c as int);
            proof {
                assert(rest[0] == cv[c as int]);
                assert(rest.drop_first() =~= cv.skip(c as int + 1));
                assert(cv[c as int] == self.clauses@[c as int]@);
            }
            let ghost s_before = s@;
            s.append(self.clauses[c].write().as_str());
            s.append("\n");
            proof {
                assert(s@ =~= s_before + (print_parsed_clause(cv[c as int]) + "\n"@));
                assert(s_before + (print_parsed_clause(cv[c as int]) + "\n"@)
                    + print_parsed_clauses_v(cv.skip(c as int + 1)) =~= s_before
                    + print_parsed_clauses_v(rest));
            }
            c = c + 1;
        }
        proof {
            assert(cv.skip(c as int) =~= Seq::<ParsedClauseV>::empty());
            assert(s@ + Seq::<char>::empty() =~= s@);
        }
        s.append("(infer)\n");
        proof {
            assert(s@ =~= print_pred_decs_v(dv) + print_parsed_clauses_v(cv) + "(infer)\n"@);
        }
        s
    }
}

impl Output {
    /// Writes the solution back as text.
    pub fn write(&self) -> (r: String)
        ensures
            r@ == print_output_v(self@),
    {
        let ghost dv = self@.pred_defs;
        let mut s = "(safe\n".to_owned();
        let ghost s_head = s@;
        let mut k: usize = 0;
        proof {
            assert(dv.skip(0) =~= dv);
            assert(s@ + print_pred_defs_v(dv.skip(0)) =~= s_head + print_pred_defs_v(dv));
            assert(dv.len() == self.pred_defs@.len());
        }
        while k < self.pred_defs.len()
            invariant
                0 <= k <= self.pred_defs@.len(),
                dv == self@.pred_defs,
                dv.len() == self.pred_defs@.len(),
                s_head == "(safe\n"@,
                s@ + print_pred_defs_v(dv.skip(k as int)) == s_head + print_pred_defs_v(dv),
            decreases self.pred_defs@.len() - k,
        {
            let ghost rest = dv.skip(k as int);
            proof {
                assert(rest[0] == dv[k as int]);
                assert(rest.drop_first() =~= dv.skip(k as int + 1));
                assert(dv[k as int] == self.pred_defs@[k as int]@);
            }
            let ghost s_before = s@;
            s.append("  ");
            s.append(self.pred_defs[k].write().as_str());
            s.append("\n");
            proof {
                assert(s@ =~= s_before + ("  "@ + print_pred_def(dv[k as int]) + "\n"@));
                assert(s_before + ("  "@ + print_pred_def(dv[k as int]) + "\n"@)
                    + print_pred_defs_v(dv.skip(k as int + 1)) =~= s_before + print_pred_defs_v(
                    rest,
                ));
            }
            k = k + 1;
        }
        proof {
            assert(dv.skip(k as int) =~= Seq::<PredDefV>::empty());
            assert(s@ + Seq::<char>::empty() =~= s@);
        }
        s.append(")\n");
        proof {
            assert(s@ =~= "(safe\n"@ + print_pred_defs_v(dv) + ")\n"@);
        }
        s
    }
}


/// The end of a run of decimal digits starting at `pos`.
pub open spec fn digit_run_end(b: Seq<u8>, pos: int) -> int
    decreases b.len() - pos,
    when 0 <= pos <= b.len()
{
    if pos < b.len() && is_digit(b[pos]) {
        digit_run_end(b, pos + 1)
    } else {
        pos
    }
}

/// The run never moves backwards nor past the end.
pub proof fn lemma_digit_run_bounds(b: Seq<u8>, pos: int)
    requires
        0 <= pos <= b.len(),
    ensures
        pos <= digit_run_end(b, pos) <= b.len(),
    decreases b.len() - pos,
{
    if pos < b.len() && is_digit(b[pos]) {
        lemma_digit_run_bounds(b, pos + 1);
    }
}

/// The value of a run of decimal digits.
pub open spec fn dec_val_b(b: Seq<u8>, from: int, to: int) -> int
    decreases to - from,
{
    if to <= from {
        0
    } else {
        dec_val_b(b, from, to - 1) * 10 + (b[to - 1] - 48)
    }
}

/// Parses an unsigned decimal integer.
pub fn parse_nat(bytes: &[u8], pos: usize) -> (r: Option<(crate::big::Int, usize)>)
    requires
        pos <= bytes@.len(),
    ensures
        ({
            let end = digit_run_end(bytes@, pos as int);
            if pos < bytes@.len() && is_digit(bytes@[pos as int]) {
                r matches Some((v, p)) && p as int == end && v@ == dec_val_b(
                    bytes@,
                    pos as int,
                    end,
                ) && pos < p <= bytes@.len()
            } else {
                r is None
            }
        }),
{
    let blen = bytes.len();
    if pos < blen && digit(bytes[pos]) {
        proof {
            lemma_digit_run_bounds(bytes@, pos as int);
        }
        let ten = crate::big::Int::from_i64(10);
        let mut v = crate::big::Int::from_i64(0);
        let mut k: usize = pos;
        while k < blen && digit(bytes[k])
            invariant
                pos <= k <= blen,
                blen == bytes@.len(),
                digit_run_end(bytes@, pos as int) == digit_run_end(bytes@, k as int),
                forall|j: int| pos <= j < k ==> is_digit(bytes@[j]),
                ten@ == 10,
                v@ == dec_val_b(bytes@, pos as int, k as int),
            decreases blen - k,
        {
            let d = crate::big::Int::from_i64((bytes[k] - 48) as i64);
            v = v.mul(&ten).add(&d);
            k = k + 1;
        }
        proof {
            assert(digit_run_end(bytes@, k as int) == k as int);
        }
        Some((v, k))
    } else {
        None
    }
}


/// Reads a whole problem, demanding that the text is consumed to its end.
pub fn read_input(bytes: &[u8]) -> (r: Result<Input, Error>)
    requires
        ascii_bytes(bytes@),
    ensures
        match parse_input_s(bytes@, 0) {
            Some((i, p)) => if p == bytes@.len() {
                r matches Ok(ri) && ri@ == i
            } else {
                r matches Err(e) && e matches Error::Parse { .. }
            },
            None => r matches Err(e) && e matches Error::Parse { .. },
        },
{
    match parse_input(bytes, 0) {
        Some((i, p)) => if p == bytes.len() {
            Ok(i)
        } else {
            Err(Error::Parse { pos: p, expected: "end of input".to_owned() })
        },
        None => Err(Error::Parse { pos: 0, expected: "problem".to_owned() }),
    }
}

/// Reads a whole solution, demanding that the text is consumed to its end.
pub fn read_output(bytes: &[u8]) -> (r: Result<Output, Error>)
    requires
        ascii_bytes(bytes@),
    ensures
        match parse_output_s(bytes@, 0) {
            Some((o, p)) => if p == bytes@.len() {
                r matches Ok(ro) && ro@ == o
            } else {
                r matches Err(e) && e matches Error::Parse { .. }
            },
            None => r matches Err(e) && e matches Error::Parse { .. },
        },
{
    match parse_output(bytes, 0) {
        Some((o, p)) => if p == bytes.len() {
            Ok(o)
        } else {
            Err(Error::Parse { pos: p, expected: "end of input".to_owned() })
        },
        None => Err(Error::Parse { pos: 0, expected: "solution".to_owned() }),
    }
}

} // verus!
