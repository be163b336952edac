//! The atom decoder: classifies and parses one scalar value string into a
//! boolean, an integer, a float literal, a tuple of scalars, or an opaque
//! string. Classification tries, in fixed order: parenthesized tuple,
//! case-insensitive boolean literal, integer literal, float literal, else
//! string.

use vstd::prelude::*;
use crate::error::Span;
use crate::text::{
    all_digits_s, eq_ignore_case, eq_ignore_case_s, find_char, find_char_s, is_digit, is_digit_c,
    lemma_find_char_some, split_char, split_char_s, trim_of, trim_s,
};

verus! {

/// An error raised while parsing a scalar value string. Spans are character
/// ranges into the text handed to the parsing function; they count
/// characters, not bytes, and the two coincide on ASCII text.
#[derive(Debug, Clone, PartialEq, Eq)]
pub enum ParseAtomError {
    /// The text does not match the integer literal form, or its value does
    /// not fit the requested width.
    ExpectedInteger(Span),
    /// The text does not match the float literal form.
    ExpectedFloat(Span),
    /// The text is not `true` or `false` (case-insensitive).
    ExpectedBool(Span),
    /// A tuple was requested but the text does not start with `(`.
    ExpectedTupleStart(Span),
    /// A non-empty tuple was requested but the tuple has no elements.
    ExpectedNonEmptyTuple(Span),
    /// The text starts a tuple but does not end with `)`.
    ExpectedTupleEnd { start: Span, expected_end: Span },
    /// A message-carrying escape hatch.
    Custom(String),
}

/// The ghost shape of a `ParseAtomError`.
pub ghost enum AtomErrModel {
    ExpectedInteger(Span),
    ExpectedFloat(Span),
    ExpectedBool(Span),
    ExpectedTupleStart(Span),
    ExpectedNonEmptyTuple(Span),
    ExpectedTupleEnd { start: Span, expected_end: Span },
    Custom(Seq<char>),
}

impl View for ParseAtomError {
    type V = AtomErrModel;

    open spec fn view(&self) -> AtomErrModel {
        match self {
            ParseAtomError::ExpectedInteger(sp) => AtomErrModel::ExpectedInteger(*sp),
            ParseAtomError::ExpectedFloat(sp) => AtomErrModel::ExpectedFloat(*sp),
            ParseAtomError::ExpectedBool(sp) => AtomErrModel::ExpectedBool(*sp),
            ParseAtomError::ExpectedTupleStart(sp) => AtomErrModel::ExpectedTupleStart(*sp),
            ParseAtomError::ExpectedNonEmptyTuple(sp) => AtomErrModel::ExpectedNonEmptyTuple(*sp),
            ParseAtomError::ExpectedTupleEnd { start, expected_end } => {
                AtomErrModel::ExpectedTupleEnd { start: *start, expected_end: *expected_end }
            },
            ParseAtomError::Custom(m) => AtomErrModel::Custom(m@),
        }
    }
}

// ---------------------------------------------------------------------------
// Literal forms
// ---------------------------------------------------------------------------

/// The boolean literal `true`.
pub open spec fn true_lit() -> Seq<char> {
    seq!['t', 'r', 'u', 'e']
}

/// The boolean literal `false`.
pub open spec fn false_lit() -> Seq<char> {
    seq!['f', 'a', 'l', 's', 'e']
}

/// Is `s` a boolean literal, and which one?
pub open spec fn bool_lit_value_s(s: Seq<char>) -> Option<bool> {
    if eq_ignore_case_s(s, true_lit()) {
        Some(true)
    } else if eq_ignore_case_s(s, false_lit()) {
        Some(false)
    } else {
        None
    }
}

/// The digits of an integer literal: everything after an optional sign.
pub open spec fn int_digits_s(s: Seq<char>) -> Seq<char> {
    if s.len() > 0 && (s[0] == '+' || s[0] == '-') {
        s.skip(1)
    } else {
        s
    }
}

/// An integer literal: an optional sign followed by one or more digits.
pub open spec fn is_int_lit_s(s: Seq<char>) -> bool {
    s.len() > 0 && int_digits_s(s).len() > 0 && all_digits_s(int_digits_s(s))
}

/// The numeric value of one digit character.
pub open spec fn digit_val_s(c: char) -> int {
    c as int - 48
}

/// The decimal value of a digit sequence.
pub open spec fn digits_value_s(d: Seq<char>) -> int
    decreases d.len(),
{
    if d.len() == 0 {
        0
    } else {
        digits_value_s(d.drop_last()) * 10 + digit_val_s(d.last())
    }
}

/// The signed value of an integer literal.
pub open spec fn int_value_s(s: Seq<char>) -> int {
    if s.len() > 0 && s[0] == '-' {
        -digits_value_s(s.skip(1))
    } else {
        digits_value_s(int_digits_s(s))
    }
}

/// Does `x` fit in an `i64`?
pub open spec fn fits_i64(x: int) -> bool {
    i64::MIN <= x <= i64::MAX
}

/// Does `x` fit in a `u64`?
pub open spec fn fits_u64(x: int) -> bool {
    0 <= x <= u64::MAX
}

/// The value of a digit sequence is non-negative.
pub proof fn lemma_digits_value_nonneg(d: Seq<char>)
    requires
        all_digits_s(d),
    ensures
        digits_value_s(d) >= 0,
    decreases d.len(),
{
    if d.len() > 0 {
        assert(all_digits_s(d.drop_last()));
        lemma_digits_value_nonneg(d.drop_last());
    }
}

/// Extending a digit sequence on the right cannot shrink its value.
pub proof fn lemma_digits_value_take_le(d: Seq<char>, i: int)
    requires
        all_digits_s(d),
        0 <= i <= d.len(),
    ensures
        digits_value_s(d.take(i)) <= digits_value_s(d),
    decreases d.len() - i,
{
    if i < d.len() {
        lemma_digits_value_take_le(d, i + 1);
        assert(d.take(i + 1).drop_last() =~= d.take(i));
        assert(all_digits_s(d.take(i)));
        lemma_digits_value_nonneg(d.take(i));
        assert(digits_value_s(d.take(i + 1)) == digits_value_s(d.take(i)) * 10 + digit_val_s(
            d.take(i + 1).last(),
        ));
        assert(is_digit_c(d[i]));
        assert(digits_value_s(d.take(i)) * 10 >= digits_value_s(d.take(i))) by (nonlinear_arith)
            requires
                digits_value_s(d.take(i)) >= 0,
        ;
    } else {
        assert(d.take(i) =~= d);
    }
}

// ---------------------------------------------------------------------------
// Executable scalar parsers
// ---------------------------------------------------------------------------

/// Parses a boolean literal: `true` or `false`, case-insensitive. On any
/// other text, the error's span covers the whole input.
pub fn parse_bool(input: &str) -> (r: Result<bool, ParseAtomError>)
    ensures
        match r {
            Ok(b) => bool_lit_value_s(input@) == Some(b),
            Err(e) => {
                &&& bool_lit_value_s(input@) is None
                &&& e matches ParseAtomError::ExpectedBool(sp)
                &&& sp.start == 0
                &&& sp.end == input@.len()
            },
        },
{
    proof {
        reveal_strlit("true");
        reveal_strlit("false");
        assert("true"@ =~= true_lit());
        assert("false"@ =~= false_lit());
    }
    if eq_ignore_case(input, "true") {
        Ok(true)
    } else if eq_ignore_case(input, "false") {
        Ok(false)
    } else {
        Err(ParseAtomError::ExpectedBool(Span { start: 0, end: input.unicode_len() }))
    }
}

/// The common digit-accumulation loop: parses `s` from position `start` as
/// an unsigned decimal number no greater than `limit`.
fn parse_digits(s: &str, start: usize, limit: u64) -> (r: Option<u64>)
    requires
        start < s@.len(),
        limit >= 10,
    ensures
        match r {
            Some(m) => {
                &&& all_digits_s(s@.skip(start as int))
                &&& m as int == digits_value_s(s@.skip(start as int))
                &&& m <= limit
            },
            None => !all_digits_s(s@.skip(start as int)) || digits_value_s(s@.skip(start as int))
                > limit,
        },
{
    let n = s.unicode_len();
    let ghost digits = s@.skip(start as int);
    let mut mag: u64 = 0;
    let mut i: usize = start;
    while i < n
        invariant
            start <= i <= n,
            n == s@.len(),
            start < n,
            digits == s@.skip(start as int),
            limit >= 10,
            all_digits_s(digits.take(i - start)),
            mag as int == digits_value_s(digits.take(i - start)),
            mag <= limit,
        decreases n - i,
    {
        let c = s.get_char(i);
        if !is_digit(c) {
            proof {
                assert(digits[i - start] == s@[i as int]);
                assert(!all_digits_s(digits));
            }
            return None;
        }
        let d: u64 = ((c as u32) - 48) as u64;
        proof {
            assert(0 <= d <= 9);
        }
        let q = (limit - d) / 10;
        if mag > q {
            proof {
                let partial = digits_value_s(digits.take(i - start));
                assert(digits.take(i + 1 - start).drop_last() =~= digits.take(i - start));
                assert(digits.take(i + 1 - start).last() == s@[i as int]);
                assert(digits_value_s(digits.take(i + 1 - start)) == partial * 10 + d);
                assert(partial * 10 + d > limit) by (nonlinear_arith)
                    requires
                        partial > ((limit as int) - (d as int)) / 10,
                        0 <= d <= 9,
                        0 <= limit,
                        partial >= 0,
                ;
                if all_digits_s(digits) {
                    lemma_digits_value_take_le(digits, i + 1 - start);
                    assert(digits_value_s(digits) > limit);
                }
            }
            return None;
        }
        proof {
            assert(mag * 10 + d <= limit) by (nonlinear_arith)
                requires
                    mag <= ((limit as int) - (d as int)) / 10,
                    0 <= d <= 9,
                    0 <= mag,
                    0 <= limit <= u64::MAX,
            ;
        }
        let new_mag = mag * 10 + d;
        proof {
            assert(digits.take(i + 1 - start).drop_last() =~= digits.take(i - start));
            assert(digits.take(i + 1 - start).last() == s@[i as int]);
        }
        mag = new_mag;
        i = i + 1;
    }
    proof {
        assert(digits.take(n - start) =~= digits);
    }
    Some(mag)
}

/// Parses a signed integer literal into an `i64`. Returns the value exactly
/// when the text matches the literal form and the value fits; the error's
/// span covers the whole input.
pub fn parse_i64(input: &str) -> (r: Result<i64, ParseAtomError>)
    ensures
        match r {
            Ok(v) => {
                &&& is_int_lit_s(input@)
                &&& fits_i64(int_value_s(input@))
                &&& v as int == int_value_s(input@)
            },
            Err(e) => {
                &&& !(is_int_lit_s(input@) && fits_i64(int_value_s(input@)))
                &&& e matches ParseAtomError::ExpectedInteger(sp)
                &&& sp.start == 0
                &&& sp.end == input@.len()
            },
        },
{
    let n = input.unicode_len();
    let err = ParseAtomError::ExpectedInteger(Span { start: 0, end: n });
    if n == 0 {
        return Err(err);
    }
    let c0 = input.get_char(0);
    let neg = c0 == '-';
    let has_sign = neg || c0 == '+';
    let start: usize = if has_sign {
        1
    } else {
        0
    };
    if start == n {
        // A bare sign has no digits.
        assert(int_digits_s(input@).len() == 0);
        return Err(err);
    }
    let limit: u64 = if neg {
        9223372036854775808
    } else {
        9223372036854775807
    };
    proof {
        assert(input@.skip(start as int) =~= int_digits_s(input@));
    }
    match parse_digits(input, start, limit) {
        None => {
            proof {
                if all_digits_s(int_digits_s(input@)) {
                    lemma_digits_value_nonneg(int_digits_s(input@));
                    assert(!fits_i64(int_value_s(input@)));
                }
            }
            Err(err)
        },
        Some(mag) => {
            if neg {
                if mag == 9223372036854775808 {
                    Ok(i64::MIN)
                } else {
                    Ok(-(mag as i64))
                }
            } else {
                Ok(mag as i64)
            }
        },
    }
}

// ---------------------------------------------------------------------------
// Float literals
// ---------------------------------------------------------------------------

/// Index of the first non-digit character of `s`, if any.
pub open spec fn first_nondigit_s(s: Seq<char>) -> Option<int>
    decreases s.len(),
{
    if s.len() == 0 {
        None
    } else if !is_digit_c(s[0]) {
        Some(0int)
    } else {
        match first_nondigit_s(s.drop_first()) {
            Some(i) => Some(i + 1),
            None => None,
        }
    }
}

/// A first non-digit at `i` (digits before it) pins `first_nondigit_s`.
proof fn lemma_first_nondigit_characterization(s: Seq<char>, i: int)
    requires
        0 <= i < s.len(),
        !is_digit_c(s[i]),
        forall|j: int| 0 <= j < i ==> is_digit_c(#[trigger] s[j]),
    ensures
        first_nondigit_s(s) == Some(i),
    decreases i,
{
    if i > 0 {
        assert(s.drop_first() =~= s.skip(1));
        lemma_first_nondigit_characterization(s.skip(1), i - 1);
    }
}

/// A successful `first_nondigit_s` is a non-digit position, and the first.
pub proof fn lemma_first_nondigit_some(s: Seq<char>, i: int)
    requires
        first_nondigit_s(s) == Some(i),
    ensures
        0 <= i < s.len(),
        !is_digit_c(s[i]),
        forall|j: int| 0 <= j < i ==> is_digit_c(#[trigger] s[j]),
    decreases s.len(),
{
    if s.len() > 0 && is_digit_c(s[0]) {
        assert(s.drop_first() =~= s.skip(1));
        lemma_first_nondigit_some(s.skip(1), i - 1);
        assert forall|j: int| 0 <= j < i implies is_digit_c(#[trigger] s[j]) by {
            if j >= 1 {
                assert(is_digit_c(s.skip(1)[j - 1]));
            }
        }
    }
}

/// All digits: no first non-digit.
proof fn lemma_first_nondigit_none(s: Seq<char>)
    requires
        all_digits_s(s),
    ensures
        first_nondigit_s(s) is None,
    decreases s.len(),
{
    if s.len() > 0 {
        assert(s.drop_first() =~= s.skip(1));
        lemma_first_nondigit_none(s.skip(1));
    }
}

/// Finds the first non-digit character of `s`.
pub fn first_nondigit(s: &str) -> (r: Option<usize>)
    ensures
        match r {
            Some(i) => first_nondigit_s(s@) == Some(i as int),
            None => first_nondigit_s(s@) is None && all_digits_s(s@),
        },
{
    let n = s.unicode_len();
    let mut i: usize = 0;
    while i < n
        invariant
            0 <= i <= n,
            n == s@.len(),
            forall|j: int| 0 <= j < i ==> is_digit_c(#[trigger] s@[j]),
        decreases n - i,
    {
        if !is_digit(s.get_char(i)) {
            proof {
                lemma_first_nondigit_characterization(s@, i as int);
            }
            return Some(i);
        }
        i = i + 1;
    }
    proof {
        lemma_first_nondigit_none(s@);
    }
    None
}

/// The mantissa and exponent body of a float literal: everything after an
/// optional sign.
pub open spec fn float_body_s(s: Seq<char>) -> Seq<char> {
    if s.len() > 0 && (s[0] == '+' || s[0] == '-') {
        s.skip(1)
    } else {
        s
    }
}

/// The part after the exponent marker: an optional sign followed by one or
/// more digits.
pub open spec fn exp_ok_s(t: Seq<char>) -> bool {
    let d = if t.len() > 0 && (t[0] == '+' || t[0] == '-') {
        t.skip(1)
    } else {
        t
    };
    d.len() > 0 && all_digits_s(d)
}

/// A float literal: an optional sign, optional digits, a dot, optional
/// digits — at least one digit among them — and an optional exponent part
/// `("e"|"E") ["+"|"-"] digits`.
pub open spec fn is_float_lit_s(s: Seq<char>) -> bool {
    let body = float_body_s(s);
    match find_char_s(body, '.') {
        None => false,
        Some(p) => all_digits_s(body.take(p)) && {
            let rest = body.skip(p + 1);
            match first_nondigit_s(rest) {
                None => p > 0 || rest.len() > 0,
                Some(q) => (rest[q] == 'e' || rest[q] == 'E') && (p > 0 || q > 0) && exp_ok_s(
                    rest.skip(q + 1),
                ),
            }
        },
    }
}

/// Tests the exponent part of a float literal.
fn exp_ok(t: &str) -> (r: bool)
    ensures
        r == exp_ok_s(t@),
{
    let n = t.unicode_len();
    let ds: usize = if n > 0 && (t.get_char(0) == '+' || t.get_char(0) == '-') {
        1
    } else {
        0
    };
    if ds == n {
        return false;
    }
    let d = t.substring_char(ds, n);
    assert(d@ =~= if t@.len() > 0 && (t@[0] == '+' || t@[0] == '-') {
        t@.skip(1)
    } else {
        t@
    });
    crate::text::all_digits(d)
}

/// Does `s` match the float literal form?
pub fn is_float(s: &str) -> (r: bool)
    ensures
        r == is_float_lit_s(s@),
{
    let n = s.unicode_len();
    let start: usize = if n > 0 && (s.get_char(0) == '+' || s.get_char(0) == '-') {
        1
    } else {
        0
    };
    let body = s.substring_char(start, n);
    assert(body@ =~= float_body_s(s@));
    let bn = body.unicode_len();
    match find_char(body, '.') {
        None => false,
        Some(p) => {
            proof {
                lemma_find_char_some(body@, '.', p as int);
            }
            let ip = body.substring_char(0, p);
            assert(ip@ =~= body@.take(p as int));
            if !crate::text::all_digits(ip) {
                return false;
            }
            let rest = body.substring_char(p + 1, bn);
            assert(rest@ =~= body@.skip(p + 1));
            match first_nondigit(rest) {
                None => p > 0 || rest.unicode_len() > 0,
                Some(q) => {
                    proof {
                        lemma_first_nondigit_some(rest@, q as int);
                    }
                    let rn = rest.unicode_len();
                    let c = rest.get_char(q);
                    if c != 'e' && c != 'E' {
                        false
                    } else if !(p > 0 || q > 0) {
                        false
                    } else {
                        let t = rest.substring_char(q + 1, rn);
                        assert(t@ =~= rest@.skip(q + 1));
                        exp_ok(t)
                    }
                },
            }
        },
    }
}

/// Validates a float literal and hands back its text verbatim; the numeric
/// value is left to the consumer. On mismatch the error's span covers the
/// whole input.
pub fn parse_float(input: &str) -> (r: Result<String, ParseAtomError>)
    ensures
        match r {
            Ok(t) => is_float_lit_s(input@) && t@ == input@,
            Err(e) => {
                &&& !is_float_lit_s(input@)
                &&& e matches ParseAtomError::ExpectedFloat(sp)
                &&& sp.start == 0
                &&& sp.end == input@.len()
            },
        },
{
    if is_float(input) {
        Ok(input.to_owned())
    } else {
        Err(ParseAtomError::ExpectedFloat(Span { start: 0, end: input.unicode_len() }))
    }
}

// ---------------------------------------------------------------------------
// Tuple literals
// ---------------------------------------------------------------------------

/// A tuple literal: starts with `(` and ends with `)`.
pub open spec fn is_tuple_lit_s(v: Seq<char>) -> bool {
    v.len() >= 2 && v[0] == '(' && v[v.len() - 1] == ')'
}

/// The trimmed pieces of the tuple interior, split on every comma — with no
/// awareness of nested parentheses or quoting, a documented limitation.
pub open spec fn tuple_pieces_s(v: Seq<char>) -> Seq<Seq<char>> {
    split_char_s(v.subrange(1, v.len() - 1), ',').map_values(|p: Seq<char>| trim_s(p))
}

/// The element texts of a tuple literal: its trimmed pieces, with one
/// trailing empty piece dropped, so that a trailing comma is permitted and
/// an empty interior yields a zero-length tuple.
pub open spec fn tuple_elems_s(v: Seq<char>) -> Seq<Seq<char>> {
    let t = tuple_pieces_s(v);
    if t.len() > 0 && t.last().len() == 0 {
        t.drop_last()
    } else {
        t
    }
}

/// Splits a tuple literal into its trimmed element texts. The errors are
/// those of the tuple form: no `(` at the start, no `)` at the end.
pub fn parse_tuple_elems(input: &str) -> (r: Result<Vec<String>, ParseAtomError>)
    ensures
        match r {
            Ok(v) => is_tuple_lit_s(input@) && v.deep_view() == tuple_elems_s(input@),
            Err(e) => !is_tuple_lit_s(input@) && if input@.len() == 0 || input@[0] != '(' {
                e == ParseAtomError::ExpectedTupleStart(Span { start: 0, end: 0 })
            } else {
                e == (ParseAtomError::ExpectedTupleEnd {
                    start: Span { start: 0, end: 0 },
                    expected_end: Span {
                        start: input@.len() as usize,
                        end: input@.len() as usize,
                    },
                })
            },
        },
{
    let n = input.unicode_len();
    if n == 0 || input.get_char(0) != '(' {
        return Err(ParseAtomError::ExpectedTupleStart(Span { start: 0, end: 0 }));
    }
    if n < 2 || input.get_char(n - 1) != ')' {
        return Err(
            ParseAtomError::ExpectedTupleEnd {
                start: Span { start: 0, end: 0 },
                expected_end: Span { start: n, end: n },
            },
        );
    }
    let interior = input.substring_char(1, n - 1);
    assert(interior@ =~= input@.subrange(1, input@.len() - 1));
    let pieces = split_char(interior, ',');
    let mut trimmed: Vec<String> = Vec::new();
    let mut i: usize = 0;
    while i < pieces.len()
        invariant
            0 <= i <= pieces.len(),
            trimmed.deep_view() =~= pieces.deep_view().take(i as int).map_values(
                |p: Seq<char>| trim_s(p),
            ),
        decreases pieces.len() - i,
    {
        let ghost prev = trimmed.deep_view();
        trimmed.push(trim_of(pieces[i].as_str()));
        proof {
            assert(trimmed.deep_view() =~= prev.push(trim_s(pieces.deep_view()[i as int])));
            assert(trimmed.deep_view() =~= pieces.deep_view().take(i + 1).map_values(
                |p: Seq<char>| trim_s(p),
            ));
        }
        i = i + 1;
    }
    proof {
        assert(pieces.deep_view().take(pieces.len() as int) =~= pieces.deep_view());
        assert(trimmed.deep_view() =~= tuple_pieces_s(input@));
    }
    let m = trimmed.len();
    proof {
        // Splitting never yields an empty piece list.
        assert(split_char_s(interior@, ',').len() > 0);
    }
    if trimmed[m - 1].as_str().unicode_len() == 0 {
        let ghost before = trimmed.deep_view();
        trimmed.pop();
        proof {
            assert(trimmed.deep_view() =~= before.drop_last());
            assert(trimmed.deep_view() =~= tuple_elems_s(input@));
        }
    } else {
        proof {
            assert(trimmed.deep_view() =~= tuple_elems_s(input@));
        }
    }
    Ok(trimmed)
}

// ---------------------------------------------------------------------------
// Classification
// ---------------------------------------------------------------------------

/// One decoded scalar: boolean, integer, float (kept as its literal text),
/// or opaque string.
#[derive(Debug, Clone, PartialEq, Eq)]
pub enum ScalarAtom {
    Bool(bool),
    Int(i64),
    Float(String),
    Str(String),
}

/// The ghost shape of a scalar.
pub ghost enum ScalarModel {
    Bool(bool),
    Int(int),
    Float(Seq<char>),
    Str(Seq<char>),
}

impl View for ScalarAtom {
    type V = ScalarModel;

    open spec fn view(&self) -> ScalarModel {
        match self {
            ScalarAtom::Bool(b) => ScalarModel::Bool(*b),
            ScalarAtom::Int(x) => ScalarModel::Int(*x as int),
            ScalarAtom::Float(t) => ScalarModel::Float(t@),
            ScalarAtom::Str(t) => ScalarModel::Str(t@),
        }
    }
}

impl DeepView for ScalarAtom {
    type V = ScalarModel;

    open spec fn deep_view(&self) -> ScalarModel {
        self.view()
    }
}

/// One decoded atom: a scalar, or an ordered tuple of scalars. Tuples do
/// not nest: comma-splitting a tuple value has no awareness of inner
/// parentheses, a documented limitation.
#[derive(Debug, Clone, PartialEq, Eq)]
pub enum Atom {
    Scalar(ScalarAtom),
    Tuple(Vec<ScalarAtom>),
}

/// The ghost shape of an atom.
pub ghost enum AtomModel {
    Scalar(ScalarModel),
    Tuple(Seq<ScalarModel>),
}

impl View for Atom {
    type V = AtomModel;

    open spec fn view(&self) -> AtomModel {
        match self {
            Atom::Scalar(a) => AtomModel::Scalar(a.view()),
            Atom::Tuple(v) => AtomModel::Tuple(v.deep_view()),
        }
    }
}

impl DeepView for Atom {
    type V = AtomModel;

    open spec fn deep_view(&self) -> AtomModel {
        self.view()
    }
}

/// Scalar classification, in fixed order: boolean literal, integer literal
/// that fits an `i64`, float literal, else opaque string.
pub open spec fn classify_scalar_s(v: Seq<char>) -> ScalarModel {
    if bool_lit_value_s(v) is Some {
        ScalarModel::Bool(bool_lit_value_s(v)->Some_0)
    } else if is_int_lit_s(v) && fits_i64(int_value_s(v)) {
        ScalarModel::Int(int_value_s(v))
    } else if is_float_lit_s(v) {
        ScalarModel::Float(v)
    } else {
        ScalarModel::Str(v)
    }
}

/// Atom classification: a parenthesized tuple of scalars, else a scalar.
pub open spec fn classify_atom_s(v: Seq<char>) -> AtomModel {
    if is_tuple_lit_s(v) {
        AtomModel::Tuple(tuple_elems_s(v).map_values(|e: Seq<char>| classify_scalar_s(e)))
    } else {
        AtomModel::Scalar(classify_scalar_s(v))
    }
}

/// Classifies one scalar value string.
pub fn classify_scalar(v: &str) -> (r: ScalarAtom)
    ensures
        r@ == classify_scalar_s(v@),
{
    match parse_bool(v) {
        Ok(b) => {
            return ScalarAtom::Bool(b);
        },
        Err(_) => {},
    }
    match parse_i64(v) {
        Ok(x) => {
            return ScalarAtom::Int(x);
        },
        Err(_) => {},
    }
    if is_float(v) {
        ScalarAtom::Float(v.to_owned())
    } else {
        ScalarAtom::Str(v.to_owned())
    }
}

/// Classifies and parses one value string into an atom, trying in fixed
/// order: parenthesized tuple, boolean, integer, float, else string.
pub fn from_str(input: &str) -> (r: Atom)
    ensures
        r@ == classify_atom_s(input@),
{
    let n = input.unicode_len();
    if n >= 2 && input.get_char(0) == '(' && input.get_char(n - 1) == ')' {
        match parse_tuple_elems(input) {
            Ok(elems) => {
                let mut out: Vec<ScalarAtom> = Vec::new();
                let mut i: usize = 0;
                while i < elems.len()
                    invariant
                        0 <= i <= elems.len(),
                        out.deep_view() =~= elems.deep_view().take(i as int).map_values(
                            |e: Seq<char>| classify_scalar_s(e),
                        ),
                    decreases elems.len() - i,
                {
                    let ghost prev = out.deep_view();
                    out.push(classify_scalar(elems[i].as_str()));
                    proof {
                        assert(out.deep_view() =~= prev.push(
                            classify_scalar_s(elems.deep_view()[i as int]),
                        ));
                        assert(out.deep_view() =~= elems.deep_view().take(i + 1).map_values(
                            |e: Seq<char>| classify_scalar_s(e),
                        ));
                    }
                    i = i + 1;
                }
                proof {
                    assert(elems.deep_view().take(elems.len() as int) =~= elems.deep_view());
                }
                Atom::Tuple(out)
            },
            Err(_) => {
                proof {
                    assert(false);
                }
                Atom::Scalar(ScalarAtom::Str(String::new()))
            },
        }
    } else {
        assert(!is_tuple_lit_s(input@));
        Atom::Scalar(classify_scalar(input))
    }
}

/// Parses an unsigned integer literal into a `u64`. A leading `+` is
/// accepted; a leading `-` is not an unsigned literal.
pub fn parse_u64(input: &str) -> (r: Result<u64, ParseAtomError>)
    ensures
        match r {
            Ok(v) => {
                &&& is_int_lit_s(input@)
                &&& input@[0] != '-'
                &&& v as int == int_value_s(input@)
            },
            Err(e) => {
                &&& !(is_int_lit_s(input@) && input@[0] != '-' && fits_u64(
                    int_value_s(input@),
                ))
                &&& e matches ParseAtomError::ExpectedInteger(sp)
                &&& sp.start == 0
                &&& sp.end == input@.len()
            },
        },
{
    let n = input.unicode_len();
    let err = ParseAtomError::ExpectedInteger(Span { start: 0, end: n });
    if n == 0 {
        return Err(err);
    }
    let c0 = input.get_char(0);
    if c0 == '-' {
        return Err(err);
    }
    let start: usize = if c0 == '+' {
        1
    } else {
        0
    };
    if start == n {
        assert(int_digits_s(input@).len() == 0);
        return Err(err);
    }
    proof {
        assert(input@.skip(start as int) =~= int_digits_s(input@));
    }
    match parse_digits(input, start, u64::MAX) {
        None => Err(err),
        Some(mag) => Ok(mag),
    }
}

} // verus!
