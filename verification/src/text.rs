//! Verified string helpers: trimming, searching, splitting. Everything is
//! specified over `Seq<char>` views; executable code mirrors the recursive
//! spec functions.

use vstd::prelude::*;
use crate::is_ws_char;

verus! {

// ---------------------------------------------------------------------------
// Spec functions
// ---------------------------------------------------------------------------

/// The sequence with leading whitespace removed.
pub open spec fn trim_start_s(s: Seq<char>) -> Seq<char>
    decreases s.len(),
{
    if s.len() > 0 && is_ws_char(s[0]) {
        trim_start_s(s.drop_first())
    } else {
        s
    }
}

/// The sequence with trailing whitespace removed.
pub open spec fn trim_end_s(s: Seq<char>) -> Seq<char>
    decreases s.len(),
{
    if s.len() > 0 && is_ws_char(s.last()) {
        trim_end_s(s.drop_last())
    } else {
        s
    }
}

/// The sequence with surrounding whitespace removed.
pub open spec fn trim_s(s: Seq<char>) -> Seq<char> {
    trim_end_s(trim_start_s(s))
}

/// Index of the first occurrence of `c` in `s`, if any.
pub open spec fn find_char_s(s: Seq<char>, c: char) -> Option<int>
    decreases s.len(),
{
    if s.len() == 0 {
        None
    } else if s[0] == c {
        Some(0int)
    } else {
        match find_char_s(s.drop_first(), c) {
            Some(i) => Some(i + 1),
            None => None,
        }
    }
}

/// How many times `c` occurs in `s`.
pub open spec fn count_char_s(s: Seq<char>, c: char) -> nat
    decreases s.len(),
{
    if s.len() == 0 {
        0
    } else {
        (if s[0] == c { 1nat } else { 0nat }) + count_char_s(s.drop_first(), c)
    }
}

/// Index of the `n`-th (0-based) occurrence of `c` in `s`; meaningful only
/// when `n < count_char_s(s, c)`.
pub open spec fn nth_occurrence_s(s: Seq<char>, c: char, n: nat) -> int
    decreases s.len(),
{
    if s.len() == 0 {
        0
    } else if s[0] == c {
        if n == 0 {
            0
        } else {
            1 + nth_occurrence_s(s.drop_first(), c, (n - 1) as nat)
        }
    } else {
        1 + nth_occurrence_s(s.drop_first(), c, n)
    }
}

/// `s` split on every occurrence of `c`; always non-empty.
pub open spec fn split_char_s(s: Seq<char>, c: char) -> Seq<Seq<char>>
    decreases s.len(),
{
    match find_char_s(s, c) {
        None => seq![s],
        Some(i) => if 0 <= i < s.len() {
            seq![s.subrange(0, i)] + split_char_s(s.skip(i + 1), c)
        } else {
            seq![s]
        },
    }
}

/// The non-empty elements of `ps`, in order.
pub open spec fn nonempty_parts_s(ps: Seq<Seq<char>>) -> Seq<Seq<char>>
    decreases ps.len(),
{
    if ps.len() == 0 {
        Seq::empty()
    } else if ps[0].len() > 0 {
        seq![ps[0]] + nonempty_parts_s(ps.drop_first())
    } else {
        nonempty_parts_s(ps.drop_first())
    }
}

/// An ASCII decimal digit.
pub open spec fn is_digit_c(c: char) -> bool {
    '0' <= c && c <= '9'
}

/// Every character of `s` is an ASCII digit (vacuously true of the empty
/// sequence).
pub open spec fn all_digits_s(s: Seq<char>) -> bool {
    forall|i: int| 0 <= i < s.len() ==> is_digit_c(#[trigger] s[i])
}

/// ASCII lower-casing of one character.
pub open spec fn to_lower_c(c: char) -> char {
    if 'A' <= c && c <= 'Z' {
        ((c as u32) + 32) as char
    } else {
        c
    }
}

/// Case-insensitive (ASCII) equality of two character sequences.
pub open spec fn eq_ignore_case_s(a: Seq<char>, b: Seq<char>) -> bool {
    a.len() == b.len() && forall|i: int|
        0 <= i < a.len() ==> to_lower_c(#[trigger] a[i]) == to_lower_c(b[i])
}

// ---------------------------------------------------------------------------
// Lemmas
// ---------------------------------------------------------------------------

/// `trim_start_s` drops exactly the leading run of whitespace.
pub proof fn lemma_trim_start_skip(s: Seq<char>, k: int)
    requires
        0 <= k <= s.len(),
        forall|j: int| 0 <= j < k ==> is_ws_char(#[trigger] s[j]),
        k < s.len() ==> !is_ws_char(s[k]),
    ensures
        trim_start_s(s) =~= s.skip(k),
    decreases k,
{
    if k == 0 {
        if s.len() > 0 && is_ws_char(s[0]) {
            assert(false);
        }
        assert(trim_start_s(s) =~= s.skip(0));
    } else {
        assert(is_ws_char(s[0]));
        assert(s.drop_first() =~= s.skip(1));
        lemma_trim_start_skip(s.skip(1), k - 1);
        assert(s.skip(1).skip(k - 1) =~= s.skip(k));
    }
}

/// `trim_end_s` drops exactly the trailing run of whitespace.
pub proof fn lemma_trim_end_take(s: Seq<char>, k: int)
    requires
        0 <= k <= s.len(),
        forall|j: int| k <= j < s.len() ==> is_ws_char(#[trigger] s[j]),
        k > 0 ==> !is_ws_char(s[k - 1]),
    ensures
        trim_end_s(s) =~= s.take(k),
    decreases s.len() - k,
{
    if k == s.len() {
        if s.len() > 0 && is_ws_char(s.last()) {
            assert(false);
        }
        assert(trim_end_s(s) =~= s.take(k));
    } else {
        assert(is_ws_char(s.last()));
        assert(s.drop_last() =~= s.take(s.len() - 1));
        lemma_trim_end_take(s.take(s.len() - 1), k);
        assert(s.take(s.len() - 1).take(k) =~= s.take(k));
    }
}

// ---------------------------------------------------------------------------
// Executable helpers
// ---------------------------------------------------------------------------

/// Finds the first occurrence of `c` in `s`.
pub fn find_char(s: &str, c: char) -> (r: Option<usize>)
    ensures
        match r {
            Some(i) => find_char_s(s@, c) == Some(i as int),
            None => find_char_s(s@, c) is None,
        },
{
    let n = s.unicode_len();
    let mut i: usize = 0;
    while i < n
        invariant
            0 <= i <= n,
            n == s@.len(),
            forall|j: int| 0 <= j < i ==> s@[j] != c,
        decreases n - i,
    {
        if s.get_char(i) == c {
            proof {
                lemma_find_char_characterization(s@, c, i as int);
            }
            return Some(i);
        }
        i = i + 1;
    }
    proof {
        lemma_find_char_none(s@, c);
    }
    None
}

/// A first occurrence at `i` (nothing equal before it) pins `find_char_s`.
proof fn lemma_find_char_characterization(s: Seq<char>, c: char, i: int)
    requires
        0 <= i < s.len(),
        s[i] == c,
        forall|j: int| 0 <= j < i ==> s[j] != c,
    ensures
        find_char_s(s, c) == Some(i),
    decreases i,
{
    if i == 0 {
    } else {
        assert(s.drop_first() =~= s.skip(1));
        lemma_find_char_characterization(s.skip(1), c, i - 1);
    }
}

/// If no character equals `c`, `find_char_s` finds nothing.
proof fn lemma_find_char_none(s: Seq<char>, c: char)
    requires
        forall|j: int| 0 <= j < s.len() ==> s[j] != c,
    ensures
        find_char_s(s, c) is None,
    decreases s.len(),
{
    if s.len() > 0 {
        assert(s.drop_first() =~= s.skip(1));
        lemma_find_char_none(s.skip(1), c);
    }
}

/// The result of a successful `find_char_s` is a position of `c`, and the
/// first one.
pub proof fn lemma_find_char_some(s: Seq<char>, c: char, i: int)
    requires
        find_char_s(s, c) == Some(i),
    ensures
        0 <= i < s.len(),
        s[i] == c,
        forall|j: int| 0 <= j < i ==> s[j] != c,
    decreases s.len(),
{
    if s.len() > 0 && s[0] != c {
        assert(s.drop_first() =~= s.skip(1));
        lemma_find_char_some(s.skip(1), c, i - 1);
        assert forall|j: int| 0 <= j < i implies s[j] != c by {
            if j >= 1 {
                assert(s.skip(1)[j - 1] != c);
            }
        }
    }
}

/// Trims surrounding whitespace.
pub fn trim_of(s: &str) -> (r: String)
    ensures
        r@ =~= trim_s(s@),
{
    let n = s.unicode_len();
    let mut lo: usize = 0;
    while lo < n && is_ws(s.get_char(lo))
        invariant
            0 <= lo <= n,
            n == s@.len(),
            forall|j: int| 0 <= j < lo ==> is_ws_char(#[trigger] s@[j]),
        decreases n - lo,
    {
        lo = lo + 1;
    }
    proof {
        lemma_trim_start_skip(s@, lo as int);
    }
    let mut hi: usize = n;
    while hi > lo && is_ws(s.get_char(hi - 1))
        invariant
            lo <= hi <= n,
            n == s@.len(),
            forall|j: int| hi <= j < n ==> is_ws_char(#[trigger] s@[j]),
        decreases hi,
    {
        hi = hi - 1;
    }
    let out = s.substring_char(lo, hi);
    proof {
        let st = s@.skip(lo as int);
        if hi == lo {
            assert(forall|j: int| #![auto] 0 <= j < st.len() ==> is_ws_char(st[j]));
            lemma_trim_end_take(st, 0);
        } else {
            assert(!is_ws_char(st[(hi - lo - 1) as int]));
            lemma_trim_end_take(st, hi - lo as int);
        }
        assert(s@.skip(lo as int).take(hi - lo as int) =~= s@.subrange(lo as int, hi as int));
    }
    out.to_owned()
}

/// Whitespace test used by `trim_of`.
pub fn is_ws(c: char) -> (r: bool)
    ensures
        r == is_ws_char(c),
{
    c == ' ' || c == '\t' || c == '\r' || c == '\n' || c == '\u{b}' || c == '\u{c}'
}

/// Does `s` start with `p`?
pub fn starts_with_str(s: &str, p: &str) -> (r: bool)
    ensures
        r == p@.is_prefix_of(s@),
{
    let np = p.unicode_len();
    let ns = s.unicode_len();
    if np > ns {
        return false;
    }
    let mut i: usize = 0;
    while i < np
        invariant
            0 <= i <= np,
            np == p@.len(),
            ns == s@.len(),
            np <= ns,
            forall|j: int| 0 <= j < i ==> s@[j] == p@[j],
        decreases np - i,
    {
        if s.get_char(i) != p.get_char(i) {
            assert(!p@.is_prefix_of(s@));
            return false;
        }
        i = i + 1;
    }
    assert(p@ =~= s@.subrange(0, np as int));
    true
}

/// Strips the literal prefix `p` from `s`, if `s` starts with it.
pub fn strip_prefix_of(s: &str, p: &str) -> (r: Option<String>)
    ensures
        match r {
            Some(t) => p@.is_prefix_of(s@) && t@ =~= s@.skip(p@.len() as int),
            None => !p@.is_prefix_of(s@),
        },
{
    if starts_with_str(s, p) {
        let rest = s.substring_char(p.unicode_len(), s.unicode_len());
        assert(rest@ =~= s@.skip(p@.len() as int));
        Some(rest.to_owned())
    } else {
        None
    }
}

/// Is `c` an ASCII decimal digit?
pub fn is_digit(c: char) -> (r: bool)
    ensures
        r == is_digit_c(c),
{
    '0' <= c && c <= '9'
}

/// Is every character of `s` an ASCII digit? True of the empty string.
pub fn all_digits(s: &str) -> (r: bool)
    ensures
        r == all_digits_s(s@),
{
    let n = s.unicode_len();
    let mut i: usize = 0;
    while i < n
        invariant
            0 <= i <= n,
            n == s@.len(),
            forall|j: int| 0 <= j < i ==> is_digit_c(#[trigger] s@[j]),
        decreases n - i,
    {
        if !is_digit(s.get_char(i)) {
            return false;
        }
        i = i + 1;
    }
    true
}

/// ASCII lower-casing of one character.
pub fn to_lower(c: char) -> (r: char)
    ensures
        r == to_lower_c(c),
{
    if 'A' <= c && c <= 'Z' {
        let b: u8 = (c as u8) + 32;
        let r = b as char;
        assert(r == to_lower_c(c));
        r
    } else {
        c
    }
}

/// Case-insensitive (ASCII) equality of two strings.
pub fn eq_ignore_case(a: &str, b: &str) -> (r: bool)
    ensures
        r == eq_ignore_case_s(a@, b@),
{
    let na = a.unicode_len();
    let nb = b.unicode_len();
    if na != nb {
        return false;
    }
    let mut i: usize = 0;
    while i < na
        invariant
            0 <= i <= na,
            na == a@.len(),
            na == b@.len(),
            forall|j: int| 0 <= j < i ==> to_lower_c(#[trigger] a@[j]) == to_lower_c(b@[j]),
        decreases na - i,
    {
        if to_lower(a.get_char(i)) != to_lower(b.get_char(i)) {
            return false;
        }
        i = i + 1;
    }
    true
}

/// Splits `s` on every occurrence of `c`; the result is never empty.
pub fn split_char(s: &str, c: char) -> (r: Vec<String>)
    ensures
        r.deep_view() == split_char_s(s@, c),
    decreases s@.len(),
{
    match find_char(s, c) {
        None => {
            let mut v: Vec<String> = Vec::new();
            v.push(s.to_owned());
            assert(v.deep_view() =~= split_char_s(s@, c));
            v
        },
        Some(i) => {
            proof {
                lemma_find_char_some(s@, c, i as int);
            }
            let n = s.unicode_len();
            let head = s.substring_char(0, i);
            let tail = s.substring_char(i + 1, n);
            assert(tail@ =~= s@.skip(i + 1));
            let mut rest = split_char(tail, c);
            rest.insert(0, head.to_owned());
            assert(rest.deep_view() =~= split_char_s(s@, c));
            rest
        },
    }
}

/// Keeps the non-empty strings of `v`, from index `from` on.
pub fn nonempty_from(v: &Vec<String>, from: usize) -> (r: Vec<String>)
    requires
        from <= v.len(),
    ensures
        r.deep_view() == nonempty_parts_s(v.deep_view().skip(from as int)),
    decreases v.len() - from,
{
    if from == v.len() {
        let r: Vec<String> = Vec::new();
        assert(r.deep_view() =~= nonempty_parts_s(v.deep_view().skip(from as int)));
        r
    } else {
        let mut rest = nonempty_from(v, from + 1);
        proof {
            assert(v.deep_view().skip(from as int).drop_first() =~= v.deep_view().skip(
                from + 1,
            ));
        }
        if v[from].as_str().unicode_len() > 0 {
            rest.insert(0, v[from].clone());
            assert(rest.deep_view() =~= nonempty_parts_s(v.deep_view().skip(from as int)));
        } else {
            assert(rest.deep_view() =~= nonempty_parts_s(v.deep_view().skip(from as int)));
        }
        rest
    }
}

// ---------------------------------------------------------------------------
// Substring search
// ---------------------------------------------------------------------------

/// `needle` occurs in `hay` starting at position `i`.
pub open spec fn occurs_at(hay: Seq<char>, needle: Seq<char>, i: int) -> bool {
    0 <= i && i + needle.len() <= hay.len() && hay.subrange(i, i + needle.len()) == needle
}

/// Does `needle` occur in `hay` at position `i`?
pub fn matches_at(hay: &str, needle: &str, i: usize) -> (r: bool)
    requires
        i + needle@.len() <= hay@.len(),
    ensures
        r == occurs_at(hay@, needle@, i as int),
{
    let n = needle.unicode_len();
    let nh = hay.unicode_len();
    let mut j: usize = 0;
    while j < n
        invariant
            0 <= j <= n,
            n == needle@.len(),
            nh == hay@.len(),
            i + n <= hay@.len(),
            forall|k: int| 0 <= k < j ==> hay@[i + k] == needle@[k],
        decreases n - j,
    {
        if hay.get_char(i + j) != needle.get_char(j) {
            assert(hay@.subrange(i as int, i + n) != needle@) by {
                assert(hay@.subrange(i as int, i + n)[j as int] != needle@[j as int]);
            }
            return false;
        }
        j = j + 1;
    }
    assert(hay@.subrange(i as int, i + n) =~= needle@);
    true
}

/// First position where `needle` occurs in `hay`.
pub fn find_sub(hay: &str, needle: &str) -> (r: Option<usize>)
    ensures
        match r {
            Some(i) => occurs_at(hay@, needle@, i as int) && forall|j: int|
                0 <= j < i ==> !occurs_at(hay@, needle@, j),
            None => forall|j: int| !occurs_at(hay@, needle@, j),
        },
{
    let nh = hay.unicode_len();
    let nn = needle.unicode_len();
    if nn > nh {
        return None;
    }
    let mut i: usize = 0;
    loop
        invariant
            0 <= i <= nh - nn,
            nn <= nh,
            nh == hay@.len(),
            nn == needle@.len(),
            forall|j: int| 0 <= j < i ==> !occurs_at(hay@, needle@, j),
        decreases nh - nn - i,
    {
        if matches_at(hay, needle, i) {
            return Some(i);
        }
        if i == nh - nn {
            assert(forall|j: int| !occurs_at(hay@, needle@, j));
            return None;
        }
        i = i + 1;
    }
}

/// Last position where `needle` occurs in `hay`.
pub fn rfind_sub(hay: &str, needle: &str) -> (r: Option<usize>)
    ensures
        match r {
            Some(i) => occurs_at(hay@, needle@, i as int) && forall|j: int|
                i < j ==> !occurs_at(hay@, needle@, j),
            None => forall|j: int| !occurs_at(hay@, needle@, j),
        },
{
    let nh = hay.unicode_len();
    let nn = needle.unicode_len();
    if nn > nh {
        return None;
    }
    let mut i: usize = nh - nn;
    loop
        invariant
            0 <= i <= nh - nn,
            nn <= nh,
            nh == hay@.len(),
            nn == needle@.len(),
            forall|j: int| i < j ==> !occurs_at(hay@, needle@, j),
        decreases i + 1,
    {
        if matches_at(hay, needle, i) {
            return Some(i);
        }
        if i == 0 {
            return None;
        }
        i = i - 1;
    }
}

// ---------------------------------------------------------------------------
// Splitting text into lines
// ---------------------------------------------------------------------------

/// A piece with one trailing carriage return removed.
pub open spec fn strip_cr_s(s: Seq<char>) -> Seq<char> {
    if s.len() > 0 && s.last() == '\r' {
        s.drop_last()
    } else {
        s
    }
}

/// `s` split into lines: pieces end at `\n` (a preceding `\r` is dropped),
/// and a final line ending is optional.
pub open spec fn split_lines_s(s: Seq<char>) -> Seq<Seq<char>>
    decreases s.len(),
{
    if s.len() == 0 {
        Seq::empty()
    } else {
        match find_char_s(s, '\n') {
            None => seq![s],
            Some(i) => if 0 <= i < s.len() {
                seq![strip_cr_s(s.subrange(0, i))] + split_lines_s(s.skip(i + 1))
            } else {
                seq![s]
            },
        }
    }
}

/// Splits `s` into lines, as `split_lines_s` describes.
pub fn split_lines(s: &str) -> (r: Vec<String>)
    ensures
        r.deep_view() == split_lines_s(s@),
    decreases s@.len(),
{
    if s.unicode_len() == 0 {
        let r: Vec<String> = Vec::new();
        assert(r.deep_view() =~= split_lines_s(s@));
        return r;
    }
    match find_char(s, '\n') {
        None => {
            let mut v: Vec<String> = Vec::new();
            v.push(s.to_owned());
            assert(v.deep_view() =~= split_lines_s(s@));
            v
        },
        Some(i) => {
            proof {
                lemma_find_char_some(s@, '\n', i as int);
            }
            let head = if i > 0 && s.get_char(i - 1) == '\r' {
                s.substring_char(0, i - 1)
            } else {
                s.substring_char(0, i)
            };
            assert(head@ =~= strip_cr_s(s@.subrange(0, i as int))) by {
                assert(s@.subrange(0, i as int).len() == i);
                if i > 0 && s@[i - 1] == '\r' {
                    assert(s@.subrange(0, i as int).last() == '\r');
                    assert(head@ =~= s@.subrange(0, i as int).drop_last());
                }
            }
            let n = s.unicode_len();
            let tail = s.substring_char(i + 1, n);
            assert(tail@ =~= s@.skip(i + 1));
            let mut rest = split_lines(tail);
            rest.insert(0, head.to_owned());
            assert(rest.deep_view() =~= split_lines_s(s@));
            rest
        },
    }
}

/// A line that carries content: not blank, and its first non-whitespace
/// character is not the comment marker `#`.
pub open spec fn is_content_line_s(l: Seq<char>) -> bool {
    trim_start_s(l).len() > 0 && trim_start_s(l)[0] != '#'
}

/// The content lines of `ls`, in order: comment and blank lines dropped.
pub open spec fn content_lines_s(ls: Seq<Seq<char>>) -> Seq<Seq<char>>
    decreases ls.len(),
{
    if ls.len() == 0 {
        Seq::empty()
    } else if is_content_line_s(ls[0]) {
        seq![ls[0]] + content_lines_s(ls.drop_first())
    } else {
        content_lines_s(ls.drop_first())
    }
}

/// Is `l` a content line (neither blank nor a `#` comment)?
pub fn is_content_line(l: &str) -> (r: bool)
    ensures
        r == is_content_line_s(l@),
{
    let n = l.unicode_len();
    let mut i: usize = 0;
    while i < n && is_ws(l.get_char(i))
        invariant
            0 <= i <= n,
            n == l@.len(),
            forall|j: int| 0 <= j < i ==> is_ws_char(#[trigger] l@[j]),
        decreases n - i,
    {
        i = i + 1;
    }
    proof {
        lemma_trim_start_skip(l@, i as int);
    }
    if i == n {
        false
    } else {
        l.get_char(i) != '#'
    }
}

/// Keeps the content lines of `v`, from index `from` on.
pub fn content_lines_from(v: &Vec<String>, from: usize) -> (r: Vec<String>)
    requires
        from <= v.len(),
    ensures
        r.deep_view() == content_lines_s(v.deep_view().skip(from as int)),
    decreases v.len() - from,
{
    if from == v.len() {
        let r: Vec<String> = Vec::new();
        assert(r.deep_view() =~= content_lines_s(v.deep_view().skip(from as int)));
        r
    } else {
        let mut rest = content_lines_from(v, from + 1);
        proof {
            assert(v.deep_view().skip(from as int).drop_first() =~= v.deep_view().skip(
                from + 1,
            ));
        }
        if is_content_line(v[from].as_str()) {
            rest.insert(0, v[from].clone());
            assert(rest.deep_view() =~= content_lines_s(v.deep_view().skip(from as int)));
        } else {
            assert(rest.deep_view() =~= content_lines_s(v.deep_view().skip(from as int)));
        }
        rest
    }
}

} // verus!
