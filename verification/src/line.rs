//! The line model: one raw `key = value` record, with its derived key path,
//! prefixes, and character ranges for diagnostics.

use vstd::prelude::*;
use crate::error::Span;
use crate::text::{
    count_char_s, find_char, find_char_s, find_sub, lemma_find_char_some,
    nonempty_from, nonempty_parts_s, nth_occurrence_s, occurs_at, rfind_sub, split_char,
    split_char_s, trim_of, trim_s, trim_end_s, trim_start_s,
};

verus! {

/// The path delimiter inside keys.
pub open spec fn path_delim() -> char {
    '.'
}

/// The key/value delimiter of a record line.
pub open spec fn kv_delim() -> char {
    '='
}

/// What parsing one line yields: the trimmed text before the first `=` and
/// the trimmed remainder after it; nothing when the line has no `=`.
pub open spec fn spec_parse(line: Seq<char>) -> Option<(Seq<char>, Seq<char>)> {
    match find_char_s(line, kv_delim()) {
        None => None,
        Some(i) => Some(
            (trim_s(line.subrange(0, i)), trim_s(line.skip(i + 1))),
        ),
    }
}

/// The prefix of `key` consisting of its first `level` dot-delimited
/// segments plus the trailing delimiter — except at the terminal level,
/// where the whole key stands with no trailing delimiter. Levels beyond
/// that are absent.
pub open spec fn prefix_of_key(key: Seq<char>, level: int) -> Option<Seq<char>> {
    let dots = count_char_s(key, path_delim()) as int;
    if level == 0 {
        Some(Seq::empty())
    } else if 1 <= level <= dots {
        Some(key.subrange(0, nth_occurrence_s(key, path_delim(), (level - 1) as nat) + 1))
    } else if level == dots + 1 && key.len() > 0 {
        Some(key)
    } else {
        None
    }
}

/// The non-empty dot-delimited segments of `key`, in order.
pub open spec fn path_of_key(key: Seq<char>) -> Seq<Seq<char>> {
    nonempty_parts_s(split_char_s(key, path_delim()))
}

/// The ghost shape of a parsed line.
pub ghost struct KvModel {
    pub key: Seq<char>,
    pub value: Seq<char>,
    pub orig: Seq<char>,
}

/// Stripping `level` leading segments from a parsed line: the key loses its
/// prefix at that level; value and original text stay.
pub open spec fn spec_strip(kv: KvModel, level: int) -> Option<KvModel> {
    match prefix_of_key(kv.key, level) {
        None => None,
        Some(p) => Some(KvModel { key: kv.key.skip(p.len() as int), ..kv }),
    }
}

/// One raw line, split into a trimmed key and a trimmed value. `orig` keeps
/// the untouched line so that diagnostics can point back into it.
#[derive(Debug, PartialEq, Eq)]
pub struct KeyValue {
    pub key: String,
    pub value: String,
    pub orig: String,
}

impl Clone for KeyValue {
    fn clone(&self) -> (r: Self)
        ensures
            r@ == self@,
    {
        KeyValue { key: self.key.clone(), value: self.value.clone(), orig: self.orig.clone() }
    }
}

impl View for KeyValue {
    type V = KvModel;

    open spec fn view(&self) -> KvModel {
        KvModel { key: self.key@, value: self.value@, orig: self.orig@ }
    }
}

impl DeepView for KeyValue {
    type V = KvModel;

    open spec fn deep_view(&self) -> KvModel {
        self.view()
    }
}

// ---------------------------------------------------------------------------
// Lemmas about occurrences and prefixes
// ---------------------------------------------------------------------------

/// Counting `c` in one more character of `s`.
pub proof fn lemma_count_push(s: Seq<char>, c: char, x: char)
    ensures
        count_char_s(s.push(x), c) == count_char_s(s, c) + (if x == c {
            1nat
        } else {
            0nat
        }),
    decreases s.len(),
{
    if s.len() == 0 {
        assert(s.push(x).drop_first() =~= s);
    } else {
        assert(s.push(x).drop_first() =~= s.drop_first().push(x));
        lemma_count_push(s.drop_first(), c, x);
    }
}

/// A position `i` of `c` preceded by exactly `n` occurrences is the `n`-th
/// occurrence.
pub proof fn lemma_nth_occ(s: Seq<char>, c: char, n: nat, i: int)
    requires
        0 <= i < s.len(),
        s[i] == c,
        count_char_s(s.take(i), c) == n,
    ensures
        count_char_s(s, c) > n,
        nth_occurrence_s(s, c, n) == i,
    decreases i,
{
    let t = s.drop_first();
    assert(t =~= s.skip(1));
    if i == 0 {
        assert(s.take(0) =~= Seq::<char>::empty());
    } else {
        if s[0] == c {
            assert(s.take(i).drop_first() =~= t.take(i - 1));
            assert(count_char_s(t.take(i - 1), c) == (n - 1) as nat);
            lemma_nth_occ(t, c, (n - 1) as nat, i - 1);
        } else {
            assert(s.take(i).drop_first() =~= t.take(i - 1));
            lemma_nth_occ(t, c, n, i - 1);
        }
    }
}

/// The `n`-th occurrence, when it exists, is a position of `c`.
pub proof fn lemma_nth_occ_bounds(s: Seq<char>, c: char, n: nat)
    requires
        n < count_char_s(s, c),
    ensures
        0 <= nth_occurrence_s(s, c, n) < s.len(),
        s[nth_occurrence_s(s, c, n)] == c,
    decreases s.len(),
{
    let t = s.drop_first();
    assert(t =~= s.skip(1));
    if s[0] == c {
        if n > 0 {
            lemma_nth_occ_bounds(t, c, (n - 1) as nat);
        }
    } else {
        lemma_nth_occ_bounds(t, c, n);
    }
}

/// Earlier occurrences sit at earlier positions.
pub proof fn lemma_nth_occ_increasing(s: Seq<char>, c: char, m: nat, n: nat)
    requires
        m < n < count_char_s(s, c),
    ensures
        nth_occurrence_s(s, c, m) < nth_occurrence_s(s, c, n),
    decreases s.len(),
{
    let t = s.drop_first();
    assert(t =~= s.skip(1));
    if s[0] == c {
        if m > 0 {
            lemma_nth_occ_increasing(t, c, (m - 1) as nat, (n - 1) as nat);
        } else {
            lemma_nth_occ_bounds(t, c, (n - 1) as nat);
        }
    } else {
        lemma_nth_occ_increasing(t, c, m, n);
    }
}

/// A defined prefix is a literal prefix of the key.
pub proof fn lemma_prefix_is_prefix(key: Seq<char>, level: int)
    requires
        prefix_of_key(key, level) is Some,
    ensures
        prefix_of_key(key, level)->Some_0.is_prefix_of(key),
        prefix_of_key(key, level)->Some_0.len() <= key.len(),
{
    let dots = count_char_s(key, path_delim()) as int;
    if level == 0 {
        assert(Seq::<char>::empty() =~= key.subrange(0, 0));
        assert(Seq::<char>::empty().is_prefix_of(key));
    } else if 1 <= level <= dots {
        lemma_nth_occ_bounds(key, path_delim(), (level - 1) as nat);
        let e = nth_occurrence_s(key, path_delim(), (level - 1) as nat) + 1;
        assert(key.subrange(0, e) =~= key.take(e));
    } else {
        assert(key.is_prefix_of(key)) by {
            assert(key =~= key.take(key.len() as int));
        }
    }
}

/// Level zero always has the empty prefix.
pub proof fn lemma_prefix_zero(key: Seq<char>)
    ensures
        prefix_of_key(key, 0) == Some(Seq::<char>::empty()),
{
}

/// At the terminal level — one past the dot count of a non-empty key — the
/// prefix is the full key, with no trailing delimiter.
pub proof fn lemma_prefix_terminal(key: Seq<char>)
    requires
        key.len() > 0,
    ensures
        prefix_of_key(key, count_char_s(key, path_delim()) as int + 1) == Some(key),
{
}

/// Levels beyond the terminal one are absent.
pub proof fn lemma_prefix_beyond(key: Seq<char>, level: int)
    requires
        level > count_char_s(key, path_delim()) as int + 1,
    ensures
        prefix_of_key(key, level) is None,
{
}

/// Prefixes grow by string containment as the level increases.
///
/// For any two defined levels `l1 <= l2`, the prefix at `l1` is a literal
/// prefix of the prefix at `l2`.
pub proof fn lemma_prefix_monotone(key: Seq<char>, l1: int, l2: int)
    requires
        0 <= l1 <= l2,
        prefix_of_key(key, l1) is Some,
        prefix_of_key(key, l2) is Some,
    ensures
        prefix_of_key(key, l1)->Some_0.is_prefix_of(prefix_of_key(key, l2)->Some_0),
{
    let dots = count_char_s(key, path_delim()) as int;
    let p1 = prefix_of_key(key, l1)->Some_0;
    let p2 = prefix_of_key(key, l2)->Some_0;
    lemma_prefix_is_prefix(key, l1);
    lemma_prefix_is_prefix(key, l2);
    if l1 == 0 {
        assert(Seq::<char>::empty() =~= p2.take(0));
    } else if l1 == l2 {
        assert(p1 =~= p2.take(p2.len() as int));
    } else {
        // 1 <= l1 < l2, so l1 <= dots and the ends are ordered.
        let e1 = nth_occurrence_s(key, path_delim(), (l1 - 1) as nat) + 1;
        lemma_nth_occ_bounds(key, path_delim(), (l1 - 1) as nat);
        if l2 <= dots {
            let e2 = nth_occurrence_s(key, path_delim(), (l2 - 1) as nat) + 1;
            lemma_nth_occ_bounds(key, path_delim(), (l2 - 1) as nat);
            lemma_nth_occ_increasing(key, path_delim(), (l1 - 1) as nat, (l2 - 1) as nat);
            assert(key.subrange(0, e1) =~= key.subrange(0, e2).subrange(0, e1));
        } else {
            assert(p2 == key);
            assert(key.subrange(0, e1) =~= key.subrange(0, e1));
        }
    }
}

/// Trimming keeps a contiguous slice of the original text.
pub proof fn lemma_trim_is_infix(x: Seq<char>)
    ensures
        exists|a: int, b: int|
            0 <= a <= b <= x.len() && trim_s(x) =~= #[trigger] x.subrange(a, b),
    decreases x.len(),
{
    let st = trim_start_s(x);
    lemma_trim_start_is_skip(x);
    let k = choose|k: int| 0 <= k <= x.len() && trim_start_s(x) == x.skip(k);
    lemma_trim_end_is_take(st);
    let m = choose|m: int| 0 <= m <= st.len() && trim_end_s(st) == st.take(m);
    assert(st.take(m) =~= x.subrange(k, k + m));
    assert(trim_s(x) =~= x.subrange(k, k + m));
}

/// `trim_start_s` is some suffix of its argument.
pub proof fn lemma_trim_start_is_skip(x: Seq<char>)
    ensures
        exists|k: int| 0 <= k <= x.len() && trim_start_s(x) == #[trigger] x.skip(k),
    decreases x.len(),
{
    if x.len() > 0 && crate::is_ws_char(x[0]) {
        lemma_trim_start_is_skip(x.drop_first());
        let k = choose|k: int|
            0 <= k <= x.drop_first().len() && trim_start_s(x.drop_first()) == x.drop_first().skip(
                k,
            );
        assert(x.drop_first().skip(k) =~= x.skip(k + 1));
    } else {
        assert(trim_start_s(x) == x.skip(0)) by {
            assert(x.skip(0) =~= x);
        }
    }
}

/// `trim_end_s` is some prefix of its argument.
pub proof fn lemma_trim_end_is_take(x: Seq<char>)
    ensures
        exists|m: int| 0 <= m <= x.len() && trim_end_s(x) == #[trigger] x.take(m),
    decreases x.len(),
{
    if x.len() > 0 && crate::is_ws_char(x.last()) {
        lemma_trim_end_is_take(x.drop_last());
        let m = choose|m: int|
            0 <= m <= x.drop_last().len() && trim_end_s(x.drop_last()) == x.drop_last().take(m);
        assert(x.drop_last().take(m) =~= x.take(m));
    } else {
        assert(trim_end_s(x) == x.take(x.len() as int)) by {
            assert(x.take(x.len() as int) =~= x);
        }
    }
}

// ---------------------------------------------------------------------------
// Executable line model
// ---------------------------------------------------------------------------

impl KeyValue {
    /// Parses one raw line: splits on the first `=`, trims both halves.
    /// Returns nothing only when the line has no `=`; empty halves are
    /// accepted.
    pub fn new(line: &str) -> (r: Option<KeyValue>)
        ensures
            match r {
                Some(kv) => {
                    &&& spec_parse(line@) == Some((kv@.key, kv@.value))
                    &&& kv@.orig == line@
                    &&& exists|a: int| occurs_at(line@, kv@.key, a)
                    &&& exists|a: int| occurs_at(line@, kv@.value, a)
                },
                None => spec_parse(line@) is None,
            },
    {
        match find_char(line, kv_delim_exec()) {
            None => None,
            Some(i) => {
                proof {
                    lemma_find_char_some(line@, kv_delim(), i as int);
                }
                let n = line.unicode_len();
                let raw_key = line.substring_char(0, i);
                let raw_value = line.substring_char(i + 1, n);
                let key = trim_of(raw_key);
                let value = trim_of(raw_value);
                proof {
                    assert(raw_key@ =~= line@.subrange(0, i as int));
                    assert(raw_value@ =~= line@.skip(i + 1));
                    lemma_trim_is_infix(raw_key@);
                    let (a, b) = choose|a: int, b: int|
                        0 <= a <= b <= raw_key@.len() && trim_s(raw_key@) =~= #[trigger] raw_key@.subrange(a, b);
                    assert(raw_key@.subrange(a, b) =~= line@.subrange(a, b));
                    assert(occurs_at(line@, key@, a));
                    lemma_trim_is_infix(raw_value@);
                    let (a2, b2) = choose|a2: int, b2: int|
                        0 <= a2 <= b2 <= raw_value@.len() && trim_s(raw_value@)
                            =~= #[trigger] raw_value@.subrange(a2, b2);
                    assert(raw_value@.subrange(a2, b2) =~= line@.subrange(
                        i + 1 + a2,
                        i + 1 + b2,
                    ));
                    assert(occurs_at(line@, value@, i + 1 + a2));
                }
                Some(KeyValue { key, value, orig: line.to_owned() })
            },
        }
    }

    /// The character range of the key within the original line: its first
    /// occurrence there. Offsets count characters, not bytes; on ASCII text
    /// the two coincide.
    pub fn key_range(&self) -> (r: Span)
        requires
            exists|a: int| occurs_at(self@.orig, self@.key, a),
        ensures
            occurs_at(self@.orig, self@.key, r.start as int),
            r.end == r.start + self@.key.len(),
            forall|j: int| 0 <= j < r.start ==> !occurs_at(self@.orig, self@.key, j),
    {
        let n = self.key.as_str().unicode_len();
        let total = self.orig.as_str().unicode_len();
        match find_sub(self.orig.as_str(), self.key.as_str()) {
            Some(i) => Span { start: i, end: i + n },
            None => {
                proof {
                    assert(false);
                }
                Span { start: 0, end: 0 }
            },
        }
    }

    /// The character range of the value within the original line: its last
    /// occurrence there (the value is known to follow the key). Offsets
    /// count characters, not bytes; on ASCII text the two coincide.
    pub fn value_range(&self) -> (r: Span)
        requires
            exists|a: int| occurs_at(self@.orig, self@.value, a),
        ensures
            occurs_at(self@.orig, self@.value, r.start as int),
            r.end == r.start + self@.value.len(),
            forall|j: int| j > r.start ==> !occurs_at(self@.orig, self@.value, j),
    {
        let n = self.value.as_str().unicode_len();
        let total = self.orig.as_str().unicode_len();
        match rfind_sub(self.orig.as_str(), self.value.as_str()) {
            Some(i) => Span { start: i, end: i + n },
            None => {
                proof {
                    assert(false);
                }
                Span { start: 0, end: 0 }
            },
        }
    }

    /// The non-empty dot-delimited segments of the key, in order; artifacts
    /// of leading, trailing or doubled delimiters are dropped.
    pub fn path(&self) -> (r: Vec<String>)
        ensures
            r.deep_view() == path_of_key(self@.key),
    {
        let parts = split_char(self.key.as_str(), path_delim_exec());
        let r = nonempty_from(&parts, 0);
        proof {
            assert(parts.deep_view().skip(0) =~= parts.deep_view());
        }
        r
    }

    /// The key prefix at `level`, as `prefix_of_key` describes it.
    pub fn prefix(&self, level: usize) -> (r: Option<String>)
        ensures
            match r {
                Some(p) => prefix_of_key(self@.key, level as int) == Some(p@),
                None => prefix_of_key(self@.key, level as int) is None,
            },
    {
        let key = self.key.as_str();
        let n = key.unicode_len();
        if level == 0 {
            let e = String::new();
            assert(e@ =~= Seq::<char>::empty());
            return Some(e);
        }
        let mut i: usize = 0;
        let mut seen: usize = 0;
        while i < n
            invariant
                0 <= i <= n,
                n == key@.len(),
                key@ == self@.key,
                seen <= i,
                level >= 1,
                count_char_s(key@.take(i as int), path_delim()) == seen,
                seen <= level - 1,
            decreases n - i,
        {
            let c = key.get_char(i);
            proof {
                assert(key@.take(i + 1) =~= key@.take(i as int).push(key@[i as int]));
                lemma_count_push(key@.take(i as int), path_delim(), key@[i as int]);
            }
            if c == path_delim_exec() {
                if seen == level - 1 {
                    proof {
                        lemma_nth_occ(key@, path_delim(), (level - 1) as nat, i as int);
                        assert(count_char_s(key@, path_delim()) > (level - 1) as nat);
                        assert(nth_occurrence_s(key@, path_delim(), (level - 1) as nat)
                            == i as int);
                    }
                    let p = key.substring_char(0, i + 1);
                    proof {
                        let dots = count_char_s(self@.key, path_delim()) as int;
                        assert(dots > level - 1);
                        assert(1 <= level as int <= dots);
                        assert(p@ =~= self@.key.subrange(
                            0,
                            nth_occurrence_s(self@.key, path_delim(), (level as int - 1) as nat)
                                + 1,
                        ));
                        assert(prefix_of_key(self@.key, level as int) == Some(p@));
                    }
                    return Some(p.to_owned());
                }
                seen = seen + 1;
            }
            i = i + 1;
        }
        proof {
            assert(key@.take(n as int) =~= key@);
        }
        if seen == level - 1 && n > 0 {
            // Terminal level: the whole key, no trailing delimiter.
            Some(self.key.clone())
        } else {
            None
        }
    }

    /// All defined prefixes of the key, from level 0 up.
    pub fn prefixes(&self) -> (r: Vec<String>)
        ensures
            forall|l: int|
                0 <= l < r.len() ==> prefix_of_key(self@.key, l) == Some(
                    #[trigger] r.deep_view()[l],
                ),
            prefix_of_key(self@.key, r.len() as int) is None,
    {
        let mut out: Vec<String> = Vec::new();
        let ghost dots = count_char_s(self.key@, path_delim());
        loop
            invariant
                dots == count_char_s(self@.key, path_delim()),
                forall|l: int|
                    0 <= l < out.len() ==> prefix_of_key(self@.key, l) == Some(
                        #[trigger] out.deep_view()[l],
                    ),
                out.len() <= dots + 2,
            decreases dots + 2 - out.len(),
        {
            match self.prefix(out.len()) {
                Some(p) => {
                    proof {
                        // A defined level is at most dots + 1.
                        assert(out.len() <= dots + 1);
                    }
                    let ghost prev = out.deep_view();
                    out.push(p);
                    proof {
                        assert(out.deep_view() =~= prev.push(p@));
                    }
                },
                None => {
                    return out;
                },
            }
        }
    }

    /// Removes the key prefix at `levels`, returning the residual line
    /// whose key is the unmatched suffix. Absent exactly when the prefix
    /// level is.
    pub fn strip(&self, levels: usize) -> (r: Option<KeyValue>)
        ensures
            match r {
                Some(kv) => spec_strip(self@, levels as int) == Some(kv@),
                None => spec_strip(self@, levels as int) is None,
            },
    {
        match self.prefix(levels) {
            None => None,
            Some(p) => {
                proof {
                    lemma_prefix_is_prefix(self@.key, levels as int);
                }
                let key = self.key.as_str().substring_char(
                    p.as_str().unicode_len(),
                    self.key.as_str().unicode_len(),
                );
                assert(key@ =~= self@.key.skip(p@.len() as int));
                Some(
                    KeyValue {
                        key: key.to_owned(),
                        value: self.value.clone(),
                        orig: self.orig.clone(),
                    },
                )
            },
        }
    }

    /// This line followed by its residuals at every defined level: the
    /// element at index `1 + l` is `strip(l)`, for each level `l` that has
    /// a prefix.
    pub fn levels(&self) -> (r: Vec<KeyValue>)
        ensures
            r.len() >= 1,
            r.deep_view()[0] == self@,
            forall|l: int|
                0 <= l < r.len() - 1 ==> spec_strip(self@, l) == Some(
                    #[trigger] r.deep_view()[1 + l],
                ),
            spec_strip(self@, r.len() - 1) is None,
    {
        let mut out: Vec<KeyValue> = Vec::new();
        out.push(self.clone());
        assert(out.deep_view()[0] == self@);
        let ghost dots = count_char_s(self.key@, path_delim());
        loop
            invariant
                dots == count_char_s(self@.key, path_delim()),
                1 <= out.len() <= dots + 3,
                out.deep_view()[0] == self@,
                forall|l: int|
                    0 <= l < out.len() - 1 ==> spec_strip(self@, l) == Some(
                        #[trigger] out.deep_view()[1 + l],
                    ),
            decreases dots + 3 - out.len(),
        {
            match self.strip(out.len() - 1) {
                Some(kv) => {
                    proof {
                        assert(out.len() - 1 <= dots + 1);
                    }
                    let ghost prev = out.deep_view();
                    out.push(kv);
                    proof {
                        assert(out.deep_view() =~= prev.push(kv@));
                    }
                },
                None => {
                    return out;
                },
            }
        }
    }
}

/// The path delimiter, as a character.
pub fn path_delim_exec() -> (r: char)
    ensures
        r == path_delim(),
{
    '.'
}

/// The key/value delimiter, as a character.
pub fn kv_delim_exec() -> (r: char)
    ensures
        r == kv_delim(),
{
    '='
}

} // verus!
