//! The children window: a cursor over a line sequence with a nesting depth
//! (the prefix level), a group prefix captured from the first line consumed
//! at that depth, and a one-line cache so that the line ending a group is
//! left pending for the enclosing caller — no line is ever lost or consumed
//! twice across depth changes.

use vstd::prelude::*;
use crate::error::DeserializerError;
use crate::line::{prefix_of_key, path_of_key, spec_parse, KeyValue};

verus! {

/// `a + b`, stopping at the largest `usize`.
pub open spec fn sat_add_s(a: int, b: int) -> int {
    if a + b > usize::MAX {
        usize::MAX as int
    } else {
        a + b
    }
}

/// Saturating addition on `usize`.
pub fn sat_add(a: usize, b: usize) -> (r: usize)
    ensures
        r as int == sat_add_s(a as int, b as int),
{
    if a > usize::MAX - b {
        usize::MAX
    } else {
        a + b
    }
}

/// The ghost state of a children window.
pub ghost struct WindowModel {
    /// The underlying line sequence.
    pub lines: Seq<Seq<char>>,
    /// How many lines were taken from the underlying sequence. The last
    /// taken line, if any, is the cached line.
    pub pos: int,
    /// The nesting depth: how many leading key segments the group prefix
    /// spans.
    pub level: int,
    /// The committed group prefix, if one was captured at this depth.
    pub prefix: Option<Seq<char>>,
    /// Start of the current line's character range (newlines included).
    /// Offsets count characters, not bytes; on ASCII text the two coincide.
    pub lo: int,
    /// End of the current line's character range (newlines included).
    pub hi: int,
}

/// The group prefix a line yields at `level`: the prefix of its parsed key.
pub open spec fn s_get_prefix(line: Seq<char>, level: int) -> Option<Seq<char>> {
    match spec_parse(line) {
        None => None,
        Some((k, _)) => prefix_of_key(k, level),
    }
}

/// The line `next` and `peek` would look at: a fresh line when there is no
/// cache or a prefix is committed, the cached line otherwise.
pub open spec fn s_current_line(m: WindowModel) -> Option<Seq<char>> {
    if m.pos == 0 || m.prefix is Some {
        if m.pos < m.lines.len() {
            Some(m.lines[m.pos])
        } else {
            None
        }
    } else {
        Some(m.lines[m.pos - 1])
    }
}

/// What stripping the (committed or derived) prefix from `line` yields.
pub open spec fn s_strip_with(prefix: Option<Seq<char>>, line: Seq<char>) -> Option<Seq<char>> {
    match prefix {
        None => None,
        Some(p) => if p.is_prefix_of(line) {
            Some(line.skip(p.len() as int))
        } else {
            None
        },
    }
}

/// What `peek` returns: the current line with the group prefix stripped,
/// deriving a prefix transiently when none is committed.
pub open spec fn s_peek(m: WindowModel) -> Option<Seq<char>> {
    match s_current_line(m) {
        None => None,
        Some(line) => {
            let pfx = if m.prefix is Some {
                m.prefix
            } else {
                s_get_prefix(line, m.level)
            };
            s_strip_with(pfx, line)
        },
    }
}

/// The state and result of one `next` call: advance (or reuse the cached
/// line when the prefix was invalidated), commit a prefix if none is
/// committed, and return the line with the prefix stripped. A line whose
/// derived prefix fails to strip ends the group and stays cached.
pub open spec fn s_next(m: WindowModel) -> (WindowModel, Option<Seq<char>>) {
    if m.pos == 0 || m.prefix is Some {
        if m.pos < m.lines.len() {
            let line = m.lines[m.pos];
            let hi1 = sat_add_s(m.hi, sat_add_s(line.len() as int, 1));
            let pfx = if m.prefix is Some {
                m.prefix
            } else {
                s_get_prefix(line, m.level)
            };
            let lo1 = match pfx {
                Some(p) => sat_add_s(m.hi, p.len() as int),
                None => m.hi,
            };
            (
                WindowModel { pos: m.pos + 1, prefix: pfx, lo: lo1, hi: hi1, ..m },
                s_strip_with(pfx, line),
            )
        } else {
            // The underlying sequence is exhausted; the offsets still move.
            (WindowModel { lo: m.hi, hi: sat_add_s(m.hi, 1), ..m }, None)
        }
    } else {
        // Reuse the cached line under the new depth.
        let line = m.lines[m.pos - 1];
        let pfx = s_get_prefix(line, m.level);
        let lo1 = match pfx {
            Some(p) => sat_add_s(m.lo, p.len() as int),
            None => m.lo,
        };
        (WindowModel { prefix: pfx, lo: lo1, ..m }, s_strip_with(pfx, line))
    }
}

/// The value node a stripped line carries: its first non-empty key segment
/// when the key has one, else its value text.
pub open spec fn s_value_of_line(line: Seq<char>) -> Option<Seq<char>> {
    match spec_parse(line) {
        None => None,
        Some((k, v)) => {
            let p = path_of_key(k);
            if p.len() > 0 {
                Some(p[0])
            } else {
                Some(v)
            }
        },
    }
}

/// A cursor over a line sequence that groups consecutive lines sharing a
/// key prefix at the current nesting depth.
pub struct LexerChildren {
    lines: Vec<String>,
    pos: usize,
    prefix: Option<String>,
    prefix_level: u8,
    off_start: usize,
    off_end: usize,
}

impl View for LexerChildren {
    type V = WindowModel;

    closed spec fn view(&self) -> WindowModel {
        WindowModel {
            lines: self.lines.deep_view(),
            pos: self.pos as int,
            level: self.prefix_level as int,
            prefix: match self.prefix {
                Some(ref p) => Some(p@),
                None => None,
            },
            lo: self.off_start as int,
            hi: self.off_end as int,
        }
    }
}

impl LexerChildren {
    /// The cursor has not run past the underlying sequence.
    pub open spec fn wf(&self) -> bool {
        0 <= self@.pos <= self@.lines.len()
    }

    /// A fresh window over `lines`, at depth 0, with nothing consumed.
    pub fn new(lines: Vec<String>) -> (r: LexerChildren)
        ensures
            r.wf(),
            r@.lines == lines.deep_view(),
            r@.pos == 0,
            r@.level == 0,
            r@.prefix is None,
            r@.lo == 0,
            r@.hi == 0,
    {
        LexerChildren {
            lines,
            pos: 0,
            prefix: None,
            prefix_level: 0,
            off_start: 0,
            off_end: 0,
        }
    }

    /// The current nesting depth.
    pub fn prefix_level(&self) -> (r: u8)
        ensures
            r as int == self@.level,
    {
        self.prefix_level
    }

    /// The character range of the line most recently taken from the
    /// underlying sequence, newline included, with the group prefix's
    /// width removed from its start. Offsets count characters, not bytes;
    /// on ASCII text the two coincide.
    pub fn byte_offset(&self) -> (r: (usize, usize))
        ensures
            r.0 as int == self@.lo,
            r.1 as int == self@.hi,
    {
        (self.off_start, self.off_end)
    }

    /// Changes the nesting depth and invalidates the captured group prefix,
    /// handing the old prefix back for the caller to restore later. The
    /// cached line stays; only its interpretation changes.
    pub fn set_prefix_level(&mut self, prefix_level: u8) -> (r: Option<String>)
        ensures
            final(self)@ == (WindowModel {
                level: prefix_level as int,
                prefix: None::<Seq<char>>,
                ..old(self)@
            }),
            r.deep_view() == old(self)@.prefix,
            old(self).wf() ==> final(self).wf(),
    {
        self.prefix_level = prefix_level;
        let mut out: Option<String> = None;
        core::mem::swap(&mut out, &mut self.prefix);
        out
    }

    /// `set_prefix_level`, chained on an owned window.
    pub fn with_prefix_level(self, prefix_level: u8) -> (r: LexerChildren)
        ensures
            r@ == (WindowModel {
                level: prefix_level as int,
                prefix: None::<Seq<char>>,
                ..self@
            }),
            self.wf() ==> r.wf(),
    {
        let mut this = self;
        this.set_prefix_level(prefix_level);
        this
    }

    /// Descends one nesting level; the depth saturates rather than
    /// overflowing its small counter.
    pub fn increment_prefix_level(&mut self) -> (r: Option<String>)
        ensures
            final(self)@ == (WindowModel {
                level: if old(self)@.level + 1 > u8::MAX {
                    u8::MAX as int
                } else {
                    old(self)@.level + 1
                },
                prefix: None::<Seq<char>>,
                ..old(self)@
            }),
            r.deep_view() == old(self)@.prefix,
            old(self).wf() ==> final(self).wf(),
    {
        let l = if self.prefix_level == u8::MAX {
            u8::MAX
        } else {
            self.prefix_level + 1
        };
        self.set_prefix_level(l)
    }

    /// Returns from one nesting level; the depth saturates at zero.
    pub fn decrement_prefix_level(&mut self) -> (r: Option<String>)
        ensures
            final(self)@ == (WindowModel {
                level: if old(self)@.level - 1 < 0 {
                    0
                } else {
                    old(self)@.level - 1
                },
                prefix: None::<Seq<char>>,
                ..old(self)@
            }),
            r.deep_view() == old(self)@.prefix,
            old(self).wf() ==> final(self).wf(),
    {
        let l = if self.prefix_level == 0 {
            0
        } else {
            self.prefix_level - 1
        };
        self.set_prefix_level(l)
    }

    /// The committed group prefix, if any.
    pub fn get_committed_prefix(&self) -> (r: Option<String>)
        ensures
            r.deep_view() == self@.prefix,
    {
        match &self.prefix {
            Some(p) => Some(p.clone()),
            None => None,
        }
    }

    /// The group prefix that line `s` yields at the current depth.
    pub fn get_prefix(&self, s: &str) -> (r: Option<String>)
        ensures
            r.deep_view() == s_get_prefix(s@, self@.level),
    {
        match KeyValue::new(s) {
            None => None,
            Some(kv) => kv.prefix(self.prefix_level as usize),
        }
    }

    /// Returns the current line's suffix after the group prefix, without
    /// advancing; derives a prefix transiently when none is committed.
    pub fn peek(&self) -> (r: Option<String>)
        requires
            self.wf(),
        ensures
            r.deep_view() == s_peek(self@),
    {
        let line: &String = if self.pos == 0 || self.prefix.is_some() {
            if self.pos < self.lines.len() {
                &self.lines[self.pos]
            } else {
                return None;
            }
        } else {
            &self.lines[self.pos - 1]
        };
        let pfx: Option<String> = match &self.prefix {
            Some(p) => Some(p.clone()),
            None => self.get_prefix(line.as_str()),
        };
        match pfx {
            None => None,
            Some(p) => crate::text::strip_prefix_of(line.as_str(), p.as_str()),
        }
    }

    /// Advances one line, as `s_next` describes: commits the group prefix
    /// from the first line consumed at this depth and returns the line with
    /// the prefix stripped; a line of another group ends the iteration and
    /// stays pending.
    pub fn next(&mut self) -> (r: Option<String>)
        requires
            old(self).wf(),
        ensures
            final(self).wf(),
            final(self)@ == s_next(old(self)@).0,
            r.deep_view() == s_next(old(self)@).1,
    {
        let line: String = if self.pos == 0 || self.prefix.is_some() {
            self.off_start = self.off_end;
            if self.pos < self.lines.len() {
                let l = self.lines[self.pos].clone();
                self.pos = self.pos + 1;
                self.off_end = sat_add(self.off_end, sat_add(l.as_str().unicode_len(), 1));
                l
            } else {
                self.off_end = sat_add(self.off_end, 1);
                return None;
            }
        } else {
            self.lines[self.pos - 1].clone()
        };
        if self.prefix.is_none() {
            self.prefix = self.get_prefix(line.as_str());
        }
        match &self.prefix {
            Some(p) => {
                self.off_start = sat_add(self.off_start, p.as_str().unicode_len());
                crate::text::strip_prefix_of(line.as_str(), p.as_str())
            },
            None => None,
        }
    }

    /// True once a prefix has been committed and nothing more falls under
    /// it: the group at this depth is exhausted.
    pub fn is_finished(&self) -> (r: bool)
        requires
            self.wf(),
        ensures
            r == (self@.pos > 0 && s_peek(self@) is None),
    {
        if self.pos == 0 {
            false
        } else {
            match self.peek() {
                None => true,
                Some(_) => false,
            }
        }
    }

    /// Consumes one line and returns its value node: the first key segment
    /// when the stripped key has one, else the value text. Fails when the
    /// group is exhausted or the line has no `=`.
    pub fn value(&mut self) -> (r: Result<String, DeserializerError>)
        requires
            old(self).wf(),
        ensures
            final(self).wf(),
            final(self)@ == s_next(old(self)@).0,
            match r {
                Ok(t) => {
                    &&& s_next(old(self)@).1 is Some
                    &&& s_value_of_line(s_next(old(self)@).1->Some_0) == Some(t@)
                },
                Err(e) => {
                    &&& e == DeserializerError::ExpectedValueNode
                    &&& match s_next(old(self)@).1 {
                        None => true,
                        Some(l) => s_value_of_line(l) is None,
                    }
                },
            },
    {
        let line = match self.next() {
            None => {
                return Err(DeserializerError::ExpectedValueNode);
            },
            Some(l) => l,
        };
        let kv = match KeyValue::new(line.as_str()) {
            None => {
                return Err(DeserializerError::ExpectedValueNode);
            },
            Some(kv) => kv,
        };
        let segs = kv.path();
        if segs.len() > 0 {
            let mut segs = segs;
            let first = segs.remove(0);
            Ok(first)
        } else {
            Ok(kv.value)
        }
    }

    /// Parses the current line without advancing. Fails when the group is
    /// exhausted or the line has no `=`.
    pub fn peek_key_value(&self) -> (r: Result<KeyValue, DeserializerError>)
        requires
            self.wf(),
        ensures
            match r {
                Ok(kv) => {
                    &&& s_peek(self@) is Some
                    &&& spec_parse(s_peek(self@)->Some_0) == Some((kv@.key, kv@.value))
                    &&& kv@.orig == s_peek(self@)->Some_0
                    &&& exists|a: int| crate::text::occurs_at(kv@.orig, kv@.key, a)
                    &&& exists|a: int| crate::text::occurs_at(kv@.orig, kv@.value, a)
                },
                Err(e) => {
                    &&& e == DeserializerError::ExpectedKeyValuePair
                    &&& match s_peek(self@) {
                        None => true,
                        Some(l) => spec_parse(l) is None,
                    }
                },
            },
    {
        match self.peek() {
            None => Err(DeserializerError::ExpectedKeyValuePair),
            Some(line) => match KeyValue::new(line.as_str()) {
                None => Err(DeserializerError::ExpectedKeyValuePair),
                Some(kv) => Ok(kv),
            },
        }
    }
}

/// No line is ever lost or consumed twice: one step of the window takes at
/// most one line from the underlying sequence, and the sequence and depth
/// themselves never change.
pub proof fn lemma_next_no_line_lost(m: WindowModel)
    ensures
        m.pos <= s_next(m).0.pos <= m.pos + 1,
        s_next(m).0.lines == m.lines,
        s_next(m).0.level == m.level,
{
}

} // verus!
