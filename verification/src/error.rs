//! Error types shared by the line model, the atom decoder and the
//! structural decoder.

use vstd::prelude::*;

verus! {

/// A half-open character range `start..end` into some source text, used to
/// point diagnostics at the offending token. Offsets count characters, not
/// bytes; on ASCII text the two coincide.
#[derive(Debug, Clone, Copy, PartialEq, Eq)]
pub struct Span {
    pub start: usize,
    pub end: usize,
}

impl Span {
    pub fn new(start: usize, end: usize) -> (r: Span)
        ensures
            r.start == start,
            r.end == end,
    {
        Span { start, end }
    }
}

/// A line of input that is not a `key = value` record at all.
#[derive(Debug, Default, Clone, PartialEq, Eq)]
pub struct ParseError {
    pub line_num: usize,
    pub line: String,
}

/// The ghost shape of a `ParseError`.
pub ghost struct ParseErrModel {
    pub line_num: int,
    pub line: Seq<char>,
}

impl View for ParseError {
    type V = ParseErrModel;

    open spec fn view(&self) -> ParseErrModel {
        ParseErrModel { line_num: self.line_num as int, line: self.line@ }
    }
}

/// An error raised while decoding a line stream into a structured value.
#[derive(Debug, Clone, PartialEq, Eq)]
pub enum DeserializerError {
    /// A line could not be read as a record.
    ParseError(ParseError),
    /// A `key = value` pair was expected but the current line has none.
    ExpectedKeyValuePair,
    /// A value node was expected, but the stream is exhausted or malformed.
    ExpectedValueNode,
    /// A key node was expected, but a value stood in its place.
    ExpectedKeyNode,
    /// A sequence was requested, but the path segment at this depth is not
    /// all-digit index text.
    ExpectedSequenece { unexpected: Span },
    /// A scalar failed to match its expected literal form.
    ParseAtomError(crate::atom::ParseAtomError),
    /// A message-carrying escape hatch for shape-specific validation.
    Custom(String),
}

/// The ghost shape of a `DeserializerError`.
pub ghost enum ErrModel {
    Parse(ParseErrModel),
    ExpectedKeyValuePair,
    ExpectedValueNode,
    ExpectedKeyNode,
    ExpectedSequenece(Span),
    Atom(crate::atom::AtomErrModel),
    Custom(Seq<char>),
}

impl View for DeserializerError {
    type V = ErrModel;

    open spec fn view(&self) -> ErrModel {
        match self {
            DeserializerError::ParseError(p) => ErrModel::Parse(p@),
            DeserializerError::ExpectedKeyValuePair => ErrModel::ExpectedKeyValuePair,
            DeserializerError::ExpectedValueNode => ErrModel::ExpectedValueNode,
            DeserializerError::ExpectedKeyNode => ErrModel::ExpectedKeyNode,
            DeserializerError::ExpectedSequenece { unexpected } => ErrModel::ExpectedSequenece(
                *unexpected,
            ),
            DeserializerError::ParseAtomError(e) => ErrModel::Atom(e@),
            DeserializerError::Custom(m) => ErrModel::Custom(m@),
        }
    }
}

} // verus!
