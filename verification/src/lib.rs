//! A streaming decoder for a line-oriented, flat `dotted.key = value` text
//! format. Each line names a path into a nested structure; nesting is
//! reconstructed from shared key prefixes across consecutive lines, in a
//! single pass with one line of lookahead.

pub mod atom;
pub mod decode;
pub mod error;
pub mod line;
pub mod text;
pub mod window;

use vstd::prelude::*;

verus! {

/// Character classified as whitespace when trimming keys and values.
pub open spec fn is_ws_char(c: char) -> bool {
    c == ' ' || c == '\t' || c == '\r' || c == '\n' || c == '\u{b}' || c == '\u{c}'
}

} // verus!
