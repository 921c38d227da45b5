//! One line of the format: blank, a section header, a `key=value` pair, or
//! malformed.

use vstd::prelude::*;
use crate::text::{
    chars_of, count_char, find_char, leading, lemma_position, occurrences, position, slice,
    strip_brackets, trailing, trim, CharClass,
};

verus! {

/// What a line says, as mathematical values.
pub enum LineKind {
    /// Nothing but whitespace.
    Blank,
    /// A section header, with the name inside the brackets.
    Header { name: Seq<char> },
    /// A pair, with the texts before and after the `=`.
    Pair { key: Seq<char>, value: Seq<char> },
    /// Anything else.
    Malformed,
}

/// What a line says.
#[derive(Debug)]
pub enum Line {
    /// Nothing but whitespace.
    Blank,
    /// A section header, with the name inside the brackets.
    Header(String),
    /// A pair, with the texts before and after the `=`.
    Pair(String, String),
    /// Anything else.
    Malformed,
}

impl View for Line {
    type V = LineKind;

    open spec fn view(&self) -> LineKind {
        match self {
            Line::Blank => LineKind::Blank,
            Line::Header(name) => LineKind::Header { name: name@ },
            Line::Pair(key, value) => LineKind::Pair { key: key@, value: value@ },
            Line::Malformed => LineKind::Malformed,
        }
    }
}

/// A header starts with `[` and ends with `]`.
pub open spec fn is_header(line: Seq<char>) -> bool {
    line.len() > 0 && line.first() == '[' && line.last() == ']'
}

/// A pair holds exactly one `=`.
pub open spec fn is_pair(line: Seq<char>) -> bool {
    occurrences(line, '=') == 1
}

/// The meaning of a line. The line is trimmed of surrounding whitespace
/// first; then the shapes are tried in this order: blank, header, pair. The
/// key and the value of a pair are taken as they stand, untrimmed.
pub open spec fn classify(line: Seq<char>) -> LineKind {
    let t = trim(line);
    if t.len() == 0 {
        LineKind::Blank
    } else if is_header(t) {
        LineKind::Header { name: strip_brackets(t) }
    } else if is_pair(t) {
        LineKind::Pair { key: t.take(position(t, '=')), value: t.skip(position(t, '=') + 1) }
    } else {
        LineKind::Malformed
    }
}

fn header_shape(chars: &Vec<char>) -> (b: bool)
    ensures
        b == is_header(chars@),
{
    chars.len() > 0 && chars[0] == '[' && chars[chars.len() - 1] == ']'
}

/// Whether `line` has the shape of a section header.
pub fn is_section(line: &str) -> (b: bool)
    ensures
        b == is_header(line@),
{
    let chars = chars_of(line);
    header_shape(&chars)
}

/// Whether `line` has the shape of a pair.
pub fn is_key_val(line: &str) -> (b: bool)
    ensures
        b == is_pair(line@),
{
    let chars = chars_of(line);
    count_char(&chars, '=') == 1
}

/// Reads one line.
pub fn classify_line(line: &str) -> (r: Line)
    ensures
        r@ == classify(line@),
{
    let ascii = line.is_ascii();
    let raw = chars_of(line);
    let a = leading(&raw, CharClass::Whitespace);
    let b = trailing(&raw, CharClass::Whitespace, a);
    let trimmed = slice(line, ascii, a, b);
    assert(trimmed@ == trim(line@));
    let chars = chars_of(trimmed);
    if chars.len() == 0 {
        Line::Blank
    } else if header_shape(&chars) {
        let c = leading(&chars, CharClass::Opening);
        let d = trailing(&chars, CharClass::Closing, c);
        Line::Header(slice(trimmed, ascii, c, d).to_owned())
    } else if count_char(&chars, '=') == 1 {
        let i = find_char(&chars, '=', 0);
        proof {
            assert(chars@.skip(0) =~= chars@);
            lemma_position(chars@, '=');
            lemma_occurs(chars@, '=');
        }
        let key = slice(trimmed, ascii, 0, i).to_owned();
        let value = slice(trimmed, ascii, i + 1, chars.len()).to_owned();
        Line::Pair(key, value)
    } else {
        Line::Malformed
    }
}

/// A character that occurs at least once is contained in the sequence.
pub proof fn lemma_occurs(s: Seq<char>, c: char)
    ensures
        occurrences(s, c) > 0 <==> s.contains(c),
    decreases s.len(),
{
    if s.len() > 0 {
        let t = s.drop_last();
        lemma_occurs(t, c);
        if t.contains(c) {
            let i = choose|i: int| 0 <= i < t.len() && t[i] == c;
            assert(s[i] == c);
        }
        if s.contains(c) && s.last() != c {
            let i = choose|i: int| 0 <= i < s.len() && s[i] == c;
            assert(t[i] == c);
        }
    }
}

} // verus!
