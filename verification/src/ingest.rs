//! Reading a whole text into a document, line by line.

use vstd::prelude::*;
use crate::document::{after_add_key_val, after_add_section, default_section, valid_pair, Parser};
use crate::ident::{not_valid_text, valid_identifier};
use crate::line::{classify, classify_line, Line, LineKind};
use crate::text::{chars_of, find_char, lines, position, slice};

verus! {

/// Why reading stopped.
pub enum Fault {
    /// A section name, a key or a value is no valid identifier.
    NotValid,
    /// A line is neither blank, nor a header, nor a pair.
    InvalidSyntax,
}

impl Fault {
    /// The text of the error that reports the fault.
    pub open spec fn text(self) -> Seq<char> {
        match self {
            Fault::NotValid => not_valid_text(),
            Fault::InvalidSyntax => "invalid syntax"@,
        }
    }
}

/// The state of a reading after one line: the document, the section that
/// pairs go to, and the fault if the line stopped the reading.
pub struct Step {
    pub doc: Map<Seq<char>, Map<Seq<char>, Seq<char>>>,
    pub current: Seq<char>,
    pub fault: Option<Fault>,
}

/// What one line does. A header makes its name the current section and adds
/// the section, empty. A pair is set in the current section. A blank line
/// does nothing. A line that fails leaves the document as it was.
pub open spec fn step(
    doc: Map<Seq<char>, Map<Seq<char>, Seq<char>>>,
    current: Seq<char>,
    kind: LineKind,
) -> Step {
    match kind {
        LineKind::Blank => Step { doc, current, fault: None },
        LineKind::Header { name } => Step {
            doc: after_add_section(doc, name),
            current: name,
            fault: if valid_identifier(name) {
                None
            } else {
                Some(Fault::NotValid)
            },
        },
        LineKind::Pair { key, value } => Step {
            doc: after_add_key_val(doc, current, key, value),
            current,
            fault: if valid_pair(current, key, value) {
                None
            } else {
                Some(Fault::NotValid)
            },
        },
        LineKind::Malformed => Step { doc, current, fault: Some(Fault::InvalidSyntax) },
    }
}

/// What a sequence of lines does, in order. The first line that fails ends
/// the reading; what the lines before it did stays.
pub open spec fn run(
    doc: Map<Seq<char>, Map<Seq<char>, Seq<char>>>,
    current: Seq<char>,
    rows: Seq<Seq<char>>,
) -> (Map<Seq<char>, Map<Seq<char>, Seq<char>>>, Option<Fault>)
    decreases rows.len(),
{
    if rows.len() == 0 {
        (doc, None)
    } else {
        let s = step(doc, current, classify(rows[0]));
        if s.fault is Some {
            (s.doc, s.fault)
        } else {
            run(s.doc, s.current, rows.drop_first())
        }
    }
}

/// What reading `text` makes of `doc`, and the fault that ended the reading,
/// if any. Each reading starts in the section `default`.
pub open spec fn ingest(doc: Map<Seq<char>, Map<Seq<char>, Seq<char>>>, text: Seq<char>) -> (
    Map<Seq<char>, Map<Seq<char>, Seq<char>>>,
    Option<Fault>,
) {
    run(doc, default_section(), lines(text))
}

/// Whether `res` reports `fault`: success for none, else the fault's text.
pub open spec fn reports(res: Result<(), &'static str>, fault: Option<Fault>) -> bool {
    match fault {
        None => res is Ok,
        Some(f) => res is Err && res->Err_0@ == f.text(),
    }
}

impl Parser {
    /// Applies one line to the document. `current` is the section that pairs
    /// go to; the result is that section after the line.
    pub fn apply_line(&mut self, current: String, line: &str) -> (res: Result<String, &'static str>)
        requires
            old(self).wf(),
        ensures
            final(self).wf(),
            final(self)@ == step(old(self)@, current@, classify(line@)).doc,
            match step(old(self)@, current@, classify(line@)).fault {
                None => res is Ok && res->Ok_0@ == step(
                    old(self)@,
                    current@,
                    classify(line@),
                ).current,
                Some(f) => res is Err && res->Err_0@ == f.text(),
            },
    {
        match classify_line(line) {
            Line::Blank => Ok(current),
            Line::Header(name) => {
                match self.add_section(&name) {
                    Err(e) => Err(e),
                    Ok(()) => Ok(name),
                }
            },
            Line::Pair(key, value) => {
                let section = current.clone();
                match self.add_key_val(key, value, Some(section)) {
                    Err(e) => Err(e),
                    Ok(()) => Ok(current),
                }
            },
            Line::Malformed => Err("invalid syntax"),
        }
    }

    /// Reads `text` into the document, line by line, starting in the section
    /// `default`. The first line that fails ends the reading with its error,
    /// `not valid` or `invalid syntax`; what the lines before it did stays.
    pub fn read_from_string(&mut self, text: String) -> (res: Result<(), &'static str>)
        requires
            old(self).wf(),
        ensures
            final(self).wf(),
            final(self)@ == ingest(old(self)@, text@).0,
            reports(res, ingest(old(self)@, text@).1),
    {
        let whole = text.as_str();
        let ascii = whole.is_ascii();
        let chars = chars_of(whole);
        let n = chars.len();
        let mut current = "default".to_owned();
        let mut start: usize = 0;
        assert(text@.skip(0) =~= text@);
        while start < n
            invariant
                self.wf(),
                start <= n,
                n == chars.len(),
                chars@ == text@,
                whole@ == text@,
                ascii ==> vstd::string::is_ascii(whole),
                run(self@, current@, lines(text@.skip(start as int))) == ingest(old(self)@, text@),
            decreases n - start,
        {
            let end = find_char(&chars, '\n', start);
            let line = slice(whole, ascii, start, end);
            let ghost rest = text@.skip(start as int);
            let ghost doc = self@;
            let ghost section = current@;
            proof {
                assert(rest.take(position(rest, '\n')) =~= line@);
                if end < n {
                    assert(rest.skip(end - start + 1) =~= text@.skip(end + 1));
                    assert(lines(rest).drop_first() =~= lines(text@.skip(end + 1)));
                } else {
                    assert(rest.take(position(rest, '\n')) =~= rest);
                    assert(lines(rest).drop_first() =~= Seq::empty());
                    assert(text@.skip(n as int) =~= Seq::empty());
                }
                assert(lines(rest)[0] == line@);
            }
            match self.apply_line(current, line) {
                Err(e) => {
                    return Err(e);
                },
                Ok(next) => {
                    current = next;
                },
            }
            start = if end < n {
                end + 1
            } else {
                n
            };
        }
        assert(text@.skip(n as int) =~= Seq::empty());
        Ok(())
    }
}

} // verus!
