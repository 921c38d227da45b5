//! Laws of the document operations and of reading, stated over the models
//! that the contracts use.

use vstd::prelude::*;
use crate::document::{
    after_add_key_val, after_add_section, all_identifiers_valid, default_section,
    resolved_section, valid_pair,
};
use crate::ident::valid_identifier;
use crate::ingest::{ingest, run, step, Fault};
use crate::line::{classify, LineKind};
use crate::text::{
    is_whitespace, lemma_position, lemma_trim_start, lines, position, strip_brackets, trim_end,
    trim_start, CharClass,
};

verus! {

/// The name `default` is a valid identifier, so a pair that names no section
/// is refused only for its key or its value.
pub proof fn lemma_default_section_valid()
    ensures
        valid_identifier(default_section()),
        default_section().len() == 7,
{
    reveal_strlit("default");
    let s = default_section();
    assert(s.len() == 7);
    assert(s[0] == 'd' && s[1] == 'e' && s[2] == 'f' && s[3] == 'a' && s[4] == 'u' && s[5] == 'l'
        && s[6] == 't');
}

/// In a document whose names are all valid, the section `name` is there
/// after it was added exactly when `name` is valid, and it is then empty.
pub proof fn law_add_section_membership(
    doc: Map<Seq<char>, Map<Seq<char>, Seq<char>>>,
    name: Seq<char>,
)
    requires
        all_identifiers_valid(doc),
    ensures
        after_add_section(doc, name).contains_key(name) <==> valid_identifier(name),
        valid_identifier(name) ==> after_add_section(doc, name)[name] == Map::<
            Seq<char>,
            Seq<char>,
        >::empty(),
        all_identifiers_valid(after_add_section(doc, name)),
{
}

/// Adding a section again empties it: after a section was added, given a
/// key, and added once more, it is there and holds nothing.
pub proof fn law_readd_resets(
    doc: Map<Seq<char>, Map<Seq<char>, Seq<char>>>,
    name: Seq<char>,
    key: Seq<char>,
    value: Seq<char>,
)
    requires
        valid_identifier(name),
    ensures
        ({
            let filled = after_add_key_val(after_add_section(doc, name), name, key, value);
            let again = after_add_section(filled, name);
            again.contains_key(name) && again[name] == Map::<Seq<char>, Seq<char>>::empty()
        }),
{
}

/// A valid pair is found in its section afterwards, and the other sections
/// are as they were.
pub proof fn law_pair_is_stored(
    doc: Map<Seq<char>, Map<Seq<char>, Seq<char>>>,
    section: Seq<char>,
    key: Seq<char>,
    value: Seq<char>,
)
    requires
        valid_pair(section, key, value),
    ensures
        ({
            let after = after_add_key_val(doc, section, key, value);
            &&& after.contains_key(section)
            &&& after[section].contains_key(key)
            &&& after[section][key] == value
            &&& forall|other: Seq<char>|
                other != section ==> after.contains_key(other) == doc.contains_key(other) && (
                doc.contains_key(other) ==> after[other] == doc[other])
        }),
{
}

/// A pair that names no section goes to the section `default`.
pub proof fn law_pair_without_section(
    doc: Map<Seq<char>, Map<Seq<char>, Seq<char>>>,
    key: Seq<char>,
    value: Seq<char>,
)
    requires
        valid_identifier(key),
        valid_identifier(value),
    ensures
        ({
            let after = after_add_key_val(doc, resolved_section(None), key, value);
            &&& after.contains_key(default_section())
            &&& after[default_section()].contains_key(key)
            &&& after[default_section()][key] == value
        }),
{
    lemma_default_section_valid();
}

/// A text that is empty or holds a space is no valid identifier.
pub open spec fn empty_or_spaced(s: Seq<char>) -> bool {
    s.len() == 0 || s.contains(' ')
}

/// A pair whose section name, key or value is empty or holds a space is
/// refused, and the document stays as it was.
pub proof fn law_bad_pair_changes_nothing(
    doc: Map<Seq<char>, Map<Seq<char>, Seq<char>>>,
    section: Seq<char>,
    key: Seq<char>,
    value: Seq<char>,
)
    requires
        empty_or_spaced(section) || empty_or_spaced(key) || empty_or_spaced(value),
    ensures
        !valid_pair(section, key, value),
        after_add_key_val(doc, section, key, value) == doc,
{
}

/// Setting a key twice keeps the second value, adds no second key, and
/// leaves every other key of the section as it was.
pub proof fn law_overwrite_keeps_others(
    doc: Map<Seq<char>, Map<Seq<char>, Seq<char>>>,
    section: Seq<char>,
    key: Seq<char>,
    first: Seq<char>,
    second: Seq<char>,
)
    requires
        valid_pair(section, key, first),
        valid_identifier(second),
    ensures
        ({
            let once = after_add_key_val(doc, section, key, first);
            let twice = after_add_key_val(once, section, key, second);
            &&& twice[section][key] == second
            &&& twice[section].dom() == once[section].dom()
            &&& forall|other: Seq<char>|
                other != key && doc.contains_key(section) && doc[section].contains_key(other)
                    ==> twice[section].contains_key(other) && twice[section][other]
                    == doc[section][other]
        }),
{
    let once = after_add_key_val(doc, section, key, first);
    let twice = after_add_key_val(once, section, key, second);
    assert(twice[section].dom() =~= once[section].dom());
}

/// Lines that are all blank leave the document as it was, whatever the
/// current section.
pub proof fn lemma_blank_rows(
    doc: Map<Seq<char>, Map<Seq<char>, Seq<char>>>,
    current: Seq<char>,
    rows: Seq<Seq<char>>,
)
    requires
        forall|i: int| 0 <= i < rows.len() ==> classify(#[trigger] rows[i]) is Blank,
    ensures
        run(doc, current, rows) == (doc, None::<Fault>),
    decreases rows.len(),
{
    if rows.len() > 0 {
        let rest = rows.drop_first();
        assert(classify(rows[0]) is Blank);
        assert forall|i: int| 0 <= i < rest.len() implies classify(#[trigger] rest[i]) is Blank by {
            assert(rest[i] == rows[i + 1]);
        }
        lemma_blank_rows(doc, current, rest);
    }
}

/// Reading a text whose lines are all blank, the empty text among them,
/// succeeds and leaves the document as it was: not even an empty `default`
/// is added.
pub proof fn law_blank_text_changes_nothing(
    doc: Map<Seq<char>, Map<Seq<char>, Seq<char>>>,
    text: Seq<char>,
)
    requires
        forall|i: int| 0 <= i < lines(text).len() ==> classify(#[trigger] lines(text)[i]) is Blank,
    ensures
        ingest(doc, text) == (doc, None::<Fault>),
{
    lemma_blank_rows(doc, default_section(), lines(text));
}

/// A line of whitespace alone is blank.
pub proof fn lemma_whitespace_line_is_blank(line: Seq<char>)
    requires
        forall|i: int| 0 <= i < line.len() ==> is_whitespace(#[trigger] line[i]),
    ensures
        classify(line) is Blank,
{
    lemma_trim_start(line, CharClass::Whitespace, line.len() as int);
    assert(line.skip(line.len() as int) =~= Seq::empty());
}

/// A text of whitespace alone has only blank lines.
pub proof fn lemma_whitespace_lines_are_blank(text: Seq<char>)
    requires
        forall|i: int| 0 <= i < text.len() ==> is_whitespace(#[trigger] text[i]),
    ensures
        forall|i: int| 0 <= i < lines(text).len() ==> classify(#[trigger] lines(text)[i]) is Blank,
    decreases text.len(),
{
    if text.len() > 0 {
        let n = position(text, '\n');
        lemma_position(text, '\n');
        if n < text.len() {
            let first = text.take(n);
            let rest = text.skip(n + 1);
            lemma_whitespace_line_is_blank(first);
            assert forall|i: int| 0 <= i < rest.len() implies is_whitespace(#[trigger] rest[i]) by {
                assert(rest[i] == text[i + n + 1]);
            }
            lemma_whitespace_lines_are_blank(rest);
            assert forall|i: int| 0 <= i < lines(text).len() implies classify(
                #[trigger] lines(text)[i],
            ) is Blank by {
                if i > 0 {
                    assert(lines(text)[i] == lines(rest)[i - 1]);
                }
            }
        } else {
            lemma_whitespace_line_is_blank(text);
        }
    }
}

/// Reading a text of whitespace alone succeeds and leaves the document as it
/// was.
pub proof fn law_whitespace_text_changes_nothing(
    doc: Map<Seq<char>, Map<Seq<char>, Seq<char>>>,
    text: Seq<char>,
)
    requires
        forall|i: int| 0 <= i < text.len() ==> is_whitespace(#[trigger] text[i]),
    ensures
        ingest(doc, text) == (doc, None::<Fault>),
{
    lemma_whitespace_lines_are_blank(text);
    law_blank_text_changes_nothing(doc, text);
}

/// Once a line has failed, the lines after it are not read: more lines at
/// the end change neither the document nor the fault.
pub proof fn law_reading_stops_at_first_fault(
    doc: Map<Seq<char>, Map<Seq<char>, Seq<char>>>,
    current: Seq<char>,
    rows: Seq<Seq<char>>,
    more: Seq<Seq<char>>,
)
    requires
        run(doc, current, rows).1 is Some,
    ensures
        run(doc, current, rows + more) == run(doc, current, rows),
    decreases rows.len(),
{
    if rows.len() > 0 {
        let s = step(doc, current, classify(rows[0]));
        assert((rows + more)[0] == rows[0]);
        assert((rows + more).drop_first() =~= rows.drop_first() + more);
        if s.fault is None {
            law_reading_stops_at_first_fault(s.doc, s.current, rows.drop_first(), more);
        }
    }
}

/// What is left after trimming at the front is the end of the text, and
/// does not start with a character of the class.
pub proof fn lemma_trim_start_bare(s: Seq<char>, class: CharClass)
    ensures
        trim_start(s, class).len() <= s.len(),
        trim_start(s, class) == s.skip(s.len() - trim_start(s, class).len()),
        trim_start(s, class).len() > 0 ==> !class.holds(trim_start(s, class)[0]),
    decreases s.len(),
{
    if s.len() > 0 && class.holds(s[0]) {
        let t = s.drop_first();
        lemma_trim_start_bare(t, class);
        let r = trim_start(t, class);
        assert(t.skip(t.len() - r.len()) =~= s.skip(s.len() - r.len()));
    } else {
        assert(s.skip(0) =~= s);
    }
}

/// What is left after trimming at the end is the start of the text, and
/// does not end with a character of the class.
pub proof fn lemma_trim_end_bare(s: Seq<char>, class: CharClass)
    ensures
        trim_end(s, class).len() <= s.len(),
        trim_end(s, class) == s.take(trim_end(s, class).len() as int),
        trim_end(s, class).len() > 0 ==> !class.holds(trim_end(s, class).last()),
    decreases s.len(),
{
    if s.len() > 0 && class.holds(s.last()) {
        let t = s.drop_last();
        lemma_trim_end_bare(t, class);
        let r = trim_end(t, class);
        assert(t.take(r.len() as int) =~= s.take(r.len() as int));
    } else {
        assert(s.take(s.len() as int) =~= s);
    }
}

/// A section name taken from a header has lost every bracket of the run at
/// either end: it neither starts with `[` nor ends with `]`.
pub proof fn law_brackets_all_stripped(line: Seq<char>)
    ensures
        strip_brackets(line).len() > 0 ==> strip_brackets(line)[0] != '[' && strip_brackets(
            line,
        ).last() != ']',
{
    let t = trim_start(line, CharClass::Opening);
    lemma_trim_start_bare(line, CharClass::Opening);
    lemma_trim_end_bare(t, CharClass::Closing);
}

/// Reading keeps every name, key and value of the document valid, also when
/// it ends with a fault.
pub proof fn law_reading_keeps_identifiers_valid(
    doc: Map<Seq<char>, Map<Seq<char>, Seq<char>>>,
    current: Seq<char>,
    rows: Seq<Seq<char>>,
)
    requires
        all_identifiers_valid(doc),
    ensures
        all_identifiers_valid(run(doc, current, rows).0),
    decreases rows.len(),
{
    if rows.len() > 0 {
        let kind = classify(rows[0]);
        let s = step(doc, current, kind);
        match kind {
            LineKind::Blank => {},
            LineKind::Header { name } => {
                law_add_section_membership(doc, name);
            },
            LineKind::Pair { key, value } => {
                lemma_pair_keeps_valid(doc, current, key, value);
            },
            LineKind::Malformed => {},
        }
        if s.fault is None {
            law_reading_keeps_identifiers_valid(s.doc, s.current, rows.drop_first());
        }
    }
}

/// Setting a pair keeps every name, key and value of the document valid.
pub proof fn lemma_pair_keeps_valid(
    doc: Map<Seq<char>, Map<Seq<char>, Seq<char>>>,
    section: Seq<char>,
    key: Seq<char>,
    value: Seq<char>,
)
    requires
        all_identifiers_valid(doc),
    ensures
        all_identifiers_valid(after_add_key_val(doc, section, key, value)),
{
    let after = after_add_key_val(doc, section, key, value);
    if valid_pair(section, key, value) {
        assert forall|s: Seq<char>| #[trigger] after.contains_key(s) implies {
            &&& valid_identifier(s)
            &&& forall|k: Seq<char>| #[trigger]
                after[s].contains_key(k) ==> valid_identifier(k) && valid_identifier(after[s][k])
        } by {
            if s == section {
                assert forall|k: Seq<char>| #[trigger] after[s].contains_key(k) implies valid_identifier(
                    k,
                ) && valid_identifier(after[s][k]) by {
                    if k != key {
                        assert(doc.contains_key(s));
                        assert(doc[s].contains_key(k));
                    }
                }
            } else {
                assert(doc.contains_key(s));
            }
        }
    }
}

} // verus!
