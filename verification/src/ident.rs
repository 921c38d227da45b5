//! The one rule that section names, keys and values share.

use vstd::prelude::*;

verus! {

/// An identifier is a non-empty text without a space and without a semicolon.
pub open spec fn valid_identifier(s: Seq<char>) -> bool {
    s.len() > 0 && !s.contains(' ') && !s.contains(';')
}

/// The text of the error that an invalid identifier gives.
pub open spec fn not_valid_text() -> Seq<char> {
    "not valid"@
}

/// Whether `c` occurs in `s`.
pub fn has_char(s: &Vec<char>, c: char) -> (b: bool)
    ensures
        b == s@.contains(c),
{
    let mut i: usize = 0;
    while i < s.len()
        invariant
            i <= s.len(),
            forall|j: int| 0 <= j < i ==> s@[j] != c,
        decreases s.len() - i,
    {
        if s[i] == c {
            return true;
        }
        i += 1;
    }
    false
}

/// Accepts `s` as a section name, key or value exactly when it is a valid
/// identifier; otherwise the error reads `not valid`.
pub fn validate(s: &String) -> (res: Result<(), &'static str>)
    ensures
        res is Ok <==> valid_identifier(s@),
        res is Err ==> res->Err_0@ == not_valid_text(),
{
    let chars = crate::text::chars_of(s.as_str());
    if chars.len() == 0 || has_char(&chars, ' ') || has_char(&chars, ';') {
        return Err("not valid");
    }
    Ok(())
}

} // verus!
