//! Sequences of characters: whitespace, trimming, searching, and the split
//! of a text into lines.

use vstd::prelude::*;

verus! {

/// The characters that carry the Unicode `White_Space` property.
pub open spec fn is_whitespace(c: char) -> bool {
    let n = c as u32;
    ||| 0x09 <= n <= 0x0d
    ||| n == 0x20
    ||| n == 0x85
    ||| n == 0xa0
    ||| n == 0x1680
    ||| 0x2000 <= n <= 0x200a
    ||| n == 0x2028
    ||| n == 0x2029
    ||| n == 0x202f
    ||| n == 0x205f
    ||| n == 0x3000
}

/// A class of characters that can be trimmed from the ends of a text.
#[derive(Clone, Copy, Debug)]
pub enum CharClass {
    /// Unicode whitespace.
    Whitespace,
    /// The opening bracket `[`.
    Opening,
    /// The closing bracket `]`.
    Closing,
}

impl CharClass {
    /// Whether `c` belongs to the class.
    pub open spec fn holds(self, c: char) -> bool {
        match self {
            CharClass::Whitespace => is_whitespace(c),
            CharClass::Opening => c == '[',
            CharClass::Closing => c == ']',
        }
    }

    /// Whether `c` belongs to the class.
    pub fn test(self, c: char) -> (b: bool)
        ensures
            b == self.holds(c),
    {
        match self {
            CharClass::Whitespace => char_is_whitespace(c),
            CharClass::Opening => c == '[',
            CharClass::Closing => c == ']',
        }
    }
}

/// `s` without its longest prefix of characters of `class`.
pub open spec fn trim_start(s: Seq<char>, class: CharClass) -> Seq<char>
    decreases s.len(),
{
    if s.len() > 0 && class.holds(s[0]) {
        trim_start(s.drop_first(), class)
    } else {
        s
    }
}

/// `s` without its longest suffix of characters of `class`.
pub open spec fn trim_end(s: Seq<char>, class: CharClass) -> Seq<char>
    decreases s.len(),
{
    if s.len() > 0 && class.holds(s.last()) {
        trim_end(s.drop_last(), class)
    } else {
        s
    }
}

/// `s` without surrounding whitespace.
pub open spec fn trim(s: Seq<char>) -> Seq<char> {
    trim_end(trim_start(s, CharClass::Whitespace), CharClass::Whitespace)
}

/// `s` without any leading `[` and, after that, without any trailing `]`:
/// every bracket of a run goes, not only the outermost.
pub open spec fn strip_brackets(s: Seq<char>) -> Seq<char> {
    trim_end(trim_start(s, CharClass::Opening), CharClass::Closing)
}

/// The index of the first `c` in `s`, or the length of `s` if there is none.
pub open spec fn position(s: Seq<char>, c: char) -> int
    decreases s.len(),
{
    if s.len() == 0 || s[0] == c {
        0
    } else {
        1 + position(s.drop_first(), c)
    }
}

/// How often `c` occurs in `s`.
pub open spec fn occurrences(s: Seq<char>, c: char) -> nat
    decreases s.len(),
{
    if s.len() == 0 {
        0
    } else {
        occurrences(s.drop_last(), c) + if s.last() == c { 1nat } else { 0nat }
    }
}

/// The lines of `s`: the pieces between line feeds. A line feed at the very
/// end opens no further line, and the empty text has no line at all. A
/// carriage return before a line feed stays in its line: it is whitespace,
/// and goes when the line is trimmed.
pub open spec fn lines(s: Seq<char>) -> Seq<Seq<char>>
    decreases s.len(),
{
    if s.len() == 0 {
        Seq::empty()
    } else {
        let n = position(s, '\n');
        if 0 <= n < s.len() {
            seq![s.take(n)] + lines(s.skip(n + 1))
        } else {
            seq![s]
        }
    }
}

/// `position` stays within the sequence, nothing before it is `c`, and it
/// points at a `c` unless it is the length.
pub proof fn lemma_position(s: Seq<char>, c: char)
    ensures
        0 <= position(s, c) <= s.len(),
        forall|i: int| 0 <= i < position(s, c) ==> s[i] != c,
        position(s, c) < s.len() ==> s[position(s, c)] == c,
        position(s, c) == s.len() <==> !s.contains(c),
    decreases s.len(),
{
    if s.len() == 0 || s[0] == c {
    } else {
        let t = s.drop_first();
        lemma_position(t, c);
        assert forall|i: int| 0 <= i < position(s, c) implies s[i] != c by {
            if i > 0 {
                assert(s[i] == t[i - 1]);
            }
        }
        if position(s, c) < s.len() {
            assert(s[position(s, c)] == t[position(t, c)]);
        }
        if s.contains(c) {
            let j = choose|j: int| 0 <= j < s.len() && s[j] == c;
            assert(t[j - 1] == c);
        }
    }
}

/// An index `k` before which nothing is `c`, and which holds `c` or is the
/// length, is the `position` of `c`.
pub proof fn lemma_position_is(s: Seq<char>, c: char, k: int)
    requires
        0 <= k <= s.len(),
        forall|i: int| 0 <= i < k ==> s[i] != c,
        k < s.len() ==> s[k] == c,
    ensures
        position(s, c) == k,
{
    lemma_position(s, c);
    let p = position(s, c);
    if p < k {
    } else if k < p {
    }
}

/// Trimming at the front leaves the part from `a` on, where `a` is the first
/// index whose character fails `p`.
pub proof fn lemma_trim_start(s: Seq<char>, p: CharClass, a: int)
    requires
        0 <= a <= s.len(),
        forall|i: int| 0 <= i < a ==> p.holds(#[trigger] s[i]),
        a < s.len() ==> !p.holds(s[a]),
    ensures
        trim_start(s, p) == s.skip(a),
    decreases a,
{
    if a == 0 {
        assert(s.skip(0) =~= s);
    } else {
        let t = s.drop_first();
        assert(p.holds(s[0]));
        assert forall|i: int| 0 <= i < a - 1 implies p.holds(#[trigger] t[i]) by {
            assert(t[i] == s[i + 1]);
        }
        lemma_trim_start(t, p, a - 1);
        assert(t.skip(a - 1) =~= s.skip(a));
    }
}

/// Trimming at the end leaves the part before `b`, where `b` follows the
/// last index whose character fails `p`.
pub proof fn lemma_trim_end(s: Seq<char>, p: CharClass, b: int)
    requires
        0 <= b <= s.len(),
        forall|i: int| b <= i < s.len() ==> p.holds(#[trigger] s[i]),
        b > 0 ==> !p.holds(s[b - 1]),
    ensures
        trim_end(s, p) == s.take(b),
    decreases s.len() - b,
{
    if b == s.len() {
        assert(s.take(b) =~= s);
    } else {
        let t = s.drop_last();
        assert(p.holds(s.last()));
        assert forall|i: int| b <= i < t.len() implies p.holds(#[trigger] t[i]) by {
            assert(t[i] == s[i]);
        }
        lemma_trim_end(t, p, b);
        assert(t.take(b) =~= s.take(b));
    }
}

/// Whether `c` has the Unicode `White_Space` property.
pub fn char_is_whitespace(c: char) -> (b: bool)
    ensures
        b == is_whitespace(c),
{
    let n: u32 = c as u32;
    (0x09 <= n && n <= 0x0d) || n == 0x20 || n == 0x85 || n == 0xa0 || n == 0x1680 || (0x2000 <= n
        && n <= 0x200a) || n == 0x2028 || n == 0x2029 || n == 0x202f || n == 0x205f || n == 0x3000
}

/// The characters of `s`, in order.
pub fn chars_of(s: &str) -> (v: Vec<char>)
    ensures
        v@ == s@,
{
    let mut v: Vec<char> = Vec::new();
    for c in it: s.chars()
        invariant
            it.seq() == s@,
            v@ == it.seq().take(it.index() as int),
    {
        v.push(c);
    }
    v
}

/// The part of `s` from the character at `from` up to the character at `to`.
/// With `ascii` set the text is known to be ASCII, and the part is cut out
/// without walking through the text.
pub fn slice<'a>(s: &'a str, ascii: bool, from: usize, to: usize) -> (part: &'a str)
    requires
        from <= to <= s@.len(),
        ascii ==> vstd::string::is_ascii(s),
    ensures
        part@ == s@.subrange(from as int, to as int),
        ascii ==> vstd::string::is_ascii(part),
{
    if ascii {
        s.substring_ascii(from, to)
    } else {
        s.substring_char(from, to)
    }
}

/// Where the leading run of characters of `class` ends.
pub fn leading(chars: &Vec<char>, class: CharClass) -> (a: usize)
    ensures
        a <= chars.len(),
        trim_start(chars@, class) == chars@.skip(a as int),
{
    let mut a: usize = 0;
    while a < chars.len() && class.test(chars[a])
        invariant
            a <= chars.len(),
            forall|i: int| 0 <= i < a ==> class.holds(#[trigger] chars@[i]),
        decreases chars.len() - a,
    {
        a += 1;
    }
    proof {
        lemma_trim_start(chars@, class, a as int);
    }
    a
}

/// Where the trailing run of characters of `class` begins, in the part of
/// `chars` from `from` on.
pub fn trailing(chars: &Vec<char>, class: CharClass, from: usize) -> (b: usize)
    requires
        from <= chars.len(),
    ensures
        from <= b <= chars.len(),
        trim_end(chars@.skip(from as int), class) == chars@.subrange(from as int, b as int),
{
    let mut b: usize = chars.len();
    while b > from && class.test(chars[b - 1])
        invariant
            from <= b <= chars.len(),
            forall|i: int| b <= i < chars.len() ==> class.holds(#[trigger] chars@[i]),
        decreases b,
    {
        b -= 1;
    }
    proof {
        let s = chars@.skip(from as int);
        assert forall|i: int| b - from <= i < s.len() implies class.holds(#[trigger] s[i]) by {
            assert(s[i] == chars@[i + from]);
        }
        if b > from {
            assert(s[b - from - 1] == chars@[b - 1]);
        }
        lemma_trim_end(s, class, b - from);
        assert(s.take(b - from) =~= chars@.subrange(from as int, b as int));
    }
    b
}

/// The index of the first `c` at or after `from`, or the length where there
/// is none.
pub fn find_char(chars: &Vec<char>, c: char, from: usize) -> (k: usize)
    requires
        from <= chars.len(),
    ensures
        from <= k <= chars.len(),
        position(chars@.skip(from as int), c) == k - from,
{
    let mut k: usize = from;
    while k < chars.len() && chars[k] != c
        invariant
            from <= k <= chars.len(),
            forall|i: int| from <= i < k ==> chars@[i] != c,
        decreases chars.len() - k,
    {
        k += 1;
    }
    proof {
        let s = chars@.skip(from as int);
        assert forall|i: int| 0 <= i < k - from implies s[i] != c by {
            assert(s[i] == chars@[i + from]);
        }
        if k < chars.len() {
            assert(s[k - from] == chars@[k as int]);
        }
        lemma_position_is(s, c, k - from);
    }
    k
}

/// How often `c` occurs in `chars`.
pub fn count_char(chars: &Vec<char>, c: char) -> (n: usize)
    ensures
        n == occurrences(chars@, c),
{
    let mut n: usize = 0;
    let mut i: usize = 0;
    while i < chars.len()
        invariant
            i <= chars.len(),
            n <= i,
            n == occurrences(chars@.take(i as int), c),
        decreases chars.len() - i,
    {
        assert(chars@.take(i + 1).drop_last() =~= chars@.take(i as int));
        if chars[i] == c {
            n += 1;
        }
        i += 1;
    }
    assert(chars@.take(chars.len() as int) =~= chars@);
    n
}

} // verus!
