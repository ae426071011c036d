use crate::model::Text;
use vstd::prelude::*;

verus! {

/// `String::push` of std: the string afterwards is the string before with `c` as one
/// more character at its end.
pub assume_specification[ String::push ](s: &mut String, c: char)
    ensures
        final(s)@ == old(s)@.push(c),
;

/// The kinds of character that the grammar tells apart.
#[derive(Debug, Clone, Copy, PartialEq, Eq, Structural)]
pub enum CharClass {
    /// Space, tab, carriage return, line feed.
    Space,
    /// Anything but carriage return and line feed.
    InLine,
    /// An ASCII letter, an ASCII digit or `_`.
    Word,
    /// An ASCII digit, `.` or `-`.
    Numeric,
    /// Anything but `"` and `\`.
    Quoted,
}

/// An ASCII digit.
pub open spec fn is_digit(c: char) -> bool {
    '0' <= c <= '9'
}

/// An ASCII letter.
pub open spec fn is_letter(c: char) -> bool {
    ('a' <= c <= 'z') || ('A' <= c <= 'Z')
}

impl CharClass {
    /// `c` is of this class.
    pub open spec fn holds(self, c: char) -> bool {
        match self {
            CharClass::Space => c == ' ' || c == '\t' || c == '\r' || c == '\n',
            CharClass::InLine => c != '\r' && c != '\n',
            CharClass::Word => is_letter(c) || is_digit(c) || c == '_',
            CharClass::Numeric => is_digit(c) || c == '.' || c == '-',
            CharClass::Quoted => c != '"' && c != '\\',
        }
    }

    /// Tells whether `c` is of this class.
    pub fn test(self, c: char) -> (b: bool)
        ensures
            b == self.holds(c),
    {
        match self {
            CharClass::Space => c == ' ' || c == '\t' || c == '\r' || c == '\n',
            CharClass::InLine => c != '\r' && c != '\n',
            CharClass::Word => ('a' <= c && c <= 'z') || ('A' <= c && c <= 'Z') || ('0' <= c
                && c <= '9') || c == '_',
            CharClass::Numeric => ('0' <= c && c <= '9') || c == '.' || c == '-',
            CharClass::Quoted => c != '"' && c != '\\',
        }
    }
}

/// Where the longest run of characters of `class` that starts at `p` ends.
pub open spec fn run_end(s: Text, p: int, class: CharClass) -> int
    decreases s.len() - p,
{
    if 0 <= p < s.len() && class.holds(s[p]) {
        run_end(s, p + 1, class)
    } else {
        p
    }
}

/// `s` holds the character `c` at `p`.
pub open spec fn has_char(s: Text, p: int, c: char) -> bool {
    0 <= p < s.len() && s[p] == c
}

/// `s` holds the text `t` from `p` on.
pub open spec fn has_text(s: Text, p: int, t: Text) -> bool {
    0 <= p && p + t.len() <= s.len() && s.subrange(p, p + t.len()) == t
}

/// Where the insignificant text that starts at `p` ends: blank space, and comments from
/// `--` to the end of their line, as often as they follow each other.
pub open spec fn skip(s: Text, p: int) -> int
    decreases s.len() - p,
{
    let q = run_end(s, p, CharClass::Space);
    if has_char(s, q, '-') && has_char(s, q + 1, '-') {
        let e = run_end(s, q + 2, CharClass::InLine);
        if p < e <= s.len() {
            skip(s, e)
        } else {
            q
        }
    } else {
        q
    }
}

/// A run ends at or after its start, within the text, on a character that is not of the
/// class, after characters that all are.
pub proof fn lemma_run_end(s: Text, p: int, class: CharClass)
    requires
        0 <= p <= s.len(),
    ensures
        p <= run_end(s, p, class) <= s.len(),
        forall|i: int| p <= i < run_end(s, p, class) ==> class.holds(#[trigger] s[i]),
        run_end(s, p, class) < s.len() ==> !class.holds(s[run_end(s, p, class)]),
    decreases s.len() - p,
{
    if p < s.len() && class.holds(s[p]) {
        lemma_run_end(s, p + 1, class);
    }
}

/// A position before which all characters from `p` on are of the class, and at which the
/// text ends or holds one that is not, is where the run ends.
pub proof fn lemma_run_end_is(s: Text, p: int, class: CharClass, e: int)
    requires
        0 <= p <= e <= s.len(),
        forall|i: int| p <= i < e ==> class.holds(#[trigger] s[i]),
        e < s.len() ==> !class.holds(s[e]),
    ensures
        run_end(s, p, class) == e,
    decreases e - p,
{
    if p < e {
        lemma_run_end_is(s, p + 1, class, e);
    }
}

/// Insignificant text ends at or after its start, within the text.
pub proof fn lemma_skip_bounds(s: Text, p: int)
    requires
        0 <= p <= s.len(),
    ensures
        p <= skip(s, p) <= s.len(),
    decreases s.len() - p,
{
    let q = run_end(s, p, CharClass::Space);
    lemma_run_end(s, p, CharClass::Space);
    if has_char(s, q, '-') && has_char(s, q + 1, '-') {
        let e = run_end(s, q + 2, CharClass::InLine);
        lemma_run_end(s, q + 2, CharClass::InLine);
        lemma_skip_bounds(s, e);
    }
}

/// Skipping is idempotent: where insignificant text ends, none starts.
pub proof fn lemma_skip_idempotent(s: Text, p: int)
    requires
        0 <= p <= s.len(),
    ensures
        skip(s, skip(s, p)) == skip(s, p),
    decreases s.len() - p,
{
    let q = run_end(s, p, CharClass::Space);
    lemma_run_end(s, p, CharClass::Space);
    if has_char(s, q, '-') && has_char(s, q + 1, '-') {
        let e = run_end(s, q + 2, CharClass::InLine);
        lemma_run_end(s, q + 2, CharClass::InLine);
        lemma_skip_idempotent(s, e);
    } else {
        lemma_run_end_is(s, q, CharClass::Space, q);
    }
}

/// A run does not depend on what stands before it.
pub proof fn lemma_run_end_suffix(s: Text, from: int, p: int, class: CharClass)
    requires
        0 <= from <= p <= s.len(),
    ensures
        run_end(s.subrange(from, s.len() as int), p - from, class) == run_end(s, p, class) - from,
    decreases s.len() - p,
{
    let t = s.subrange(from, s.len() as int);
    if p < s.len() {
        assert(t[p - from] == s[p]);
        if class.holds(s[p]) {
            lemma_run_end_suffix(s, from, p + 1, class);
        }
    }
}

/// Where insignificant text ends, the text that is left starts with none.
pub proof fn lemma_skip_suffix(s: Text, e: int)
    requires
        0 <= e <= s.len(),
        skip(s, e) == e,
    ensures
        skip(s.subrange(e, s.len() as int), 0) == 0,
{
    let t = s.subrange(e, s.len() as int);
    lemma_run_end(s, e, CharClass::Space);
    lemma_run_end_suffix(s, e, e, CharClass::Space);
    let q = run_end(s, e, CharClass::Space);
    if has_char(s, q, '-') && has_char(s, q + 1, '-') {
        lemma_run_end(s, q + 2, CharClass::InLine);
        lemma_skip_bounds(s, run_end(s, q + 2, CharClass::InLine));
    } else {
        assert(run_end(t, 0, CharClass::Space) == 0);
        if has_char(t, 0, '-') && has_char(t, 1, '-') {
            assert(t[0] == s[e] && t[1] == s[e + 1]);
        }
    }
}

/// The characters of `s`.
pub(crate) fn chars_of(s: &str) -> (v: Vec<char>)
    ensures
        v@ == s@,
{
    let mut v: Vec<char> = Vec::new();
    for c in it: s.chars()
        invariant
            it.seq() == s@,
            v@ == s@.take(it.index()),
    {
        v.push(c);
    }
    v
}

/// The text that `src` holds from `from` to `to`.
pub(crate) fn text_of(src: &[char], from: usize, to: usize) -> (s: String)
    requires
        from <= to <= src@.len(),
    ensures
        s@ == src@.subrange(from as int, to as int),
{
    let mut s = String::new();
    let mut i: usize = from;
    while i < to
        invariant
            from <= i <= to <= src@.len(),
            s@ == src@.subrange(from as int, i as int),
        decreases to - i,
    {
        s.push(src[i]);
        assert(src@.subrange(from as int, i as int).push(src@[i as int]) =~= src@.subrange(
            from as int,
            i + 1,
        ));
        i += 1;
    }
    s
}

/// Runs over the characters of `class` from `pos` on.
pub(crate) fn scan(src: &[char], pos: usize, class: CharClass) -> (e: usize)
    requires
        pos <= src@.len(),
    ensures
        e == run_end(src@, pos as int, class),
        pos <= e <= src@.len() <= usize::MAX,
{
    let mut i: usize = pos;
    while i < src.len() && class.test(src[i])
        invariant
            pos <= i <= src@.len(),
            forall|j: int| pos <= j < i ==> class.holds(#[trigger] src@[j]),
        decreases src@.len() - i,
    {
        i += 1;
    }
    proof {
        lemma_run_end_is(src@, pos as int, class, i as int);
    }
    i
}

/// Tells whether `src` holds `c` at `pos`.
pub(crate) fn at_char(src: &[char], pos: usize, c: char) -> (b: bool)
    ensures
        b == has_char(src@, pos as int, c),
        src@.len() <= usize::MAX,
{
    pos < src.len() && src[pos] == c
}

/// Where `text` ends if `src` holds it from `pos` on.
pub(crate) fn at_text(src: &[char], pos: usize, text: &str) -> (r: Option<usize>)
    requires
        pos <= src@.len(),
    ensures
        match r {
            Some(e) => has_text(src@, pos as int, text@) && e == pos + text@.len(),
            None => !has_text(src@, pos as int, text@),
        },
{
    let n = text.unicode_len();
    if n > src.len() - pos {
        return None;
    }
    let mut i: usize = 0;
    while i < n
        invariant
            i <= n,
            n == text@.len(),
            pos + n <= src@.len() <= usize::MAX,
            forall|j: int| 0 <= j < i ==> src@[pos + j] == #[trigger] text@[j],
        decreases n - i,
    {
        if src[pos + i] != text.get_char(i) {
            assert(src@.subrange(pos as int, pos + n)[i as int] != text@[i as int]);
            return None;
        }
        i += 1;
    }
    assert(src@.subrange(pos as int, pos + n) =~= text@);
    Some(pos + n)
}

/// Runs over the insignificant text from `pos` on.
pub(crate) fn skip_from(src: &[char], pos: usize) -> (e: usize)
    requires
        pos <= src@.len(),
    ensures
        e == skip(src@, pos as int),
        pos <= e <= src@.len() <= usize::MAX,
{
    let mut p: usize = pos;
    loop
        invariant
            pos <= p <= src@.len(),
            skip(src@, pos as int) == skip(src@, p as int),
        decreases src@.len() - p,
    {
        let q = scan(src, p, CharClass::Space);
        if q < src.len() && src[q] == '-' && q + 1 < src.len() && src[q + 1] == '-' {
            let e = scan(src, q + 2, CharClass::InLine);
            p = e;
        } else {
            return q;
        }
    }
}

} // verus!
