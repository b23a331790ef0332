//! Character-level helpers on string slices, and the line normaliser.
use vstd::prelude::*;

verus! {

/// Whether two slices hold the same characters.
pub fn same_text(t: &str, w: &str) -> (r: bool)
    ensures
        r == (t@ == w@),
{
    let n = t.unicode_len();
    if n != w.unicode_len() {
        return false;
    }
    let mut i: usize = 0;
    while i < n
        invariant
            n == t@.len(),
            n == w@.len(),
            i <= n,
            t@.subrange(0, i as int) == w@.subrange(0, i as int),
        decreases n - i,
    {
        if t.get_char(i) != w.get_char(i) {
            assert(t@[i as int] != w@[i as int]);
            return false;
        }
        assert(t@.subrange(0, i + 1) =~= t@.subrange(0, i as int).push(t@[i as int]));
        assert(w@.subrange(0, i + 1) =~= w@.subrange(0, i as int).push(w@[i as int]));
        i = i + 1;
    }
    assert(t@ =~= t@.subrange(0, n as int));
    assert(w@ =~= w@.subrange(0, n as int));
    true
}

/// Whether `t` begins with the characters of `p`.
pub fn starts_with_text(t: &str, p: &str) -> (r: bool)
    ensures
        r == (p@.len() <= t@.len() && t@.subrange(0, p@.len() as int) == p@),
{
    let n = p.unicode_len();
    if n > t.unicode_len() {
        return false;
    }
    let head = t.substring_char(0, n);
    same_text(head, p)
}

/// Whether `t` begins with the character `c`.
pub fn first_is(t: &str, c: char) -> (r: bool)
    ensures
        r == (t@.len() > 0 && t@[0] == c),
{
    t.unicode_len() > 0 && t.get_char(0) == c
}

/// Whether `t` ends with the character `c`.
pub fn last_is(t: &str, c: char) -> (r: bool)
    ensures
        r == (t@.len() > 0 && t@.last() == c),
{
    let n = t.unicode_len();
    n > 0 && t.get_char(n - 1) == c
}

/// The characters with the Unicode `White_Space` property.
pub open spec fn is_white_space(c: char) -> bool {
    ('\u{9}' <= c && c <= '\u{d}') || c == ' ' || c == '\u{85}' || c == '\u{a0}' || c == '\u{1680}'
        || ('\u{2000}' <= c && c <= '\u{200a}') || c == '\u{2028}' || c == '\u{2029}' || c
        == '\u{202f}' || c == '\u{205f}' || c == '\u{3000}'
}

fn white_space(c: char) -> (r: bool)
    ensures
        r == is_white_space(c),
{
    ('\u{9}' <= c && c <= '\u{d}') || c == ' ' || c == '\u{85}' || c == '\u{a0}' || c == '\u{1680}'
        || ('\u{2000}' <= c && c <= '\u{200a}') || c == '\u{2028}' || c == '\u{2029}' || c
        == '\u{202f}' || c == '\u{205f}' || c == '\u{3000}'
}

/// The characters that separate tokens.
pub open spec fn is_separator(c: char) -> bool {
    c == ' ' || c == ',' || c == '\r'
}

/// The index of the first `;` in `s` at or after `i`, or the length of `s`.
pub open spec fn comment_from(s: Seq<char>, i: int) -> int
    decreases s.len() - i,
{
    if i < 0 || i >= s.len() {
        s.len() as int
    } else if s[i] == ';' {
        i
    } else {
        comment_from(s, i + 1)
    }
}

/// The index of the first character of `s` at or after `i` that is not white space.
pub open spec fn skip_white(s: Seq<char>, i: int) -> int
    decreases s.len() - i,
{
    if 0 <= i < s.len() && is_white_space(s[i]) {
        skip_white(s, i + 1)
    } else {
        i
    }
}

/// The end of `s[lo..j]` once trailing white space is removed.
pub open spec fn keep_nonwhite(s: Seq<char>, lo: int, j: int) -> int
    decreases j - lo,
{
    if lo < j && j <= s.len() && is_white_space(s[j - 1]) {
        keep_nonwhite(s, lo, j - 1)
    } else {
        j
    }
}

/// A line without its comment and without surrounding white space.
pub open spec fn code_of(s: Seq<char>) -> Seq<char> {
    let c = comment_from(s, 0);
    let code = s.subrange(0, c);
    let a = skip_white(code, 0);
    code.subrange(a, keep_nonwhite(code, a, c))
}

/// The field `s[a..b]` as a token, unless it is empty.
pub open spec fn field(s: Seq<char>, a: int, b: int) -> Seq<Seq<char>> {
    if a < b {
        seq![s.subrange(a, b)]
    } else {
        Seq::empty()
    }
}

/// The non-empty fields of `s` from `i` on, split at separators, where the
/// current field began at `start`.
pub open spec fn fields_from(s: Seq<char>, i: int, start: int) -> Seq<Seq<char>>
    decreases s.len() - i,
{
    if i < 0 || i >= s.len() {
        field(s, start, s.len() as int)
    } else if is_separator(s[i]) {
        field(s, start, i) + fields_from(s, i + 1, i + 1)
    } else {
        fields_from(s, i + 1, start)
    }
}

/// The tokens of a raw line.
pub open spec fn line_tokens(s: Seq<char>) -> Seq<Seq<char>> {
    fields_from(code_of(s), 0, 0)
}

fn code_part(line: &str) -> (r: &str)
    ensures
        r@ == code_of(line@),
{
    let n = line.unicode_len();
    let ghost s = line@;
    let mut c: usize = 0;
    while c < n && line.get_char(c) != ';'
        invariant
            n == s.len(),
            s == line@,
            c <= n,
            comment_from(s, 0) == comment_from(s, c as int),
        decreases n - c,
    {
        c = c + 1;
    }
    let code = line.substring_char(0, c);
    let ghost cs = code@;
    let mut a: usize = 0;
    while a < c && white_space(code.get_char(a))
        invariant
            cs == code@,
            cs.len() == c,
            a <= c,
            skip_white(cs, 0) == skip_white(cs, a as int),
        decreases c - a,
    {
        a = a + 1;
    }
    let mut b: usize = c;
    while b > a && white_space(code.get_char(b - 1))
        invariant
            cs == code@,
            cs.len() == c,
            a <= b <= c,
            skip_white(cs, 0) == a,
            keep_nonwhite(cs, a as int, c as int) == keep_nonwhite(cs, a as int, b as int),
        decreases b,
    {
        b = b - 1;
    }
    code.substring_char(a, b)
}

/// The characters of each token.
pub open spec fn slices_view(v: Seq<&str>) -> Seq<Seq<char>> {
    v.map_values(|t: &str| t@)
}

/// Splits a raw line into tokens: everything from the first `;` on is
/// dropped, surrounding white space is trimmed, and the rest is split at
/// spaces, commas and carriage returns, keeping only non-empty fields. The
/// zero-based line index becomes a one-based line number.
pub fn prepare_line(entry: (usize, &str)) -> (r: (usize, Vec<&str>))
    requires
        entry.0 < usize::MAX,
    ensures
        r.0 == entry.0 + 1,
        slices_view(r.1@) == line_tokens(entry.1@),
{
    let (line_number, line) = entry;
    let body = code_part(line);
    let n = body.unicode_len();
    let ghost s = body@;
    let mut out: Vec<&str> = Vec::new();
    let mut start: usize = 0;
    let mut i: usize = 0;
    assert(slices_view(out@) =~= Seq::empty());
    assert(slices_view(out@) + fields_from(s, 0, 0) =~= fields_from(s, 0, 0));
    while i < n
        invariant
            s == body@,
            n == s.len(),
            start <= i <= n,
            slices_view(out@) + fields_from(s, i as int, start as int) == fields_from(s, 0, 0),
        decreases n - i,
    {
        let c = body.get_char(i);
        if c == ' ' || c == ',' || c == '\r' {
            let ghost before = slices_view(out@);
            if start < i {
                let t = body.substring_char(start, i);
                out.push(t);
            }
            assert(slices_view(out@) =~= before + field(s, start as int, i as int));
            assert(before + (field(s, start as int, i as int) + fields_from(s, i + 1, i + 1))
                =~= (before + field(s, start as int, i as int)) + fields_from(s, i + 1, i + 1));
            start = i + 1;
        }
        i = i + 1;
    }
    let ghost before = slices_view(out@);
    if start < n {
        let t = body.substring_char(start, n);
        out.push(t);
    }
    assert(slices_view(out@) =~= before + field(s, start as int, n as int));
    (line_number + 1, out)
}

} // verus!
