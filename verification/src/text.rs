//! Character and string primitives shared by the rest of the library.

use vstd::prelude::*;

verus! {

/// `String::push`: appends one character to the string, as std documents.
#[verifier::external_body]
pub(crate) fn push_char(s: &mut String, c: char)
    ensures
        final(s)@ == old(s)@.push(c),
{
    s.push(c);
}

/// `char::is_ascii_alphanumeric`: `0-9`, `A-Z` or `a-z`.
pub open spec fn is_ascii_alnum(c: char) -> bool {
    ('0' <= c && c <= '9') || ('A' <= c && c <= 'Z') || ('a' <= c && c <= 'z')
}

/// Decides `is_ascii_alnum`.
pub fn ascii_alnum(c: char) -> (b: bool)
    ensures
        b == is_ascii_alnum(c),
{
    ('0' <= c && c <= '9') || ('A' <= c && c <= 'Z') || ('a' <= c && c <= 'z')
}


/// `char::is_whitespace`: the Unicode `White_Space` characters.
pub open spec fn is_ws(c: char) -> bool {
    ('\u{9}' <= c && c <= '\u{d}') || c == ' ' || c == '\u{85}' || c == '\u{a0}' || c == '\u{1680}'
        || ('\u{2000}' <= c && c <= '\u{200a}') || c == '\u{2028}' || c == '\u{2029}' || c
        == '\u{202f}' || c == '\u{205f}' || c == '\u{3000}'
}

/// Decides `is_ws`.
pub fn whitespace(c: char) -> (b: bool)
    ensures
        b == is_ws(c),
{
    ('\u{9}' <= c && c <= '\u{d}') || c == ' ' || c == '\u{85}' || c == '\u{a0}' || c == '\u{1680}'
        || ('\u{2000}' <= c && c <= '\u{200a}') || c == '\u{2028}' || c == '\u{2029}' || c
        == '\u{202f}' || c == '\u{205f}' || c == '\u{3000}'
}

/// The characters of `s`.
pub fn chars_of(s: &str) -> (res: Vec<char>)
    ensures
        res@ == s@,
{
    let mut out: Vec<char> = Vec::new();
    let ghost v = s@;
    for c in it: s.chars()
        invariant
            it.seq() == v,
            out@ == v.take(it.index() as int),
    {
        out.push(c);
        assert(out@ =~= v.take(it.index() + 1));
    }
    assert(v.take(v.len() as int) =~= v);
    out
}

/// The string made of `cs[from..to]`.
pub fn string_of(cs: &Vec<char>, from: usize, to: usize) -> (res: String)
    requires
        from <= to <= cs@.len(),
    ensures
        res@ == cs@.subrange(from as int, to as int),
{
    let mut out = String::new();
    for i in from..to
        invariant
            to <= cs@.len(),
            out@ == cs@.subrange(from as int, i as int),
    {
        push_char(&mut out, cs[i]);
        assert(out@ =~= cs@.subrange(from as int, i + 1));
    }
    out
}

/// The number of leading whitespace characters of `s`.
pub open spec fn leading_ws(s: Seq<char>) -> nat
    decreases s.len(),
{
    if s.len() > 0 && is_ws(s[0]) {
        1 + leading_ws(s.drop_first())
    } else {
        0
    }
}

/// The number of trailing whitespace characters of `s`.
pub open spec fn trailing_ws(s: Seq<char>) -> nat
    decreases s.len(),
{
    if s.len() > 0 && is_ws(s.last()) {
        1 + trailing_ws(s.drop_last())
    } else {
        0
    }
}

/// `str::trim`: `s` without its leading and trailing whitespace.
pub open spec fn trimmed(s: Seq<char>) -> Seq<char> {
    if leading_ws(s) == s.len() {
        Seq::empty()
    } else {
        s.subrange(leading_ws(s) as int, s.len() - trailing_ws(s))
    }
}

proof fn lemma_leading_ws(s: Seq<char>, i: int)
    requires
        0 <= i <= s.len(),
        forall|j: int| 0 <= j < i ==> is_ws(#[trigger] s[j]),
        i == s.len() || !is_ws(s[i]),
    ensures
        leading_ws(s) == i,
    decreases s.len(),
{
    if i > 0 {
        assert forall|j: int| 0 <= j < i - 1 implies is_ws(#[trigger] s.drop_first()[j]) by {
            assert(s.drop_first()[j] == s[j + 1]);
        }
        lemma_leading_ws(s.drop_first(), i - 1);
    }
}

proof fn lemma_trailing_ws(s: Seq<char>, i: int)
    requires
        0 <= i <= s.len(),
        forall|j: int| s.len() - i <= j < s.len() ==> is_ws(#[trigger] s[j]),
        i == s.len() || !is_ws(s[s.len() - 1 - i]),
    ensures
        trailing_ws(s) == i,
    decreases s.len(),
{
    if i > 0 {
        assert forall|j: int| s.len() - 1 - (i - 1) <= j < s.len() - 1 implies is_ws(
            #[trigger] s.drop_last()[j],
        ) by {
            assert(s.drop_last()[j] == s[j]);
        }
        lemma_trailing_ws(s.drop_last(), i - 1);
    }
}

/// Indices of the first and one past the last non-whitespace characters of
/// `cs` (equal when there are none).
pub fn trim_bounds(cs: &Vec<char>) -> (res: (usize, usize))
    ensures
        res.0 <= res.1 <= cs@.len(),
        trimmed(cs@) == cs@.subrange(res.0 as int, res.1 as int),
{
    let n = cs.len();
    let mut a: usize = 0;
    while a < n && whitespace(cs[a])
        invariant
            n == cs@.len(),
            a <= n,
            forall|j: int| 0 <= j < a ==> is_ws(#[trigger] cs@[j]),
        decreases n - a,
    {
        a = a + 1;
    }
    proof {
        lemma_leading_ws(cs@, a as int);
    }
    if a == n {
        return (n, n);
    }
    let mut b: usize = n;
    while b > a && whitespace(cs[b - 1])
        invariant
            n == cs@.len(),
            a < n,
            !is_ws(cs@[a as int]),
            a <= b <= n,
            forall|j: int| b <= j < n ==> is_ws(#[trigger] cs@[j]),
        decreases b,
    {
        b = b - 1;
    }
    proof {
        lemma_trailing_ws(cs@, n - b);
    }
    (a, b)
}

/// `s.trim()` as a new string.
pub fn trim(s: &str) -> (res: String)
    ensures
        res@ == trimmed(s@),
{
    let cs = chars_of(s);
    let (a, b) = trim_bounds(&cs);
    string_of(&cs, a, b)
}

/// The number of characters of `s` before its first whitespace character.
pub open spec fn field_len(s: Seq<char>) -> nat
    decreases s.len(),
{
    if s.len() == 0 || is_ws(s[0]) {
        0
    } else {
        1 + field_len(s.drop_first())
    }
}

proof fn lemma_field_len(s: Seq<char>, i: int)
    requires
        0 <= i <= s.len(),
        forall|j: int| 0 <= j < i ==> !is_ws(#[trigger] s[j]),
        i == s.len() || is_ws(s[i]),
    ensures
        field_len(s) == i,
    decreases s.len(),
{
    if i > 0 {
        assert forall|j: int| 0 <= j < i - 1 implies !is_ws(#[trigger] s.drop_first()[j]) by {
            assert(s.drop_first()[j] == s[j + 1]);
        }
        lemma_field_len(s.drop_first(), i - 1);
    }
}

/// The first whitespace-separated field of a string that does not start
/// with whitespace (`split_whitespace().next()` there).
pub open spec fn first_field(s: Seq<char>) -> Seq<char> {
    s.take(field_len(s) as int)
}

/// Computes `first_field`.
pub fn first_field_of(cs: &Vec<char>) -> (res: String)
    ensures
        res@ == first_field(cs@),
{
    let n = cs.len();
    let mut i: usize = 0;
    while i < n && !whitespace(cs[i])
        invariant
            n == cs@.len(),
            i <= n,
            forall|j: int| 0 <= j < i ==> !is_ws(#[trigger] cs@[j]),
        decreases n - i,
    {
        i = i + 1;
    }
    proof {
        lemma_field_len(cs@, i as int);
    }
    assert(cs@.subrange(0, i as int) =~= cs@.take(i as int));
    string_of(cs, 0, i)
}

/// `needle` occurs in `hay` starting at `i`.
pub open spec fn occurs_at(hay: Seq<char>, needle: Seq<char>, i: int) -> bool {
    0 <= i && i + needle.len() <= hay.len() && hay.subrange(i, i + needle.len()) == needle
}

/// `str::contains` for a string pattern.
pub open spec fn contains_str(hay: Seq<char>, needle: Seq<char>) -> bool {
    exists|i: int| #[trigger] occurs_at(hay, needle, i)
}

/// Decides `contains_str`.
pub fn contains(hay: &Vec<char>, needle: &Vec<char>) -> (b: bool)
    ensures
        b == contains_str(hay@, needle@),
{
    let n = hay.len();
    let m = needle.len();
    if m > n {
        assert forall|i: int| !occurs_at(hay@, needle@, i) by {}
        return false;
    }
    let mut i: usize = 0;
    while i <= n - m
        invariant
            n == hay@.len(),
            m == needle@.len(),
            m <= n,
            i <= n - m + 1,
            forall|k: int| 0 <= k < i ==> !#[trigger] occurs_at(hay@, needle@, k),
        decreases n - m + 1 - i,
    {
        let mut j: usize = 0;
        while j < m && hay[i + j] == needle[j]
            invariant
                n == hay@.len(),
                m == needle@.len(),
                i + m <= n,
                j <= m,
                forall|t: int| 0 <= t < j ==> hay@[i + t] == needle@[t],
            decreases m - j,
        {
            j = j + 1;
        }
        if j == m {
            assert(hay@.subrange(i as int, i + m) =~= needle@);
            assert(occurs_at(hay@, needle@, i as int));
            return true;
        }
        assert(!occurs_at(hay@, needle@, i as int)) by {
            if occurs_at(hay@, needle@, i as int) {
                assert(hay@.subrange(i as int, i + m)[j as int] == needle@[j as int]);
            }
        }
        i = i + 1;
    }
    assert forall|k: int| !occurs_at(hay@, needle@, k) by {
        if 0 <= k < i {
        }
    }
    false
}

/// Substring search holds exactly when `needle` is the slice of `hay` at
/// some index, whatever comes before or after that slice.
pub proof fn lemma_contains_iff_slice(hay: Seq<char>, needle: Seq<char>)
    ensures
        contains_str(hay, needle) <==> exists|i: int|
            0 <= i && i + needle.len() <= hay.len() && #[trigger] hay.subrange(i, i + needle.len()) == needle,
{
    if contains_str(hay, needle) {
        let i = choose|i: int| #[trigger] occurs_at(hay, needle, i);
        assert(hay.subrange(i, i + needle.len()) == needle);
    }
    if exists|i: int|
        0 <= i && i + needle.len() <= hay.len() && #[trigger] hay.subrange(i, i + needle.len()) == needle {
        let i = choose|i: int|
            0 <= i && i + needle.len() <= hay.len() && #[trigger] hay.subrange(i, i + needle.len()) == needle;
        assert(occurs_at(hay, needle, i));
    }
}

/// A needle found at index `i` of `hay` is contained in it.
pub proof fn lemma_slice_contained(hay: Seq<char>, needle: Seq<char>, i: int)
    requires
        0 <= i,
        i + needle.len() <= hay.len(),
        forall|t: int| 0 <= t < needle.len() ==> #[trigger] hay[i + t] == needle[t],
    ensures
        contains_str(hay, needle),
{
    assert forall|t: int| 0 <= t < needle.len() implies #[trigger] hay.subrange(i, i + needle.len())[t]
        == needle[t] by {
        assert(hay[i + t] == needle[t]);
    }
    assert(hay.subrange(i, i + needle.len()) =~= needle);
    lemma_contains_iff_slice(hay, needle);
}

/// What `str::to_lowercase` returns for a string.
pub uninterp spec fn lowercase(s: Seq<char>) -> Seq<char>;

/// `str::to_lowercase`: the contract names its result `lowercase` of the
/// input, a function of the input alone; the Unicode case mapping itself is
/// not stated.
#[verifier::external_body]
pub(crate) fn to_lowercase(s: &str) -> (res: String)
    ensures
        res@ == lowercase(s@),
{
    s.to_lowercase()
}


/// The index of the first `c` at or after `i` in `s`, or the length of `s`.
pub open spec fn char_index(s: Seq<char>, c: char, i: int) -> int
    decreases s.len() - i,
{
    if i >= s.len() {
        s.len() as int
    } else if s[i] == c {
        i
    } else {
        char_index(s, c, i + 1)
    }
}

/// Where the search for `c` from `i` stops.
pub proof fn lemma_char_index_bounds(s: Seq<char>, c: char, i: int)
    requires
        0 <= i,
    ensures
        i >= s.len() ==> char_index(s, c, i) == s.len(),
        i < s.len() ==> i <= char_index(s, c, i) <= s.len(),
        char_index(s, c, i) < s.len() ==> s[char_index(s, c, i)] == c,
        forall|j: int| i <= j < char_index(s, c, i) ==> s[j] != c,
    decreases s.len() - i,
{
    if i < s.len() && s[i] != c {
        lemma_char_index_bounds(s, c, i + 1);
    }
}

/// Finds the first `c` at or after `start`.
pub fn find_char(cs: &Vec<char>, c: char, start: usize) -> (end: usize)
    requires
        start <= cs@.len(),
    ensures
        end == char_index(cs@, c, start as int),
        start <= end <= cs@.len(),
{
    let n = cs.len();
    let mut e = start;
    proof {
        lemma_char_index_bounds(cs@, c, start as int);
    }
    while e < n && cs[e] != c
        invariant
            n == cs@.len(),
            start <= e <= n,
            char_index(cs@, c, e as int) == char_index(cs@, c, start as int),
        decreases n - e,
    {
        e = e + 1;
    }
    e
}

/// The pieces of `s` from `start` on, split at each `c` (`str::split`).
pub open spec fn split_from(s: Seq<char>, c: char, start: int) -> Seq<Seq<char>>
    decreases s.len() - start,
{
    if start < 0 || start > s.len() {
        Seq::empty()
    } else {
        let e = char_index(s, c, start);
        proof {
            lemma_char_index_bounds(s, c, start);
        }
        if e < s.len() {
            seq![s.subrange(start, e)] + split_from(s, c, e + 1)
        } else {
            seq![s.subrange(start, s.len() as int)]
        }
    }
}

/// `s.split(c)`: always at least one piece.
pub open spec fn split_char(s: Seq<char>, c: char) -> Seq<Seq<char>> {
    split_from(s, c, 0)
}

/// The index of the first `\n` at or after `i`, or the length of `s`.
pub open spec fn line_end(s: Seq<char>, i: int) -> int {
    char_index(s, '\n', i)
}

/// The line that starts at `start` and runs to `end` (a `\n` or the end of
/// the text), without its `\n` and without a `\r` just before that `\n`.
pub open spec fn line_text(s: Seq<char>, start: int, end: int) -> Seq<char> {
    if end < s.len() && end > start && s[end - 1] == '\r' {
        s.subrange(start, end - 1)
    } else {
        s.subrange(start, end)
    }
}

/// The lines of `s` from index `start` on.
pub open spec fn lines_from(s: Seq<char>, start: int) -> Seq<Seq<char>>
    decreases s.len() - start,
{
    if start < 0 || start >= s.len() {
        Seq::empty()
    } else {
        let end = line_end(s, start);
        proof {
            lemma_char_index_bounds(s, '\n', start);
        }
        if end < s.len() {
            seq![line_text(s, start, end)] + lines_from(s, end + 1)
        } else {
            seq![line_text(s, start, end)]
        }
    }
}

/// `str::lines`: split at `\n`, drop a `\r` that ends a line before its
/// `\n`, and yield no empty line after a final `\n`.
pub open spec fn lines(s: Seq<char>) -> Seq<Seq<char>> {
    lines_from(s, 0)
}

/// The line between `start` and `end` as `line_text` describes it.
pub fn line_at(cs: &Vec<char>, start: usize, end: usize) -> (res: Vec<char>)
    requires
        start <= end <= cs@.len(),
    ensures
        res@ == line_text(cs@, start as int, end as int),
{
    let stop = if end < cs.len() && end > start && cs[end - 1] == '\r' {
        end - 1
    } else {
        end
    };
    let mut out: Vec<char> = Vec::new();
    for i in start..stop
        invariant
            stop <= cs@.len(),
            out@ == cs@.subrange(start as int, i as int),
    {
        out.push(cs[i]);
        assert(out@ =~= cs@.subrange(start as int, i + 1));
    }
    out
}


/// The decimal digits of `n` as characters, without leading zeros.
pub open spec fn decimal_chars(n: nat) -> Seq<char>
    decreases n,
{
    if n < 10 {
        seq![(48 + n) as char]
    } else {
        decimal_chars(n / 10).push((48 + n % 10) as char)
    }
}

/// Appends the decimal digits of `n`.
pub fn push_decimal(s: &mut String, n: u32)
    ensures
        final(s)@ == old(s)@ + decimal_chars(n as nat),
    decreases n,
{
    if n >= 10 {
        push_decimal(s, n / 10);
    }
    let d: u8 = 48u8 + (n % 10) as u8;
    push_char(s, d as char);
    proof {
        if n >= 10 {
            assert(old(s)@ + decimal_chars(n as nat) =~= (old(s)@ + decimal_chars((n / 10) as nat)).push(
                (48 + n % 10) as char,
            ));
        } else {
            assert(old(s)@ + decimal_chars(n as nat) =~= old(s)@.push((48 + n) as char));
        }
    }
}


/// The lines of `s`, as `str::lines` yields them.
pub fn split_lines(s: &str) -> (res: Vec<String>)
    ensures
        res.deep_view() == lines(s@),
{
    let cs = chars_of(s);
    let n = cs.len();
    let mut out: Vec<String> = Vec::new();
    let mut start: usize = 0;
    while start < n
        invariant
            n == cs@.len(),
            cs@ == s@,
            start <= n,
            lines(cs@) == out.deep_view() + lines_from(cs@, start as int),
        decreases n - start,
    {
        let end = find_char(&cs, '\n', start);
        let line = line_at(&cs, start, end);
        let line_s = string_of(&line, 0, line.len());
        let ghost rest = if end < n {
            lines_from(cs@, end + 1)
        } else {
            Seq::<Seq<char>>::empty()
        };
        let ghost before = out.deep_view();
        proof {
            assert(line_s@ =~= line@);
            assert(lines_from(cs@, start as int) == seq![line_text(cs@, start as int, end as int)]
                + rest);
        }
        out.push(line_s);
        assert(out.deep_view() =~= before.push(line@));
        assert(before + (seq![line@] + rest) =~= before.push(line@) + rest);
        if end == n {
            start = n;
        } else {
            start = end + 1;
        }
    }
    assert(lines(cs@) =~= out.deep_view());
    out
}

} // verus!
