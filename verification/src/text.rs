//! Character-level string helpers shared by the parsers of this crate.
use vstd::prelude::*;
use vstd::string::*;

verus! {

/// Unicode `White_Space` property, the set that `char::is_whitespace`,
/// `str::trim` and `str::trim_end` use.
pub open spec fn is_ws(c: char) -> bool {
    ||| ('\u{9}' <= c && c <= '\u{d}')
    ||| c == ' '
    ||| c == '\u{85}'
    ||| c == '\u{a0}'
    ||| c == '\u{1680}'
    ||| ('\u{2000}' <= c && c <= '\u{200a}')
    ||| c == '\u{2028}'
    ||| c == '\u{2029}'
    ||| c == '\u{202f}'
    ||| c == '\u{205f}'
    ||| c == '\u{3000}'
}

/// Executable form of [`is_ws`].
pub fn is_whitespace(c: char) -> (b: bool)
    ensures
        b == is_ws(c),
{
    ('\u{9}' <= c && c <= '\u{d}') || c == ' ' || c == '\u{85}' || c == '\u{a0}' || c
        == '\u{1680}' || ('\u{2000}' <= c && c <= '\u{200a}') || c == '\u{2028}' || c
        == '\u{2029}' || c == '\u{202f}' || c == '\u{205f}' || c == '\u{3000}'
}

/// The characters of a string slice, in order.
pub fn chars_of(s: &str) -> (v: Vec<char>)
    ensures
        v@ == s@,
{
    let mut v: Vec<char> = Vec::new();
    for c in it: s.chars()
        invariant
            v@ == it.seq().take(it.index()),
            it.seq() == s@,
    {
        v.push(c);
    }
    v
}

/// Appends one character to a string.
///
/// Calls `String::push`; the contract states what its documentation says:
/// the character is appended at the end.
#[verifier::external_body]
pub(crate) fn push_char(s: &mut String, c: char)
    ensures
        final(s)@ == old(s)@.push(c),
{
    s.push(c);
}

/// Appends a string slice to a string.
pub fn push_str(s: &mut String, t: &str)
    ensures
        final(s)@ == old(s)@ + t@,
{
    s.append(t);
}

/// Builds a string from the characters `v[from..to]`.
pub fn string_from_range(v: &Vec<char>, from: usize, to: usize) -> (s: String)
    requires
        from <= to <= v@.len(),
    ensures
        s@ == v@.subrange(from as int, to as int),
{
    let mut s = String::new();
    let mut i = from;
    while i < to
        invariant
            from <= i <= to <= v@.len(),
            s@ == v@.subrange(from as int, i as int),
        decreases to - i,
    {
        push_char(&mut s, v[i]);
        assert(v@.subrange(from as int, i + 1) == v@.subrange(from as int, i as int).push(v@[i as int]));
        i = i + 1;
    }
    s
}

/// Builds a string from all characters of `v`.
pub fn string_from_chars(v: &Vec<char>) -> (s: String)
    ensures
        s@ == v@,
{
    let s = string_from_range(v, 0, v.len());
    assert(v@.subrange(0, v@.len() as int) == v@);
    s
}

/// A fresh copy of a string slice.
pub fn to_owned_string(t: &str) -> (s: String)
    ensures
        s@ == t@,
{
    let mut s = String::new();
    s.append(t);
    assert(Seq::<char>::empty() + t@ == t@);
    s
}

} // verus!

verus! {

/// `p` is a prefix of `s`.
pub open spec fn starts_with(s: Seq<char>, p: Seq<char>) -> bool {
    p.len() <= s.len() && s.subrange(0, p.len() as int) == p
}

/// End of the line that starts at `k` within `s[..e]`: the index just after
/// the first `'\n'` at or after `k`, or `e` when there is none.
pub open spec fn line_end(s: Seq<char>, k: int, e: int) -> int
    decreases e - k,
{
    if k >= e || k < 0 || e > s.len() {
        e
    } else if s[k] == '\n' {
        k + 1
    } else {
        line_end(s, k + 1, e)
    }
}

/// First index in `[a, b)` of a non-whitespace character, or `b`.
pub open spec fn trim_lo(s: Seq<char>, a: int, b: int) -> int
    decreases b - a,
{
    if a >= b || a < 0 || b > s.len() {
        b
    } else if is_ws(s[a]) {
        trim_lo(s, a + 1, b)
    } else {
        a
    }
}

/// One past the last index in `[a, b)` of a non-whitespace character, or `a`.
pub open spec fn trim_hi(s: Seq<char>, a: int, b: int) -> int
    decreases b - a,
{
    if a >= b || a < 0 || b > s.len() {
        a
    } else if is_ws(s[b - 1]) {
        trim_hi(s, a, b - 1)
    } else {
        b
    }
}

/// `s[a..b]` without trailing whitespace (`str::trim_end`).
pub open spec fn trim_end_of(s: Seq<char>, a: int, b: int) -> Seq<char> {
    s.subrange(a, trim_hi(s, a, b))
}

/// `s[a..b]` without leading and trailing whitespace (`str::trim`).
pub open spec fn trim_of(s: Seq<char>, a: int, b: int) -> Seq<char> {
    if trim_lo(s, a, b) < trim_hi(s, a, b) {
        s.subrange(trim_lo(s, a, b), trim_hi(s, a, b))
    } else {
        Seq::empty()
    }
}

pub proof fn lemma_line_end_bounds(s: Seq<char>, k: int, e: int)
    requires
        0 <= k < e <= s.len(),
    ensures
        k < line_end(s, k, e) <= e,
        forall|p: int| k <= p < line_end(s, k, e) - 1 ==> s[p] != '\n',
        line_end(s, k, e) < e ==> s[line_end(s, k, e) - 1] == '\n',
    decreases e - k,
{
    if s[k] != '\n' {
        if k + 1 < e {
            lemma_line_end_bounds(s, k + 1, e);
        } else {
            assert(line_end(s, k + 1, e) == e);
        }
    }
}

pub proof fn lemma_trim_lo_bounds(s: Seq<char>, a: int, b: int)
    requires
        0 <= a <= b <= s.len(),
    ensures
        a <= trim_lo(s, a, b) <= b,
        forall|p: int| a <= p < trim_lo(s, a, b) ==> is_ws(#[trigger] s[p]),
        trim_lo(s, a, b) < b ==> !is_ws(s[trim_lo(s, a, b)]),
    decreases b - a,
{
    if a < b && is_ws(s[a]) {
        lemma_trim_lo_bounds(s, a + 1, b);
    }
}

pub proof fn lemma_trim_hi_bounds(s: Seq<char>, a: int, b: int)
    requires
        0 <= a <= b <= s.len(),
    ensures
        a <= trim_hi(s, a, b) <= b,
        forall|p: int| trim_hi(s, a, b) <= p < b ==> is_ws(#[trigger] s[p]),
        trim_hi(s, a, b) > a ==> !is_ws(s[trim_hi(s, a, b) - 1]),
    decreases b - a,
{
    if a < b && is_ws(s[b - 1]) {
        lemma_trim_hi_bounds(s, a, b - 1);
    }
}

/// Executable [`line_end`].
pub fn line_end_at(v: &Vec<char>, k: usize, e: usize) -> (r: usize)
    requires
        k < e <= v@.len(),
    ensures
        r as int == line_end(v@, k as int, e as int),
        k < r <= e,
{
    proof {
        lemma_line_end_bounds(v@, k as int, e as int);
    }
    let mut i = k;
    while i < e
        invariant
            k <= i <= e <= v@.len(),
            line_end(v@, i as int, e as int) == line_end(v@, k as int, e as int),
        decreases e - i,
    {
        if v[i] == '\n' {
            return i + 1;
        }
        i = i + 1;
    }
    e
}

/// Executable [`trim_lo`].
pub fn trim_lo_at(v: &Vec<char>, a: usize, b: usize) -> (r: usize)
    requires
        a <= b <= v@.len(),
    ensures
        r as int == trim_lo(v@, a as int, b as int),
        a <= r <= b,
{
    proof {
        lemma_trim_lo_bounds(v@, a as int, b as int);
    }
    let mut i = a;
    while i < b
        invariant
            a <= i <= b <= v@.len(),
            trim_lo(v@, i as int, b as int) == trim_lo(v@, a as int, b as int),
        decreases b - i,
    {
        if !is_whitespace(v[i]) {
            return i;
        }
        i = i + 1;
    }
    b
}

/// Executable [`trim_hi`].
pub fn trim_hi_at(v: &Vec<char>, a: usize, b: usize) -> (r: usize)
    requires
        a <= b <= v@.len(),
    ensures
        r as int == trim_hi(v@, a as int, b as int),
        a <= r <= b,
{
    proof {
        lemma_trim_hi_bounds(v@, a as int, b as int);
    }
    let mut j = b;
    while j > a
        invariant
            a <= j <= b <= v@.len(),
            trim_hi(v@, a as int, j as int) == trim_hi(v@, a as int, b as int),
        decreases j - a,
    {
        if !is_whitespace(v[j - 1]) {
            return j;
        }
        j = j - 1;
    }
    a
}

/// `v[a..b]` equals `t`.
pub fn range_equals(v: &Vec<char>, a: usize, b: usize, t: &Vec<char>) -> (r: bool)
    requires
        a <= b <= v@.len(),
    ensures
        r == (v@.subrange(a as int, b as int) == t@),
{
    if b - a != t.len() {
        return false;
    }
    let mut i: usize = 0;
    while i < t.len()
        invariant
            b - a == t@.len(),
            a <= b <= v@.len(),
            0 <= i <= t@.len(),
            forall|p: int| 0 <= p < i ==> v@[a + p] == t@[p],
        decreases t.len() - i,
    {
        if v[a + i] != t[i] {
            assert(v@.subrange(a as int, b as int)[i as int] != t@[i as int]);
            return false;
        }
        i = i + 1;
    }
    assert(v@.subrange(a as int, b as int) =~= t@);
    true
}

/// `v[a..b]` starts with `t`.
pub fn range_starts_with(v: &Vec<char>, a: usize, b: usize, t: &Vec<char>) -> (r: bool)
    requires
        a <= b <= v@.len(),
    ensures
        r == starts_with(v@.subrange(a as int, b as int), t@),
{
    if b - a < t.len() {
        return false;
    }
    let r = range_equals(v, a, a + t.len(), t);
    assert(v@.subrange(a as int, b as int).subrange(0, t@.len() as int) =~= v@.subrange(
        a as int,
        a + t@.len(),
    ));
    r
}

/// Two character vectors are equal.
pub fn chars_equal(a: &Vec<char>, b: &Vec<char>) -> (r: bool)
    ensures
        r == (a@ == b@),
{
    let r = range_equals(a, 0, a.len(), b);
    assert(a@.subrange(0, a@.len() as int) =~= a@);
    r
}

} // verus!

verus! {

/// Two string slices spell the same text.
pub fn str_eq(a: &str, b: &str) -> (r: bool)
    ensures
        r == (a@ == b@),
{
    let x = chars_of(a);
    let y = chars_of(b);
    chars_equal(&x, &y)
}

/// `a` starts with the text of `b`.
pub fn str_starts_with(a: &str, b: &str) -> (r: bool)
    ensures
        r == starts_with(a@, b@),
{
    let x = chars_of(a);
    let y = chars_of(b);
    let r = range_starts_with(&x, 0, x.len(), &y);
    assert(x@.subrange(0, x@.len() as int) =~= x@);
    r
}

/// The lines of a text as `str::lines` yields them: split after each
/// `'\n'`, the terminator `"\n"` or `"\r\n"` removed, no line after a final
/// terminator.
pub open spec fn text_lines(s: Seq<char>) -> Seq<Seq<char>>
    decreases s.len(),
{
    if s.len() == 0 {
        Seq::empty()
    } else {
        proof {
            lemma_line_end_bounds(s, 0, s.len() as int);
        }
        let e = line_end(s, 0, s.len() as int);
        seq![line_body(s.subrange(0, e))] + text_lines(s.subrange(e, s.len() as int))
    }
}

/// A raw line without its `"\n"` or `"\r\n"` terminator.
pub open spec fn line_body(raw: Seq<char>) -> Seq<char> {
    if raw.len() > 0 && raw.last() == '\n' {
        let l = raw.drop_last();
        if l.len() > 0 && l.last() == '\r' {
            l.drop_last()
        } else {
            l
        }
    } else {
        raw
    }
}

/// Lines joined with a separator.
pub open spec fn join_lines(lines: Seq<Seq<char>>, sep: Seq<char>) -> Seq<char>
    decreases lines.len(),
{
    if lines.len() == 0 {
        Seq::empty()
    } else if lines.len() == 1 {
        lines[0]
    } else {
        join_lines(lines.drop_last(), sep) + sep + lines.last()
    }
}

/// The whole text without leading and trailing whitespace.
pub open spec fn trim_all(s: Seq<char>) -> Seq<char> {
    trim_of(s, 0, s.len() as int)
}

/// Splits a text into its lines (see [`text_lines`]).
pub fn lines_of(s: &str) -> (r: Vec<String>)
    ensures
        r@.map_values(|l: String| l@) == text_lines(s@),
{
    let v = chars_of(s);
    let mut out: Vec<String> = Vec::new();
    let mut k: usize = 0;
    assert(v@.subrange(0, v@.len() as int) =~= v@);
    while k < v.len()
        invariant
            0 <= k <= v@.len(),
            v@ == s@,
            text_lines(s@) == out@.map_values(|l: String| l@) + text_lines(v@.subrange(k as int, v@.len() as int)),
        decreases v.len() - k,
    {
        let e = line_end_at(&v, k, v.len());
        let ghost rest = v@.subrange(k as int, v@.len() as int);
        proof {
            lemma_line_end_bounds(v@, k as int, v@.len() as int);
            lemma_line_end_shift(v@, k as int);
        }
        let mut stop = e;
        if stop > k && v[stop - 1] == '\n' {
            stop = stop - 1;
            if stop > k && v[stop - 1] == '\r' {
                stop = stop - 1;
            }
        }
        let line = string_from_range(&v, k, stop);
        assert(rest.subrange(0, e - k) =~= v@.subrange(k as int, e as int));
        assert(line@ =~= line_body(rest.subrange(0, e - k)));
        assert(rest.subrange(e - k, rest.len() as int) =~= v@.subrange(e as int, v@.len() as int));
        let ghost before = out@.map_values(|l: String| l@);
        out.push(line);
        assert(out@.map_values(|l: String| l@) =~= before.push(line@));
        assert(text_lines(rest) =~= seq![line@] + text_lines(v@.subrange(e as int, v@.len() as int)));
        k = e;
    }
    assert(v@.subrange(k as int, v@.len() as int) =~= Seq::<char>::empty());
    assert(out@.map_values(|l: String| l@) + Seq::<Seq<char>>::empty() =~= out@.map_values(|l: String| l@));
    out
}

/// `line_end` on a suffix is `line_end` on the whole text, shifted.
pub proof fn lemma_line_end_shift(s: Seq<char>, k: int)
    requires
        0 <= k < s.len(),
    ensures
        line_end(s.subrange(k, s.len() as int), 0, s.len() - k) == line_end(s, k, s.len() as int) - k,
    decreases s.len() - k,
{
    let t = s.subrange(k, s.len() as int);
    lemma_line_end_from(s, k, k);
}

proof fn lemma_line_end_from(s: Seq<char>, k: int, j: int)
    requires
        0 <= k <= j < s.len(),
    ensures
        line_end(s.subrange(k, s.len() as int), j - k, s.len() - k) == line_end(s, j, s.len() as int) - k,
    decreases s.len() - j,
{
    let t = s.subrange(k, s.len() as int);
    assert(t[j - k] == s[j]);
    if s[j] != '\n' {
        if j + 1 < s.len() {
            lemma_line_end_from(s, k, j + 1);
        } else {
            assert(line_end(t, j - k + 1, s.len() - k) == s.len() - k);
            assert(line_end(s, j + 1, s.len() as int) == s.len());
        }
    }
}

/// Trims a string (see [`trim_all`]).
pub fn trim_string(s: &str) -> (r: String)
    ensures
        r@ == trim_all(s@),
{
    let v = chars_of(s);
    let lo = trim_lo_at(&v, 0, v.len());
    let hi = trim_hi_at(&v, 0, v.len());
    if lo < hi {
        string_from_range(&v, lo, hi)
    } else {
        String::new()
    }
}

/// Joins strings with a separator.
pub fn join_strings(parts: &Vec<String>, sep: &str) -> (r: String)
    ensures
        r@ == join_lines(parts@.map_values(|l: String| l@), sep@),
{
    let ghost ls = parts@.map_values(|l: String| l@);
    let mut out = String::new();
    let mut i: usize = 0;
    while i < parts.len()
        invariant
            0 <= i <= parts@.len(),
            ls == parts@.map_values(|l: String| l@),
            out@ == join_lines(ls.take(i as int), sep@),
        decreases parts.len() - i,
    {
        if i > 0 {
            push_str(&mut out, sep);
        }
        push_str(&mut out, parts[i].as_str());
        assert(ls.take(i + 1).drop_last() =~= ls.take(i as int));
        proof {
            if i == 0 {
                assert(out@ =~= ls.take(1)[0]);
            }
        }
        i = i + 1;
    }
    assert(ls.take(parts@.len() as int) =~= ls);
    out
}


/// Index of the first occurrence of `t` in `s` at or after `k`, or -1.
pub open spec fn find_text_from(s: Seq<char>, t: Seq<char>, k: int) -> int
    decreases s.len() + 1 - k,
{
    if k < 0 || k + t.len() > s.len() {
        -1
    } else if s.subrange(k, k + t.len()) == t {
        k
    } else {
        find_text_from(s, t, k + 1)
    }
}

/// Facts about [`find_text_from`]: a found index is an occurrence, and no
/// occurrence lies between `k` and it.
pub proof fn lemma_find_text_from(s: Seq<char>, t: Seq<char>, k: int)
    requires
        0 <= k,
    ensures
        find_text_from(s, t, k) >= 0 ==> k <= find_text_from(s, t, k) && find_text_from(s, t, k) + t.len() <= s.len()
            && s.subrange(find_text_from(s, t, k), find_text_from(s, t, k) + t.len()) == t,
        find_text_from(s, t, k) == -1 || find_text_from(s, t, k) >= k,
    decreases s.len() + 1 - k,
{
    if k + t.len() <= s.len() && s.subrange(k, k + t.len()) != t {
        lemma_find_text_from(s, t, k + 1);
    }
}

/// The first occurrence of `t` in `v` at or after `k` (see
/// [`find_text_from`]).
pub fn find_text(v: &Vec<char>, t: &Vec<char>, k: usize) -> (r: Option<usize>)
    ensures
        match r {
            Some(i) => find_text_from(v@, t@, k as int) == i as int,
            None => find_text_from(v@, t@, k as int) == -1,
        },
{
    if t.len() > v.len() {
        return None;
    }
    let last = v.len() - t.len();
    if k > last {
        return None;
    }
    let mut i = k;
    loop
        invariant
            k <= i <= last,
            last == v@.len() - t@.len(),
            t@.len() <= v@.len(),
            find_text_from(v@, t@, k as int) == find_text_from(v@, t@, i as int),
        decreases last - i,
    {
        let n = v.len();
        let m = t.len();
        assert(i + m <= n);
        if range_equals(v, i, i + m, t) {
            return Some(i);
        }
        if i == last {
            assert(find_text_from(v@, t@, i + 1) == -1);
            return None;
        }
        i = i + 1;
    }
}

} // verus!
