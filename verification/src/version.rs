//! Semantic version triples: parsing, formatting, incrementing, comparing.
//!
//! A version string is `MAJOR.MINOR.PATCH`, optionally preceded by a single
//! `v` or `V`, where each component is a non-empty run of ASCII digits whose
//! value fits in a `u32`.
use vstd::prelude::*;
use crate::text::{chars_of, push_char, push_str, to_owned_string};

verus! {

/// Error of parsing a version string.
#[derive(Debug, PartialEq, Eq)]
pub enum VersionError {
    /// The input is not of the form `MAJOR.MINOR.PATCH`.
    InvalidFormat(String),
    /// A component cannot be incremented without leaving the `u32` range.
    ComponentOverflow,
}

/// The description of a version error.
pub open spec fn version_error_text(e: VersionError) -> Seq<char> {
    match e {
        VersionError::InvalidFormat(input) => "Invalid version format: "@ + input@ + " (expected MAJOR.MINOR.PATCH)"@,
        VersionError::ComponentOverflow => "Version component is too large to increment"@,
    }
}

impl VersionError {
    /// Human-readable description of the error.
    pub fn message(&self) -> (r: String)
        ensures
            r@ == version_error_text(*self),
    {
        match self {
            VersionError::InvalidFormat(input) => {
                let mut m = to_owned_string("Invalid version format: ");
                push_str(&mut m, input.as_str());
                push_str(&mut m, " (expected MAJOR.MINOR.PATCH)");
                m
            },
            VersionError::ComponentOverflow => to_owned_string(
                "Version component is too large to increment",
            ),
        }
    }
}

/// `e` reports that `input` is not a version string.
pub open spec fn invalid_format_of(e: VersionError, input: Seq<char>) -> bool {
    match e {
        VersionError::InvalidFormat(m) => m@ == input,
        _ => false,
    }
}

/// An ASCII decimal digit.
pub open spec fn is_digit(c: char) -> bool {
    '0' <= c && c <= '9'
}

/// The value of an ASCII decimal digit.
pub open spec fn digit_value(c: char) -> nat {
    (c as int - '0' as int) as nat
}

/// The digit character for a value below ten.
pub open spec fn digit_char(d: nat) -> char {
    ((d + '0' as int) as u32) as char
}

/// The value of a string of decimal digits (most significant first).
pub open spec fn decimal_value(s: Seq<char>) -> nat
    decreases s.len(),
{
    if s.len() == 0 {
        0
    } else {
        decimal_value(s.drop_last()) * 10 + digit_value(s.last())
    }
}

/// The shortest decimal representation of `n`.
pub open spec fn decimal_digits(n: nat) -> Seq<char>
    decreases n,
{
    if n < 10 {
        seq![digit_char(n)]
    } else {
        decimal_digits(n / 10).push(digit_char(n % 10))
    }
}

/// A non-empty digit string whose value fits in a `u32`.
pub open spec fn is_u32_numeral(s: Seq<char>) -> bool {
    &&& s.len() > 0
    &&& forall|i: int| 0 <= i < s.len() ==> is_digit(#[trigger] s[i])
    &&& decimal_value(s) <= u32::MAX
}

/// `s` without one leading `v` or `V`.
pub open spec fn strip_v(s: Seq<char>) -> Seq<char> {
    if s.len() > 0 && (s[0] == 'v' || s[0] == 'V') {
        s.drop_first()
    } else {
        s
    }
}

/// Index of the first `c` in `s` at or after `k`, or -1.
pub open spec fn first_from(s: Seq<char>, c: char, k: int) -> int
    decreases s.len() - k,
{
    if k < 0 || k >= s.len() {
        -1
    } else if s[k] == c {
        k
    } else {
        first_from(s, c, k + 1)
    }
}

/// The version triple that `s` denotes, if it denotes one.
pub open spec fn version_triple(s: Seq<char>) -> Option<(u32, u32, u32)> {
    let t = strip_v(s);
    let i = first_from(t, '.', 0);
    let j = first_from(t, '.', i + 1);
    let k = first_from(t, '.', j + 1);
    if i >= 0 && j >= 0 && k < 0 && is_u32_numeral(t.subrange(0, i)) && is_u32_numeral(
        t.subrange(i + 1, j),
    ) && is_u32_numeral(t.subrange(j + 1, t.len() as int)) {
        Some(
            (
                decimal_value(t.subrange(0, i)) as u32,
                decimal_value(t.subrange(i + 1, j)) as u32,
                decimal_value(t.subrange(j + 1, t.len() as int)) as u32,
            ),
        )
    } else {
        None
    }
}

/// `MAJOR.MINOR.PATCH` in decimal.
pub open spec fn version_text(major: u32, minor: u32, patch: u32) -> Seq<char> {
    decimal_digits(major as nat) + seq!['.'] + decimal_digits(minor as nat) + seq!['.']
        + decimal_digits(patch as nat)
}

/// Lexicographic comparison of version triples: -1, 0 or 1.
pub open spec fn triple_order(a: (u32, u32, u32), b: (u32, u32, u32)) -> int {
    if a.0 != b.0 {
        if a.0 > b.0 { 1 } else { -1 }
    } else if a.1 != b.1 {
        if a.1 > b.1 { 1 } else { -1 }
    } else if a.2 != b.2 {
        if a.2 > b.2 { 1 } else { -1 }
    } else {
        0
    }
}

proof fn lemma_first_from_skip(s: Seq<char>, c: char, k: int, i: int)
    requires
        0 <= k <= i <= s.len(),
        forall|p: int| k <= p < i ==> s[p] != c,
    ensures
        first_from(s, c, k) == first_from(s, c, i),
    decreases i - k,
{
    if k < i {
        lemma_first_from_skip(s, c, k + 1, i);
    }
}

pub proof fn lemma_first_from_found(s: Seq<char>, c: char, k: int)
    requires
        0 <= k,
    ensures
        first_from(s, c, k) >= 0 ==> k <= first_from(s, c, k) < s.len() && s[first_from(s, c, k)]
            == c && forall|p: int| k <= p < first_from(s, c, k) ==> s[p] != c,
        first_from(s, c, k) < 0 ==> forall|p: int| k <= p < s.len() ==> s[p] != c,
    decreases s.len() - k,
{
    if k < s.len() && s[k] != c {
        lemma_first_from_found(s, c, k + 1);
    }
}

/// Index of the first `c` in `v` at or after `k`.
pub fn find_from(v: &Vec<char>, c: char, k: usize) -> (r: Option<usize>)
    requires
        k <= v@.len(),
    ensures
        match r {
            Some(p) => first_from(v@, c, k as int) == p as int,
            None => first_from(v@, c, k as int) < 0,
        },
{
    let mut i = k;
    while i < v.len()
        invariant
            k <= i <= v@.len(),
            forall|p: int| k <= p < i ==> v@[p] != c,
        decreases v.len() - i,
    {
        if v[i] == c {
            proof {
                lemma_first_from_skip(v@, c, k as int, i as int);
            }
            return Some(i);
        }
        i = i + 1;
    }
    proof {
        lemma_first_from_skip(v@, c, k as int, i as int);
    }
    None
}

/// The value of the digit string `v[from..to]`, if it is a `u32` numeral.
fn parse_numeral(v: &Vec<char>, from: usize, to: usize) -> (r: Option<u32>)
    requires
        from <= to <= v@.len(),
    ensures
        match r {
            Some(n) => is_u32_numeral(v@.subrange(from as int, to as int)) && n as nat
                == decimal_value(v@.subrange(from as int, to as int)),
            None => !is_u32_numeral(v@.subrange(from as int, to as int)),
        },
{
    if from == to {
        return None;
    }
    let mut value: u64 = 0;
    let mut too_big = false;
    let mut i = from;
    while i < to
        invariant
            from <= i <= to <= v@.len(),
            forall|p: int| from <= p < i ==> is_digit(#[trigger] v@[p]),
            !too_big ==> value as nat == decimal_value(v@.subrange(from as int, i as int)),
            !too_big ==> value <= u32::MAX,
            too_big ==> decimal_value(v@.subrange(from as int, i as int)) > u32::MAX,
        decreases to - i,
    {
        let c = v[i];
        if !('0' <= c && c <= '9') {
            assert(!is_digit(v@.subrange(from as int, to as int)[i - from]));
            return None;
        }
        let d = (c as u32 - '0' as u32) as u64;
        assert(v@.subrange(from as int, i + 1).drop_last() == v@.subrange(from as int, i as int));
        if !too_big {
            value = value * 10 + d;
            if value > 0xffff_ffff {
                too_big = true;
            }
        }
        i = i + 1;
    }
    let ghost s = v@.subrange(from as int, to as int);
    assert forall|p: int| 0 <= p < s.len() implies is_digit(#[trigger] s[p]) by {
        assert(s[p] == v@[from + p]);
    }
    if too_big {
        None
    } else {
        Some(value as u32)
    }
}

/// Parses `MAJOR.MINOR.PATCH` with an optional leading `v` or `V`.
pub fn parse_version(s: &str) -> (r: Result<(u32, u32, u32), VersionError>)
    ensures
        match r {
            Ok(t) => version_triple(s@) == Some(t),
            Err(e) => version_triple(s@).is_none() && invalid_format_of(e, s@),
        },
{
    let all = chars_of(s);
    let start: usize = if all.len() > 0 && (all[0] == 'v' || all[0] == 'V') {
        1
    } else {
        0
    };
    let mut t: Vec<char> = Vec::new();
    let mut p = start;
    while p < all.len()
        invariant
            start <= p <= all@.len(),
            t@ == all@.subrange(start as int, p as int),
        decreases all.len() - p,
    {
        t.push(all[p]);
        assert(all@.subrange(start as int, p + 1) == all@.subrange(start as int, p as int).push(all@[p as int]));
        p = p + 1;
    }
    assert(t@ == strip_v(s@));
    let err = VersionError::InvalidFormat(to_owned_string(s));
    proof {
        lemma_first_from_found(t@, '.', 0);
    }
    let i = match find_from(&t, '.', 0) {
        Some(i) => i,
        None => {
            return Err(err);
        },
    };
    proof {
        lemma_first_from_found(t@, '.', i + 1);
    }
    let j = match find_from(&t, '.', i + 1) {
        Some(j) => j,
        None => {
            return Err(err);
        },
    };
    if find_from(&t, '.', j + 1).is_some() {
        return Err(err);
    }
    let a = match parse_numeral(&t, 0, i) {
        Some(a) => a,
        None => {
            return Err(err);
        },
    };
    let b = match parse_numeral(&t, i + 1, j) {
        Some(b) => b,
        None => {
            return Err(err);
        },
    };
    let c = match parse_numeral(&t, j + 1, t.len()) {
        Some(c) => c,
        None => {
            return Err(err);
        },
    };
    Ok((a, b, c))
}


proof fn lemma_digit_char(d: nat)
    requires
        d < 10,
    ensures
        is_digit(digit_char(d)),
        digit_value(digit_char(d)) == d,
        digit_char(d) != '.',
        digit_char(d) != 'v',
        digit_char(d) != 'V',
{
}

/// Facts about the decimal representation of a number.
pub proof fn lemma_decimal_digits(n: nat)
    ensures
        decimal_digits(n).len() > 0,
        forall|i: int| 0 <= i < decimal_digits(n).len() ==> is_digit(#[trigger] decimal_digits(n)[i]),
        decimal_value(decimal_digits(n)) == n,
    decreases n,
{
    if n < 10 {
        lemma_digit_char(n);
        assert(decimal_digits(n).drop_last() =~= Seq::<char>::empty());
        assert(decimal_value(Seq::<char>::empty()) == 0);
        assert(decimal_value(decimal_digits(n)) == decimal_value(decimal_digits(n).drop_last()) * 10
            + digit_value(decimal_digits(n).last()));
    } else {
        lemma_decimal_digits(n / 10);
        lemma_digit_char(n % 10);
        let d = decimal_digits(n);
        assert(d.drop_last() =~= decimal_digits(n / 10));
        assert(d.last() == digit_char(n % 10));
        assert(n == (n / 10) * 10 + n % 10) by (nonlinear_arith);
        assert(decimal_value(d) == decimal_value(d.drop_last()) * 10 + digit_value(d.last()));
        assert forall|i: int| 0 <= i < d.len() implies is_digit(#[trigger] d[i]) by {
            if i < d.len() - 1 {
                assert(d[i] == decimal_digits(n / 10)[i]);
            }
        }
    }
}

/// The character of a decimal digit.
fn digit_to_char(d: u64) -> (c: char)
    requires
        d < 10,
    ensures
        c == digit_char(d as nat),
{
    match d {
        0 => '0',
        1 => '1',
        2 => '2',
        3 => '3',
        4 => '4',
        5 => '5',
        6 => '6',
        7 => '7',
        8 => '8',
        _ => '9',
    }
}

/// Appends the decimal representation of `n`.
pub fn push_decimal(s: &mut String, n: u64)
    ensures
        final(s)@ == old(s)@ + decimal_digits(n as nat),
    decreases n,
{
    let ghost before = s@;
    if n >= 10 {
        push_decimal(s, n / 10);
    }
    let d = n % 10;
    let c = digit_to_char(d);
    push_char(s, c);
    proof {
        if n >= 10 {
            assert(s@ =~= before + decimal_digits(n as nat));
        } else {
            assert(s@ =~= before + decimal_digits(n as nat));
        }
    }
}

/// Formats `MAJOR.MINOR.PATCH`.
pub fn format_version(major: u32, minor: u32, patch: u32) -> (s: String)
    ensures
        s@ == version_text(major, minor, patch),
{
    let mut s = String::new();
    push_decimal(&mut s, major as u64);
    push_char(&mut s, '.');
    push_decimal(&mut s, minor as u64);
    push_char(&mut s, '.');
    push_decimal(&mut s, patch as u64);
    assert(s@ =~= version_text(major, minor, patch));
    s
}

/// Formats the git tag `vMAJOR.MINOR.PATCH`.
pub fn format_tag(major: u32, minor: u32, patch: u32) -> (s: String)
    ensures
        s@ == seq!['v'] + version_text(major, minor, patch),
{
    let mut s = String::new();
    push_char(&mut s, 'v');
    let v = format_version(major, minor, patch);
    push_str(&mut s, v.as_str());
    assert(s@ =~= seq!['v'] + version_text(major, minor, patch));
    s
}

/// Next major version: the minor and patch components restart at zero.
pub fn increment_major(major: u32, minor: u32, patch: u32) -> (r: (u32, u32, u32))
    requires
        major < u32::MAX,
    ensures
        r == ((major + 1) as u32, 0u32, 0u32),
{
    (major + 1, 0, 0)
}

/// Next minor version: the patch component restarts at zero.
pub fn increment_minor(major: u32, minor: u32, patch: u32) -> (r: (u32, u32, u32))
    requires
        minor < u32::MAX,
    ensures
        r == (major, (minor + 1) as u32, 0u32),
{
    (major, minor + 1, 0)
}

/// Next patch version.
pub fn increment_patch(major: u32, minor: u32, patch: u32) -> (r: (u32, u32, u32))
    requires
        patch < u32::MAX,
    ensures
        r == (major, minor, (patch + 1) as u32),
{
    (major, minor, patch + 1)
}

/// `Some(true)` when the first triple is greater, `Some(false)` when it is
/// smaller, `None` when both are equal.
pub open spec fn order_outcome(c: int) -> Option<bool> {
    if c > 0 {
        Some(true)
    } else if c < 0 {
        Some(false)
    } else {
        None
    }
}

/// Executable form of [`triple_order`].
pub fn compare_triples(a: (u32, u32, u32), b: (u32, u32, u32)) -> (c: i8)
    ensures
        c as int == triple_order(a, b),
{
    if a.0 != b.0 {
        if a.0 > b.0 { 1 } else { -1 }
    } else if a.1 != b.1 {
        if a.1 > b.1 { 1 } else { -1 }
    } else if a.2 != b.2 {
        if a.2 > b.2 { 1 } else { -1 }
    } else {
        0
    }
}

/// Compares two version strings: `Some(true)` when `v1 > v2`, `Some(false)`
/// when `v1 < v2`, `None` when they denote the same version.
pub fn compare_versions(v1: &str, v2: &str) -> (r: Result<Option<bool>, VersionError>)
    ensures
        match r {
            Ok(o) => version_triple(v1@).is_some() && version_triple(v2@).is_some() && o
                == order_outcome(triple_order(version_triple(v1@).unwrap(), version_triple(v2@).unwrap())),
            Err(e) => (version_triple(v1@).is_none() && invalid_format_of(e, v1@)) || (
            version_triple(v1@).is_some() && version_triple(v2@).is_none() && invalid_format_of(
                e,
                v2@,
            )),
        },
{
    let a = parse_version(v1)?;
    let b = parse_version(v2)?;
    let c = compare_triples(a, b);
    if c > 0 {
        Ok(Some(true))
    } else if c < 0 {
        Ok(Some(false))
    } else {
        Ok(None)
    }
}

proof fn lemma_no_dot_in_digits(s: Seq<char>, from: int, k: int)
    requires
        0 <= from <= k,
        forall|p: int| from <= p < s.len() ==> is_digit(#[trigger] s[p]),
    ensures
        first_from(s, '.', k) < 0,
    decreases s.len() - k,
{
    if k < s.len() {
        lemma_no_dot_in_digits(s, from, k + 1);
    }
}

/// Formatting a version and parsing it back gives the same triple.
pub proof fn lemma_parse_format_roundtrip(major: u32, minor: u32, patch: u32)
    ensures
        version_triple(version_text(major, minor, patch)) == Some((major, minor, patch)),
        version_triple(seq!['v'] + version_text(major, minor, patch)) == Some(
            (major, minor, patch),
        ),
{
    let a = decimal_digits(major as nat);
    let b = decimal_digits(minor as nat);
    let c = decimal_digits(patch as nat);
    lemma_decimal_digits(major as nat);
    lemma_decimal_digits(minor as nat);
    lemma_decimal_digits(patch as nat);
    let t = version_text(major, minor, patch);
    assert(t =~= a + seq!['.'] + b + seq!['.'] + c);
    let i = a.len() as int;
    let j = i + 1 + b.len();
    assert(t[i] == '.');
    assert(t[j] == '.');
    assert forall|p: int| 0 <= p < i implies t[p] != '.' by {
        assert(t[p] == a[p]);
    }
    assert forall|p: int| i + 1 <= p < j implies t[p] != '.' by {
        assert(t[p] == b[p - i - 1]);
    }
    lemma_first_from_skip(t, '.', 0, i);
    lemma_first_from_skip(t, '.', i + 1, j);
    assert forall|p: int| j + 1 <= p < t.len() implies is_digit(#[trigger] t[p]) by {
        assert(t[p] == c[p - j - 1]);
    }
    lemma_no_dot_in_digits(t, j + 1, j + 1);
    assert(t.subrange(0, i) =~= a);
    assert(t.subrange(i + 1, j) =~= b);
    assert(t.subrange(j + 1, t.len() as int) =~= c);
    assert(is_digit(t[0]));
    assert(strip_v(t) == t);
    let tv = seq!['v'] + t;
    assert(strip_v(tv) =~= t);
}

/// `a` is a smaller version than `b`: a smaller major version, or the same
/// major and a smaller minor, or the same major and minor and a smaller
/// patch.
pub open spec fn triple_below(a: (u32, u32, u32), b: (u32, u32, u32)) -> bool {
    ||| a.0 < b.0
    ||| a.0 == b.0 && a.1 < b.1
    ||| a.0 == b.0 && a.1 == b.1 && a.2 < b.2
}

/// Version comparison is antisymmetric and reflexive.
pub proof fn lemma_triple_order_antisymmetric(a: (u32, u32, u32), b: (u32, u32, u32))
    ensures
        triple_order(a, b) == -triple_order(b, a),
        triple_order(a, b) == 0 <==> a == b,
{
}

/// Version comparison is transitive.
pub proof fn lemma_triple_order_transitive(
    a: (u32, u32, u32),
    b: (u32, u32, u32),
    c: (u32, u32, u32),
)
    requires
        triple_order(a, b) > 0,
        triple_order(b, c) > 0,
    ensures
        triple_order(a, c) > 0,
{
}

/// Each increment yields a strictly greater version.
pub proof fn lemma_increments_are_greater(major: u32, minor: u32, patch: u32)
    ensures
        major < u32::MAX ==> triple_order(((major + 1) as u32, 0u32, 0u32), (major, minor, patch)) > 0,
        minor < u32::MAX ==> triple_order((major, (minor + 1) as u32, 0u32), (major, minor, patch)) > 0,
        patch < u32::MAX ==> triple_order((major, minor, (patch + 1) as u32), (major, minor, patch)) > 0,
{
}


/// Comparing two versions the other way round swaps "greater" and "less"
/// and keeps "equal".
pub proof fn lemma_compare_swap(a: (u32, u32, u32), b: (u32, u32, u32))
    ensures
        order_outcome(triple_order(a, b)) == Some(true) <==> order_outcome(triple_order(b, a)) == Some(false),
        order_outcome(triple_order(a, b)) is None <==> order_outcome(triple_order(b, a)) is None,
        order_outcome(triple_order(a, b)) is None <==> a == b,
{
    lemma_triple_order_antisymmetric(a, b);
}

} // verus!
