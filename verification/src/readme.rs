//! Version references in README files: `crate-name = "X.Y.Z"` lines, as in
//! dependency installation instructions, are moved to the new version.
//!
//! The crate is looked up both with hyphens and with underscores in its name.
use vstd::prelude::*;
use crate::diff::{hyphenated, underscored, push_regex_escaped, regex_compiles, regex_escaped};
use crate::text::{
    is_ws, chars_of, push_char, push_str, range_equals, string_from_chars, trim_lo, trim_lo_at,
    to_owned_string, chars_equal,
};

verus! {

/// Result of updating README version references.
#[derive(Debug)]
pub struct ReadmeUpdateResult {
    /// The updated content (the input content when nothing matched).
    pub content: String,
    /// Whether any reference was rewritten.
    pub modified: bool,
}

/// The regex `(NAME)\s*=\s*"OLD"` with both parts escaped.
pub open spec fn assignment_pattern(name: Seq<char>, old_version: Seq<char>) -> Seq<char> {
    seq!['('] + regex_escaped(name) + seq![')', '\\', 's', '*', '=', '\\', 's', '*', '"']
        + regex_escaped(old_version) + seq!['"']
}

/// The replacement text `NAME = "NEW"`.
pub open spec fn assignment_text(name: Seq<char>, new_version: Seq<char>) -> Seq<char> {
    name + seq![' ', '=', ' ', '"'] + new_version + seq!['"']
}

/// End of the match of `(NAME)\s*=\s*"OLD"` that starts at `i`, or -1 when
/// none starts there.
pub open spec fn assignment_end(s: Seq<char>, i: int, name: Seq<char>, old_version: Seq<char>) -> int {
    let p = i + name.len();
    let r = trim_lo(s, p, s.len() as int);
    let t = trim_lo(s, r + 1, s.len() as int);
    let v = t + 1 + old_version.len();
    if 0 <= i && p <= s.len() && s.subrange(i, p) == name && r < s.len() && s[r] == '=' && t
        < s.len() && s[t] == '"' && v < s.len() && s.subrange(t + 1, v) == old_version && s[v]
        == '"' {
        v + 1
    } else {
        -1
    }
}

/// `s[i..]` with every leftmost non-overlapping match of
/// `(NAME)\s*=\s*"OLD"` replaced by `replacement`.
pub open spec fn replaced_from(
    s: Seq<char>,
    i: int,
    name: Seq<char>,
    old_version: Seq<char>,
    replacement: Seq<char>,
) -> Seq<char>
    decreases s.len() - i,
{
    if i < 0 || i >= s.len() {
        Seq::empty()
    } else if assignment_end(s, i, name, old_version) > i {
        replacement + replaced_from(s, assignment_end(s, i, name, old_version), name, old_version, replacement)
    } else {
        seq![s[i]] + replaced_from(s, i + 1, name, old_version, replacement)
    }
}

/// What `regex::Regex::new(pattern).unwrap().replace_all(text, replacement)`
/// yields; a function of its three arguments.
pub uninterp spec fn regex_replaced(pattern: Seq<char>, text: Seq<char>, replacement: Seq<char>) -> Seq<char>;

/// Calls `regex::Regex::new(pattern)` and `Regex::replace_all(text,
/// replacement)` (with `$` interpolation of capture groups). The result is
/// named by [`regex_replaced`]; nothing more is stated of it.
#[verifier::external_body]
fn regex_replace_all(pattern: &str, text: &str, replacement: &str) -> (r: String)
    requires
        regex_compiles(pattern@),
    ensures
        r@ == regex_replaced(pattern@, text@, replacement@),
{
    regex::Regex::new(pattern).unwrap().replace_all(text, replacement).into_owned()
}

/// `s` contains a `$`.
pub open spec fn has_dollar(s: Seq<char>) -> bool {
    exists|i: int| 0 <= i < s.len() && s[i] == '$'
}

/// One replacement pass for one spelling of the crate name: nothing when the
/// pattern does not compile, the regex crate's interpolating replacement
/// when the replacement text holds a `$`, literal replacement otherwise.
pub open spec fn readme_pass(text: Seq<char>, name: Seq<char>, old_version: Seq<char>, new_version: Seq<char>) -> Seq<char> {
    if !regex_compiles(assignment_pattern(name, old_version)) {
        text
    } else if has_dollar(assignment_text(name, new_version)) {
        regex_replaced(assignment_pattern(name, old_version), text, assignment_text(name, new_version))
    } else {
        replaced_from(text, 0, name, old_version, assignment_text(name, new_version))
    }
}

/// README content after both passes (hyphenated name first).
pub open spec fn readme_updated(content: Seq<char>, package_name: Seq<char>, old_version: Seq<char>, new_version: Seq<char>) -> Seq<char> {
    readme_pass(
        readme_pass(content, hyphenated(package_name), old_version, new_version),
        underscored(package_name),
        old_version,
        new_version,
    )
}

/// Some pass changed the content.
pub open spec fn readme_modified(content: Seq<char>, package_name: Seq<char>, old_version: Seq<char>, new_version: Seq<char>) -> bool {
    let first = readme_pass(content, hyphenated(package_name), old_version, new_version);
    first != content || readme_pass(first, underscored(package_name), old_version, new_version) != first
}

proof fn lemma_assignment_end_after(s: Seq<char>, i: int, name: Seq<char>, old_version: Seq<char>)
    requires
        0 <= i,
    ensures
        assignment_end(s, i, name, old_version) == -1 || (i < assignment_end(s, i, name, old_version) <= s.len()),
{
    let p = i + name.len();
    if p <= s.len() {
        crate::text::lemma_trim_lo_bounds(s, p, s.len() as int);
        let r = trim_lo(s, p, s.len() as int);
        if r < s.len() {
            crate::text::lemma_trim_lo_bounds(s, r + 1, s.len() as int);
        }
    }
}

/// Decides [`assignment_end`].
fn assignment_end_at(s: &Vec<char>, i: usize, name: &Vec<char>, old_version: &Vec<char>) -> (r: Option<usize>)
    requires
        i < s@.len(),
    ensures
        match r {
            Some(e) => assignment_end(s@, i as int, name@, old_version@) == e as int && i < e <= s@.len(),
            None => assignment_end(s@, i as int, name@, old_version@) == -1,
        },
{
    proof {
        lemma_assignment_end_after(s@, i as int, name@, old_version@);
    }
    let n = s.len();
    if name.len() > n - i {
        return None;
    }
    let p = i + name.len();
    if !range_equals(s, i, p, name) {
        return None;
    }
    let r = trim_lo_at(s, p, n);
    if r >= n || s[r] != '=' {
        return None;
    }
    let t = trim_lo_at(s, r + 1, n);
    if t >= n || s[t] != '"' {
        return None;
    }
    if old_version.len() >= n - t - 1 {
        return None;
    }
    let v = t + 1 + old_version.len();
    if range_equals(s, t + 1, v, old_version) && s[v] == '"' {
        Some(v + 1)
    } else {
        None
    }
}

/// Literal replace-all of `(NAME)\s*=\s*"OLD"` by `replacement`.
fn replace_assignments(s: &Vec<char>, name: &Vec<char>, old_version: &Vec<char>, replacement: &str) -> (r: String)
    ensures
        r@ == replaced_from(s@, 0, name@, old_version@, replacement@),
{
    let mut out = String::new();
    let mut i: usize = 0;
    while i < s.len()
        invariant
            0 <= i <= s@.len(),
            replaced_from(s@, 0, name@, old_version@, replacement@) == out@ + replaced_from(s@, i as int, name@, old_version@, replacement@),
        decreases s.len() - i,
    {
        let ghost before = out@;
        match assignment_end_at(s, i, name, old_version) {
            Some(e) => {
                push_str(&mut out, replacement);
                assert(before + replaced_from(s@, i as int, name@, old_version@, replacement@) =~= out@ + replaced_from(s@, e as int, name@, old_version@, replacement@));
                i = e;
            },
            None => {
                push_char(&mut out, s[i]);
                assert(before + replaced_from(s@, i as int, name@, old_version@, replacement@) =~= out@ + replaced_from(s@, i + 1, name@, old_version@, replacement@));
                i = i + 1;
            },
        }
    }
    assert(replaced_from(s@, i as int, name@, old_version@, replacement@) =~= Seq::<char>::empty());
    assert(out@ + Seq::<char>::empty() =~= out@);
    out
}

/// `v` contains a `$`.
fn contains_dollar(v: &Vec<char>) -> (r: bool)
    ensures
        r == has_dollar(v@),
{
    let mut i: usize = 0;
    while i < v.len()
        invariant
            0 <= i <= v@.len(),
            forall|p: int| 0 <= p < i ==> v@[p] != '$',
        decreases v.len() - i,
    {
        if v[i] == '$' {
            return true;
        }
        i = i + 1;
    }
    false
}

/// One replacement pass (see [`readme_pass`]).
fn readme_pass_exec(text: &str, name: &str, old_version: &str, new_version: &str) -> (r: String)
    ensures
        r@ == readme_pass(text@, name@, old_version@, new_version@),
{
    let mut pattern = String::new();
    push_char(&mut pattern, '(');
    push_regex_escaped(&mut pattern, name);
    push_str(&mut pattern, ")\\s*=\\s*\"");
    push_regex_escaped(&mut pattern, old_version);
    push_char(&mut pattern, '"');
    proof {
        reveal_strlit(")\\s*=\\s*\"");
        reveal_strlit(" = \"");
    }
    assert(pattern@ =~= assignment_pattern(name@, old_version@));
    let mut replacement = String::new();
    push_str(&mut replacement, name);
    push_str(&mut replacement, " = \"");
    push_str(&mut replacement, new_version);
    push_char(&mut replacement, '"');
    assert(replacement@ =~= assignment_text(name@, new_version@));
    if !crate::diff::regex_valid(pattern.as_str()) {
        return to_owned_string(text);
    }
    let rep_chars = chars_of(replacement.as_str());
    if contains_dollar(&rep_chars) {
        regex_replace_all(pattern.as_str(), text, replacement.as_str())
    } else {
        let s = chars_of(text);
        let name_chars = chars_of(name);
        let old_chars = chars_of(old_version);
        replace_assignments(&s, &name_chars, &old_chars, replacement.as_str())
    }
}

/// Updates version references in README content.
///
/// Replaces `package-name = "old_version"` (any whitespace around `=`) with
/// `package-name = "new_version"`, for the hyphenated and then the
/// underscored spelling of the package name, and reports whether anything
/// changed.
pub fn update_readme_content(
    content: &str,
    package_name: &str,
    old_version: &str,
    new_version: &str,
) -> (r: ReadmeUpdateResult)
    ensures
        r.content@ == readme_updated(content@, package_name@, old_version@, new_version@),
        r.modified == readme_modified(content@, package_name@, old_version@, new_version@),
{
    let hyphen = string_from_chars(&crate::diff::replace_char_chars(package_name, '_', '-'));
    let underscore = string_from_chars(&crate::diff::replace_char_chars(package_name, '-', '_'));
    let first = readme_pass_exec(content, hyphen.as_str(), old_version, new_version);
    let second = readme_pass_exec(first.as_str(), underscore.as_str(), old_version, new_version);
    let c0 = chars_of(content);
    let c1 = chars_of(first.as_str());
    let c2 = chars_of(second.as_str());
    let modified = !chars_equal(&c1, &c0) || !chars_equal(&c2, &c1);
    ReadmeUpdateResult { content: second, modified }
}

/// A content with no reference to the old version is returned unchanged by
/// a literal replacement pass.
pub proof fn lemma_no_reference_unchanged(s: Seq<char>, i: int, name: Seq<char>, old_version: Seq<char>, replacement: Seq<char>)
    requires
        0 <= i <= s.len(),
        forall|j: int| i <= j < s.len() ==> assignment_end(s, j, name, old_version) == -1,
    ensures
        replaced_from(s, i, name, old_version, replacement) == s.subrange(i, s.len() as int),
    decreases s.len() - i,
{
    if i < s.len() {
        lemma_no_reference_unchanged(s, i + 1, name, old_version, replacement);
        assert(seq![s[i]] + s.subrange(i + 1, s.len() as int) =~= s.subrange(i, s.len() as int));
    } else {
        assert(s.subrange(s.len() as int, s.len() as int) =~= Seq::<char>::empty());
    }
}


/// No character of `x` is whitespace, `=` or `"`: a plain crate name or
/// version string.
pub open spec fn plain_text(x: Seq<char>) -> bool {
    forall|k: int| 0 <= k < x.len() ==> !is_ws(#[trigger] x[k]) && x[k] != '=' && x[k] != '"'
}

/// `s[i..]` has a match of `(NAME)\s*=\s*"OLD"` whose `=` is at `r` and whose
/// opening quote is at `t`.
pub open spec fn assignment_shape(s: Seq<char>, i: int, r: int, t: int, name: Seq<char>, old_version: Seq<char>) -> bool {
    let p = i + name.len();
    let v = t + 1 + old_version.len();
    &&& 0 <= i
    &&& p <= r
    &&& r < t
    &&& v < s.len()
    &&& s.subrange(i, p) == name
    &&& (forall|q: int| p <= q < r ==> is_ws(#[trigger] s[q]))
    &&& s[r] == '='
    &&& (forall|q: int| r + 1 <= q < t ==> is_ws(#[trigger] s[q]))
    &&& s[t] == '"'
    &&& s.subrange(t + 1, v) == old_version
    &&& s[v] == '"'
}

proof fn lemma_trim_lo_stops(s: Seq<char>, a: int, r: int, b: int)
    requires
        0 <= a <= r < b <= s.len(),
        forall|q: int| a <= q < r ==> is_ws(#[trigger] s[q]),
        !is_ws(s[r]),
    ensures
        trim_lo(s, a, b) == r,
    decreases r - a,
{
    if a < r {
        lemma_trim_lo_stops(s, a + 1, r, b);
    }
}

/// A match starts at `i` exactly when some `=` and quote positions give it
/// its shape.
proof fn lemma_assignment_shape(s: Seq<char>, i: int, name: Seq<char>, old_version: Seq<char>)
    ensures
        assignment_end(s, i, name, old_version) != -1 <==> exists|r: int, t: int|
            assignment_shape(s, i, r, t, name, old_version),
{
    let p = i + name.len();
    if assignment_end(s, i, name, old_version) != -1 {
        crate::text::lemma_trim_lo_bounds(s, p, s.len() as int);
        let r = trim_lo(s, p, s.len() as int);
        crate::text::lemma_trim_lo_bounds(s, r + 1, s.len() as int);
        let t = trim_lo(s, r + 1, s.len() as int);
        assert(assignment_shape(s, i, r, t, name, old_version));
    }
    if exists|r: int, t: int| assignment_shape(s, i, r, t, name, old_version) {
        let (r, t) = choose|r: int, t: int| assignment_shape(s, i, r, t, name, old_version);
        assert(!is_ws('='));
        assert(!is_ws('"'));
        lemma_trim_lo_stops(s, p, r, s.len() as int);
        lemma_trim_lo_stops(s, r + 1, t, s.len() as int);
    }
}

/// A match in `pre + x` that starts after `pre` is a match in `x`.
proof fn lemma_shape_shift(pre: Seq<char>, x: Seq<char>, j: int, r: int, t: int, name: Seq<char>, old_version: Seq<char>)
    requires
        j >= pre.len(),
        assignment_shape(pre + x, j, r, t, name, old_version),
    ensures
        assignment_shape(x, j - pre.len(), r - pre.len(), t - pre.len(), name, old_version),
{
    let u = pre + x;
    let n = pre.len() as int;
    let p = j + name.len();
    let v = t + 1 + old_version.len();
    assert(x.subrange(j - n, p - n) =~= u.subrange(j, p));
    assert(x.subrange(t + 1 - n, v - n) =~= u.subrange(t + 1, v));
    assert forall|q: int| p - n <= q < r - n implies is_ws(#[trigger] x[q]) by {
        assert(u[q + n] == x[q]);
    }
    assert forall|q: int| r + 1 - n <= q < t - n implies is_ws(#[trigger] x[q]) by {
        assert(u[q + n] == x[q]);
    }
    assert(u[r] == x[r - n]);
    assert(u[t] == x[t - n]);
    assert(u[v] == x[v - n]);
}

/// No match for `name` starts inside the replacement text `RNAME = "NEW"`,
/// whatever follows it.
proof fn lemma_no_shape_in_replacement(y: Seq<char>, j: int, r: int, t: int, name: Seq<char>, rname: Seq<char>, old_version: Seq<char>, new_version: Seq<char>)
    requires
        name.len() > 0,
        rname.len() == name.len(),
        plain_text(name),
        plain_text(old_version),
        plain_text(new_version),
        old_version != new_version,
        0 <= j < assignment_text(rname, new_version).len(),
    ensures
        !assignment_shape(assignment_text(rname, new_version) + y, j, r, t, name, old_version),
{
    let rep = assignment_text(rname, new_version);
    let u = rep + y;
    let nl = name.len() as int;
    let wl = new_version.len() as int;
    let ol = old_version.len() as int;
    assert(u[nl] == ' ');
    assert(u[nl + 1] == '=');
    assert(u[nl + 2] == ' ');
    assert(u[nl + 3] == '"');
    assert(u[nl + 4 + wl] == '"');
    assert(forall|k: int| 0 <= k < nl ==> u[k] == rname[k]);
    assert(forall|k: int| 0 <= k < wl ==> u[nl + 4 + k] == new_version[k]);
    assert(is_ws(' '));
    assert(!is_ws('='));
    assert(!is_ws('"'));
    if assignment_shape(u, j, r, t, name, old_version) {
        assert(u.subrange(j, j + nl)[0] == name[0]);
        if j == 0 {
            assert(r == nl + 1) by {
                if r < nl + 1 {
                    assert(u[r] == ' ');
                } else if r > nl + 1 {
                    assert(is_ws(u[nl + 1]));
                }
            }
            assert(t == nl + 3) by {
                if t < nl + 3 {
                    assert(t == nl + 2);
                } else if t > nl + 3 {
                    assert(is_ws(u[nl + 3]));
                }
            }
            if ol < wl {
                assert(u[t + 1 + ol] == new_version[ol]);
            } else if ol > wl {
                assert(u.subrange(t + 1, t + 1 + ol)[wl] == u[t + 1 + wl]);
                assert(old_version[wl] == '"');
            } else {
                assert forall|k: int| 0 <= k < ol implies old_version[k] == new_version[k] by {
                    assert(u.subrange(t + 1, t + 1 + ol)[k] == u[t + 1 + k]);
                }
                assert(old_version =~= new_version);
            }
        } else if j < nl {
            assert(u.subrange(j, j + nl)[nl - j] == u[nl]);
            assert(name[nl - j] == ' ');
        } else if j <= nl + 3 {
            assert(name[0] == u[j]);
        } else if j < nl + 4 + wl {
            let p = j + nl;
            if p > nl + 4 + wl {
                assert(u.subrange(j, p)[nl + 4 + wl - j] == u[nl + 4 + wl]);
                assert(name[nl + 4 + wl - j] == '"');
            } else {
                if p < nl + 4 + wl {
                    assert(u[p] == new_version[p - nl - 4]);
                }
                if r == p {
                    assert(u[p] == '=');
                } else {
                    assert(is_ws(u[p]));
                }
            }
        } else {
            assert(name[0] == u[j]);
        }
    }
}


/// A match in `u` that reads only characters that `w` repeats `d` places
/// further on is a match in `w`.
proof fn lemma_shape_transfer(u: Seq<char>, w: Seq<char>, d: int, j: int, r: int, t: int, name: Seq<char>, old_version: Seq<char>)
    requires
        assignment_shape(u, j, r, t, name, old_version),
        j + d >= 0,
        t + 1 + old_version.len() + d < w.len(),
        forall|q: int| j <= q <= t + 1 + old_version.len() ==> #[trigger] w[q + d] == u[q],
    ensures
        assignment_shape(w, j + d, r + d, t + d, name, old_version),
{
    let p = j + name.len();
    let v = t + 1 + old_version.len();
    assert(w.subrange(j + d, p + d) =~= u.subrange(j, p)) by {
        assert forall|q: int| 0 <= q < name.len() implies #[trigger] w.subrange(j + d, p + d)[q] == u.subrange(j, p)[q] by {
            assert(w[(j + q) + d] == u[j + q]);
        }
    }
    assert(w.subrange(t + 1 + d, v + d) =~= u.subrange(t + 1, v)) by {
        assert forall|q: int| 0 <= q < old_version.len() implies #[trigger] w.subrange(t + 1 + d, v + d)[q] == u.subrange(t + 1, v)[q] by {
            assert(w[(t + 1 + q) + d] == u[t + 1 + q]);
        }
    }
    assert forall|q: int| p + d <= q < r + d implies is_ws(#[trigger] w[q]) by {
        assert(w[(q - d) + d] == u[q - d]);
    }
    assert forall|q: int| r + 1 + d <= q < t + d implies is_ws(#[trigger] w[q]) by {
        assert(w[(q - d) + d] == u[q - d]);
    }
    assert(w[r + d] == u[r]);
    assert(w[t + d] == u[t]);
    assert(w[v + d] == u[v]);
}

/// A match for `name` at the start of `a + RNAME = "NEW" + y`, with `a` not
/// empty, ends inside `a`.
proof fn lemma_shape_before_replacement(a: Seq<char>, y: Seq<char>, r: int, t: int, name: Seq<char>, rname: Seq<char>, old_version: Seq<char>, new_version: Seq<char>)
    requires
        a.len() >= 1,
        name.len() > 0,
        rname.len() == name.len(),
        plain_text(rname),
        plain_text(old_version),
        assignment_shape(a + assignment_text(rname, new_version) + y, 0, r, t, name, old_version),
    ensures
        t + 1 + old_version.len() < a.len(),
{
    let rep = assignment_text(rname, new_version);
    let u = a + rep + y;
    let l = a.len() as int;
    let nl = name.len() as int;
    let v = t + 1 + old_version.len();
    assert(forall|k: int| 0 <= k < nl ==> u[l + k] == #[trigger] rname[k]);
    assert(u[l + nl] == ' ');
    assert(is_ws(' '));
    if nl >= l {
        assert(u[nl] == rname[nl - l]);
        if r == nl {
            assert(u[nl] == '=');
        } else {
            assert(is_ws(u[nl]));
        }
    }
    assert(u[l] == rname[0]);
    if r >= l {
        if r > l {
            assert(is_ws(u[l]));
        }
    }
    if t >= l {
        if t > l {
            assert(is_ws(u[l]));
        }
    }
    if v >= l {
        if v > l {
            if v - l > nl {
                assert(u.subrange(t + 1, v)[l + nl - t - 1] == u[l + nl]);
                assert(old_version[l + nl - t - 1] == ' ');
            } else if v - l < nl {
                assert(u[v] == rname[v - l]);
            }
        }
    }
}

/// The first match at or after `i` starts at `k` (`k` is the length when
/// there is none), and the literal pass copies `s[i..k]` before replacing it.
proof fn lemma_first_match(s: Seq<char>, i: int, name: Seq<char>, old_version: Seq<char>, replacement: Seq<char>) -> (k: int)
    requires
        0 <= i <= s.len(),
    ensures
        i <= k <= s.len(),
        forall|m: int| i <= m < k ==> #[trigger] assignment_end(s, m, name, old_version) == -1,
        k < s.len() ==> assignment_end(s, k, name, old_version) > k,
        replaced_from(s, i, name, old_version, replacement) == s.subrange(i, k) + (if k < s.len() {
            replacement + replaced_from(s, assignment_end(s, k, name, old_version), name, old_version, replacement)
        } else {
            Seq::<char>::empty()
        }),
    decreases s.len() - i,
{
    if i >= s.len() {
        assert(s.subrange(i, i) =~= Seq::<char>::empty());
        i
    } else {
        lemma_assignment_end_after(s, i, name, old_version);
        if assignment_end(s, i, name, old_version) > i {
            assert(s.subrange(i, i) =~= Seq::<char>::empty());
            i
        } else {
            let k = lemma_first_match(s, i + 1, name, old_version, replacement);
            let tail = if k < s.len() {
                replacement + replaced_from(s, assignment_end(s, k, name, old_version), name, old_version, replacement)
            } else {
                Seq::<char>::empty()
            };
            assert(seq![s[i]] + (s.subrange(i + 1, k) + tail) =~= s.subrange(i, k) + tail);
            k
        }
    }
}

/// The literal pass that rewrites the matches for `rname` leaves no match
/// for `name` at any position of what it produces from `s[i..]`, when every
/// position of `s[i..]` that it copies has no match for `name` either.
proof fn lemma_no_shape_left(s: Seq<char>, i: int, name: Seq<char>, rname: Seq<char>, old_version: Seq<char>, new_version: Seq<char>)
    requires
        0 <= i <= s.len(),
        name.len() > 0,
        rname.len() == name.len(),
        plain_text(name),
        plain_text(rname),
        plain_text(old_version),
        plain_text(new_version),
        old_version != new_version,
        forall|m: int| i <= m < s.len() && assignment_end(s, m, rname, old_version) == -1
            ==> #[trigger] assignment_end(s, m, name, old_version) == -1,
    ensures
        forall|j: int, r: int, t: int| !assignment_shape(
            replaced_from(s, i, rname, old_version, assignment_text(rname, new_version)),
            j,
            r,
            t,
            name,
            old_version,
        ),
    decreases s.len() - i,
{
    let rep = assignment_text(rname, new_version);
    let out = replaced_from(s, i, rname, old_version, rep);
    if i >= s.len() {
        assert(out.len() == 0);
    } else {
        lemma_assignment_end_after(s, i, rname, old_version);
        let e = assignment_end(s, i, rname, old_version);
        if e > i {
            lemma_no_shape_left(s, e, name, rname, old_version, new_version);
            let rest = replaced_from(s, e, rname, old_version, rep);
            assert(out == rep + rest);
            assert forall|j: int, r: int, t: int| !assignment_shape(out, j, r, t, name, old_version) by {
                if assignment_shape(out, j, r, t, name, old_version) {
                    if j < rep.len() {
                        lemma_no_shape_in_replacement(rest, j, r, t, name, rname, old_version, new_version);
                    } else {
                        lemma_shape_shift(rep, rest, j, r, t, name, old_version);
                    }
                }
            }
        } else {
            lemma_no_shape_left(s, i + 1, name, rname, old_version, new_version);
            let rest = replaced_from(s, i + 1, rname, old_version, rep);
            assert(out == seq![s[i]] + rest);
            assert forall|j: int, r: int, t: int| !assignment_shape(out, j, r, t, name, old_version) by {
                if assignment_shape(out, j, r, t, name, old_version) {
                    if j >= 1 {
                        lemma_shape_shift(seq![s[i]], rest, j, r, t, name, old_version);
                    } else {
                        let k = lemma_first_match(s, i, rname, old_version, rep);
                        assert(k != i);
                        let v = t + 1 + old_version.len();
                        if k < s.len() {
                            let y = replaced_from(s, assignment_end(s, k, rname, old_version), rname, old_version, rep);
                            assert(out =~= s.subrange(i, k) + rep + y);
                            lemma_shape_before_replacement(s.subrange(i, k), y, r, t, name, rname, old_version, new_version);
                            assert forall|q: int| 0 <= q <= v implies #[trigger] s[q + i] == out[q] by {
                                assert(out[q] == s.subrange(i, k)[q]);
                            }
                        } else {
                            assert(out =~= s.subrange(i, k) + Seq::<char>::empty());
                            assert forall|q: int| 0 <= q <= v implies #[trigger] s[q + i] == out[q] by {
                                assert(out[q] == s.subrange(i, k)[q]);
                            }
                        }
                        lemma_shape_transfer(out, s, i, 0, r, t, name, old_version);
                        lemma_assignment_shape(s, i, name, old_version);
                    }
                }
            }
        }
    }
}

/// After a literal replacement pass of `NAME = "OLD"` by `NAME = "NEW"`, no
/// reference to the old version is left: no match of `(NAME)\s*=\s*"OLD"`
/// starts anywhere in the result. This holds when the name is not empty, the
/// two versions differ, and none of the three contains whitespace, `=` or
/// `"` (otherwise the new text can itself spell a reference to the old
/// version).
pub proof fn lemma_literal_pass_leaves_no_old_reference(s: Seq<char>, name: Seq<char>, old_version: Seq<char>, new_version: Seq<char>)
    requires
        name.len() > 0,
        plain_text(name),
        plain_text(old_version),
        plain_text(new_version),
        old_version != new_version,
    ensures
        forall|j: int| #[trigger] assignment_end(
            replaced_from(s, 0, name, old_version, assignment_text(name, new_version)),
            j,
            name,
            old_version,
        ) == -1,
{
    let out = replaced_from(s, 0, name, old_version, assignment_text(name, new_version));
    lemma_no_shape_left(s, 0, name, name, old_version, new_version);
    assert forall|j: int| #[trigger] assignment_end(out, j, name, old_version) == -1 by {
        lemma_assignment_shape(out, j, name, old_version);
    }
}


/// After `update_readme_content`, no `crate-name = "OLD"` reference is left,
/// in either spelling of the name: no match of `(NAME)\s*=\s*"OLD"` starts
/// anywhere in the updated content, for the name with hyphens or with
/// underscores. This holds when both patterns compile, the name is not
/// empty, the versions differ, and neither the name nor the versions contain
/// whitespace, `=` or `"`, nor the name or the new version a `$`. Under the
/// same conditions the update reports a change exactly when the content
/// changed.
pub proof fn lemma_readme_update_leaves_no_old_reference(
    content: Seq<char>,
    package_name: Seq<char>,
    old_version: Seq<char>,
    new_version: Seq<char>,
)
    requires
        package_name.len() > 0,
        plain_text(package_name),
        plain_text(old_version),
        plain_text(new_version),
        old_version != new_version,
        !has_dollar(package_name),
        !has_dollar(new_version),
        regex_compiles(assignment_pattern(hyphenated(package_name), old_version)),
        regex_compiles(assignment_pattern(underscored(package_name), old_version)),
    ensures
        forall|j: int| #[trigger] assignment_end(
            readme_updated(content, package_name, old_version, new_version),
            j,
            hyphenated(package_name),
            old_version,
        ) == -1,
        forall|j: int| #[trigger] assignment_end(
            readme_updated(content, package_name, old_version, new_version),
            j,
            underscored(package_name),
            old_version,
        ) == -1,
        readme_modified(content, package_name, old_version, new_version) == (readme_updated(
            content,
            package_name,
            old_version,
            new_version,
        ) != content),
{
    let hname = hyphenated(package_name);
    let uname = underscored(package_name);
    lemma_spelling_is_plain(package_name, new_version, '-', '_');
    lemma_spelling_is_plain(package_name, new_version, '_', '-');
    let first = readme_pass(content, hname, old_version, new_version);
    let out = readme_updated(content, package_name, old_version, new_version);
    lemma_literal_pass_leaves_no_old_reference(content, hname, old_version, new_version);
    lemma_literal_pass_leaves_no_old_reference(first, uname, old_version, new_version);
    lemma_no_shape_left(first, 0, hname, uname, old_version, new_version);
    assert forall|j: int| #[trigger] assignment_end(out, j, hname, old_version) == -1 by {
        lemma_assignment_shape(out, j, hname, old_version);
    }
    if first != content {
        if forall|j: int| 0 <= j < content.len() ==> #[trigger] assignment_end(content, j, hname, old_version) == -1 {
            lemma_no_reference_unchanged(content, 0, hname, old_version, assignment_text(hname, new_version));
            assert(content.subrange(0, content.len() as int) =~= content);
        }
        let j = choose|j: int| 0 <= j < content.len() && #[trigger] assignment_end(content, j, hname, old_version) != -1;
        assert(assignment_end(out, j, hname, old_version) == -1);
    }
}

/// The name spelled with `to` in place of `from` (`-` or `_`) is plain and
/// its replacement text holds no `$` when the name and the new version are
/// plain and hold none.
proof fn lemma_spelling_is_plain(package_name: Seq<char>, new_version: Seq<char>, to: char, from: char)
    requires
        plain_text(package_name),
        !has_dollar(package_name),
        !has_dollar(new_version),
        to == '-' || to == '_',
    ensures
        plain_text(package_name.map_values(|c: char| if c == from { to } else { c })),
        !has_dollar(assignment_text(package_name.map_values(|c: char| if c == from { to } else { c }), new_version)),
{
    let name = package_name.map_values(|c: char| if c == from { to } else { c });
    let rep = assignment_text(name, new_version);
    assert(!is_ws('_'));
    assert(!is_ws('-'));
    assert forall|k: int| 0 <= k < name.len() implies !is_ws(#[trigger] name[k]) && name[k] != '=' && name[k] != '"' by {
        assert(name[k] == (if package_name[k] == from { to } else { package_name[k] }));
    }
    if has_dollar(rep) {
        let k = choose|k: int| 0 <= k < rep.len() && rep[k] == '$';
        let nl = name.len() as int;
        if k < nl {
            assert(name[k] == (if package_name[k] == from { to } else { package_name[k] }));
        } else if k >= nl + 4 && k < nl + 4 + new_version.len() {
            assert(rep[k] == new_version[k - nl - 4]);
        }
    }
}

} // verus!
