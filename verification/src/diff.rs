//! Hunk-level staging: only the version-related lines of a line diff between
//! the content in `HEAD` and the working copy are applied; every other change
//! stays unstaged.
use vstd::prelude::*;
use crate::text::{
    chars_of, push_char, push_str, range_equals, string_from_chars, trim_lo, trim_lo_at,
};

verus! {

/// Kind of a line in a line diff.
#[derive(Debug, Clone, Copy, PartialEq, Eq, Structural)]
pub enum ChangeTag {
    /// The line is in both texts.
    Equal,
    /// The line is only in the old text.
    Delete,
    /// The line is only in the new text.
    Insert,
}

/// One line of a line diff, with its line terminator.
#[derive(Debug)]
pub struct LineChange {
    /// Which side(s) the line belongs to.
    pub tag: ChangeTag,
    /// The line text, including its terminator when it has one.
    pub line: String,
}

/// The changes that `similar::TextDiff::from_lines(old, new).iter_all_changes()`
/// yields, in order.
pub uninterp spec fn line_diff(old: Seq<char>, new: Seq<char>) -> Seq<(ChangeTag, Seq<char>)>;

/// The plain view of a list of changes.
pub open spec fn changes_view(v: Seq<LineChange>) -> Seq<(ChangeTag, Seq<char>)> {
    v.map_values(|c: LineChange| (c.tag, c.line@))
}

/// The text that the old side of a diff spells: its equal and deleted lines.
pub open spec fn old_side(d: Seq<(ChangeTag, Seq<char>)>) -> Seq<char>
    decreases d.len(),
{
    if d.len() == 0 {
        Seq::empty()
    } else {
        (if d[0].0 != ChangeTag::Insert {
            d[0].1
        } else {
            Seq::empty()
        }) + old_side(d.drop_first())
    }
}

/// The text that the new side of a diff spells: its equal and inserted lines.
pub open spec fn new_side(d: Seq<(ChangeTag, Seq<char>)>) -> Seq<char>
    decreases d.len(),
{
    if d.len() == 0 {
        Seq::empty()
    } else {
        (if d[0].0 != ChangeTag::Delete {
            d[0].1
        } else {
            Seq::empty()
        }) + new_side(d.drop_first())
    }
}

/// Line diff of two texts.
///
/// Calls `similar::TextDiff::from_lines(old, new).iter_all_changes()`. The
/// result is named by [`line_diff`]. The contract also states what the
/// crate's change iterator guarantees: the equal and deleted lines, in order,
/// spell `old`; the equal and inserted lines spell `new` (each equal change
/// carries a line of `old` that the differ matched to an identical line of
/// `new`; the lines keep their terminators). Two identical texts give only
/// equal changes: the default Myers differ first takes the longest common
/// prefix of the two line lists, which is then all of them. Each change is
/// one whole line: the crate's line tokenizer cuts after every `\n` (and
/// after a `\r` not followed by `\n`), so a change's text is not empty and
/// holds a `\n` only as its last character.
#[verifier::external_body]
fn diff_lines(old: &str, new: &str) -> (r: Vec<LineChange>)
    ensures
        changes_view(r@) == line_diff(old@, new@),
        old_side(changes_view(r@)) == old@,
        new_side(changes_view(r@)) == new@,
        old@ == new@ ==> forall|i: int| 0 <= i < r@.len() ==> (#[trigger] r@[i]).tag == ChangeTag::Equal,
        forall|i: int| 0 <= i < r@.len() ==> (#[trigger] r@[i]).line@.len() > 0 && forall|j: int|
            0 <= j < r@[i].line@.len() - 1 ==> r@[i].line@[j] != '\n',
{
    let diff = similar::TextDiff::from_lines(old, new);
    let mut out = Vec::new();
    for change in diff.iter_all_changes() {
        let tag = match change.tag() {
            similar::ChangeTag::Equal => ChangeTag::Equal,
            similar::ChangeTag::Delete => ChangeTag::Delete,
            similar::ChangeTag::Insert => ChangeTag::Insert,
        };
        out.push(LineChange { tag, line: change.value().to_string() });
    }
    out
}

/// The text staged from a diff when the changes of lines that satisfy
/// `related` are applied and all other changes are left out: equal lines,
/// related inserted lines and unrelated deleted lines, in order.
pub open spec fn staged_text(
    d: Seq<(ChangeTag, Seq<char>)>,
    related: spec_fn(Seq<char>) -> bool,
) -> Seq<char>
    decreases d.len(),
{
    if d.len() == 0 {
        Seq::empty()
    } else {
        let keep = match d[0].0 {
            ChangeTag::Equal => true,
            ChangeTag::Delete => !related(d[0].1),
            ChangeTag::Insert => related(d[0].1),
        };
        (if keep {
            d[0].1
        } else {
            Seq::empty()
        }) + staged_text(d.drop_first(), related)
    }
}

/// Some inserted or deleted line of the diff does not satisfy `related`.
pub open spec fn has_unrelated_change(
    d: Seq<(ChangeTag, Seq<char>)>,
    related: spec_fn(Seq<char>) -> bool,
) -> bool {
    exists|i: int| 0 <= i < d.len() && d[i].0 != ChangeTag::Equal && !related(#[trigger] d[i].1)
}

/// Some inserted or deleted line of the diff satisfies `related`.
pub open spec fn has_related_change(
    d: Seq<(ChangeTag, Seq<char>)>,
    related: spec_fn(Seq<char>) -> bool,
) -> bool {
    exists|i: int| 0 <= i < d.len() && d[i].0 != ChangeTag::Equal && related(#[trigger] d[i].1)
}

/// When every change of a diff is related, staging the related changes
/// yields the new side of the diff.
pub proof fn lemma_staged_all_related(
    d: Seq<(ChangeTag, Seq<char>)>,
    related: spec_fn(Seq<char>) -> bool,
)
    requires
        !has_unrelated_change(d, related),
    ensures
        staged_text(d, related) == new_side(d),
    decreases d.len(),
{
    if d.len() > 0 {
        assert forall|i: int| 0 <= i < d.drop_first().len() && d.drop_first()[i].0
            != ChangeTag::Equal implies related(#[trigger] d.drop_first()[i].1) by {
            assert(d.drop_first()[i] == d[i + 1]);
        }
        lemma_staged_all_related(d.drop_first(), related);
        if d[0].0 != ChangeTag::Equal {
            assert(related(d[0].1));
        }
    }
}

/// When no change of a diff is related, staging the related changes yields
/// the old side of the diff.
pub proof fn lemma_staged_none_related(
    d: Seq<(ChangeTag, Seq<char>)>,
    related: spec_fn(Seq<char>) -> bool,
)
    requires
        !has_related_change(d, related),
    ensures
        staged_text(d, related) == old_side(d),
    decreases d.len(),
{
    if d.len() > 0 {
        assert forall|i: int| 0 <= i < d.drop_first().len() && d.drop_first()[i].0
            != ChangeTag::Equal implies !related(#[trigger] d.drop_first()[i].1) by {
            assert(d.drop_first()[i] == d[i + 1]);
        }
        lemma_staged_none_related(d.drop_first(), related);
        if d[0].0 != ChangeTag::Equal {
            assert(!related(d[0].1));
        }
    }
}

/// `t` occurs in `s`.
pub open spec fn contains(s: Seq<char>, t: Seq<char>) -> bool {
    exists|i: int| 0 <= i <= s.len() - t.len() && #[trigger] s.subrange(i, i + t.len()) == t
}

/// The text `version`.
pub open spec fn version_word() -> Seq<char> {
    seq!['v', 'e', 'r', 's', 'i', 'o', 'n']
}

/// A manifest line is version-related when it mentions `version`, the old
/// version or the new version.
pub open spec fn version_related(line: Seq<char>, old_version: Seq<char>, new_version: Seq<char>) -> bool {
    contains(line, version_word()) || contains(line, old_version) || contains(line, new_version)
}

/// `t` occurs in `s`.
pub fn text_contains(s: &Vec<char>, t: &Vec<char>) -> (r: bool)
    ensures
        r == contains(s@, t@),
{
    if t.len() > s.len() {
        return false;
    }
    let tn = t.len();
    let sn = s.len();
    let last = sn - tn;
    let mut i: usize = 0;
    loop
        invariant
            t@.len() <= s@.len(),
            last == s@.len() - t@.len(),
            tn == t@.len(),
            sn == s@.len(),
            last + tn == sn,
            0 <= i <= last,
            forall|p: int| 0 <= p < i ==> #[trigger] s@.subrange(p, p + t@.len()) != t@,
        decreases last - i,
    {
        if range_equals(s, i, i + tn, t) {
            return true;
        }
        if i == last {
            return false;
        }
        i = i + 1;
    }
}

/// Applies, from the working copy, only the changes of lines that mention
/// `version` or one of the two version strings; all other changes keep the
/// content that `HEAD` has.
pub fn apply_version_hunks(
    head_content: &str,
    working_content: &str,
    old_version: &str,
    new_version: &str,
) -> (r: Result<String, StagingError>)
    ensures
        r matches Ok(s) && s@ == staged_text(
            line_diff(head_content@, working_content@),
            |l: Seq<char>| version_related(l, old_version@, new_version@),
        ),
        !has_unrelated_change(
            line_diff(head_content@, working_content@),
            |l: Seq<char>| version_related(l, old_version@, new_version@),
        ) ==> (r matches Ok(s) && s@ == working_content@),
        !has_related_change(
            line_diff(head_content@, working_content@),
            |l: Seq<char>| version_related(l, old_version@, new_version@),
        ) ==> (r matches Ok(s) && s@ == head_content@),
        head_content@ == working_content@ ==> (r matches Ok(s) && s@ == head_content@),
{
    let changes = diff_lines(head_content, working_content);
    let word = vec!['v', 'e', 'r', 's', 'i', 'o', 'n'];
    assert(word@ =~= version_word());
    let old_v = chars_of(old_version);
    let new_v = chars_of(new_version);
    let ghost related = |l: Seq<char>| version_related(l, old_version@, new_version@);
    let ghost d = changes_view(changes@);
    let mut out = String::new();
    let mut i: usize = 0;
    assert(d.skip(0) =~= d);
    while i < changes.len()
        invariant
            0 <= i <= changes@.len(),
            d == changes_view(changes@),
            word@ == version_word(),
            old_v@ == old_version@,
            new_v@ == new_version@,
            related == (|l: Seq<char>| version_related(l, old_version@, new_version@)),
            staged_text(d, related) == out@ + staged_text(d.skip(i as int), related),
        decreases changes.len() - i,
    {
        let change = &changes[i];
        let line = chars_of(change.line.as_str());
        let is_related = text_contains(&line, &word) || text_contains(&line, &old_v)
            || text_contains(&line, &new_v);
        assert(d.skip(i as int)[0] == d[i as int]);
        assert(d.skip(i as int).drop_first() =~= d.skip(i + 1));
        let keep = match change.tag {
            ChangeTag::Equal => true,
            ChangeTag::Delete => !is_related,
            ChangeTag::Insert => is_related,
        };
        let ghost before = out@;
        if keep {
            push_str(&mut out, change.line.as_str());
        }
        assert(before + staged_text(d.skip(i as int), related) =~= out@ + staged_text(
            d.skip(i + 1),
            related,
        ));
        i = i + 1;
    }
    assert(d.skip(i as int) =~= Seq::<(ChangeTag, Seq<char>)>::empty());
    proof {
        if head_content@ == working_content@ {
            assert forall|k: int| 0 <= k < d.len() implies d[k].0 == ChangeTag::Equal by {
                assert(d[k] == (changes@[k].tag, changes@[k].line@));
            }
        }
        if !has_unrelated_change(d, related) {
            lemma_staged_all_related(d, related);
        }
        if !has_related_change(d, related) {
            lemma_staged_none_related(d, related);
        }
    }
    Ok(out)
}

/// The file has changes beyond version modifications: some inserted or
/// deleted line mentions neither `version` nor one of the version strings.
pub fn has_non_version_changes(
    head_content: &str,
    working_content: &str,
    old_version: &str,
    new_version: &str,
) -> (r: bool)
    ensures
        r == has_unrelated_change(
            line_diff(head_content@, working_content@),
            |l: Seq<char>| version_related(l, old_version@, new_version@),
        ),
        head_content@ == working_content@ ==> !r,
{
    let changes = diff_lines(head_content, working_content);
    let word = vec!['v', 'e', 'r', 's', 'i', 'o', 'n'];
    assert(word@ =~= version_word());
    let old_v = chars_of(old_version);
    let new_v = chars_of(new_version);
    let ghost related = |l: Seq<char>| version_related(l, old_version@, new_version@);
    let ghost d = changes_view(changes@);
    let mut i: usize = 0;
    while i < changes.len()
        invariant
            0 <= i <= changes@.len(),
            d == changes_view(changes@),
            word@ == version_word(),
            old_v@ == old_version@,
            new_v@ == new_version@,
            related == (|l: Seq<char>| version_related(l, old_version@, new_version@)),
            d == line_diff(head_content@, working_content@),
            head_content@ == working_content@ ==> forall|k: int|
                0 <= k < changes@.len() ==> (#[trigger] changes@[k]).tag == ChangeTag::Equal,
            forall|p: int| 0 <= p < i && d[p].0 != ChangeTag::Equal ==> related(#[trigger] d[p].1),
        decreases changes.len() - i,
    {
        let change = &changes[i];
        if change.tag != ChangeTag::Equal {
            let line = chars_of(change.line.as_str());
            let is_related = text_contains(&line, &word) || text_contains(&line, &old_v)
                || text_contains(&line, &new_v);
            if !is_related {
                assert(d[i as int] == (changes@[i as int].tag, changes@[i as int].line@));
                assert(d[i as int].0 != ChangeTag::Equal && !related(d[i as int].1));
                assert(has_unrelated_change(d, related));
                return true;
            }
        }
        i = i + 1;
    }
    false
}

/// A character that `regex::escape` escapes.
pub open spec fn is_regex_meta(c: char) -> bool {
    c == '\\' || c == '.' || c == '+' || c == '*' || c == '?' || c == '(' || c == ')' || c
        == '|' || c == '[' || c == ']' || c == '{' || c == '}' || c == '^' || c == '$' || c
        == '#' || c == '&' || c == '-' || c == '~'
}

/// `s` with a backslash before every regex meta character (`regex::escape`).
pub open spec fn regex_escaped(s: Seq<char>) -> Seq<char>
    decreases s.len(),
{
    if s.len() == 0 {
        Seq::empty()
    } else {
        regex_escaped(s.drop_last()) + (if is_regex_meta(s.last()) {
            seq!['\\', s.last()]
        } else {
            seq![s.last()]
        })
    }
}

/// Appends `s` to `out`, escaped as a regex literal.
pub fn push_regex_escaped(out: &mut String, s: &str)
    ensures
        final(out)@ == old(out)@ + regex_escaped(s@),
{
    let v = chars_of(s);
    let mut i: usize = 0;
    while i < v.len()
        invariant
            0 <= i <= v@.len(),
            v@ == s@,
            out@ == old(out)@ + regex_escaped(v@.subrange(0, i as int)),
        decreases v.len() - i,
    {
        let c = v[i];
        let ghost before = out@;
        assert(v@.subrange(0, i + 1).drop_last() =~= v@.subrange(0, i as int));
        if c == '\\' || c == '.' || c == '+' || c == '*' || c == '?' || c == '(' || c == ')' || c
            == '|' || c == '[' || c == ']' || c == '{' || c == '}' || c == '^' || c == '$' || c
            == '#' || c == '&' || c == '-' || c == '~' {
            push_char(out, '\\');
        }
        push_char(out, c);
        assert(out@ =~= old(out)@ + regex_escaped(v@.subrange(0, i + 1)));
        i = i + 1;
    }
    assert(v@.subrange(0, v@.len() as int) =~= v@);
}

/// Whether `regex::Regex::new` accepts the pattern (with its default
/// limits); a function of the pattern alone.
pub uninterp spec fn regex_compiles(pattern: Seq<char>) -> bool;

/// Calls `regex::Regex::new(pattern)` and reports whether it built a regex;
/// what it builds is not used. The result is named by [`regex_compiles`].
#[verifier::external_body]
pub(crate) fn regex_valid(pattern: &str) -> (r: bool)
    ensures
        r == regex_compiles(pattern@),
{
    regex::Regex::new(pattern).is_ok()
}

/// `crate_name` with `_` spelled `-`.
pub open spec fn hyphenated(s: Seq<char>) -> Seq<char> {
    s.map_values(|c: char| if c == '_' { '-' } else { c })
}

/// `crate_name` with `-` spelled `_`.
pub open spec fn underscored(s: Seq<char>) -> Seq<char> {
    s.map_values(|c: char| if c == '-' { '_' } else { c })
}

/// `s` with every `from` replaced by `to`.
pub fn replace_char_chars(s: &str, from: char, to: char) -> (r: Vec<char>)
    ensures
        r@ == s@.map_values(|c: char| if c == from { to } else { c }),
{
    let v = chars_of(s);
    let mut out: Vec<char> = Vec::new();
    let mut i: usize = 0;
    while i < v.len()
        invariant
            0 <= i <= v@.len(),
            v@ == s@,
            out@ == v@.subrange(0, i as int).map_values(|c: char| if c == from { to } else { c }),
        decreases v.len() - i,
    {
        let c = v[i];
        out.push(if c == from { to } else { c });
        assert(v@.subrange(0, i + 1).map_values(|c: char| if c == from { to } else { c }) =~= v@.subrange(
            0,
            i as int,
        ).map_values(|c: char| if c == from { to } else { c }).push(if c == from { to } else { c }));
        i = i + 1;
    }
    assert(v@.subrange(0, v@.len() as int) =~= v@);
    out
}

/// The regex `NAME(\s|[-_])?\s*=\s*"VERSION"` with both parts escaped.
pub open spec fn readme_line_pattern(name: Seq<char>, version: Seq<char>) -> Seq<char> {
    regex_escaped(name) + seq!['(', '\\', 's', '|', '[', '-', '_', ']', ')', '?', '\\', 's', '*', '=', '\\', 's', '*', '"']
        + regex_escaped(version) + seq!['"']
}

/// At index `i` of `s` starts a match of `NAME(\s|[-_])?\s*=\s*"VERSION"`:
/// the name, then optionally one `-` or `_`, whitespace, `=`, whitespace,
/// and the version in double quotes.
pub open spec fn dependency_at(s: Seq<char>, i: int, name: Seq<char>, version: Seq<char>) -> bool {
    let p = i + name.len();
    let q = if p < s.len() && (s[p] == '-' || s[p] == '_') {
        p + 1
    } else {
        p
    };
    let r = trim_lo(s, q, s.len() as int);
    let t = trim_lo(s, r + 1, s.len() as int);
    &&& 0 <= i
    &&& p <= s.len()
    &&& s.subrange(i, p) == name
    &&& r < s.len()
    &&& s[r] == '='
    &&& t < s.len()
    &&& s[t] == '"'
    &&& t + 1 + version.len() < s.len()
    &&& s.subrange(t + 1, t + 1 + version.len()) == version
    &&& s[t + 1 + version.len()] == '"'
}

/// The regex `NAME(\s|[-_])?\s*=\s*"VERSION"` compiles and matches `s`.
pub open spec fn mentions_dependency(s: Seq<char>, name: Seq<char>, version: Seq<char>) -> bool {
    regex_compiles(readme_line_pattern(name, version)) && exists|i: int|
        0 <= i <= s.len() && #[trigger] dependency_at(s, i, name, version)
}

/// A README line is version-related when it pins the crate (spelled with
/// hyphens or with underscores) to the old or the new version.
pub open spec fn readme_version_related(
    line: Seq<char>,
    crate_name: Seq<char>,
    old_version: Seq<char>,
    new_version: Seq<char>,
) -> bool {
    ||| mentions_dependency(line, hyphenated(crate_name), old_version)
    ||| mentions_dependency(line, hyphenated(crate_name), new_version)
    ||| mentions_dependency(line, underscored(crate_name), old_version)
    ||| mentions_dependency(line, underscored(crate_name), new_version)
}

/// Decides [`dependency_at`].
fn dependency_at_exec(s: &Vec<char>, i: usize, name: &Vec<char>, version: &Vec<char>) -> (r: bool)
    requires
        i <= s@.len(),
    ensures
        r == dependency_at(s@, i as int, name@, version@),
{
    let n = s.len();
    if name.len() > n - i {
        return false;
    }
    let p = i + name.len();
    if !range_equals(s, i, p, name) {
        return false;
    }
    let q = if p < n && (s[p] == '-' || s[p] == '_') {
        p + 1
    } else {
        p
    };
    let r = trim_lo_at(s, q, n);
    if r >= n || s[r] != '=' {
        return false;
    }
    let t = trim_lo_at(s, r + 1, n);
    if t >= n || s[t] != '"' {
        return false;
    }
    if version.len() >= n - t - 1 {
        return false;
    }
    let v_end = t + 1 + version.len();
    range_equals(s, t + 1, v_end, version) && s[v_end] == '"'
}

/// Decides whether some index of `s` starts a [`dependency_at`] match.
fn find_dependency(s: &Vec<char>, name: &Vec<char>, version: &Vec<char>) -> (r: bool)
    ensures
        r == exists|i: int| 0 <= i <= s@.len() && #[trigger] dependency_at(s@, i, name@, version@),
{
    let mut i: usize = 0;
    loop
        invariant
            0 <= i <= s@.len(),
            forall|p: int| 0 <= p < i ==> !#[trigger] dependency_at(s@, p, name@, version@),
        decreases s@.len() - i,
    {
        if dependency_at_exec(s, i, name, version) {
            return true;
        }
        if i == s.len() {
            return false;
        }
        i = i + 1;
    }
}

/// The compiled-pattern facts of the four README line patterns of a crate.
struct ReadmePatterns {
    hyphen_name: Vec<char>,
    underscore_name: Vec<char>,
    old_version: Vec<char>,
    new_version: Vec<char>,
    hyphen_old: bool,
    hyphen_new: bool,
    underscore_old: bool,
    underscore_new: bool,
}

impl ReadmePatterns {
    spec fn describes(&self, crate_name: Seq<char>, old_version: Seq<char>, new_version: Seq<char>) -> bool {
        &&& self.hyphen_name@ == hyphenated(crate_name)
        &&& self.underscore_name@ == underscored(crate_name)
        &&& self.old_version@ == old_version
        &&& self.new_version@ == new_version
        &&& self.hyphen_old == regex_compiles(readme_line_pattern(hyphenated(crate_name), old_version))
        &&& self.hyphen_new == regex_compiles(readme_line_pattern(hyphenated(crate_name), new_version))
        &&& self.underscore_old == regex_compiles(readme_line_pattern(underscored(crate_name), old_version))
        &&& self.underscore_new == regex_compiles(readme_line_pattern(underscored(crate_name), new_version))
    }
}

fn line_pattern_compiles(name: &str, version: &str) -> (r: bool)
    ensures
        r == regex_compiles(readme_line_pattern(name@, version@)),
{
    let mut p = String::new();
    push_regex_escaped(&mut p, name);
    push_str(&mut p, "(\\s|[-_])?\\s*=\\s*\"");
    push_regex_escaped(&mut p, version);
    push_char(&mut p, '"');
    proof {
        reveal_strlit("(\\s|[-_])?\\s*=\\s*\"");
    }
    assert(p@ =~= readme_line_pattern(name@, version@));
    regex_valid(p.as_str())
}

fn readme_patterns(crate_name: &str, old_version: &str, new_version: &str) -> (r: ReadmePatterns)
    ensures
        r.describes(crate_name@, old_version@, new_version@),
{
    let hyphen_name = replace_char_chars(crate_name, '_', '-');
    let underscore_name = replace_char_chars(crate_name, '-', '_');
    let hs = string_from_chars(&hyphen_name);
    let us = string_from_chars(&underscore_name);
    let hyphen_old = line_pattern_compiles(hs.as_str(), old_version);
    let hyphen_new = line_pattern_compiles(hs.as_str(), new_version);
    let underscore_old = line_pattern_compiles(us.as_str(), old_version);
    let underscore_new = line_pattern_compiles(us.as_str(), new_version);
    ReadmePatterns {
        hyphen_name,
        underscore_name,
        old_version: chars_of(old_version),
        new_version: chars_of(new_version),
        hyphen_old,
        hyphen_new,
        underscore_old,
        underscore_new,
    }
}

fn is_readme_version_line(line: &Vec<char>, pats: &ReadmePatterns, crate_name: Ghost<Seq<char>>, old_version: Ghost<Seq<char>>, new_version: Ghost<Seq<char>>) -> (r: bool)
    requires
        pats.describes(crate_name@, old_version@, new_version@),
    ensures
        r == readme_version_related(line@, crate_name@, old_version@, new_version@),
{
    (pats.hyphen_old && find_dependency(line, &pats.hyphen_name, &pats.old_version)) || (
    pats.hyphen_new && find_dependency(line, &pats.hyphen_name, &pats.new_version)) || (
    pats.underscore_old && find_dependency(line, &pats.underscore_name, &pats.old_version)) || (
    pats.underscore_new && find_dependency(line, &pats.underscore_name, &pats.new_version))
}

/// Stages the changes whose `related` flag is set (see [`staged_text`]).
fn stage_flagged(changes: &Vec<LineChange>, flags: &Vec<bool>, related: Ghost<spec_fn(Seq<char>) -> bool>) -> (s: String)
    requires
        flags@.len() == changes@.len(),
        forall|i: int| 0 <= i < changes@.len() ==> flags@[i] == related@(#[trigger] changes@[i].line@),
    ensures
        s@ == staged_text(changes_view(changes@), related@),
        !has_unrelated_change(changes_view(changes@), related@) ==> s@ == new_side(changes_view(changes@)),
        !has_related_change(changes_view(changes@), related@) ==> s@ == old_side(changes_view(changes@)),
{
    let ghost d = changes_view(changes@);
    let mut out = String::new();
    let mut i: usize = 0;
    assert(d.skip(0) =~= d);
    while i < changes.len()
        invariant
            0 <= i <= changes@.len(),
            flags@.len() == changes@.len(),
            forall|i: int| 0 <= i < changes@.len() ==> flags@[i] == related@(#[trigger] changes@[i].line@),
            d == changes_view(changes@),
            staged_text(d, related@) == out@ + staged_text(d.skip(i as int), related@),
        decreases changes.len() - i,
    {
        let change = &changes[i];
        let is_related = flags[i];
        assert(is_related == related@(d[i as int].1));
        assert(d.skip(i as int)[0] == d[i as int]);
        assert(d.skip(i as int).drop_first() =~= d.skip(i + 1));
        let keep = match change.tag {
            ChangeTag::Equal => true,
            ChangeTag::Delete => !is_related,
            ChangeTag::Insert => is_related,
        };
        let ghost before = out@;
        if keep {
            push_str(&mut out, change.line.as_str());
        }
        assert(before + staged_text(d.skip(i as int), related@) =~= out@ + staged_text(
            d.skip(i + 1),
            related@,
        ));
        i = i + 1;
    }
    assert(d.skip(i as int) =~= Seq::<(ChangeTag, Seq<char>)>::empty());
    proof {
        if !has_unrelated_change(d, related@) {
            lemma_staged_all_related(d, related@);
        }
        if !has_related_change(d, related@) {
            lemma_staged_none_related(d, related@);
        }
    }
    out
}

/// Finds whether some inserted or deleted change has its flag unset.
fn any_unflagged_change(changes: &Vec<LineChange>, flags: &Vec<bool>, related: Ghost<spec_fn(Seq<char>) -> bool>) -> (r: bool)
    requires
        flags@.len() == changes@.len(),
        forall|i: int| 0 <= i < changes@.len() ==> flags@[i] == related@(#[trigger] changes@[i].line@),
    ensures
        r == has_unrelated_change(changes_view(changes@), related@),
{
    let ghost d = changes_view(changes@);
    let mut i: usize = 0;
    while i < changes.len()
        invariant
            0 <= i <= changes@.len(),
            flags@.len() == changes@.len(),
            forall|i: int| 0 <= i < changes@.len() ==> flags@[i] == related@(#[trigger] changes@[i].line@),
            d == changes_view(changes@),
            forall|p: int| 0 <= p < i && d[p].0 != ChangeTag::Equal ==> related@(#[trigger] d[p].1),
        decreases changes.len() - i,
    {
        if changes[i].tag != ChangeTag::Equal && !flags[i] {
            assert(d[i as int].0 != ChangeTag::Equal && !related@(d[i as int].1));
            assert(has_unrelated_change(d, related@));
            return true;
        }
        i = i + 1;
    }
    false
}

/// The README relatedness flag of every changed line.
fn readme_flags(changes: &Vec<LineChange>, crate_name: &str, old_version: &str, new_version: &str) -> (flags: Vec<bool>)
    ensures
        flags@.len() == changes@.len(),
        forall|i: int| 0 <= i < changes@.len() ==> flags@[i] == readme_version_related(#[trigger] changes@[i].line@, crate_name@, old_version@, new_version@),
{
    let pats = readme_patterns(crate_name, old_version, new_version);
    let mut flags: Vec<bool> = Vec::new();
    let mut i: usize = 0;
    while i < changes.len()
        invariant
            0 <= i <= changes@.len(),
            pats.describes(crate_name@, old_version@, new_version@),
            flags@.len() == i,
            forall|p: int| 0 <= p < i ==> flags@[p] == readme_version_related(#[trigger] changes@[p].line@, crate_name@, old_version@, new_version@),
        decreases changes.len() - i,
    {
        let line = chars_of(changes[i].line.as_str());
        let f = is_readme_version_line(&line, &pats, Ghost(crate_name@), Ghost(old_version@), Ghost(new_version@));
        flags.push(f);
        i = i + 1;
    }
    flags
}

/// Applies, from the working README, only the changes of lines that pin the
/// crate (hyphenated or underscored name) to the old or the new version, as in
/// `my-crate = "1.0.0"`; every other change keeps the content of `HEAD`.
pub fn apply_readme_version_hunks(
    head_content: &str,
    working_content: &str,
    crate_name: &str,
    old_version: &str,
    new_version: &str,
) -> (r: Result<String, StagingError>)
    ensures
        r matches Ok(s) && s@ == staged_text(
            line_diff(head_content@, working_content@),
            |l: Seq<char>| readme_version_related(l, crate_name@, old_version@, new_version@),
        ),
        !has_unrelated_change(
            line_diff(head_content@, working_content@),
            |l: Seq<char>| readme_version_related(l, crate_name@, old_version@, new_version@),
        ) ==> (r matches Ok(s) && s@ == working_content@),
        !has_related_change(
            line_diff(head_content@, working_content@),
            |l: Seq<char>| readme_version_related(l, crate_name@, old_version@, new_version@),
        ) ==> (r matches Ok(s) && s@ == head_content@),
        head_content@ == working_content@ ==> (r matches Ok(s) && s@ == head_content@),
{
    let changes = diff_lines(head_content, working_content);
    let flags = readme_flags(&changes, crate_name, old_version, new_version);
    let ghost related = |l: Seq<char>| readme_version_related(l, crate_name@, old_version@, new_version@);
    proof {
        lemma_identical_texts_no_change(head_content@, working_content@, changes@, related);
    }
    Ok(stage_flagged(&changes, &flags, Ghost(related)))
}

/// README.md has changes beyond version references: some inserted or
/// deleted line does not pin the crate to the old or the new version.
pub fn has_non_readme_version_changes(
    head_content: &str,
    working_content: &str,
    crate_name: &str,
    old_version: &str,
    new_version: &str,
) -> (r: bool)
    ensures
        r == has_unrelated_change(
            line_diff(head_content@, working_content@),
            |l: Seq<char>| readme_version_related(l, crate_name@, old_version@, new_version@),
        ),
        head_content@ == working_content@ ==> !r,
{
    let changes = diff_lines(head_content, working_content);
    let flags = readme_flags(&changes, crate_name, old_version, new_version);
    let ghost related = |l: Seq<char>| readme_version_related(l, crate_name@, old_version@, new_version@);
    proof {
        lemma_identical_texts_no_change(head_content@, working_content@, changes@, related);
    }
    any_unflagged_change(&changes, &flags, Ghost(related))
}

/// A diff made only of equal changes has neither a related nor an unrelated
/// change.
proof fn lemma_identical_texts_no_change(
    old: Seq<char>,
    new: Seq<char>,
    changes: Seq<LineChange>,
    related: spec_fn(Seq<char>) -> bool,
)
    requires
        old == new ==> forall|i: int| 0 <= i < changes.len() ==> (#[trigger] changes[i]).tag == ChangeTag::Equal,
    ensures
        old == new ==> !has_related_change(changes_view(changes), related),
        old == new ==> !has_unrelated_change(changes_view(changes), related),
{
    if old == new {
        let d = changes_view(changes);
        assert forall|k: int| 0 <= k < d.len() implies d[k].0 == ChangeTag::Equal by {
            assert(d[k] == (changes[k].tag, changes[k].line@));
        }
    }
}

/// Error of a staging computation; never produced, kept so that the staging
/// functions share the signature of the fallible lockfile staging.
#[derive(Debug, PartialEq, Eq)]
pub enum StagingError {
    /// The staged content could not be computed.
    Unavailable,
}

} // verus!
