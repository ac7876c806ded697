//! Changelogs from conventional commits: parsing commit headers, choosing
//! the commits that belong in a changelog, and rendering them as markdown
//! grouped by commit type and scope.
use vstd::prelude::*;
use crate::text::{
    chars_of, join_lines, join_strings, lines_of, push_char, push_str, str_eq, string_from_range,
    text_lines, to_owned_string, trim_all, trim_lo, trim_lo_at, trim_string,
};
use crate::version::first_from;

verus! {

/// Arguments of the `changelog` command.
#[derive(Debug)]
pub struct ChangelogArgs {
    /// Generate the changelog for the commits since this git tag.
    pub at: Option<String>,
    /// Generate the changelog for a commit range such as `v0.1.0..v0.2.0`.
    pub range: Option<String>,
    /// Version shown in the header (with or without a leading `v`).
    pub for_version: Option<String>,
    /// Output file path (standard output when absent).
    pub output: Option<String>,
    /// GitHub repository owner, for commit links.
    pub owner: Option<String>,
    /// GitHub repository name, for commit links.
    pub repo: Option<String>,
}

/// A commit as read from the repository, newest first.
#[derive(Debug)]
pub struct CommitRecord {
    /// Full commit hash.
    pub sha: String,
    /// Abbreviated commit hash.
    pub short_sha: String,
    /// Raw commit message.
    pub message: String,
}

/// A commit parsed from the conventional commit format.
#[derive(Debug)]
pub struct Commit {
    /// Full commit hash (empty until filled in).
    pub sha: String,
    /// Abbreviated commit hash (empty until filled in).
    pub short_sha: String,
    /// Commit type, such as `feat` or `fix`.
    pub commit_type: String,
    /// Optional scope, written in parentheses after the type.
    pub scope: Option<String>,
    /// Marked as a breaking change with `!`.
    pub breaking: bool,
    /// Text after the colon.
    pub subject: String,
    /// Optional body.
    pub body: Option<String>,
}

/// Spec form of a commit: sha, short sha, type, scope, breaking, subject, body.
pub type CommitSpec = (Seq<char>, Seq<char>, Seq<char>, Option<Seq<char>>, bool, Seq<char>, Option<Seq<char>>);

/// The view of an optional string.
pub open spec fn opt_view(o: Option<String>) -> Option<Seq<char>> {
    match o {
        Some(s) => Some(s@),
        None => None,
    }
}

/// The spec form of a parsed commit.
pub open spec fn commit_view(c: Commit) -> CommitSpec {
    (c.sha@, c.short_sha@, c.commit_type@, opt_view(c.scope), c.breaking, c.subject@, opt_view(c.body))
}

/// End of the run of ASCII lowercase letters that starts at `p`.
pub open spec fn lower_run_end(l: Seq<char>, p: int) -> int
    decreases l.len() - p,
{
    if p < 0 || p >= l.len() {
        l.len() as int
    } else if 'a' <= l[p] && l[p] <= 'z' {
        lower_run_end(l, p + 1)
    } else {
        p
    }
}

/// The parts of a commit header line that matches
/// `^([a-z]+)(?:\(([^)]+)\))?(!)?:\s*(.+)$`: type, scope, breaking marker
/// and subject. The type is the whole leading run of lowercase letters; a
/// scope runs up to the first `)` and is not empty; the subject is the text
/// after the colon without leading whitespace, or its last character when
/// that text is all whitespace.
pub open spec fn conventional_header(l: Seq<char>) -> Option<(Seq<char>, Option<Seq<char>>, bool, Seq<char>)> {
    let p = lower_run_end(l, 0);
    let has_paren = p < l.len() && l[p] == '(';
    let c = first_from(l, ')', p + 1);
    let q = if has_paren {
        c + 1
    } else {
        p
    };
    let breaking = q < l.len() && l[q] == '!';
    let r = if breaking {
        q + 1
    } else {
        q
    };
    let k = trim_lo(l, r + 1, l.len() as int);
    if p == 0 || (has_paren && c <= p + 1) || !(r < l.len() && l[r] == ':') || r + 1 >= l.len() {
        None
    } else {
        Some(
            (
                l.subrange(0, p),
                if has_paren {
                    Some(l.subrange(p + 1, c))
                } else {
                    None
                },
                breaking,
                if k < l.len() {
                    l.subrange(k, l.len() as int)
                } else {
                    l.subrange(l.len() - 1, l.len() as int)
                },
            ),
        )
    }
}

/// Lines with leading blank lines (empty after trimming) removed.
pub open spec fn skip_blank(ls: Seq<Seq<char>>) -> Seq<Seq<char>>
    decreases ls.len(),
{
    if ls.len() > 0 && trim_all(ls[0]).len() == 0 {
        skip_blank(ls.drop_first())
    } else {
        ls
    }
}

/// The text `"\n"`.
pub open spec fn newline() -> Seq<char> {
    seq!['\n']
}

/// A parsed commit message: the header of its first line, and as body the
/// following lines without leading blank lines, joined with newlines (`None`
/// when that is empty). `None` when the message has no lines or its first
/// line is not a conventional commit header.
pub open spec fn parsed_commit(message: Seq<char>) -> Option<CommitSpec> {
    let lines = text_lines(message);
    if lines.len() == 0 {
        None
    } else {
        match conventional_header(lines[0]) {
            None => None,
            Some((t, scope, breaking, subject)) => {
                let b = join_lines(skip_blank(lines.drop_first()), newline());
                Some(
                    (
                        Seq::empty(),
                        Seq::empty(),
                        t,
                        scope,
                        breaking,
                        subject,
                        if b.len() == 0 {
                            None
                        } else {
                            Some(b)
                        },
                    ),
                )
            },
        }
    }
}

/// Parses the header line of a conventional commit (see
/// [`conventional_header`]).
fn parse_header(l: &Vec<char>) -> (r: Option<(String, Option<String>, bool, String)>)
    ensures
        match r {
            Some((t, scope, breaking, subject)) => conventional_header(l@) == Some(
                (t@, opt_view(scope), breaking, subject@),
            ),
            None => conventional_header(l@).is_none(),
        },
{
    let n = l.len();
    let mut p: usize = 0;
    while p < n && 'a' <= l[p] && l[p] <= 'z'
        invariant
            0 <= p <= n == l@.len(),
            lower_run_end(l@, p as int) == lower_run_end(l@, 0),
        decreases n - p,
    {
        p = p + 1;
    }
    assert(lower_run_end(l@, p as int) == p);
    if p == 0 {
        return None;
    }
    let has_paren = p < n && l[p] == '(';
    let mut scope: Option<String> = None;
    let mut q = p;
    if has_paren {
        let mut c = p + 1;
        while c < n && l[c] != ')'
            invariant
                p + 1 <= c <= n == l@.len(),
                first_from(l@, ')', c as int) == first_from(l@, ')', p + 1),
            decreases n - c,
        {
            c = c + 1;
        }
        if c >= n || c <= p + 1 {
            return None;
        }
        scope = Some(string_from_range(l, p + 1, c));
        q = c + 1;
    }
    let breaking = q < n && l[q] == '!';
    let r = if breaking {
        q + 1
    } else {
        q
    };
    if !(r < n && l[r] == ':') || r + 1 >= n {
        return None;
    }
    let k = trim_lo_at(l, r + 1, n);
    let subject = if k < n {
        string_from_range(l, k, n)
    } else {
        string_from_range(l, n - 1, n)
    };
    let t = string_from_range(l, 0, p);
    Some((t, scope, breaking, subject))
}

/// Drops leading blank lines.
fn skip_blank_lines(ls: &Vec<String>) -> (r: Vec<String>)
    ensures
        r@.map_values(|l: String| l@) == skip_blank(ls@.map_values(|l: String| l@)),
{
    let ghost all = ls@.map_values(|l: String| l@);
    let mut i: usize = 0;
    assert(all.skip(0) =~= all);
    while i < ls.len()
        invariant
            0 <= i <= ls@.len(),
            all == ls@.map_values(|l: String| l@),
            skip_blank(all) == skip_blank(all.skip(i as int)),
        ensures
            0 <= i <= ls@.len(),
            skip_blank(all) == skip_blank(all.skip(i as int)),
            i < ls@.len() ==> trim_all(all[i as int]).len() != 0,
        decreases ls.len() - i,
    {
        let t = trim_string(ls[i].as_str());
        if !t.as_str().is_empty() {
            assert(t@.len() != 0);
            break;
        }
        assert(t@.len() == 0);
        assert(all.skip(i as int).drop_first() =~= all.skip(i + 1));
        i = i + 1;
    }
    let mut out: Vec<String> = Vec::new();
    let mut j = i;
    while j < ls.len()
        invariant
            i <= j <= ls@.len(),
            all == ls@.map_values(|l: String| l@),
            out@.map_values(|l: String| l@) == all.subrange(i as int, j as int),
        decreases ls.len() - j,
    {
        let item = to_owned_string(ls[j].as_str());
        let ghost before = out@.map_values(|l: String| l@);
        out.push(item);
        assert(out@.map_values(|l: String| l@) =~= before.push(all[j as int]));
        assert(out@.map_values(|l: String| l@) =~= all.subrange(i as int, j + 1));
        j = j + 1;
    }
    assert(all.skip(i as int) =~= all.subrange(i as int, ls@.len() as int));
    proof {
        if i < ls@.len() {
            assert(all.skip(i as int)[0] == all[i as int]);
        }
    }
    out
}

/// Parses a conventional commit message (see [`parsed_commit`]); the hashes
/// are left empty.
pub fn parse_conventional_commit(message: &str) -> (r: Option<Commit>)
    ensures
        match r {
            Some(c) => parsed_commit(message@) == Some(commit_view(c)),
            None => parsed_commit(message@).is_none(),
        },
{
    let lines = lines_of(message);
    let ghost ls = lines@.map_values(|l: String| l@);
    if lines.len() == 0 {
        return None;
    }
    let first = chars_of(lines[0].as_str());
    let (commit_type, scope, breaking, subject) = match parse_header(&first) {
        Some(h) => h,
        None => {
            return None;
        },
    };
    let mut rest: Vec<String> = Vec::new();
    let mut i: usize = 1;
    while i < lines.len()
        invariant
            1 <= i <= lines@.len(),
            ls == lines@.map_values(|l: String| l@),
            rest@.map_values(|l: String| l@) == ls.subrange(1, i as int),
        decreases lines.len() - i,
    {
        let item = to_owned_string(lines[i].as_str());
        let ghost before = rest@.map_values(|l: String| l@);
        rest.push(item);
        assert(rest@.map_values(|l: String| l@) =~= before.push(ls[i as int]));
        assert(rest@.map_values(|l: String| l@) =~= ls.subrange(1, i + 1));
        i = i + 1;
    }
    assert(ls.drop_first() =~= ls.subrange(1, ls.len() as int));
    let kept = skip_blank_lines(&rest);
    let joined = join_strings(&kept, "\n");
    proof {
        reveal_strlit("\n");
    }
    assert("\n"@ =~= newline());
    let body = if joined.as_str().is_empty() {
        assert(joined@.len() == 0);
        None
    } else {
        Some(joined)
    };
    Some(Commit { sha: String::new(), short_sha: String::new(), commit_type, scope, breaking, subject, body })
}

} // verus!

verus! {
/// Display title of a commit type.
pub open spec fn type_title(t: Seq<char>) -> Seq<char> {
    if t == seq!['f', 'e', 'a', 't'] {
        seq!['F', 'e', 'a', 't', 'u', 'r', 'e', 's']
    } else if t == seq!['f', 'i', 'x'] {
        seq!['B', 'u', 'g', ' ', 'F', 'i', 'x', 'e', 's']
    } else if t == seq!['d', 'o', 'c', 's'] {
        seq!['D', 'o', 'c', 'u', 'm', 'e', 'n', 't', 'a', 't', 'i', 'o', 'n']
    } else if t == seq!['s', 't', 'y', 'l', 'e'] {
        seq!['S', 't', 'y', 'l', 'i', 'n', 'g']
    } else if t == seq!['r', 'e', 'f', 'a', 'c', 't', 'o', 'r'] {
        seq!['R', 'e', 'f', 'a', 'c', 't', 'o', 'r', 'i', 'n', 'g']
    } else if t == seq!['p', 'e', 'r', 'f'] {
        seq!['P', 'e', 'r', 'f', 'o', 'r', 'm', 'a', 'n', 'c', 'e']
    } else if t == seq!['t', 'e', 's', 't'] {
        seq!['T', 'e', 's', 't', 's']
    } else if t == seq!['b', 'u', 'i', 'l', 'd'] {
        seq!['B', 'u', 'i', 'l', 'd']
    } else if t == seq!['c', 'i'] {
        seq!['C', 'I', '/', 'C', 'D']
    } else if t == seq!['c', 'h', 'o', 'r', 'e'] {
        seq!['C', 'h', 'o', 'r', 'e', 's']
    } else if t == seq!['r', 'e', 'v', 'e', 'r', 't'] {
        seq!['R', 'e', 'v', 'e', 'r', 't', 's']
    } else {
        seq!['O', 't', 'h', 'e', 'r', ' ', 'C', 'h', 'a', 'n', 'g', 'e', 's']
    }
}

/// Gets the display title of a commit type.
pub fn commit_type_title(commit_type: &str) -> (r: &'static str)
    ensures
        r@ == type_title(commit_type@),
{
    proof {
        reveal_strlit("feat");
        assert("feat"@ =~= seq!['f', 'e', 'a', 't']);
        reveal_strlit("Features");
        assert("Features"@ =~= seq!['F', 'e', 'a', 't', 'u', 'r', 'e', 's']);
        reveal_strlit("fix");
        assert("fix"@ =~= seq!['f', 'i', 'x']);
        reveal_strlit("Bug Fixes");
        assert("Bug Fixes"@ =~= seq!['B', 'u', 'g', ' ', 'F', 'i', 'x', 'e', 's']);
        reveal_strlit("docs");
        assert("docs"@ =~= seq!['d', 'o', 'c', 's']);
        reveal_strlit("Documentation");
        assert("Documentation"@ =~= seq!['D', 'o', 'c', 'u', 'm', 'e', 'n', 't', 'a', 't', 'i', 'o', 'n']);
        reveal_strlit("style");
        assert("style"@ =~= seq!['s', 't', 'y', 'l', 'e']);
        reveal_strlit("Styling");
        assert("Styling"@ =~= seq!['S', 't', 'y', 'l', 'i', 'n', 'g']);
        reveal_strlit("refactor");
        assert("refactor"@ =~= seq!['r', 'e', 'f', 'a', 'c', 't', 'o', 'r']);
        reveal_strlit("Refactoring");
        assert("Refactoring"@ =~= seq!['R', 'e', 'f', 'a', 'c', 't', 'o', 'r', 'i', 'n', 'g']);
        reveal_strlit("perf");
        assert("perf"@ =~= seq!['p', 'e', 'r', 'f']);
        reveal_strlit("Performance");
        assert("Performance"@ =~= seq!['P', 'e', 'r', 'f', 'o', 'r', 'm', 'a', 'n', 'c', 'e']);
        reveal_strlit("test");
        assert("test"@ =~= seq!['t', 'e', 's', 't']);
        reveal_strlit("Tests");
        assert("Tests"@ =~= seq!['T', 'e', 's', 't', 's']);
        reveal_strlit("build");
        assert("build"@ =~= seq!['b', 'u', 'i', 'l', 'd']);
        reveal_strlit("Build");
        assert("Build"@ =~= seq!['B', 'u', 'i', 'l', 'd']);
        reveal_strlit("ci");
        assert("ci"@ =~= seq!['c', 'i']);
        reveal_strlit("CI/CD");
        assert("CI/CD"@ =~= seq!['C', 'I', '/', 'C', 'D']);
        reveal_strlit("chore");
        assert("chore"@ =~= seq!['c', 'h', 'o', 'r', 'e']);
        reveal_strlit("Chores");
        assert("Chores"@ =~= seq!['C', 'h', 'o', 'r', 'e', 's']);
        reveal_strlit("revert");
        assert("revert"@ =~= seq!['r', 'e', 'v', 'e', 'r', 't']);
        reveal_strlit("Reverts");
        assert("Reverts"@ =~= seq!['R', 'e', 'v', 'e', 'r', 't', 's']);
        reveal_strlit("Other Changes");
        assert("Other Changes"@ =~= seq!['O', 't', 'h', 'e', 'r', ' ', 'C', 'h', 'a', 'n', 'g', 'e', 's']);
    }
    if str_eq(commit_type, "feat") {
        "Features"
    } else if str_eq(commit_type, "fix") {
        "Bug Fixes"
    } else if str_eq(commit_type, "docs") {
        "Documentation"
    } else if str_eq(commit_type, "style") {
        "Styling"
    } else if str_eq(commit_type, "refactor") {
        "Refactoring"
    } else if str_eq(commit_type, "perf") {
        "Performance"
    } else if str_eq(commit_type, "test") {
        "Tests"
    } else if str_eq(commit_type, "build") {
        "Build"
    } else if str_eq(commit_type, "ci") {
        "CI/CD"
    } else if str_eq(commit_type, "chore") {
        "Chores"
    } else if str_eq(commit_type, "revert") {
        "Reverts"
    } else {
        "Other Changes"
    }
}

/// Commit types that appear in a changelog.
pub open spec fn included_type(t: Seq<char>) -> bool {
    t == seq!['f', 'e', 'a', 't'] || t == seq!['f', 'i', 'x'] || t == seq!['d', 'o', 'c', 's'] || t == seq!['r', 'e', 'f', 'a', 'c', 't', 'o', 'r'] || t == seq!['p', 'e', 'r', 'f'] || t == seq!['r', 'e', 'v', 'e', 'r', 't']
}

/// Checks whether a commit type should be included in the changelog.
pub fn include_in_changelog(commit_type: &str) -> (r: bool)
    ensures
        r == included_type(commit_type@),
{
    proof {
        reveal_strlit("feat");
        assert("feat"@ =~= seq!['f', 'e', 'a', 't']);
        reveal_strlit("fix");
        assert("fix"@ =~= seq!['f', 'i', 'x']);
        reveal_strlit("docs");
        assert("docs"@ =~= seq!['d', 'o', 'c', 's']);
        reveal_strlit("refactor");
        assert("refactor"@ =~= seq!['r', 'e', 'f', 'a', 'c', 't', 'o', 'r']);
        reveal_strlit("perf");
        assert("perf"@ =~= seq!['p', 'e', 'r', 'f']);
        reveal_strlit("revert");
        assert("revert"@ =~= seq!['r', 'e', 'v', 'e', 'r', 't']);
    }
    str_eq(commit_type, "feat") || str_eq(commit_type, "fix") || str_eq(commit_type, "docs") || str_eq(commit_type, "refactor") || str_eq(commit_type, "perf") || str_eq(commit_type, "revert")
}

/// The order of commit types in a changelog.
pub open spec fn type_order() -> Seq<Seq<char>> {
    seq![
        seq!['f', 'e', 'a', 't'],
        seq!['f', 'i', 'x'],
        seq!['p', 'e', 'r', 'f'],
        seq!['r', 'e', 'f', 'a', 'c', 't', 'o', 'r'],
        seq!['d', 'o', 'c', 's'],
        seq!['r', 'e', 'v', 'e', 'r', 't'],
        seq!['b', 'u', 'i', 'l', 'd'],
        seq!['c', 'i'],
        seq!['t', 'e', 's', 't'],
        seq!['s', 't', 'y', 'l', 'e'],
        seq!['c', 'h', 'o', 'r', 'e'],
    ]
}

fn type_order_vec() -> (v: Vec<&'static str>)
    ensures
        v@.map_values(|t: &str| t@) == type_order(),
{
    proof {
        reveal_strlit("feat");
        assert("feat"@ =~= seq!['f', 'e', 'a', 't']);
        reveal_strlit("fix");
        assert("fix"@ =~= seq!['f', 'i', 'x']);
        reveal_strlit("perf");
        assert("perf"@ =~= seq!['p', 'e', 'r', 'f']);
        reveal_strlit("refactor");
        assert("refactor"@ =~= seq!['r', 'e', 'f', 'a', 'c', 't', 'o', 'r']);
        reveal_strlit("docs");
        assert("docs"@ =~= seq!['d', 'o', 'c', 's']);
        reveal_strlit("revert");
        assert("revert"@ =~= seq!['r', 'e', 'v', 'e', 'r', 't']);
        reveal_strlit("build");
        assert("build"@ =~= seq!['b', 'u', 'i', 'l', 'd']);
        reveal_strlit("ci");
        assert("ci"@ =~= seq!['c', 'i']);
        reveal_strlit("test");
        assert("test"@ =~= seq!['t', 'e', 's', 't']);
        reveal_strlit("style");
        assert("style"@ =~= seq!['s', 't', 'y', 'l', 'e']);
        reveal_strlit("chore");
        assert("chore"@ =~= seq!['c', 'h', 'o', 'r', 'e']);
    }
    let v = vec!["feat", "fix", "perf", "refactor", "docs", "revert", "build", "ci", "test", "style", "chore"];
    assert(v@.map_values(|t: &str| t@) =~= type_order());
    v
}

} // verus!

verus! {

/// The body lines of a commit entry, each indented by two spaces.
pub open spec fn indented_lines(ls: Seq<Seq<char>>) -> Seq<char>
    decreases ls.len(),
{
    if ls.len() == 0 {
        Seq::empty()
    } else {
        indented_lines(ls.drop_last()) + (seq![' ', ' ']) + ls.last() + newline()
    }
}

/// A changelog entry:
/// `- [SHORT](https://github.com/OWNER/REPO/commit/SHA)[ **BREAKING**]: SUBJECT`
/// followed by the body lines, indented by two spaces.
pub open spec fn entry_text(c: CommitSpec, owner: Seq<char>, repo: Seq<char>) -> Seq<char> {
    (seq!['-', ' ', '[']) + c.1 + (seq![']', '(', 'h', 't', 't', 'p', 's', ':', '/', '/', 'g', 'i', 't', 'h', 'u', 'b', '.', 'c', 'o', 'm', '/']) + owner + (seq!['/']) + repo + (seq!['/', 'c', 'o', 'm', 'm', 'i', 't', '/']) + c.0 + (seq![')'])
        + (if c.4 { (seq![' ', '*', '*', 'B', 'R', 'E', 'A', 'K', 'I', 'N', 'G', '*', '*']) } else { Seq::empty() }) + (seq![':', ' ']) + c.5 + newline()
        + match c.6 {
        Some(b) => indented_lines(text_lines(b)),
        None => Seq::empty(),
    }
}

/// Formats a single commit as a changelog entry (see [`entry_text`]).
pub fn format_commit_entry(commit: &Commit, owner: &str, repo: &str) -> (r: String)
    ensures
        r@ == entry_text(commit_view(*commit), owner@, repo@),
{
    proof {
        reveal_strlit("- [");
        assert("- ["@ =~= (seq!['-', ' ', '[']));
        reveal_strlit("](https://github.com/");
        assert("](https://github.com/"@ =~= (seq![']', '(', 'h', 't', 't', 'p', 's', ':', '/', '/', 'g', 'i', 't', 'h', 'u', 'b', '.', 'c', 'o', 'm', '/']));
        reveal_strlit("/");
        assert("/"@ =~= (seq!['/']));
        reveal_strlit("/commit/");
        assert("/commit/"@ =~= (seq!['/', 'c', 'o', 'm', 'm', 'i', 't', '/']));
        reveal_strlit(")");
        assert(")"@ =~= (seq![')']));
        reveal_strlit(" **BREAKING**");
        assert(" **BREAKING**"@ =~= (seq![' ', '*', '*', 'B', 'R', 'E', 'A', 'K', 'I', 'N', 'G', '*', '*']));
        reveal_strlit(": ");
        assert(": "@ =~= (seq![':', ' ']));
        reveal_strlit("  ");
        assert("  "@ =~= (seq![' ', ' ']));
    }
    let mut out = String::new();
    push_str(&mut out, "- [");
    push_str(&mut out, commit.short_sha.as_str());
    push_str(&mut out, "](https://github.com/");
    push_str(&mut out, owner);
    push_str(&mut out, "/");
    push_str(&mut out, repo);
    push_str(&mut out, "/commit/");
    push_str(&mut out, commit.sha.as_str());
    push_str(&mut out, ")");
    if commit.breaking {
        push_str(&mut out, " **BREAKING**");
    }
    push_str(&mut out, ": ");
    push_str(&mut out, commit.subject.as_str());
    push_char(&mut out, '\n');
    let ghost head = out@;
    assert(head =~= (seq!['-', ' ', '[']) + commit.short_sha@ + (seq![']', '(', 'h', 't', 't', 'p', 's', ':', '/', '/', 'g', 'i', 't', 'h', 'u', 'b', '.', 'c', 'o', 'm', '/']) + owner@ + (seq!['/']) + repo@ + (seq!['/', 'c', 'o', 'm', 'm', 'i', 't', '/']) + commit.sha@ + (seq![')'])
        + (if commit.breaking { (seq![' ', '*', '*', 'B', 'R', 'E', 'A', 'K', 'I', 'N', 'G', '*', '*']) } else { Seq::empty() }) + (seq![':', ' ']) + commit.subject@ + newline());
    match &commit.body {
        Some(body) => {
            let lines = lines_of(body.as_str());
            let ghost ls = lines@.map_values(|l: String| l@);
            let mut i: usize = 0;
            while i < lines.len()
                invariant
                    0 <= i <= lines@.len(),
                    ls == lines@.map_values(|l: String| l@),
                    out@ == head + indented_lines(ls.take(i as int)),
                    "  "@ == seq![' ', ' '],
                decreases lines.len() - i,
            {
                push_str(&mut out, "  ");
                push_str(&mut out, lines[i].as_str());
                push_char(&mut out, '\n');
                assert(ls.take(i + 1).drop_last() =~= ls.take(i as int));
                assert(ls.take(i + 1).last() == ls[i as int]);
                assert(out@ =~= head + indented_lines(ls.take(i + 1)));
                i = i + 1;
            }
            assert(ls.take(lines@.len() as int) =~= ls);
        },
        None => {
            assert(out@ =~= head + Seq::<char>::empty());
        },
    }
    out
}

/// The body that a changelog shows: the lines after the first, joined with
/// newlines and trimmed; `None` when that is empty.
pub open spec fn changelog_body(message: Seq<char>) -> Option<Seq<char>> {
    let b = trim_all(join_lines(text_lines(message).drop_first(), newline()));
    if b.len() == 0 {
        None
    } else {
        Some(b)
    }
}

/// The changelog entry of a commit, if its message is a conventional commit
/// of an included type.
pub open spec fn record_entry(sha: Seq<char>, short_sha: Seq<char>, message: Seq<char>) -> Option<CommitSpec> {
    match parsed_commit(message) {
        None => None,
        Some(c) => if included_type(c.2) {
            Some((sha, short_sha, c.2, c.3, c.4, c.5, changelog_body(message)))
        } else {
            None
        },
    }
}

/// The changelog entries of commits, in order.
pub open spec fn changelog_entries(records: Seq<CommitRecord>) -> Seq<CommitSpec>
    decreases records.len(),
{
    if records.len() == 0 {
        Seq::empty()
    } else {
        let r = records.last();
        changelog_entries(records.drop_last()) + match record_entry(r.sha@, r.short_sha@, r.message@) {
            Some(e) => seq![e],
            None => Seq::empty(),
        }
    }
}

/// Appending a commit to the history adds one changelog entry exactly when
/// its message is a conventional commit whose type is `feat`, `fix`,
/// `docs`, `refactor`, `perf` or `revert`; the entry carries that type and
/// the commit's hashes. Other commits add nothing.
pub proof fn lemma_changelog_commit_types(records: Seq<CommitRecord>, r: CommitRecord)
    ensures
        ({
            let before = changelog_entries(records);
            let after = changelog_entries(records.push(r));
            match parsed_commit(r.message@) {
                None => after == before,
                Some(c) => {
                    let t = c.2;
                    if t == "feat"@ || t == "fix"@ || t == "docs"@ || t == "refactor"@ || t == "perf"@
                        || t == "revert"@ {
                        &&& after.len() == before.len() + 1
                        &&& after.take(before.len() as int) == before
                        &&& after.last().0 == r.sha@
                        &&& after.last().1 == r.short_sha@
                        &&& after.last().2 == t
                    } else {
                        after == before
                    }
                },
            }
        }),
{
    reveal_strlit("feat");
    reveal_strlit("fix");
    reveal_strlit("docs");
    reveal_strlit("refactor");
    reveal_strlit("perf");
    reveal_strlit("revert");
    assert("feat"@ =~= seq!['f', 'e', 'a', 't']);
    assert("fix"@ =~= seq!['f', 'i', 'x']);
    assert("docs"@ =~= seq!['d', 'o', 'c', 's']);
    assert("refactor"@ =~= seq!['r', 'e', 'f', 'a', 'c', 't', 'o', 'r']);
    assert("perf"@ =~= seq!['p', 'e', 'r', 'f']);
    assert("revert"@ =~= seq!['r', 'e', 'v', 'e', 'r', 't']);
    assert(records.push(r).drop_last() =~= records);
    let before = changelog_entries(records);
    let after = changelog_entries(records.push(r));
    if after.len() == before.len() + 1 {
        assert(after.take(before.len() as int) =~= before);
    } else {
        assert(after =~= before);
    }
}

/// The views of parsed commits.
pub open spec fn commits_view(cs: Seq<Commit>) -> Seq<CommitSpec> {
    cs.map_values(|c: Commit| commit_view(c))
}

/// Selects the commits that belong in a changelog: conventional commits of
/// an included type, with their hashes and trimmed bodies.
pub fn collect_changelog_commits(records: &Vec<CommitRecord>) -> (r: Vec<Commit>)
    ensures
        commits_view(r@) == changelog_entries(records@),
{
    let mut out: Vec<Commit> = Vec::new();
    let mut i: usize = 0;
    while i < records.len()
        invariant
            0 <= i <= records@.len(),
            commits_view(out@) == changelog_entries(records@.take(i as int)),
        decreases records.len() - i,
    {
        let rec = &records[i];
        assert(records@.take(i + 1).drop_last() =~= records@.take(i as int));
        assert(records@.take(i + 1).last() == records@[i as int]);
        let ghost before = commits_view(out@);
        if let Some(mut parsed) = parse_conventional_commit(rec.message.as_str()) {
            if include_in_changelog(parsed.commit_type.as_str()) {
                parsed.sha = to_owned_string(rec.sha.as_str());
                parsed.short_sha = to_owned_string(rec.short_sha.as_str());
                let lines = lines_of(rec.message.as_str());
                let mut rest: Vec<String> = Vec::new();
                let ghost ls = lines@.map_values(|l: String| l@);
                let mut j: usize = 1;
                while j < lines.len()
                    invariant
                        1 <= j <= lines@.len(),
                        ls == lines@.map_values(|l: String| l@),
                        rest@.map_values(|l: String| l@) == ls.subrange(1, j as int),
                    decreases lines.len() - j,
                {
                    let item = to_owned_string(lines[j].as_str());
                    let ghost b = rest@.map_values(|l: String| l@);
                    rest.push(item);
                    assert(rest@.map_values(|l: String| l@) =~= b.push(ls[j as int]));
                    assert(rest@.map_values(|l: String| l@) =~= ls.subrange(1, j + 1));
                    j = j + 1;
                }
                assert(ls.drop_first() =~= ls.subrange(1, ls.len() as int));
                let joined = join_strings(&rest, "\n");
                proof {
                    reveal_strlit("\n");
                    assert("\n"@ =~= newline());
                }
                let body_text = trim_string(joined.as_str());
                parsed.body = if body_text.as_str().is_empty() {
                    None
                } else {
                    Some(body_text)
                };
                out.push(parsed);
                assert(commits_view(out@) =~= before.push(commit_view(out@.last())));
            }
        }
        assert(commits_view(out@) =~= changelog_entries(records@.take(i + 1)));
        i = i + 1;
    }
    assert(records@.take(records@.len() as int) =~= records@);
    out
}

} // verus!

verus! {

/// Lexicographic order of texts by code point (the order of `String`).
pub open spec fn text_less(a: Seq<char>, b: Seq<char>) -> bool
    decreases a.len(),
{
    if a.len() == 0 {
        b.len() > 0
    } else if b.len() == 0 {
        false
    } else if a[0] != b[0] {
        a[0] < b[0]
    } else {
        text_less(a.drop_first(), b.drop_first())
    }
}

/// Order of optional scopes: no scope first, then scopes by text.
pub open spec fn scope_less(a: Option<Seq<char>>, b: Option<Seq<char>>) -> bool {
    match (a, b) {
        (None, Some(_)) => true,
        (Some(x), Some(y)) => text_less(x, y),
        _ => false,
    }
}

/// Inserts a scope into a list sorted by [`scope_less`], unless present.
pub open spec fn insert_scope(l: Seq<Option<Seq<char>>>, x: Option<Seq<char>>) -> Seq<Option<Seq<char>>>
    decreases l.len(),
{
    if l.len() == 0 {
        seq![x]
    } else if l[0] == x {
        l
    } else if scope_less(x, l[0]) {
        seq![x] + l
    } else {
        seq![l[0]] + insert_scope(l.drop_first(), x)
    }
}

/// The distinct scopes of some entries in ascending order.
pub open spec fn sorted_scopes(es: Seq<CommitSpec>) -> Seq<Option<Seq<char>>>
    decreases es.len(),
{
    if es.len() == 0 {
        Seq::empty()
    } else {
        insert_scope(sorted_scopes(es.drop_last()), es.last().3)
    }
}

/// The entries of one commit type, in order.
pub open spec fn with_type(es: Seq<CommitSpec>, t: Seq<char>) -> Seq<CommitSpec>
    decreases es.len(),
{
    if es.len() == 0 {
        Seq::empty()
    } else {
        with_type(es.drop_last(), t) + if es.last().2 == t {
            seq![es.last()]
        } else {
            Seq::empty()
        }
    }
}

/// The entry texts of the entries with one scope, in order.
pub open spec fn scope_entries_text(es: Seq<CommitSpec>, s: Option<Seq<char>>, owner: Seq<char>, repo: Seq<char>) -> Seq<char>
    decreases es.len(),
{
    if es.len() == 0 {
        Seq::empty()
    } else {
        scope_entries_text(es.drop_last(), s, owner, repo) + if es.last().3 == s {
            entry_text(es.last(), owner, repo)
        } else {
            Seq::empty()
        }
    }
}

/// The heading of a scope: `### SCOPE` and a blank line, nothing for no scope.
pub open spec fn scope_heading(s: Option<Seq<char>>) -> Seq<char> {
    match s {
        Some(n) => (seq!['#', '#', '#', ' ']) + n + (seq!['\n', '\n']),
        None => Seq::empty(),
    }
}

/// The scope blocks of a section: heading, entries and a blank line per scope.
pub open spec fn scope_blocks(es: Seq<CommitSpec>, scopes: Seq<Option<Seq<char>>>, owner: Seq<char>, repo: Seq<char>) -> Seq<char>
    decreases scopes.len(),
{
    if scopes.len() == 0 {
        Seq::empty()
    } else {
        scope_blocks(es, scopes.drop_last(), owner, repo) + scope_heading(scopes.last())
            + scope_entries_text(es, scopes.last(), owner, repo) + newline()
    }
}

/// The section of one commit type: `## TITLE`, a blank line and the scope
/// blocks in scope order; nothing when the type has no entries.
pub open spec fn type_section(es: Seq<CommitSpec>, t: Seq<char>, owner: Seq<char>, repo: Seq<char>) -> Seq<char> {
    let te = with_type(es, t);
    if te.len() == 0 {
        Seq::empty()
    } else {
        (seq!['#', '#', ' ']) + type_title(t) + (seq!['\n', '\n']) + scope_blocks(te, sorted_scopes(te), owner, repo)
    }
}

/// The sections of the listed types, in list order.
pub open spec fn sections(es: Seq<CommitSpec>, types: Seq<Seq<char>>, owner: Seq<char>, repo: Seq<char>) -> Seq<char>
    decreases types.len(),
{
    if types.len() == 0 {
        Seq::empty()
    } else {
        sections(es, types.drop_last(), owner, repo) + type_section(es, types.last(), owner, repo)
    }
}

/// A version for display, with a `v` prefix unless it has `v` or `V`.
pub open spec fn version_display(v: Seq<char>) -> Seq<char> {
    if v.len() > 0 && (v[0] == 'v' || v[0] == 'V') {
        v
    } else {
        seq!['v'] + v
    }
}

/// The changelog header: `# Changelog - VERSION` for a requested version,
/// `# Changelog - TAG` for a tag, `# Changelog` otherwise; then a blank line.
pub open spec fn changelog_header(for_version: Option<Seq<char>>, at: Option<Seq<char>>) -> Seq<char> {
    match for_version {
        Some(v) => (seq!['#', ' ', 'C', 'h', 'a', 'n', 'g', 'e', 'l', 'o', 'g', ' ', '-', ' ']) + version_display(v) + (seq!['\n', '\n']),
        None => match at {
            Some(t) => (seq!['#', ' ', 'C', 'h', 'a', 'n', 'g', 'e', 'l', 'o', 'g', ' ', '-', ' ']) + t + (seq!['\n', '\n']),
            None => (seq!['#', ' ', 'C', 'h', 'a', 'n', 'g', 'e', 'l', 'o', 'g']) + (seq!['\n', '\n']),
        },
    }
}

/// `s` ends with `t`.
pub open spec fn ends_with(s: Seq<char>, t: Seq<char>) -> bool {
    t.len() <= s.len() && s.subrange(s.len() - t.len(), s.len() as int) == t
}

/// The markdown changelog of some entries.
pub open spec fn changelog_markdown(
    es: Seq<CommitSpec>,
    for_version: Option<Seq<char>>,
    at: Option<Seq<char>>,
    owner: Seq<char>,
    repo: Seq<char>,
) -> Seq<char> {
    let out = changelog_header(for_version, at) + sections(es, type_order(), owner, repo);
    if ends_with(trim_all(out), (seq!['#', ' ', 'C', 'h', 'a', 'n', 'g', 'e', 'l', 'o', 'g']) + (seq!['\n', '\n'])) {
        out + (seq!['N', 'o', ' ', 'c', 'h', 'a', 'n', 'g', 'e', 's', ' ', 'f', 'o', 'u', 'n', 'd', '.', '\n'])
    } else {
        out
    }
}

/// The text after trimming never ends with a line break, so the check for a
/// trimmed changelog that ends with `# Changelog` and a blank line never
/// holds and `No changes found.` is never appended: the changelog is its
/// header followed by its sections, also when there are no sections.
pub proof fn lemma_changelog_is_header_and_sections(
    es: Seq<CommitSpec>,
    for_version: Option<Seq<char>>,
    at: Option<Seq<char>>,
    owner: Seq<char>,
    repo: Seq<char>,
)
    ensures
        changelog_markdown(es, for_version, at, owner, repo) == changelog_header(for_version, at) + sections(
            es,
            type_order(),
            owner,
            repo,
        ),
{
    let out = changelog_header(for_version, at) + sections(es, type_order(), owner, repo);
    let n = out.len() as int;
    crate::text::lemma_trim_hi_bounds(out, 0, n);
    crate::text::lemma_trim_lo_bounds(out, 0, n);
    let t = trim_all(out);
    let hi = crate::text::trim_hi(out, 0, n);
    assert(crate::text::is_ws('\n'));
    if t.len() >= 2 {
        assert(t[t.len() - 1] == out[hi - 1]);
        let m = (seq!['#', ' ', 'C', 'h', 'a', 'n', 'g', 'e', 'l', 'o', 'g']) + (seq!['\n', '\n']);
        if ends_with(t, m) {
            assert(t.subrange(t.len() - m.len(), t.len() as int)[m.len() - 1] == t[t.len() - 1]);
        }
    }
}

proof fn lemma_insert_scope_skip(l: Seq<Option<Seq<char>>>, x: Option<Seq<char>>, i: int)
    requires
        0 <= i <= l.len(),
        forall|j: int| 0 <= j < i ==> l[j] != x && !scope_less(x, #[trigger] l[j]),
    ensures
        insert_scope(l, x) == l.take(i) + insert_scope(l.skip(i), x),
    decreases i,
{
    if i == 0 {
        assert(l.skip(0) =~= l);
        assert(l.take(0) + insert_scope(l, x) =~= insert_scope(l, x));
    } else {
        assert forall|j: int| 0 <= j < i - 1 implies l.drop_first()[j] != x && !scope_less(x, #[trigger] l.drop_first()[j]) by {
            assert(l.drop_first()[j] == l[j + 1]);
        }
        lemma_insert_scope_skip(l.drop_first(), x, i - 1);
        assert(l.drop_first().skip(i - 1) =~= l.skip(i));
        assert(seq![l[0]] + l.drop_first().take(i - 1) =~= l.take(i));
    }
}

/// Copies an optional scope.
fn copy_scope(s: &Option<String>) -> (r: Option<String>)
    ensures
        opt_view(r) == opt_view(*s),
{
    match s {
        Some(n) => Some(to_owned_string(n.as_str())),
        None => None,
    }
}

/// Two optional scopes are equal.
fn scope_equal(a: &Option<String>, b: &Option<String>) -> (r: bool)
    ensures
        r == (opt_view(*a) == opt_view(*b)),
{
    match (a, b) {
        (Some(x), Some(y)) => str_eq(x.as_str(), y.as_str()),
        (None, None) => true,
        _ => false,
    }
}

/// [`text_less`] on character vectors.
fn chars_less(a: &Vec<char>, b: &Vec<char>) -> (r: bool)
    ensures
        r == text_less(a@, b@),
{
    let mut i: usize = 0;
    assert(a@.skip(0) =~= a@);
    assert(b@.skip(0) =~= b@);
    while i < a.len() && i < b.len() && a[i] == b[i]
        invariant
            0 <= i <= a@.len(),
            i <= b@.len(),
            text_less(a@, b@) == text_less(a@.skip(i as int), b@.skip(i as int)),
        decreases a.len() - i,
    {
        assert(a@.skip(i as int)[0] == a@[i as int]);
        assert(b@.skip(i as int)[0] == b@[i as int]);
        assert(a@.skip(i as int).drop_first() =~= a@.skip(i + 1));
        assert(b@.skip(i as int).drop_first() =~= b@.skip(i + 1));
        i = i + 1;
    }
    if i == a.len() {
        i < b.len()
    } else if i == b.len() {
        false
    } else {
        assert(a@.skip(i as int)[0] == a@[i as int]);
        assert(b@.skip(i as int)[0] == b@[i as int]);
        a[i] < b[i]
    }
}

/// [`scope_less`].
fn scope_is_less(a: &Option<String>, b: &Option<String>) -> (r: bool)
    ensures
        r == scope_less(opt_view(*a), opt_view(*b)),
{
    match (a, b) {
        (None, Some(_)) => true,
        (Some(x), Some(y)) => {
            let xa = chars_of(x.as_str());
            let ya = chars_of(y.as_str());
            chars_less(&xa, &ya)
        },
        _ => false,
    }
}

/// The views of a list of optional scopes.
pub open spec fn scopes_view(l: Seq<Option<String>>) -> Seq<Option<Seq<char>>> {
    l.map_values(|s: Option<String>| opt_view(s))
}

/// Inserts a scope (see [`insert_scope`]).
fn insert_scope_into(l: &mut Vec<Option<String>>, x: &Option<String>)
    ensures
        scopes_view(final(l)@) == insert_scope(scopes_view(old(l)@), opt_view(*x)),
{
    let ghost lv = scopes_view(l@);
    let mut i: usize = 0;
    while i < l.len()
        invariant
            0 <= i <= l@.len(),
            lv == scopes_view(l@),
            l@ == old(l)@,
            forall|j: int| 0 <= j < i ==> lv[j] != opt_view(*x) && !scope_less(opt_view(*x), #[trigger] lv[j]),
        ensures
            0 <= i <= l@.len(),
            lv == scopes_view(l@),
            l@ == old(l)@,
            forall|j: int| 0 <= j < i ==> lv[j] != opt_view(*x) && !scope_less(opt_view(*x), #[trigger] lv[j]),
            i < l@.len() ==> (lv[i as int] == opt_view(*x) || scope_less(opt_view(*x), lv[i as int])),
        decreases l.len() - i,
    {
        assert(lv[i as int] == opt_view(l@[i as int]));
        if scope_equal(&l[i], x) || scope_is_less(x, &l[i]) {
            break;
        }
        i = i + 1;
    }
    proof {
        lemma_insert_scope_skip(lv, opt_view(*x), i as int);
    }
    if i < l.len() && scope_equal(&l[i], x) {
        assert(lv[i as int] == opt_view(l@[i as int]));
        assert(lv.skip(i as int)[0] == lv[i as int]);
        assert(lv.take(i as int) + lv.skip(i as int) =~= lv);
        return;
    }
    proof {
        if i < l@.len() {
            assert(lv[i as int] == opt_view(l@[i as int]));
            assert(lv.skip(i as int)[0] == lv[i as int]);
            assert(lv.skip(i as int).len() > 0);
        } else {
            assert(lv.skip(i as int) =~= Seq::<Option<Seq<char>>>::empty());
        }
        assert(insert_scope(lv.skip(i as int), opt_view(*x)) =~= seq![opt_view(*x)] + lv.skip(i as int));
    }
    let item = copy_scope(x);
    let ghost before = l@;
    l.insert(i, item);
    proof {
        assert(l@ =~= before.insert(i as int, item));
        assert(scopes_view(l@) =~= lv.take(i as int) + (seq![opt_view(*x)] + lv.skip(i as int)));
    }
}

/// The scopes of some entries, distinct and in ascending order.
fn sorted_scope_list(es: &Vec<Commit>) -> (r: Vec<Option<String>>)
    ensures
        scopes_view(r@) == sorted_scopes(commits_view(es@)),
{
    let ghost ev = commits_view(es@);
    let mut l: Vec<Option<String>> = Vec::new();
    let mut i: usize = 0;
    while i < es.len()
        invariant
            0 <= i <= es@.len(),
            ev == commits_view(es@),
            scopes_view(l@) == sorted_scopes(ev.take(i as int)),
        decreases es.len() - i,
    {
        insert_scope_into(&mut l, &es[i].scope);
        assert(ev.take(i + 1).drop_last() =~= ev.take(i as int));
        assert(ev.take(i + 1).last() == commit_view(es@[i as int]));
        i = i + 1;
    }
    assert(ev.take(es@.len() as int) =~= ev);
    assert(scopes_view(Seq::<Option<String>>::empty()) =~= Seq::<Option<Seq<char>>>::empty());
    l
}

/// Copies a parsed commit.
fn copy_commit(c: &Commit) -> (r: Commit)
    ensures
        commit_view(r) == commit_view(*c),
{
    Commit {
        sha: to_owned_string(c.sha.as_str()),
        short_sha: to_owned_string(c.short_sha.as_str()),
        commit_type: to_owned_string(c.commit_type.as_str()),
        scope: copy_scope(&c.scope),
        breaking: c.breaking,
        subject: to_owned_string(c.subject.as_str()),
        body: copy_scope(&c.body),
    }
}

/// The commits of one type, in order.
fn commits_with_type(es: &Vec<Commit>, t: &str) -> (r: Vec<Commit>)
    ensures
        commits_view(r@) == with_type(commits_view(es@), t@),
{
    let ghost ev = commits_view(es@);
    let mut out: Vec<Commit> = Vec::new();
    let mut i: usize = 0;
    while i < es.len()
        invariant
            0 <= i <= es@.len(),
            ev == commits_view(es@),
            commits_view(out@) == with_type(ev.take(i as int), t@),
        decreases es.len() - i,
    {
        assert(ev.take(i + 1).drop_last() =~= ev.take(i as int));
        assert(ev.take(i + 1).last() == commit_view(es@[i as int]));
        let ghost before = commits_view(out@);
        if str_eq(es[i].commit_type.as_str(), t) {
            let c = copy_commit(&es[i]);
            out.push(c);
            assert(commits_view(out@) =~= before.push(commit_view(es@[i as int])));
        } else {
            assert(before + Seq::<CommitSpec>::empty() =~= before);
        }
        i = i + 1;
    }
    assert(ev.take(es@.len() as int) =~= ev);
    out
}

/// Appends the entries of one scope.
fn push_scope_entries(out: &mut String, es: &Vec<Commit>, s: &Option<String>, owner: &str, repo: &str)
    ensures
        final(out)@ == old(out)@ + scope_entries_text(commits_view(es@), opt_view(*s), owner@, repo@),
{
    let ghost ev = commits_view(es@);
    let ghost start = out@;
    let mut i: usize = 0;
    while i < es.len()
        invariant
            0 <= i <= es@.len(),
            ev == commits_view(es@),
            out@ == start + scope_entries_text(ev.take(i as int), opt_view(*s), owner@, repo@),
        decreases es.len() - i,
    {
        assert(ev.take(i + 1).drop_last() =~= ev.take(i as int));
        assert(ev.take(i + 1).last() == commit_view(es@[i as int]));
        let ghost before = out@;
        if scope_equal(&es[i].scope, s) {
            let entry = format_commit_entry(&es[i], owner, repo);
            push_str(out, entry.as_str());
        }
        assert(out@ =~= start + scope_entries_text(ev.take(i + 1), opt_view(*s), owner@, repo@));
        i = i + 1;
    }
    assert(ev.take(es@.len() as int) =~= ev);
}

/// Appends the section of one commit type.
fn push_type_section(out: &mut String, es: &Vec<Commit>, t: &str, owner: &str, repo: &str)
    ensures
        final(out)@ == old(out)@ + type_section(commits_view(es@), t@, owner@, repo@),
{
    proof {
        reveal_strlit("## ");
        assert("## "@ =~= (seq!['#', '#', ' ']));
        reveal_strlit("\n\n");
        assert("\n\n"@ =~= (seq!['\n', '\n']));
        reveal_strlit("### ");
        assert("### "@ =~= (seq!['#', '#', '#', ' ']));
    }
    let te = commits_with_type(es, t);
    if te.len() == 0 {
        assert(out@ =~= old(out)@ + Seq::<char>::empty());
        return;
    }
    let ghost tv = commits_view(te@);
    push_str(out, "## ");
    push_str(out, commit_type_title(t));
    push_str(out, "\n\n");
    let ghost head = out@;
    let scopes = sorted_scope_list(&te);
    let ghost sv = scopes_view(scopes@);
    let mut k: usize = 0;
    while k < scopes.len()
        invariant
            0 <= k <= scopes@.len(),
            tv == commits_view(te@),
            sv == scopes_view(scopes@),
            out@ == head + scope_blocks(tv, sv.take(k as int), owner@, repo@),
            "### "@ == (seq!['#', '#', '#', ' ']),
            "\n\n"@ == (seq!['\n', '\n']),
        decreases scopes.len() - k,
    {
        let ghost before = out@;
        match &scopes[k] {
            Some(name) => {
                push_str(out, "### ");
                push_str(out, name.as_str());
                push_str(out, "\n\n");
            },
            None => {},
        }
        assert(out@ =~= before + scope_heading(sv[k as int]));
        push_scope_entries(out, &te, &scopes[k], owner, repo);
        push_char(out, '\n');
        assert(sv.take(k + 1).drop_last() =~= sv.take(k as int));
        assert(sv.take(k + 1).last() == sv[k as int]);
        assert(out@ =~= head + scope_blocks(tv, sv.take(k + 1), owner@, repo@));
        k = k + 1;
    }
    assert(sv.take(scopes@.len() as int) =~= sv);
    assert(out@ =~= old(out)@ + type_section(commits_view(es@), t@, owner@, repo@));
}

/// Renders the markdown changelog of some commits (see
/// [`changelog_markdown`]): the header, then per commit type in the fixed
/// order the type's title and its commits grouped by scope. The check for an
/// empty changelog runs on the trimmed text and never succeeds, so no
/// `No changes found.` line is written
/// ([`lemma_changelog_is_header_and_sections`]).
pub fn render_changelog(
    commits: &Vec<Commit>,
    for_version: &Option<String>,
    at: &Option<String>,
    owner: &str,
    repo: &str,
) -> (r: String)
    ensures
        r@ == changelog_markdown(commits_view(commits@), opt_view(*for_version), opt_view(*at), owner@, repo@),
{
    proof {
        reveal_strlit("# Changelog - ");
        assert("# Changelog - "@ =~= (seq!['#', ' ', 'C', 'h', 'a', 'n', 'g', 'e', 'l', 'o', 'g', ' ', '-', ' ']));
        reveal_strlit("# Changelog");
        assert("# Changelog"@ =~= (seq!['#', ' ', 'C', 'h', 'a', 'n', 'g', 'e', 'l', 'o', 'g']));
        reveal_strlit("\n\n");
        assert("\n\n"@ =~= (seq!['\n', '\n']));
        reveal_strlit("No changes found.\n");
        assert("No changes found.\n"@ =~= (seq!['N', 'o', ' ', 'c', 'h', 'a', 'n', 'g', 'e', 's', ' ', 'f', 'o', 'u', 'n', 'd', '.', '\n']));
        reveal_strlit("# Changelog\n\n");
        assert("# Changelog\n\n"@ =~= (seq!['#', ' ', 'C', 'h', 'a', 'n', 'g', 'e', 'l', 'o', 'g']) + (seq!['\n', '\n']));
    }
    let mut out = String::new();
    match for_version {
        Some(v) => {
            push_str(&mut out, "# Changelog - ");
            let vc = chars_of(v.as_str());
            if !(vc.len() > 0 && (vc[0] == 'v' || vc[0] == 'V')) {
                push_char(&mut out, 'v');
            }
            push_str(&mut out, v.as_str());
            push_str(&mut out, "\n\n");
        },
        None => match at {
            Some(t) => {
                push_str(&mut out, "# Changelog - ");
                push_str(&mut out, t.as_str());
                push_str(&mut out, "\n\n");
            },
            None => {
                push_str(&mut out, "# Changelog");
                push_str(&mut out, "\n\n");
            },
        },
    }
    let ghost head = out@;
    assert(head =~= changelog_header(opt_view(*for_version), opt_view(*at)));
    let types = type_order_vec();
    let ghost tys = types@.map_values(|t: &str| t@);
    let mut i: usize = 0;
    while i < types.len()
        invariant
            0 <= i <= types@.len(),
            tys == types@.map_values(|t: &str| t@),
            tys == type_order(),
            out@ == head + sections(commits_view(commits@), tys.take(i as int), owner@, repo@),
        decreases types.len() - i,
    {
        push_type_section(&mut out, commits, types[i], owner, repo);
        assert(tys.take(i + 1).drop_last() =~= tys.take(i as int));
        assert(tys.take(i + 1).last() == tys[i as int]);
        assert(out@ =~= head + sections(commits_view(commits@), tys.take(i + 1), owner@, repo@));
        i = i + 1;
    }
    assert(tys.take(types@.len() as int) =~= tys);
    let trimmed = trim_string(out.as_str());
    let tv = chars_of(trimmed.as_str());
    let marker = chars_of("# Changelog\n\n");
    let ends = marker.len() <= tv.len() && crate::text::range_equals(&tv, tv.len() - marker.len(), tv.len(), &marker);
    if ends {
        push_str(&mut out, "No changes found.\n");
    }
    out
}


/// Error of a changelog request.
#[derive(Debug)]
pub enum ChangelogError {
    /// The range is not `START..END`.
    InvalidRange,
}

/// The description of a changelog error.
pub open spec fn changelog_error_text(e: ChangelogError) -> Seq<char> {
    match e {
        ChangelogError::InvalidRange => "Invalid range format. Expected: <start>..<end>"@,
    }
}

impl ChangelogError {
    /// Human-readable description of the error.
    pub fn message(&self) -> (r: String)
        ensures
            r@ == changelog_error_text(*self),
    {
        match self {
            ChangelogError::InvalidRange => to_owned_string("Invalid range format. Expected: <start>..<end>"),
        }
    }
}

/// The start and end references of a changelog range `START..END`, trimmed
/// (see [`crate::release::range_ends`]).
pub fn changelog_range(range: &str) -> (r: Result<(String, String), ChangelogError>)
    ensures
        match r {
            Ok((a, b)) => crate::release::range_ends(range@) == Some((a@, b@)),
            Err(_) => crate::release::range_ends(range@) is None,
        },
{
    match crate::release::split_range(range) {
        Some(ends) => Ok(ends),
        None => Err(ChangelogError::InvalidRange),
    }
}


/// Exactly one of `a < b`, `a == b`, `b < a` holds for texts.
proof fn lemma_text_less_trichotomy(a: Seq<char>, b: Seq<char>)
    ensures
        !text_less(a, a),
        text_less(a, b) ==> !text_less(b, a),
        text_less(a, b) || a == b || text_less(b, a),
    decreases a.len(),
{
    if a.len() > 0 && b.len() > 0 {
        lemma_text_less_trichotomy(a.drop_first(), b.drop_first());
        lemma_text_less_trichotomy(a.drop_first(), a.drop_first());
        if a[0] == b[0] && a.drop_first() == b.drop_first() {
            assert(a =~= seq![a[0]] + a.drop_first());
            assert(b =~= seq![b[0]] + b.drop_first());
        }
    } else if a.len() > 0 {
        lemma_text_less_trichotomy(a.drop_first(), a.drop_first());
    } else if b.len() == 0 {
        assert(a =~= b);
    }
}

/// The order of texts is transitive.
proof fn lemma_text_less_transitive(a: Seq<char>, b: Seq<char>, c: Seq<char>)
    requires
        text_less(a, b),
        text_less(b, c),
    ensures
        text_less(a, c),
    decreases a.len(),
{
    if a.len() > 0 && b.len() > 0 && c.len() > 0 && a[0] == b[0] && b[0] == c[0] {
        lemma_text_less_transitive(a.drop_first(), b.drop_first(), c.drop_first());
    }
}

/// [`scope_less`] is a strict total order.
proof fn lemma_scope_less_order(a: Option<Seq<char>>, b: Option<Seq<char>>, c: Option<Seq<char>>)
    ensures
        !scope_less(a, a),
        scope_less(a, b) || a == b || scope_less(b, a),
        scope_less(a, b) ==> !scope_less(b, a),
        scope_less(a, b) && scope_less(b, c) ==> scope_less(a, c),
{
    if let (Some(x), Some(y)) = (a, b) {
        lemma_text_less_trichotomy(x, y);
    }
    if let Some(x) = a {
        lemma_text_less_trichotomy(x, x);
    }
    if let (Some(x), Some(y), Some(z)) = (a, b, c) {
        if text_less(x, y) && text_less(y, z) {
            lemma_text_less_transitive(x, y, z);
        }
    }
}

/// A list of scopes in strictly ascending order.
pub open spec fn strictly_ascending(l: Seq<Option<Seq<char>>>) -> bool {
    forall|i: int, j: int| 0 <= i < j < l.len() ==> scope_less(#[trigger] l[i], #[trigger] l[j])
}

proof fn lemma_insert_scope_sorted(l: Seq<Option<Seq<char>>>, x: Option<Seq<char>>)
    requires
        strictly_ascending(l),
    ensures
        strictly_ascending(insert_scope(l, x)),
        forall|y: Option<Seq<char>>| #[trigger] insert_scope(l, x).contains(y) <==> (l.contains(y) || y == x),
    decreases l.len(),
{
    let r = insert_scope(l, x);
    if l.len() == 0 {
        assert(r =~= seq![x]);
        assert forall|y: Option<Seq<char>>| r.contains(y) <==> (l.contains(y) || y == x) by {
            if r.contains(y) {
                assert(r[0] == y);
            }
            if y == x {
                assert(r[0] == x);
            }
        }
    } else if l[0] == x {
        assert forall|y: Option<Seq<char>>| r.contains(y) <==> (l.contains(y) || y == x) by {
            if y == x {
                assert(l[0] == x);
            }
        }
    } else if scope_less(x, l[0]) {
        assert(r =~= seq![x] + l);
        assert forall|i: int, j: int| 0 <= i < j < r.len() implies scope_less(#[trigger] r[i], #[trigger] r[j]) by {
            if i == 0 {
                assert(r[j] == l[j - 1]);
                if j > 1 {
                    assert(scope_less(l[0], l[j - 1]));
                    lemma_scope_less_order(x, l[0], l[j - 1]);
                }
            } else {
                assert(r[i] == l[i - 1] && r[j] == l[j - 1]);
            }
        }
        assert forall|y: Option<Seq<char>>| r.contains(y) <==> (l.contains(y) || y == x) by {
            if r.contains(y) {
                let k = choose|k: int| 0 <= k < r.len() && r[k] == y;
                if k > 0 {
                    assert(l[k - 1] == y);
                }
            }
            if l.contains(y) {
                let k = choose|k: int| 0 <= k < l.len() && l[k] == y;
                assert(r[k + 1] == y);
            }
            if y == x {
                assert(r[0] == x);
            }
        }
    } else {
        let rest = l.drop_first();
        assert forall|i: int, j: int| 0 <= i < j < rest.len() implies scope_less(#[trigger] rest[i], #[trigger] rest[j]) by {
            assert(rest[i] == l[i + 1] && rest[j] == l[j + 1]);
        }
        lemma_insert_scope_sorted(rest, x);
        let t = insert_scope(rest, x);
        assert(r =~= seq![l[0]] + t);
        lemma_scope_less_order(x, l[0], x);
        assert(scope_less(l[0], x));
        assert forall|i: int, j: int| 0 <= i < j < r.len() implies scope_less(#[trigger] r[i], #[trigger] r[j]) by {
            if i == 0 {
                assert(r[j] == t[j - 1]);
                assert(t.contains(t[j - 1]));
                if t[j - 1] != x {
                    assert(rest.contains(t[j - 1]));
                    let k = choose|k: int| 0 <= k < rest.len() && rest[k] == t[j - 1];
                    assert(l[k + 1] == t[j - 1]);
                }
            } else {
                assert(r[i] == t[i - 1] && r[j] == t[j - 1]);
            }
        }
        assert forall|y: Option<Seq<char>>| r.contains(y) <==> (l.contains(y) || y == x) by {
            if r.contains(y) {
                let k = choose|k: int| 0 <= k < r.len() && r[k] == y;
                if k > 0 {
                    assert(0 <= k - 1 < t.len());
                    assert(t[k - 1] == y);
                    assert(t.contains(y));
                    if rest.contains(y) {
                        let m = choose|m: int| 0 <= m < rest.len() && rest[m] == y;
                        assert(l[m + 1] == y);
                    }
                } else {
                    assert(l[0] == y);
                }
            }
            if l.contains(y) {
                let k = choose|k: int| 0 <= k < l.len() && l[k] == y;
                if k > 0 {
                    assert(rest[k - 1] == y);
                    assert(t.contains(y));
                    let m = choose|m: int| 0 <= m < t.len() && t[m] == y;
                    assert(r[m + 1] == y);
                } else {
                    assert(r[0] == y);
                }
            }
            if y == x {
                assert(insert_scope(rest, x).contains(x));
                assert(t.contains(x));
                let m = choose|m: int| 0 <= m < t.len() && t[m] == x;
                assert(r[m + 1] == x);
            }
        }
    }
}

/// The scope groups of a changelog section come in a fixed order: no scope
/// first, then scopes in ascending text order, each once; and they are
/// exactly the scopes of the section's commits.
pub proof fn lemma_sorted_scopes(es: Seq<CommitSpec>)
    ensures
        strictly_ascending(sorted_scopes(es)),
        forall|y: Option<Seq<char>>| #[trigger] sorted_scopes(es).contains(y) <==> exists|k: int| 0 <= k < es.len() && #[trigger] es[k].3 == y,
        forall|i: int| 0 < i < sorted_scopes(es).len() ==> sorted_scopes(es)[i] is Some,
    decreases es.len(),
{
    let s = sorted_scopes(es);
    if es.len() > 0 {
        lemma_sorted_scopes(es.drop_last());
        lemma_insert_scope_sorted(sorted_scopes(es.drop_last()), es.last().3);
        assert forall|y: Option<Seq<char>>| s.contains(y) <==> exists|k: int| 0 <= k < es.len() && #[trigger] es[k].3 == y by {
            if s.contains(y) && y != es.last().3 {
                assert(sorted_scopes(es.drop_last()).contains(y));
                let k = choose|k: int| 0 <= k < es.drop_last().len() && #[trigger] es.drop_last()[k].3 == y;
                assert(es[k].3 == y);
            }
            if s.contains(y) && y == es.last().3 {
                assert(es[es.len() - 1].3 == y);
            }
            if exists|k: int| 0 <= k < es.len() && #[trigger] es[k].3 == y {
                let k = choose|k: int| 0 <= k < es.len() && #[trigger] es[k].3 == y;
                if k < es.len() - 1 {
                    assert(es.drop_last()[k].3 == y);
                    assert(sorted_scopes(es.drop_last()).contains(y));
                }
            }
        }
    }
    assert forall|i: int| 0 < i < s.len() implies s[i] is Some by {
        assert(scope_less(s[0], s[i]));
    }
}


/// A trimmed text that is not empty ends in a character that is not
/// whitespace.
proof fn lemma_trimmed_end(s: Seq<char>)
    ensures
        trim_all(s).len() > 0 ==> !crate::text::is_ws(trim_all(s).last()),
{
    crate::text::lemma_trim_lo_bounds(s, 0, s.len() as int);
    crate::text::lemma_trim_hi_bounds(s, 0, s.len() as int);
}

/// Sections of no commits are empty.
proof fn lemma_no_sections(types: Seq<Seq<char>>, owner: Seq<char>, repo: Seq<char>)
    ensures
        sections(Seq::empty(), types, owner, repo) == Seq::<char>::empty(),
    decreases types.len(),
{
    if types.len() > 0 {
        lemma_no_sections(types.drop_last(), owner, repo);
        assert(with_type(Seq::empty(), types.last()) == Seq::<CommitSpec>::empty());
        assert(Seq::<char>::empty() + Seq::<char>::empty() =~= Seq::<char>::empty());
    }
}

/// A changelog is its header followed by the sections of the commit types,
/// in the fixed type order; no line is added after them. Without commits it
/// is the header alone.
pub proof fn lemma_changelog_layout(
    es: Seq<CommitSpec>,
    for_version: Option<Seq<char>>,
    at: Option<Seq<char>>,
    owner: Seq<char>,
    repo: Seq<char>,
)
    ensures
        changelog_markdown(es, for_version, at, owner, repo) == changelog_header(for_version, at) + sections(es, type_order(), owner, repo),
        changelog_markdown(Seq::empty(), for_version, at, owner, repo) == changelog_header(for_version, at),
{
    let out = changelog_header(for_version, at) + sections(es, type_order(), owner, repo);
    let marker = (seq!['#', ' ', 'C', 'h', 'a', 'n', 'g', 'e', 'l', 'o', 'g']) + (seq!['\n', '\n']);
    lemma_trimmed_end(out);
    let t = trim_all(out);
    if ends_with(t, marker) {
        assert(t.subrange(t.len() - marker.len(), t.len() as int)[marker.len() - 1] == t.last());
        assert(marker[marker.len() - 1] == '\n');
    }
    lemma_no_sections(type_order(), owner, repo);
    let h = changelog_header(for_version, at);
    assert(h + Seq::<char>::empty() =~= h);
    let out0 = h + sections(Seq::empty(), type_order(), owner, repo);
    lemma_trimmed_end(out0);
    let t0 = trim_all(out0);
    if ends_with(t0, marker) {
        assert(t0.subrange(t0.len() - marker.len(), t0.len() as int)[marker.len() - 1] == t0.last());
        assert(marker[marker.len() - 1] == '\n');
    }
}

} // verus!
