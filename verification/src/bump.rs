//! Version bumps: the target version, the checks before a bump, the hook
//! commands, and the plan of the commit that records only the version
//! changes.
use vstd::prelude::*;
use crate::text::{chars_of, push_char, push_str, range_starts_with, str_eq, to_owned_string, trim_string, trim_all, starts_with};
use crate::version::{
    decimal_digits, format_version, parse_version, push_decimal, version_text, version_triple,
    VersionError,
};
use crate::diff::{
    apply_readme_version_hunks, apply_version_hunks, has_non_readme_version_changes,
    has_non_version_changes, has_unrelated_change, line_diff, readme_version_related, staged_text,
    version_related, contains, text_contains,
};
use crate::lockfile::{
    apply_workspace_cargo_lock_version_hunks, missing_crate, name_views, spliced_all, LockfileError,
};
use crate::changelog::opt_view;

verus! {

/// How the target version of a bump is chosen.
#[derive(Debug)]
pub enum TargetVersion {
    /// A version given explicitly (used trimmed).
    Explicit(String),
    /// The next version suggested from the releases (used as it is).
    Suggested(String),
    /// The next major version of the current one.
    Major,
    /// The next minor version of the current one.
    Minor,
    /// The next patch version of the current one (the default).
    Patch,
}

/// Error of a bump.
#[derive(Debug)]
pub enum BumpError {
    /// The current version does not parse, or cannot be incremented.
    Version(VersionError),
    /// The target version is the current version.
    AlreadyTarget(String),
}

/// The description of a bump error.
pub open spec fn bump_error_text(e: BumpError) -> Seq<char> {
    match e {
        BumpError::Version(v) => crate::version::version_error_text(v),
        BumpError::AlreadyTarget(v) => "Current version ("@ + v@ + ") is already the target version. Nothing to bump."@,
    }
}

impl BumpError {
    /// Human-readable description of the error.
    pub fn message(&self) -> (r: String)
        ensures
            r@ == bump_error_text(*self),
    {
        match self {
            BumpError::Version(e) => e.message(),
            BumpError::AlreadyTarget(v) => {
                let mut m = to_owned_string("Current version (");
                push_str(&mut m, v.as_str());
                push_str(&mut m, ") is already the target version. Nothing to bump.");
                m
            },
        }
    }
}

/// The target version for a request, or `None` when the current version
/// does not parse or the incremented component would leave `u32`.
pub open spec fn target_version(request: TargetVersion, current: Seq<char>) -> Option<Seq<char>> {
    match request {
        TargetVersion::Explicit(v) => Some(trim_all(v@)),
        TargetVersion::Suggested(v) => Some(v@),
        _ => match version_triple(current) {
            None => None,
            Some(t) => match request {
                TargetVersion::Major => if t.0 < u32::MAX {
                    Some(version_text((t.0 + 1) as u32, 0, 0))
                } else {
                    None
                },
                TargetVersion::Minor => if t.1 < u32::MAX {
                    Some(version_text(t.0, (t.1 + 1) as u32, 0))
                } else {
                    None
                },
                _ => if t.2 < u32::MAX {
                    Some(version_text(t.0, t.1, (t.2 + 1) as u32))
                } else {
                    None
                },
            },
        },
    }
}

/// A major, minor or patch bump of a version `(a, b, c)` targets the version
/// `(a + 1, 0, 0)`, `(a, b + 1, 0)` or `(a, b, c + 1)`, which is greater than
/// the current one; there is a target exactly when the incremented
/// component stays within `u32`.
pub proof fn lemma_bump_targets(current: Seq<char>)
    requires
        version_triple(current) is Some,
    ensures
        ({
            let (a, b, c) = version_triple(current).unwrap();
            &&& (target_version(TargetVersion::Major, current) is Some <==> a < u32::MAX)
            &&& (target_version(TargetVersion::Minor, current) is Some <==> b < u32::MAX)
            &&& (target_version(TargetVersion::Patch, current) is Some <==> c < u32::MAX)
            &&& target_version(TargetVersion::Major, current) is Some ==> version_triple(
                target_version(TargetVersion::Major, current).unwrap(),
            ) == Some(((a + 1) as u32, 0u32, 0u32))
            &&& target_version(TargetVersion::Minor, current) is Some ==> version_triple(
                target_version(TargetVersion::Minor, current).unwrap(),
            ) == Some((a, (b + 1) as u32, 0u32))
            &&& target_version(TargetVersion::Patch, current) is Some ==> version_triple(
                target_version(TargetVersion::Patch, current).unwrap(),
            ) == Some((a, b, (c + 1) as u32))
            &&& target_version(TargetVersion::Major, current) is Some ==> crate::version::triple_below(
                (a, b, c),
                version_triple(target_version(TargetVersion::Major, current).unwrap()).unwrap(),
            )
            &&& target_version(TargetVersion::Minor, current) is Some ==> crate::version::triple_below(
                (a, b, c),
                version_triple(target_version(TargetVersion::Minor, current).unwrap()).unwrap(),
            )
            &&& target_version(TargetVersion::Patch, current) is Some ==> crate::version::triple_below(
                (a, b, c),
                version_triple(target_version(TargetVersion::Patch, current).unwrap()).unwrap(),
            )
        }),
{
    let (a, b, c) = version_triple(current).unwrap();
    if a < u32::MAX {
        crate::version::lemma_parse_format_roundtrip((a + 1) as u32, 0, 0);
    }
    if b < u32::MAX {
        crate::version::lemma_parse_format_roundtrip(a, (b + 1) as u32, 0);
    }
    if c < u32::MAX {
        crate::version::lemma_parse_format_roundtrip(a, b, (c + 1) as u32);
    }
}

/// Computes the target version of a bump from the current version.
pub fn calculate_target_version(request: &TargetVersion, current_version: &str) -> (r: Result<String, BumpError>)
    ensures
        match r {
            Ok(v) => target_version(*request, current_version@) == Some(v@),
            Err(e) => target_version(*request, current_version@) is None && match e {
                BumpError::Version(VersionError::InvalidFormat(m)) => version_triple(current_version@) is None && m@ == current_version@,
                BumpError::Version(VersionError::ComponentOverflow) => version_triple(current_version@) is Some,
                _ => false,
            },
        },
{
    match request {
        TargetVersion::Explicit(v) => Ok(trim_string(v.as_str())),
        TargetVersion::Suggested(v) => Ok(to_owned_string(v.as_str())),
        _ => {
            let (major, minor, patch) = match parse_version(current_version) {
                Ok(t) => t,
                Err(e) => return Err(BumpError::Version(e)),
            };
            match request {
                TargetVersion::Major => {
                    if major == u32::MAX {
                        return Err(BumpError::Version(VersionError::ComponentOverflow));
                    }
                    Ok(format_version(major + 1, 0, 0))
                },
                TargetVersion::Minor => {
                    if minor == u32::MAX {
                        return Err(BumpError::Version(VersionError::ComponentOverflow));
                    }
                    Ok(format_version(major, minor + 1, 0))
                },
                _ => {
                    if patch == u32::MAX {
                        return Err(BumpError::Version(VersionError::ComponentOverflow));
                    }
                    Ok(format_version(major, minor, patch + 1))
                },
            }
        },
    }
}

/// Refuses a bump whose target is the current version.
pub fn check_version_changes(current_version: &str, target_version: &str) -> (r: Result<(), BumpError>)
    ensures
        match r {
            Ok(()) => current_version@ != target_version@,
            Err(e) => current_version@ == target_version@ && (e matches BumpError::AlreadyTarget(v) && v@ == current_version@),
        },
{
    if str_eq(current_version, target_version) {
        Err(BumpError::AlreadyTarget(to_owned_string(current_version)))
    } else {
        Ok(())
    }
}

/// The summary printed after a bump commit of `count` files.
pub open spec fn commit_summary_text(current: Seq<char>, target: Seq<char>, count: nat) -> Seq<char> {
    "✓ Committed version bump: "@ + current + " -> "@ + target + " ("@ + decimal_digits(count) + " file"@
        + (if count == 1 { Seq::<char>::empty() } else { "s"@ }) + ")"@
}

/// The summary of a bump commit: the two versions and the number of files.
pub fn commit_summary(current_version: &str, target_version: &str, file_count: u64) -> (r: String)
    ensures
        r@ == commit_summary_text(current_version@, target_version@, file_count as nat),
{
    let mut m = to_owned_string("✓ Committed version bump: ");
    push_str(&mut m, current_version);
    push_str(&mut m, " -> ");
    push_str(&mut m, target_version);
    push_str(&mut m, " (");
    push_decimal(&mut m, file_count);
    push_str(&mut m, " file");
    if file_count != 1 {
        push_str(&mut m, "s");
    }
    push_str(&mut m, ")");
    proof {
        if file_count == 1 {
            assert(m@ =~= commit_summary_text(current_version@, target_version@, file_count as nat));
        }
    }
    m
}

/// The message of a version bump commit.
pub open spec fn commit_message_text(old: Seq<char>, new: Seq<char>) -> Seq<char> {
    "chore(version): bump "@ + old + " -> "@ + new
}

/// The conventional commit message `chore(version): bump OLD -> NEW`.
pub fn commit_message(old_version: &str, new_version: &str) -> (r: String)
    ensures
        r@ == commit_message_text(old_version@, new_version@),
{
    let mut m = to_owned_string("chore(version): bump ");
    push_str(&mut m, old_version);
    push_str(&mut m, " -> ");
    push_str(&mut m, new_version);
    m
}

/// `s` with every non-overlapping occurrence of the non-empty `p`, scanning
/// from the left, replaced by `r` (as `str::replace` does).
pub open spec fn replace_all(s: Seq<char>, p: Seq<char>, r: Seq<char>) -> Seq<char>
    decreases s.len(),
{
    if s.len() == 0 {
        Seq::empty()
    } else if p.len() > 0 && starts_with(s, p) {
        r + replace_all(s.skip(p.len() as int), p, r)
    } else {
        seq![s[0]] + replace_all(s.drop_first(), p, r)
    }
}

/// The hook command with each `{{version}}` replaced by the version.
pub fn expand_hook(command: &str, version: &str) -> (r: String)
    ensures
        r@ == replace_all(command@, "{{version}}"@, version@),
{
    proof {
        reveal_strlit("{{version}}");
    }
    let s = chars_of(command);
    let p = chars_of("{{version}}");
    assert(p@.len() == 11);
    let mut out = String::new();
    let mut i: usize = 0;
    assert(s@.skip(0) =~= s@);
    while i < s.len()
        invariant
            0 <= i <= s@.len(),
            s@ == command@,
            p@ == "{{version}}"@,
            p@.len() == 11,
            out@ + replace_all(s@.skip(i as int), p@, version@) == replace_all(s@, p@, version@),
        decreases s.len() - i,
    {
        let ghost rest = s@.skip(i as int);
        let hit = range_starts_with(&s, i, s.len(), &p);
        assert(s@.subrange(i as int, s@.len() as int) =~= rest);
        if hit {
            push_str(&mut out, version);
            assert(rest.skip(11) =~= s@.skip(i + 11));
            assert(out@ + replace_all(s@.skip(i + 11), p@, version@) =~= replace_all(s@, p@, version@));
            i = i + 11;
        } else {
            push_char(&mut out, s[i]);
            assert(rest.drop_first() =~= s@.skip(i + 1));
            assert(rest[0] == s@[i as int]);
            assert(out@ + replace_all(s@.skip(i + 1), p@, version@) =~= replace_all(s@, p@, version@));
            i = i + 1;
        }
    }
    assert(s@.skip(i as int) =~= Seq::<char>::empty());
    assert(out@ + Seq::<char>::empty() =~= out@);
    out
}

/// The error of a hook that exited unsuccessfully.
pub open spec fn hook_failure_text(exit_code: Option<i32>, command: Seq<char>) -> Seq<char> {
    "Hook failed with exit code "@ + match exit_code {
        Some(c) => if c < 0 { "-"@ + decimal_digits((-c) as nat) } else { decimal_digits(c as nat) },
        None => "unknown"@,
    } + ": "@ + command
}

/// The error message of a failed hook: its exit code (`unknown` when it was
/// ended by a signal) and its command.
pub fn hook_failure_message(exit_code: Option<i32>, command: &str) -> (r: String)
    ensures
        r@ == hook_failure_text(exit_code, command@),
{
    let mut m = to_owned_string("Hook failed with exit code ");
    match exit_code {
        Some(c) => {
            if c < 0 {
                push_str(&mut m, "-");
                let n: i64 = -(c as i64);
                push_decimal(&mut m, n as u64);
            } else {
                push_decimal(&mut m, c as u64);
            }
        },
        None => push_str(&mut m, "unknown"),
    }
    push_str(&mut m, ": ");
    push_str(&mut m, command);
    m
}

/// Hook commands and extra files of a package, from
/// `[package.metadata.version-info]`.
#[derive(Debug)]
pub struct VersionInfoConfig {
    /// Commands run after `Cargo.toml` is updated, before derived files.
    pub pre_bump_hooks: Vec<String>,
    /// Commands run after the bump commit.
    pub post_bump_hooks: Vec<String>,
    /// Further files (relative to the manifest directory) to commit.
    pub additional_files: Vec<String>,
}

impl Default for VersionInfoConfig {
    fn default() -> (r: Self)
        ensures
            r.pre_bump_hooks@.len() == 0,
            r.post_bump_hooks@.len() == 0,
            r.additional_files@.len() == 0,
    {
        VersionInfoConfig { pre_bump_hooks: Vec::new(), post_bump_hooks: Vec::new(), additional_files: Vec::new() }
    }
}


/// Kind of an extra file of a bump commit, which decides how its changes are
/// staged.
#[derive(Debug, Clone, Copy, PartialEq, Eq, Structural)]
pub enum FileType {
    /// `Cargo.lock`: only the workspace packages' blocks are staged.
    CargoLock,
    /// `README.md`: only the lines that pin the crate's version are staged.
    Readme,
    /// Any other file: staged as it is.
    Other,
}

/// An extra file of a bump commit.
#[derive(Debug)]
pub struct AdditionalFile {
    /// Path relative to the repository root.
    pub path: String,
    /// Content of the working copy.
    pub working_content: String,
    /// Content in `HEAD`, when the file is there.
    pub head_content: Option<String>,
    /// How the file's changes are staged.
    pub file_type: FileType,
}

/// The plain view of an extra file.
pub open spec fn file_view(f: AdditionalFile) -> (Seq<char>, Seq<char>, Option<Seq<char>>, FileType) {
    (f.path@, f.working_content@, opt_view(f.head_content), f.file_type)
}

/// Error of planning a bump commit.
#[derive(Debug)]
pub enum CommitError {
    /// Neither the old version in `HEAD` nor the new one in the working copy.
    NoVersionChanges,
    /// The manifest is not in `HEAD`.
    NotInHead,
    /// A workspace package of the lockfile is missing from the working copy.
    Lockfile(LockfileError),
}

/// The description of a commit planning error.
pub open spec fn commit_error_text(e: CommitError) -> Seq<char> {
    match e {
        CommitError::NoVersionChanges => "No version-related changes found"@,
        CommitError::NotInHead => "File does not exist in HEAD"@,
        CommitError::Lockfile(l) => crate::lockfile::lockfile_error_text(l),
    }
}

impl CommitError {
    /// Human-readable description of the error.
    pub fn message(&self) -> (r: String)
        ensures
            r@ == commit_error_text(*self),
    {
        match self {
            CommitError::NoVersionChanges => to_owned_string("No version-related changes found"),
            CommitError::NotInHead => to_owned_string("File does not exist in HEAD"),
            CommitError::Lockfile(e) => e.message(),
        }
    }
}

/// A file of the bump commit with the content to commit.
#[derive(Debug)]
pub struct StagedFile {
    /// Path relative to the repository root.
    pub path: String,
    /// Content to record in the commit.
    pub content: String,
    /// Only part of the working copy's changes is staged.
    pub hunk_level: bool,
}

/// What a bump commit records: its files, in order, and its message.
#[derive(Debug)]
pub struct CommitPlan {
    /// The manifest first, then the extra files in the given order.
    pub files: Vec<StagedFile>,
    /// The commit message.
    pub message: String,
}

/// The plain view of a staged file.
pub open spec fn staged_view(f: StagedFile) -> (Seq<char>, Seq<char>, bool) {
    (f.path@, f.content@, f.hunk_level)
}

/// The manifest has version changes: with a copy in `HEAD`, it mentioned the
/// old version there and mentions the new one now; without, it mentions
/// `version` and the new version now.
pub open spec fn has_version_changes(head: Option<Seq<char>>, current: Seq<char>, old: Seq<char>, new: Seq<char>) -> bool {
    match head {
        Some(h) => contains(h, old) && contains(current, new),
        None => contains(current, "version"@) && contains(current, new),
    }
}

/// Whether `s` contains `t`.
fn contains_str(s: &str, t: &str) -> (r: bool)
    ensures
        r == contains(s@, t@),
{
    let sv = chars_of(s);
    let tv = chars_of(t);
    text_contains(&sv, &tv)
}

/// Checks that the manifest has version changes (see [`has_version_changes`]).
pub fn verify_version_changes(head_content: &Option<String>, current_content: &str, old_version: &str, new_version: &str) -> (r: Result<(), CommitError>)
    ensures
        match r {
            Ok(()) => has_version_changes(opt_view(*head_content), current_content@, old_version@, new_version@),
            Err(e) => !has_version_changes(opt_view(*head_content), current_content@, old_version@, new_version@)
                && e is NoVersionChanges,
        },
{
    let ok = match head_content {
        Some(h) => contains_str(h.as_str(), old_version) && contains_str(current_content, new_version),
        None => contains_str(current_content, "version") && contains_str(current_content, new_version),
    };
    if ok {
        Ok(())
    } else {
        Err(CommitError::NoVersionChanges)
    }
}

/// The manifest content to commit, and whether only part of its changes is
/// staged: the version lines only when other lines changed too.
pub open spec fn manifest_stage(head: Seq<char>, current: Seq<char>, old: Seq<char>, new: Seq<char>) -> (Seq<char>, bool) {
    let d = line_diff(head, current);
    let related = |l: Seq<char>| version_related(l, old, new);
    if has_unrelated_change(d, related) {
        (staged_text(d, related), true)
    } else {
        (current, false)
    }
}

/// The content to commit for an extra file and whether only part of its
/// changes is staged, or the missing workspace package of a lockfile.
pub open spec fn file_stage(
    f: (Seq<char>, Seq<char>, Option<Seq<char>>, FileType),
    crate_name: Seq<char>,
    names: Seq<Seq<char>>,
    old: Seq<char>,
    new: Seq<char>,
) -> Result<(Seq<char>, bool), Seq<char>> {
    let working = f.1;
    match f.2 {
        Some(head) => match f.3 {
            FileType::Readme => {
                let d = line_diff(head, working);
                let related = |l: Seq<char>| readme_version_related(l, crate_name, old, new);
                if has_unrelated_change(d, related) {
                    Ok((staged_text(d, related), true))
                } else {
                    Ok((working, false))
                }
            },
            FileType::CargoLock => match spliced_all(head, working, names) {
                Ok(staged) => Ok((staged, staged != working)),
                Err(n) => Err(n),
            },
            FileType::Other => Ok((working, false)),
        },
        None => Ok((working, false)),
    }
}

/// Stages the manifest (see [`manifest_stage`]).
fn stage_manifest(head_content: &str, current_content: &str, old_version: &str, new_version: &str) -> (r: (String, bool))
    ensures
        manifest_stage(head_content@, current_content@, old_version@, new_version@) == (r.0@, r.1),
{
    if has_non_version_changes(head_content, current_content, old_version, new_version) {
        match apply_version_hunks(head_content, current_content, old_version, new_version) {
            Ok(s) => (s, true),
            Err(_) => (to_owned_string(current_content), true),
        }
    } else {
        (to_owned_string(current_content), false)
    }
}

/// Stages one extra file (see [`file_stage`]).
fn stage_file_content(
    file: &AdditionalFile,
    crate_name: &str,
    workspace_package_names: &[String],
    old_version: &str,
    new_version: &str,
) -> (r: Result<(String, bool), LockfileError>)
    ensures
        match r {
            Ok(c) => file_stage(file_view(*file), crate_name@, name_views(workspace_package_names@), old_version@, new_version@)
                == Ok::<(Seq<char>, bool), Seq<char>>((c.0@, c.1)),
            Err(e) => file_stage(file_view(*file), crate_name@, name_views(workspace_package_names@), old_version@, new_version@)
                == Err::<(Seq<char>, bool), Seq<char>>(missing_crate(e)),
        },
{
    let working = file.working_content.as_str();
    match &file.head_content {
        Some(head) => match file.file_type {
            FileType::Readme => {
                if has_non_readme_version_changes(head.as_str(), working, crate_name, old_version, new_version) {
                    match apply_readme_version_hunks(head.as_str(), working, crate_name, old_version, new_version) {
                        Ok(s) => Ok((s, true)),
                        Err(_) => Ok((to_owned_string(working), true)),
                    }
                } else {
                    Ok((to_owned_string(working), false))
                }
            },
            FileType::CargoLock => {
                match apply_workspace_cargo_lock_version_hunks(head.as_str(), working, workspace_package_names, old_version, new_version) {
                    Ok(s) => {
                        let partial = !str_eq(s.as_str(), working);
                        if partial {
                            Ok((s, true))
                        } else {
                            Ok((to_owned_string(working), false))
                        }
                    },
                    Err(e) => Err(e),
                }
            },
            FileType::Other => Ok((to_owned_string(working), false)),
        },
        None => Ok((to_owned_string(working), false)),
    }
}

/// The staged extra files, in order, until the first that cannot be staged.
pub open spec fn files_stage(
    files: Seq<(Seq<char>, Seq<char>, Option<Seq<char>>, FileType)>,
    crate_name: Seq<char>,
    names: Seq<Seq<char>>,
    old: Seq<char>,
    new: Seq<char>,
) -> Result<Seq<(Seq<char>, Seq<char>, bool)>, Seq<char>>
    decreases files.len(),
{
    if files.len() == 0 {
        Ok(Seq::empty())
    } else {
        match files_stage(files.drop_last(), crate_name, names, old, new) {
            Err(n) => Err(n),
            Ok(done) => match file_stage(files.last(), crate_name, names, old, new) {
                Err(n) => Err(n),
                Ok(c) => Ok(done.push((files.last().0, c.0, c.1))),
            },
        }
    }
}

/// The views of some extra files.
pub open spec fn files_view(fs: Seq<AdditionalFile>) -> Seq<(Seq<char>, Seq<char>, Option<Seq<char>>, FileType)> {
    fs.map_values(|f: AdditionalFile| file_view(f))
}

/// The plan of a bump commit, or its error: the manifest must have version
/// changes and be in `HEAD`; then the manifest and each extra file are
/// staged in order.
pub open spec fn commit_plan(
    manifest_path: Seq<char>,
    head: Option<Seq<char>>,
    current: Seq<char>,
    crate_name: Seq<char>,
    old: Seq<char>,
    new: Seq<char>,
    files: Seq<(Seq<char>, Seq<char>, Option<Seq<char>>, FileType)>,
    names: Seq<Seq<char>>,
) -> Result<(Seq<(Seq<char>, Seq<char>, bool)>, Seq<char>), CommitFailure> {
    if !has_version_changes(head, current, old, new) {
        Err(CommitFailure::NoVersionChanges)
    } else {
        match head {
            None => Err(CommitFailure::NotInHead),
            Some(h) => {
                let m = manifest_stage(h, current, old, new);
                match files_stage(files, crate_name, names, old, new) {
                    Err(n) => Err(CommitFailure::MissingPackage(n)),
                    Ok(staged) => Ok((seq![(manifest_path, m.0, m.1)] + staged, commit_message_text(old, new))),
                }
            },
        }
    }
}

/// The failures of [`commit_plan`].
pub enum CommitFailure {
    /// See [`CommitError::NoVersionChanges`].
    NoVersionChanges,
    /// See [`CommitError::NotInHead`].
    NotInHead,
    /// A lockfile's workspace package of this name is missing.
    MissingPackage(Seq<char>),
}

/// The failure that an error reports.
pub open spec fn failure_of(e: CommitError) -> CommitFailure {
    match e {
        CommitError::NoVersionChanges => CommitFailure::NoVersionChanges,
        CommitError::NotInHead => CommitFailure::NotInHead,
        CommitError::Lockfile(l) => CommitFailure::MissingPackage(missing_crate(l)),
    }
}

/// The views of some staged files.
pub open spec fn staged_files_view(fs: Seq<StagedFile>) -> Seq<(Seq<char>, Seq<char>, bool)> {
    fs.map_values(|f: StagedFile| staged_view(f))
}

/// Plans the commit of a version bump: checks that the manifest has version
/// changes and is in `HEAD`, then stages only its version lines when other
/// lines changed too, and stages each extra file by its type. The caller
/// writes the blobs, the tree and the commit.
pub fn commit_version_changes_with_files(
    manifest_path: &str,
    head_content: &Option<String>,
    current_content: &str,
    crate_name: &str,
    old_version: &str,
    new_version: &str,
    additional_files: &[AdditionalFile],
    workspace_package_names: &[String],
) -> (r: Result<CommitPlan, CommitError>)
    ensures
        match r {
            Ok(p) => commit_plan(manifest_path@, opt_view(*head_content), current_content@, crate_name@, old_version@, new_version@,
                files_view(additional_files@), name_views(workspace_package_names@))
                == Ok::<(Seq<(Seq<char>, Seq<char>, bool)>, Seq<char>), CommitFailure>((staged_files_view(p.files@), p.message@)),
            Err(e) => commit_plan(manifest_path@, opt_view(*head_content), current_content@, crate_name@, old_version@, new_version@,
                files_view(additional_files@), name_views(workspace_package_names@))
                == Err::<(Seq<(Seq<char>, Seq<char>, bool)>, Seq<char>), CommitFailure>(failure_of(e)),
        },
{
    verify_version_changes(head_content, current_content, old_version, new_version)?;
    let head = match head_content {
        Some(h) => h,
        None => return Err(CommitError::NotInHead),
    };
    let (content, partial) = stage_manifest(head.as_str(), current_content, old_version, new_version);
    let mut files: Vec<StagedFile> = Vec::new();
    files.push(StagedFile { path: to_owned_string(manifest_path), content, hunk_level: partial });
    let ghost fv = files_view(additional_files@);
    let ghost names = name_views(workspace_package_names@);
    let ghost first = seq![(manifest_path@, content@, partial)];
    assert(staged_files_view(files@) =~= first);
    let mut i: usize = 0;
    while i < additional_files.len()
        invariant
            0 <= i <= additional_files@.len(),
            fv == files_view(additional_files@),
            names == name_views(workspace_package_names@),
            has_version_changes(opt_view(*head_content), current_content@, old_version@, new_version@),
            opt_view(*head_content) == Some(head@),
            first == seq![(manifest_path@, manifest_stage(head@, current_content@, old_version@, new_version@).0,
                manifest_stage(head@, current_content@, old_version@, new_version@).1)],
            files_stage(fv.take(i as int), crate_name@, names, old_version@, new_version@) matches Ok(done)
                && staged_files_view(files@) == first + done,
        decreases additional_files.len() - i,
    {
        let f = &additional_files[i];
        assert(fv.take(i + 1).drop_last() =~= fv.take(i as int));
        assert(fv.take(i + 1).last() == file_view(*f));
        let ghost before = files@;
        match stage_file_content(f, crate_name, workspace_package_names, old_version, new_version) {
            Ok((c, partial)) => {
                files.push(StagedFile { path: to_owned_string(f.path.as_str()), content: c, hunk_level: partial });
                assert(staged_files_view(files@) =~= staged_files_view(before).push((f.path@, c@, partial)));
            },
            Err(e) => {
                proof {
                    lemma_files_stage_stops(fv, crate_name@, names, old_version@, new_version@, i as int + 1);
                    assert(files_stage(fv, crate_name@, names, old_version@, new_version@)
                        == Err::<Seq<(Seq<char>, Seq<char>, bool)>, Seq<char>>(missing_crate(e)));
                }
                return Err(CommitError::Lockfile(e));
            },
        }
        i = i + 1;
    }
    assert(fv.take(additional_files@.len() as int) =~= fv);
    Ok(CommitPlan { files, message: commit_message(old_version, new_version) })
}

/// Once a prefix of the files fails to stage, all the files fail alike.
proof fn lemma_files_stage_stops(
    files: Seq<(Seq<char>, Seq<char>, Option<Seq<char>>, FileType)>,
    crate_name: Seq<char>,
    names: Seq<Seq<char>>,
    old: Seq<char>,
    new: Seq<char>,
    k: int,
)
    requires
        0 <= k <= files.len(),
        files_stage(files.take(k), crate_name, names, old, new) is Err,
    ensures
        files_stage(files, crate_name, names, old, new) == files_stage(files.take(k), crate_name, names, old, new),
    decreases files.len() - k,
{
    if k < files.len() {
        assert(files.take(k + 1).drop_last() =~= files.take(k));
        lemma_files_stage_stops(files, crate_name, names, old, new, k + 1);
    } else {
        assert(files.take(k) =~= files);
    }
}

/// Plans the commit of a version bump of the manifest alone (see
/// [`commit_version_changes_with_files`]).
pub fn commit_version_changes(
    manifest_path: &str,
    head_content: &Option<String>,
    current_content: &str,
    crate_name: &str,
    old_version: &str,
    new_version: &str,
) -> (r: Result<CommitPlan, CommitError>)
    ensures
        match r {
            Ok(p) => commit_plan(manifest_path@, opt_view(*head_content), current_content@, crate_name@, old_version@, new_version@,
                Seq::empty(), Seq::empty())
                == Ok::<(Seq<(Seq<char>, Seq<char>, bool)>, Seq<char>), CommitFailure>((staged_files_view(p.files@), p.message@)),
            Err(e) => commit_plan(manifest_path@, opt_view(*head_content), current_content@, crate_name@, old_version@, new_version@,
                Seq::empty(), Seq::empty())
                == Err::<(Seq<(Seq<char>, Seq<char>, bool)>, Seq<char>), CommitFailure>(failure_of(e)),
        },
{
    let files: Vec<AdditionalFile> = Vec::new();
    let names: Vec<String> = Vec::new();
    assert(files_view(files@) =~= Seq::empty());
    assert(name_views(names@) =~= Seq::empty());
    commit_version_changes_with_files(manifest_path, head_content, current_content, crate_name, old_version, new_version, files.as_slice(), names.as_slice())
}


/// Text without the pattern is left as it is by the replacement: a hook
/// command without `{{version}}` runs unchanged.
pub proof fn lemma_replace_absent(s: Seq<char>, p: Seq<char>, r: Seq<char>)
    requires
        p.len() > 0,
        !contains(s, p),
    ensures
        replace_all(s, p, r) == s,
    decreases s.len(),
{
    if s.len() > 0 {
        if starts_with(s, p) {
            let z: int = 0;
            assert(s.subrange(z, z + p.len()) == p);
            assert(contains(s, p));
        }
        let t = s.drop_first();
        if contains(t, p) {
            let i = choose|i: int| 0 <= i <= t.len() - p.len() && #[trigger] t.subrange(i, i + p.len()) == p;
            assert(s.subrange(i + 1, i + 1 + p.len()) =~= t.subrange(i, i + p.len()));
            assert(contains(s, p));
        }
        lemma_replace_absent(t, p, r);
        assert(seq![s[0]] + t =~= s);
    }
}


/// When the manifest's changes since `HEAD` are all version-related, the
/// bump commit records the working manifest as it is; otherwise it records
/// `HEAD`'s manifest with only the version-related changes applied.
pub proof fn lemma_manifest_commit_content(
    manifest_path: Seq<char>,
    head: Seq<char>,
    current: Seq<char>,
    crate_name: Seq<char>,
    old: Seq<char>,
    new: Seq<char>,
)
    requires
        has_version_changes(Some(head), current, old, new),
    ensures
        ({
            let related = |l: Seq<char>| version_related(l, old, new);
            let d = line_diff(head, current);
            let committed = if has_unrelated_change(d, related) { staged_text(d, related) } else { current };
            commit_plan(manifest_path, Some(head), current, crate_name, old, new, Seq::empty(), Seq::empty())
                == Ok::<(Seq<(Seq<char>, Seq<char>, bool)>, Seq<char>), CommitFailure>((
                    seq![(manifest_path, committed, has_unrelated_change(d, related))],
                    commit_message_text(old, new),
                ))
        }),
{
    let e = Seq::<(Seq<char>, Seq<char>, Option<Seq<char>>, FileType)>::empty();
    assert(files_stage(e, crate_name, Seq::empty(), old, new) == Ok::<Seq<(Seq<char>, Seq<char>, bool)>, Seq<char>>(Seq::empty()));
    let m = manifest_stage(head, current, old, new);
    assert(seq![(manifest_path, m.0, m.1)] + Seq::<(Seq<char>, Seq<char>, bool)>::empty() =~= seq![(manifest_path, m.0, m.1)]);
}


/// What a bump does, as the command's flags and hook configuration decide.
#[derive(Debug)]
pub struct BumpOptions {
    /// Do not update `Cargo.lock`.
    pub no_lock: bool,
    /// Do not update `README.md`.
    pub no_readme: bool,
    /// Update the files without committing.
    pub no_commit: bool,
    /// Number of pre-bump hooks.
    pub pre_hooks: usize,
    /// Number of post-bump hooks.
    pub post_hooks: usize,
}

/// A step of a bump, once the target version is known and checked.
#[derive(Debug, Clone, Copy, PartialEq, Eq, Structural)]
pub enum BumpAction {
    /// Write the new version into `Cargo.toml`.
    UpdateManifest,
    /// Run the pre-bump hook with this index.
    RunPreHook(usize),
    /// Record `HEAD`'s `Cargo.lock`, then run `cargo update --workspace`.
    UpdateLock,
    /// Record `HEAD`'s `README.md`, then rewrite its version references.
    UpdateReadme,
    /// Report the version update without a commit.
    ReportUncommitted,
    /// Commit the version changes and report the commit.
    Commit,
    /// Run the post-bump hook with this index.
    RunPostHook(usize),
    /// The bump is complete.
    Finish,
}

/// The steps of a bump, in order: the manifest, the pre-bump hooks, the
/// lockfile, the README, then either the report of an uncommitted update or
/// the commit followed by the post-bump hooks. A failing step ends the bump.
pub open spec fn bump_actions(o: BumpOptions) -> Seq<BumpAction> {
    seq![BumpAction::UpdateManifest]
        + Seq::new(o.pre_hooks as nat, |i: int| BumpAction::RunPreHook(i as usize))
        + (if o.no_lock { Seq::empty() } else { seq![BumpAction::UpdateLock] })
        + (if o.no_readme { Seq::empty() } else { seq![BumpAction::UpdateReadme] })
        + (if o.no_commit {
            seq![BumpAction::ReportUncommitted]
        } else {
            seq![BumpAction::Commit] + Seq::new(o.post_hooks as nat, |i: int| BumpAction::RunPostHook(i as usize))
        })
}

/// The step of a bump after `completed` steps have succeeded (see
/// [`bump_actions`]); `Finish` once all are done.
pub fn bump_next_action(options: &BumpOptions, completed: usize) -> (r: BumpAction)
    ensures
        r == (if completed < bump_actions(*options).len() { bump_actions(*options)[completed as int] } else { BumpAction::Finish }),
{
    let ghost o = *options;
    let ghost a = seq![BumpAction::UpdateManifest];
    let ghost b = Seq::new(o.pre_hooks as nat, |i: int| BumpAction::RunPreHook(i as usize));
    let ghost c = if o.no_lock { Seq::<BumpAction>::empty() } else { seq![BumpAction::UpdateLock] };
    let ghost d = if o.no_readme { Seq::<BumpAction>::empty() } else { seq![BumpAction::UpdateReadme] };
    let ghost e = if o.no_commit {
        seq![BumpAction::ReportUncommitted]
    } else {
        seq![BumpAction::Commit] + Seq::new(o.post_hooks as nat, |i: int| BumpAction::RunPostHook(i as usize))
    };
    let ghost all = bump_actions(o);
    assert(all =~= a + b + c + d + e);
    if completed == 0 {
        return BumpAction::UpdateManifest;
    }
    let mut k: usize = completed - 1;
    if k < options.pre_hooks {
        assert(all[completed as int] == b[k as int]);
        return BumpAction::RunPreHook(k);
    }
    k = k - options.pre_hooks;
    let ghost base: int = 1 + b.len() as int;
    assert(completed == base + k);
    if !options.no_lock {
        if k == 0 {
            assert(all[completed as int] == c[0]);
            return BumpAction::UpdateLock;
        }
        k = k - 1;
    }
    let ghost base2: int = base + c.len() as int;
    assert(completed == base2 + k);
    if !options.no_readme {
        if k == 0 {
            assert(all[completed as int] == d[0]);
            return BumpAction::UpdateReadme;
        }
        k = k - 1;
    }
    let ghost base3: int = base2 + d.len() as int;
    assert(completed == base3 + k);
    if options.no_commit {
        if k == 0 {
            assert(all[completed as int] == e[0]);
            return BumpAction::ReportUncommitted;
        }
        return BumpAction::Finish;
    }
    if k == 0 {
        assert(all[completed as int] == e[0]);
        return BumpAction::Commit;
    }
    k = k - 1;
    if k < options.post_hooks {
        assert(all[completed as int] == e[k + 1]);
        return BumpAction::RunPostHook(k);
    }
    BumpAction::Finish
}

} // verus!
