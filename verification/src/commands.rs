//! The reports of the query commands: what each command prints for the
//! values it has read, in each output format it accepts.
use vstd::prelude::*;
use crate::text::{push_str, str_eq, to_owned_string, trim_string, trim_all};
use crate::version::{
    compare_versions, format_tag, invalid_format_of, order_outcome, parse_version, triple_order,
    version_text, version_triple, VersionError,
};

verus! {

/// Error of a query command.
#[derive(Debug)]
pub enum CommandError {
    /// The requested output format is not one the command knows.
    InvalidFormat(String),
    /// A version string could not be parsed.
    Version(VersionError),
    /// The manifest at this path is not TOML.
    ManifestParse(String),
    /// The manifest at this path names no dioxus version.
    NoDioxusVersion(String),
    /// The toolchain file at this path names no channel.
    NoChannel(String),
    /// The command is not available yet; the message says so.
    NotImplemented(String),
}

/// The description of a command error.
pub open spec fn command_error_text(e: CommandError) -> Seq<char> {
    match e {
        CommandError::InvalidFormat(f) => "Invalid format: "@ + f@,
        CommandError::Version(v) => crate::version::version_error_text(v),
        CommandError::ManifestParse(p) => "Failed to parse "@ + p@,
        CommandError::NoDioxusVersion(p) => "No dioxus version found in "@ + p@,
        CommandError::NoChannel(p) => "No channel found in "@ + p@,
        CommandError::NotImplemented(m) => m@,
    }
}

impl CommandError {
    /// Human-readable description of the error.
    pub fn message(&self) -> (r: String)
        ensures
            r@ == command_error_text(*self),
    {
        match self {
            CommandError::InvalidFormat(f) => {
                let mut m = to_owned_string("Invalid format: ");
                push_str(&mut m, f.as_str());
                m
            },
            CommandError::Version(e) => e.message(),
            CommandError::ManifestParse(p) => {
                let mut m = to_owned_string("Failed to parse ");
                push_str(&mut m, p.as_str());
                m
            },
            CommandError::NoDioxusVersion(p) => {
                let mut m = to_owned_string("No dioxus version found in ");
                push_str(&mut m, p.as_str());
                m
            },
            CommandError::NoChannel(p) => {
                let mut m = to_owned_string("No channel found in ");
                push_str(&mut m, p.as_str());
                m
            },
            CommandError::NotImplemented(m) => to_owned_string(m.as_str()),
        }
    }
}

/// `e` rejects the output format `format`.
pub open spec fn rejects_format(e: CommandError, format: Seq<char>) -> bool {
    match e {
        CommandError::InvalidFormat(f) => f@ == format,
        _ => false,
    }
}

/// `e` reports that `input` is not a version string.
pub open spec fn rejects_version(e: CommandError, input: Seq<char>) -> bool {
    match e {
        CommandError::Version(v) => invalid_format_of(v, input),
        _ => false,
    }
}

/// Text that a command prints, and where it goes.
#[derive(Debug)]
pub struct Report {
    /// The text, with its final newline.
    pub text: String,
    /// The text goes to the GitHub Actions output file (the `GITHUB_OUTPUT`
    /// file, or standard output when none is set) rather than to standard
    /// output.
    pub to_github_output: bool,
}

/// A report for standard output.
fn printed(text: String) -> (r: Report)
    ensures
        r.text@ == text@,
        !r.to_github_output,
{
    Report { text, to_github_output: false }
}

/// Arguments of `compare`: two versions and the output format.
#[derive(Debug)]
pub struct CompareArgs {
    /// First version.
    pub version1: String,
    /// Second version.
    pub version2: String,
    /// Output format: `bool`, `json` or `diff`.
    pub format: String,
}

/// What `compare` prints for an outcome (`Some(true)`: the first version is
/// greater, `Some(false)`: smaller, `None`: equal); `None` for an unknown
/// format.
pub open spec fn compare_text(v1: Seq<char>, v2: Seq<char>, o: Option<bool>, format: Seq<char>) -> Option<Seq<char>> {
    if format == "bool"@ {
        Some(if o == Some(true) { "true\n"@ } else { "false\n"@ })
    } else if format == "json"@ {
        let word = match o {
            Some(true) => "greater"@,
            Some(false) => "less"@,
            None => "equal"@,
        };
        Some("{\"result\":\""@ + word + "\",\"version1\":\""@ + v1 + "\",\"version2\":\""@ + v2 + "\"}\n"@)
    } else if format == "diff"@ {
        let op = match o {
            Some(true) => " > "@,
            Some(false) => " < "@,
            None => " == "@,
        };
        Some(v1 + op + v2 + "\n"@)
    } else {
        None
    }
}

/// The outcome of comparing two versions `a` (first) and `b` (second), as the
/// word `compare` prints in JSON: `greater` when `a` is the greater version,
/// `less` when it is the smaller one, `equal` when they are the same.
pub open spec fn comparison_word(a: (u32, u32, u32), b: (u32, u32, u32)) -> Seq<char> {
    if crate::version::triple_below(b, a) {
        "greater"@
    } else if crate::version::triple_below(a, b) {
        "less"@
    } else {
        "equal"@
    }
}

/// What `compare` prints for two versions that parse: in JSON the word
/// `greater`, `less` or `equal` for the first version being greater,
/// smaller or the same (three distinct words), with both versions as given;
/// as a boolean `true` exactly when the first is greater; as a diff the
/// versions joined by `>`, `<` or `==`.
pub proof fn lemma_compare_outputs(v1: Seq<char>, v2: Seq<char>)
    requires
        version_triple(v1) is Some,
        version_triple(v2) is Some,
    ensures
        ({
            let a = version_triple(v1).unwrap();
            let b = version_triple(v2).unwrap();
            let o = order_outcome(triple_order(a, b));
            &&& compare_text(v1, v2, o, "json"@) == Some(
                "{\"result\":\""@ + comparison_word(a, b) + "\",\"version1\":\""@ + v1 + "\",\"version2\":\""@ + v2 + "\"}\n"@,
            )
            &&& compare_text(v1, v2, o, "bool"@) == Some(
                if crate::version::triple_below(b, a) { "true\n"@ } else { "false\n"@ },
            )
            &&& compare_text(v1, v2, o, "diff"@) == Some(
                v1 + (if crate::version::triple_below(b, a) {
                    " > "@
                } else if crate::version::triple_below(a, b) {
                    " < "@
                } else {
                    " == "@
                }) + v2 + "\n"@,
            )
            &&& (comparison_word(a, b) == "equal"@ <==> a == b)
            &&& (comparison_word(a, b) == "greater"@ <==> comparison_word(b, a) == "less"@)
        }),
        "greater"@ != "less"@,
        "greater"@ != "equal"@,
        "less"@ != "equal"@,
{
    reveal_strlit("greater");
    reveal_strlit("less");
    reveal_strlit("equal");
    reveal_strlit("bool");
    reveal_strlit("json");
    reveal_strlit("diff");
    assert("greater"@[0] != "less"@[0]);
    assert("greater"@[0] != "equal"@[0]);
    assert("less"@[0] != "equal"@[0]);
    assert("bool"@[0] != "json"@[0]);
    assert("bool"@[0] != "diff"@[0]);
    assert("json"@[0] != "diff"@[0]);
}

/// Compares the two versions and renders the outcome in the requested format.
///
/// Fails when a version does not parse (the first one is checked first), then
/// when the format is unknown.
pub fn compare(args: &CompareArgs) -> (r: Result<String, CommandError>)
    ensures
        match r {
            Ok(s) => {
                &&& version_triple(args.version1@) is Some
                &&& version_triple(args.version2@) is Some
                &&& compare_text(args.version1@, args.version2@, order_outcome(triple_order(
                    version_triple(args.version1@).unwrap(),
                    version_triple(args.version2@).unwrap(),
                )), args.format@) == Some(s@)
            },
            Err(e) => {
                ||| version_triple(args.version1@) is None && rejects_version(e, args.version1@)
                ||| version_triple(args.version1@) is Some && version_triple(args.version2@) is None
                    && rejects_version(e, args.version2@)
                ||| version_triple(args.version1@) is Some && version_triple(args.version2@) is Some
                    && compare_text(args.version1@, args.version2@, order_outcome(triple_order(
                    version_triple(args.version1@).unwrap(),
                    version_triple(args.version2@).unwrap(),
                )), args.format@) is None && rejects_format(e, args.format@)
            },
        },
{
    let o = match compare_versions(args.version1.as_str(), args.version2.as_str()) {
        Ok(o) => o,
        Err(e) => return Err(CommandError::Version(e)),
    };
    let v1 = args.version1.as_str();
    let v2 = args.version2.as_str();
    let format = args.format.as_str();
    let mut out = String::new();
    if str_eq(format, "bool") {
        match o {
            Some(true) => push_str(&mut out, "true\n"),
            _ => push_str(&mut out, "false\n"),
        }
    } else if str_eq(format, "json") {
        push_str(&mut out, "{\"result\":\"");
        match o {
            Some(true) => push_str(&mut out, "greater"),
            Some(false) => push_str(&mut out, "less"),
            None => push_str(&mut out, "equal"),
        }
        push_str(&mut out, "\",\"version1\":\"");
        push_str(&mut out, v1);
        push_str(&mut out, "\",\"version2\":\"");
        push_str(&mut out, v2);
        push_str(&mut out, "\"}\n");
    } else if str_eq(format, "diff") {
        push_str(&mut out, v1);
        match o {
            Some(true) => push_str(&mut out, " > "),
            Some(false) => push_str(&mut out, " < "),
            None => push_str(&mut out, " == "),
        }
        push_str(&mut out, v2);
        push_str(&mut out, "\n");
    } else {
        return Err(CommandError::InvalidFormat(to_owned_string(format)));
    }
    assert(Some(out@) == compare_text(v1@, v2@, o, format@));
    Ok(out)
}


/// Arguments of `tag`: a version and the output format.
#[derive(Debug)]
pub struct TagArgs {
    /// The version to turn into a tag.
    pub version: String,
    /// Output format: `tag` or `json`.
    pub format: String,
}

/// The tag `vMAJOR.MINOR.PATCH` of a version triple.
pub open spec fn tag_text(t: (u32, u32, u32)) -> Seq<char> {
    "v"@ + version_text(t.0, t.1, t.2)
}

/// What `tag` prints; `None` for an unknown format.
pub open spec fn tag_report(version: Seq<char>, t: (u32, u32, u32), format: Seq<char>) -> Option<Seq<char>> {
    if format == "tag"@ {
        Some(tag_text(t) + "\n"@)
    } else if format == "json"@ {
        Some("{\"tag\":\""@ + tag_text(t) + "\",\"version\":\""@ + version + "\"}\n"@)
    } else {
        None
    }
}

/// Renders the git tag of a version: `v` and the normalised triple.
///
/// Fails when the version does not parse, then when the format is unknown.
pub fn tag(args: &TagArgs) -> (r: Result<String, CommandError>)
    ensures
        match r {
            Ok(s) => version_triple(args.version@) is Some && tag_report(
                args.version@,
                version_triple(args.version@).unwrap(),
                args.format@,
            ) == Some(s@),
            Err(e) => {
                ||| version_triple(args.version@) is None && rejects_version(e, args.version@)
                ||| version_triple(args.version@) is Some && tag_report(
                    args.version@,
                    version_triple(args.version@).unwrap(),
                    args.format@,
                ) is None && rejects_format(e, args.format@)
            },
        },
{
    let (major, minor, patch) = match parse_version(args.version.as_str()) {
        Ok(t) => t,
        Err(e) => return Err(CommandError::Version(e)),
    };
    let t = format_tag(major, minor, patch);
    proof {
        reveal_strlit("v");
    }
    assert(t@ == tag_text((major, minor, patch)));
    let format = args.format.as_str();
    let mut out = String::new();
    if str_eq(format, "tag") {
        push_str(&mut out, t.as_str());
        push_str(&mut out, "\n");
    } else if str_eq(format, "json") {
        push_str(&mut out, "{\"tag\":\"");
        push_str(&mut out, t.as_str());
        push_str(&mut out, "\",\"version\":\"");
        push_str(&mut out, args.version.as_str());
        push_str(&mut out, "\"}\n");
    } else {
        return Err(CommandError::InvalidFormat(to_owned_string(format)));
    }
    assert(Some(out@) == tag_report(args.version@, (major, minor, patch), format@));
    Ok(out)
}

/// Arguments of `current`.
#[derive(Debug)]
pub struct CurrentArgs {
    /// Path to `Cargo.toml` (default: `./Cargo.toml`).
    pub manifest_path: Option<String>,
    /// Output format: `version`, `json` or `github-actions`.
    pub format: String,
    /// The GitHub Actions output file.
    pub github_output: Option<String>,
}

/// What `current` writes for a package version: the text, and whether it
/// goes to the GitHub Actions output; `None` for an unknown format.
pub open spec fn current_report(version: Seq<char>, format: Seq<char>) -> Option<(Seq<char>, bool)> {
    if format == "version"@ {
        Some((version + "\n"@, false))
    } else if format == "json"@ {
        Some(("{\"version\":\""@ + version + "\"}\n"@, false))
    } else if format == "github-actions"@ {
        Some(("version="@ + version + "\n"@, true))
    } else {
        None
    }
}

/// Renders the current package version (read from the manifest by the
/// caller) in the requested format.
pub fn current(args: &CurrentArgs, version: &str) -> (r: Result<Report, CommandError>)
    ensures
        match r {
            Ok(rep) => current_report(version@, args.format@) == Some((rep.text@, rep.to_github_output)),
            Err(e) => current_report(version@, args.format@) is None && rejects_format(e, args.format@),
        },
{
    let format = args.format.as_str();
    let mut out = String::new();
    if str_eq(format, "version") {
        push_str(&mut out, version);
        push_str(&mut out, "\n");
        Ok(printed(out))
    } else if str_eq(format, "json") {
        push_str(&mut out, "{\"version\":\"");
        push_str(&mut out, version);
        push_str(&mut out, "\"}\n");
        Ok(printed(out))
    } else if str_eq(format, "github-actions") {
        push_str(&mut out, "version=");
        push_str(&mut out, version);
        push_str(&mut out, "\n");
        Ok(Report { text: out, to_github_output: true })
    } else {
        Err(CommandError::InvalidFormat(to_owned_string(format)))
    }
}

/// Arguments of `dev`.
#[derive(Debug)]
pub struct DevArgs {
    /// Path of the git repository (default: `.`).
    pub repo_path: String,
    /// Output format: `version` or `json`.
    pub format: String,
}

/// What `dev` prints for the abbreviated `HEAD` commit id; `None` for an
/// unknown format.
pub open spec fn dev_report(short_sha: Seq<char>, format: Seq<char>) -> Option<Seq<char>> {
    let v = "0.0.0-dev-"@ + short_sha;
    if format == "version"@ {
        Some(v + "\n"@)
    } else if format == "json"@ {
        Some("{\"version\":\""@ + v + "\",\"sha\":\""@ + short_sha + "\"}\n"@)
    } else {
        None
    }
}

/// Renders the development version `0.0.0-dev-SHA` of the abbreviated commit
/// id that `HEAD` points to.
pub fn dev(args: &DevArgs, short_sha: &str) -> (r: Result<String, CommandError>)
    ensures
        match r {
            Ok(s) => dev_report(short_sha@, args.format@) == Some(s@),
            Err(e) => dev_report(short_sha@, args.format@) is None && rejects_format(e, args.format@),
        },
{
    let format = args.format.as_str();
    let mut v = to_owned_string("0.0.0-dev-");
    push_str(&mut v, short_sha);
    let mut out = String::new();
    if str_eq(format, "version") {
        push_str(&mut out, v.as_str());
        push_str(&mut out, "\n");
    } else if str_eq(format, "json") {
        push_str(&mut out, "{\"version\":\"");
        push_str(&mut out, v.as_str());
        push_str(&mut out, "\",\"sha\":\"");
        push_str(&mut out, short_sha);
        push_str(&mut out, "\"}\n");
    } else {
        return Err(CommandError::InvalidFormat(to_owned_string(format)));
    }
    assert(Some(out@) == dev_report(short_sha@, format@));
    Ok(out)
}

/// Arguments of `latest`.
#[derive(Debug)]
pub struct LatestArgs {
    /// Repository owner (default: from the git remote).
    pub owner: Option<String>,
    /// Repository name (default: from the git remote).
    pub repo: Option<String>,
    /// GitHub token.
    pub github_token: Option<String>,
    /// Output format: `version`, `tag` or `json`.
    pub format: String,
}

/// The version that `latest` reports: the latest release, `0.0.0` when there
/// is none.
pub open spec fn latest_or_zero(release: Option<Seq<char>>) -> Seq<char> {
    match release {
        Some(v) => v,
        None => "0.0.0"@,
    }
}

/// What `latest` prints; `None` for an unknown format. The `tag` and `json`
/// formats need the version to parse.
pub open spec fn latest_report(v: Seq<char>, format: Seq<char>) -> Option<Seq<char>> {
    if format == "version"@ {
        Some(v + "\n"@)
    } else if format == "tag"@ {
        Some(tag_text(version_triple(v).unwrap()) + "\n"@)
    } else if format == "json"@ {
        Some("{\"version\":\""@ + v + "\",\"tag\":\""@ + tag_text(version_triple(v).unwrap()) + "\"}\n"@)
    } else {
        None
    }
}

/// Renders the latest released version (`0.0.0` when there is no release).
///
/// Fails on an unknown format, and in the `tag` and `json` formats when the
/// version does not parse.
pub fn latest(args: &LatestArgs, release: &Option<String>) -> (r: Result<String, CommandError>)
    ensures
        ({
            let v = latest_or_zero(crate::changelog::opt_view(*release));
            let needs_triple = args.format@ == "tag"@ || args.format@ == "json"@;
            match r {
                Ok(s) => (needs_triple ==> version_triple(v) is Some) && latest_report(v, args.format@) == Some(s@),
                Err(e) => {
                    ||| latest_report(v, args.format@) is None && rejects_format(e, args.format@)
                    ||| needs_triple && version_triple(v) is None && rejects_version(e, v)
                },
            }
        }),
{
    proof {
        reveal_strlit("version");
        reveal_strlit("tag");
        reveal_strlit("json");
        assert("version"@.len() == 7 && "tag"@.len() == 3 && "json"@.len() == 4);
    }
    let v = match release {
        Some(s) => to_owned_string(s.as_str()),
        None => to_owned_string("0.0.0"),
    };
    let format = args.format.as_str();
    let mut out = String::new();
    if str_eq(format, "version") {
        push_str(&mut out, v.as_str());
        push_str(&mut out, "\n");
    } else if str_eq(format, "tag") || str_eq(format, "json") {
        let (major, minor, patch) = match parse_version(v.as_str()) {
            Ok(t) => t,
            Err(e) => return Err(CommandError::Version(e)),
        };
        let t = format_tag(major, minor, patch);
        proof {
            reveal_strlit("v");
        }
        assert(t@ == tag_text((major, minor, patch)));
        if str_eq(format, "tag") {
            push_str(&mut out, t.as_str());
            push_str(&mut out, "\n");
        } else {
            push_str(&mut out, "{\"version\":\"");
            push_str(&mut out, v.as_str());
            push_str(&mut out, "\",\"tag\":\"");
            push_str(&mut out, t.as_str());
            push_str(&mut out, "\"}\n");
        }
    } else {
        return Err(CommandError::InvalidFormat(to_owned_string(format)));
    }
    assert(Some(out@) == latest_report(v@, format@));
    Ok(out)
}

/// Arguments of `next`.
#[derive(Debug)]
pub struct NextArgs {
    /// Repository owner (default: from the git remote).
    pub owner: Option<String>,
    /// Repository name (default: from the git remote).
    pub repo: Option<String>,
    /// GitHub token.
    pub github_token: Option<String>,
    /// Output format: `version`, `tag`, `json` or `github-actions`.
    pub format: String,
    /// The GitHub Actions output file.
    pub github_output: Option<String>,
}

/// What `next` writes for the latest and the next version (whose triple is
/// `t`), and whether it goes to the GitHub Actions output; `None` for an
/// unknown format.
pub open spec fn next_report(latest: Seq<char>, next: Seq<char>, t: (u32, u32, u32), format: Seq<char>) -> Option<(Seq<char>, bool)> {
    if format == "version"@ {
        Some((next + "\n"@, false))
    } else if format == "tag"@ {
        Some((tag_text(t) + "\n"@, false))
    } else if format == "json"@ {
        Some(("{\"latest\":\""@ + latest + "\",\"next\":\""@ + next + "\",\"next_tag\":\""@ + tag_text(t) + "\"}\n"@, false))
    } else if format == "github-actions"@ {
        Some(("latest_version="@ + latest + "\nnext_version="@ + next + "\nnext_tag="@ + tag_text(t) + "\n"@, true))
    } else {
        None
    }
}

/// Renders the latest released and the next version.
///
/// Fails when the next version does not parse (checked before the format),
/// then when the format is unknown.
pub fn next(args: &NextArgs, latest_version: &str, next_version: &str) -> (r: Result<Report, CommandError>)
    ensures
        match r {
            Ok(rep) => version_triple(next_version@) is Some && next_report(latest_version@, next_version@, version_triple(next_version@).unwrap(), args.format@)
                == Some((rep.text@, rep.to_github_output)),
            Err(e) => {
                ||| version_triple(next_version@) is None && rejects_version(e, next_version@)
                ||| version_triple(next_version@) is Some && next_report(latest_version@, next_version@, version_triple(next_version@).unwrap(), args.format@) is None
                    && rejects_format(e, args.format@)
            },
        },
{
    let (major, minor, patch) = match parse_version(next_version) {
        Ok(t) => t,
        Err(e) => return Err(CommandError::Version(e)),
    };
    let t = format_tag(major, minor, patch);
    proof {
        reveal_strlit("v");
    }
    assert(t@ == tag_text((major, minor, patch)));
    let format = args.format.as_str();
    let mut out = String::new();
    let mut to_file = false;
    if str_eq(format, "version") {
        push_str(&mut out, next_version);
        push_str(&mut out, "\n");
    } else if str_eq(format, "tag") {
        push_str(&mut out, t.as_str());
        push_str(&mut out, "\n");
    } else if str_eq(format, "json") {
        push_str(&mut out, "{\"latest\":\"");
        push_str(&mut out, latest_version);
        push_str(&mut out, "\",\"next\":\"");
        push_str(&mut out, next_version);
        push_str(&mut out, "\",\"next_tag\":\"");
        push_str(&mut out, t.as_str());
        push_str(&mut out, "\"}\n");
    } else if str_eq(format, "github-actions") {
        push_str(&mut out, "latest_version=");
        push_str(&mut out, latest_version);
        push_str(&mut out, "\nnext_version=");
        push_str(&mut out, next_version);
        push_str(&mut out, "\nnext_tag=");
        push_str(&mut out, t.as_str());
        push_str(&mut out, "\n");
        to_file = true;
    } else {
        return Err(CommandError::InvalidFormat(to_owned_string(format)));
    }
    assert(next_report(latest_version@, next_version@, (major, minor, patch), format@) == Some((out@, to_file)));
    Ok(Report { text: out, to_github_output: to_file })
}


/// `text` parses as a semantic version (`semver::Version::parse`).
pub uninterp spec fn semver_parses(text: Seq<char>) -> bool;

/// Both texts parse as semantic versions and the first is greater than the
/// second in the total order of `semver::Version` (major, minor, patch,
/// pre-release, then build metadata).
pub uninterp spec fn semver_greater(a: Seq<char>, b: Seq<char>) -> bool;

/// Whether `text` parses as a semantic version.
///
/// Calls `semver::Version::parse` (re-exported by `cargo_metadata`); the
/// contract names its success [`semver_parses`].
#[verifier::external_body]
fn parses_as_semver(text: &str) -> (r: bool)
    ensures
        r == semver_parses(text@),
{
    cargo_metadata::semver::Version::parse(text).is_ok()
}

/// Whether the version `a` is greater than the version `b`.
///
/// Parses both with `semver::Version::parse` and compares them with the
/// derived order of `semver::Version`; the contract names the outcome
/// [`semver_greater`].
#[verifier::external_body]
fn semver_is_greater(a: &str, b: &str) -> (r: bool)
    requires
        semver_parses(a@),
        semver_parses(b@),
    ensures
        r == semver_greater(a@, b@),
{
    let va = cargo_metadata::semver::Version::parse(a).unwrap();
    let vb = cargo_metadata::semver::Version::parse(b).unwrap();
    va > vb
}

/// The tag name of a reference name under `refs/tags/`.
pub open spec fn tag_of_ref(name: Seq<char>) -> Option<Seq<char>> {
    if crate::text::starts_with(name, "refs/tags/"@) {
        Some(name.skip(10))
    } else {
        None
    }
}

/// The tags among some reference names whose text after one leading `v` or
/// `V` parses as a semantic version, in order.
pub open spec fn version_tags(refs: Seq<Seq<char>>) -> Seq<Seq<char>>
    decreases refs.len(),
{
    if refs.len() == 0 {
        Seq::empty()
    } else {
        version_tags(refs.drop_last()) + match tag_of_ref(refs.last()) {
            Some(t) => if semver_parses(crate::version::strip_v(t)) {
                seq![t]
            } else {
                Seq::empty()
            },
            None => Seq::empty(),
        }
    }
}

/// The greatest of some version tags by semantic version, the later one of
/// equal ones (as `Iterator::max_by` picks it): a tag replaces the best so
/// far unless the best is greater.
pub open spec fn greatest_tag(tags: Seq<Seq<char>>) -> Option<Seq<char>>
    decreases tags.len(),
{
    if tags.len() == 0 {
        None
    } else {
        match greatest_tag(tags.drop_last()) {
            None => Some(tags.last()),
            Some(best) => if semver_greater(crate::version::strip_v(best), crate::version::strip_v(tags.last())) {
                Some(best)
            } else {
                Some(tags.last())
            },
        }
    }
}

/// The latest version tag among some reference names, `v0.0.0` when none.
pub open spec fn latest_tag(refs: Seq<Seq<char>>) -> Seq<char> {
    match greatest_tag(version_tags(refs)) {
        Some(t) => t,
        None => "v0.0.0"@,
    }
}

/// The views of a list of strings.
pub open spec fn strings_view(v: Seq<String>) -> Seq<Seq<char>> {
    v.map_values(|s: String| s@)
}

/// The text after one leading `v` or `V`.
fn without_v(s: &str) -> (r: String)
    ensures
        r@ == crate::version::strip_v(s@),
{
    let v = crate::text::chars_of(s);
    if v.len() > 0 && (v[0] == 'v' || v[0] == 'V') {
        crate::text::string_from_range(&v, 1, v.len())
    } else {
        to_owned_string(s)
    }
}

/// The latest tag by semantic version among the reference names of a
/// repository (`refs/tags/...`), `v0.0.0` when no tag is a version.
pub fn latest_version_tag(refs: &Vec<String>) -> (r: String)
    ensures
        r@ == latest_tag(strings_view(refs@)),
{
    proof {
        reveal_strlit("refs/tags/");
    }
    let prefix = crate::text::chars_of("refs/tags/");
    assert(prefix@.len() == 10);
    let ghost rv = strings_view(refs@);
    let mut best: Option<String> = None;
    let mut i: usize = 0;
    while i < refs.len()
        invariant
            0 <= i <= refs@.len(),
            rv == strings_view(refs@),
            prefix@ == "refs/tags/"@,
            prefix@.len() == 10,
            crate::changelog::opt_view(best) == greatest_tag(version_tags(rv.take(i as int))),
        decreases refs.len() - i,
    {
        assert(rv.take(i + 1).drop_last() =~= rv.take(i as int));
        assert(rv.take(i + 1).last() == refs@[i as int]@);
        let name = crate::text::chars_of(refs[i].as_str());
        let is_tag = prefix.len() <= name.len() && crate::text::range_equals(&name, 0, prefix.len(), &prefix);
        assert(is_tag == crate::text::starts_with(name@, prefix@)) by {
            if prefix.len() <= name.len() {
                assert(name@.subrange(0, 10) =~= name@.take(10));
            }
        }
        if is_tag {
            let t = crate::text::string_from_range(&name, prefix.len(), name.len());
            assert(t@ =~= name@.skip(10));
            let stripped = without_v(t.as_str());
            if parses_as_semver(stripped.as_str()) {
                let ghost before = version_tags(rv.take(i as int));
                assert(version_tags(rv.take(i + 1)) =~= before.push(t@));
                assert(before.push(t@).drop_last() =~= before);
                let replace = match &best {
                    None => true,
                    Some(b) => {
                        let bs = without_v(b.as_str());
                        proof {
                            lemma_version_tags_parse(rv.take(i as int));
                            lemma_greatest_tag_parses(before);
                        }
                        !semver_is_greater(bs.as_str(), stripped.as_str())
                    },
                };
                if replace {
                    best = Some(t);
                }
            } else {
                assert(version_tags(rv.take(i + 1)) =~= version_tags(rv.take(i as int)));
            }
        } else {
            assert(version_tags(rv.take(i + 1)) =~= version_tags(rv.take(i as int)));
        }
        i = i + 1;
    }
    assert(rv.take(refs@.len() as int) =~= rv);
    match best {
        Some(b) => b,
        None => to_owned_string("v0.0.0"),
    }
}

/// What the derived order of `semver::Version` guarantees of versions that
/// parse: "greater" is asymmetric, and "not greater" is transitive (the
/// order is total).
pub open spec fn semver_order_is_total() -> bool {
    &&& forall|a: Seq<char>, b: Seq<char>| #[trigger] semver_greater(a, b) ==> !semver_greater(b, a)
    &&& forall|a: Seq<char>, b: Seq<char>, c: Seq<char>|
        #![trigger semver_greater(a, b), semver_greater(b, c)]
        semver_parses(a) && semver_parses(b) && semver_parses(c) && !semver_greater(a, b)
            && !semver_greater(b, c) ==> !semver_greater(a, c)
}

proof fn lemma_greatest_tag_is_max(tags: Seq<Seq<char>>)
    requires
        semver_order_is_total(),
        forall|k: int| 0 <= k < tags.len() ==> semver_parses(crate::version::strip_v(#[trigger] tags[k])),
    ensures
        tags.len() > 0 ==> greatest_tag(tags) is Some,
        greatest_tag(tags) matches Some(b) ==> (exists|k: int| 0 <= k < tags.len() && tags[k] == b)
            && forall|k: int| 0 <= k < tags.len() ==> !semver_greater(
                crate::version::strip_v(#[trigger] tags[k]),
                crate::version::strip_v(b),
            ),
    decreases tags.len(),
{
    if tags.len() > 0 {
        let prev = tags.drop_last();
        assert forall|k: int| 0 <= k < prev.len() implies semver_parses(crate::version::strip_v(#[trigger] prev[k])) by {
            assert(prev[k] == tags[k]);
        }
        lemma_greatest_tag_is_max(prev);
        let l = tags.last();
        assert(tags[tags.len() - 1] == l);
        let b = greatest_tag(tags).unwrap();
        if let Some(pb) = greatest_tag(prev) {
            let kp = choose|k: int| 0 <= k < prev.len() && prev[k] == pb;
            assert(tags[kp] == pb);
        }
        assert forall|k: int| 0 <= k < tags.len() implies !semver_greater(
            crate::version::strip_v(#[trigger] tags[k]),
            crate::version::strip_v(b),
        ) by {
            let sk = crate::version::strip_v(tags[k]);
            let sl = crate::version::strip_v(l);
            if k < tags.len() - 1 {
                assert(prev[k] == tags[k]);
                let pb = greatest_tag(prev).unwrap();
                let sp = crate::version::strip_v(pb);
                let kp = choose|k: int| 0 <= k < prev.len() && prev[k] == pb;
                assert(semver_parses(crate::version::strip_v(prev[kp])));
                if b != pb {
                    assert(!semver_greater(sk, sp));
                    assert(!semver_greater(sp, sl));
                    assert(semver_parses(sk) && semver_parses(sp) && semver_parses(sl));
                }
            } else {
                if b != l {
                    let pb = greatest_tag(prev).unwrap();
                    assert(semver_greater(crate::version::strip_v(pb), sl));
                }
            }
        }
    }
}

/// The latest version tag is one of the version tags among the reference
/// names (or `v0.0.0` when there is none), and no version tag is a greater
/// semantic version than it.
pub proof fn lemma_latest_tag_is_greatest(refs: Seq<Seq<char>>)
    requires
        semver_order_is_total(),
    ensures
        version_tags(refs).len() == 0 ==> latest_tag(refs) == "v0.0.0"@,
        version_tags(refs).len() > 0 ==> exists|k: int| 0 <= k < version_tags(refs).len() && version_tags(refs)[k] == latest_tag(refs),
        forall|k: int| 0 <= k < version_tags(refs).len() ==> !semver_greater(
            crate::version::strip_v(#[trigger] version_tags(refs)[k]),
            crate::version::strip_v(latest_tag(refs)),
        ),
{
    lemma_version_tags_parse(refs);
    lemma_greatest_tag_is_max(version_tags(refs));
}

/// Every version tag's version parses.
proof fn lemma_version_tags_parse(refs: Seq<Seq<char>>)
    ensures
        forall|k: int| 0 <= k < version_tags(refs).len() ==> semver_parses(crate::version::strip_v(#[trigger] version_tags(refs)[k])),
    decreases refs.len(),
{
    if refs.len() > 0 {
        lemma_version_tags_parse(refs.drop_last());
        let a = version_tags(refs.drop_last());
        assert forall|k: int| 0 <= k < version_tags(refs).len() implies semver_parses(crate::version::strip_v(#[trigger] version_tags(refs)[k])) by {
            if k < a.len() {
                assert(version_tags(refs)[k] == a[k]);
            }
        }
    }
}

/// The greatest of some version tags is one of them, so its version parses.
proof fn lemma_greatest_tag_parses(tags: Seq<Seq<char>>)
    requires
        forall|k: int| 0 <= k < tags.len() ==> semver_parses(crate::version::strip_v(#[trigger] tags[k])),
    ensures
        greatest_tag(tags) matches Some(b) ==> semver_parses(crate::version::strip_v(b)),
    decreases tags.len(),
{
    if tags.len() > 0 {
        lemma_greatest_tag_parses(tags.drop_last());
    }
}


/// Arguments of `changed`.
#[derive(Debug)]
pub struct ChangedArgs {
    /// Path to `Cargo.toml` (default: `./Cargo.toml`).
    pub manifest_path: Option<String>,
    /// Path of the git repository (default: `.`).
    pub repo_path: String,
    /// Output format: `bool`, `json`, `diff` or `github-actions`.
    pub format: String,
    /// The GitHub Actions output file.
    pub github_output: Option<String>,
}

/// `true` or `false`.
pub open spec fn bool_text(b: bool) -> Seq<char> {
    if b { "true"@ } else { "false"@ }
}

/// What `changed` writes for the manifest version and the latest tag, and
/// whether it goes to the GitHub Actions output; `None` for an unknown format.
pub open spec fn changed_report(cargo: Seq<char>, tag: Seq<char>, format: Seq<char>) -> Option<(Seq<char>, bool)> {
    let tv = crate::version::strip_v(tag);
    let changed = cargo != tv;
    if format == "bool"@ {
        Some((bool_text(changed) + "\n"@, false))
    } else if format == "json"@ {
        Some(("{\"changed\":"@ + bool_text(changed) + ",\"cargo_version\":\""@ + cargo + "\",\"latest_tag_version\":\""@ + tv + "\"}\n"@, false))
    } else if format == "diff"@ {
        Some((if changed {
            "Version changed: "@ + tv + " -> "@ + cargo + "\n"@
        } else {
            "Version unchanged: "@ + cargo + "\n"@
        }, false))
    } else if format == "github-actions"@ {
        Some(("changed="@ + bool_text(changed) + "\nversion="@ + cargo + "\nlatest_tag_version="@ + tv + "\n"@, true))
    } else {
        None
    }
}

/// Reports whether the manifest version differs from the version of the
/// latest tag (see [`latest_version_tag`]) among the repository's reference
/// names.
pub fn changed(args: &ChangedArgs, cargo_version: &str, refs: &Vec<String>) -> (r: Result<Report, CommandError>)
    ensures
        match r {
            Ok(rep) => changed_report(cargo_version@, latest_tag(strings_view(refs@)), args.format@)
                == Some((rep.text@, rep.to_github_output)),
            Err(e) => changed_report(cargo_version@, latest_tag(strings_view(refs@)), args.format@) is None
                && rejects_format(e, args.format@),
        },
{
    let tag = latest_version_tag(refs);
    let tv = without_v(tag.as_str());
    let differs = !str_eq(cargo_version, tv.as_str());
    let b = if differs { "true" } else { "false" };
    let format = args.format.as_str();
    let mut out = String::new();
    let mut to_file = false;
    if str_eq(format, "bool") {
        push_str(&mut out, b);
        push_str(&mut out, "\n");
    } else if str_eq(format, "json") {
        push_str(&mut out, "{\"changed\":");
        push_str(&mut out, b);
        push_str(&mut out, ",\"cargo_version\":\"");
        push_str(&mut out, cargo_version);
        push_str(&mut out, "\",\"latest_tag_version\":\"");
        push_str(&mut out, tv.as_str());
        push_str(&mut out, "\"}\n");
    } else if str_eq(format, "diff") {
        if differs {
            push_str(&mut out, "Version changed: ");
            push_str(&mut out, tv.as_str());
            push_str(&mut out, " -> ");
            push_str(&mut out, cargo_version);
            push_str(&mut out, "\n");
        } else {
            push_str(&mut out, "Version unchanged: ");
            push_str(&mut out, cargo_version);
            push_str(&mut out, "\n");
        }
    } else if str_eq(format, "github-actions") {
        push_str(&mut out, "changed=");
        push_str(&mut out, b);
        push_str(&mut out, "\nversion=");
        push_str(&mut out, cargo_version);
        push_str(&mut out, "\nlatest_tag_version=");
        push_str(&mut out, tv.as_str());
        push_str(&mut out, "\n");
        to_file = true;
    } else {
        return Err(CommandError::InvalidFormat(to_owned_string(format)));
    }
    assert(changed_report(cargo_version@, tag@, format@) == Some((out@, to_file)));
    Ok(Report { text: out, to_github_output: to_file })
}

/// Arguments of `post-bump-hook`.
#[derive(Debug)]
pub struct PostBumpHookArgs {
    /// Path to `Cargo.toml` (default: `./Cargo.toml`).
    pub manifest_path: Option<String>,
    /// Path of the git repository (default: `.`).
    pub repo_path: String,
    /// The version the bump was meant to reach.
    pub target_version: Option<String>,
    /// The version before the bump.
    pub previous_version: Option<String>,
    /// Fail when a check fails (default: true).
    pub exit_on_error: bool,
}

/// A line of output, to standard output or to standard error.
#[derive(Debug)]
pub struct Message {
    /// The line goes to standard error.
    pub to_stderr: bool,
    /// The line, without its newline.
    pub text: String,
}

/// The outcome of the post-bump checks: the lines written, in order, and the
/// error that ends the command, if any.
#[derive(Debug)]
pub struct HookCheck {
    /// Lines written, in order.
    pub messages: Vec<Message>,
    /// The failure message when the command fails.
    pub failure: Option<String>,
}

/// The view of a list of messages.
pub open spec fn messages_view(m: Seq<Message>) -> Seq<(bool, Seq<char>)> {
    m.map_values(|x: Message| (x.to_stderr, x.text@))
}

/// The target check: its lines and its failure, if it fails.
pub open spec fn target_check(cargo: Seq<char>, target: Option<Seq<char>>, exit_on_error: bool) -> (Seq<(bool, Seq<char>)>, Option<Seq<char>>) {
    match target {
        Some(t) => {
            let tt = trim_all(t);
            if cargo != tt {
                (seq![(true, "❌ Error: Cargo.toml version ("@ + cargo + ") doesn't match expected target ("@ + tt + ")"@)],
                    if exit_on_error { Some("Version bump verification failed"@) } else { None })
            } else {
                (seq![(false, "✓ Version bump verified: "@ + cargo)], None)
            }
        },
        None => (seq![(false, "✓ Post-bump check passed"@), (false, "  Current version: "@ + cargo)], None),
    }
}

/// The previous-version check: its lines and its failure, if it fails.
pub open spec fn previous_check(cargo: Seq<char>, previous: Option<Seq<char>>, exit_on_error: bool) -> (Seq<(bool, Seq<char>)>, Option<Seq<char>>) {
    match previous {
        Some(p) => {
            let pt = trim_all(p);
            if cargo == pt {
                (seq![(true, "⚠️  Warning: Version didn't change (still "@ + cargo + ")"@)],
                    if exit_on_error { Some("Version bump appears to have failed"@) } else { None })
            } else {
                (seq![(false, "  Previous version: "@ + pt), (false, "  New version: "@ + cargo)], None)
            }
        },
        None => (Seq::empty(), None),
    }
}

/// The whole post-bump check: the target check, then, unless it failed, the
/// previous-version check.
pub open spec fn post_bump_check(cargo: Seq<char>, target: Option<Seq<char>>, previous: Option<Seq<char>>, exit_on_error: bool) -> (Seq<(bool, Seq<char>)>, Option<Seq<char>>) {
    let (m1, f1) = target_check(cargo, target, exit_on_error);
    if f1 is Some {
        (m1, f1)
    } else {
        let (m2, f2) = previous_check(cargo, previous, exit_on_error);
        (m1 + m2, f2)
    }
}

/// Appends a message.
fn say(ms: &mut Vec<Message>, to_stderr: bool, text: String)
    ensures
        messages_view(final(ms)@) == messages_view(old(ms)@).push((to_stderr, text@)),
{
    let ghost before = ms@;
    ms.push(Message { to_stderr, text });
    assert(messages_view(ms@) =~= messages_view(before).push((to_stderr, text@)));
}

/// Checks, after a version bump, that the manifest version (read by the
/// caller) is the target version and differs from the previous version.
pub fn post_bump_hook(args: &PostBumpHookArgs, cargo_version: &str) -> (r: HookCheck)
    ensures
        post_bump_check(
            cargo_version@,
            crate::changelog::opt_view(args.target_version),
            crate::changelog::opt_view(args.previous_version),
            args.exit_on_error,
        ) == (messages_view(r.messages@), crate::changelog::opt_view(r.failure)),
{
    let mut ms: Vec<Message> = Vec::new();
    match &args.target_version {
        Some(target) => {
            let tt = trim_string(target.as_str());
            if !str_eq(cargo_version, tt.as_str()) {
                let mut m = to_owned_string("❌ Error: Cargo.toml version (");
                push_str(&mut m, cargo_version);
                push_str(&mut m, ") doesn't match expected target (");
                push_str(&mut m, tt.as_str());
                push_str(&mut m, ")");
                say(&mut ms, true, m);
                if args.exit_on_error {
                    return HookCheck { messages: ms, failure: Some(to_owned_string("Version bump verification failed")) };
                }
            } else {
                let mut m = to_owned_string("✓ Version bump verified: ");
                push_str(&mut m, cargo_version);
                say(&mut ms, false, m);
            }
        },
        None => {
            say(&mut ms, false, to_owned_string("✓ Post-bump check passed"));
            let mut m = to_owned_string("  Current version: ");
            push_str(&mut m, cargo_version);
            say(&mut ms, false, m);
        },
    }
    let ghost first = messages_view(ms@);
    assert(first == target_check(cargo_version@, crate::changelog::opt_view(args.target_version), args.exit_on_error).0);
    let mut failure: Option<String> = None;
    match &args.previous_version {
        Some(previous) => {
            let pt = trim_string(previous.as_str());
            if str_eq(cargo_version, pt.as_str()) {
                let mut m = to_owned_string("⚠️  Warning: Version didn't change (still ");
                push_str(&mut m, cargo_version);
                push_str(&mut m, ")");
                say(&mut ms, true, m);
                if args.exit_on_error {
                    failure = Some(to_owned_string("Version bump appears to have failed"));
                }
            } else {
                let mut m = to_owned_string("  Previous version: ");
                push_str(&mut m, pt.as_str());
                say(&mut ms, false, m);
                let mut m2 = to_owned_string("  New version: ");
                push_str(&mut m2, cargo_version);
                say(&mut ms, false, m2);
            }
        },
        None => {},
    }
    assert(messages_view(ms@) =~= first + previous_check(cargo_version@, crate::changelog::opt_view(args.previous_version), args.exit_on_error).0);
    HookCheck { messages: ms, failure }
}


/// Arguments of `rust-toolchain`.
#[derive(Debug)]
pub struct RustToolchainArgs {
    /// Path of the toolchain file (default: `./.rust-toolchain.toml`).
    pub toolchain_file: String,
    /// Output format: `version` or `json`.
    pub format: String,
}

/// The quoted text after the first `q` in `t`, up to the next `q`; `None`
/// when there is no opening quote or no closing one.
pub open spec fn quoted_after(t: Seq<char>, q: char) -> Option<Seq<char>> {
    let a = crate::version::first_from(t, q, 0);
    let b = crate::version::first_from(t, q, a + 1);
    if a >= 0 && b >= 0 {
        Some(t.subrange(a + 1, b))
    } else {
        None
    }
}

/// The channel that a line of a toolchain file names: a trimmed line that
/// starts with `channel` names the text in its first double quotes, or,
/// without a double quote, the text in its first single quotes.
pub open spec fn line_channel(line: Seq<char>) -> Option<Seq<char>> {
    let t = trim_all(line);
    if !crate::text::starts_with(t, "channel"@) {
        None
    } else if crate::version::first_from(t, '"', 0) >= 0 {
        quoted_after(t, '"')
    } else {
        quoted_after(t, '\'')
    }
}

/// The channel of the first line that names one.
pub open spec fn first_channel(lines: Seq<Seq<char>>) -> Option<Seq<char>>
    decreases lines.len(),
{
    if lines.len() == 0 {
        None
    } else if line_channel(lines[0]) is Some {
        line_channel(lines[0])
    } else {
        first_channel(lines.drop_first())
    }
}

/// The text between the first `q` and the next one, if both are there.
fn quoted_text(t: &Vec<char>, q: char) -> (r: Option<String>)
    ensures
        crate::changelog::opt_view(r) == quoted_after(t@, q),
{
    let a = match crate::version::find_from(t, q, 0) {
        None => return None,
        Some(a) => a,
    };
    proof {
        crate::version::lemma_first_from_found(t@, q, 0);
    }
    let n = t.len();
    assert(a < n);
    match crate::version::find_from(t, q, a + 1) {
        None => None,
        Some(b) => {
            proof {
                crate::version::lemma_first_from_found(t@, q, a + 1);
            }
            Some(crate::text::string_from_range(t, a + 1, b))
        },
    }
}

/// The toolchain channel named in a `rust-toolchain.toml` text (see
/// [`line_channel`]), if a line names one.
pub fn toolchain_channel(content: &str) -> (r: Option<String>)
    ensures
        crate::changelog::opt_view(r) == first_channel(crate::text::text_lines(content@)),
{
    let lines = crate::text::lines_of(content);
    let ghost ls = lines@.map_values(|l: String| l@);
    assert(ls == crate::text::text_lines(content@));
    let prefix = crate::text::chars_of("channel");
    let mut i: usize = 0;
    assert(ls.skip(0) =~= ls);
    while i < lines.len()
        invariant
            0 <= i <= lines@.len(),
            ls == lines@.map_values(|l: String| l@),
            ls == crate::text::text_lines(content@),
            prefix@ == "channel"@,
            first_channel(ls) == first_channel(ls.skip(i as int)),
        decreases lines.len() - i,
    {
        assert(ls.skip(i as int)[0] == lines@[i as int]@);
        assert(ls.skip(i as int).drop_first() =~= ls.skip(i + 1));
        let t = crate::text::chars_of(trim_string(lines[i].as_str()).as_str());
        let starts = crate::text::range_starts_with(&t, 0, t.len(), &prefix);
        assert(t@.subrange(0, t@.len() as int) =~= t@);
        if starts {
            let found = match crate::version::find_from(&t, '"', 0) {
                Some(_) => quoted_text(&t, '"'),
                None => quoted_text(&t, '\''),
            };
            if found.is_some() {
                return found;
            }
        }
        i = i + 1;
    }
    None
}

/// What `rust-toolchain` prints for a channel; `None` for an unknown format.
pub open spec fn version_only_report(v: Seq<char>, format: Seq<char>) -> Option<Seq<char>> {
    if format == "version"@ {
        Some(v + "\n"@)
    } else if format == "json"@ {
        Some("{\"version\":\""@ + v + "\"}\n"@)
    } else {
        None
    }
}

/// Renders a version in the `version` or `json` format.
fn version_only(v: &str, format: &str) -> (r: Option<String>)
    ensures
        crate::changelog::opt_view(r) == version_only_report(v@, format@),
{
    let mut out = String::new();
    if str_eq(format, "version") {
        push_str(&mut out, v);
        push_str(&mut out, "\n");
        Some(out)
    } else if str_eq(format, "json") {
        push_str(&mut out, "{\"version\":\"");
        push_str(&mut out, v);
        push_str(&mut out, "\"}\n");
        Some(out)
    } else {
        None
    }
}

/// Renders the Rust toolchain channel named in the toolchain file's text.
///
/// Fails when no line names a channel, then on an unknown format.
pub fn rust_toolchain(args: &RustToolchainArgs, content: &str) -> (r: Result<String, CommandError>)
    ensures
        match r {
            Ok(s) => first_channel(crate::text::text_lines(content@)) matches Some(c)
                && version_only_report(c, args.format@) == Some(s@),
            Err(e) => {
                ||| first_channel(crate::text::text_lines(content@)) is None
                    && (e matches CommandError::NoChannel(p) && p@ == args.toolchain_file@)
                ||| first_channel(crate::text::text_lines(content@)) matches Some(c)
                    && version_only_report(c, args.format@) is None && rejects_format(e, args.format@)
            },
        },
{
    let channel = match toolchain_channel(content) {
        Some(c) => c,
        None => return Err(CommandError::NoChannel(to_owned_string(args.toolchain_file.as_str()))),
    };
    match version_only(channel.as_str(), args.format.as_str()) {
        Some(s) => Ok(s),
        None => Err(CommandError::InvalidFormat(to_owned_string(args.format.as_str()))),
    }
}

/// Arguments of `dioxus`.
#[derive(Debug)]
pub struct DioxusArgs {
    /// Path to `Cargo.toml` (default: `./Cargo.toml`).
    pub manifest: String,
    /// Output format: `version` or `json`.
    pub format: String,
}

/// Renders the version of the dioxus dependency named in the manifest's
/// text (see [`crate::manifest::dioxus_version_of`]).
///
/// Fails when the manifest does not parse, then when it names no dioxus
/// version, then on an unknown format.
pub fn dioxus(args: &DioxusArgs, content: &str) -> (r: Result<String, CommandError>)
    ensures
        match r {
            Ok(s) => crate::manifest::toml_fields(content@) matches Some(f)
                && crate::manifest::dioxus_version_of(f) matches Some(v)
                && version_only_report(v, args.format@) == Some(s@),
            Err(e) => {
                ||| crate::manifest::toml_fields(content@) is None
                    && (e matches CommandError::ManifestParse(p) && p@ == args.manifest@)
                ||| crate::manifest::toml_fields(content@) matches Some(f)
                    && crate::manifest::dioxus_version_of(f) is None
                    && (e matches CommandError::NoDioxusVersion(p) && p@ == args.manifest@)
                ||| crate::manifest::toml_fields(content@) matches Some(f)
                    && crate::manifest::dioxus_version_of(f) matches Some(v)
                    && version_only_report(v, args.format@) is None && rejects_format(e, args.format@)
            },
        },
{
    let v = match crate::manifest::dioxus_version(content) {
        Ok(v) => v,
        Err(unparsed) => {
            if unparsed {
                return Err(CommandError::ManifestParse(to_owned_string(args.manifest.as_str())));
            } else {
                return Err(CommandError::NoDioxusVersion(to_owned_string(args.manifest.as_str())));
            }
        },
    };
    match version_only(v.as_str(), args.format.as_str()) {
        Some(s) => Ok(s),
        None => Err(CommandError::InvalidFormat(to_owned_string(args.format.as_str()))),
    }
}

/// Arguments of `pr-log`.
#[derive(Debug)]
pub struct PrLogArgs {
    /// Tag to list pull requests since.
    pub since_tag: Option<String>,
    /// Output file.
    pub output: Option<String>,
    /// Repository owner.
    pub owner: Option<String>,
    /// Repository name.
    pub repo: Option<String>,
}

/// The error of `pr-log`, which is not available yet.
pub open spec fn pr_log_unavailable() -> Seq<char> {
    "PR log generation is not yet implemented. This feature will be available in a future release."@
}

/// Generates the pull request log: not available yet, always an error.
pub fn pr_log(_args: &PrLogArgs) -> (r: Result<String, CommandError>)
    ensures
        r matches Err(CommandError::NotImplemented(m)) && m@ == pr_log_unavailable(),
{
    Err(CommandError::NotImplemented(to_owned_string(
        "PR log generation is not yet implemented. This feature will be available in a future release.",
    )))
}

/// Arguments of `update-readme`.
#[derive(Debug)]
pub struct UpdateReadmeArgs {
    /// Path of the README (default: `README.md`).
    pub readme: String,
    /// Path of a badges file.
    pub badges: Option<String>,
}

/// The error of `update-readme`, which is not available yet.
pub open spec fn update_readme_unavailable() -> Seq<char> {
    "README update is not yet implemented. This feature will be available in a future release."@
}

/// Updates the README: not available yet, always an error.
pub fn update_readme(_args: &UpdateReadmeArgs) -> (r: Result<String, CommandError>)
    ensures
        r matches Err(CommandError::NotImplemented(m)) && m@ == update_readme_unavailable(),
{
    Err(CommandError::NotImplemented(to_owned_string(
        "README update is not yet implemented. This feature will be available in a future release.",
    )))
}


/// Arguments of `build-version`.
#[derive(Debug)]
pub struct BuildVersionArgs {
    /// Repository owner, for the GitHub fallback.
    pub owner: Option<String>,
    /// Repository name, for the GitHub fallback.
    pub repo: Option<String>,
    /// GitHub token, for the GitHub fallback.
    pub github_token: Option<String>,
    /// Path to `Cargo.toml` (default: `./Cargo.toml`).
    pub manifest: String,
    /// Path of the git repository (default: `.`).
    pub repo_path: String,
    /// Output format: `version` or `json`.
    pub format: String,
}

/// Where a build version came from.
#[derive(Debug, Clone, Copy, PartialEq, Eq, Structural)]
pub enum BuildVersionSource {
    /// `BUILD_VERSION` or `CARGO_PKG_VERSION_OVERRIDE`.
    Environment,
    /// The next version computed from the release tags.
    GithubApi,
    /// The manifest version, with the abbreviated `HEAD` id when known.
    CargoToml,
    /// `0.0.0-dev-` and the abbreviated `HEAD` id.
    Git,
}

/// A build version and where it came from.
#[derive(Debug)]
pub struct BuildVersion {
    /// The version.
    pub version: String,
    /// Its source.
    pub source: BuildVersionSource,
    /// The abbreviated `HEAD` id, for a version from git.
    pub sha: Option<String>,
}

/// What the caller has found out, step by step.
#[derive(Debug)]
pub enum BuildVersionStep {
    /// The environment: `BUILD_VERSION`, `CARGO_PKG_VERSION_OVERRIDE`, and
    /// whether the command runs in GitHub Actions (`GITHUB_ACTIONS` is set).
    Environment {
        /// `BUILD_VERSION`, when set.
        build_version: Option<String>,
        /// `CARGO_PKG_VERSION_OVERRIDE`, when set.
        version_override: Option<String>,
        /// `GITHUB_ACTIONS` is set.
        github_actions: bool,
    },
    /// The next version from the release tags, when the query succeeded.
    Github(Option<String>),
    /// The manifest's `package.version` and the abbreviated `HEAD` id, when
    /// they could be read.
    Manifest {
        /// The manifest version.
        version: Option<String>,
        /// The abbreviated `HEAD` id.
        short_sha: Option<String>,
    },
    /// The abbreviated id of the commit `HEAD` points to.
    Head(String),
}

/// What to do next.
#[derive(Debug)]
pub enum BuildVersionAction {
    /// The build version is found.
    Found(BuildVersion),
    /// Query the next version from the release tags.
    QueryGithub,
    /// Read the manifest version and the abbreviated `HEAD` id.
    ReadManifest,
    /// Read the abbreviated `HEAD` id (errors end the command).
    ReadHead,
}

/// A variable's value that counts: set and not blank.
pub open spec fn usable(v: Option<Seq<char>>) -> bool {
    v matches Some(x) && trim_all(x).len() > 0
}

/// The version taken from the environment, by priority: `BUILD_VERSION`,
/// then `CARGO_PKG_VERSION_OVERRIDE`; a variable that is unset or blank
/// falls through to the next.
pub open spec fn env_version(build_version: Option<Seq<char>>, version_override: Option<Seq<char>>) -> Option<Seq<char>> {
    if usable(build_version) {
        build_version
    } else if usable(version_override) {
        version_override
    } else {
        None
    }
}

/// Whether a variable's value is set and not blank.
fn is_usable(v: &Option<String>) -> (r: bool)
    ensures
        r == usable(crate::changelog::opt_view(*v)),
{
    proof {
        reveal_strlit("");
        assert(""@ =~= Seq::<char>::empty());
    }
    match v {
        Some(x) => {
            let t = trim_string(x.as_str());
            let blank = str_eq(t.as_str(), "");
            assert(blank <==> t@.len() == 0) by {
                if t@.len() == 0 {
                    assert(t@ =~= Seq::<char>::empty());
                }
            }
            !blank
        },
        None => false,
    }
}

/// The version taken from the manifest: the trimmed version unless it is
/// empty or `0.0.0`, followed by `-` and the abbreviated `HEAD` id when known.
pub open spec fn manifest_build_version(version: Option<Seq<char>>, short_sha: Option<Seq<char>>) -> Option<Seq<char>> {
    match version {
        Some(m) => {
            let t = trim_all(m);
            if t.len() > 0 && t != "0.0.0"@ {
                Some(match short_sha {
                    Some(s) => t + "-"@ + s,
                    None => t,
                })
            } else {
                None
            }
        },
        None => None,
    }
}

/// The plain view of a found build version.
pub open spec fn build_version_view(b: BuildVersion) -> (Seq<char>, BuildVersionSource, Option<Seq<char>>) {
    (b.version@, b.source, crate::changelog::opt_view(b.sha))
}

/// Decides the next step of the build version search, whose sources are
/// tried in order: the environment, the release tags (only in GitHub
/// Actions), the manifest, then the `HEAD` commit.
pub fn build_version_step(step: &BuildVersionStep) -> (r: BuildVersionAction)
    ensures
        match *step {
            BuildVersionStep::Environment { build_version, version_override, github_actions } => match env_version(
                crate::changelog::opt_view(build_version),
                crate::changelog::opt_view(version_override),
            ) {
                Some(v) => r matches BuildVersionAction::Found(b) && build_version_view(b) == (v, BuildVersionSource::Environment, None::<Seq<char>>),
                None => if github_actions { r is QueryGithub } else { r is ReadManifest },
            },
            BuildVersionStep::Github(next) => match next {
                Some(n) => r matches BuildVersionAction::Found(b) && build_version_view(b) == (n@, BuildVersionSource::GithubApi, None::<Seq<char>>),
                None => r is ReadManifest,
            },
            BuildVersionStep::Manifest { version, short_sha } => match manifest_build_version(
                crate::changelog::opt_view(version),
                crate::changelog::opt_view(short_sha),
            ) {
                Some(v) => r matches BuildVersionAction::Found(b) && build_version_view(b) == (v, BuildVersionSource::CargoToml, None::<Seq<char>>),
                None => r is ReadHead,
            },
            BuildVersionStep::Head(sha) => r matches BuildVersionAction::Found(b) && build_version_view(b) == (
                "0.0.0-dev-"@ + sha@,
                BuildVersionSource::Git,
                Some(sha@),
            ),
        },
{
    match step {
        BuildVersionStep::Environment { build_version, version_override, github_actions } => {
            proof {
                reveal_strlit("");
                assert(""@ =~= Seq::<char>::empty());
            }
            let chosen = if is_usable(build_version) {
                build_version
            } else if is_usable(version_override) {
                version_override
            } else {
                &None
            };
            if let Some(v) = chosen {
                return BuildVersionAction::Found(
                    BuildVersion { version: to_owned_string(v.as_str()), source: BuildVersionSource::Environment, sha: None },
                );
            }
            if *github_actions {
                BuildVersionAction::QueryGithub
            } else {
                BuildVersionAction::ReadManifest
            }
        },
        BuildVersionStep::Github(next) => match next {
            Some(n) => BuildVersionAction::Found(
                BuildVersion { version: to_owned_string(n.as_str()), source: BuildVersionSource::GithubApi, sha: None },
            ),
            None => BuildVersionAction::ReadManifest,
        },
        BuildVersionStep::Manifest { version, short_sha } => match version {
            Some(m) => {
                let t = trim_string(m.as_str());
                proof {
                    reveal_strlit("");
                    assert(""@ =~= Seq::<char>::empty());
                }
                let blank = str_eq(t.as_str(), "");
                assert(blank <==> t@.len() == 0) by {
                    if t@.len() == 0 {
                        assert(t@ =~= Seq::<char>::empty());
                    }
                }
                if !blank && !str_eq(t.as_str(), "0.0.0") {
                    let mut v = to_owned_string(t.as_str());
                    match short_sha {
                        Some(s) => {
                            push_str(&mut v, "-");
                            push_str(&mut v, s.as_str());
                        },
                        None => {},
                    }
                    BuildVersionAction::Found(BuildVersion { version: v, source: BuildVersionSource::CargoToml, sha: None })
                } else {
                    BuildVersionAction::ReadHead
                }
            },
            None => BuildVersionAction::ReadHead,
        },
        BuildVersionStep::Head(sha) => {
            let mut v = to_owned_string("0.0.0-dev-");
            push_str(&mut v, sha.as_str());
            BuildVersionAction::Found(BuildVersion {
                version: v,
                source: BuildVersionSource::Git,
                sha: Some(to_owned_string(sha.as_str())),
            })
        },
    }
}

/// The name of a build version source in JSON output.
pub open spec fn source_name(s: BuildVersionSource) -> Seq<char> {
    match s {
        BuildVersionSource::Environment => "environment"@,
        BuildVersionSource::GithubApi => "github_api"@,
        BuildVersionSource::CargoToml => "cargo_toml"@,
        BuildVersionSource::Git => "git"@,
    }
}

/// What `build-version` prints for a found version; `None` for an unknown
/// format. The JSON of a version from git also names the commit id.
pub open spec fn build_version_text(b: (Seq<char>, BuildVersionSource, Option<Seq<char>>), format: Seq<char>) -> Option<Seq<char>> {
    if format == "version"@ {
        Some(b.0 + "\n"@)
    } else if format == "json"@ {
        Some("{\"version\":\""@ + b.0 + match b.2 {
            Some(sha) => if b.1 == BuildVersionSource::Git { "\",\"sha\":\""@ + sha } else { Seq::<char>::empty() },
            None => Seq::<char>::empty(),
        } + "\",\"source\":\""@ + source_name(b.1) + "\"}\n"@)
    } else {
        None
    }
}

/// Renders a found build version.
pub fn build_version_report(found: &BuildVersion, format: &str) -> (r: Result<String, CommandError>)
    ensures
        match r {
            Ok(s) => build_version_text(build_version_view(*found), format@) == Some(s@),
            Err(e) => build_version_text(build_version_view(*found), format@) is None && rejects_format(e, format@),
        },
{
    let mut out = String::new();
    if str_eq(format, "version") {
        push_str(&mut out, found.version.as_str());
        push_str(&mut out, "\n");
    } else if str_eq(format, "json") {
        push_str(&mut out, "{\"version\":\"");
        push_str(&mut out, found.version.as_str());
        match &found.sha {
            Some(sha) => {
                if found.source == BuildVersionSource::Git {
                    push_str(&mut out, "\",\"sha\":\"");
                    push_str(&mut out, sha.as_str());
                }
            },
            None => {},
        }
        push_str(&mut out, "\",\"source\":\"");
        let name = match found.source {
            BuildVersionSource::Environment => "environment",
            BuildVersionSource::GithubApi => "github_api",
            BuildVersionSource::CargoToml => "cargo_toml",
            BuildVersionSource::Git => "git",
        };
        push_str(&mut out, name);
        push_str(&mut out, "\"}\n");
    } else {
        return Err(CommandError::InvalidFormat(to_owned_string(format)));
    }
    assert(build_version_text(build_version_view(*found), format@) == Some(out@));
    Ok(out)
}

} // verus!
