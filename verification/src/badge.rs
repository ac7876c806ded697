//! Badges for a package's README: which badges apply, their markdown, and
//! the count of test executables that the tests badge shows.
use vstd::prelude::*;
use crate::text::{chars_of, lines_of, push_str, str_eq, str_starts_with, starts_with, text_lines, to_owned_string};
use crate::diff::contains;
use crate::version::{decimal_digits, push_decimal};
use crate::changelog::opt_view;

verus! {

/// Arguments of `badge`.
#[derive(Debug)]
pub struct BadgeArgs {
    /// Do not query the network.
    pub no_network: bool,
    /// Which badge to generate.
    pub subcommand: BadgeSubcommand,
}

/// The badges `badge` can generate.
#[derive(Debug, Clone, Copy, PartialEq, Eq, Structural)]
pub enum BadgeSubcommand {
    /// All badges, in order.
    All,
    /// docs.rs.
    Rustdocs,
    /// crates.io.
    Cratesio,
    /// License.
    License,
    /// Rust edition.
    RustEdition,
    /// Async runtime.
    Runtime,
    /// Framework.
    Framework,
    /// Deployment platform.
    Platform,
    /// Architecture decision records.
    ADRs,
    /// Coverage.
    Coverage,
    /// Number of tests.
    NumberOfTests,
}

/// The ADRs badge line.
pub open spec fn adrs_badge_text() -> Seq<char> {
    "[![ADRs](https://img.shields.io/badge/ADRs-index-informational)](docs/adr/index.typ)\n"@
}

/// The ADRs badge, when the package has a `docs/adr` directory.
pub fn badge_adrs(has_adr_dir: bool) -> (r: Option<String>)
    ensures
        opt_view(r) == (if has_adr_dir { Some(adrs_badge_text()) } else { None }),
{
    if has_adr_dir {
        Some(to_owned_string("[![ADRs](https://img.shields.io/badge/ADRs-index-informational)](docs/adr/index.typ)\n"))
    } else {
        None
    }
}

/// What the package deploys to, as far as its files show.
#[derive(Debug)]
pub struct PlatformFiles {
    /// `fly.toml` exists.
    pub fly_toml: bool,
    /// `.fly` exists.
    pub fly_dir: bool,
    /// The text of `Dockerfile`, when it exists.
    pub dockerfile: Option<String>,
    /// `vercel.json` exists.
    pub vercel_json: bool,
    /// `.vercel` exists.
    pub vercel_dir: bool,
}

/// The platform badge line for what the files show: Fly.io first, then
/// Vercel.
pub open spec fn platform_badge_text(fly_toml: bool, fly_dir: bool, dockerfile: Option<Seq<char>>, vercel_json: bool, vercel_dir: bool) -> Option<Seq<char>> {
    let fly = fly_toml || fly_dir || (dockerfile matches Some(d) && contains(d, "fly.io"@));
    if fly {
        Some("[![Platform](https://img.shields.io/badge/platform-Fly.io-8A2BE2)](docs/adr/0002-flyio-oxigraph-provisioning-strategy.typ)\n"@)
    } else if vercel_json || vercel_dir {
        Some("[![Platform](https://img.shields.io/badge/platform-Vercel-black)](docs/adr/)\n"@)
    } else {
        None
    }
}

/// Whether `s` contains `t`.
fn contains_str(s: &str, t: &str) -> (r: bool)
    ensures
        r == contains(s@, t@),
{
    let sv = chars_of(s);
    let tv = chars_of(t);
    crate::diff::text_contains(&sv, &tv)
}

/// The platform badge: Fly.io when `fly.toml` or `.fly` exists or the
/// Dockerfile mentions `fly.io`; else Vercel when `vercel.json` or `.vercel`
/// exists; else none.
pub fn badge_platform(files: &PlatformFiles) -> (r: Option<String>)
    ensures
        opt_view(r) == platform_badge_text(files.fly_toml, files.fly_dir, opt_view(files.dockerfile), files.vercel_json, files.vercel_dir),
{
    let docker_fly = match &files.dockerfile {
        Some(d) => contains_str(d.as_str(), "fly.io"),
        None => false,
    };
    if files.fly_toml || files.fly_dir || docker_fly {
        Some(to_owned_string(
            "[![Platform](https://img.shields.io/badge/platform-Fly.io-8A2BE2)](docs/adr/0002-flyio-oxigraph-provisioning-strategy.typ)\n",
        ))
    } else if files.vercel_json || files.vercel_dir {
        Some(to_owned_string("[![Platform](https://img.shields.io/badge/platform-Vercel-black)](docs/adr/)\n"))
    } else {
        None
    }
}

/// The tests badge line for a count.
pub open spec fn tests_badge_text(count: nat) -> Seq<char> {
    "[![Tests](https://img.shields.io/badge/tests-"@ + decimal_digits(count) + "-blue)](tests/)\n"@
}

/// The tests badge, when a test count is known.
pub fn badge_number_of_tests(count: Option<u32>) -> (r: Option<String>)
    ensures
        opt_view(r) == match count {
            Some(n) => Some(tests_badge_text(n as nat)),
            None => None,
        },
{
    match count {
        Some(n) => {
            let mut m = to_owned_string("[![Tests](https://img.shields.io/badge/tests-");
            push_decimal(&mut m, n as u64);
            push_str(&mut m, "-blue)](tests/)\n");
            Some(m)
        },
        None => None,
    }
}

/// The extension of a file name: the text after its last `.`, unless that
/// `.` starts the name.
pub open spec fn extension(name: Seq<char>) -> Option<Seq<char>> {
    let i = last_dot(name, name.len() as int);
    if i > 0 {
        Some(name.skip(i + 1))
    } else {
        None
    }
}

/// Index of the last `.` in `name[..k]`, or -1.
pub open spec fn last_dot(name: Seq<char>, k: int) -> int
    decreases k,
{
    if k <= 0 || k > name.len() {
        -1
    } else if name[k - 1] == '.' {
        k - 1
    } else {
        last_dot(name, k - 1)
    }
}

/// A workflow file: its extension is `yml` or `yaml`.
pub fn is_workflow_file(name: &str) -> (r: bool)
    ensures
        r == (extension(name@) == Some("yml"@) || extension(name@) == Some("yaml"@)),
{
    let v = chars_of(name);
    let mut k: usize = v.len();
    while k > 0 && v[k - 1] != '.'
        invariant
            0 <= k <= v@.len(),
            last_dot(v@, v@.len() as int) == last_dot(v@, k as int),
        decreases k,
    {
        k = k - 1;
    }
    if k <= 1 {
        assert(last_dot(v@, v@.len() as int) <= 0);
        return false;
    }
    let ext = crate::text::string_from_range(&v, k, v.len());
    assert(ext@ =~= name@.skip(k as int));
    str_eq(ext.as_str(), "yml") || str_eq(ext.as_str(), "yaml")
}

/// A workflow text publishes the crate: it mentions `cargo publish`.
pub fn workflow_publishes(content: &str) -> (r: bool)
    ensures
        r == contains(content@, "cargo publish"@),
{
    contains_str(content, "cargo publish")
}

/// Whether a package is likely published: not when `publish = []`;
/// otherwise when it has license metadata, a license file, or a workflow
/// that publishes.
pub fn guess_if_published(publish_disabled: bool, has_license_metadata: bool, has_license_file: bool, has_publish_workflow: bool) -> (r: bool)
    ensures
        r == (!publish_disabled && (has_license_metadata || has_license_file || has_publish_workflow)),
{
    !publish_disabled && (has_license_metadata || has_license_file || has_publish_workflow)
}

/// A cached test count.
#[derive(Debug)]
pub struct TestCountCache {
    /// Package the count is for.
    pub package: String,
    /// Key of the state the count was taken in.
    pub cache_key: String,
    /// The count.
    pub test_count: u32,
}

/// The cached count, when the cache is for this package and state.
pub fn cached_test_count(cache: &TestCountCache, package_name: &str, current_key: &str) -> (r: Option<u32>)
    ensures
        r == (if cache.cache_key@ == current_key@ && cache.package@ == package_name@ { Some(cache.test_count) } else { None }),
{
    if str_eq(cache.cache_key.as_str(), current_key) && str_eq(package_name, cache.package.as_str()) {
        Some(cache.test_count)
    } else {
        None
    }
}

/// What a line of `cargo test --no-run --message-format json` output holds,
/// when it parses as JSON (`serde_json::from_str::<serde_json::Value>`):
/// `reason` and `package_id` when they are strings, and whether
/// `executable` is a string.
pub uninterp spec fn json_message_fields(line: Seq<char>) -> Option<(Option<Seq<char>>, Option<Seq<char>>, bool)>;

/// The items of `target.kind` of a JSON line, when it parses and that is an
/// array; each item's text when it is a string.
pub uninterp spec fn json_target_kinds(line: Seq<char>) -> Option<Seq<Option<Seq<char>>>>;

/// Reads the message fields of a JSON line.
///
/// Parses with `serde_json::from_str::<serde_json::Value>` and reads
/// `reason` and `package_id` with `Value::get` and `Value::as_str`, and
/// `executable` with `Value::is_string`; the contract names the outcome
/// [`json_message_fields`].
#[verifier::external_body]
fn read_message_fields(line: &str) -> (r: Option<(Option<String>, Option<String>, bool)>)
    ensures
        match r {
            Some((a, b, c)) => json_message_fields(line@) == Some((opt_view(a), opt_view(b), c)),
            None => json_message_fields(line@) is None,
        },
{
    let v: serde_json::Value = serde_json::from_str(line).ok()?;
    let reason = v.get("reason").and_then(|x| x.as_str()).map(|x| x.to_string());
    let package_id = v.get("package_id").and_then(|x| x.as_str()).map(|x| x.to_string());
    Some((reason, package_id, v.get("executable").is_some_and(|x| x.is_string())))
}

/// Reads `target.kind` of a JSON line.
///
/// Parses with `serde_json::from_str::<serde_json::Value>` and reads the
/// array with `Value::get`, `Value::as_array` and `Value::as_str`; the
/// contract names the outcome [`json_target_kinds`].
#[verifier::external_body]
fn read_target_kinds(line: &str) -> (r: Option<Vec<Option<String>>>)
    ensures
        match r {
            Some(v) => json_target_kinds(line@) == Some(v@.map_values(|k: Option<String>| opt_view(k))),
            None => json_target_kinds(line@) is None,
        },
{
    let v: serde_json::Value = serde_json::from_str(line).ok()?;
    let kinds = v.get("target")?.get("kind")?.as_array()?;
    Some(kinds.iter().map(|k| k.as_str().map(|x| x.to_string())).collect())
}

/// A line of the JSON output is a test executable of the package: a
/// `compiler-artifact` message whose package id starts with `NAME@`, whose
/// target kinds include `test`, and whose executable is a string.
pub open spec fn is_test_artifact(line: Seq<char>, package_name: Seq<char>) -> bool {
    &&& json_message_fields(line) matches Some(f)
    &&& f.0 == Some("compiler-artifact"@)
    &&& f.1 matches Some(id) && starts_with(id, package_name + "@"@)
    &&& json_target_kinds(line) matches Some(kinds) && kinds.contains(Some("test"@))
    &&& f.2
}

/// The number of lines that are test executables of the package.
pub open spec fn test_artifact_count(lines: Seq<Seq<char>>, package_name: Seq<char>) -> nat
    decreases lines.len(),
{
    if lines.len() == 0 {
        0
    } else {
        test_artifact_count(lines.drop_last(), package_name) + if is_test_artifact(lines.last(), package_name) { 1nat } else { 0nat }
    }
}

proof fn lemma_count_bounded(lines: Seq<Seq<char>>, package_name: Seq<char>)
    ensures
        test_artifact_count(lines, package_name) <= lines.len(),
    decreases lines.len(),
{
    if lines.len() > 0 {
        lemma_count_bounded(lines.drop_last(), package_name);
    }
}

/// Whether a line is a test executable of the package (see
/// [`is_test_artifact`]).
fn line_is_test_artifact(line: &str, package_name: &str) -> (r: bool)
    ensures
        r == is_test_artifact(line@, package_name@),
{
    let (reason, id, executable) = match read_message_fields(line) {
        None => return false,
        Some(f) => f,
    };
    let reason_ok = match &reason {
        Some(x) => str_eq(x.as_str(), "compiler-artifact"),
        None => false,
    };
    if !reason_ok {
        return false;
    }
    let mut prefix = to_owned_string(package_name);
    push_str(&mut prefix, "@");
    let id_ok = match &id {
        Some(x) => str_starts_with(x.as_str(), prefix.as_str()),
        None => false,
    };
    if !id_ok {
        return false;
    }
    let kinds = match read_target_kinds(line) {
        None => return false,
        Some(k) => k,
    };
    let ghost kv = kinds@.map_values(|k: Option<String>| opt_view(k));
    let mut found = false;
    let mut i: usize = 0;
    while i < kinds.len()
        invariant
            0 <= i <= kinds@.len(),
            kv == kinds@.map_values(|k: Option<String>| opt_view(k)),
            found == kv.take(i as int).contains(Some("test"@)),
        decreases kinds.len() - i,
    {
        let hit = match &kinds[i] {
            Some(x) => str_eq(x.as_str(), "test"),
            None => false,
        };
        proof {
            assert(kv.take(i + 1) =~= kv.take(i as int).push(kv[i as int]));
            if kv.take(i + 1).contains(Some("test"@)) && !kv.take(i as int).contains(Some("test"@)) {
                let w = choose|w: int| 0 <= w < kv.take(i + 1).len() && #[trigger] kv.take(i + 1)[w] == Some("test"@);
                assert(w == i);
            }
            if kv.take(i as int).contains(Some("test"@)) {
                let w = choose|w: int| 0 <= w < kv.take(i as int).len() && #[trigger] kv.take(i as int)[w] == Some("test"@);
                assert(kv.take(i + 1)[w] == Some("test"@));
            }
            if hit {
                assert(kv.take(i + 1)[i as int] == Some("test"@));
            }
        }
        found = found || hit;
        i = i + 1;
    }
    assert(kv.take(kinds@.len() as int) =~= kv);
    found && executable
}

/// Counts the test executables of the package in the JSON output of
/// `cargo test --no-run --message-format json` (see [`is_test_artifact`]).
pub fn count_test_artifacts(stdout: &str, package_name: &str) -> (r: u32)
    requires
        text_lines(stdout@).len() <= u32::MAX,
    ensures
        r as nat == test_artifact_count(text_lines(stdout@), package_name@),
{
    let lines = lines_of(stdout);
    let ghost ls = lines@.map_values(|l: String| l@);
    let mut count: u32 = 0;
    let mut i: usize = 0;
    while i < lines.len()
        invariant
            0 <= i <= lines@.len(),
            ls == lines@.map_values(|l: String| l@),
            ls == text_lines(stdout@),
            ls.len() <= u32::MAX,
            count as nat == test_artifact_count(ls.take(i as int), package_name@),
        decreases lines.len() - i,
    {
        assert(ls.take(i + 1).drop_last() =~= ls.take(i as int));
        assert(ls.take(i + 1).last() == lines@[i as int]@);
        proof {
            lemma_count_bounded(ls.take(i as int), package_name@);
        }
        if line_is_test_artifact(lines[i].as_str(), package_name) {
            count = count + 1;
        }
        i = i + 1;
    }
    assert(ls.take(lines@.len() as int) =~= ls);
    count
}

/// The number of lines that mention `: test` (lines of `cargo test --
/// --list`).
pub open spec fn listed_test_count(lines: Seq<Seq<char>>) -> nat
    decreases lines.len(),
{
    if lines.len() == 0 {
        0
    } else {
        listed_test_count(lines.drop_last()) + if contains(lines.last(), ": test"@) { 1nat } else { 0nat }
    }
}

proof fn lemma_listed_bounded(lines: Seq<Seq<char>>)
    ensures
        listed_test_count(lines) <= lines.len(),
    decreases lines.len(),
{
    if lines.len() > 0 {
        lemma_listed_bounded(lines.drop_last());
    }
}

/// Counts the tests that `cargo test -- --list` lists, truncated to `u32`
/// as the count is stored.
pub fn count_listed_tests(stdout: &str) -> (r: u32)
    ensures
        r == listed_test_count(text_lines(stdout@)) as u32,
{
    let lines = lines_of(stdout);
    let ghost ls = lines@.map_values(|l: String| l@);
    let mut count: usize = 0;
    let mut i: usize = 0;
    while i < lines.len()
        invariant
            0 <= i <= lines@.len(),
            ls == lines@.map_values(|l: String| l@),
            ls == text_lines(stdout@),
            count as nat == listed_test_count(ls.take(i as int)),
        decreases lines.len() - i,
    {
        assert(ls.take(i + 1).drop_last() =~= ls.take(i as int));
        assert(ls.take(i + 1).last() == lines@[i as int]@);
        proof {
            lemma_listed_bounded(ls.take(i as int));
        }
        if contains_str(lines[i].as_str(), ": test") {
            count = count + 1;
        }
        i = i + 1;
    }
    assert(ls.take(lines@.len() as int) =~= ls);
    #[verifier::truncate]
    (count as u32)
}

/// What the caller has run to count the tests.
#[derive(Debug)]
pub enum TestCountStep {
    /// `cargo test --no-run --message-format json` finished.
    Artifacts {
        /// It succeeded.
        success: bool,
        /// Its standard output.
        stdout: String,
    },
    /// `cargo test --no-run` finished.
    Compiled {
        /// It succeeded.
        success: bool,
    },
    /// `cargo test -- --list` finished.
    Listed {
        /// It succeeded.
        success: bool,
        /// Its standard output.
        stdout: String,
    },
}

/// What to do next to count the tests.
#[derive(Debug, PartialEq, Eq, Structural)]
pub enum TestCountAction {
    /// The count is known (to be cached and shown).
    Found(u32),
    /// There is no count.
    NoCount,
    /// Run `cargo test --no-run`.
    Compile,
    /// Run `cargo test -- --list`.
    List,
}

/// Decides the next step of the test count: the JSON artifacts first; when
/// they show no test executable, compile and list the tests.
pub fn test_count_step(step: &TestCountStep, package_name: &str) -> (r: TestCountAction)
    requires
        step matches TestCountStep::Artifacts { stdout, .. } ==> text_lines(stdout@).len() <= u32::MAX,
    ensures
        match *step {
            TestCountStep::Artifacts { success, stdout } => r == if !success {
                TestCountAction::NoCount
            } else if test_artifact_count(text_lines(stdout@), package_name@) > 0 {
                TestCountAction::Found(test_artifact_count(text_lines(stdout@), package_name@) as u32)
            } else {
                TestCountAction::Compile
            },
            TestCountStep::Compiled { success } => r == if success { TestCountAction::List } else { TestCountAction::NoCount },
            TestCountStep::Listed { success, stdout } => r == if success && listed_test_count(text_lines(stdout@)) as u32 > 0 {
                TestCountAction::Found(listed_test_count(text_lines(stdout@)) as u32)
            } else {
                TestCountAction::NoCount
            },
        },
{
    match step {
        TestCountStep::Artifacts { success, stdout } => {
            if !*success {
                return TestCountAction::NoCount;
            }
            let n = count_test_artifacts(stdout.as_str(), package_name);
            if n > 0 {
                TestCountAction::Found(n)
            } else {
                TestCountAction::Compile
            }
        },
        TestCountStep::Compiled { success } => {
            if *success {
                TestCountAction::List
            } else {
                TestCountAction::NoCount
            }
        },
        TestCountStep::Listed { success, stdout } => {
            if !*success {
                return TestCountAction::NoCount;
            }
            let n = count_listed_tests(stdout.as_str());
            if n > 0 {
                TestCountAction::Found(n)
            } else {
                TestCountAction::NoCount
            }
        },
    }
}


/// Where a package of the workspace lives, as canonical paths.
#[derive(Debug)]
pub struct PackageLocation {
    /// The canonical directory of the package's manifest, when known.
    pub dir: Option<String>,
    /// The canonical path of the package's manifest, when known.
    pub manifest: Option<String>,
}

/// Index of the first location at or after `k` whose path (directory when
/// `by_dir`, manifest otherwise) is `target`, or -1.
pub open spec fn first_located(locs: Seq<(Option<Seq<char>>, Option<Seq<char>>)>, by_dir: bool, target: Seq<char>, k: int) -> int
    decreases locs.len() - k,
{
    if k < 0 || k >= locs.len() {
        -1
    } else if (if by_dir { locs[k].0 } else { locs[k].1 }) == Some(target) {
        k
    } else {
        first_located(locs, by_dir, target, k + 1)
    }
}

/// The package a command works on: the first whose directory is the current
/// directory; else the first whose manifest is `Cargo.toml` of the current
/// directory; else the root package; else the first default member.
pub open spec fn selected_package(
    locs: Seq<(Option<Seq<char>>, Option<Seq<char>>)>,
    current_dir: Option<Seq<char>>,
    current_manifest: Option<Seq<char>>,
    root_package: Option<usize>,
    default_member: Option<usize>,
) -> Option<usize> {
    let by_dir = match current_dir {
        Some(d) => first_located(locs, true, d, 0),
        None => -1,
    };
    let by_manifest = match current_manifest {
        Some(m) => first_located(locs, false, m, 0),
        None => -1,
    };
    if by_dir >= 0 {
        Some(by_dir as usize)
    } else if by_manifest >= 0 {
        Some(by_manifest as usize)
    } else if root_package is Some {
        root_package
    } else {
        default_member
    }
}

/// The plain view of package locations.
pub open spec fn locations_view(locs: Seq<PackageLocation>) -> Seq<(Option<Seq<char>>, Option<Seq<char>>)> {
    locs.map_values(|l: PackageLocation| (opt_view(l.dir), opt_view(l.manifest)))
}

/// Finds the first location whose chosen path is `target`.
fn find_location(locs: &Vec<PackageLocation>, by_dir: bool, target: &str) -> (r: Option<usize>)
    ensures
        match r {
            Some(i) => first_located(locations_view(locs@), by_dir, target@, 0) == i as int,
            None => first_located(locations_view(locs@), by_dir, target@, 0) == -1,
        },
{
    let ghost lv = locations_view(locs@);
    let mut i: usize = 0;
    while i < locs.len()
        invariant
            0 <= i <= locs@.len(),
            lv == locations_view(locs@),
            first_located(lv, by_dir, target@, 0) == first_located(lv, by_dir, target@, i as int),
        decreases locs.len() - i,
    {
        let path = if by_dir { &locs[i].dir } else { &locs[i].manifest };
        let hit = match path {
            Some(p) => str_eq(p.as_str(), target),
            None => false,
        };
        assert(lv[i as int] == (opt_view(locs@[i as int].dir), opt_view(locs@[i as int].manifest)));
        if hit {
            return Some(i);
        }
        i = i + 1;
    }
    None
}

/// Selects the package a command works on (see [`selected_package`]);
/// `None` when no package matches.
pub fn select_package(
    locations: &Vec<PackageLocation>,
    current_dir: &Option<String>,
    current_manifest: &Option<String>,
    root_package: Option<usize>,
    default_member: Option<usize>,
) -> (r: Option<usize>)
    ensures
        r == selected_package(locations_view(locations@), opt_view(*current_dir), opt_view(*current_manifest), root_package, default_member),
{
    if let Some(d) = current_dir {
        if let Some(i) = find_location(locations, true, d.as_str()) {
            return Some(i);
        }
    }
    if let Some(m) = current_manifest {
        if let Some(i) = find_location(locations, false, m.as_str()) {
            return Some(i);
        }
    }
    if root_package.is_some() {
        root_package
    } else {
        default_member
    }
}

} // verus!
