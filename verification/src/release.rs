//! The release page: title, description, repository link, badges, the
//! changelog without its own title, and a link to the full comparison.
use vstd::prelude::*;
use crate::text::{chars_of, find_text, find_text_from, lemma_find_text_from, push_str, starts_with, str_starts_with, string_from_range, to_owned_string, trim_all, trim_string};
use crate::changelog::{opt_view, version_display};

verus! {

/// Arguments of `release-page`.
#[derive(Debug)]
pub struct ReleasePageArgs {
    /// Tag to list changes since.
    pub since_tag: Option<String>,
    /// Range of commits, `FROM..TO`.
    pub range: Option<String>,
    /// Version the page is for (default: the package version).
    pub for_version: Option<String>,
    /// Output file (default: standard output).
    pub output: Option<String>,
    /// Do not query the network for badges.
    pub no_network: bool,
    /// Repository owner.
    pub owner: Option<String>,
    /// Repository name.
    pub repo: Option<String>,
}

/// What the release page shows of the package.
#[derive(Debug)]
pub struct PackageInfo {
    /// Package name.
    pub name: String,
    /// Package version.
    pub version: String,
    /// Package description.
    pub description: Option<String>,
    /// Repository URL.
    pub repository: Option<String>,
}

/// The version in the page title: the requested version with a `v` prefix
/// unless it has one (`v` or `V`), else `v` and the package version.
pub open spec fn page_version(for_version: Option<Seq<char>>, package_version: Seq<char>) -> Seq<char> {
    match for_version {
        Some(v) => version_display(v),
        None => "v"@ + package_version,
    }
}

/// The head of the page: title, description, repository link.
pub open spec fn page_head(name: Seq<char>, version: Seq<char>, description: Option<Seq<char>>, repository: Option<Seq<char>>) -> Seq<char> {
    "# "@ + name + " "@ + version + "\n\n"@
        + match description {
            Some(d) => d + "\n\n"@,
            None => Seq::empty(),
        }
        + match repository {
            Some(r) => if starts_with(r, "https://github.com/"@) {
                "[View on GitHub]("@ + r + ")\n\n"@
            } else if starts_with(r, "http"@) {
                "[View Repository]("@ + r + ")\n\n"@
            } else {
                Seq::empty()
            },
            None => Seq::empty(),
        }
}

/// A changelog without its `# Changelog` title: everything after the first
/// blank line when it starts with the title and has one.
pub open spec fn changelog_body_of(c: Seq<char>) -> Seq<char> {
    if starts_with(c, "# Changelog"@) && find_text_from(c, "\n\n"@, 0) >= 0 {
        c.skip(find_text_from(c, "\n\n"@, 0) + 2)
    } else {
        c
    }
}

/// The two ends of a range `FROM..TO`, trimmed, when `..` occurs exactly
/// once (as `str::split` counts it, from the left, without overlaps).
pub open spec fn range_ends(r: Seq<char>) -> Option<(Seq<char>, Seq<char>)> {
    let i = find_text_from(r, ".."@, 0);
    if i >= 0 && find_text_from(r, ".."@, i + 2) < 0 {
        Some((trim_all(r.subrange(0, i)), trim_all(r.skip(i + 2))))
    } else {
        None
    }
}

/// The full-changelog link line, for a GitHub repository: a comparison of
/// the range's ends, or of the tag with `HEAD`.
pub open spec fn full_changelog(repository: Option<Seq<char>>, range: Option<Seq<char>>, since_tag: Option<Seq<char>>) -> Seq<char> {
    match repository {
        Some(r) => if starts_with(r, "https://github.com/"@) {
            match range {
                Some(rg) => match range_ends(rg) {
                    Some((a, b)) => "\n**Full Changelog**: ["@ + r + "/compare/"@ + a + "..."@ + b + "]("@ + r + "/compare/"@ + a + "..."@ + b + ")\n\n"@,
                    None => Seq::empty(),
                },
                None => match since_tag {
                    Some(t) => "\n**Full Changelog**: ["@ + r + "/compare/"@ + t + "...HEAD]("@ + r + "/compare/"@ + t + "...HEAD)\n\n"@,
                    None => Seq::empty(),
                },
            }
        } else {
            Seq::empty()
        },
        None => Seq::empty(),
    }
}

/// The release page.
pub open spec fn release_page_text(
    for_version: Option<Seq<char>>,
    range: Option<Seq<char>>,
    since_tag: Option<Seq<char>>,
    name: Seq<char>,
    version: Seq<char>,
    description: Option<Seq<char>>,
    repository: Option<Seq<char>>,
    badges: Seq<char>,
    changelog: Seq<char>,
) -> Seq<char> {
    page_head(name, page_version(for_version, version), description, repository) + badges + "\n"@
        + "## What's Changed\n\n"@ + changelog_body_of(changelog) + full_changelog(repository, range, since_tag)
}

/// The changelog without its title (see [`changelog_body_of`]).
pub fn strip_changelog_title(changelog: &str) -> (r: String)
    ensures
        r@ == changelog_body_of(changelog@),
{
    proof {
        reveal_strlit("\n\n");
    }
    if str_starts_with(changelog, "# Changelog") {
        let c = chars_of(changelog);
        let sep = chars_of("\n\n");
        assert(sep@.len() == 2);
        match find_text(&c, &sep, 0) {
            Some(pos) => {
                proof {
                    lemma_find_text_from(c@, sep@, 0);
                }
                let n = c.len();
                assert(pos + 2 <= n);
                let r = string_from_range(&c, pos + 2, c.len());
                assert(r@ =~= changelog@.skip(pos + 2));
                r
            },
            None => to_owned_string(changelog),
        }
    } else {
        to_owned_string(changelog)
    }
}

/// The ends of a range (see [`range_ends`]).
pub fn split_range(range: &str) -> (r: Option<(String, String)>)
    ensures
        match r {
            Some((a, b)) => range_ends(range@) == Some((a@, b@)),
            None => range_ends(range@) is None,
        },
{
    proof {
        reveal_strlit("..");
    }
    let c = chars_of(range);
    let sep = chars_of("..");
    assert(sep@.len() == 2);
    match find_text(&c, &sep, 0) {
        None => None,
        Some(i) => {
            proof {
                lemma_find_text_from(c@, sep@, 0);
            }
            let n = c.len();
            assert(i + 2 <= n);
            match find_text(&c, &sep, i + 2) {
                Some(_) => None,
                None => {
                    let a = string_from_range(&c, 0, i);
                    let b = string_from_range(&c, i + 2, c.len());
                    assert(b@ =~= range@.skip(i + 2));
                    Some((trim_string(a.as_str()), trim_string(b.as_str())))
                },
            }
        },
    }
}

/// The head of the page (see [`page_head`]).
fn page_head_of(args: &ReleasePageArgs, package: &PackageInfo) -> (r: String)
    ensures
        r@ == page_head(package.name@, page_version(opt_view(args.for_version), package.version@), opt_view(package.description), opt_view(package.repository)),
{
    proof {
        reveal_strlit("v");
    }
    let mut out = to_owned_string("# ");
    push_str(&mut out, package.name.as_str());
    push_str(&mut out, " ");
    match &args.for_version {
        Some(v) => {
            let vc = chars_of(v.as_str());
            if !(vc.len() > 0 && (vc[0] == 'v' || vc[0] == 'V')) {
                push_str(&mut out, "v");
            }
            push_str(&mut out, v.as_str());
        },
        None => {
            push_str(&mut out, "v");
            push_str(&mut out, package.version.as_str());
        },
    }
    push_str(&mut out, "\n\n");
    match &package.description {
        Some(d) => {
            push_str(&mut out, d.as_str());
            push_str(&mut out, "\n\n");
        },
        None => {},
    }
    match &package.repository {
        Some(r) => {
            if str_starts_with(r.as_str(), "https://github.com/") {
                push_str(&mut out, "[View on GitHub](");
                push_str(&mut out, r.as_str());
                push_str(&mut out, ")\n\n");
            } else if str_starts_with(r.as_str(), "http") {
                push_str(&mut out, "[View Repository](");
                push_str(&mut out, r.as_str());
                push_str(&mut out, ")\n\n");
            }
        },
        None => {},
    }
    assert(out@ =~= page_head(package.name@, page_version(opt_view(args.for_version), package.version@), opt_view(package.description), opt_view(package.repository)));
    out
}

/// Appends a comparison link `[R/compare/A...B](R/compare/A...B)`.
fn push_compare_link(out: &mut String, r: &str, a: &str, b: &str)
    ensures
        final(out)@ == old(out)@ + "\n**Full Changelog**: ["@ + r@ + "/compare/"@ + a@ + "..."@ + b@ + "]("@ + r@ + "/compare/"@ + a@ + "..."@ + b@ + ")\n\n"@,
{
    push_str(out, "\n**Full Changelog**: [");
    push_str(out, r);
    push_str(out, "/compare/");
    push_str(out, a);
    push_str(out, "...");
    push_str(out, b);
    push_str(out, "](");
    push_str(out, r);
    push_str(out, "/compare/");
    push_str(out, a);
    push_str(out, "...");
    push_str(out, b);
    push_str(out, ")\n\n");
    assert(out@ =~= old(out)@ + "\n**Full Changelog**: ["@ + r@ + "/compare/"@ + a@ + "..."@ + b@ + "]("@ + r@ + "/compare/"@ + a@ + "..."@ + b@ + ")\n\n"@);
}

/// The full-changelog link (see [`full_changelog`]).
fn full_changelog_link(repository: &Option<String>, range: &Option<String>, since_tag: &Option<String>) -> (r: String)
    ensures
        r@ == full_changelog(opt_view(*repository), opt_view(*range), opt_view(*since_tag)),
{
    proof {
        reveal_strlit("HEAD");
        reveal_strlit("...");
        reveal_strlit("...HEAD](");
        reveal_strlit("...HEAD)\n\n");
        reveal_strlit("](");
        reveal_strlit(")\n\n");
    }
    let mut out = String::new();
    match repository {
        Some(r) => {
            if str_starts_with(r.as_str(), "https://github.com/") {
                match range {
                    Some(rg) => match split_range(rg.as_str()) {
                        Some((a, b)) => push_compare_link(&mut out, r.as_str(), a.as_str(), b.as_str()),
                        None => {},
                    },
                    None => match since_tag {
                        Some(t) => {
                            push_compare_link(&mut out, r.as_str(), t.as_str(), "HEAD");
                            assert(out@ =~= "\n**Full Changelog**: ["@ + r@ + "/compare/"@ + t@ + "...HEAD]("@ + r@ + "/compare/"@ + t@ + "...HEAD)\n\n"@);
                        },
                        None => {},
                    },
                }
            }
        },
        None => {},
    }
    assert(out@ =~= full_changelog(opt_view(*repository), opt_view(*range), opt_view(*since_tag)));
    out
}

/// Renders the release page from the package, the badges and the changelog
/// (both rendered by the caller). The pull request log is not available
/// yet, so the page has none.
pub fn release_page(args: &ReleasePageArgs, package: &PackageInfo, badges: &str, changelog: &str) -> (r: String)
    ensures
        r@ == release_page_text(
            opt_view(args.for_version),
            opt_view(args.range),
            opt_view(args.since_tag),
            package.name@,
            package.version@,
            opt_view(package.description),
            opt_view(package.repository),
            badges@,
            changelog@,
        ),
{
    let mut out = page_head_of(args, package);
    push_str(&mut out, badges);
    push_str(&mut out, "\n");
    push_str(&mut out, "## What's Changed\n\n");
    let body = strip_changelog_title(changelog);
    push_str(&mut out, body.as_str());
    let link = full_changelog_link(&package.repository, &args.range, &args.since_tag);
    push_str(&mut out, link.as_str());
    out
}

} // verus!
