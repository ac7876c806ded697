//! Release versions: the latest version tag of a repository, the version
//! that follows it, and how failures of the release query are reported.
use vstd::prelude::*;
use crate::text::{chars_of, string_from_range, to_owned_string, starts_with};
use crate::version::{
    format_version, invalid_format_of, parse_version, strip_v, triple_order, version_text, version_triple,
    VersionError,
};
use crate::commands::{strings_view, tag_of_ref};
use crate::diff::text_contains;

verus! {

/// The version tags among some reference names: each tag under `refs/tags/`
/// whose name, after one leading `v` or `V`, is a version, with its triple.
pub open spec fn triple_tags(refs: Seq<Seq<char>>) -> Seq<(Seq<char>, (u32, u32, u32))>
    decreases refs.len(),
{
    if refs.len() == 0 {
        Seq::empty()
    } else {
        triple_tags(refs.drop_last()) + match tag_of_ref(refs.last()) {
            Some(t) => match version_triple(strip_v(t)) {
                Some(v) => seq![(t, v)],
                None => Seq::empty(),
            },
            None => Seq::empty(),
        }
    }
}

/// The tag that a stable ascending sort by version puts last: the last one
/// of the tags with the greatest version.
pub open spec fn last_greatest(tags: Seq<(Seq<char>, (u32, u32, u32))>) -> Option<(Seq<char>, (u32, u32, u32))>
    decreases tags.len(),
{
    if tags.len() == 0 {
        None
    } else {
        match last_greatest(tags.drop_last()) {
            None => Some(tags.last()),
            Some(best) => if triple_order(tags.last().1, best.1) >= 0 {
                Some(tags.last())
            } else {
                Some(best)
            },
        }
    }
}

/// The latest tagged version: the name of the greatest version tag without
/// one leading `v` or `V`.
pub open spec fn latest_tag_version(refs: Seq<Seq<char>>) -> Option<Seq<char>> {
    match last_greatest(triple_tags(refs)) {
        Some(best) => Some(strip_v(best.0)),
        None => None,
    }
}

/// The text after one leading `v` or `V`.
fn strip_one_v(s: &str) -> (r: String)
    ensures
        r@ == strip_v(s@),
{
    let v = chars_of(s);
    if v.len() > 0 && (v[0] == 'v' || v[0] == 'V') {
        string_from_range(&v, 1, v.len())
    } else {
        to_owned_string(s)
    }
}

/// The version of the latest version tag among the repository's reference
/// names, without its `v` prefix; `None` when no tag is a version.
pub fn get_latest_git_tag_version(refs: &Vec<String>) -> (r: Option<String>)
    ensures
        crate::changelog::opt_view(r) == latest_tag_version(strings_view(refs@)),
{
    proof {
        reveal_strlit("refs/tags/");
    }
    let prefix = chars_of("refs/tags/");
    assert(prefix@.len() == 10);
    let ghost rv = strings_view(refs@);
    let mut best: Option<(String, (u32, u32, u32))> = None;
    let mut i: usize = 0;
    while i < refs.len()
        invariant
            0 <= i <= refs@.len(),
            rv == strings_view(refs@),
            prefix@ == "refs/tags/"@,
            prefix@.len() == 10,
            (match best {
                Some(b) => last_greatest(triple_tags(rv.take(i as int))) == Some((b.0@, b.1)),
                None => last_greatest(triple_tags(rv.take(i as int))) is None,
            }),
        decreases refs.len() - i,
    {
        assert(rv.take(i + 1).drop_last() =~= rv.take(i as int));
        assert(rv.take(i + 1).last() == refs@[i as int]@);
        let name = chars_of(refs[i].as_str());
        let is_tag = prefix.len() <= name.len() && crate::text::range_equals(&name, 0, prefix.len(), &prefix);
        assert(is_tag == starts_with(name@, prefix@)) by {
            if prefix.len() <= name.len() {
                assert(name@.subrange(0, 10) =~= name@.take(10));
            }
        }
        let ghost before = triple_tags(rv.take(i as int));
        if is_tag {
            let t = string_from_range(&name, prefix.len(), name.len());
            assert(t@ =~= name@.skip(10));
            let stripped = strip_one_v(t.as_str());
            match parse_version(stripped.as_str()) {
                Ok(v) => {
                    assert(triple_tags(rv.take(i + 1)) =~= before.push((t@, v)));
                    assert(before.push((t@, v)).drop_last() =~= before);
                    let replace = match &best {
                        None => true,
                        Some(b) => crate::version::compare_triples(v, b.1) >= 0,
                    };
                    if replace {
                        best = Some((t, v));
                    }
                },
                Err(_) => {
                    assert(triple_tags(rv.take(i + 1)) =~= before);
                },
            }
        } else {
            assert(triple_tags(rv.take(i + 1)) =~= before);
        }
        i = i + 1;
    }
    assert(rv.take(refs@.len() as int) =~= rv);
    match best {
        Some(b) => Some(strip_one_v(b.0.as_str())),
        None => None,
    }
}

/// The latest and the next version: without a version tag `0.0.0` and
/// `0.0.1`, otherwise the latest tagged version and its patch increment.
pub open spec fn next_versions(refs: Seq<Seq<char>>) -> Option<(Seq<char>, Seq<char>)> {
    match latest_tag_version(refs) {
        None => Some(("0.0.0"@, "0.0.1"@)),
        Some(l) => {
            let t = version_triple(l).unwrap();
            if t.2 < u32::MAX {
                Some((l, version_text(t.0, t.1, (t.2 + 1) as u32)))
            } else {
                None
            }
        },
    }
}

/// The greatest version tag has a version.
proof fn lemma_latest_tag_parses(refs: Seq<Seq<char>>)
    ensures
        latest_tag_version(refs) matches Some(l) ==> version_triple(l) is Some,
{
    lemma_triple_tags_parse(refs);
    lemma_last_greatest_member(triple_tags(refs));
}

proof fn lemma_triple_tags_parse(refs: Seq<Seq<char>>)
    ensures
        forall|k: int| 0 <= k < triple_tags(refs).len() ==> version_triple(strip_v(#[trigger] triple_tags(refs)[k].0)) == Some(triple_tags(refs)[k].1),
    decreases refs.len(),
{
    if refs.len() > 0 {
        lemma_triple_tags_parse(refs.drop_last());
        let a = triple_tags(refs.drop_last());
        assert forall|k: int| 0 <= k < triple_tags(refs).len() implies version_triple(strip_v(#[trigger] triple_tags(refs)[k].0)) == Some(triple_tags(refs)[k].1) by {
            if k < a.len() {
                assert(triple_tags(refs)[k] == a[k]);
            }
        }
    }
}

proof fn lemma_last_greatest_member(tags: Seq<(Seq<char>, (u32, u32, u32))>)
    ensures
        last_greatest(tags) matches Some(b) ==> exists|k: int| 0 <= k < tags.len() && tags[k] == b,
    decreases tags.len(),
{
    if tags.len() > 0 {
        lemma_last_greatest_member(tags.drop_last());
        if let Some(b) = last_greatest(tags.drop_last()) {
            let k = choose|k: int| 0 <= k < tags.drop_last().len() && tags.drop_last()[k] == b;
            assert(tags[k] == b);
        }
        assert(tags[tags.len() - 1] == tags.last());
    }
}

/// The tag a stable ascending sort by version puts last is one of the tags,
/// and no tag has a greater version.
proof fn lemma_last_greatest_is_max(tags: Seq<(Seq<char>, (u32, u32, u32))>)
    ensures
        tags.len() > 0 ==> last_greatest(tags) is Some,
        last_greatest(tags) matches Some(b) ==> (exists|k: int| 0 <= k < tags.len() && tags[k] == b)
            && forall|k: int| 0 <= k < tags.len() ==> !crate::version::triple_below(b.1, #[trigger] tags[k].1),
    decreases tags.len(),
{
    if tags.len() > 0 {
        lemma_last_greatest_is_max(tags.drop_last());
        lemma_last_greatest_member(tags);
        let b = last_greatest(tags).unwrap();
        assert forall|k: int| 0 <= k < tags.len() implies !crate::version::triple_below(b.1, #[trigger] tags[k].1) by {
            if k < tags.len() - 1 {
                assert(tags[k] == tags.drop_last()[k]);
            }
        }
    }
}

/// Every version tag among the reference names is listed by [`triple_tags`].
proof fn lemma_version_tag_listed(refs: Seq<Seq<char>>, i: int)
    requires
        0 <= i < refs.len(),
        tag_of_ref(refs[i]) is Some,
        version_triple(strip_v(tag_of_ref(refs[i]).unwrap())) is Some,
    ensures
        exists|k: int| 0 <= k < triple_tags(refs).len() && #[trigger] triple_tags(refs)[k] == (tag_of_ref(refs[i]).unwrap(), version_triple(strip_v(tag_of_ref(refs[i]).unwrap())).unwrap()),
    decreases refs.len(),
{
    let a = triple_tags(refs.drop_last());
    if i == refs.len() - 1 {
        assert(triple_tags(refs)[a.len() as int] == (tag_of_ref(refs[i]).unwrap(), version_triple(strip_v(tag_of_ref(refs[i]).unwrap())).unwrap()));
    } else {
        assert(refs.drop_last()[i] == refs[i]);
        lemma_version_tag_listed(refs.drop_last(), i);
        let k = choose|k: int| 0 <= k < a.len() && #[trigger] a[k] == (tag_of_ref(refs[i]).unwrap(), version_triple(strip_v(tag_of_ref(refs[i]).unwrap())).unwrap());
        assert(triple_tags(refs)[k] == a[k]);
    }
}

/// The latest tagged version is the version of one of the version tags
/// among the reference names, and no version tag has a greater version
/// (compared by major, then minor, then patch). When there is a version
/// tag, the next version is the latest one with its patch incremented.
pub proof fn lemma_latest_tag_is_greatest(refs: Seq<Seq<char>>)
    ensures
        forall|i: int| 0 <= i < refs.len() && (#[trigger] tag_of_ref(refs[i])) is Some
            && version_triple(strip_v(tag_of_ref(refs[i]).unwrap())) is Some ==> ({
                &&& latest_tag_version(refs) is Some
                &&& version_triple(latest_tag_version(refs).unwrap()) is Some
                &&& !crate::version::triple_below(
                    version_triple(latest_tag_version(refs).unwrap()).unwrap(),
                    version_triple(strip_v(tag_of_ref(refs[i]).unwrap())).unwrap(),
                )
            }),
        latest_tag_version(refs) is Some ==> version_triple(latest_tag_version(refs).unwrap()) is Some
            && exists|i: int| 0 <= i < refs.len() && (#[trigger] tag_of_ref(refs[i])) is Some
            && strip_v(tag_of_ref(refs[i]).unwrap()) == latest_tag_version(refs).unwrap(),
        latest_tag_version(refs) is Some && next_versions(refs) is Some ==> ({
            let l = latest_tag_version(refs).unwrap();
            let t = version_triple(l).unwrap();
            &&& next_versions(refs).unwrap().0 == l
            &&& version_triple(next_versions(refs).unwrap().1) == Some((t.0, t.1, (t.2 + 1) as u32))
        }),
{
    let tags = triple_tags(refs);
    lemma_last_greatest_is_max(tags);
    lemma_triple_tags_parse(refs);
    assert forall|i: int| 0 <= i < refs.len() && (#[trigger] tag_of_ref(refs[i])) is Some
        && version_triple(strip_v(tag_of_ref(refs[i]).unwrap())) is Some implies ({
            &&& latest_tag_version(refs) is Some
            &&& version_triple(latest_tag_version(refs).unwrap()) is Some
            &&& !crate::version::triple_below(
                version_triple(latest_tag_version(refs).unwrap()).unwrap(),
                version_triple(strip_v(tag_of_ref(refs[i]).unwrap())).unwrap(),
            )
        }) by {
        lemma_version_tag_listed(refs, i);
        let k = choose|k: int| 0 <= k < tags.len() && #[trigger] tags[k] == (tag_of_ref(refs[i]).unwrap(), version_triple(strip_v(tag_of_ref(refs[i]).unwrap())).unwrap());
        let b = last_greatest(tags).unwrap();
        let kb = choose|kb: int| 0 <= kb < tags.len() && tags[kb] == b;
        assert(version_triple(strip_v(tags[kb].0)) == Some(tags[kb].1));
        assert(!crate::version::triple_below(b.1, tags[k].1));
    }
    if let Some(l) = latest_tag_version(refs) {
        let b = last_greatest(tags).unwrap();
        let kb = choose|kb: int| 0 <= kb < tags.len() && tags[kb] == b;
        assert(version_triple(strip_v(tags[kb].0)) == Some(tags[kb].1));
        lemma_triple_tags_member(refs, kb);
        let t = version_triple(l).unwrap();
        if t.2 < u32::MAX {
            crate::version::lemma_parse_format_roundtrip(t.0, t.1, (t.2 + 1) as u32);
        }
    }
}

/// Every entry of [`triple_tags`] comes from a version tag among the
/// reference names.
proof fn lemma_triple_tags_member(refs: Seq<Seq<char>>, k: int)
    requires
        0 <= k < triple_tags(refs).len(),
    ensures
        exists|i: int| 0 <= i < refs.len() && (#[trigger] tag_of_ref(refs[i])) == Some(triple_tags(refs)[k].0),
    decreases refs.len(),
{
    let a = triple_tags(refs.drop_last());
    if k < a.len() {
        assert(triple_tags(refs)[k] == a[k]);
        lemma_triple_tags_member(refs.drop_last(), k);
        let i = choose|i: int| 0 <= i < refs.drop_last().len() && (#[trigger] tag_of_ref(refs.drop_last()[i])) == Some(a[k].0);
        assert(refs.drop_last()[i] == refs[i]);
    } else {
        assert(tag_of_ref(refs[refs.len() - 1]) == Some(triple_tags(refs)[k].0));
    }
}

/// Computes the latest tagged version and the next patch version.
///
/// Fails only when the patch component of the latest version cannot be
/// incremented within `u32`.
pub fn calculate_next_version(refs: &Vec<String>) -> (r: Result<(String, String), VersionError>)
    ensures
        match r {
            Ok((l, n)) => next_versions(strings_view(refs@)) == Some((l@, n@)),
            Err(e) => next_versions(strings_view(refs@)) is None && e is ComponentOverflow,
        },
{
    match get_latest_git_tag_version(refs) {
        None => {
            proof {
                reveal_strlit("0.0.0");
                reveal_strlit("0.0.1");
            }
            Ok((to_owned_string("0.0.0"), to_owned_string("0.0.1")))
        },
        Some(l) => {
            proof {
                lemma_latest_tag_parses(strings_view(refs@));
            }
            let (major, minor, patch) = match parse_version(l.as_str()) {
                Ok(t) => t,
                Err(e) => return Err(e),
            };
            if patch == u32::MAX {
                return Err(VersionError::ComponentOverflow);
            }
            let n = format_version(major, minor, patch + 1);
            Ok((l, n))
        },
    }
}

/// The latest release's version and the next patch version after it: `0.0.0`
/// and `0.0.1` when there is no release; the release's version as given and
/// its triple with the patch incremented otherwise.
pub open spec fn next_after_release_versions(release: Option<Seq<char>>) -> Option<(Seq<char>, Seq<char>)> {
    match release {
        None => Some(("0.0.0"@, "0.0.1"@)),
        Some(v) => match version_triple(v) {
            Some(t) => if t.2 < u32::MAX {
                Some((v, version_text(t.0, t.1, (t.2 + 1) as u32)))
            } else {
                None
            },
            None => None,
        },
    }
}

/// The latest release's version and the next patch version, from the
/// version of the latest GitHub release (`None` when the repository has
/// none). Fails when the release's version is not `X.Y.Z` (with an optional
/// `v`), and when its patch component cannot be incremented within `u32`.
pub fn next_after_release(release: &Option<String>) -> (r: Result<(String, String), VersionError>)
    ensures
        match r {
            Ok((l, n)) => next_after_release_versions(opt_string_view(*release)) == Some((l@, n@)),
            Err(e) => next_after_release_versions(opt_string_view(*release)) is None && match release {
                Some(v) => match version_triple(v@) {
                    None => invalid_format_of(e, v@),
                    Some(_) => e is ComponentOverflow,
                },
                None => false,
            },
        },
{
    match release {
        None => {
            proof {
                reveal_strlit("0.0.0");
                reveal_strlit("0.0.1");
            }
            Ok((to_owned_string("0.0.0"), to_owned_string("0.0.1")))
        },
        Some(v) => {
            let (major, minor, patch) = match parse_version(v.as_str()) {
                Ok(t) => t,
                Err(e) => return Err(e),
            };
            if patch == u32::MAX {
                return Err(VersionError::ComponentOverflow);
            }
            Ok((to_owned_string(v.as_str()), format_version(major, minor, patch + 1)))
        },
    }
}

/// The view of an optional string.
pub open spec fn opt_string_view(o: Option<String>) -> Option<Seq<char>> {
    match o {
        Some(s) => Some(s@),
        None => None,
    }
}

/// How a failed release query is reported.
#[derive(Debug)]
pub enum ReleaseQueryFailure {
    /// The repository has no release: not an error, there is no version.
    NoRelease,
    /// A clearer message, with the query's message as its context.
    Explained {
        /// The explanation.
        message: String,
        /// The query's message.
        context: String,
    },
    /// The query's error, unchanged.
    Unchanged,
}

/// How a release query failure with message `m` is reported, depending on
/// whether a token was used.
pub open spec fn release_failure(m: Seq<char>, has_token: bool) -> (Option<Seq<char>>, bool) {
    if crate::diff::contains(m, "No releases found"@) {
        (None, true)
    } else if crate::diff::contains(m, "404"@) || crate::diff::contains(m, "Not Found"@) {
        if !has_token {
            (Some("Repository not found or is private. For private repositories, set GITHUB_TOKEN environment variable or pass --github-token"@), false)
        } else {
            (None, false)
        }
    } else if crate::diff::contains(m, "403"@) || crate::diff::contains(m, "Forbidden"@) {
        (Some("Access forbidden. This may be a private repository. Ensure GITHUB_TOKEN has appropriate permissions."@), false)
    } else {
        (None, false)
    }
}

/// Whether `s` contains `t`.
fn contains_str(s: &str, t: &str) -> (r: bool)
    ensures
        r == crate::diff::contains(s@, t@),
{
    let sv = chars_of(s);
    let tv = chars_of(t);
    text_contains(&sv, &tv)
}

/// Classifies the failure of the latest-release query by its message: no
/// release at all is no error; not-found and forbidden responses get an
/// explanation (not-found only without a token); anything else is passed on.
pub fn classify_release_failure(message: &str, has_token: bool) -> (r: ReleaseQueryFailure)
    ensures
        ({
            let (explained, no_release) = release_failure(message@, has_token);
            match r {
                ReleaseQueryFailure::NoRelease => no_release,
                ReleaseQueryFailure::Explained { message: m, context: c } => !no_release
                    && explained == Some(m@) && c@ == message@,
                ReleaseQueryFailure::Unchanged => !no_release && explained is None,
            }
        }),
{
    if contains_str(message, "No releases found") {
        ReleaseQueryFailure::NoRelease
    } else if contains_str(message, "404") || contains_str(message, "Not Found") {
        if !has_token {
            ReleaseQueryFailure::Explained {
                message: to_owned_string(
                    "Repository not found or is private. For private repositories, set GITHUB_TOKEN environment variable or pass --github-token",
                ),
                context: to_owned_string(message),
            }
        } else {
            ReleaseQueryFailure::Unchanged
        }
    } else if contains_str(message, "403") || contains_str(message, "Forbidden") {
        ReleaseQueryFailure::Explained {
            message: to_owned_string(
                "Access forbidden. This may be a private repository. Ensure GITHUB_TOKEN has appropriate permissions.",
            ),
            context: to_owned_string(message),
        }
    } else {
        ReleaseQueryFailure::Unchanged
    }
}

/// `s` without one leading `c`.
pub open spec fn strip_char(s: Seq<char>, c: char) -> Seq<char> {
    if s.len() > 0 && s[0] == c {
        s.drop_first()
    } else {
        s
    }
}

/// The version of a release tag: the tag name without a leading `v`, then
/// without a leading `V`.
pub fn release_tag_version(tag_name: &str) -> (r: String)
    ensures
        r@ == strip_char(strip_char(tag_name@, 'v'), 'V'),
{
    let v = chars_of(tag_name);
    let a: usize = if v.len() > 0 && v[0] == 'v' { 1 } else { 0 };
    let b: usize = if a < v.len() && v[a] == 'V' { a + 1 } else { a };
    let r = string_from_range(&v, b, v.len());
    assert(r@ =~= strip_char(strip_char(tag_name@, 'v'), 'V'));
    r
}


/// Index of the tag that a stable ascending sort by version puts last among
/// the tags (names without `refs/tags/`) that are versions after one leading
/// `v` or `V`; -1 when none is.
pub open spec fn latest_tag_index(names: Seq<Seq<char>>) -> int
    decreases names.len(),
{
    if names.len() == 0 {
        -1
    } else {
        let b = latest_tag_index(names.drop_last());
        match version_triple(strip_v(names.last())) {
            Some(t) => if b < 0 || triple_order(t, version_triple(strip_v(names[b])).unwrap()) >= 0 {
                names.len() - 1
            } else {
                b
            },
            None => b,
        }
    }
}

proof fn lemma_latest_tag_index(names: Seq<Seq<char>>)
    ensures
        -1 <= latest_tag_index(names) < names.len(),
        latest_tag_index(names) >= 0 ==> version_triple(strip_v(names[latest_tag_index(names)])) is Some,
    decreases names.len(),
{
    if names.len() > 0 {
        lemma_latest_tag_index(names.drop_last());
    }
}

/// The index of the latest version tag among some tag names (without
/// `refs/tags/`); the later one of equal versions.
pub fn latest_version_tag_index(names: &Vec<String>) -> (r: Option<usize>)
    ensures
        match r {
            Some(i) => latest_tag_index(strings_view(names@)) == i as int,
            None => latest_tag_index(strings_view(names@)) == -1,
        },
{
    let ghost nv = strings_view(names@);
    let mut best: Option<(usize, (u32, u32, u32))> = None;
    let mut i: usize = 0;
    while i < names.len()
        invariant
            0 <= i <= names@.len(),
            nv == strings_view(names@),
            (match best {
                Some((b, t)) => latest_tag_index(nv.take(i as int)) == b as int && b < i
                    && version_triple(strip_v(nv[b as int])) == Some(t),
                None => latest_tag_index(nv.take(i as int)) == -1,
            }),
        decreases names.len() - i,
    {
        assert(nv.take(i + 1).drop_last() =~= nv.take(i as int));
        assert(nv.take(i + 1).last() == names@[i as int]@);
        proof {
            lemma_latest_tag_index(nv.take(i as int));
            if let Some((b, t)) = best {
                assert(nv.take(i + 1)[b as int] == nv[b as int]);
            }
        }
        let stripped = strip_one_v(names[i].as_str());
        match parse_version(stripped.as_str()) {
            Ok(v) => {
                let replace = match best {
                    None => true,
                    Some((_, t)) => crate::version::compare_triples(v, t) >= 0,
                };
                if replace {
                    best = Some((i, v));
                }
            },
            Err(_) => {},
        }
        i = i + 1;
    }
    assert(nv.take(names@.len() as int) =~= nv);
    match best {
        Some((b, _)) => Some(b),
        None => None,
    }
}


/// The next version is greater than the latest tagged version, and it
/// parses back to the incremented triple.
pub proof fn lemma_next_version_greater(refs: Seq<Seq<char>>)
    requires
        latest_tag_version(refs) is Some,
        next_versions(refs) is Some,
    ensures
        ({
            let (l, n) = next_versions(refs).unwrap();
            &&& version_triple(l) is Some
            &&& version_triple(n) is Some
            &&& triple_order(version_triple(n).unwrap(), version_triple(l).unwrap()) > 0
        }),
{
    lemma_latest_tag_parses(refs);
    let l = latest_tag_version(refs).unwrap();
    let t = version_triple(l).unwrap();
    crate::version::lemma_parse_format_roundtrip(t.0, t.1, (t.2 + 1) as u32);
}

} // verus!
