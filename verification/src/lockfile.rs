//! Structural staging of `Cargo.lock`: only the `[[package]]` blocks of
//! local (workspace) packages move from the working copy into the content
//! recorded in `HEAD`; every other byte of `HEAD` stays as it is.
//!
//! A block starts at a line whose text (without trailing whitespace) is
//! `[[package]]` and runs up to the next line that starts a TOML section
//! (its text, without trailing whitespace, begins with `[`) or to the end of
//! the file. A block is local when one of its lines, trimmed, is exactly
//! `name = "<crate>"` and none of its trimmed lines starts with `source = `.
use vstd::prelude::*;
use crate::text::{
    chars_equal, chars_of, lemma_line_end_bounds, line_end, line_end_at, push_str, range_equals,
    range_starts_with, starts_with, string_from_chars, to_owned_string, trim_end_of, trim_hi_at,
    trim_lo_at, trim_of,
};

verus! {

/// Error of staging a lockfile.
#[derive(Debug, PartialEq, Eq)]
pub enum LockfileError {
    /// The working `Cargo.lock` has no local block for the crate.
    CrateNotFound(String),
}

/// The description of a lockfile error.
pub open spec fn lockfile_error_text(e: LockfileError) -> Seq<char> {
    match e {
        LockfileError::CrateNotFound(name) => "crate `"@ + name@ + "` not found in working Cargo.lock"@,
    }
}

impl LockfileError {
    /// Human-readable description of the error.
    pub fn message(&self) -> (r: String)
        ensures
            r@ == lockfile_error_text(*self),
    {
        match self {
            LockfileError::CrateNotFound(name) => {
                let mut m = to_owned_string("crate `");
                push_str(&mut m, name.as_str());
                push_str(&mut m, "` not found in working Cargo.lock");
                m
            },
        }
    }
}

/// The crate that a [`LockfileError`] reports.
pub open spec fn missing_crate(e: LockfileError) -> Seq<char> {
    match e {
        LockfileError::CrateNotFound(n) => n@,
    }
}

/// The text `[[package]]`.
pub open spec fn package_header() -> Seq<char> {
    seq!['[', '[', 'p', 'a', 'c', 'k', 'a', 'g', 'e', ']', ']']
}

/// The text `source = `.
pub open spec fn source_prefix() -> Seq<char> {
    seq!['s', 'o', 'u', 'r', 'c', 'e', ' ', '=', ' ']
}

/// The line `name = "<crate_name>"` that identifies a package block.
pub open spec fn name_line(crate_name: Seq<char>) -> Seq<char> {
    seq!['n', 'a', 'm', 'e', ' ', '=', ' ', '"'] + crate_name + seq!['"']
}

/// The line starting at `k` opens a `[[package]]` block.
pub open spec fn is_package_header_line(s: Seq<char>, k: int) -> bool {
    trim_end_of(s, k, line_end(s, k, s.len() as int)) == package_header()
}

/// The line starting at `k` opens a TOML section of any kind.
pub open spec fn is_section_line(s: Seq<char>, k: int) -> bool {
    let t = trim_end_of(s, k, line_end(s, k, s.len() as int));
    t.len() > 0 && t[0] == '['
}

/// Start of the first section line at or after the line start `k`, or the
/// end of `s`.
pub open spec fn next_section(s: Seq<char>, k: int) -> int
    decreases s.len() - k,
{
    if k < 0 || k >= s.len() {
        s.len() as int
    } else if is_section_line(s, k) {
        k
    } else {
        proof {
            lemma_line_end_bounds(s, k, s.len() as int);
        }
        next_section(s, line_end(s, k, s.len() as int))
    }
}

/// Some line starting in `[k, e)`, trimmed, equals `t`.
pub open spec fn some_line_is(s: Seq<char>, k: int, e: int, t: Seq<char>) -> bool
    decreases e - k,
{
    if k < 0 || k >= e || e > s.len() {
        false
    } else {
        proof {
            lemma_line_end_bounds(s, k, e);
        }
        trim_of(s, k, line_end(s, k, e)) == t || some_line_is(s, line_end(s, k, e), e, t)
    }
}

/// Some line starting in `[k, e)`, trimmed, starts with `p`.
pub open spec fn some_line_starts_with(s: Seq<char>, k: int, e: int, p: Seq<char>) -> bool
    decreases e - k,
{
    if k < 0 || k >= e || e > s.len() {
        false
    } else {
        proof {
            lemma_line_end_bounds(s, k, e);
        }
        starts_with(trim_of(s, k, line_end(s, k, e)), p) || some_line_starts_with(
            s,
            line_end(s, k, e),
            e,
            p,
        )
    }
}

/// The block `s[a..e]` names the crate whose name line is `target` and has no
/// `source`, i.e. it belongs to a local package rather than a dependency.
pub open spec fn is_local_block(s: Seq<char>, a: int, e: int, target: Seq<char>) -> bool {
    some_line_is(s, a, e, target) && !some_line_starts_with(s, a, e, source_prefix())
}

/// The first local block for `target` among the blocks opened at line starts
/// at or after `k`.
pub open spec fn first_local_block(s: Seq<char>, target: Seq<char>, k: int) -> Option<(int, int)>
    decreases s.len() - k,
{
    if k < 0 || k >= s.len() {
        None
    } else {
        proof {
            lemma_line_end_bounds(s, k, s.len() as int);
        }
        let le = line_end(s, k, s.len() as int);
        if is_package_header_line(s, k) && is_local_block(s, k, next_section(s, le), target) {
            Some((k, next_section(s, le)))
        } else {
            first_local_block(s, target, le)
        }
    }
}

/// The character range of the crate's local `[[package]]` block in a lockfile.
pub open spec fn package_block(s: Seq<char>, crate_name: Seq<char>) -> Option<(int, int)> {
    first_local_block(s, name_line(crate_name), 0)
}

/// `head` with the crate's block replaced by the crate's block of `working`;
/// `None` when `working` has no such block. When `head` has no such block it
/// is returned unchanged.
pub open spec fn spliced(head: Seq<char>, working: Seq<char>, crate_name: Seq<char>) -> Option<
    Seq<char>,
> {
    match package_block(working, crate_name) {
        None => None,
        Some((ws, we)) => match package_block(head, crate_name) {
            Some((hs, he)) => Some(
                head.subrange(0, hs) + working.subrange(ws, we) + head.subrange(he, head.len() as int),
            ),
            None => Some(head),
        },
    }
}

/// Splices the block of every listed package, in order, skipping packages
/// that the partially staged content does not have; `Err(name)` names the
/// first package that the working copy lacks.
pub open spec fn spliced_all(staged: Seq<char>, working: Seq<char>, names: Seq<Seq<char>>) -> Result<
    Seq<char>,
    Seq<char>,
>
    decreases names.len(),
{
    if names.len() == 0 {
        Ok(staged)
    } else if package_block(staged, names[0]).is_none() {
        spliced_all(staged, working, names.drop_first())
    } else {
        match spliced(staged, working, names[0]) {
            None => Err(names[0]),
            Some(next) => spliced_all(next, working, names.drop_first()),
        }
    }
}

fn package_header_chars() -> (v: Vec<char>)
    ensures
        v@ == package_header(),
{
    let v = vec!['[', '[', 'p', 'a', 'c', 'k', 'a', 'g', 'e', ']', ']'];
    assert(v@ =~= package_header());
    v
}

fn source_prefix_chars() -> (v: Vec<char>)
    ensures
        v@ == source_prefix(),
{
    let v = vec!['s', 'o', 'u', 'r', 'c', 'e', ' ', '=', ' '];
    assert(v@ =~= source_prefix());
    v
}

fn name_line_chars(crate_name: &str) -> (v: Vec<char>)
    ensures
        v@ == name_line(crate_name@),
{
    let mut v = vec!['n', 'a', 'm', 'e', ' ', '=', ' ', '"'];
    let mut c = chars_of(crate_name);
    v.append(&mut c);
    v.push('"');
    assert(v@ =~= name_line(crate_name@));
    v
}

/// The trimmed text of `v[a..b]` equals `t`.
fn trimmed_is(v: &Vec<char>, a: usize, b: usize, t: &Vec<char>) -> (r: bool)
    requires
        a <= b <= v@.len(),
    ensures
        r == (trim_of(v@, a as int, b as int) == t@),
{
    let lo = trim_lo_at(v, a, b);
    let hi = trim_hi_at(v, a, b);
    if lo < hi {
        range_equals(v, lo, hi, t)
    } else {
        proof {
            if t@.len() == 0 {
                assert(t@ =~= Seq::<char>::empty());
            }
        }
        t.len() == 0
    }
}

/// The trimmed text of `v[a..b]` starts with `t`.
fn trimmed_starts_with(v: &Vec<char>, a: usize, b: usize, t: &Vec<char>) -> (r: bool)
    requires
        a <= b <= v@.len(),
    ensures
        r == starts_with(trim_of(v@, a as int, b as int), t@),
{
    let lo = trim_lo_at(v, a, b);
    let hi = trim_hi_at(v, a, b);
    if lo < hi {
        range_starts_with(v, lo, hi, t)
    } else {
        proof {
            if t@.len() == 0 {
                assert(Seq::<char>::empty().subrange(0, 0) =~= t@);
            }
        }
        t.len() == 0
    }
}

/// Classifies the line `v[k..le]`: (opens any section, opens a package block).
fn section_kind(v: &Vec<char>, k: usize, le: usize, header: &Vec<char>) -> (r: (bool, bool))
    requires
        k < le <= v@.len(),
        le as int == line_end(v@, k as int, v@.len() as int),
        header@ == package_header(),
    ensures
        r.0 == is_section_line(v@, k as int),
        r.1 == is_package_header_line(v@, k as int),
{
    let hi = trim_hi_at(v, k, le);
    let is_section = hi > k && v[k] == '[';
    let is_package = range_equals(v, k, hi, header);
    (is_section, is_package)
}

/// Start of the next section line at or after the line start `k`.
fn next_section_at(v: &Vec<char>, k: usize) -> (r: usize)
    requires
        k <= v@.len(),
    ensures
        r as int == next_section(v@, k as int),
        k <= r <= v@.len(),
{
    let header = package_header_chars();
    let mut i = k;
    while i < v.len()
        invariant
            k <= i <= v@.len(),
            header@ == package_header(),
            next_section(v@, i as int) == next_section(v@, k as int),
        decreases v.len() - i,
    {
        let le = line_end_at(v, i, v.len());
        let (is_section, _) = section_kind(v, i, le, &header);
        if is_section {
            return i;
        }
        i = le;
    }
    i
}

/// Decides whether the block `v[a..e]` is the local block of the package
/// whose name line is `target`.
fn is_local_package_block(v: &Vec<char>, a: usize, e: usize, target: &Vec<char>) -> (r: bool)
    requires
        a <= e <= v@.len(),
    ensures
        r == is_local_block(v@, a as int, e as int, target@),
{
    let source = source_prefix_chars();
    let mut has_target_name = false;
    let mut has_source = false;
    let mut k = a;
    while k < e
        invariant
            a <= k <= e <= v@.len(),
            source@ == source_prefix(),
            some_line_is(v@, a as int, e as int, target@) == (has_target_name || some_line_is(
                v@,
                k as int,
                e as int,
                target@,
            )),
            some_line_starts_with(v@, a as int, e as int, source_prefix()) == (has_source
                || some_line_starts_with(v@, k as int, e as int, source_prefix())),
        decreases e - k,
    {
        let le = line_end_at(v, k, e);
        has_target_name = has_target_name || trimmed_is(v, k, le, target);
        has_source = has_source || trimmed_starts_with(v, k, le, &source);
        k = le;
    }
    has_target_name && !has_source
}

/// Locates the local `[[package]]` block of the package whose name line is
/// `target`: the character range from its header line up to the next
/// section line or the end of the file.
fn find_package_block(v: &Vec<char>, target: &Vec<char>) -> (r: Option<(usize, usize)>)
    ensures
        match r {
            Some((a, b)) => first_local_block(v@, target@, 0) == Some((a as int, b as int)) && a
                <= b <= v@.len(),
            None => first_local_block(v@, target@, 0).is_none(),
        },
{
    let header = package_header_chars();
    let mut k: usize = 0;
    while k < v.len()
        invariant
            k <= v@.len(),
            header@ == package_header(),
            first_local_block(v@, target@, k as int) == first_local_block(v@, target@, 0),
        decreases v.len() - k,
    {
        let le = line_end_at(v, k, v.len());
        let (_, is_package) = section_kind(v, k, le, &header);
        if is_package {
            let e = next_section_at(v, le);
            if is_local_package_block(v, k, e, target) {
                return Some((k, e));
            }
        }
        k = le;
    }
    None
}

/// Copies `v[a..b]` onto the end of `out`.
fn extend_range(out: &mut Vec<char>, v: &Vec<char>, a: usize, b: usize)
    requires
        a <= b <= v@.len(),
    ensures
        final(out)@ == old(out)@ + v@.subrange(a as int, b as int),
{
    let mut i = a;
    while i < b
        invariant
            a <= i <= b <= v@.len(),
            out@ == old(out)@ + v@.subrange(a as int, i as int),
        decreases b - i,
    {
        out.push(v[i]);
        assert(v@.subrange(a as int, i + 1) == v@.subrange(a as int, i as int).push(v@[i as int]));
        i = i + 1;
    }
}

/// Splices the crate's block of `working` into `head` (character vectors).
fn splice_block(head: &Vec<char>, working: &Vec<char>, crate_name: &str) -> (r: Option<Vec<char>>)
    ensures
        match r {
            Some(out) => spliced(head@, working@, crate_name@) == Some(out@),
            None => spliced(head@, working@, crate_name@).is_none(),
        },
{
    let target = name_line_chars(crate_name);
    let (ws, we) = match find_package_block(working, &target) {
        Some(range) => range,
        None => {
            return None;
        },
    };
    match find_package_block(head, &target) {
        Some((hs, he)) => {
            let mut out: Vec<char> = Vec::new();
            extend_range(&mut out, head, 0, hs);
            extend_range(&mut out, working, ws, we);
            extend_range(&mut out, head, he, head.len());
            assert(out@ =~= head@.subrange(0, hs as int) + working@.subrange(ws as int, we as int)
                + head@.subrange(he as int, head@.len() as int));
            Some(out)
        },
        None => Some(head.clone()),
    }
}

/// Splices our crate's `[[package]]` block from `working_content` into
/// `head_content`, leaving every other character of `head_content` as it is.
///
/// When `head_content` has no block for the crate it is returned unchanged.
/// The version arguments are accepted for API compatibility and not consulted.
pub fn apply_cargo_lock_version_hunks(
    head_content: &str,
    working_content: &str,
    crate_name: &str,
    _old_version: &str,
    _new_version: &str,
) -> (r: Result<String, LockfileError>)
    ensures
        match r {
            Ok(out) => spliced(head_content@, working_content@, crate_name@) == Some(out@),
            Err(e) => spliced(head_content@, working_content@, crate_name@).is_none()
                && missing_crate(e) == crate_name@,
        },
{
    let head = chars_of(head_content);
    let working = chars_of(working_content);
    match splice_block(&head, &working, crate_name) {
        Some(out) => Ok(string_from_chars(&out)),
        None => Err(LockfileError::CrateNotFound(to_owned_string(crate_name))),
    }
}

/// The views of a list of package names.
pub open spec fn name_views(names: Seq<String>) -> Seq<Seq<char>> {
    names.map_values(|n: String| n@)
}

/// Splices every listed local workspace package block from the working
/// lockfile into the lockfile recorded in `HEAD`, in list order. Packages
/// that `HEAD` does not list are skipped; registry and git dependency blocks
/// stay as they are in `HEAD`. When the listed packages' blocks lie apart,
/// the order of the list does not matter
/// ([`lemma_splice_order_independent`]).
pub fn apply_workspace_cargo_lock_version_hunks(
    head_content: &str,
    working_content: &str,
    workspace_package_names: &[String],
    _old_version: &str,
    _new_version: &str,
) -> (r: Result<String, LockfileError>)
    ensures
        match r {
            Ok(out) => spliced_all(head_content@, working_content@, name_views(
                workspace_package_names@,
            )) == Ok::<Seq<char>, Seq<char>>(out@),
            Err(e) => spliced_all(head_content@, working_content@, name_views(
                workspace_package_names@,
            )) == Err::<Seq<char>, Seq<char>>(missing_crate(e)),
        },
{
    let working = chars_of(working_content);
    let mut staged = chars_of(head_content);
    let ghost names = name_views(workspace_package_names@);
    assert(names.skip(0) =~= names);
    let mut i: usize = 0;
    while i < workspace_package_names.len()
        invariant
            0 <= i <= workspace_package_names@.len(),
            names == name_views(workspace_package_names@),
            working@ == working_content@,
            spliced_all(head_content@, working_content@, names) == spliced_all(
                staged@,
                working_content@,
                names.skip(i as int),
            ),
        decreases workspace_package_names.len() - i,
    {
        let name = workspace_package_names[i].as_str();
        assert(names.skip(i as int).drop_first() =~= names.skip(i + 1));
        assert(names.skip(i as int)[0] == name@);
        let target = name_line_chars(name);
        if find_package_block(&staged, &target).is_some() {
            match splice_block(&staged, &working, name) {
                Some(next) => {
                    staged = next;
                },
                None => {
                    return Err(LockfileError::CrateNotFound(to_owned_string(name)));
                },
            }
        }
        i = i + 1;
    }
    assert(names.skip(i as int) =~= Seq::<Seq<char>>::empty());
    Ok(string_from_chars(&staged))
}

/// The lockfile differs from `HEAD` outside the local workspace package
/// blocks: staging those blocks does not reproduce the working copy, or a
/// listed package is missing from the working copy.
pub fn has_non_workspace_cargo_lock_version_changes(
    head_content: &str,
    working_content: &str,
    workspace_package_names: &[String],
    old_version: &str,
    new_version: &str,
) -> (r: bool)
    ensures
        r == match spliced_all(head_content@, working_content@, name_views(
            workspace_package_names@,
        )) {
            Ok(staged) => staged != working_content@,
            Err(_) => true,
        },
{
    match apply_workspace_cargo_lock_version_hunks(
        head_content,
        working_content,
        workspace_package_names,
        old_version,
        new_version,
    ) {
        Ok(staged) => {
            let a = chars_of(staged.as_str());
            let b = chars_of(working_content);
            !chars_equal(&a, &b)
        },
        Err(_) => true,
    }
}

/// The working lockfile differs from `HEAD` outside our crate's
/// `[[package]]` block.
pub fn has_non_cargo_lock_version_changes(
    head_content: &str,
    working_content: &str,
    crate_name: &str,
    _old_version: &str,
    _new_version: &str,
) -> (r: bool)
    ensures
        r == match spliced(head_content@, working_content@, crate_name@) {
            Some(staged) => staged != working_content@,
            None => true,
        },
{
    match apply_cargo_lock_version_hunks(head_content, working_content, crate_name, "", "") {
        Ok(staged) => {
            let a = chars_of(staged.as_str());
            let b = chars_of(working_content);
            !chars_equal(&a, &b)
        },
        Err(_) => true,
    }
}


proof fn lemma_next_section_bounds(s: Seq<char>, k: int)
    requires
        0 <= k <= s.len(),
    ensures
        k <= next_section(s, k) <= s.len(),
    decreases s.len() - k,
{
    if k < s.len() && !is_section_line(s, k) {
        lemma_line_end_bounds(s, k, s.len() as int);
        lemma_next_section_bounds(s, line_end(s, k, s.len() as int));
    }
}

/// A located block lies within the lockfile and starts at or after `k`.
pub proof fn lemma_first_local_block_bounds(s: Seq<char>, target: Seq<char>, k: int)
    requires
        0 <= k,
    ensures
        first_local_block(s, target, k) matches Some((a, b)) ==> k <= a <= b <= s.len(),
    decreases s.len() - k,
{
    if k < s.len() {
        lemma_line_end_bounds(s, k, s.len() as int);
        let le = line_end(s, k, s.len() as int);
        lemma_next_section_bounds(s, le);
        lemma_first_local_block_bounds(s, target, le);
    }
}

/// Staging a lockfile against an identical working copy gives it back
/// unchanged: nothing outside the crate's block differs.
pub proof fn lemma_splice_identical(lock: Seq<char>, crate_name: Seq<char>)
    requires
        package_block(lock, crate_name).is_some(),
    ensures
        spliced(lock, lock, crate_name) == Some(lock),
{
    lemma_first_local_block_bounds(lock, name_line(crate_name), 0);
    let (a, b) = package_block(lock, crate_name).unwrap();
    assert(lock.subrange(0, a) + lock.subrange(a, b) + lock.subrange(b, lock.len() as int) =~= lock);
}

/// Splicing keeps `HEAD` outside the crate's block: the staged lockfile
/// starts with everything of `HEAD` before the block, continues with the
/// working copy's block and ends with everything of `HEAD` after the block.
pub proof fn lemma_splice_frames_block(head: Seq<char>, working: Seq<char>, crate_name: Seq<char>)
    requires
        package_block(head, crate_name).is_some(),
        package_block(working, crate_name).is_some(),
    ensures
        ({
            let (hs, he) = package_block(head, crate_name).unwrap();
            let (ws, we) = package_block(working, crate_name).unwrap();
            let out = spliced(head, working, crate_name).unwrap();
            &&& out.len() == head.len() - (he - hs) + (we - ws)
            &&& out.subrange(0, hs) == head.subrange(0, hs)
            &&& out.subrange(hs, hs + (we - ws)) == working.subrange(ws, we)
            &&& out.subrange(hs + (we - ws), out.len() as int) == head.subrange(he, head.len() as int)
        }),
{
    lemma_first_local_block_bounds(head, name_line(crate_name), 0);
    lemma_first_local_block_bounds(working, name_line(crate_name), 0);
    let (hs, he) = package_block(head, crate_name).unwrap();
    let (ws, we) = package_block(working, crate_name).unwrap();
    let out = spliced(head, working, crate_name).unwrap();
    assert(out.subrange(0, hs) =~= head.subrange(0, hs));
    assert(out.subrange(hs, hs + (we - ws)) =~= working.subrange(ws, we));
    assert(out.subrange(hs + (we - ws), out.len() as int) =~= head.subrange(he, head.len() as int));
}


/// `y` repeats `x[lo..hi]` shifted by `d` places.
pub open spec fn agree(x: Seq<char>, y: Seq<char>, lo: int, hi: int, d: int) -> bool {
    &&& 0 <= lo <= hi <= x.len()
    &&& 0 <= lo + d
    &&& hi + d <= y.len()
    &&& forall|q: int| lo <= q < hi ==> y[q + d] == #[trigger] x[q]
}

proof fn lemma_agree_sub(x: Seq<char>, y: Seq<char>, lo: int, hi: int, d: int, lo2: int, hi2: int)
    requires
        agree(x, y, lo, hi, d),
        lo <= lo2 <= hi2 <= hi,
    ensures
        agree(x, y, lo2, hi2, d),
{
}

/// A line opens a section exactly when its first character is `[`.
proof fn lemma_section_line_bracket(s: Seq<char>, k: int)
    requires
        0 <= k < s.len(),
    ensures
        is_section_line(s, k) <==> s[k] == '[',
{
    lemma_line_end_bounds(s, k, s.len() as int);
    let le = line_end(s, k, s.len() as int);
    crate::text::lemma_trim_hi_bounds(s, k, le);
    let h = crate::text::trim_hi(s, k, le);
    if s[k] == '[' {
        assert(!crate::text::is_ws('['));
        if h <= k {
            assert(crate::text::is_ws(s[k]));
        }
        assert(trim_end_of(s, k, le)[0] == s[k]);
    }
    if is_section_line(s, k) {
        assert(trim_end_of(s, k, le)[0] == s[k]);
    }
}

/// A `[[package]]` line opens a section.
proof fn lemma_header_is_section(s: Seq<char>, k: int)
    requires
        0 <= k < s.len(),
        is_package_header_line(s, k),
    ensures
        is_section_line(s, k),
        s[k] == '[',
{
    let le = line_end(s, k, s.len() as int);
    assert(trim_end_of(s, k, le) == package_header());
    assert(trim_end_of(s, k, le).len() > 0 && trim_end_of(s, k, le)[0] == '[');
    lemma_section_line_bracket(s, k);
}

/// The line that starts at `k` ends at the same place in a copy, when the
/// copy repeats it with its newline (or both texts end with it).
proof fn lemma_line_end_agree(x: Seq<char>, y: Seq<char>, k: int, hi: int, d: int)
    requires
        agree(x, y, k, hi, d),
        k < hi,
        line_end(x, k, x.len() as int) <= hi,
        x[line_end(x, k, x.len() as int) - 1] == '\n' || (line_end(x, k, x.len() as int) == x.len()
            && x.len() + d == y.len()),
    ensures
        line_end(y, k + d, y.len() as int) == line_end(x, k, x.len() as int) + d,
    decreases hi - k,
{
    assert(y[k + d] == x[k]);
    if x[k] != '\n' {
        lemma_line_end_bounds(x, k, x.len() as int);
        if k + 1 < line_end(x, k, x.len() as int) {
            lemma_line_end_agree(x, y, k + 1, hi, d);
        } else {
            assert(line_end(x, k, x.len() as int) == k + 1);
            assert(k + 1 == x.len());
            assert(x.len() + d == y.len());
            assert(line_end(y, k + d + 1, y.len() as int) == y.len());
        }
    }
}

/// Trimming `[a, b)` gives the same bounds, shifted, in a copy.
proof fn lemma_trim_agree(x: Seq<char>, y: Seq<char>, a: int, b: int, d: int)
    requires
        agree(x, y, a, b, d),
    ensures
        crate::text::trim_hi(y, a + d, b + d) == crate::text::trim_hi(x, a, b) + d,
        crate::text::trim_lo(y, a + d, b + d) == crate::text::trim_lo(x, a, b) + d,
        trim_end_of(y, a + d, b + d) == trim_end_of(x, a, b),
        trim_of(y, a + d, b + d) == trim_of(x, a, b),
    decreases b - a,
{
    if a < b {
        assert(y[b - 1 + d] == x[b - 1]);
        assert(y[a + d] == x[a]);
        lemma_trim_agree(x, y, a, b - 1, d);
        lemma_trim_agree(x, y, a + 1, b, d);
    }
    crate::text::lemma_trim_hi_bounds(x, a, b);
    crate::text::lemma_trim_lo_bounds(x, a, b);
    let h = crate::text::trim_hi(x, a, b);
    let l = crate::text::trim_lo(x, a, b);
    assert(trim_end_of(y, a + d, b + d) =~= trim_end_of(x, a, b)) by {
        assert forall|q: int| 0 <= q < h - a implies trim_end_of(y, a + d, b + d)[q] == trim_end_of(x, a, b)[q] by {
            assert(y[(a + q) + d] == x[a + q]);
        }
    }
    if l < h {
        assert(trim_of(y, a + d, b + d) =~= trim_of(x, a, b)) by {
            assert forall|q: int| 0 <= q < h - l implies trim_of(y, a + d, b + d)[q] == trim_of(x, a, b)[q] by {
                assert(y[(l + q) + d] == x[l + q]);
            }
        }
    }
}

/// The line scan bounded by `e` gives the same end, shifted, in a copy.
proof fn lemma_bounded_line_end_agree(x: Seq<char>, y: Seq<char>, k: int, e: int, d: int)
    requires
        agree(x, y, k, e, d),
    ensures
        line_end(y, k + d, e + d) == line_end(x, k, e) + d,
    decreases e - k,
{
    if k < e {
        assert(y[k + d] == x[k]);
        lemma_bounded_line_end_agree(x, y, k + 1, e, d);
    }
}

/// Line searches inside `[k, e)` give the same answers in a copy.
proof fn lemma_line_search_agree(x: Seq<char>, y: Seq<char>, k: int, e: int, d: int, t: Seq<char>)
    requires
        agree(x, y, k, e, d),
    ensures
        some_line_is(y, k + d, e + d, t) == some_line_is(x, k, e, t),
        some_line_starts_with(y, k + d, e + d, t) == some_line_starts_with(x, k, e, t),
    decreases e - k,
{
    if k < e {
        lemma_line_end_bounds(x, k, e);
        let le = line_end(x, k, e);
        lemma_bounded_line_end_agree(x, y, k, e, d);
        lemma_trim_agree(x, y, k, le, d);
        lemma_line_search_agree(x, y, le, e, d, t);
    }
}

/// A block is local in a copy exactly when it is local in the original.
proof fn lemma_local_block_agree(x: Seq<char>, y: Seq<char>, k: int, e: int, d: int, t: Seq<char>)
    requires
        agree(x, y, k, e, d),
    ensures
        is_local_block(y, k + d, e + d, t) == is_local_block(x, k, e, t),
{
    lemma_line_search_agree(x, y, k, e, d, t);
    lemma_line_search_agree(x, y, k, e, d, source_prefix());
}

/// A line is a `[[package]]` line in a copy exactly when it is one in the
/// original.
proof fn lemma_header_agree(x: Seq<char>, y: Seq<char>, k: int, hi: int, d: int)
    requires
        agree(x, y, k, hi, d),
        k < hi,
        line_end(x, k, x.len() as int) <= hi,
        x[line_end(x, k, x.len() as int) - 1] == '\n' || (line_end(x, k, x.len() as int) == x.len()
            && x.len() + d == y.len()),
    ensures
        line_end(y, k + d, y.len() as int) == line_end(x, k, x.len() as int) + d,
        is_package_header_line(y, k + d) == is_package_header_line(x, k),
        is_section_line(y, k + d) == is_section_line(x, k),
{
    lemma_line_end_agree(x, y, k, hi, d);
    lemma_line_end_bounds(x, k, x.len() as int);
    let le = line_end(x, k, x.len() as int);
    lemma_agree_sub(x, y, k, hi, d, k, le);
    lemma_trim_agree(x, y, k, le, d);
}


/// The section scan stops right after a newline, at a section line.
proof fn lemma_next_section_stop(s: Seq<char>, k: int)
    requires
        0 <= k <= s.len(),
    ensures
        k <= next_section(s, k) <= s.len(),
        next_section(s, k) < s.len() ==> s[next_section(s, k)] == '[',
        k < next_section(s, k) < s.len() ==> s[next_section(s, k) - 1] == '\n',
        k < next_section(s, k) ==> k < s.len() && !is_section_line(s, k),
    decreases s.len() - k,
{
    lemma_next_section_bounds(s, k);
    if k < s.len() {
        lemma_section_line_bracket(s, k);
        if !is_section_line(s, k) {
            lemma_line_end_bounds(s, k, s.len() as int);
            let le = line_end(s, k, s.len() as int);
            lemma_next_section_stop(s, le);
        }
    }
}

/// The section scan from `k` gives the same answer, shifted, in a copy that
/// repeats the scanned lines and has a section line (or its end) where the
/// scan stops.
proof fn lemma_next_section_agree(x: Seq<char>, y: Seq<char>, k: int, d: int)
    requires
        0 <= k <= x.len(),
        agree(x, y, k, next_section(x, k), d),
        next_section(x, k) == k || x[next_section(x, k) - 1] == '\n' || next_section(x, k) + d == y.len(),
        next_section(x, k) + d == y.len() || (next_section(x, k) + d < y.len() && y[next_section(x, k) + d] == '['),
    ensures
        next_section(y, k + d) == next_section(x, k) + d,
    decreases x.len() - k,
{
    lemma_next_section_stop(x, k);
    let n = next_section(x, k);
    if n == k {
        if k + d < y.len() {
            lemma_section_line_bracket(y, k + d);
        }
    } else {
        lemma_section_line_bracket(x, k);
        assert(y[k + d] == x[k]);
        lemma_section_line_bracket(y, k + d);
        lemma_line_end_bounds(x, k, x.len() as int);
        let le = line_end(x, k, x.len() as int);
        lemma_next_section_bounds(x, le);
        lemma_line_end_agree(x, y, k, n, d);
        lemma_next_section_agree(x, y, le, d);
    }
}

/// Following line ends from `k` lands on `m`.
pub open spec fn reaches(s: Seq<char>, k: int, m: int) -> bool
    decreases s.len() - k,
{
    if k == m {
        true
    } else if 0 <= k < m && k < s.len() {
        proof {
            lemma_line_end_bounds(s, k, s.len() as int);
        }
        reaches(s, line_end(s, k, s.len() as int), m)
    } else {
        false
    }
}

/// The block search lands on the start of the block it finds.
proof fn lemma_found_block_reached(s: Seq<char>, t: Seq<char>, k: int)
    requires
        0 <= k,
        first_local_block(s, t, k) is Some,
    ensures
        reaches(s, k, first_local_block(s, t, k).unwrap().0),
        first_local_block(s, t, first_local_block(s, t, k).unwrap().0) == first_local_block(s, t, k),
    decreases s.len() - k,
{
    lemma_line_end_bounds(s, k, s.len() as int);
    let le = line_end(s, k, s.len() as int);
    if first_local_block(s, t, k).unwrap().0 != k {
        lemma_found_block_reached(s, t, le);
        lemma_first_local_block_bounds(s, t, le);
    }
}

/// A section line that the line walk reaches bounds the section scan.
proof fn lemma_section_scan_before(s: Seq<char>, k: int, p: int)
    requires
        0 <= k,
        reaches(s, k, p),
        p < s.len(),
        s[p] == '[',
    ensures
        next_section(s, k) <= p,
    decreases s.len() - k,
{
    lemma_section_line_bracket(s, p);
    if k != p && !is_section_line(s, k) {
        lemma_line_end_bounds(s, k, s.len() as int);
        lemma_section_scan_before(s, line_end(s, k, s.len() as int), p);
    }
}

/// No block starts on the non-section lines that the section scan passes.
proof fn lemma_skip_to_section(s: Seq<char>, t: Seq<char>, k: int)
    requires
        0 <= k <= s.len(),
    ensures
        first_local_block(s, t, k) == first_local_block(s, t, next_section(s, k)),
    decreases s.len() - k,
{
    if k < s.len() && !is_section_line(s, k) {
        if is_package_header_line(s, k) {
            lemma_header_is_section(s, k);
        }
        lemma_line_end_bounds(s, k, s.len() as int);
        lemma_skip_to_section(s, t, line_end(s, k, s.len() as int));
    }
}

/// When the search for `t1` finds a block at `p` and the search for `t2`
/// finds none before `p`, the search for `t2` may start at `p`.
proof fn lemma_search_passes(s: Seq<char>, t1: Seq<char>, t2: Seq<char>, k: int)
    requires
        0 <= k,
        first_local_block(s, t1, k) is Some,
        match first_local_block(s, t2, k) {
            Some((p2, _)) => p2 > first_local_block(s, t1, k).unwrap().0,
            None => true,
        },
    ensures
        first_local_block(s, t2, k) == first_local_block(s, t2, first_local_block(s, t1, k).unwrap().0),
    decreases s.len() - k,
{
    let p = first_local_block(s, t1, k).unwrap().0;
    lemma_first_local_block_bounds(s, t1, k);
    if p != k {
        lemma_line_end_bounds(s, k, s.len() as int);
        lemma_search_passes(s, t1, t2, line_end(s, k, s.len() as int));
    }
}

/// A copy that repeats `x[..m]` runs the block search from `k` up to `p` the
/// same way, when `x` finds nothing before `p`.
proof fn lemma_prefix_scan(x: Seq<char>, y: Seq<char>, t: Seq<char>, k: int, p: int, m: int)
    requires
        0 <= k <= p < x.len(),
        p <= m,
        agree(x, y, 0, m, 0),
        reaches(x, k, p),
        x[p] == '[',
        p < m || (p < y.len() && y[p] == '['),
        first_local_block(x, t, k) == first_local_block(x, t, p),
    ensures
        first_local_block(y, t, k) == first_local_block(y, t, p),
    decreases x.len() - k,
{
    if k != p {
        lemma_line_end_bounds(x, k, x.len() as int);
        let le = line_end(x, k, x.len() as int);
        assert(reaches(x, le, p));
        lemma_agree_sub(x, y, 0, m, 0, k, m);
        lemma_header_agree(x, y, k, m, 0);
        lemma_section_scan_before(x, le, p);
        lemma_next_section_stop(x, le);
        let n = next_section(x, le);
        lemma_agree_sub(x, y, 0, m, 0, le, n);
        if n < m {
            assert(y[n] == x[n]);
        }
        lemma_next_section_agree(x, y, le, 0);
        lemma_agree_sub(x, y, 0, m, 0, k, n);
        lemma_local_block_agree(x, y, k, n, 0, t);
        lemma_first_local_block_bounds(x, t, p);
        lemma_prefix_scan(x, y, t, le, p, m);
    }
}

/// A copy that repeats `x[k..]` to its end, shifted by `d`, finds the same
/// block, shifted.
proof fn lemma_suffix_scan(x: Seq<char>, y: Seq<char>, t: Seq<char>, k: int, d: int)
    requires
        0 <= k <= x.len(),
        agree(x, y, k, x.len() as int, d),
        x.len() + d == y.len(),
    ensures
        first_local_block(y, t, k + d) == (match first_local_block(x, t, k) {
            Some((p, q)) => Some((p + d, q + d)),
            None => None,
        }),
    decreases x.len() - k,
{
    if k < x.len() {
        lemma_line_end_bounds(x, k, x.len() as int);
        let le = line_end(x, k, x.len() as int);
        lemma_header_agree(x, y, k, x.len() as int, d);
        lemma_next_section_stop(x, le);
        let n = next_section(x, le);
        lemma_agree_sub(x, y, k, x.len() as int, d, le, n);
        if n < x.len() {
            assert(y[n + d] == x[n]);
        }
        lemma_next_section_agree(x, y, le, d);
        lemma_agree_sub(x, y, k, x.len() as int, d, k, n);
        lemma_local_block_agree(x, y, k, n, d, t);
        lemma_agree_sub(x, y, k, x.len() as int, d, le, x.len() as int);
        lemma_suffix_scan(x, y, t, le, d);
    }
}


/// What the search reports of a block it finds: a `[[package]]` line at its
/// start, its end at the next section, and the block is local.
proof fn lemma_found_block_facts(s: Seq<char>, t: Seq<char>, k: int)
    requires
        0 <= k,
        first_local_block(s, t, k) is Some,
    ensures
        ({
            let (p, q) = first_local_block(s, t, k).unwrap();
            let le = line_end(s, p, s.len() as int);
            &&& k <= p < le <= q <= s.len()
            &&& is_package_header_line(s, p)
            &&& s[p] == '['
            &&& q == next_section(s, le)
            &&& is_local_block(s, p, q, t)
            &&& reaches(s, k, p)
            &&& (q < s.len() ==> s[q] == '[')
            &&& s[le - 1] == '\n' || le == s.len()
            &&& (p < q < s.len() ==> s[q - 1] == '\n')
        }),
{
    lemma_found_block_reached(s, t, k);
    lemma_first_local_block_bounds(s, t, k);
    let (p, q) = first_local_block(s, t, k).unwrap();
    lemma_line_end_bounds(s, p, s.len() as int);
    let le = line_end(s, p, s.len() as int);
    lemma_first_local_block_bounds(s, t, le);
    assert(is_package_header_line(s, p) && is_local_block(s, p, next_section(s, le), t));
    lemma_header_is_section(s, p);
    lemma_next_section_stop(s, le);
}

/// The working copy's block for `a` ends with a newline and is not a local
/// block for `b`.
pub open spec fn working_block_fits(w: Seq<char>, a: Seq<char>, b: Seq<char>) -> bool {
    match package_block(w, a) {
        Some((s, e)) => w[e - 1] == '\n' && !is_local_block(w, s, e, name_line(b)),
        None => false,
    }
}

/// With `a`'s block before `b`'s, splicing `a` moves `b`'s block by the
/// change of length of `a`'s block.
#[verifier::spinoff_prover]
proof fn lemma_splice_moves_later_block(x: Seq<char>, w: Seq<char>, a: Seq<char>, b: Seq<char>)
    requires
        package_block(x, a) is Some,
        package_block(x, b) is Some,
        package_block(x, a).unwrap().1 <= package_block(x, b).unwrap().0,
        working_block_fits(w, a, b),
    ensures
        ({
            let (a0, a1) = package_block(x, a).unwrap();
            let (b0, b1) = package_block(x, b).unwrap();
            let (wa0, wa1) = package_block(w, a).unwrap();
            let x1 = x.subrange(0, a0) + w.subrange(wa0, wa1) + x.subrange(a1, x.len() as int);
            let delta = (wa1 - wa0) - (a1 - a0);
            &&& spliced(x, w, a) == Some(x1)
            &&& package_block(x1, b) == Some((b0 + delta, b1 + delta))
        }),
{
    let na = name_line(a);
    let nb = name_line(b);
    lemma_found_block_facts(x, na, 0);
    lemma_found_block_facts(x, nb, 0);
    lemma_found_block_facts(w, na, 0);
    let (a0, a1) = package_block(x, a).unwrap();
    let (b0, b1) = package_block(x, b).unwrap();
    let (wa0, wa1) = package_block(w, a).unwrap();
    let wa = w.subrange(wa0, wa1);
    let x1 = x.subrange(0, a0) + wa + x.subrange(a1, x.len() as int);
    let delta = wa.len() - (a1 - a0);
    lemma_search_passes(x, na, nb, 0);
    assert(agree(x, x1, 0, a0, 0)) by {
        assert forall|q: int| 0 <= q < a0 implies x1[q + 0] == #[trigger] x[q] by {}
    }
    assert(x1[a0] == w[wa0]);
    lemma_prefix_scan(x, x1, nb, 0, a0, a0);
    let d1 = a0 - wa0;
    assert(agree(w, x1, wa0, wa1, d1)) by {
        assert forall|q: int| wa0 <= q < wa1 implies x1[q + d1] == #[trigger] w[q] by {
            assert(x1[q + d1] == wa[q - wa0]);
        }
    }
    let wle = line_end(w, wa0, w.len() as int);
    lemma_header_agree(w, x1, wa0, wa1, d1);
    lemma_agree_sub(w, x1, wa0, wa1, d1, wle, wa1);
    if a1 < x.len() {
        assert(x1[wa1 + d1] == x[a1]);
    }
    lemma_next_section_agree(w, x1, wle, d1);
    lemma_local_block_agree(w, x1, wa0, wa1, d1, nb);
    lemma_line_end_bounds(x1, a0, x1.len() as int);
    lemma_skip_to_section(x1, nb, wle + d1);
    let xle = line_end(x, a0, x.len() as int);
    lemma_skip_to_section(x, nb, xle);
    assert(agree(x, x1, a1, x.len() as int, delta)) by {
        assert forall|q: int| a1 <= q < x.len() implies x1[q + delta] == #[trigger] x[q] by {
            assert(x1[q + delta] == x.subrange(a1, x.len() as int)[q - a1]);
        }
    }
    lemma_suffix_scan(x, x1, nb, a1, delta);
}

/// With `a`'s block before `b`'s, splicing `b` leaves `a`'s block in place.
#[verifier::spinoff_prover]
proof fn lemma_splice_keeps_earlier_block(x: Seq<char>, w: Seq<char>, a: Seq<char>, b: Seq<char>)
    requires
        package_block(x, a) is Some,
        package_block(x, b) is Some,
        package_block(x, a).unwrap().1 <= package_block(x, b).unwrap().0,
        package_block(w, b) is Some,
    ensures
        ({
            let (b0, b1) = package_block(x, b).unwrap();
            let (wb0, wb1) = package_block(w, b).unwrap();
            let y1 = x.subrange(0, b0) + w.subrange(wb0, wb1) + x.subrange(b1, x.len() as int);
            &&& spliced(x, w, b) == Some(y1)
            &&& package_block(y1, a) == package_block(x, a)
        }),
{
    let na = name_line(a);
    let nb = name_line(b);
    lemma_found_block_facts(x, na, 0);
    lemma_found_block_facts(x, nb, 0);
    lemma_found_block_facts(w, nb, 0);
    let (a0, a1) = package_block(x, a).unwrap();
    let (b0, b1) = package_block(x, b).unwrap();
    let (wb0, wb1) = package_block(w, b).unwrap();
    let wb = w.subrange(wb0, wb1);
    let y1 = x.subrange(0, b0) + wb + x.subrange(b1, x.len() as int);
    assert(agree(x, y1, 0, b0, 0)) by {
        assert forall|q: int| 0 <= q < b0 implies y1[q + 0] == #[trigger] x[q] by {}
    }
    lemma_prefix_scan(x, y1, na, 0, a0, b0);
    lemma_agree_sub(x, y1, 0, b0, 0, a0, b0);
    lemma_header_agree(x, y1, a0, b0, 0);
    let xle = line_end(x, a0, x.len() as int);
    lemma_agree_sub(x, y1, 0, b0, 0, xle, a1);
    assert(y1[b0] == w[wb0]);
    if a1 < b0 {
        assert(y1[a1] == x[a1]);
    }
    lemma_next_section_agree(x, y1, xle, 0);
    lemma_agree_sub(x, y1, 0, b0, 0, a0, a1);
    lemma_local_block_agree(x, y1, a0, a1, 0, na);
}

/// With `a`'s block before `b`'s, splicing `a` then `b` gives the same text
/// as splicing `b` then `a`.
#[verifier::spinoff_prover]
proof fn lemma_two_splices_commute(x: Seq<char>, w: Seq<char>, a: Seq<char>, b: Seq<char>)
    requires
        package_block(x, a) is Some,
        package_block(x, b) is Some,
        package_block(x, a).unwrap().1 <= package_block(x, b).unwrap().0,
        working_block_fits(w, a, b),
        working_block_fits(w, b, a),
    ensures
        spliced(x, w, a) is Some,
        spliced(x, w, b) is Some,
        package_block(spliced(x, w, a).unwrap(), b) is Some,
        package_block(spliced(x, w, b).unwrap(), a) is Some,
        spliced(spliced(x, w, a).unwrap(), w, b) is Some,
        spliced(spliced(x, w, a).unwrap(), w, b) == spliced(spliced(x, w, b).unwrap(), w, a),
{
    lemma_splice_moves_later_block(x, w, a, b);
    lemma_splice_keeps_earlier_block(x, w, a, b);
    lemma_found_block_facts(x, name_line(a), 0);
    lemma_found_block_facts(x, name_line(b), 0);
    lemma_found_block_facts(w, name_line(a), 0);
    lemma_found_block_facts(w, name_line(b), 0);
    let (a0, a1) = package_block(x, a).unwrap();
    let (b0, b1) = package_block(x, b).unwrap();
    let (wa0, wa1) = package_block(w, a).unwrap();
    let (wb0, wb1) = package_block(w, b).unwrap();
    let wa = w.subrange(wa0, wa1);
    let wb = w.subrange(wb0, wb1);
    let x1 = x.subrange(0, a0) + wa + x.subrange(a1, x.len() as int);
    let delta = wa.len() - (a1 - a0);
    let x2 = x1.subrange(0, b0 + delta) + wb + x1.subrange(b1 + delta, x1.len() as int);
    assert(spliced(x1, w, b) == Some(x2));
    let y1 = x.subrange(0, b0) + wb + x.subrange(b1, x.len() as int);
    let y2 = y1.subrange(0, a0) + wa + y1.subrange(a1, y1.len() as int);
    assert(spliced(y1, w, a) == Some(y2));
    let whole = x.subrange(0, a0) + wa + x.subrange(a1, b0) + wb + x.subrange(b1, x.len() as int);
    assert(x1.subrange(0, b0 + delta) =~= x.subrange(0, a0) + wa + x.subrange(a1, b0));
    assert(x1.subrange(b1 + delta, x1.len() as int) =~= x.subrange(b1, x.len() as int));
    assert(x2 =~= whole);
    assert(y1.subrange(0, a0) =~= x.subrange(0, a0));
    assert(y1.subrange(a1, y1.len() as int) =~= x.subrange(a1, b0) + wb + x.subrange(b1, x.len() as int));
    assert(y2 =~= whole);
}

/// The two-package case of the order law, with `a`'s block before `b`'s.
proof fn lemma_splice_pair_ordered(x: Seq<char>, w: Seq<char>, a: Seq<char>, b: Seq<char>, post: Seq<Seq<char>>)
    requires
        package_block(x, a) is Some,
        package_block(x, b) is Some,
        package_block(x, a).unwrap().1 <= package_block(x, b).unwrap().0,
        working_block_fits(w, a, b),
        working_block_fits(w, b, a),
    ensures
        spliced_all(x, w, seq![a, b] + post) == spliced_all(x, w, seq![b, a] + post),
{
    lemma_two_splices_commute(x, w, a, b);
    let x1 = spliced(x, w, a).unwrap();
    let y1 = spliced(x, w, b).unwrap();
    let x2 = spliced(x1, w, b).unwrap();
    let ab = seq![a, b] + post;
    let ba = seq![b, a] + post;
    assert(ab.drop_first() =~= seq![b] + post);
    assert(ba.drop_first() =~= seq![a] + post);
    assert((seq![b] + post).drop_first() =~= post);
    assert((seq![a] + post).drop_first() =~= post);
    assert(ab[0] == a && ba[0] == b && (seq![b] + post)[0] == b && (seq![a] + post)[0] == a);
    assert(spliced_all(x1, w, seq![b] + post) == spliced_all(x2, w, post));
    assert(spliced_all(x, w, ab) == spliced_all(x2, w, post));
    assert(spliced_all(y1, w, seq![a] + post) == spliced_all(x2, w, post));
    assert(spliced_all(x, w, ba) == spliced_all(x2, w, post));
}

/// Every listed package has a local block in `x`, and the blocks of any two
/// listed packages do not overlap.
pub open spec fn blocks_apart(x: Seq<char>, names: Seq<Seq<char>>) -> bool {
    &&& forall|i: int| 0 <= i < names.len() ==> (#[trigger] package_block(x, names[i])) is Some
    &&& forall|i: int, j: int|
        #![trigger names[i], names[j]]
        0 <= i < names.len() && 0 <= j < names.len() && i != j ==> ({
            let p = package_block(x, names[i]).unwrap();
            let q = package_block(x, names[j]).unwrap();
            p.1 <= q.0 || q.1 <= p.0
        })
}

/// The working copy's block of every listed package fits beside every other
/// listed package (see [`working_block_fits`]).
pub open spec fn working_blocks_fit(w: Seq<char>, names: Seq<Seq<char>>) -> bool {
    forall|i: int, j: int|
        0 <= i < names.len() && 0 <= j < names.len() && i != j ==> working_block_fits(w, names[i], names[j])
}

/// Splicing the first listed package keeps the other blocks present and
/// apart.
proof fn lemma_splice_keeps_apart(x: Seq<char>, w: Seq<char>, names: Seq<Seq<char>>)
    requires
        names.len() >= 2,
        blocks_apart(x, names),
        working_blocks_fit(w, names),
    ensures
        spliced(x, w, names[0]) is Some,
        blocks_apart(spliced(x, w, names[0]).unwrap(), names.drop_first()),
{
    let a = names[0];
    assert(working_block_fits(w, a, names[1]));
    assert(package_block(x, names[0]) is Some);
    let x1 = spliced(x, w, a).unwrap();
    let rest = names.drop_first();
    let (a0, a1) = package_block(x, a).unwrap();
    lemma_found_block_facts(x, name_line(a), 0);
    lemma_found_block_facts(w, name_line(a), 0);
    let (wa0, wa1) = package_block(w, a).unwrap();
    let delta = (wa1 - wa0) - (a1 - a0);
    assert forall|i: int| 0 <= i < rest.len() implies package_block(x1, #[trigger] rest[i])
        == (if package_block(x, rest[i]).unwrap().0 < a0 {
            package_block(x, rest[i])
        } else {
            Some((package_block(x, rest[i]).unwrap().0 + delta, package_block(x, rest[i]).unwrap().1 + delta))
        }) by {
        let c = rest[i];
        assert(c == names[i + 1]);
        assert(package_block(x, names[i + 1]) is Some);
        assert(working_block_fits(w, a, names[i + 1]));
        lemma_found_block_facts(x, name_line(c), 0);
        if package_block(x, c).unwrap().0 < a0 {
            lemma_splice_keeps_earlier_block(x, w, c, a);
        } else {
            lemma_splice_moves_later_block(x, w, a, c);
        }
    }
    assert forall|i: int| 0 <= i < rest.len() implies (#[trigger] package_block(x1, rest[i])) is Some by {
        assert(package_block(x, names[i + 1]) is Some);
    }
    assert forall|i: int, j: int|
        #![trigger rest[i], rest[j]]
        0 <= i < rest.len() && 0 <= j < rest.len() && i != j implies ({
        let p = package_block(x1, rest[i]).unwrap();
        let q = package_block(x1, rest[j]).unwrap();
        p.1 <= q.0 || q.1 <= p.0
    }) by {
        assert(package_block(x, names[i + 1]) is Some);
        assert(package_block(x, names[j + 1]) is Some);
        lemma_found_block_facts(x, name_line(rest[i]), 0);
        lemma_found_block_facts(x, name_line(rest[j]), 0);
        assert(rest[i] == names[i + 1] && rest[j] == names[j + 1]);
        assert(i + 1 != j + 1);
        assert(i + 1 != 0 && j + 1 != 0);
    }
}

/// Swapping two neighbouring packages anywhere in the list does not change
/// the spliced lockfile.
pub proof fn lemma_splice_swap_neighbours(
    x: Seq<char>,
    w: Seq<char>,
    pre: Seq<Seq<char>>,
    a: Seq<char>,
    b: Seq<char>,
    post: Seq<Seq<char>>,
)
    requires
        blocks_apart(x, pre + seq![a, b] + post),
        working_blocks_fit(w, pre + seq![a, b] + post),
    ensures
        spliced_all(x, w, pre + seq![a, b] + post) == spliced_all(x, w, pre + seq![b, a] + post),
    decreases pre.len(),
{
    let names = pre + seq![a, b] + post;
    let ia = pre.len() as int;
    assert(names[ia] == a && names[ia + 1] == b);
    if pre.len() == 0 {
        assert(names =~= seq![a, b] + post);
        assert(pre + seq![b, a] + post =~= seq![b, a] + post);
        assert(package_block(x, names[0]) is Some && package_block(x, names[1]) is Some);
        assert(working_block_fits(w, names[0], names[1]));
        assert(working_block_fits(w, names[1], names[0]));
        let pa = package_block(x, a).unwrap();
        let pb = package_block(x, b).unwrap();
        if pa.1 <= pb.0 {
            lemma_splice_pair_ordered(x, w, a, b, post);
        } else {
            lemma_splice_pair_ordered(x, w, b, a, post);
        }
    } else {
        let p0 = pre[0];
        let swapped = pre + seq![b, a] + post;
        assert(names[0] == p0 && swapped[0] == p0);
        assert(package_block(x, names[0]) is Some);
        lemma_splice_keeps_apart(x, w, names);
        let x1 = spliced(x, w, p0).unwrap();
        assert(names.drop_first() =~= pre.drop_first() + seq![a, b] + post);
        assert(swapped.drop_first() =~= pre.drop_first() + seq![b, a] + post);
        assert(working_blocks_fit(w, names.drop_first())) by {
            assert forall|i: int, j: int|
                0 <= i < names.drop_first().len() && 0 <= j < names.drop_first().len() && i != j implies
                working_block_fits(w, names.drop_first()[i], names.drop_first()[j]) by {
                assert(names.drop_first()[i] == names[i + 1] && names.drop_first()[j] == names[j + 1]);
            }
        }
        lemma_splice_swap_neighbours(x1, w, pre.drop_first(), a, b, post);
    }
}


/// Packages whose blocks lie apart are listed once each.
proof fn lemma_apart_no_duplicates(x: Seq<char>, names: Seq<Seq<char>>)
    requires
        blocks_apart(x, names),
    ensures
        names.no_duplicates(),
{
    assert forall|i: int, j: int| 0 <= i < names.len() && 0 <= j < names.len() && i != j implies names[i] != names[j] by {
        assert(package_block(x, names[i]) is Some);
        lemma_found_block_facts(x, name_line(names[i]), 0);
    }
}

/// A list of distinct packages taken from a list whose blocks lie apart and
/// fit has blocks that lie apart and fit.
proof fn lemma_apart_sublist(x: Seq<char>, w: Seq<char>, names: Seq<Seq<char>>, other: Seq<Seq<char>>)
    requires
        blocks_apart(x, names),
        working_blocks_fit(w, names),
        other.no_duplicates(),
        forall|k: int| 0 <= k < other.len() ==> names.contains(#[trigger] other[k]),
    ensures
        blocks_apart(x, other),
        working_blocks_fit(w, other),
{
    assert forall|i: int| 0 <= i < other.len() implies (#[trigger] package_block(x, other[i])) is Some by {
        assert(names.contains(other[i]));
        let ii = choose|ii: int| 0 <= ii < names.len() && names[ii] == other[i];
        assert(package_block(x, names[ii]) is Some);
    }
    assert forall|i: int, j: int|
        #![trigger other[i], other[j]]
        0 <= i < other.len() && 0 <= j < other.len() && i != j implies ({
        let p = package_block(x, other[i]).unwrap();
        let q = package_block(x, other[j]).unwrap();
        p.1 <= q.0 || q.1 <= p.0
    }) && working_block_fits(w, other[i], other[j]) by {
        assert(names.contains(other[i]));
        assert(names.contains(other[j]));
        let ii = choose|ii: int| 0 <= ii < names.len() && names[ii] == other[i];
        let jj = choose|jj: int| 0 <= jj < names.len() && names[jj] == other[j];
        assert(other[i] != other[j]);
        assert(ii != jj);
        assert(names[ii] == other[i] && names[jj] == other[j]);
    }
}

/// Moving the package at `i` to the front of the list, past its
/// predecessors one by one, does not change the spliced lockfile.
proof fn lemma_splice_move_to_front(x: Seq<char>, w: Seq<char>, names: Seq<Seq<char>>, i: int)
    requires
        0 <= i < names.len(),
        blocks_apart(x, names),
        working_blocks_fit(w, names),
    ensures
        spliced_all(x, w, names) == spliced_all(x, w, seq![names[i]] + names.remove(i)),
    decreases i,
{
    lemma_apart_no_duplicates(x, names);
    if i == 0 {
        assert(names =~= seq![names[0]] + names.remove(0));
    } else {
        let pre = names.subrange(0, i - 1);
        let a = names[i - 1];
        let b = names[i];
        let post = names.subrange(i + 1, names.len() as int);
        assert(names =~= pre + seq![a, b] + post);
        lemma_splice_swap_neighbours(x, w, pre, a, b, post);
        let swapped = pre + seq![b, a] + post;
        assert(swapped =~= names.update(i - 1, b).update(i, a));
        assert forall|k: int| 0 <= k < swapped.len() implies names.contains(#[trigger] swapped[k]) by {
            if k == i - 1 {
                assert(names[i] == swapped[k]);
            } else if k == i {
                assert(names[i - 1] == swapped[k]);
            } else {
                assert(names[k] == swapped[k]);
            }
        }
        assert forall|k: int, l: int| 0 <= k < swapped.len() && 0 <= l < swapped.len() && k != l implies swapped[k] != swapped[l] by {
            let kk = if k == i - 1 { i } else if k == i { i - 1 } else { k };
            let ll = if l == i - 1 { i } else if l == i { i - 1 } else { l };
            assert(swapped[k] == names[kk] && swapped[l] == names[ll]);
        }
        lemma_apart_sublist(x, w, names, swapped);
        lemma_splice_move_to_front(x, w, swapped, i - 1);
        assert(swapped[i - 1] == b);
        assert(swapped.remove(i - 1) =~= names.remove(i));
    }
}

/// Splicing the workspace packages gives the same lockfile in every order of
/// the list: any reordering of the names (the same names, each as often)
/// gives the same result. This holds when every listed package has a local
/// block in the staged lockfile, no two of these blocks overlap, and the
/// working lockfile's block of each listed package ends with a newline and
/// is not a local block of another listed package. (Without the newline, a
/// block spliced before another joins the following line of `HEAD`, and can
/// hide the next package's `[[package]]` line; a working block that is also
/// local for another listed package is found again in its place.)
pub proof fn lemma_splice_order_independent(x: Seq<char>, w: Seq<char>, names: Seq<Seq<char>>, other: Seq<Seq<char>>)
    requires
        blocks_apart(x, names),
        working_blocks_fit(w, names),
        other.to_multiset() == names.to_multiset(),
    ensures
        spliced_all(x, w, names) == spliced_all(x, w, other),
    decreases names.len(),
{
    broadcast use vstd::seq_lib::group_to_multiset_ensures;
    vstd::seq_lib::to_multiset_len(other);
    vstd::seq_lib::to_multiset_len(names);
    if names.len() == 0 {
        assert(other.len() == 0);
    } else {
        assert(other.len() == names.len()) by {
            assert(other.to_multiset().len() == names.to_multiset().len());
        }
        let a = other[0];
        assert(other.to_multiset().count(a) > 0) by {
            assert(other[0] == a);
            assert(other.contains(a));
        }
        assert(names.contains(a));
        let i = choose|i: int| 0 <= i < names.len() && names[i] == a;
        lemma_splice_move_to_front(x, w, names, i);
        lemma_apart_no_duplicates(x, names);
        let rest = names.remove(i);
        let front = seq![a] + rest;
        assert forall|k: int| 0 <= k < front.len() implies names.contains(#[trigger] front[k]) by {
            if k == 0 {
                assert(names[i] == front[k]);
            } else if k - 1 < i {
                assert(names[k - 1] == front[k]);
            } else {
                assert(names[k] == front[k]);
            }
        }
        assert forall|k: int, l: int| 0 <= k < front.len() && 0 <= l < front.len() && k != l implies front[k] != front[l] by {
            let kk = if k == 0 { i } else if k - 1 < i { k - 1 } else { k };
            let ll = if l == 0 { i } else if l - 1 < i { l - 1 } else { l };
            assert(front[k] == names[kk] && front[l] == names[ll]);
        }
        lemma_apart_sublist(x, w, names, front);
        assert(package_block(x, front[0]) is Some);
        assert(front[0] == a && other[0] == a);
        assert(front.drop_first() =~= rest);
        if spliced(x, w, a) is None {
            assert(spliced_all(x, w, front) == Err::<Seq<char>, Seq<char>>(a));
            assert(spliced_all(x, w, other) == Err::<Seq<char>, Seq<char>>(a));
            return;
        }
        let x1 = spliced(x, w, a).unwrap();
        if rest.len() > 0 {
            lemma_splice_keeps_apart(x, w, front);
        }
        assert(blocks_apart(x1, rest));
        assert(working_blocks_fit(w, rest)) by {
            assert forall|k: int, l: int| 0 <= k < rest.len() && 0 <= l < rest.len() && k != l implies
                working_block_fits(w, rest[k], rest[l]) by {
                assert(rest[k] == front[k + 1] && rest[l] == front[l + 1]);
            }
        }
        assert(rest.to_multiset() == names.to_multiset().remove(a));
        assert(other.drop_first() =~= other.remove(0));
        assert(other.drop_first().to_multiset() == other.to_multiset().remove(a));
        lemma_splice_order_independent(x1, w, rest, other.drop_first());
        assert(spliced_all(x, w, front) == spliced_all(x1, w, rest));
        assert(spliced_all(x, w, other) == spliced_all(x1, w, other.drop_first()));
    }
}

} // verus!
