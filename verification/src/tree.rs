//! Git trees and the index: the order of entries, the modes of entries built
//! from the index, and which entries of `HEAD`'s tree a commit replaces.
//!
//! Object ids stay with the caller: entries carry a `slot`, the caller's
//! index of the entry's object id.
use vstd::prelude::*;

verus! {

/// Strict lexicographic order of byte strings (the order of `[u8]`): a
/// proper prefix comes first.
pub open spec fn bytes_lt(a: Seq<u8>, b: Seq<u8>) -> bool
    decreases a.len(),
{
    if b.len() == 0 {
        false
    } else if a.len() == 0 {
        true
    } else if a[0] != b[0] {
        a[0] < b[0]
    } else {
        bytes_lt(a.drop_first(), b.drop_first())
    }
}

/// A sort key: bytes, then a rank for equal bytes.
pub open spec fn key_le(a: (Seq<u8>, u32), b: (Seq<u8>, u32)) -> bool {
    bytes_lt(a.0, b.0) || (a.0 == b.0 && a.1 <= b.1)
}

/// Exactly one of `a < b`, `a == b`, `b < a` holds.
pub proof fn lemma_bytes_lt_trichotomy(a: Seq<u8>, b: Seq<u8>)
    ensures
        !bytes_lt(a, a),
        bytes_lt(a, b) ==> !bytes_lt(b, a),
        bytes_lt(a, b) || a == b || bytes_lt(b, a),
    decreases a.len(),
{
    if a.len() > 0 && b.len() > 0 {
        lemma_bytes_lt_trichotomy(a.drop_first(), b.drop_first());
        lemma_bytes_lt_trichotomy(a.drop_first(), a.drop_first());
        if a[0] == b[0] && a.drop_first() == b.drop_first() {
            assert(a =~= seq![a[0]] + a.drop_first());
            assert(b =~= seq![b[0]] + b.drop_first());
        }
    } else if a.len() > 0 {
        lemma_bytes_lt_trichotomy(a.drop_first(), a.drop_first());
    } else if b.len() == 0 {
        assert(a =~= b);
    }
}

/// The order of byte strings is transitive.
pub proof fn lemma_bytes_lt_transitive(a: Seq<u8>, b: Seq<u8>, c: Seq<u8>)
    requires
        bytes_lt(a, b),
        bytes_lt(b, c),
    ensures
        bytes_lt(a, c),
    decreases a.len(),
{
    if a.len() > 0 && a[0] == b[0] && b[0] == c[0] {
        lemma_bytes_lt_transitive(a.drop_first(), b.drop_first(), c.drop_first());
    }
}

/// [`key_le`] is a total preorder: total and transitive.
pub proof fn lemma_key_le_total_order(a: (Seq<u8>, u32), b: (Seq<u8>, u32), c: (Seq<u8>, u32))
    ensures
        key_le(a, b) || key_le(b, a),
        key_le(a, b) && key_le(b, c) ==> key_le(a, c),
        key_le(a, b) && key_le(b, a) ==> a == b,
{
    lemma_bytes_lt_trichotomy(a.0, b.0);
    lemma_bytes_lt_trichotomy(b.0, c.0);
    lemma_bytes_lt_trichotomy(a.0, c.0);
    if bytes_lt(a.0, b.0) && bytes_lt(b.0, c.0) {
        lemma_bytes_lt_transitive(a.0, b.0, c.0);
    }
}

/// `order` lists each index of `keys` once, by ascending key, equal keys in
/// index order (a stable sort).
pub open spec fn is_stable_order(order: Seq<usize>, keys: Seq<(Seq<u8>, u32)>) -> bool {
    &&& order.len() == keys.len()
    &&& forall|i: int| 0 <= i < order.len() ==> #[trigger] order[i] < keys.len()
    &&& forall|i: int, j: int| 0 <= i < j < order.len() ==> order[i] != order[j]
    &&& forall|i: int, j: int| 0 <= i < j < order.len() ==> key_le(keys[order[i] as int], keys[order[j] as int])
    &&& forall|i: int, j: int| 0 <= i < j < order.len() && keys[order[i] as int] == keys[order[j] as int]
        ==> order[i] < order[j]
}

/// A sort key with executable parts.
#[derive(Debug)]
pub struct SortKey {
    /// The bytes compared first.
    pub bytes: Vec<u8>,
    /// The rank compared for equal bytes.
    pub rank: u32,
}

/// The view of a list of sort keys.
pub open spec fn keys_view(keys: Seq<SortKey>) -> Seq<(Seq<u8>, u32)> {
    keys.map_values(|k: SortKey| (k.bytes@, k.rank))
}

/// [`bytes_lt`] on byte vectors.
fn bytes_less(a: &Vec<u8>, b: &Vec<u8>) -> (r: bool)
    ensures
        r == bytes_lt(a@, b@),
{
    let mut i: usize = 0;
    assert(a@.skip(0) =~= a@);
    assert(b@.skip(0) =~= b@);
    while i < a.len() && i < b.len() && a[i] == b[i]
        invariant
            0 <= i <= a@.len(),
            i <= b@.len(),
            bytes_lt(a@, b@) == bytes_lt(a@.skip(i as int), b@.skip(i as int)),
        decreases a.len() - i,
    {
        assert(a@.skip(i as int)[0] == a@[i as int]);
        assert(b@.skip(i as int)[0] == b@[i as int]);
        assert(a@.skip(i as int).drop_first() =~= a@.skip(i + 1));
        assert(b@.skip(i as int).drop_first() =~= b@.skip(i + 1));
        i = i + 1;
    }
    if i == b.len() {
        false
    } else if i == a.len() {
        true
    } else {
        assert(a@.skip(i as int)[0] == a@[i as int]);
        assert(b@.skip(i as int)[0] == b@[i as int]);
        a[i] < b[i]
    }
}

/// Two byte vectors are equal.
fn bytes_equal(a: &Vec<u8>, b: &Vec<u8>) -> (r: bool)
    ensures
        r == (a@ == b@),
{
    if a.len() != b.len() {
        return false;
    }
    let mut i: usize = 0;
    while i < a.len()
        invariant
            a@.len() == b@.len(),
            0 <= i <= a@.len(),
            forall|k: int| 0 <= k < i ==> a@[k] == b@[k],
        decreases a.len() - i,
    {
        if a[i] != b[i] {
            return false;
        }
        i = i + 1;
    }
    assert(a@ =~= b@);
    true
}

/// [`key_le`] on sort keys.
fn key_less_or_equal(a: &SortKey, b: &SortKey) -> (r: bool)
    ensures
        r == key_le((a.bytes@, a.rank), (b.bytes@, b.rank)),
{
    bytes_less(&a.bytes, &b.bytes) || (bytes_equal(&a.bytes, &b.bytes) && a.rank <= b.rank)
}

/// The stable ascending order of some keys: the indices of `keys`, each
/// once, by key, equal keys in index order.
pub fn stable_order(keys: &Vec<SortKey>) -> (order: Vec<usize>)
    ensures
        is_stable_order(order@, keys_view(keys@)),
{
    let ghost kv = keys_view(keys@);
    let mut order: Vec<usize> = Vec::new();
    let mut n: usize = 0;
    while n < keys.len()
        invariant
            0 <= n <= keys@.len(),
            kv == keys_view(keys@),
            is_stable_order(order@, kv.take(n as int)),
        decreases keys.len() - n,
    {
        let mut p: usize = order.len();
        while p > 0 && !key_less_or_equal(&keys[order[p - 1]], &keys[n])
            invariant
                0 <= p <= order@.len(),
                order@.len() == n,
                n < keys@.len(),
                kv == keys_view(keys@),
                is_stable_order(order@, kv.take(n as int)),
                forall|j: int| p <= j < order@.len() ==> !key_le(kv[order@[j] as int], kv[n as int]),
            decreases p,
        {
            assert(kv[order@[p - 1] as int] == (keys@[order@[p - 1] as int].bytes@, keys@[order@[p - 1] as int].rank));
            p = p - 1;
        }
        proof {
            let old_order = order@;
            let kn = kv.take(n as int);
            let kn1 = kv.take(n + 1);
            assert forall|i: int| 0 <= i < old_order.len() implies #[trigger] kn1[old_order[i] as int] == kn[old_order[i] as int] by {}
            if p > 0 {
                assert(kv[order@[p - 1] as int] == (keys@[order@[p - 1] as int].bytes@, keys@[order@[p - 1] as int].rank));
                assert(key_le(kv[old_order[p - 1] as int], kv[n as int]));
                assert forall|j: int| 0 <= j < p implies key_le(kv[old_order[j] as int], kv[n as int]) by {
                    if j < p - 1 {
                        assert(kn[old_order[j] as int] == kv[old_order[j] as int]);
                        assert(kn[old_order[p - 1] as int] == kv[old_order[p - 1] as int]);
                        lemma_key_le_total_order(kv[old_order[j] as int], kv[old_order[p - 1] as int], kv[n as int]);
                    }
                }
            }
            assert forall|j: int| p <= j < old_order.len() implies key_le(kv[n as int], kv[old_order[j] as int])
                && kv[old_order[j] as int] != kv[n as int] by {
                lemma_key_le_total_order(kv[n as int], kv[old_order[j] as int], kv[n as int]);
            }
        }
        let ghost old_order = order@;
        order.insert(p, n);
        proof {
            let kn = kv.take(n as int);
            let kn1 = kv.take(n + 1);
            let o = order@;
            assert(o =~= old_order.insert(p as int, n));
            assert forall|i: int| 0 <= i < o.len() implies #[trigger] o[i] < kn1.len() by {
                if i < p {
                    assert(o[i] == old_order[i]);
                } else if i > p {
                    assert(o[i] == old_order[i - 1]);
                }
            }
            assert forall|i: int, j: int| 0 <= i < j < o.len() implies o[i] != o[j] && key_le(kn1[o[i] as int], kn1[o[j] as int])
                && (kn1[o[i] as int] == kn1[o[j] as int] ==> o[i] < o[j]) by {
                let a = if i < p { old_order[i] } else if i == p { n } else { old_order[i - 1] };
                let b = if j < p { old_order[j] } else if j == p { n } else { old_order[j - 1] };
                assert(o[i] == a);
                assert(o[j] == b);
                if i != p && j != p {
                    let ii = if i < p { i } else { i - 1 };
                    let jj = if j < p { j } else { j - 1 };
                    assert(old_order[ii] == a && old_order[jj] == b);
                    assert(ii < jj);
                    assert(kn[a as int] == kv[a as int]);
                    assert(kn[b as int] == kv[b as int]);
                }
            }
            assert(is_stable_order(o, kn1));
        }
        n = n + 1;
    }
    assert(kv.take(keys@.len() as int) =~= kv);
    order
}


/// Mode of an index entry.
#[derive(Debug, Clone, Copy, PartialEq, Eq, Structural)]
pub enum IndexMode {
    /// A regular file.
    File,
    /// An executable file.
    FileExecutable,
    /// A symbolic link.
    Symlink,
    /// A directory (sparse index).
    Dir,
    /// A submodule commit.
    Commit,
    /// Any other mode.
    Other,
}

/// Kind of a tree entry.
#[derive(Debug, Clone, Copy, PartialEq, Eq, Structural)]
pub enum TreeMode {
    /// A file.
    Blob,
    /// An executable file.
    BlobExecutable,
    /// A symbolic link.
    Link,
    /// A subtree.
    Tree,
    /// A submodule commit.
    Commit,
}

/// The tree mode of an index mode; unknown modes become files.
pub open spec fn tree_mode_of(mode: IndexMode) -> TreeMode {
    match mode {
        IndexMode::File => TreeMode::Blob,
        IndexMode::FileExecutable => TreeMode::BlobExecutable,
        IndexMode::Symlink => TreeMode::Link,
        IndexMode::Dir => TreeMode::Tree,
        IndexMode::Commit => TreeMode::Commit,
        IndexMode::Other => TreeMode::Blob,
    }
}

/// Converts an index entry mode to the tree entry mode.
pub fn convert_mode_to_tree_mode(mode: IndexMode) -> (r: TreeMode)
    ensures
        r == tree_mode_of(mode),
{
    match mode {
        IndexMode::File => TreeMode::Blob,
        IndexMode::FileExecutable => TreeMode::BlobExecutable,
        IndexMode::Symlink => TreeMode::Link,
        IndexMode::Dir => TreeMode::Tree,
        IndexMode::Commit => TreeMode::Commit,
        IndexMode::Other => TreeMode::Blob,
    }
}

/// An entry of a tree.
#[derive(Debug)]
pub struct TreeEntry {
    /// The entry's file name.
    pub name: Vec<u8>,
    /// The entry's mode.
    pub mode: TreeMode,
    /// The caller's index of the entry's object id.
    pub slot: usize,
}

/// An entry of the index.
#[derive(Debug)]
pub struct IndexEntry {
    /// The path, relative to the repository root, `/`-separated.
    pub path: Vec<u8>,
    /// The merge stage (0 outside conflicts).
    pub stage: u32,
    /// The entry's mode.
    pub mode: IndexMode,
    /// The caller's index of the entry's object id and metadata.
    pub slot: usize,
}

/// The plain view of a tree entry.
pub open spec fn tree_entry_view(e: TreeEntry) -> (Seq<u8>, TreeMode, usize) {
    (e.name@, e.mode, e.slot)
}

/// The plain view of an index entry.
pub open spec fn index_entry_view(e: IndexEntry) -> (Seq<u8>, u32, IndexMode, usize) {
    (e.path@, e.stage, e.mode, e.slot)
}

/// The key by which git orders tree entries: the name, with `/` appended
/// for a subtree.
pub open spec fn tree_sort_key(name: Seq<u8>, mode: TreeMode) -> Seq<u8> {
    if mode == TreeMode::Tree {
        name.push(47u8)
    } else {
        name
    }
}

/// Copies a byte vector.
fn copy_bytes(v: &Vec<u8>) -> (r: Vec<u8>)
    ensures
        r@ == v@,
{
    let mut r: Vec<u8> = Vec::new();
    let mut i: usize = 0;
    while i < v.len()
        invariant
            0 <= i <= v@.len(),
            r@ == v@.take(i as int),
        decreases v.len() - i,
    {
        r.push(v[i]);
        assert(v@.take(i + 1) =~= v@.take(i as int).push(v@[i as int]));
        i = i + 1;
    }
    assert(v@.take(v@.len() as int) =~= v@);
    r
}

/// The order in which git writes some tree entries: indices of `entries`,
/// by ascending [`tree_sort_key`] (names of subtrees compare as if they
/// ended in `/`).
pub fn sort_tree_entries(entries: &Vec<TreeEntry>) -> (order: Vec<usize>)
    ensures
        is_stable_order(order@, entries@.map_values(|e: TreeEntry| (tree_sort_key(e.name@, e.mode), 0u32))),
{
    let mut keys: Vec<SortKey> = Vec::new();
    let mut i: usize = 0;
    while i < entries.len()
        invariant
            0 <= i <= entries@.len(),
            keys_view(keys@) == entries@.take(i as int).map_values(|e: TreeEntry| (tree_sort_key(e.name@, e.mode), 0u32)),
        decreases entries.len() - i,
    {
        let e = &entries[i];
        let mut bytes = copy_bytes(&e.name);
        if e.mode == TreeMode::Tree {
            bytes.push(47u8);
        }
        let ghost before = keys@;
        keys.push(SortKey { bytes, rank: 0 });
        assert(keys_view(keys@) =~= keys_view(before).push((tree_sort_key(e.name@, e.mode), 0u32)));
        assert(entries@.take(i + 1) =~= entries@.take(i as int).push(entries@[i as int]));
        assert(entries@.take(i + 1).map_values(|e: TreeEntry| (tree_sort_key(e.name@, e.mode), 0u32)) =~= entries@.take(
            i as int,
        ).map_values(|e: TreeEntry| (tree_sort_key(e.name@, e.mode), 0u32)).push((tree_sort_key(e.name@, e.mode), 0u32)));
        i = i + 1;
    }
    assert(entries@.take(entries@.len() as int) =~= entries@);
    stable_order(&keys)
}

/// The tree entries of some index entries, in order: each path becomes an
/// entry name as it is, with the converted mode.
pub open spec fn index_tree_entries(entries: Seq<(Seq<u8>, u32, IndexMode, usize)>) -> Seq<(Seq<u8>, TreeMode, usize)> {
    entries.map_values(|e: (Seq<u8>, u32, IndexMode, usize)| (e.0, tree_mode_of(e.2), e.3))
}

/// The entries of the tree that `build_tree_from_index` writes: one entry
/// per index entry, named by the whole path, ordered by name (stable).
///
/// Returns the entries and the order in which they are written.
pub fn build_tree_from_index(entries: &Vec<IndexEntry>) -> (r: (Vec<TreeEntry>, Vec<usize>))
    ensures
        r.0@.map_values(|e: TreeEntry| tree_entry_view(e)) == index_tree_entries(entries@.map_values(|e: IndexEntry| index_entry_view(e))),
        is_stable_order(r.1@, r.0@.map_values(|e: TreeEntry| (e.name@, 0u32))),
{
    let ghost ev = entries@.map_values(|e: IndexEntry| index_entry_view(e));
    let mut out: Vec<TreeEntry> = Vec::new();
    let mut keys: Vec<SortKey> = Vec::new();
    let mut i: usize = 0;
    while i < entries.len()
        invariant
            0 <= i <= entries@.len(),
            ev == entries@.map_values(|e: IndexEntry| index_entry_view(e)),
            out@.map_values(|e: TreeEntry| tree_entry_view(e)) == index_tree_entries(ev.take(i as int)),
            keys_view(keys@) == out@.map_values(|e: TreeEntry| (e.name@, 0u32)),
        decreases entries.len() - i,
    {
        let e = &entries[i];
        let ghost before = out@;
        let ghost kbefore = keys@;
        out.push(TreeEntry { name: copy_bytes(&e.path), mode: convert_mode_to_tree_mode(e.mode), slot: e.slot });
        keys.push(SortKey { bytes: copy_bytes(&e.path), rank: 0 });
        assert(ev.take(i + 1) =~= ev.take(i as int).push(index_entry_view(*e)));
        assert(out@.map_values(|e: TreeEntry| tree_entry_view(e)) =~= before.map_values(|e: TreeEntry| tree_entry_view(e)).push(
            (e.path@, tree_mode_of(e.mode), e.slot),
        ));
        assert(index_tree_entries(ev.take(i + 1)) =~= index_tree_entries(ev.take(i as int)).push(
            (e.path@, tree_mode_of(e.mode), e.slot),
        ));
        assert(keys_view(keys@) =~= keys_view(kbefore).push((e.path@, 0u32)));
        assert(out@.map_values(|e: TreeEntry| (e.name@, 0u32)) =~= before.map_values(|e: TreeEntry| (e.name@, 0u32)).push(
            (e.path@, 0u32),
        ));
        i = i + 1;
    }
    assert(ev.take(entries@.len() as int) =~= ev);
    let order = stable_order(&keys);
    (out, order)
}


/// Index of the first entry at or after `k` whose path is `path`, or -1.
pub open spec fn first_with_path(entries: Seq<(Seq<u8>, u32, IndexMode, usize)>, path: Seq<u8>, k: int) -> int
    decreases entries.len() - k,
{
    if k < 0 || k >= entries.len() {
        -1
    } else if entries[k].0 == path {
        k
    } else {
        first_with_path(entries, path, k + 1)
    }
}

/// The index entries after staging a file: the first entry with the path
/// removed, a new regular-file entry at stage 0 appended.
pub open spec fn staged_index(entries: Seq<(Seq<u8>, u32, IndexMode, usize)>, path: Seq<u8>, slot: usize) -> Seq<(Seq<u8>, u32, IndexMode, usize)> {
    let k = first_with_path(entries, path, 0);
    let kept = if k >= 0 { entries.remove(k) } else { entries };
    kept.push((path, 0u32, IndexMode::File, slot))
}

/// Copies an index entry.
fn copy_index_entry(e: &IndexEntry) -> (r: IndexEntry)
    ensures
        index_entry_view(r) == index_entry_view(*e),
{
    IndexEntry { path: copy_bytes(&e.path), stage: e.stage, mode: e.mode, slot: e.slot }
}

/// The index after staging the blob `slot` at `path`: any entry with that
/// path is replaced by a regular file at stage 0, and the entries are then
/// ordered by path and stage (stable), as git keeps them.
///
/// Returns the entries and the order in which they are written.
pub fn stage_file(entries: &Vec<IndexEntry>, path: &Vec<u8>, slot: usize) -> (r: (Vec<IndexEntry>, Vec<usize>))
    ensures
        r.0@.map_values(|e: IndexEntry| index_entry_view(e)) == staged_index(entries@.map_values(|e: IndexEntry| index_entry_view(e)), path@, slot),
        is_stable_order(r.1@, r.0@.map_values(|e: IndexEntry| (e.path@, e.stage))),
{
    let ghost ev = entries@.map_values(|e: IndexEntry| index_entry_view(e));
    let mut k: usize = 0;
    while k < entries.len()
        invariant
            0 <= k <= entries@.len(),
            ev == entries@.map_values(|e: IndexEntry| index_entry_view(e)),
            first_with_path(ev, path@, 0) == first_with_path(ev, path@, k as int),
        ensures
            0 <= k <= entries@.len(),
            first_with_path(ev, path@, 0) == first_with_path(ev, path@, k as int),
            k < entries@.len() ==> ev[k as int].0 == path@,
        decreases entries.len() - k,
    {
        assert(ev[k as int].0 == entries@[k as int].path@);
        if bytes_equal(&entries[k].path, path) {
            break;
        }
        k = k + 1;
    }
    let found = k < entries.len();
    let ghost fk = first_with_path(ev, path@, 0);
    assert(found ==> fk == k);
    assert(!found ==> fk == -1);
    let ghost kept = if fk >= 0 { ev.remove(fk) } else { ev };
    let mut out: Vec<IndexEntry> = Vec::new();
    let mut i: usize = 0;
    while i < entries.len()
        invariant
            0 <= i <= entries@.len(),
            k <= entries@.len(),
            found == (k < entries@.len()),
            ev == entries@.map_values(|e: IndexEntry| index_entry_view(e)),
            kept == (if found { ev.remove(k as int) } else { ev }),
            out@.map_values(|e: IndexEntry| index_entry_view(e)) == (if found && k < i { ev.take(i as int).remove(k as int) } else { ev.take(i as int) }),
        decreases entries.len() - i,
    {
        let ghost before = out@;
        if i != k {
            out.push(copy_index_entry(&entries[i]));
            assert(out@.map_values(|e: IndexEntry| index_entry_view(e)) =~= before.map_values(|e: IndexEntry| index_entry_view(e)).push(ev[i as int]));
        }
        proof {
            if found && k < i + 1 {
                assert(ev.take(i + 1).remove(k as int) =~= (if k < i { ev.take(i as int).remove(k as int) } else { ev.take(i as int) }).push(
                    ev[i as int],
                ) || i == k);
                if i == k {
                    assert(ev.take(i + 1).remove(k as int) =~= ev.take(i as int));
                } else {
                    assert(ev.take(i + 1).remove(k as int) =~= ev.take(i as int).remove(k as int).push(ev[i as int]));
                }
            } else {
                assert(ev.take(i + 1) =~= ev.take(i as int).push(ev[i as int]));
            }
        }
        i = i + 1;
    }
    assert(ev.take(entries@.len() as int) =~= ev);
    let ghost before = out@;
    out.push(IndexEntry { path: copy_bytes(path), stage: 0, mode: IndexMode::File, slot });
    assert(out@.map_values(|e: IndexEntry| index_entry_view(e)) =~= before.map_values(|e: IndexEntry| index_entry_view(e)).push(
        (path@, 0u32, IndexMode::File, slot),
    ));
    let mut keys: Vec<SortKey> = Vec::new();
    let mut j: usize = 0;
    while j < out.len()
        invariant
            0 <= j <= out@.len(),
            keys_view(keys@) == out@.take(j as int).map_values(|e: IndexEntry| (e.path@, e.stage)),
        decreases out.len() - j,
    {
        let ghost kb = keys@;
        keys.push(SortKey { bytes: copy_bytes(&out[j].path), rank: out[j].stage });
        assert(keys_view(keys@) =~= keys_view(kb).push((out@[j as int].path@, out@[j as int].stage)));
        assert(out@.take(j + 1) =~= out@.take(j as int).push(out@[j as int]));
        assert(out@.take(j + 1).map_values(|e: IndexEntry| (e.path@, e.stage)) =~= out@.take(j as int).map_values(
            |e: IndexEntry| (e.path@, e.stage),
        ).push((out@[j as int].path@, out@[j as int].stage)));
        j = j + 1;
    }
    assert(out@.take(out@.len() as int) =~= out@);
    let order = stable_order(&keys);
    (out, order)
}

/// A file of a commit, as path components below a tree, and the caller's
/// index of its blob id.
#[derive(Debug)]
pub struct PathUpdate {
    /// Path components, outermost first.
    pub components: Vec<Vec<u8>>,
    /// The caller's index of the blob id.
    pub slot: usize,
}

/// The plain view of a path update.
pub open spec fn update_view(u: PathUpdate) -> (Seq<Seq<u8>>, usize) {
    (u.components@.map_values(|c: Vec<u8>| c@), u.slot)
}

/// What becomes of an entry of a tree.
#[derive(Debug)]
pub enum EntryUpdate {
    /// The entry stays as it is.
    Keep,
    /// The entry gets the blob of this slot, keeping its mode.
    Replace(usize),
    /// The entry is a subtree to update with these updates.
    Descend(Vec<PathUpdate>),
}

/// The slots of the updates of the entry `name` itself, in order.
pub open spec fn direct_slots(us: Seq<(Seq<Seq<u8>>, usize)>, name: Seq<u8>) -> Seq<usize>
    decreases us.len(),
{
    if us.len() == 0 {
        Seq::empty()
    } else {
        let u = us.last();
        direct_slots(us.drop_last(), name) + if u.0.len() == 1 && u.0[0] == name {
            seq![u.1]
        } else {
            Seq::empty()
        }
    }
}

/// The updates below the entry `name`, relative to it, in order.
pub open spec fn nested_updates(us: Seq<(Seq<Seq<u8>>, usize)>, name: Seq<u8>) -> Seq<(Seq<Seq<u8>>, usize)>
    decreases us.len(),
{
    if us.len() == 0 {
        Seq::empty()
    } else {
        let u = us.last();
        nested_updates(us.drop_last(), name) + if u.0.len() > 1 && u.0[0] == name {
            seq![(u.0.drop_first(), u.1)]
        } else {
            Seq::empty()
        }
    }
}

/// Copies a path update without its first component.
fn copy_tail(u: &PathUpdate) -> (r: PathUpdate)
    requires
        u.components@.len() > 0,
    ensures
        update_view(r) == (update_view(*u).0.drop_first(), u.slot),
{
    let mut comps: Vec<Vec<u8>> = Vec::new();
    let mut i: usize = 1;
    while i < u.components.len()
        invariant
            1 <= i <= u.components@.len(),
            comps@.map_values(|c: Vec<u8>| c@) == u.components@.map_values(|c: Vec<u8>| c@).subrange(1, i as int),
        decreases u.components.len() - i,
    {
        let ghost before = comps@;
        comps.push(copy_bytes(&u.components[i]));
        assert(comps@.map_values(|c: Vec<u8>| c@) =~= before.map_values(|c: Vec<u8>| c@).push(u.components@[i as int]@));
        assert(u.components@.map_values(|c: Vec<u8>| c@).subrange(1, i + 1) =~= u.components@.map_values(|c: Vec<u8>| c@).subrange(
            1,
            i as int,
        ).push(u.components@[i as int]@));
        i = i + 1;
    }
    assert(u.components@.map_values(|c: Vec<u8>| c@).subrange(1, u.components@.len() as int) =~= update_view(*u).0.drop_first());
    PathUpdate { components: comps, slot: u.slot }
}

/// Decides what becomes of the tree entry `name` given the commit's files:
/// replaced by the blob of the last file that is the entry itself; else,
/// when files lie below it, the subtree is updated with them; else kept.
pub fn entry_update(name: &Vec<u8>, updates: &Vec<PathUpdate>) -> (r: EntryUpdate)
    ensures
        ({
            let us = updates@.map_values(|u: PathUpdate| update_view(u));
            let direct = direct_slots(us, name@);
            let nested = nested_updates(us, name@);
            match r {
                EntryUpdate::Replace(s) => direct.len() > 0 && s == direct.last(),
                EntryUpdate::Descend(v) => direct.len() == 0 && nested.len() > 0 && v@.map_values(|u: PathUpdate| update_view(u)) == nested,
                EntryUpdate::Keep => direct.len() == 0 && nested.len() == 0,
            }
        }),
{
    let ghost us = updates@.map_values(|u: PathUpdate| update_view(u));
    let mut last_direct: Option<usize> = None;
    let mut nested: Vec<PathUpdate> = Vec::new();
    let mut i: usize = 0;
    while i < updates.len()
        invariant
            0 <= i <= updates@.len(),
            us == updates@.map_values(|u: PathUpdate| update_view(u)),
            (match last_direct {
                Some(s) => direct_slots(us.take(i as int), name@).len() > 0 && s == direct_slots(us.take(i as int), name@).last(),
                None => direct_slots(us.take(i as int), name@).len() == 0,
            }),
            nested@.map_values(|u: PathUpdate| update_view(u)) == nested_updates(us.take(i as int), name@),
        decreases updates.len() - i,
    {
        let u = &updates[i];
        assert(us.take(i + 1).drop_last() =~= us.take(i as int));
        assert(us.take(i + 1).last() == update_view(*u));
        let n = u.components.len();
        let ghost nb = nested@;
        if n > 0 && bytes_equal(&u.components[0], name) {
            if n == 1 {
                last_direct = Some(u.slot);
            } else {
                let t = copy_tail(u);
                nested.push(t);
                assert(nested@.map_values(|x: PathUpdate| update_view(x)) =~= nb.map_values(|x: PathUpdate| update_view(x)).push(
                    update_view(t),
                ));
            }
        }
        proof {
            assert(update_view(*u).0.len() == n);
            if n > 0 {
                assert(update_view(*u).0[0] == u.components@[0]@);
            }
        }
        i = i + 1;
    }
    assert(us.take(updates@.len() as int) =~= us);
    match last_direct {
        Some(s) => EntryUpdate::Replace(s),
        None => {
            if nested.len() > 0 {
                EntryUpdate::Descend(nested)
            } else {
                EntryUpdate::Keep
            }
        },
    }
}


/// The plain view of a list of names.
pub open spec fn names_view(v: Seq<Vec<u8>>) -> Seq<Seq<u8>> {
    v.map_values(|n: Vec<u8>| n@)
}

/// The entries a tree gains from the commit's files: the first path
/// component of every file that no entry of the tree (`existing`) has, once
/// each, in the order of the files that first name it.
pub open spec fn added_names(us: Seq<(Seq<Seq<u8>>, usize)>, existing: Seq<Seq<u8>>) -> Seq<Seq<u8>>
    decreases us.len(),
{
    if us.len() == 0 {
        Seq::empty()
    } else {
        let prev = added_names(us.drop_last(), existing);
        let u = us.last();
        if u.0.len() > 0 && !existing.contains(u.0[0]) && !prev.contains(u.0[0]) {
            prev.push(u.0[0])
        } else {
            prev
        }
    }
}

/// `x` is one of the names of `list`.
fn contains_name(list: &Vec<Vec<u8>>, x: &Vec<u8>) -> (r: bool)
    ensures
        r == names_view(list@).contains(x@),
{
    let mut i: usize = 0;
    while i < list.len()
        invariant
            0 <= i <= list@.len(),
            forall|k: int| 0 <= k < i ==> list@[k]@ != x@,
        decreases list.len() - i,
    {
        if bytes_equal(&list[i], x) {
            assert(names_view(list@)[i as int] == x@);
            return true;
        }
        i = i + 1;
    }
    assert forall|k: int| 0 <= k < names_view(list@).len() implies names_view(list@)[k] != x@ by {
        assert(names_view(list@)[k] == list@[k]@);
    }
    false
}

/// The names of the entries that a tree whose entries are named `existing`
/// gains from the commit's files (see [`added_names`]): files new to the
/// tree, or directories that hold new files. What each gains is decided by
/// [`entry_update`] on the name, exactly as for an entry that exists.
pub fn added_entry_names(existing: &Vec<Vec<u8>>, updates: &Vec<PathUpdate>) -> (r: Vec<Vec<u8>>)
    ensures
        names_view(r@) == added_names(updates@.map_values(|u: PathUpdate| update_view(u)), names_view(existing@)),
{
    let ghost us = updates@.map_values(|u: PathUpdate| update_view(u));
    let ghost ex = names_view(existing@);
    let mut out: Vec<Vec<u8>> = Vec::new();
    let mut i: usize = 0;
    while i < updates.len()
        invariant
            0 <= i <= updates@.len(),
            us == updates@.map_values(|u: PathUpdate| update_view(u)),
            ex == names_view(existing@),
            names_view(out@) == added_names(us.take(i as int), ex),
        decreases updates.len() - i,
    {
        let u = &updates[i];
        assert(us.take(i + 1).drop_last() =~= us.take(i as int));
        assert(us.take(i + 1).last() == update_view(*u));
        proof {
            assert(update_view(*u).0.len() == u.components@.len());
            if u.components@.len() > 0 {
                assert(update_view(*u).0[0] == u.components@[0]@);
            }
        }
        if u.components.len() > 0 {
            let first = &u.components[0];
            if !contains_name(existing, first) && !contains_name(&out, first) {
                let ghost before = out@;
                out.push(copy_bytes(first));
                assert(names_view(out@) =~= names_view(before).push(first@));
            }
        }
        i = i + 1;
    }
    assert(us.take(updates@.len() as int) =~= us);
    out
}

/// Every file of the commit lands under an entry of the updated tree: its
/// first path component names an existing entry or an added one. The added
/// names are new to the tree and listed once each.
pub proof fn lemma_added_names_cover(us: Seq<(Seq<Seq<u8>>, usize)>, existing: Seq<Seq<u8>>)
    ensures
        forall|i: int| 0 <= i < us.len() && us[i].0.len() > 0 ==> existing.contains(#[trigger] us[i].0[0])
            || added_names(us, existing).contains(us[i].0[0]),
        forall|k: int| 0 <= k < added_names(us, existing).len() ==> !existing.contains(#[trigger] added_names(us, existing)[k]),
        added_names(us, existing).no_duplicates(),
        forall|k: int| 0 <= k < added_names(us, existing).len() ==> direct_slots(us, #[trigger] added_names(us, existing)[k]).len()
            + nested_updates(us, added_names(us, existing)[k]).len() > 0,
    decreases us.len(),
{
    if us.len() > 0 {
        let prev0 = added_names(us.drop_last(), existing);
        lemma_added_names_cover(us.drop_last(), existing);
        assert forall|k: int| 0 <= k < added_names(us, existing).len() implies direct_slots(us, #[trigger] added_names(us, existing)[k]).len()
            + nested_updates(us, added_names(us, existing)[k]).len() > 0 by {
            let n = added_names(us, existing)[k];
            if k < prev0.len() {
                assert(n == prev0[k]);
            }
            lemma_update_counts_grow(us.drop_last(), us.last(), n);
            assert(us.drop_last().push(us.last()) =~= us);
        }
        let prev = added_names(us.drop_last(), existing);
        lemma_added_names_cover(us.drop_last(), existing);
        let u = us.last();
        let cur = added_names(us, existing);
        assert forall|k: int| 0 <= k < prev.len() implies cur.contains(#[trigger] prev[k]) by {
            assert(cur[k] == prev[k]);
        }
        assert forall|i: int| 0 <= i < us.len() && us[i].0.len() > 0 implies existing.contains(#[trigger] us[i].0[0])
            || cur.contains(us[i].0[0]) by {
            if i < us.len() - 1 {
                assert(us.drop_last()[i] == us[i]);
                if prev.contains(us[i].0[0]) {
                    let k = choose|k: int| 0 <= k < prev.len() && prev[k] == us[i].0[0];
                    assert(cur.contains(prev[k]));
                }
            } else if !existing.contains(u.0[0]) && !prev.contains(u.0[0]) {
                assert(cur[prev.len() as int] == u.0[0]);
            } else if prev.contains(u.0[0]) {
                let k = choose|k: int| 0 <= k < prev.len() && prev[k] == u.0[0];
                assert(cur.contains(prev[k]));
            }
        }
    }
}


/// One more file adds to the direct and nested updates of its first path
/// component and keeps those of every other name.
proof fn lemma_update_counts_grow(us: Seq<(Seq<Seq<u8>>, usize)>, u: (Seq<Seq<u8>>, usize), n: Seq<u8>)
    ensures
        direct_slots(us.push(u), n).len() + nested_updates(us.push(u), n).len() >= direct_slots(us, n).len()
            + nested_updates(us, n).len(),
        u.0.len() > 0 && u.0[0] == n ==> direct_slots(us.push(u), n).len() + nested_updates(us.push(u), n).len() > 0,
{
    assert(us.push(u).drop_last() =~= us);
    assert(us.push(u).last() == u);
}

} // verus!
