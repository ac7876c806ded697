use cargo_version_info::tree::{
    build_tree_from_index, convert_mode_to_tree_mode, entry_update, sort_tree_entries, stable_order,
    stage_file, EntryUpdate, IndexEntry, IndexMode, PathUpdate, SortKey, TreeEntry, TreeMode,
};

fn entry(name: &str, mode: TreeMode, slot: usize) -> TreeEntry {
    TreeEntry { name: name.as_bytes().to_vec(), mode, slot }
}

#[test]
fn trees_order_subtrees_as_if_slash_terminated() {
    // "a.txt" < "a/" because '.' (0x2e) < '/' (0x2f); "a-b" < "a.txt".
    let entries = vec![entry("a", TreeMode::Tree, 0), entry("a.txt", TreeMode::Blob, 1), entry("a-b", TreeMode::Blob, 2)];
    assert_eq!(sort_tree_entries(&entries), vec![2, 1, 0]);
    // A file named "a" sorts before "a.txt".
    let entries = vec![entry("a.txt", TreeMode::Blob, 0), entry("a", TreeMode::Blob, 1)];
    assert_eq!(sort_tree_entries(&entries), vec![1, 0]);
}

#[test]
fn stable_order_keeps_equal_keys_in_place() {
    let keys = vec![
        SortKey { bytes: b"b".to_vec(), rank: 0 },
        SortKey { bytes: b"a".to_vec(), rank: 1 },
        SortKey { bytes: b"a".to_vec(), rank: 0 },
        SortKey { bytes: b"b".to_vec(), rank: 0 },
        SortKey { bytes: b"".to_vec(), rank: 9 },
    ];
    assert_eq!(stable_order(&keys), vec![4, 2, 1, 0, 3]);
}

#[test]
fn index_modes_map_to_tree_modes() {
    assert_eq!(convert_mode_to_tree_mode(IndexMode::File), TreeMode::Blob);
    assert_eq!(convert_mode_to_tree_mode(IndexMode::FileExecutable), TreeMode::BlobExecutable);
    assert_eq!(convert_mode_to_tree_mode(IndexMode::Symlink), TreeMode::Link);
    assert_eq!(convert_mode_to_tree_mode(IndexMode::Dir), TreeMode::Tree);
    assert_eq!(convert_mode_to_tree_mode(IndexMode::Commit), TreeMode::Commit);
    assert_eq!(convert_mode_to_tree_mode(IndexMode::Other), TreeMode::Blob);
}

fn ientry(path: &str, stage: u32, mode: IndexMode, slot: usize) -> IndexEntry {
    IndexEntry { path: path.as_bytes().to_vec(), stage, mode, slot }
}

#[test]
fn index_tree_uses_full_paths_sorted() {
    let entries = vec![ientry("src/lib.rs", 0, IndexMode::File, 0), ientry("Cargo.toml", 0, IndexMode::File, 1), ientry("run.sh", 0, IndexMode::FileExecutable, 2)];
    let (tree, order) = build_tree_from_index(&entries);
    assert_eq!(tree[0].name, b"src/lib.rs".to_vec());
    assert_eq!(tree[2].mode, TreeMode::BlobExecutable);
    assert_eq!(order, vec![1, 2, 0]);
}

#[test]
fn staging_replaces_the_entry_of_the_path() {
    let entries = vec![ientry("b.txt", 0, IndexMode::File, 0), ientry("Cargo.toml", 0, IndexMode::FileExecutable, 1), ientry("a.txt", 0, IndexMode::File, 2)];
    let (staged, order) = stage_file(&entries, &b"Cargo.toml".to_vec(), 7);
    assert_eq!(staged.len(), 3);
    assert_eq!(staged[2].path, b"Cargo.toml".to_vec());
    assert_eq!(staged[2].slot, 7);
    assert_eq!(staged[2].mode, IndexMode::File);
    let paths: Vec<&[u8]> = order.iter().map(|&i| staged[i].path.as_slice()).collect();
    assert_eq!(paths, vec![&b"Cargo.toml"[..], &b"a.txt"[..], &b"b.txt"[..]]);
    let (added, _) = stage_file(&entries, &b"new.rs".to_vec(), 9);
    assert_eq!(added.len(), 4);
}

fn update(path: &[&str], slot: usize) -> PathUpdate {
    PathUpdate { components: path.iter().map(|c| c.as_bytes().to_vec()).collect(), slot }
}

#[test]
fn test_preserves_multiple_files_and_directories() {
    let updates = vec![update(&["Cargo.toml"], 1), update(&["crates", "a", "Cargo.toml"], 2), update(&["README.md"], 3), update(&["Cargo.toml"], 4)];
    assert!(matches!(entry_update(&b"Cargo.toml".to_vec(), &updates), EntryUpdate::Replace(4)));
    assert!(matches!(entry_update(&b"src".to_vec(), &updates), EntryUpdate::Keep));
    match entry_update(&b"crates".to_vec(), &updates) {
        EntryUpdate::Descend(nested) => {
            assert_eq!(nested.len(), 1);
            assert_eq!(nested[0].components, vec![b"a".to_vec(), b"Cargo.toml".to_vec()]);
            assert_eq!(nested[0].slot, 2);
        }
        other => panic!("unexpected {:?}", other),
    }
}

#[test]
fn new_files_become_new_entries() {
    let update = |parts: &[&str], slot: usize| cargo_version_info::tree::PathUpdate {
        components: parts.iter().map(|p| p.as_bytes().to_vec()).collect(),
        slot,
    };
    let updates = vec![
        update(&["Cargo.toml"], 0),
        update(&["npm", "package.json"], 1),
        update(&["npm", "index.js"], 2),
        update(&["README.md"], 3),
        update(&["npm", "package.json"], 4),
    ];
    let existing = vec![b"Cargo.toml".to_vec(), b"src".to_vec()];
    let added = cargo_version_info::tree::added_entry_names(&existing, &updates);
    assert_eq!(added, vec![b"npm".to_vec(), b"README.md".to_vec()]);
    match cargo_version_info::tree::entry_update(&b"npm".to_vec(), &updates) {
        cargo_version_info::tree::EntryUpdate::Descend(nested) => {
            let inner = cargo_version_info::tree::added_entry_names(&Vec::new(), &nested);
            assert_eq!(inner, vec![b"package.json".to_vec(), b"index.js".to_vec()]);
        }
        _ => panic!("npm should be a new directory"),
    }
    assert!(matches!(
        cargo_version_info::tree::entry_update(&b"README.md".to_vec(), &updates),
        cargo_version_info::tree::EntryUpdate::Replace(3)
    ));
}
