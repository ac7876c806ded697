use cargo_version_info::lockfile::{
    apply_cargo_lock_version_hunks, apply_workspace_cargo_lock_version_hunks,
    has_non_cargo_lock_version_changes, has_non_workspace_cargo_lock_version_changes,
};

#[test]
fn test_apply_cargo_lock_version_hunks_only_our_crate() {
    let head = r#"[[package]]
name = "my-crate"
version = "0.1.0"

[[package]]
name = "other-crate"
version = "1.0.0"
"#;
    let working = r#"[[package]]
name = "my-crate"
version = "0.2.0"

[[package]]
name = "other-crate"
version = "1.0.0"
"#;

    let staged =
        apply_cargo_lock_version_hunks(head, working, "my-crate", "0.1.0", "0.2.0").unwrap();

    assert!(staged.contains(r#"version = "0.2.0""#));
    assert!(!staged.contains(r#"version = "0.1.0""#));
}

#[test]
fn test_apply_cargo_lock_version_hunks_for_all_workspace_members() {
    let head = r#"[[package]]
name = "workspace-root"
version = "0.20.1"

[[package]]
name = "workspace-member"
version = "0.20.1"

[[package]]
name = "registry-dependency"
version = "1.0.0"
source = "registry+https://github.com/rust-lang/crates.io-index"
"#;
    let working = r#"[[package]]
name = "workspace-root"
version = "0.20.2"

[[package]]
name = "workspace-member"
version = "0.20.2"

[[package]]
name = "registry-dependency"
version = "2.0.0"
source = "registry+https://github.com/rust-lang/crates.io-index"
"#;
    let workspace_packages = vec!["workspace-root".to_string(), "workspace-member".to_string()];

    let staged = apply_workspace_cargo_lock_version_hunks(
        head,
        working,
        &workspace_packages,
        "0.20.1",
        "0.20.2",
    )
    .unwrap();

    assert_eq!(staged.matches(r#"version = "0.20.2""#).count(), 2);
    assert!(staged.contains("name = \"registry-dependency\"\nversion = \"1.0.0\""));
    assert!(!staged.contains("name = \"registry-dependency\"\nversion = \"2.0.0\""));
}

#[test]
fn test_apply_cargo_lock_version_hunks_mixed_changes() {
    let head = r#"[[package]]
name = "my-crate"
version = "0.1.0"

[[package]]
name = "other-crate"
version = "1.0.0"
"#;
    let working = r#"[[package]]
name = "my-crate"
version = "0.2.0"

[[package]]
name = "other-crate"
version = "2.0.0"
"#;

    let staged =
        apply_cargo_lock_version_hunks(head, working, "my-crate", "0.1.0", "0.2.0").unwrap();

    assert!(staged.contains(r#"name = "my-crate""#));
    assert!(
        staged.contains(r#"version = "0.2.0""#),
        "Our crate's new version should be included"
    );
    assert!(staged.contains(r#"name = "other-crate""#));
    assert!(
        staged.contains(r#"version = "1.0.0""#),
        "Other crate's version should stay at 1.0.0"
    );
    #[allow(clippy::nonminimal_bool)]
    let only_ours = !staged.matches(r#"version = "2.0.0""#).count() > 0
        || staged.matches(r#"version = "0.2.0""#).count() == 1;
    assert!(only_ours, "Only our crate should have updated version");
}

#[test]
fn test_apply_cargo_lock_version_hunks_stale_head_version() {
    let head = r#"[[package]]
name = "my-crate"
version = "0.0.15"
dependencies = [
 "anyhow",
]

[[package]]
name = "other-crate"
version = "1.0.0"
"#;
    let working = r#"[[package]]
name = "my-crate"
version = "0.0.17"
dependencies = [
 "anyhow",
]

[[package]]
name = "other-crate"
version = "1.0.0"
"#;

    let staged =
        apply_cargo_lock_version_hunks(head, working, "my-crate", "0.0.16", "0.0.17").unwrap();

    assert_eq!(staged.matches(r#"version = "0.0.17""#).count(), 1);
    assert!(!staged.contains(r#"version = "0.0.15""#));
    assert!(!staged.contains(r#"version = "0.0.16""#));
}

#[test]
fn test_has_non_cargo_lock_version_changes_true() {
    let head = r#"[[package]]
name = "my-crate"
version = "0.1.0"

[[package]]
name = "other-crate"
version = "1.0.0"
"#;
    let working = r#"[[package]]
name = "my-crate"
version = "0.2.0"

[[package]]
name = "other-crate"
version = "2.0.0"
"#;

    assert!(has_non_cargo_lock_version_changes(
        head, working, "my-crate", "0.1.0", "0.2.0"
    ));
}

#[test]
fn test_has_non_cargo_lock_version_changes_false() {
    let head = r#"[[package]]
name = "my-crate"
version = "0.1.0"
"#;
    let working = r#"[[package]]
name = "my-crate"
version = "0.2.0"
"#;

    assert!(!has_non_cargo_lock_version_changes(
        head, working, "my-crate", "0.1.0", "0.2.0"
    ));
}

#[test]
fn workspace_staging_keeps_dependency_updates_out() {
    let head = "[[package]]\nname = \"a\"\nversion = \"1.0.0\"\n\n[[package]]\nname = \"dep\"\nversion = \"1.0.0\"\nsource = \"registry\"\n";
    let working = "[[package]]\nname = \"a\"\nversion = \"1.0.1\"\n\n[[package]]\nname = \"dep\"\nversion = \"1.2.0\"\nsource = \"registry\"\n";
    let names = vec!["a".to_string()];
    assert!(has_non_workspace_cargo_lock_version_changes(
        head, working, &names, "1.0.0", "1.0.1"
    ));
    let staged = apply_workspace_cargo_lock_version_hunks(head, working, &names, "1.0.0", "1.0.1")
        .unwrap();
    assert_eq!(
        staged,
        "[[package]]\nname = \"a\"\nversion = \"1.0.1\"\n\n[[package]]\nname = \"dep\"\nversion = \"1.0.0\"\nsource = \"registry\"\n"
    );
}

#[test]
fn missing_crate_in_working_lockfile_is_an_error() {
    let head = "[[package]]\nname = \"a\"\nversion = \"1.0.0\"\n";
    let working = "[[package]]\nname = \"b\"\nversion = \"1.0.0\"\n";
    let err = apply_cargo_lock_version_hunks(head, working, "a", "", "").unwrap_err();
    assert_eq!(err.message(), "crate `a` not found in working Cargo.lock");
    assert!(has_non_cargo_lock_version_changes(head, working, "a", "", ""));
}

#[test]
fn head_without_crate_is_kept() {
    let head = "[[package]]\nname = \"b\"\nversion = \"1.0.0\"\n";
    let working = "[[package]]\nname = \"a\"\nversion = \"1.0.0\"\n";
    let staged = apply_cargo_lock_version_hunks(head, working, "a", "", "").unwrap();
    assert_eq!(staged, head);
}

#[test]
fn identical_lockfiles_have_no_other_changes() {
    let lock = "version = 3\n\n[[package]]\nname = \"a\"\nversion = \"1.0.0\"\n";
    assert_eq!(apply_cargo_lock_version_hunks(lock, lock, "a", "", "").unwrap(), lock);
    assert!(!has_non_cargo_lock_version_changes(lock, lock, "a", "", ""));
}

#[test]
fn workspace_splicing_in_either_name_order() {
    let head = "version = 4\n\n[[package]]\nname = \"alpha\"\nversion = \"1.0.0\"\n\n[[package]]\nname = \"beta\"\nversion = \"1.0.0\"\n\n[[package]]\nname = \"serde\"\nversion = \"1.0.100\"\nsource = \"registry+https://github.com/rust-lang/crates.io-index\"\n";
    let working = "version = 4\n\n[[package]]\nname = \"alpha\"\nversion = \"1.1.0\"\n\n[[package]]\nname = \"beta\"\nversion = \"1.1.0\"\n\n[[package]]\nname = \"serde\"\nversion = \"1.0.200\"\nsource = \"registry+https://github.com/rust-lang/crates.io-index\"\n";
    let forward = vec!["alpha".to_string(), "beta".to_string()];
    let backward = vec!["beta".to_string(), "alpha".to_string()];
    let a = apply_workspace_cargo_lock_version_hunks(head, working, &forward, "1.0.0", "1.1.0").unwrap();
    let b = apply_workspace_cargo_lock_version_hunks(head, working, &backward, "1.0.0", "1.1.0").unwrap();
    assert_eq!(a, b);
    assert!(a.contains("name = \"alpha\"\nversion = \"1.1.0\""));
    assert!(a.contains("name = \"beta\"\nversion = \"1.1.0\""));
    assert!(a.contains("version = \"1.0.100\""));
}
