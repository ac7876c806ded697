use cargo_version_info::bump::{
    calculate_target_version, check_version_changes, commit_message, commit_summary,
    commit_version_changes, commit_version_changes_with_files, expand_hook, hook_failure_message,
    verify_version_changes, AdditionalFile, BumpError, CommitError, FileType, TargetVersion,
    VersionInfoConfig, bump_next_action, BumpAction, BumpOptions,
};
use cargo_version_info::manifest::update_cargo_toml_version;

/// Runs a bump with `--no-commit --no-lock --no-readme` on a one-package
/// manifest at version 0.1.2, step by step, and returns the rewritten manifest.
fn bump_without_commit(request: &TargetVersion) -> String {
    let manifest = "\n[package]\nname = \"test\"\nversion = \"0.1.2\"\n".to_string();
    let options = BumpOptions { no_lock: true, no_readme: true, no_commit: true, pre_hooks: 0, post_hooks: 0 };
    let target = calculate_target_version(request, "0.1.2").unwrap();
    check_version_changes("0.1.2", &target).unwrap();
    let mut content = manifest;
    let mut completed: usize = 0;
    loop {
        match bump_next_action(&options, completed) {
            BumpAction::UpdateManifest => {
                content = update_cargo_toml_version("Cargo.toml", &content, "0.1.2", &target).unwrap();
            }
            BumpAction::ReportUncommitted => {}
            BumpAction::Finish => break,
            other => panic!("unexpected step {:?}", other),
        }
        completed += 1;
    }
    assert_eq!(completed, 2);
    content
}

#[test]
fn test_bump_patch_version() {
    let content = bump_without_commit(&TargetVersion::Patch);
    assert!(content.contains("version = \"0.1.3\""));
}

#[test]
fn test_bump_minor_version() {
    let content = bump_without_commit(&TargetVersion::Minor);
    assert!(content.contains("version = \"0.2.0\""));
}

#[test]
fn test_bump_major_version() {
    let content = bump_without_commit(&TargetVersion::Major);
    assert!(content.contains("version = \"1.0.0\""));
}

#[test]
fn test_bump_manual_version() {
    let content = bump_without_commit(&TargetVersion::Explicit(" 2.5.10 ".to_string()));
    assert!(content.contains("version = \"2.5.10\""));
}

#[test]
fn test_bump_same_version_error() {
    let target = calculate_target_version(&TargetVersion::Explicit("0.1.2".to_string()), "0.1.2").unwrap();
    let err = check_version_changes("0.1.2", &target).unwrap_err();
    assert!(err.message().contains("already the target version"));
    assert_eq!(err.message(), "Current version (0.1.2) is already the target version. Nothing to bump.");
}

#[test]
fn target_version_errors_and_suggestions() {
    assert!(matches!(calculate_target_version(&TargetVersion::Patch, "not-a-version"), Err(BumpError::Version(_))));
    assert!(matches!(calculate_target_version(&TargetVersion::Patch, "1.2.4294967295"), Err(BumpError::Version(_))));
    assert_eq!(calculate_target_version(&TargetVersion::Suggested(" 0.3.0".to_string()), "x").unwrap(), " 0.3.0");
    assert_eq!(calculate_target_version(&TargetVersion::Patch, "v1.2.3").unwrap(), "1.2.4");
    assert!(check_version_changes("0.1.2", "0.1.3").is_ok());
}

#[test]
fn commit_texts() {
    assert_eq!(commit_message("0.1.0", "0.2.0"), "chore(version): bump 0.1.0 -> 0.2.0");
    assert_eq!(commit_summary("0.1.0", "0.2.0", 1), "✓ Committed version bump: 0.1.0 -> 0.2.0 (1 file)");
    assert_eq!(commit_summary("0.1.0", "0.2.0", 3), "✓ Committed version bump: 0.1.0 -> 0.2.0 (3 files)");
}

#[test]
fn test_run_hook_version_substitution() {
    assert_eq!(expand_hook("echo '{{version}}' > out.txt", "2.3.4"), "echo '2.3.4' > out.txt");
    assert_eq!(expand_hook("a {{version}} b {{version}}", "1.0.0"), "a 1.0.0 b 1.0.0");
    assert_eq!(expand_hook("{{version", "1.0.0"), "{{version");
    assert_eq!(expand_hook("{{{version}}}", "1"), "{1}");
}

#[test]
fn test_run_hook_failure() {
    let m = hook_failure_message(Some(1), "false");
    assert!(m.contains("exit code"));
    assert_eq!(m, "Hook failed with exit code 1: false");
    assert_eq!(hook_failure_message(None, "kill"), "Hook failed with exit code unknown: kill");
    assert_eq!(hook_failure_message(Some(-2), "x"), "Hook failed with exit code -2: x");
}

#[test]
fn test_version_info_config_default() {
    let config = VersionInfoConfig::default();
    assert!(config.pre_bump_hooks.is_empty());
    assert!(config.post_bump_hooks.is_empty());
    assert!(config.additional_files.is_empty());
}

const HEAD_TOML: &str = "[package]\nname = \"demo\"\nversion = \"0.1.0\"\nedition = \"2021\"\n";

#[test]
fn test_hunk_level_staging_only_version_line() {
    let initial_content = "[package]\nname = \"test\"\nversion = \"0.1.0\"\ndescription = \"original description\"\nedition = \"2021\"\n";
    // The working copy after the bump: new version and an unrelated edit.
    let working = "[package]\nname = \"test\"\nversion = \"0.2.0\"\ndescription = \"modified description\"\nedition = \"2021\"\n";
    let plan = commit_version_changes("Cargo.toml", &Some(initial_content.to_string()), working, "test", "0.1.0", "0.2.0").unwrap();
    let committed = &plan.files[0].content;
    assert!(committed.contains("version = \"0.2.0\""));
    assert!(committed.contains("description = \"original description\""));
    assert!(!committed.contains("description = \"modified description\""));
    assert!(plan.files[0].hunk_level);
    assert_eq!(plan.message, "chore(version): bump 0.1.0 -> 0.2.0");
}

#[test]
fn test_hunk_level_staging_multiple_changes() {
    let initial_content = "[package]\nname = \"test\"\nversion = \"1.0.0\"\nauthors = [\"Original Author\"]\ndescription = \"A test crate\"\nlicense = \"MIT\"\n";
    let working = "[package]\nname = \"test\"\nversion = \"1.0.1\"\nauthors = [\"New Author\"]\ndescription = \"An updated test crate\"\nlicense = \"Apache-2.0\"\n";
    let target = calculate_target_version(&TargetVersion::Patch, "1.0.0").unwrap();
    assert_eq!(target, "1.0.1");
    let plan = commit_version_changes("Cargo.toml", &Some(initial_content.to_string()), working, "test", "1.0.0", &target).unwrap();
    let committed = &plan.files[0].content;
    assert!(committed.contains("version = \"1.0.1\""));
    assert!(committed.contains("authors = [\"Original Author\"]"));
    assert!(committed.contains("description = \"A test crate\""));
    assert!(committed.contains("license = \"MIT\""));
}

#[test]
fn manifest_with_only_the_version_change_is_committed_whole() {
    let current = "[package]\nname = \"demo\"\nversion = \"0.2.0\"\nedition = \"2021\"\n";
    let plan = commit_version_changes("Cargo.toml", &Some(HEAD_TOML.to_string()), current, "demo", "0.1.0", "0.2.0").unwrap();
    assert_eq!(plan.files.len(), 1);
    assert_eq!(plan.files[0].path, "Cargo.toml");
    assert_eq!(plan.files[0].content, current);
    assert!(!plan.files[0].hunk_level);
}

#[test]
fn commit_plan_errors() {
    let e = commit_version_changes("Cargo.toml", &Some(HEAD_TOML.to_string()), HEAD_TOML, "demo", "0.1.0", "0.2.0").unwrap_err();
    assert_eq!(e.message(), "No version-related changes found");
    let current = "[package]\nversion = \"0.2.0\"\n";
    let e = commit_version_changes("Cargo.toml", &None, current, "demo", "0.1.0", "0.2.0").unwrap_err();
    assert!(matches!(e, CommitError::NotInHead));
    assert!(verify_version_changes(&None, current, "0.1.0", "0.2.0").is_ok());
    assert!(verify_version_changes(&None, "name = \"0.2.0\"", "0.1.0", "0.2.0").is_err());
}

#[test]
fn test_readme_selective_staging() {
    let head_readme = "# demo\n\ndemo = \"0.1.0\"\n\nOld intro.\n";
    let working_readme = "# demo\n\ndemo = \"0.2.0\"\n\nNew intro.\n";
    let current = "[package]\nname = \"demo\"\nversion = \"0.2.0\"\nedition = \"2021\"\n";
    let files = vec![AdditionalFile {
        path: "README.md".to_string(),
        working_content: working_readme.to_string(),
        head_content: Some(head_readme.to_string()),
        file_type: FileType::Readme,
    }];
    let plan = commit_version_changes_with_files(
        "Cargo.toml", &Some(HEAD_TOML.to_string()), current, "demo", "0.1.0", "0.2.0", &files, &[],
    )
    .unwrap();
    assert_eq!(plan.files.len(), 2);
    assert_eq!(plan.files[1].path, "README.md");
    assert!(plan.files[1].hunk_level);
    assert_eq!(plan.files[1].content, "# demo\n\ndemo = \"0.2.0\"\n\nOld intro.\n");
}

#[test]
fn test_cargo_lock_selective_staging() {
    let head_lock = "version = 4\n\n[[package]]\nname = \"demo\"\nversion = \"0.1.0\"\n\n[[package]]\nname = \"serde\"\nversion = \"1.0.0\"\nsource = \"registry+https://github.com/rust-lang/crates.io-index\"\n";
    let working_lock = "version = 4\n\n[[package]]\nname = \"demo\"\nversion = \"0.2.0\"\n\n[[package]]\nname = \"serde\"\nversion = \"1.0.1\"\nsource = \"registry+https://github.com/rust-lang/crates.io-index\"\n";
    let current = "[package]\nname = \"demo\"\nversion = \"0.2.0\"\nedition = \"2021\"\n";
    let files = vec![
        AdditionalFile {
            path: "Cargo.lock".to_string(),
            working_content: working_lock.to_string(),
            head_content: Some(head_lock.to_string()),
            file_type: FileType::CargoLock,
        },
        AdditionalFile {
            path: "package.json".to_string(),
            working_content: "{}".to_string(),
            head_content: None,
            file_type: FileType::Other,
        },
    ];
    let names = vec!["demo".to_string()];
    let plan = commit_version_changes_with_files(
        "Cargo.toml", &Some(HEAD_TOML.to_string()), current, "demo", "0.1.0", "0.2.0", &files, &names,
    )
    .unwrap();
    assert_eq!(plan.files.len(), 3);
    assert!(plan.files[1].hunk_level);
    assert!(plan.files[1].content.contains("name = \"demo\"\nversion = \"0.2.0\""));
    assert!(plan.files[1].content.contains("version = \"1.0.0\""));
    assert_eq!(plan.files[2].content, "{}");
    assert!(!plan.files[2].hunk_level);
}

#[test]
fn cargo_lock_missing_member_is_an_error() {
    let head_lock = "[[package]]\nname = \"demo\"\nversion = \"0.1.0\"\n";
    let working_lock = "[[package]]\nname = \"other\"\nversion = \"0.1.0\"\n";
    let current = "[package]\nname = \"demo\"\nversion = \"0.2.0\"\nedition = \"2021\"\n";
    let files = vec![AdditionalFile {
        path: "Cargo.lock".to_string(),
        working_content: working_lock.to_string(),
        head_content: Some(head_lock.to_string()),
        file_type: FileType::CargoLock,
    }];
    let names = vec!["demo".to_string()];
    let e = commit_version_changes_with_files(
        "Cargo.toml", &Some(HEAD_TOML.to_string()), current, "demo", "0.1.0", "0.2.0", &files, &names,
    )
    .unwrap_err();
    assert!(matches!(e, CommitError::Lockfile(_)));
}

#[test]
fn bump_steps_in_order() {
    let all = BumpOptions { no_lock: false, no_readme: false, no_commit: false, pre_hooks: 2, post_hooks: 1 };
    let expected = [
        BumpAction::UpdateManifest,
        BumpAction::RunPreHook(0),
        BumpAction::RunPreHook(1),
        BumpAction::UpdateLock,
        BumpAction::UpdateReadme,
        BumpAction::Commit,
        BumpAction::RunPostHook(0),
        BumpAction::Finish,
        BumpAction::Finish,
    ];
    for (i, step) in expected.iter().enumerate() {
        assert_eq!(bump_next_action(&all, i), *step);
    }
}

#[test]
fn bump_steps_without_commit_skip_post_hooks() {
    let options = BumpOptions { no_lock: true, no_readme: false, no_commit: true, pre_hooks: 1, post_hooks: 3 };
    let expected = [
        BumpAction::UpdateManifest,
        BumpAction::RunPreHook(0),
        BumpAction::UpdateReadme,
        BumpAction::ReportUncommitted,
        BumpAction::Finish,
    ];
    for (i, step) in expected.iter().enumerate() {
        assert_eq!(bump_next_action(&options, i), *step);
    }
    let bare = BumpOptions { no_lock: true, no_readme: true, no_commit: false, pre_hooks: 0, post_hooks: 0 };
    assert_eq!(bump_next_action(&bare, 1), BumpAction::Commit);
    assert_eq!(bump_next_action(&bare, 2), BumpAction::Finish);
}
