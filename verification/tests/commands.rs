use cargo_version_info::commands::{
    build_version_report, build_version_step, changed, compare, current, dev, dioxus, latest,
    latest_version_tag, next, post_bump_hook, pr_log, rust_toolchain, tag, toolchain_channel,
    update_readme, BuildVersion, BuildVersionAction, BuildVersionSource, BuildVersionStep,
    ChangedArgs, CommandError, CompareArgs, CurrentArgs, DevArgs, DioxusArgs, LatestArgs,
    NextArgs, PostBumpHookArgs, PrLogArgs, RustToolchainArgs, TagArgs, UpdateReadmeArgs,
};

fn compare_args(v1: &str, v2: &str, format: &str) -> CompareArgs {
    CompareArgs { version1: v1.to_string(), version2: v2.to_string(), format: format.to_string() }
}

#[test]
fn test_compare_version1_greater() {
    assert_eq!(compare(&compare_args("0.2.0", "0.1.0", "bool")).unwrap(), "true\n");
}

#[test]
fn test_compare_version1_less() {
    assert_eq!(compare(&compare_args("0.1.0", "0.2.0", "bool")).unwrap(), "false\n");
}

#[test]
fn test_compare_versions_equal() {
    assert_eq!(compare(&compare_args("0.1.0", "0.1.0", "bool")).unwrap(), "false\n");
}

#[test]
fn test_compare_json_format() {
    assert_eq!(
        compare(&compare_args("1.0.0", "0.9.0", "json")).unwrap(),
        "{\"result\":\"greater\",\"version1\":\"1.0.0\",\"version2\":\"0.9.0\"}\n"
    );
}

#[test]
fn test_compare_diff_format() {
    assert_eq!(compare(&compare_args("2.0.0", "1.0.0", "diff")).unwrap(), "2.0.0 > 1.0.0\n");
}

#[test]
fn test_compare_with_v_prefix() {
    assert_eq!(compare(&compare_args("v0.2.0", "v0.1.0", "bool")).unwrap(), "true\n");
}

#[test]
fn test_compare_invalid_version1() {
    let e = compare(&compare_args("invalid", "0.1.0", "bool")).unwrap_err();
    assert!(e.message().contains("invalid"));
}

#[test]
fn test_compare_invalid_version2() {
    assert!(compare(&compare_args("0.1.0", "invalid", "bool")).is_err());
}

#[test]
fn test_compare_invalid_format() {
    let e = compare(&compare_args("0.1.0", "0.2.0", "invalid")).unwrap_err();
    assert_eq!(e.message(), "Invalid format: invalid");
}

#[test]
fn test_compare_major_difference() {
    assert_eq!(compare(&compare_args("2.0.0", "1.9.9", "bool")).unwrap(), "true\n");
}

#[test]
fn test_compare_minor_difference() {
    assert_eq!(compare(&compare_args("1.2.0", "1.1.9", "bool")).unwrap(), "true\n");
}

#[test]
fn test_compare_patch_difference() {
    assert_eq!(compare(&compare_args("1.1.2", "1.1.1", "bool")).unwrap(), "true\n");
}

#[test]
fn compare_less_and_equal_in_json_and_diff() {
    assert_eq!(
        compare(&compare_args("0.1.0", "0.2.0", "json")).unwrap(),
        "{\"result\":\"less\",\"version1\":\"0.1.0\",\"version2\":\"0.2.0\"}\n"
    );
    assert_eq!(compare(&compare_args("v1.0.0", "1.0.0", "diff")).unwrap(), "v1.0.0 == 1.0.0\n");
    assert_eq!(compare(&compare_args("1.0.0", "1.0.1", "diff")).unwrap(), "1.0.0 < 1.0.1\n");
}

fn tag_args(v: &str, format: &str) -> TagArgs {
    TagArgs { version: v.to_string(), format: format.to_string() }
}

#[test]
fn test_tag_version_format() {
    assert_eq!(tag(&tag_args("0.1.2", "tag")).unwrap(), "v0.1.2\n");
}

#[test]
fn test_tag_with_v_prefix() {
    assert_eq!(tag(&tag_args("v0.1.2", "tag")).unwrap(), "v0.1.2\n");
}

#[test]
fn test_tag_json_format() {
    assert_eq!(tag(&tag_args("1.2.3", "json")).unwrap(), "{\"tag\":\"v1.2.3\",\"version\":\"1.2.3\"}\n");
}

#[test]
fn test_tag_invalid_version() {
    assert!(matches!(tag(&tag_args("invalid", "tag")), Err(CommandError::Version(_))));
}

#[test]
fn test_tag_invalid_format() {
    assert!(matches!(tag(&tag_args("0.1.2", "invalid")), Err(CommandError::InvalidFormat(_))));
}

#[test]
fn test_tag_major_version() {
    assert_eq!(tag(&tag_args("10.20.30", "tag")).unwrap(), "v10.20.30\n");
}

fn current_args(format: &str) -> CurrentArgs {
    CurrentArgs { manifest_path: None, format: format.to_string(), github_output: None }
}

#[test]
fn test_current_package_version() {
    let r = current(&current_args("version"), "1.2.3").unwrap();
    assert_eq!(r.text, "1.2.3\n");
    assert!(!r.to_github_output);
}

#[test]
fn test_current_json_format() {
    assert_eq!(current(&current_args("json"), "0.5.0").unwrap().text, "{\"version\":\"0.5.0\"}\n");
}

#[test]
fn test_current_github_actions_format() {
    let r = current(&current_args("github-actions"), "2.0.0").unwrap();
    assert!(r.to_github_output);
    assert!(r.text.contains("version=2.0.0"));
}

#[test]
fn test_current_invalid_format() {
    assert!(current(&current_args("invalid"), "1.0.0").is_err());
}

#[test]
fn test_dev_json_format() {
    let args = DevArgs { repo_path: ".".to_string(), format: "json".to_string() };
    assert_eq!(
        dev(&args, "a1b2c3d").unwrap(),
        "{\"version\":\"0.0.0-dev-a1b2c3d\",\"sha\":\"a1b2c3d\"}\n"
    );
}

#[test]
fn test_dev_invalid_format() {
    let args = DevArgs { repo_path: ".".to_string(), format: "invalid".to_string() };
    assert!(dev(&args, "a1b2c3d").is_err());
}

#[test]
fn dev_version_format() {
    let args = DevArgs { repo_path: ".".to_string(), format: "version".to_string() };
    assert_eq!(dev(&args, "abc1234").unwrap(), "0.0.0-dev-abc1234\n");
}

fn latest_args(format: &str) -> LatestArgs {
    LatestArgs { owner: None, repo: None, github_token: None, format: format.to_string() }
}

#[test]
fn latest_reports_release_or_zero() {
    assert_eq!(latest(&latest_args("version"), &Some("1.4.0".to_string())).unwrap(), "1.4.0\n");
    assert_eq!(latest(&latest_args("version"), &None).unwrap(), "0.0.0\n");
    assert_eq!(latest(&latest_args("tag"), &None).unwrap(), "v0.0.0\n");
    assert_eq!(
        latest(&latest_args("json"), &Some("2.1.0".to_string())).unwrap(),
        "{\"version\":\"2.1.0\",\"tag\":\"v2.1.0\"}\n"
    );
    assert!(matches!(latest(&latest_args("tag"), &Some("nightly".to_string())), Err(CommandError::Version(_))));
    assert!(matches!(latest(&latest_args("xml"), &None), Err(CommandError::InvalidFormat(_))));
    assert_eq!(latest(&latest_args("version"), &Some("nightly".to_string())).unwrap(), "nightly\n");
}

fn next_args(format: &str) -> NextArgs {
    NextArgs { owner: None, repo: None, github_token: None, format: format.to_string(), github_output: None }
}

#[test]
fn next_reports_each_format() {
    assert_eq!(next(&next_args("version"), "0.1.2", "0.1.3").unwrap().text, "0.1.3\n");
    assert_eq!(next(&next_args("tag"), "0.1.2", "0.1.3").unwrap().text, "v0.1.3\n");
    assert_eq!(
        next(&next_args("json"), "0.1.2", "0.1.3").unwrap().text,
        "{\"latest\":\"0.1.2\",\"next\":\"0.1.3\",\"next_tag\":\"v0.1.3\"}\n"
    );
    let gh = next(&next_args("github-actions"), "0.1.2", "0.1.3").unwrap();
    assert!(gh.to_github_output);
    assert_eq!(gh.text, "latest_version=0.1.2\nnext_version=0.1.3\nnext_tag=v0.1.3\n");
    assert!(matches!(next(&next_args("bogus"), "0.1.2", "0.1.3"), Err(CommandError::InvalidFormat(_))));
    assert!(matches!(next(&next_args("bogus"), "0.1.2", "x"), Err(CommandError::Version(_))));
}

fn refs(names: &[&str]) -> Vec<String> {
    names.iter().map(|s| s.to_string()).collect()
}

fn changed_args(format: &str) -> ChangedArgs {
    ChangedArgs { manifest_path: None, repo_path: ".".to_string(), format: format.to_string(), github_output: None }
}

#[test]
fn test_changed_bool_format() {
    let tags = refs(&["refs/heads/main", "refs/tags/v1.0.0"]);
    assert_eq!(changed(&changed_args("bool"), "1.1.0", &tags).unwrap().text, "true\n");
    assert_eq!(changed(&changed_args("bool"), "1.0.0", &tags).unwrap().text, "false\n");
}

#[test]
fn test_changed_json_format() {
    let tags = refs(&["refs/tags/v1.0.0"]);
    assert_eq!(
        changed(&changed_args("json"), "1.1.0", &tags).unwrap().text,
        "{\"changed\":true,\"cargo_version\":\"1.1.0\",\"latest_tag_version\":\"1.0.0\"}\n"
    );
}

#[test]
fn test_changed_diff_format() {
    let tags = refs(&["refs/tags/v1.0.0"]);
    assert_eq!(changed(&changed_args("diff"), "1.1.0", &tags).unwrap().text, "Version changed: 1.0.0 -> 1.1.0\n");
    assert_eq!(changed(&changed_args("diff"), "1.0.0", &tags).unwrap().text, "Version unchanged: 1.0.0\n");
}

#[test]
fn test_changed_github_actions_format() {
    let r = changed(&changed_args("github-actions"), "0.2.0", &refs(&[])).unwrap();
    assert!(r.to_github_output);
    assert_eq!(r.text, "changed=true\nversion=0.2.0\nlatest_tag_version=0.0.0\n");
}

#[test]
fn test_changed_invalid_format() {
    assert!(matches!(changed(&changed_args("yaml"), "0.2.0", &refs(&[])), Err(CommandError::InvalidFormat(_))));
}

#[test]
fn latest_tag_by_semantic_version() {
    assert_eq!(latest_version_tag(&refs(&[])), "v0.0.0");
    assert_eq!(latest_version_tag(&refs(&["refs/tags/v0.10.0", "refs/tags/v0.9.0"])), "v0.10.0");
    assert_eq!(latest_version_tag(&refs(&["refs/tags/1.0.0-rc.1", "refs/tags/0.9.0"])), "1.0.0-rc.1");
    assert_eq!(latest_version_tag(&refs(&["refs/tags/v1.0.0", "refs/tags/v1.0.0-rc.1"])), "v1.0.0");
    assert_eq!(latest_version_tag(&refs(&["refs/tags/nightly", "refs/heads/v9.0.0"])), "v0.0.0");
    // Equal versions: the later tag wins.
    assert_eq!(latest_version_tag(&refs(&["refs/tags/v1.0.0", "refs/tags/V1.0.0"])), "V1.0.0");
}

fn hook_args(target: Option<&str>, previous: Option<&str>, exit_on_error: bool) -> PostBumpHookArgs {
    PostBumpHookArgs {
        manifest_path: None,
        repo_path: ".".to_string(),
        target_version: target.map(|s| s.to_string()),
        previous_version: previous.map(|s| s.to_string()),
        exit_on_error,
    }
}

#[test]
fn test_post_bump_hook_success() {
    let r = post_bump_hook(&hook_args(Some("1.0.0"), Some("0.9.0"), true), "1.0.0");
    assert!(r.failure.is_none());
    let lines: Vec<&str> = r.messages.iter().map(|m| m.text.as_str()).collect();
    assert_eq!(lines, vec!["✓ Version bump verified: 1.0.0", "  Previous version: 0.9.0", "  New version: 1.0.0"]);
}

#[test]
fn test_post_bump_hook_version_mismatch() {
    let r = post_bump_hook(&hook_args(Some("1.0.0"), Some("0.9.0"), true), "0.9.1");
    assert_eq!(r.failure.as_deref(), Some("Version bump verification failed"));
    assert_eq!(r.messages.len(), 1);
    assert!(r.messages[0].to_stderr);
    assert_eq!(r.messages[0].text, "❌ Error: Cargo.toml version (0.9.1) doesn't match expected target (1.0.0)");
}

#[test]
fn test_post_bump_hook_version_unchanged() {
    let r = post_bump_hook(&hook_args(None, Some("0.9.0"), true), "0.9.0");
    assert_eq!(r.failure.as_deref(), Some("Version bump appears to have failed"));
    assert_eq!(r.messages.last().unwrap().text, "⚠️  Warning: Version didn't change (still 0.9.0)");
}

#[test]
fn test_post_bump_hook_no_target_version() {
    let r = post_bump_hook(&hook_args(None, None, true), "2.0.0");
    assert!(r.failure.is_none());
    let lines: Vec<&str> = r.messages.iter().map(|m| m.text.as_str()).collect();
    assert_eq!(lines, vec!["✓ Post-bump check passed", "  Current version: 2.0.0"]);
}

#[test]
fn test_post_bump_hook_no_previous_version() {
    let r = post_bump_hook(&hook_args(Some("1.5.0"), None, true), "1.5.0");
    assert!(r.failure.is_none());
    assert_eq!(r.messages.len(), 1);
}

#[test]
fn test_post_bump_hook_exit_on_error_false() {
    let r = post_bump_hook(&hook_args(Some("1.0.0"), Some("0.9.0"), false), "0.9.1");
    assert!(r.failure.is_none());
    assert_eq!(r.messages.len(), 3);
}

#[test]
fn post_bump_hook_trims_expected_versions() {
    let r = post_bump_hook(&hook_args(Some(" 1.0.0\n"), Some(" 0.9.0 "), true), "1.0.0");
    assert!(r.failure.is_none());
    assert_eq!(r.messages[1].text, "  Previous version: 0.9.0");
}

fn toolchain_args(format: &str) -> RustToolchainArgs {
    RustToolchainArgs { toolchain_file: ".rust-toolchain.toml".to_string(), format: format.to_string() }
}

#[test]
fn test_rust_toolchain_double_quotes() {
    let content = "[toolchain]\nchannel = \"1.75.0\"\n";
    assert_eq!(rust_toolchain(&toolchain_args("version"), content).unwrap(), "1.75.0\n");
}

#[test]
fn test_rust_toolchain_single_quotes() {
    let content = "[toolchain]\nchannel = '1.76.0'\n";
    assert_eq!(rust_toolchain(&toolchain_args("version"), content).unwrap(), "1.76.0\n");
}

#[test]
fn test_rust_toolchain_json_format() {
    let content = "[toolchain]\nchannel = \"nightly\"\n";
    assert_eq!(rust_toolchain(&toolchain_args("json"), content).unwrap(), "{\"version\":\"nightly\"}\n");
}

#[test]
fn test_rust_toolchain_no_channel() {
    let e = rust_toolchain(&toolchain_args("version"), "[toolchain]\ncomponents = [\"rustfmt\"]\n").unwrap_err();
    assert_eq!(e.message(), "No channel found in .rust-toolchain.toml");
}

#[test]
fn test_rust_toolchain_invalid_format() {
    assert!(rust_toolchain(&toolchain_args("invalid"), "channel = \"stable\"\n").is_err());
}

#[test]
fn test_rust_toolchain_with_spaces() {
    let content = "[toolchain]\n   channel   =   \"1.80.0\"   \n";
    assert_eq!(rust_toolchain(&toolchain_args("version"), content).unwrap(), "1.80.0\n");
}

#[test]
fn toolchain_channel_edge_cases() {
    assert_eq!(toolchain_channel("channel = \"unterminated\nchannel = 'b'\n"), Some("b".to_string()));
    assert_eq!(toolchain_channel("channel = \"a\" # 'b'"), Some("a".to_string()));
    assert_eq!(toolchain_channel("# channel = \"x\"\n"), None);
    assert_eq!(toolchain_channel("channel = stable\n"), None);
}

fn dioxus_args(format: &str) -> DioxusArgs {
    DioxusArgs { manifest: "Cargo.toml".to_string(), format: format.to_string() }
}

#[test]
fn test_dioxus_direct_version() {
    let content = "\n[dependencies]\ndioxus = { version = \"0.7.0\" }\n";
    assert_eq!(dioxus(&dioxus_args("version"), content).unwrap(), "0.7.0\n");
}

#[test]
fn test_dioxus_workspace_inheritance() {
    let content = "\n[workspace.package]\nversion = \"0.8.0\"\n\n[dependencies]\ndioxus = { workspace = true }\n";
    assert_eq!(dioxus(&dioxus_args("version"), content).unwrap(), "0.8.0\n");
}

#[test]
fn test_dioxus_json_format() {
    let content = "\n[dependencies]\ndioxus = { version = \"0.9.0\" }\n";
    assert_eq!(dioxus(&dioxus_args("json"), content).unwrap(), "{\"version\":\"0.9.0\"}\n");
}

#[test]
fn test_dioxus_not_found() {
    let content = "\n[dependencies]\nserde = { version = \"1.0\" }\n";
    let e = dioxus(&dioxus_args("version"), content).unwrap_err();
    assert_eq!(e.message(), "No dioxus version found in Cargo.toml");
}

#[test]
fn test_dioxus_invalid_format() {
    let content = "\n[dependencies]\ndioxus = { version = \"0.7.0\" }\n";
    assert!(matches!(dioxus(&dioxus_args("invalid"), content), Err(CommandError::InvalidFormat(_))));
}

#[test]
fn test_dioxus_invalid_toml() {
    let e = dioxus(&dioxus_args("version"), "\n[invalid toml content\n").unwrap_err();
    assert_eq!(e.message(), "Failed to parse Cargo.toml");
}

#[test]
fn dioxus_plain_string_dependency_has_no_version_field() {
    let content = "[dependencies]\ndioxus = \"0.6\"\n";
    assert!(matches!(dioxus(&dioxus_args("version"), content), Err(CommandError::NoDioxusVersion(_))));
}

#[test]
fn unavailable_commands_always_fail() {
    let e = pr_log(&PrLogArgs { since_tag: None, output: None, owner: None, repo: None }).unwrap_err();
    assert_eq!(
        e.message(),
        "PR log generation is not yet implemented. This feature will be available in a future release."
    );
    let e = update_readme(&UpdateReadmeArgs { readme: "README.md".to_string(), badges: None }).unwrap_err();
    assert_eq!(
        e.message(),
        "README update is not yet implemented. This feature will be available in a future release."
    );
}

fn found(action: BuildVersionAction) -> BuildVersion {
    match action {
        BuildVersionAction::Found(b) => b,
        other => panic!("expected a version, got {:?}", other),
    }
}

#[test]
fn test_build_version_env_priority() {
    let step = BuildVersionStep::Environment {
        build_version: Some("1.2.3".to_string()),
        version_override: Some("9.9.9".to_string()),
        github_actions: true,
    };
    let b = found(build_version_step(&step));
    assert_eq!(b.version, "1.2.3");
    assert_eq!(b.source, BuildVersionSource::Environment);
    assert_eq!(build_version_report(&b, "version").unwrap(), "1.2.3\n");
}

#[test]
fn test_build_version_env_json() {
    let step = BuildVersionStep::Environment { build_version: Some("2.0.0".to_string()), version_override: None, github_actions: false };
    let b = found(build_version_step(&step));
    assert_eq!(build_version_report(&b, "json").unwrap(), "{\"version\":\"2.0.0\",\"source\":\"environment\"}\n");
}

#[test]
fn test_build_version_invalid_format() {
    let step = BuildVersionStep::Environment { build_version: Some("2.0.0".to_string()), version_override: None, github_actions: false };
    let b = found(build_version_step(&step));
    assert!(matches!(build_version_report(&b, "yaml"), Err(CommandError::InvalidFormat(_))));
}

#[test]
fn test_build_version_empty_env_var() {
    // An empty BUILD_VERSION falls through to the next priority.
    let step = BuildVersionStep::Environment { build_version: Some("".to_string()), version_override: Some("2.0.0".to_string()), github_actions: false };
    let b = found(build_version_step(&step));
    assert_eq!(build_version_report(&b, "json").unwrap(), "{\"version\":\"2.0.0\",\"source\":\"environment\"}\n");
    let step = BuildVersionStep::Environment { build_version: Some("   ".to_string()), version_override: None, github_actions: false };
    assert!(matches!(build_version_step(&step), BuildVersionAction::ReadManifest));
    let step = BuildVersionStep::Environment { build_version: Some(String::new()), version_override: Some(" ".to_string()), github_actions: true };
    assert!(matches!(build_version_step(&step), BuildVersionAction::QueryGithub));
}

#[test]
fn test_build_version_override_priority() {
    let step = BuildVersionStep::Environment { build_version: None, version_override: Some("3.1.0".to_string()), github_actions: true };
    assert_eq!(found(build_version_step(&step)).version, "3.1.0");
}

#[test]
fn test_build_version_cargo_pkg_version() {
    let step = BuildVersionStep::Manifest { version: Some(" 0.4.2 ".to_string()), short_sha: Some("abc1234".to_string()) };
    let b = found(build_version_step(&step));
    assert_eq!(b.version, "0.4.2-abc1234");
    assert_eq!(build_version_report(&b, "json").unwrap(), "{\"version\":\"0.4.2-abc1234\",\"source\":\"cargo_toml\"}\n");
}

#[test]
fn build_version_fallbacks_in_order() {
    let step = BuildVersionStep::Environment { build_version: None, version_override: None, github_actions: true };
    assert!(matches!(build_version_step(&step), BuildVersionAction::QueryGithub));
    assert!(matches!(build_version_step(&BuildVersionStep::Github(None)), BuildVersionAction::ReadManifest));
    let b = found(build_version_step(&BuildVersionStep::Github(Some("0.1.3".to_string()))));
    assert_eq!(build_version_report(&b, "json").unwrap(), "{\"version\":\"0.1.3\",\"source\":\"github_api\"}\n");
    let step = BuildVersionStep::Manifest { version: Some("0.0.0".to_string()), short_sha: Some("abc".to_string()) };
    assert!(matches!(build_version_step(&step), BuildVersionAction::ReadHead));
    let step = BuildVersionStep::Manifest { version: Some("1.0.0".to_string()), short_sha: None };
    assert_eq!(found(build_version_step(&step)).version, "1.0.0");
    let b = found(build_version_step(&BuildVersionStep::Head("a1b2c3d".to_string())));
    assert_eq!(b.version, "0.0.0-dev-a1b2c3d");
    assert_eq!(
        build_version_report(&b, "json").unwrap(),
        "{\"version\":\"0.0.0-dev-a1b2c3d\",\"sha\":\"a1b2c3d\",\"source\":\"git\"}\n"
    );
}
