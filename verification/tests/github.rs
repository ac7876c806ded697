use cargo_version_info::github::{
    calculate_next_version, classify_release_failure, get_latest_git_tag_version,
    release_tag_version, ReleaseQueryFailure,
};

fn refs(tags: &[&str]) -> Vec<String> {
    tags.iter().map(|t| format!("refs/tags/{}", t)).collect()
}

#[test]
fn test_get_latest_git_tag_version_no_tags() {
    assert_eq!(get_latest_git_tag_version(&refs(&[])), None);
}

#[test]
fn test_get_latest_git_tag_version_single_tag() {
    assert_eq!(get_latest_git_tag_version(&refs(&["v0.1.0"])), Some("0.1.0".to_string()));
}

#[test]
fn test_get_latest_git_tag_version_multiple_tags() {
    assert_eq!(get_latest_git_tag_version(&refs(&["v0.1.0", "v0.2.0", "v0.1.5"])), Some("0.2.0".to_string()));
}

#[test]
fn test_get_latest_git_tag_version_without_v_prefix() {
    assert_eq!(get_latest_git_tag_version(&refs(&["0.3.0", "v0.2.0"])), Some("0.3.0".to_string()));
}

#[test]
fn test_calculate_next_version_no_tags() {
    let (latest, next) = calculate_next_version(&refs(&[])).unwrap();
    assert_eq!(latest, "0.0.0");
    assert_eq!(next, "0.0.1");
}

#[test]
fn test_calculate_next_version_with_tags() {
    let (latest, next) = calculate_next_version(&refs(&["v0.1.2"])).unwrap();
    assert_eq!(latest, "0.1.2");
    assert_eq!(next, "0.1.3");
}

#[test]
fn latest_tag_ignores_non_versions_and_other_refs() {
    let mut names = refs(&["nightly", "v1.0", "v0.9.9"]);
    names.push("refs/heads/v5.0.0".to_string());
    assert_eq!(get_latest_git_tag_version(&names), Some("0.9.9".to_string()));
    assert_eq!(get_latest_git_tag_version(&refs(&["v1.2.3", "1.2.3"])), Some("1.2.3".to_string()));
    assert!(calculate_next_version(&refs(&["v1.2.4294967295"])).is_err());
}

#[test]
fn release_failures_are_classified() {
    assert!(matches!(classify_release_failure("No releases found", false), ReleaseQueryFailure::NoRelease));
    match classify_release_failure("HTTP 404 Not Found", false) {
        ReleaseQueryFailure::Explained { message, context } => {
            assert!(message.starts_with("Repository not found or is private."));
            assert_eq!(context, "HTTP 404 Not Found");
        }
        other => panic!("unexpected {:?}", other),
    }
    assert!(matches!(classify_release_failure("HTTP 404", true), ReleaseQueryFailure::Unchanged));
    assert!(matches!(classify_release_failure("403 Forbidden", true), ReleaseQueryFailure::Explained { .. }));
    assert!(matches!(classify_release_failure("timeout", false), ReleaseQueryFailure::Unchanged));
}

#[test]
fn release_tags_lose_their_prefix() {
    assert_eq!(release_tag_version("v1.2.3"), "1.2.3");
    assert_eq!(release_tag_version("V1.2.3"), "1.2.3");
    assert_eq!(release_tag_version("vV1.2.3"), "1.2.3");
    assert_eq!(release_tag_version("1.2.3"), "1.2.3");
}

#[test]
fn next_patch_after_latest_release() {
    let (latest, next) = cargo_version_info::github::next_after_release(&Some("0.1.2".to_string())).unwrap();
    assert_eq!((latest.as_str(), next.as_str()), ("0.1.2", "0.1.3"));
    let args = cargo_version_info::commands::NextArgs {
        owner: Some("owner".to_string()),
        repo: Some("repo".to_string()),
        github_token: None,
        format: "version".to_string(),
        github_output: None,
    };
    let report = cargo_version_info::commands::next(&args, &latest, &next).unwrap();
    assert_eq!(report.text, "0.1.3\n");
    let (latest, next) = cargo_version_info::github::next_after_release(&None).unwrap();
    assert_eq!((latest.as_str(), next.as_str()), ("0.0.0", "0.0.1"));
    let (_, next) = cargo_version_info::github::next_after_release(&Some("v2.0.9".to_string())).unwrap();
    assert_eq!(next, "2.0.10");
    assert!(cargo_version_info::github::next_after_release(&Some("release-1".to_string())).is_err());
    assert!(matches!(
        cargo_version_info::github::next_after_release(&Some("1.2.4294967295".to_string())),
        Err(cargo_version_info::version::VersionError::ComponentOverflow)
    ));
}
