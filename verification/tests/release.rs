use cargo_version_info::release::{release_page, split_range, strip_changelog_title, PackageInfo, ReleasePageArgs};

fn args(for_version: Option<&str>, range: Option<&str>, since_tag: Option<&str>) -> ReleasePageArgs {
    ReleasePageArgs {
        since_tag: since_tag.map(|s| s.to_string()),
        range: range.map(|s| s.to_string()),
        for_version: for_version.map(|s| s.to_string()),
        output: None,
        no_network: true,
        owner: Some("test".to_string()),
        repo: Some("repo".to_string()),
    }
}

fn package() -> PackageInfo {
    PackageInfo {
        name: "test-package".to_string(),
        version: "1.0.0".to_string(),
        description: Some("Test package".to_string()),
        repository: Some("https://github.com/test/repo".to_string()),
    }
}

#[test]
fn test_release_page_with_for_version() {
    let page = release_page(&args(Some("v0.2.0"), None, None), &package(), "", "# Changelog\n\n");
    assert!(page.contains("test-package v0.2.0"));
}

#[test]
fn test_release_page_with_for_version_no_v_prefix() {
    let page = release_page(&args(Some("0.2.0"), None, None), &package(), "", "# Changelog\n\n");
    assert!(page.contains("test-package v0.2.0"));
}

#[test]
fn test_release_page_without_for_version_uses_package_version() {
    let page = release_page(&args(None, None, None), &package(), "", "# Changelog\n\n");
    assert!(page.contains("test-package v1.0.0"));
}

#[test]
fn release_page_full_layout() {
    let page = release_page(
        &args(None, Some("v0.1.0..v0.2.0"), None),
        &package(),
        "[![ADRs](x)](y)\n",
        "# Changelog - v0.2.0\n\n## Features\n\n- thing\n\n",
    );
    assert_eq!(
        page,
        "# test-package v1.0.0\n\nTest package\n\n[View on GitHub](https://github.com/test/repo)\n\n[![ADRs](x)](y)\n\n## What's Changed\n\n## Features\n\n- thing\n\n\n**Full Changelog**: [https://github.com/test/repo/compare/v0.1.0...v0.2.0](https://github.com/test/repo/compare/v0.1.0...v0.2.0)\n\n"
    );
}

#[test]
fn release_page_links_since_tag_and_other_hosts() {
    let page = release_page(&args(None, None, Some("v0.1.0")), &package(), "", "");
    assert!(page.ends_with("\n**Full Changelog**: [https://github.com/test/repo/compare/v0.1.0...HEAD](https://github.com/test/repo/compare/v0.1.0...HEAD)\n\n"));
    let mut p = package();
    p.repository = Some("https://gitlab.com/test/repo".to_string());
    p.description = None;
    let page = release_page(&args(None, None, Some("v0.1.0")), &p, "", "");
    assert_eq!(page, "# test-package v1.0.0\n\n[View Repository](https://gitlab.com/test/repo)\n\n\n## What's Changed\n\n");
}

#[test]
fn changelog_titles_and_ranges() {
    assert_eq!(strip_changelog_title("# Changelog - v1\n\nbody"), "body");
    assert_eq!(strip_changelog_title("# Changelog"), "# Changelog");
    assert_eq!(strip_changelog_title("no title\n\nbody"), "no title\n\nbody");
    assert_eq!(split_range("a..b"), Some(("a".to_string(), "b".to_string())));
    assert_eq!(split_range("a..b..c"), None);
    assert_eq!(split_range("ab"), None);
}
