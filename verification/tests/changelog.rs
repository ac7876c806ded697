use cargo_version_info::changelog::{
    changelog_range, collect_changelog_commits, commit_type_title, format_commit_entry,
    include_in_changelog, parse_conventional_commit, render_changelog, CommitRecord,
};

fn record(sha: &str, message: &str) -> CommitRecord {
    CommitRecord { sha: sha.to_string(), short_sha: sha[..7].to_string(), message: message.to_string() }
}

#[test]
fn conventional_headers_parse() {
    let c = parse_conventional_commit("feat(parser)!: support tables\n\nLonger text.\n").unwrap();
    assert_eq!(c.commit_type, "feat");
    assert_eq!(c.scope.as_deref(), Some("parser"));
    assert!(c.breaking);
    assert_eq!(c.subject, "support tables");
    assert_eq!(c.body.as_deref(), Some("Longer text."));
    let c = parse_conventional_commit("fix: crash").unwrap();
    assert_eq!(c.scope, None);
    assert!(!c.breaking);
    assert!(parse_conventional_commit("Fix: crash").is_none());
    assert!(parse_conventional_commit("feat(): x").is_none());
    assert!(parse_conventional_commit("feat:").is_none());
}

#[test]
fn commit_types_and_titles() {
    assert_eq!(commit_type_title("feat"), "Features");
    assert_eq!(commit_type_title("ci"), "CI/CD");
    assert_eq!(commit_type_title("wip"), "Other Changes");
    assert!(include_in_changelog("perf"));
    assert!(!include_in_changelog("chore"));
}

#[test]
fn commit_entries_link_to_github() {
    let mut c = parse_conventional_commit("fix!: handle empty input\n\nline one\nline two").unwrap();
    c.sha = "0123456789abcdef".to_string();
    c.short_sha = "0123456".to_string();
    assert_eq!(
        format_commit_entry(&c, "o", "r"),
        "- [0123456](https://github.com/o/r/commit/0123456789abcdef) **BREAKING**: handle empty input\n  line one\n  line two\n"
    );
}

#[test]
fn test_changelog_with_for_version() {
    let commits = collect_changelog_commits(&vec![record("aaaaaaaaaa", "feat(test): add feature")]);
    let out = render_changelog(&commits, &Some("v0.2.0".to_string()), &None, "test", "repo");
    assert!(out.contains("Changelog - v0.2.0"));
}

#[test]
fn test_changelog_with_for_version_no_v_prefix() {
    let out = render_changelog(&Vec::new(), &Some("0.2.0".to_string()), &None, "test", "repo");
    assert!(out.contains("Changelog - v0.2.0"));
    assert_eq!(out, "# Changelog - v0.2.0\n\n");
}

#[test]
fn test_changelog_no_tags() {
    let commits = collect_changelog_commits(&vec![
        record("bbbbbbbbbb", "fix(test): fix bug"),
        record("aaaaaaaaaa", "feat(test): add feature"),
    ]);
    let out = render_changelog(&commits, &None, &None, "test", "repo");
    assert!(out.contains("Changelog"));
    assert_eq!(
        out,
        "# Changelog\n\n## Features\n\n### test\n\n- [aaaaaaa](https://github.com/test/repo/commit/aaaaaaaaaa): add feature\n\n## Bug Fixes\n\n### test\n\n- [bbbbbbb](https://github.com/test/repo/commit/bbbbbbbbbb): fix bug\n\n"
    );
}

#[test]
fn test_changelog_with_range() {
    let (a, b) = changelog_range("v0.1.0..v0.2.0").unwrap();
    assert_eq!((a.as_str(), b.as_str()), ("v0.1.0", "v0.2.0"));
    let (a, b) = changelog_range(" v0.1.0 .. HEAD ").unwrap();
    assert_eq!((a.as_str(), b.as_str()), ("v0.1.0", "HEAD"));
    assert!(changelog_range("v0.1.0").is_err());
    assert!(changelog_range("a..b..c").is_err());
    assert_eq!(changelog_range("a...b").unwrap().1, ".b");
    assert_eq!(changelog_range("a").unwrap_err().message(), "Invalid range format. Expected: <start>..<end>");
}

#[test]
fn changelog_groups_scopes_in_order() {
    let commits = collect_changelog_commits(&vec![
        record("1111111111", "feat(zeta): z"),
        record("2222222222", "chore: tidy"),
        record("3333333333", "feat: plain"),
        record("4444444444", "feat(alpha): a"),
        record("5555555555", "not conventional"),
    ]);
    assert_eq!(commits.len(), 3);
    let out = render_changelog(&commits, &None, &Some("v1.0.0".to_string()), "o", "r");
    let plain = out.find("plain").unwrap();
    let alpha = out.find("### alpha").unwrap();
    let zeta = out.find("### zeta").unwrap();
    assert!(out.starts_with("# Changelog - v1.0.0\n\n## Features\n\n"));
    assert!(plain < alpha && alpha < zeta);
}
