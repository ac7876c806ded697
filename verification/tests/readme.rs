use cargo_version_info::readme::update_readme_content;

#[test]
fn test_update_simple_version() {
    let content = r#"
Add to your Cargo.toml:

```toml
[dependencies]
my-crate = "0.1.0"
```
"#;

    let result = update_readme_content(content, "my-crate", "0.1.0", "0.2.0");
    assert!(result.modified);
    assert!(result.content.contains(r#"my-crate = "0.2.0""#));
    assert!(!result.content.contains(r#"my-crate = "0.1.0""#));
}

#[test]
fn test_update_underscored_name() {
    let content = r#"my_crate = "1.0.0""#;

    let result = update_readme_content(content, "my-crate", "1.0.0", "1.1.0");
    assert!(result.modified);
    assert!(result.content.contains(r#"my_crate = "1.1.0""#));
}

#[test]
fn test_no_match_different_version() {
    let content = r#"my-crate = "0.1.0""#;

    let result = update_readme_content(content, "my-crate", "0.2.0", "0.3.0");
    assert!(!result.modified);
    assert!(result.content.contains(r#"my-crate = "0.1.0""#));
}

#[test]
fn test_no_match_different_crate() {
    let content = r#"other-crate = "0.1.0""#;

    let result = update_readme_content(content, "my-crate", "0.1.0", "0.2.0");
    assert!(!result.modified);
}

#[test]
fn test_multiple_occurrences() {
    let content = r#"
my-crate = "0.1.0"
# Also:
my-crate = "0.1.0"
"#;

    let result = update_readme_content(content, "my-crate", "0.1.0", "0.2.0");
    assert!(result.modified);
    assert_eq!(result.content.matches(r#"my-crate = "0.2.0""#).count(), 2);
}

#[test]
fn test_whitespace_variations() {
    let content = r#"my-crate="0.1.0""#;

    let result = update_readme_content(content, "my-crate", "0.1.0", "0.2.0");
    assert!(result.modified);
    assert!(result.content.contains(r#"my-crate = "0.2.0""#));
}

#[test]
fn readme_text_without_reference_is_returned_unchanged() {
    let content = "# Title\n\nNo dependency lines here.\n";
    let result = update_readme_content(content, "my-crate", "0.1.0", "0.2.0");
    assert!(!result.modified);
    assert_eq!(result.content, content);
}

#[test]
fn readme_exact_rewrite_keeps_surrounding_text() {
    let content = "before\nmy-crate =  \"1.2.3\" # pinned\nafter\n";
    let result = update_readme_content(content, "my-crate", "1.2.3", "1.3.0");
    assert!(result.modified);
    assert_eq!(result.content, "before\nmy-crate = \"1.3.0\" # pinned\nafter\n");
}

#[test]
fn readme_replacement_with_dollar_interpolates_groups() {
    // The replacement text `my-crate = "0.2.0$x"` names a capture group `x`
    // that the pattern lacks, so the regex crate inserts nothing for it.
    let result = update_readme_content(r#"my-crate = "0.1.0""#, "my-crate", "0.1.0", "0.2.0$x");
    assert!(result.modified);
    assert_eq!(result.content, r#"my-crate = "0.2.0""#);
}

#[test]
fn readme_single_line_example() {
    let content = r#"my-crate = "0.1.0""#;
    let result = update_readme_content(content, "my-crate", "0.1.0", "0.2.0");
    assert!(result.modified);
    assert!(result.content.contains(r#"my-crate = "0.2.0""#));
}

#[test]
fn no_old_reference_left_after_update() {
    let content = "my-crate = \"1.0.0\"\nmy_crate=\"1.0.0\"\nmy-crate  =  \"1.0.0\" and my_crate = \"1.0.0\"\nmy-crate = \"1.0.00\"\n";
    let update = update_readme_content(content, "my-crate", "1.0.0", "1.1.0");
    assert!(update.modified);
    assert!(!update.content.contains("\"1.0.0\""));
    assert_eq!(
        update.content,
        "my-crate = \"1.1.0\"\nmy_crate = \"1.1.0\"\nmy-crate = \"1.1.0\" and my_crate = \"1.1.0\"\nmy-crate = \"1.0.00\"\n"
    );
}
