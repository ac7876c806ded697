use cargo_version_info::diff::{
    apply_readme_version_hunks, apply_version_hunks, has_non_readme_version_changes,
    has_non_version_changes,
};

#[test]
fn test_apply_version_hunks_only_version_change() {
    let head = "[package]\nname = \"test\"\nversion = \"0.1.0\"\nedition = \"2021\"\n";
    let working = "[package]\nname = \"test\"\nversion = \"0.2.0\"\nedition = \"2021\"\n";

    let staged = apply_version_hunks(head, working, "0.1.0", "0.2.0").unwrap();

    assert!(staged.contains("version = \"0.2.0\""));
    assert!(!staged.contains("0.1.0"));
}

#[test]
fn test_apply_version_hunks_mixed_changes() {
    let head = "[package]\nname = \"test\"\nversion = \"0.1.0\"\ndescription = \"old desc\"\n";
    let working = "[package]\nname = \"test\"\nversion = \"0.2.0\"\ndescription = \"new desc\"\n";

    let staged = apply_version_hunks(head, working, "0.1.0", "0.2.0").unwrap();

    assert!(staged.contains("version = \"0.2.0\""));
    assert!(staged.contains("description = \"old desc\""));
    assert!(!staged.contains("description = \"new desc\""));
}

#[test]
fn test_has_non_version_changes_true() {
    let head = "[package]\nname = \"test\"\nversion = \"0.1.0\"\n";
    let working = "[package]\nname = \"test-renamed\"\nversion = \"0.2.0\"\n";

    assert!(has_non_version_changes(head, working, "0.1.0", "0.2.0"));
}

#[test]
fn test_has_non_version_changes_false() {
    let head = "[package]\nname = \"test\"\nversion = \"0.1.0\"\n";
    let working = "[package]\nname = \"test\"\nversion = \"0.2.0\"\n";

    assert!(!has_non_version_changes(head, working, "0.1.0", "0.2.0"));
}

#[test]
fn test_apply_version_hunks_multiple_version_fields() {
    let head = "[package]\nversion = \"1.0.0\"\n[dependencies]\ncrate-a = { version = \"1.0.0\" }\n";
    let working =
        "[package]\nversion = \"2.0.0\"\n[dependencies]\ncrate-a = { version = \"2.0.0\" }\n";

    let staged = apply_version_hunks(head, working, "1.0.0", "2.0.0").unwrap();

    assert!(staged.contains("version = \"2.0.0\""));
    assert!(!staged.contains("1.0.0"));
}

#[test]
fn test_apply_readme_version_hunks_only_version_change() {
    let head = r#"# My Crate

Add to Cargo.toml:

```toml
my-crate = "0.1.0"
```
"#;
    let working = r#"# My Crate

Add to Cargo.toml:

```toml
my-crate = "0.2.0"
```
"#;

    let staged = apply_readme_version_hunks(head, working, "my-crate", "0.1.0", "0.2.0").unwrap();

    assert!(staged.contains(r#"my-crate = "0.2.0""#));
    assert!(!staged.contains(r#"my-crate = "0.1.0""#));
}

#[test]
fn test_apply_readme_version_hunks_mixed_changes() {
    let head = r#"# My Crate

Old description.

```toml
my-crate = "0.1.0"
```
"#;
    let working = r#"# My Crate

New description with more details.

```toml
my-crate = "0.2.0"
```
"#;

    let staged = apply_readme_version_hunks(head, working, "my-crate", "0.1.0", "0.2.0").unwrap();

    assert!(staged.contains(r#"my-crate = "0.2.0""#));
    assert!(staged.contains("Old description."));
    assert!(!staged.contains("New description"));
}

#[test]
fn test_apply_readme_version_hunks_underscored_name() {
    let head = r#"my_crate = "1.0.0""#;
    let working = r#"my_crate = "1.1.0""#;

    let staged = apply_readme_version_hunks(head, working, "my-crate", "1.0.0", "1.1.0").unwrap();

    assert!(staged.contains(r#"my_crate = "1.1.0""#));
}

#[test]
fn test_has_non_readme_version_changes_true() {
    let head = "# Readme\nmy-crate = \"0.1.0\"\n";
    let working = "# Updated Readme\nmy-crate = \"0.2.0\"\n";

    assert!(has_non_readme_version_changes(
        head, working, "my-crate", "0.1.0", "0.2.0"
    ));
}

#[test]
fn test_has_non_readme_version_changes_false() {
    let head = "# Readme\nmy-crate = \"0.1.0\"\n";
    let working = "# Readme\nmy-crate = \"0.2.0\"\n";

    assert!(!has_non_readme_version_changes(
        head, working, "my-crate", "0.1.0", "0.2.0"
    ));
}

#[test]
fn only_version_changes_stage_the_working_copy() {
    let head = "a\nversion = \"1\"\nb\n";
    let working = "a\nversion = \"2\"\nb\n";
    assert!(!has_non_version_changes(head, working, "1", "2"));
    assert_eq!(apply_version_hunks(head, working, "1", "2").unwrap(), working);
}

#[test]
fn unrelated_changes_keep_head() {
    let head = "a\nb\n";
    let working = "a\nc\nd\n";
    assert_eq!(apply_version_hunks(head, working, "1.0.0", "1.0.1").unwrap(), head);
}

#[test]
fn readme_separator_and_spacing_variants_are_related() {
    let head = "x\nmy-crate-= \"1.0.0\"\n";
    let working = "y\nmy-crate-= \"1.0.1\"\n";
    let staged = apply_readme_version_hunks(head, working, "my-crate", "1.0.0", "1.0.1").unwrap();
    assert_eq!(staged, "x\nmy-crate-= \"1.0.1\"\n");
    let head2 = "my_crate\t=\t\"1.0.0\"\n";
    let working2 = "my_crate\t=\t\"1.0.1\"\n";
    assert!(!has_non_readme_version_changes(head2, working2, "my_crate", "1.0.0", "1.0.1"));
}

#[test]
fn readme_other_crate_is_not_related() {
    let head = "other = \"1.0.0\"\n";
    let working = "other = \"1.0.1\"\n";
    assert!(has_non_readme_version_changes(head, working, "mine", "1.0.0", "1.0.1"));
    assert_eq!(apply_readme_version_hunks(head, working, "mine", "1.0.0", "1.0.1").unwrap(), head);
}

#[test]
fn staging_example_without_trailing_newlines() {
    let head = "[package]\nname = \"test\"\nversion = \"0.1.0\"\ndesc = \"old\"";
    let working = "[package]\nname = \"test\"\nversion = \"0.2.0\"\ndesc = \"new\"";
    let staged = apply_version_hunks(head, working, "0.1.0", "0.2.0").unwrap();
    assert!(staged.contains("version = \"0.2.0\""));
    assert!(staged.contains("desc = \"old\""));
}

#[test]
fn identical_texts_stage_head_content() {
    let text = "[package]\nname = \"demo\"\nversion = \"1.0.0\"\nlicense = \"MIT\"\nno newline at end";
    assert_eq!(apply_version_hunks(text, text, "1.0.0", "1.1.0").unwrap(), text);
    assert!(!has_non_version_changes(text, text, "1.0.0", "1.1.0"));
    let readme = "# demo\n\n```toml\ndemo = \"1.0.0\"\n```\nOther text\n";
    assert_eq!(apply_readme_version_hunks(readme, readme, "demo", "1.0.0", "1.1.0").unwrap(), readme);
    assert!(!has_non_readme_version_changes(readme, readme, "demo", "1.0.0", "1.1.0"));
}
