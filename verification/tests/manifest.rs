use cargo_version_info::manifest::{read_manifest_version, update_cargo_toml_version, ManifestError};

#[test]
fn test_update_package_version() {
    let content = "[package]\nname = \"test\"\nversion = \"0.1.0\"\n";
    let updated = update_cargo_toml_version("Cargo.toml", content, "0.1.0", "0.2.0").unwrap();
    assert!(updated.contains("version = \"0.2.0\""));
    assert!(!updated.contains("0.1.0"));
}

#[test]
fn test_update_workspace_package_version() {
    let content = "[workspace.package]\nversion = \"1.0.0\"\n";
    let updated = update_cargo_toml_version("Cargo.toml", content, "1.0.0", "2.0.0").unwrap();
    assert!(updated.contains("version = \"2.0.0\""));
}

#[test]
fn test_preserves_formatting() {
    let content = "[package]\nname = \"test\"  # Package name\nversion = \"0.1.0\"\nedition = \"2021\"\n";
    let updated = update_cargo_toml_version("Cargo.toml", content, "0.1.0", "0.2.0").unwrap();
    assert!(updated.contains("# Package name"));
    assert!(updated.contains("version = \"0.2.0\""));
    assert!(!updated.contains("0.1.0"));
}

#[test]
fn test_update_both_package_and_workspace_version() {
    let content = "[workspace]\nmembers = [\"npm/dotenvage-napi\"]\n\n[workspace.package]\nversion = \"0.2.1\"\nedition = \"2024\"\n\n[package]\nname = \"dotenvage\"\nversion = \"0.2.1\"\nedition.workspace = true\n";
    let updated = update_cargo_toml_version("Cargo.toml", content, "0.2.1", "0.2.2").unwrap();
    assert!(!updated.contains("0.2.1"));
    assert_eq!(updated.matches("\"0.2.2\"").count(), 2);
}

#[test]
fn test_package_with_workspace_inheritance_not_updated() {
    let content = "[workspace.package]\nversion = \"1.0.0\"\n\n[package]\nname = \"test\"\nversion.workspace = true\n";
    let updated = update_cargo_toml_version("Cargo.toml", content, "1.0.0", "2.0.0").unwrap();
    assert!(updated.contains("[workspace.package]\nversion = \"2.0.0\""));
    assert!(updated.contains("version.workspace = true"));
}

#[test]
fn test_no_package_section_error() {
    let content = "[dependencies]\nsome-crate = \"1.0\"\n";
    let e = update_cargo_toml_version("Cargo.toml", content, "0.1.0", "0.2.0").unwrap_err();
    assert!(e.message().contains("Could not find"));
}

#[test]
fn invalid_manifest_is_a_parse_error() {
    let e = update_cargo_toml_version("x/Cargo.toml", "[package\n", "0.1.0", "0.2.0").unwrap_err();
    assert!(matches!(e, ManifestError::Parse(_)));
    assert_eq!(e.message(), "Failed to parse TOML in x/Cargo.toml");
}

#[test]
fn manifest_version_is_read() {
    assert_eq!(read_manifest_version("[package]\nname = \"a\"\nversion = \"3.2.1\"\n"), Some("3.2.1".to_string()));
    assert_eq!(read_manifest_version("[package]\nname = \"a\"\nversion.workspace = true\n"), None);
    assert_eq!(read_manifest_version("not toml ["), None);
}
