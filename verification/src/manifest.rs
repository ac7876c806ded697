//! `Cargo.toml` contents: the version fields that the commands read, and the
//! version update that keeps the rest of the file as it is.
use vstd::prelude::*;
use crate::text::{push_str, to_owned_string};
use crate::changelog::opt_view;

verus! {

/// The versions of a manifest, when the text parses as TOML
/// (`toml::from_str::<toml::Value>`): `package.version` and
/// `workspace.package.version`, each when it is a string.
pub uninterp spec fn toml_versions(content: Seq<char>) -> Option<(Option<Seq<char>>, Option<Seq<char>>)>;

/// The dioxus dependency of a manifest, when the text parses as TOML
/// (`toml::from_str::<toml::Value>`): `dependencies.dioxus.version` when it
/// is a string, and whether `dependencies.dioxus.workspace` is present.
pub uninterp spec fn toml_dioxus(content: Seq<char>) -> Option<(Option<Seq<char>>, bool)>;

/// The fields of a manifest that the commands read: the package version, the
/// dioxus version, whether dioxus comes from the workspace, and the
/// workspace package version; `None` when the text is not TOML.
pub open spec fn toml_fields(content: Seq<char>) -> Option<(Option<Seq<char>>, Option<Seq<char>>, bool, Option<Seq<char>>)> {
    match (toml_versions(content), toml_dioxus(content)) {
        (Some(v), Some(d)) => Some((v.0, d.0, d.1, v.1)),
        _ => None,
    }
}

/// The version slots of a manifest, when the text parses as a TOML document
/// (`toml_edit::DocumentMut`): whether the `[package]` table has a string
/// `version`, and whether the `[workspace.package]` table has a `version`.
pub uninterp spec fn toml_version_slots(content: Seq<char>) -> Option<(bool, bool)>;

/// The text of the document `content` after inserting `version = "NEW"`
/// into the `[package]` table (when `package`) and into the
/// `[workspace.package]` table (when `workspace`), serialised by
/// `toml_edit`, which keeps the other items, comments and layout.
pub uninterp spec fn toml_with_versions(content: Seq<char>, new: Seq<char>, package: bool, workspace: bool) -> Seq<char>;

/// The fields of a manifest that the commands read.
#[derive(Debug)]
pub struct ManifestFields {
    /// `package.version`, when it is a string.
    pub package_version: Option<String>,
    /// `dependencies.dioxus.version`, when it is a string.
    pub dioxus_version: Option<String>,
    /// `dependencies.dioxus.workspace` is present.
    pub dioxus_workspace: bool,
    /// `workspace.package.version`, when it is a string.
    pub workspace_package_version: Option<String>,
}

/// The plain view of the manifest fields.
pub open spec fn fields_view(f: ManifestFields) -> (Option<Seq<char>>, Option<Seq<char>>, bool, Option<Seq<char>>) {
    (opt_view(f.package_version), opt_view(f.dioxus_version), f.dioxus_workspace, opt_view(f.workspace_package_version))
}

/// Reads the versions of a TOML text.
///
/// Parses with `toml::from_str::<toml::Value>` and reads the fields with
/// `Value::get` and `Value::as_str`; the contract names the outcome
/// [`toml_versions`] (`None` when the text does not parse).
#[verifier::external_body]
fn read_versions(content: &str) -> (r: Option<(Option<String>, Option<String>)>)
    ensures
        match r {
            Some((a, b)) => toml_versions(content@) == Some((opt_view(a), opt_view(b))),
            None => toml_versions(content@) is None,
        },
{
    let v: toml::Value = toml::from_str(content).ok()?;
    let package = v.get("package").and_then(|p| p.get("version")).and_then(|x| x.as_str());
    let workspace = v.get("workspace").and_then(|w| w.get("package")).and_then(|p| p.get("version"));
    Some((package.map(|x| x.to_string()), workspace.and_then(|x| x.as_str()).map(|x| x.to_string())))
}

/// Reads the dioxus dependency of a TOML text.
///
/// Parses with `toml::from_str::<toml::Value>` and reads the fields with
/// `Value::get` and `Value::as_str`; the contract names the outcome
/// [`toml_dioxus`] (`None` when the text does not parse).
#[verifier::external_body]
fn read_dioxus(content: &str) -> (r: Option<(Option<String>, bool)>)
    ensures
        match r {
            Some((a, b)) => toml_dioxus(content@) == Some((opt_view(a), b)),
            None => toml_dioxus(content@) is None,
        },
{
    let v: toml::Value = toml::from_str(content).ok()?;
    let dioxus = v.get("dependencies").and_then(|d| d.get("dioxus"));
    let version = dioxus.and_then(|d| d.get("version")).and_then(|x| x.as_str()).map(|x| x.to_string());
    Some((version, dioxus.and_then(|d| d.get("workspace")).is_some()))
}

/// Reads the manifest fields of a TOML text (see [`toml_fields`]).
fn read_fields(content: &str) -> (r: Option<ManifestFields>)
    ensures
        match r {
            Some(f) => toml_fields(content@) == Some(fields_view(f)),
            None => toml_fields(content@) is None,
        },
{
    let (package_version, workspace_package_version) = read_versions(content)?;
    let (dioxus_version, dioxus_workspace) = read_dioxus(content)?;
    Some(ManifestFields { package_version, dioxus_version, dioxus_workspace, workspace_package_version })
}

/// Reads the version slots of a TOML document.
///
/// Parses with `str::parse::<toml_edit::DocumentMut>` and looks the tables
/// up with `get`, `as_table`, `contains_key` and `as_str`; the contract names
/// the outcome [`toml_version_slots`] (`None` when the text does not parse).
#[verifier::external_body]
fn read_version_slots(content: &str) -> (r: Option<(bool, bool)>)
    ensures
        r == toml_version_slots(content@),
{
    let doc = content.parse::<toml_edit::DocumentMut>().ok()?;
    let package = doc.get("package").and_then(|p| p.as_table())
        .is_some_and(|p| p.contains_key("version") && p.get("version").is_some_and(|v| v.as_str().is_some()));
    let workspace = doc.get("workspace").and_then(|w| w.as_table()).and_then(|w| w.get("package"))
        .and_then(|p| p.as_table()).is_some_and(|p| p.contains_key("version"));
    Some((package, workspace))
}

/// Sets the version in the chosen tables of a TOML document.
///
/// Parses with `toml_edit::DocumentMut`, inserts `toml_edit::value(new)` as
/// `version` into the chosen tables with `Table::insert`, and serialises
/// with `to_string`; the contract names the outcome [`toml_with_versions`].
/// The requirement that the chosen tables exist keeps the lookups from
/// failing.
#[verifier::external_body]
fn write_versions(content: &str, new_version: &str, package: bool, workspace: bool) -> (r: String)
    requires
        toml_version_slots(content@) matches Some(slots) && (package ==> slots.0) && (workspace ==> slots.1),
    ensures
        r@ == toml_with_versions(content@, new_version@, package, workspace),
{
    let mut doc = content.parse::<toml_edit::DocumentMut>().unwrap();
    if package {
        doc["package"].as_table_mut().unwrap().insert("version", toml_edit::value(new_version));
    }
    if workspace {
        doc["workspace"]["package"].as_table_mut().unwrap().insert("version", toml_edit::value(new_version));
    }
    doc.to_string()
}

/// Error of a manifest update.
#[derive(Debug)]
pub enum ManifestError {
    /// The manifest at this path is not a TOML document.
    Parse(String),
    /// The manifest at this path has no version to update.
    NoVersion(String),
}

/// The description of a manifest error.
pub open spec fn manifest_error_text(e: ManifestError) -> Seq<char> {
    match e {
        ManifestError::Parse(p) => "Failed to parse TOML in "@ + p@,
        ManifestError::NoVersion(p) => "Could not find version in [package] or [workspace.package] section in "@ + p@,
    }
}

impl ManifestError {
    /// Human-readable description of the error.
    pub fn message(&self) -> (r: String)
        ensures
            r@ == manifest_error_text(*self),
    {
        match self {
            ManifestError::Parse(p) => {
                let mut m = to_owned_string("Failed to parse TOML in ");
                push_str(&mut m, p.as_str());
                m
            },
            ManifestError::NoVersion(p) => {
                let mut m = to_owned_string("Could not find version in [package] or [workspace.package] section in ");
                push_str(&mut m, p.as_str());
                m
            },
        }
    }
}

/// The manifest text after a version update, or why there is none: the
/// version is set in `[package]` when it has an explicit string version
/// (not `version.workspace = true`) and in `[workspace.package]` when it has
/// a version; at least one of them must.
pub open spec fn updated_manifest(content: Seq<char>, new: Seq<char>) -> Result<Seq<char>, bool> {
    match toml_version_slots(content) {
        None => Err(true),
        Some(slots) => if slots.0 || slots.1 {
            Ok(toml_with_versions(content, new, slots.0, slots.1))
        } else {
            Err(false)
        },
    }
}

/// Updates the version of a manifest's text, keeping its formatting and
/// comments. The old version is not consulted. `manifest_path` names the
/// file in errors.
pub fn update_cargo_toml_version(manifest_path: &str, content: &str, _old_version: &str, new_version: &str) -> (r: Result<String, ManifestError>)
    ensures
        match r {
            Ok(s) => updated_manifest(content@, new_version@) == Ok::<Seq<char>, bool>(s@),
            Err(ManifestError::Parse(p)) => updated_manifest(content@, new_version@) == Err::<Seq<char>, bool>(true)
                && p@ == manifest_path@,
            Err(ManifestError::NoVersion(p)) => updated_manifest(content@, new_version@) == Err::<Seq<char>, bool>(false)
                && p@ == manifest_path@,
        },
{
    match read_version_slots(content) {
        None => Err(ManifestError::Parse(to_owned_string(manifest_path))),
        Some((package, workspace)) => {
            if !package && !workspace {
                Err(ManifestError::NoVersion(to_owned_string(manifest_path)))
            } else {
                Ok(write_versions(content, new_version, package, workspace))
            }
        },
    }
}

/// The `package.version` string of a manifest text, if it parses and has one.
pub fn read_manifest_version(content: &str) -> (r: Option<String>)
    ensures
        opt_view(r) == match toml_fields(content@) {
            Some(f) => f.0,
            None => None,
        },
{
    match read_fields(content) {
        Some(f) => f.package_version,
        None => None,
    }
}

/// The dioxus version of manifest fields: `dependencies.dioxus.version`,
/// else, when dioxus is inherited from the workspace,
/// `workspace.package.version`.
pub open spec fn dioxus_version_of(f: (Option<Seq<char>>, Option<Seq<char>>, bool, Option<Seq<char>>)) -> Option<Seq<char>> {
    if f.1 is Some {
        f.1
    } else if f.2 {
        f.3
    } else {
        None
    }
}

/// The version of the dioxus dependency of a manifest text: `Err(true)` when
/// the text does not parse, `Err(false)` when it names no dioxus version.
pub fn dioxus_version(content: &str) -> (r: Result<String, bool>)
    ensures
        match r {
            Ok(v) => toml_fields(content@) matches Some(f) && dioxus_version_of(f) == Some(v@),
            Err(unparsed) => if unparsed {
                toml_fields(content@) is None
            } else {
                toml_fields(content@) matches Some(f) && dioxus_version_of(f) is None
            },
        },
{
    match read_fields(content) {
        None => Err(true),
        Some(f) => {
            if let Some(v) = f.dioxus_version {
                Ok(v)
            } else if f.dioxus_workspace {
                match f.workspace_package_version {
                    Some(v) => Ok(v),
                    None => Err(false),
                }
            } else {
                Err(false)
            }
        },
    }
}

} // verus!
