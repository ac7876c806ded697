//! Version management for Cargo projects: semantic versions, changelogs,
//! selective staging of version bumps, and the reports of the query commands.
pub mod text;
pub mod version;
pub mod lockfile;
pub mod diff;
pub mod readme;
pub mod changelog;
pub mod commands;
pub mod github;
pub mod bump;
pub mod tree;
pub mod manifest;
pub mod release;
pub mod badge;
