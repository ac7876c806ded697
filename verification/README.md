# cargo_version_info

Version management for Cargo projects, as a verified library and a
`cargo version-info` command.

The library (`src/`) is written in Verus; its public functions carry
contracts that Verus proves, and laws that span functions stand as proof
functions:

- `version`: semantic version triples (parse, format, increment, compare).
- `changelog`: conventional commit parsing and the markdown changelog.
- `diff`, `lockfile`, `readme`: staging only the version-related changes of
  `Cargo.toml`, `Cargo.lock` and `README.md`.
- `bump`: target versions, hook commands, the order of a bump's steps, and
  the plan of a bump commit.
- `tree`: the order of git tree and index entries, and tree updates,
  including the entries that new files add.
- `manifest`: manifest fields and the version update of `Cargo.toml`.
- `github`: the latest version tag, the next version after it or after the
  latest GitHub release.
- `commands`, `release`, `badge`: the reports of the commands.
- `text`: string helpers.

Calls into `similar`, `regex`, `toml`, `toml_edit`, `semver` (as re-exported
by `cargo_metadata`) and `serde_json` stand behind small trusted wrappers
whose contracts name or state what those crates return.

`app/` holds the command-line program: argument parsing, file and git access
(`gix`), subprocesses, the GitHub API, and printing.
