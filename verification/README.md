# dylint (verified core)

The decision logic of Dylint, a tool that runs Rust lints from dynamic libraries, written in
Verus and proved against its contracts.

- `src/` is the library. Each module states what its functions compute over mathematical models
  (`Seq`, `Map`, views of the data types) and proves it:
  - `opts`, `run`: command-line options, how `run` normalizes them, what it does with the
    selection, the `cargo check` arguments and when a failed check ends the run;
  - `dependency`: library entries read as Cargo dependency specifications, and Cargo's checks on
    them;
  - `library`, `listing`: the library a package builds, library names, the packages a library
    entry's patterns match, what is read of `cargo`'s output, and the listing of libraries;
  - `revs`, `clippy_utils`: the search through Clippy's history for a `clippy_utils` version;
  - `tokenization`, `span`, `highlight`, `rewrite`, `correct`, `edits`, `short_id`: the
    token-level rewriting that upgrades a lint library to a newer Clippy, down to the rewritten
    text of each source file (`edits::correct_pass`, through the `rewriter` crate);
  - `driver`, `template`, `hex`, `error`, `text`, `paths`: the driver package, the new-library
    template, hashing, errors, string helpers, and joining and normalizing Unix paths.
- Calls into outside crates (`url`, `semver`, `syntect`, `serde_json`, `toml`, `toml_edit`,
  `heck`, `rustc-stable-hash`, `rewriter`) go through small trusted wrappers whose contracts name or state
  their results.
- `app/` holds what cannot be verified: the terminal, the file system, `cargo`, `git`, JSON
  diagnostics, and reading `workspace.metadata.dylint` (from `cargo metadata` or `dylint.toml`)
  with `serde`. It hands plain values to the library and acts on what it returns.
- `tests/` runs the library on concrete values.

## What this crate does not do

Dylint itself does more than is here. These parts are absent, in `src/` and in `app/` alike:

- library entries with a `git` source are not fetched: only their source id is computed, and
  `app/` refuses them (fetching them into Cargo's cache needs Dylint's internal crate);
- libraries are not built, and the map from library names to toolchains (which also reads
  `DYLINT_LIBRARY_PATH`) is not assembled, so `--lib` names are not resolved and lints are not
  listed;
- `dylint.toml` is read only for its `workspace.metadata.dylint` libraries: the configuration
  that libraries read from it is not served to them;
- commands run without Dylint's environment sanitizing (part of its internal crate);
- there is no `cargo dylint` entry point: `new`, `upgrade` and `bisect` are not implemented
  (of `upgrade`, only the decision to refuse a toolchain downgrade is here, as
  `clippy_utils::refuses_downgrade`);
- paths are handled as Unix paths.
