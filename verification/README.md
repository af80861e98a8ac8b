# hhh

A command-line helper for ModernJS projects (`hhh init`), split into a
verified library and a thin program around it.

- `src/` — the library, verified with Verus:
  - `json` — JSON values, their model, and object lookup and update;
  - `pkgs::rc` — layered configuration: the deep merge (`index::deep_extend`),
    configuration from environment variables (`utils::env`), the JSON/INI
    configuration formats (`utils::parse`), and the assembly of a program's
    configuration from defaults, files and environment (`index::rc`);
  - `pkgs::registry_url`, `pkgs::pkg_json` — which npm registry serves a
    package, the package's address there, and which version a request asks for;
  - `init`, `init::context` — what kind of project a directory holds and what
    `init` reports;
  - `utils` — the upward directory search, the version check, file names;
  - `text`, `paths`, `pattern`, `string_map` — text, path and map helpers.
- `app/` — the program: argument handling, files, processes, the network,
  and `serde` copies of the library's data types.
- `tests/` — tests of the library.
