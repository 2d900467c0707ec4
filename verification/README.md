# create-grafana-plugin

A command-line tool that scaffolds Grafana plugin projects (panel, datasource or
app, with optional Rust/WASM engine, Docker environment and mock data generator)
and later updates the files it manages in such a project.

The logic is a library verified with Verus:

- `src/config.rs`: plugin types, the resolved configuration, its validation, the
  template layer stack and kebab-case names.
- `src/resolve.rs`: merging command-line options over the TOML file, and the
  question-by-question resolution as a state machine.
- `src/template.rs`: the template context, which template files are rendered,
  and rendering through `tera`.
- `src/paths.rs`: file names, extensions, output paths and path ordering.
- `src/updater.rs`: managed-file markers, plugin id splitting, port offsets,
  recovering a project's configuration from the text of its `plugin.json`
  (read with `serde_json`), the update plan and per-file decisions.
- `src/diff.rs`, `src/clock.rs`, `src/engine.rs`, `src/unicode.rs`: the calls
  into `similar`, `chrono`, `tera` and std's Unicode tables, with their contracts.
- `src/laws.rs`: properties that span several functions, proved.

`app/main.rs` holds the binary: argument parsing (`clap`), prompts
(`dialoguer`), reading and writing files, embedded templates (`include_dir`),
TOML parsing into the configuration file's type, and coloured output.
