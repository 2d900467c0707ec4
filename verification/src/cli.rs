//! The command line, as the rest of the tool reads it.

use vstd::prelude::*;

verus! {

/// Command-line options (the parser that fills them lives in the binary).
#[derive(Debug, Clone)]
pub struct Args {
    /// Plugin name (kebab-case).
    pub name: Option<String>,
    /// Plugin description.
    pub description: Option<String>,
    /// Author name.
    pub author: Option<String>,
    /// Grafana organization name.
    pub org: Option<String>,
    /// Plugin type: panel, datasource, app (the `--type` option).
    pub plugin_type: Option<String>,
    /// Include Rust WASM engine.
    pub wasm: bool,
    /// Include Docker dev environment.
    pub docker: bool,
    /// Include mock data generator (requires --docker).
    pub mock: bool,
    /// Package manager: bun, npm, pnpm, yarn.
    pub pm: String,
    /// Read config from file.
    pub config: Option<String>,
    /// The subcommand, if any.
    pub command: Option<Command>,
}

/// Subcommands.
#[derive(Debug, Clone, Copy, PartialEq, Eq, Structural)]
pub enum Command {
    /// Update an existing project to the latest template.
    Update {
        /// Show changes without applying.
        dry_run: bool,
    },
}

} // verus!
