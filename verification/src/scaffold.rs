//! What a new scaffold tells the user to do next.

use vstd::prelude::*;
use crate::config;
use crate::text;

verus! {

/// The commands suggested after scaffolding: enter the directory, install (or set
/// up the WASM toolchain), build, start Docker when it is used, run the dev server.
pub open spec fn next_steps_for(name: Seq<char>, has_wasm: bool, has_docker: bool) -> Seq<Seq<char>> {
    seq![
        "cd "@ + name,
        if has_wasm { "bun run setup"@ } else { "bun install"@ },
        "bun run build"@,
    ] + (if has_docker {
        seq!["docker compose up -d"@]
    } else {
        seq![]
    }) + seq!["bun run dev"@]
}

/// The next-step commands for a freshly generated project.
pub fn next_steps(config: &config::ProjectConfig) -> (r: Vec<String>)
    ensures
        r@.map_values(|s: String| s@) == next_steps_for(
            config.name@,
            config.has_wasm,
            config.has_docker,
        ),
{
    let mut out: Vec<String> = Vec::new();
    let cd = text::chars_of("cd ");
    let name = text::chars_of(config.name.as_str());
    let first = text::concat_chars(&cd, &name);
    out.push(text::string_from_chars(&first));
    if config.has_wasm {
        out.push(String::from_str("bun run setup"));
    } else {
        out.push(String::from_str("bun install"));
    }
    out.push(String::from_str("bun run build"));
    if config.has_docker {
        out.push(String::from_str("docker compose up -d"));
    }
    out.push(String::from_str("bun run dev"));
    assert(out@.map_values(|s: String| s@) =~= next_steps_for(
        config.name@,
        config.has_wasm,
        config.has_docker,
    ));
    out
}

} // verus!
