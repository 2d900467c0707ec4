//! Project configuration: plugin types, the resolved configuration, its
//! validation, the template layer stack and name normalisation.

use vstd::prelude::*;
use crate::text;
use crate::unicode;

verus! {

/// Plugin type variants.
#[derive(Debug, Clone, Copy, PartialEq, Eq, Structural)]
pub enum PluginType {
    Panel,
    Datasource,
    App,
}

/// The lower-case name of a plugin type, as it appears in `plugin.json`.
pub open spec fn plugin_type_name(t: PluginType) -> Seq<char> {
    match t {
        PluginType::Panel => "panel"@,
        PluginType::Datasource => "datasource"@,
        PluginType::App => "app"@,
    }
}

impl PluginType {
    /// The lower-case name of the type (what `Display` printed).
    pub fn name(&self) -> (r: String)
        ensures
            r@ == plugin_type_name(*self),
    {
        match self {
            PluginType::Panel => String::from_str("panel"),
            PluginType::Datasource => String::from_str("datasource"),
            PluginType::App => String::from_str("app"),
        }
    }
}

/// Resolved project configuration after merging all input sources.
#[derive(Debug, Clone)]
pub struct ProjectConfig {
    pub name: String,
    pub description: String,
    pub author: String,
    pub org: String,
    pub plugin_type: PluginType,
    pub has_wasm: bool,
    pub has_docker: bool,
    pub has_mock: bool,
}

/// Why a configuration was refused.
#[derive(Debug, Clone, PartialEq, Eq)]
pub enum ConfigError {
    /// The plugin type string is none of the supported ones (the string as given).
    InvalidPluginType(String),
    /// The mock data generator was asked for without Docker.
    MockRequiresDocker,
}

pub open spec fn invalid_type_message(given: Seq<char>) -> Seq<char> {
    "Invalid plugin type: "@ + given + ". Use: panel, datasource, or app"@
}

pub open spec fn mock_requires_docker_message() -> Seq<char> {
    "Mock data generator requires Docker: pass --docker with --mock, or set docker = true in .grafana-plugin.toml"@
}

pub open spec fn config_error_message(e: ConfigError) -> Seq<char> {
    match e {
        ConfigError::InvalidPluginType(s) => invalid_type_message(s@),
        ConfigError::MockRequiresDocker => mock_requires_docker_message(),
    }
}

impl ConfigError {
    /// The message shown to the user.
    pub fn message(&self) -> (r: String)
        ensures
            r@ == config_error_message(*self),
    {
        match self {
            ConfigError::InvalidPluginType(s) => {
                let a = text::chars_of("Invalid plugin type: ");
                let b = text::chars_of(s.as_str());
                let c = text::chars_of(". Use: panel, datasource, or app");
                let ab = text::concat_chars(&a, &b);
                let abc = text::concat_chars(&ab, &c);
                text::string_from_chars(&abc)
            },
            ConfigError::MockRequiresDocker => String::from_str(
                "Mock data generator requires Docker: pass --docker with --mock, or set docker = true in .grafana-plugin.toml",
            ),
        }
    }
}

/// Whether the flag combination is one the scaffold can emit.
pub open spec fn config_is_consistent(has_docker: bool, has_mock: bool) -> bool {
    !(has_mock && !has_docker)
}

/// Ensures flag combinations match what the scaffold can emit: the mock data
/// generator needs Docker.
pub fn validate_project_config(config: &ProjectConfig) -> (r: Result<(), ConfigError>)
    ensures
        r is Ok <==> config_is_consistent(config.has_docker, config.has_mock),
        r is Err ==> r == Err::<(), ConfigError>(ConfigError::MockRequiresDocker),
{
    if config.has_mock && !config.has_docker {
        return Err(ConfigError::MockRequiresDocker);
    }
    Ok(())
}

/// The template layers, in merge order: `base`, the plugin type's layer, then
/// `wasm`, `docker` and `mock` as selected (`mock` only together with Docker).
pub open spec fn template_stack(
    plugin_type: PluginType,
    has_wasm: bool,
    has_docker: bool,
    has_mock: bool,
) -> Seq<Seq<char>> {
    seq!["base"@, plugin_type_name(plugin_type)] + (if has_wasm {
        seq!["wasm"@]
    } else {
        seq![]
    }) + (if has_docker {
        seq!["docker"@]
    } else {
        seq![]
    }) + (if has_mock && has_docker {
        seq!["mock"@]
    } else {
        seq![]
    })
}

pub open spec fn str_views(v: Seq<&str>) -> Seq<Seq<char>> {
    v.map_values(|s: &str| s@)
}

/// Template layer directories in merge order, shared by scaffold and update.
pub fn template_directory_stack(config: &ProjectConfig) -> (dirs: Vec<&'static str>)
    ensures
        str_views(dirs@) == template_stack(
            config.plugin_type,
            config.has_wasm,
            config.has_docker,
            config.has_mock,
        ),
{
    let mut dirs: Vec<&'static str> = Vec::new();
    dirs.push("base");
    match config.plugin_type {
        PluginType::Panel => dirs.push("panel"),
        PluginType::Datasource => dirs.push("datasource"),
        PluginType::App => dirs.push("app"),
    }
    let ghost base = dirs@;
    if config.has_wasm {
        dirs.push("wasm");
    }
    let ghost with_wasm = dirs@;
    if config.has_docker {
        dirs.push("docker");
    }
    let ghost with_docker = dirs@;
    if config.has_mock && config.has_docker {
        dirs.push("mock");
    }
    assert(str_views(dirs@) =~= template_stack(
        config.plugin_type,
        config.has_wasm,
        config.has_docker,
        config.has_mock,
    ));
    dirs
}

// ---------------------------------------------------------------------------
// Names
// ---------------------------------------------------------------------------

/// A character of a name as kebab-case keeps it: letters and digits (in Unicode's
/// sense) with ASCII capitals lowered, anything else a separator.
pub open spec fn kebab_char(c: char) -> char {
    if text::is_ascii_char(c) {
        if text::is_ascii_alnum(c) {
            text::ascii_lower(c)
        } else {
            '-'
        }
    } else if unicode::unicode_alphanumeric(c) {
        c
    } else {
        '-'
    }
}

/// The kebab-case form of a name: every character mapped by `kebab_char`, the
/// result split at `-`, empty pieces dropped, and the rest joined with `-`.
pub open spec fn kebab_case(s: Seq<char>) -> Seq<char> {
    text::join_with(
        text::non_empty_pieces(text::split_on(s.map_values(|c: char| kebab_char(c)), '-')),
        '-',
    )
}

/// Convert a plugin name to kebab-case.
pub fn to_kebab_case(s: &str) -> (r: String)
    ensures
        r@ == kebab_case(s@),
{
    let cs = text::chars_of(s);
    let ghost mapped = cs@.map_values(|c: char| kebab_char(c));
    let mut out: Vec<char> = Vec::new();
    let mut in_word = false;
    let mut i: usize = 0;
    proof {
        assert(mapped.take(0) =~= Seq::<char>::empty());
        let e = Seq::<char>::empty();
        assert(text::split_on(e, '-') == seq![e]);
        assert(seq![e].drop_last() =~= Seq::<Seq<char>>::empty());
        assert(text::non_empty_pieces(Seq::<Seq<char>>::empty()) == Seq::<Seq<char>>::empty());
        assert(text::non_empty_pieces(seq![e]) =~= Seq::<Seq<char>>::empty());
    }
    while i < cs.len()
        invariant
            i <= cs.len(),
            mapped == cs@.map_values(|c: char| kebab_char(c)),
            out@ == text::join_with(
                text::non_empty_pieces(text::split_on(mapped.take(i as int), '-')),
                '-',
            ),
            in_word == (text::split_on(mapped.take(i as int), '-').last().len() > 0),
            (out@.len() > 0) == (text::non_empty_pieces(
                text::split_on(mapped.take(i as int), '-'),
            ).len() > 0),
        decreases cs.len() - i,
    {
        let ghost prefix = mapped.take(i as int);
        let ghost pieces = text::split_on(prefix, '-');
        let ghost kept = text::non_empty_pieces(pieces);
        let c = cs[i];
        proof {
            assert(mapped.take(i + 1) =~= prefix.push(mapped[i as int]));
            text::lemma_split_on_push(prefix, '-', mapped[i as int]);
            text::lemma_split_on_len(prefix, '-');
            text::lemma_non_empty_pieces_all(pieces);
        }
        if unicode::is_alphanumeric(c) {
            let l = text::to_ascii_lowercase(c);
            assert(mapped[i as int] == l);
            proof {
                // `l` is not the separator: an ASCII capital lowers to a small letter,
                // and any other character is kept as it is.
                if text::is_ascii_char(c) {
                    assert(l != '-');
                } else {
                    assert(l == c);
                    assert(l != '-');
                }
            }
            let ghost new_pieces = pieces.update(pieces.len() - 1, pieces.last().push(l));
            assert(new_pieces.drop_last() =~= pieces.drop_last());
            if in_word {
                proof {
                    assert(kept == text::non_empty_pieces(pieces.drop_last()).push(pieces.last()));
                    assert(text::non_empty_pieces(new_pieces) == text::non_empty_pieces(
                        pieces.drop_last(),
                    ).push(pieces.last().push(l)));
                    assert(text::non_empty_pieces(new_pieces) =~= kept.update(
                        kept.len() - 1,
                        kept.last().push(l),
                    ));
                    text::lemma_join_extend_last(kept, l, '-');
                }
                out.push(l);
            } else {
                proof {
                    assert(kept == text::non_empty_pieces(pieces.drop_last()));
                    assert(pieces.last().push(l) =~= seq![l]);
                    assert(new_pieces.last() == seq![l]);
                    assert(text::non_empty_pieces(new_pieces) == kept.push(seq![l]));
                    text::lemma_join_push(kept, seq![l], '-');
                }
                if out.len() > 0 {
                    out.push('-');
                }
                out.push(l);
                assert(out@ =~= text::join_with(text::non_empty_pieces(new_pieces), '-'));
            }
            in_word = true;
        } else {
            assert(mapped[i as int] == '-');
            proof {
                assert(pieces.push(Seq::<char>::empty()).drop_last() =~= pieces);
            }
            in_word = false;
        }
        i += 1;
    }
    assert(mapped.take(cs.len() as int) =~= mapped);
    text::string_from_chars(&out)
}

/// The plugin type a (lower-cased) string names: `panel`, `datasource` (also
/// spelled `data-source`) or `app`.
pub open spec fn plugin_type_of(lowered: Seq<char>) -> Option<PluginType> {
    if lowered == "panel"@ {
        Some(PluginType::Panel)
    } else if lowered == "datasource"@ || lowered == "data-source"@ {
        Some(PluginType::Datasource)
    } else if lowered == "app"@ {
        Some(PluginType::App)
    } else {
        None
    }
}

/// The lower-case form of a string as `str::to_lowercase` gives it: ASCII text
/// character by character, anything else by Unicode's mapping.
pub open spec fn lowercase(s: Seq<char>) -> Seq<char> {
    if vstd::utf8::is_ascii_chars(s) {
        s.map_values(|c: char| text::ascii_lower(c))
    } else {
        unicode::unicode_lowercase(s)
    }
}

/// Parse a plugin type string from `plugin.json` or the command line; letter case
/// does not matter.
pub fn parse_plugin_type(s: &str) -> (r: Result<PluginType, ConfigError>)
    ensures
        match plugin_type_of(lowercase(s@)) {
            Some(t) => r == Ok::<PluginType, ConfigError>(t),
            None => r matches Err(ConfigError::InvalidPluginType(g)) && g@ == s@,
        },
{
    let lowered = unicode::str_to_lowercase(s);
    let l = text::chars_of(lowered.as_str());
    let panel = text::chars_of("panel");
    let datasource = text::chars_of("datasource");
    let data_source = text::chars_of("data-source");
    let app = text::chars_of("app");
    if text::chars_eq(&l, &panel) {
        Ok(PluginType::Panel)
    } else if text::chars_eq(&l, &datasource) || text::chars_eq(&l, &data_source) {
        Ok(PluginType::Datasource)
    } else if text::chars_eq(&l, &app) {
        Ok(PluginType::App)
    } else {
        Err(ConfigError::InvalidPluginType(String::from_str(s)))
    }
}

} // verus!
