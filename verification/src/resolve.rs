//! Resolving the project configuration: command-line options over the TOML
//! file, then questions for whatever is still missing.

use vstd::prelude::*;
use crate::cli;
use crate::config;
use crate::text;

verus! {

/// The settings of a `.grafana-plugin.toml` file (all optional).
#[derive(Debug, Clone)]
pub struct TomlConfig {
    pub name: Option<String>,
    pub description: Option<String>,
    pub author: Option<String>,
    pub org: Option<String>,
    /// The `type` key.
    pub plugin_type: Option<String>,
    pub wasm: Option<bool>,
    pub docker: Option<bool>,
    pub mock: Option<bool>,
}

/// What is known of each setting after merging the command line and the file.
#[derive(Debug, Clone)]
pub struct ConfigSources {
    pub name: Option<String>,
    pub description: Option<String>,
    pub author: Option<String>,
    pub org: Option<String>,
    pub plugin_type: Option<String>,
    pub wasm: Option<bool>,
    pub docker: Option<bool>,
    pub mock: Option<bool>,
}

pub open spec fn opt_text(o: Option<String>) -> Option<Seq<char>> {
    match o {
        Some(s) => Some(s@),
        None => None,
    }
}

/// A text setting: the command line's value if given, else the file's.
pub open spec fn text_setting(arg: Option<String>, file: Option<String>) -> Option<Seq<char>> {
    match arg {
        Some(a) => Some(a@),
        None => opt_text(file),
    }
}

/// A switch: on when the flag is given, else the file's value (if any).
pub open spec fn flag_setting(arg: bool, file: Option<bool>) -> Option<bool> {
    if arg {
        Some(true)
    } else {
        file
    }
}

/// The file's value of a field, when there is a file.
pub open spec fn file_text(toml: Option<TomlConfig>, f: spec_fn(TomlConfig) -> Option<String>) -> Option<String> {
    match toml {
        Some(t) => f(t),
        None => None,
    }
}

pub open spec fn file_flag(toml: Option<TomlConfig>, f: spec_fn(TomlConfig) -> Option<bool>) -> Option<bool> {
    match toml {
        Some(t) => f(t),
        None => None,
    }
}

/// Whether `s` merges `args` over `toml`: command-line values win, flags can only
/// switch an option on.
pub open spec fn merges(s: ConfigSources, args: cli::Args, toml: Option<TomlConfig>) -> bool {
    &&& opt_text(s.name) == text_setting(args.name, file_text(toml, |t: TomlConfig| t.name))
    &&& opt_text(s.description) == text_setting(
        args.description,
        file_text(toml, |t: TomlConfig| t.description),
    )
    &&& opt_text(s.author) == text_setting(args.author, file_text(toml, |t: TomlConfig| t.author))
    &&& opt_text(s.org) == text_setting(args.org, file_text(toml, |t: TomlConfig| t.org))
    &&& opt_text(s.plugin_type) == text_setting(
        args.plugin_type,
        file_text(toml, |t: TomlConfig| t.plugin_type),
    )
    &&& s.wasm == flag_setting(args.wasm, file_flag(toml, |t: TomlConfig| t.wasm))
    &&& s.docker == flag_setting(args.docker, file_flag(toml, |t: TomlConfig| t.docker))
    &&& s.mock == flag_setting(args.mock, file_flag(toml, |t: TomlConfig| t.mock))
}

fn pick_text(arg: &Option<String>, file: Option<&Option<String>>) -> (r: Option<String>)
    ensures
        opt_text(r) == match *arg {
            Some(a) => Some(a@),
            None => match file {
                Some(f) => opt_text(*f),
                None => None,
            },
        },
{
    match arg {
        Some(a) => Some(a.clone()),
        None => match file {
            Some(Some(f)) => Some(f.clone()),
            _ => None,
        },
    }
}

fn pick_flag(arg: bool, file: Option<Option<bool>>) -> (r: Option<bool>)
    ensures
        r == if arg {
            Some(true)
        } else {
            match file {
                Some(f) => f,
                None => None,
            }
        },
{
    if arg {
        Some(true)
    } else {
        match file {
            Some(f) => f,
            None => None,
        }
    }
}

/// Merge the command line over the TOML file.
pub fn merge_sources(args: &cli::Args, toml: Option<&TomlConfig>) -> (r: ConfigSources)
    ensures
        merges(r, *args, match toml { Some(t) => Some(*t), None => None }),
{
    let name = pick_text(&args.name, match toml { Some(t) => Some(&t.name), None => None });
    let description = pick_text(
        &args.description,
        match toml { Some(t) => Some(&t.description), None => None },
    );
    let author = pick_text(&args.author, match toml { Some(t) => Some(&t.author), None => None });
    let org = pick_text(&args.org, match toml { Some(t) => Some(&t.org), None => None });
    let plugin_type = pick_text(
        &args.plugin_type,
        match toml { Some(t) => Some(&t.plugin_type), None => None },
    );
    let wasm = pick_flag(args.wasm, match toml { Some(t) => Some(t.wasm), None => None });
    let docker = pick_flag(args.docker, match toml { Some(t) => Some(t.docker), None => None });
    let mock = pick_flag(args.mock, match toml { Some(t) => Some(t.mock), None => None });
    ConfigSources { name, description, author, org, plugin_type, wasm, docker, mock }
}


// ---------------------------------------------------------------------------
// Without questions
// ---------------------------------------------------------------------------

/// Name, type, author and organisation are all known, so no question is asked.
pub open spec fn answers_complete(s: ConfigSources) -> bool {
    s.name is Some && s.plugin_type is Some && s.author is Some && s.org is Some
}

pub open spec fn flag_or(o: Option<bool>, d: bool) -> bool {
    match o {
        Some(b) => b,
        None => d,
    }
}

/// Whether `cfg` is the configuration built from complete sources: the name in
/// kebab-case, no description if none was given, switches off unless set, and
/// plugin type `t`.
pub open spec fn built_from(s: ConfigSources, t: config::PluginType, cfg: config::ProjectConfig) -> bool {
    &&& cfg.name@ == config::kebab_case(s.name->0@)
    &&& cfg.description@ == match s.description {
        Some(d) => d@,
        None => Seq::<char>::empty(),
    }
    &&& cfg.author@ == s.author->0@
    &&& cfg.org@ == s.org->0@
    &&& cfg.plugin_type == t
    &&& cfg.has_wasm == flag_or(s.wasm, false)
    &&& cfg.has_docker == flag_or(s.docker, false)
    &&& cfg.has_mock == flag_or(s.mock, false)
}

/// Resolve the configuration without asking anything, when name, type, author and
/// organisation are known (`None` otherwise).  The type must parse, and the mock
/// generator needs Docker.
pub fn resolve_noninteractive(s: &ConfigSources) -> (r: Option<Result<config::ProjectConfig, config::ConfigError>>)
    ensures
        r is Some <==> answers_complete(*s),
        answers_complete(*s) ==> match config::plugin_type_of(config::lowercase(s.plugin_type->0@)) {
            None => r matches Some(Err(config::ConfigError::InvalidPluginType(g))) && g@ == s.plugin_type->0@,
            Some(t) => if config::config_is_consistent(flag_or(s.docker, false), flag_or(s.mock, false)) {
                r matches Some(Ok(cfg)) && built_from(*s, t, cfg)
            } else {
                r == Some(Err::<config::ProjectConfig, config::ConfigError>(config::ConfigError::MockRequiresDocker))
            },
        },
{
    match (&s.name, &s.plugin_type, &s.author, &s.org) {
        (Some(name), Some(ptype), Some(author), Some(org)) => {
            let plugin_type = match config::parse_plugin_type(ptype.as_str()) {
                Ok(t) => t,
                Err(e) => return Some(Err(e)),
            };
            let cfg = config::ProjectConfig {
                name: config::to_kebab_case(name.as_str()),
                description: match &s.description {
                    Some(d) => d.clone(),
                    None => String::new(),
                },
                author: author.clone(),
                org: org.clone(),
                plugin_type,
                has_wasm: match s.wasm { Some(b) => b, None => false },
                has_docker: match s.docker { Some(b) => b, None => false },
                has_mock: match s.mock { Some(b) => b, None => false },
            };
            match config::validate_project_config(&cfg) {
                Ok(()) => Some(Ok(cfg)),
                Err(e) => Some(Err(e)),
            }
        },
        _ => None,
    }
}

// ---------------------------------------------------------------------------
// With questions
// ---------------------------------------------------------------------------

/// A question put to the user.
#[derive(Debug, Clone, Copy, PartialEq, Eq, Structural)]
pub enum Prompt {
    Name,
    Description,
    Author,
    Org,
    PluginType,
    Wasm,
    Docker,
    Mock,
}

/// The user's answer to a question.
#[derive(Debug, Clone)]
pub enum Answer {
    Name(String),
    Description(String),
    Author(String),
    Org(String),
    /// The position chosen in the list Panel, Datasource, App.
    PluginTypeIndex(usize),
    Wasm(bool),
    Docker(bool),
    Mock(bool),
}

/// What to do next while resolving with questions.
#[derive(Debug, Clone)]
pub enum Step {
    /// Ask this question, then apply the answer.
    Ask(Prompt),
    /// The configuration is complete.
    Done(config::ProjectConfig),
    /// A given value is refused.
    Fail(config::ConfigError),
}

/// The plugin type chosen at a position of the list Panel, Datasource, App (any
/// later position chooses App).
pub open spec fn type_at_index(i: usize) -> config::PluginType {
    if i == 0 {
        config::PluginType::Panel
    } else if i == 1 {
        config::PluginType::Datasource
    } else {
        config::PluginType::App
    }
}

/// The question still open, in the order name, description, author,
/// organisation, plugin type, WASM, Docker, mock (mock only when Docker is on);
/// `None` when nothing is missing.  A given plugin type that does not parse stops
/// the questions before WASM.
pub open spec fn open_question(s: ConfigSources) -> Option<Prompt> {
    if s.name is None {
        Some(Prompt::Name)
    } else if s.description is None {
        Some(Prompt::Description)
    } else if s.author is None {
        Some(Prompt::Author)
    } else if s.org is None {
        Some(Prompt::Org)
    } else if s.plugin_type is None {
        Some(Prompt::PluginType)
    } else if config::plugin_type_of(config::lowercase(s.plugin_type->0@)) is None {
        None
    } else if s.wasm is None {
        Some(Prompt::Wasm)
    } else if s.docker is None {
        Some(Prompt::Docker)
    } else if s.docker == Some(true) && s.mock is None {
        Some(Prompt::Mock)
    } else {
        None
    }
}

/// Whether `cfg` is the configuration that questions lead to from `s`: the name in
/// kebab-case, and the mock generator only together with Docker.
pub open spec fn completed_from(s: ConfigSources, cfg: config::ProjectConfig) -> bool {
    &&& cfg.name@ == config::kebab_case(s.name->0@)
    &&& cfg.description@ == s.description->0@
    &&& cfg.author@ == s.author->0@
    &&& cfg.org@ == s.org->0@
    &&& Some(cfg.plugin_type) == config::plugin_type_of(config::lowercase(s.plugin_type->0@))
    &&& cfg.has_wasm == s.wasm->0
    &&& cfg.has_docker == s.docker->0
    &&& cfg.has_mock == (s.docker->0 && flag_or(s.mock, false))
}

/// The next step of resolving with questions.
pub fn next_step(s: &ConfigSources) -> (r: Step)
    ensures
        match open_question(*s) {
            Some(p) => r == Step::Ask(p),
            None => if config::plugin_type_of(config::lowercase(s.plugin_type->0@)) is None {
                r matches Step::Fail(config::ConfigError::InvalidPluginType(g)) && g@ == s.plugin_type->0@
            } else {
                r matches Step::Done(cfg) && completed_from(*s, cfg)
            },
        },
{
    let name = match &s.name {
        Some(n) => n,
        None => return Step::Ask(Prompt::Name),
    };
    let description = match &s.description {
        Some(d) => d,
        None => return Step::Ask(Prompt::Description),
    };
    let author = match &s.author {
        Some(a) => a,
        None => return Step::Ask(Prompt::Author),
    };
    let org = match &s.org {
        Some(o) => o,
        None => return Step::Ask(Prompt::Org),
    };
    let type_text = match &s.plugin_type {
        Some(t) => t,
        None => return Step::Ask(Prompt::PluginType),
    };
    let plugin_type = match config::parse_plugin_type(type_text.as_str()) {
        Ok(t) => t,
        Err(e) => return Step::Fail(e),
    };
    let has_wasm = match s.wasm {
        Some(b) => b,
        None => return Step::Ask(Prompt::Wasm),
    };
    let has_docker = match s.docker {
        Some(b) => b,
        None => return Step::Ask(Prompt::Docker),
    };
    let has_mock = if has_docker {
        match s.mock {
            Some(b) => b,
            None => return Step::Ask(Prompt::Mock),
        }
    } else {
        false
    };
    let cfg = config::ProjectConfig {
        name: config::to_kebab_case(name.as_str()),
        description: description.clone(),
        author: author.clone(),
        org: org.clone(),
        plugin_type,
        has_wasm,
        has_docker,
        has_mock,
    };
    match config::validate_project_config(&cfg) {
        Ok(()) => Step::Done(cfg),
        Err(e) => Step::Fail(e),
    }
}

/// Whether `a` answers question `p`.
pub open spec fn answers(a: Answer, p: Prompt) -> bool {
    match a {
        Answer::Name(_) => p == Prompt::Name,
        Answer::Description(_) => p == Prompt::Description,
        Answer::Author(_) => p == Prompt::Author,
        Answer::Org(_) => p == Prompt::Org,
        Answer::PluginTypeIndex(_) => p == Prompt::PluginType,
        Answer::Wasm(_) => p == Prompt::Wasm,
        Answer::Docker(_) => p == Prompt::Docker,
        Answer::Mock(_) => p == Prompt::Mock,
    }
}

/// Whether `after` is `before` with answer `a` recorded: the setting it answers
/// takes its value (a chosen plugin type is recorded by its name); the other
/// settings are unchanged.
pub open spec fn applied(before: ConfigSources, a: Answer, after: ConfigSources) -> bool {
    &&& match a {
        Answer::Name(v) => opt_text(after.name) == Some(v@),
        Answer::Description(v) => opt_text(after.description) == Some(v@),
        Answer::Author(v) => opt_text(after.author) == Some(v@),
        Answer::Org(v) => opt_text(after.org) == Some(v@),
        Answer::PluginTypeIndex(i) => opt_text(after.plugin_type) == Some(
            config::plugin_type_name(type_at_index(i)),
        ),
        Answer::Wasm(b) => after.wasm == Some(b),
        Answer::Docker(b) => after.docker == Some(b),
        Answer::Mock(b) => after.mock == Some(b),
    }
    &&& !(a is Name) ==> after.name == before.name
    &&& !(a is Description) ==> after.description == before.description
    &&& !(a is Author) ==> after.author == before.author
    &&& !(a is Org) ==> after.org == before.org
    &&& !(a is PluginTypeIndex) ==> after.plugin_type == before.plugin_type
    &&& !(a is Wasm) ==> after.wasm == before.wasm
    &&& !(a is Docker) ==> after.docker == before.docker
    &&& !(a is Mock) ==> after.mock == before.mock
}

/// Record an answer.
pub fn apply_answer(s: &mut ConfigSources, a: Answer)
    ensures
        applied(*old(s), a, *final(s)),
{
    match a {
        Answer::Name(v) => s.name = Some(v),
        Answer::Description(v) => s.description = Some(v),
        Answer::Author(v) => s.author = Some(v),
        Answer::Org(v) => s.org = Some(v),
        Answer::PluginTypeIndex(i) => {
            let t = if i == 0 {
                config::PluginType::Panel
            } else if i == 1 {
                config::PluginType::Datasource
            } else {
                config::PluginType::App
            };
            s.plugin_type = Some(t.name());
        },
        Answer::Wasm(b) => s.wasm = Some(b),
        Answer::Docker(b) => s.docker = Some(b),
        Answer::Mock(b) => s.mock = Some(b),
    }
}

} // verus!
