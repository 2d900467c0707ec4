use create_grafana_plugin::cli::Args;
use create_grafana_plugin::config::{ConfigError, PluginType};
use create_grafana_plugin::resolve::{
    apply_answer, merge_sources, next_step, resolve_noninteractive, Answer, ConfigSources, Prompt,
    Step, TomlConfig,
};

fn args() -> Args {
    Args {
        name: None,
        description: None,
        author: None,
        org: None,
        plugin_type: None,
        wasm: false,
        docker: false,
        mock: false,
        pm: "bun".to_string(),
        config: None,
        command: None,
    }
}

fn toml() -> TomlConfig {
    TomlConfig {
        name: Some("From File".to_string()),
        description: Some("file desc".to_string()),
        author: Some("File Author".to_string()),
        org: Some("fileorg".to_string()),
        plugin_type: Some("app".to_string()),
        wasm: Some(true),
        docker: Some(false),
        mock: Some(false),
    }
}

#[test]
fn command_line_wins_over_file() {
    let mut a = args();
    a.name = Some("Cli Name".to_string());
    a.docker = true;
    let s = merge_sources(&a, Some(&toml()));
    assert_eq!(s.name.as_deref(), Some("Cli Name"));
    assert_eq!(s.org.as_deref(), Some("fileorg"));
    assert_eq!(s.docker, Some(true));
    assert_eq!(s.wasm, Some(true));
    assert_eq!(s.mock, Some(false));
    let none = merge_sources(&args(), None);
    assert!(none.name.is_none() && none.wasm.is_none());
}

#[test]
fn noninteractive_builds_config() {
    let s = merge_sources(&args(), Some(&toml()));
    let cfg = resolve_noninteractive(&s).unwrap().unwrap();
    assert_eq!(cfg.name, "from-file");
    assert_eq!(cfg.plugin_type, PluginType::App);
    assert!(cfg.has_wasm && !cfg.has_docker && !cfg.has_mock);
    assert_eq!(cfg.description, "file desc");
}

#[test]
fn noninteractive_needs_four_settings() {
    let mut t = toml();
    t.author = None;
    let s = merge_sources(&args(), Some(&t));
    assert!(resolve_noninteractive(&s).is_none());
}

#[test]
fn noninteractive_errors() {
    let mut t = toml();
    t.plugin_type = Some("gauge".to_string());
    let s = merge_sources(&args(), Some(&t));
    match resolve_noninteractive(&s) {
        Some(Err(e)) => assert_eq!(e, ConfigError::InvalidPluginType("gauge".to_string())),
        other => panic!("unexpected result {:?}", other),
    }
    let mut a = args();
    a.mock = true;
    let s = merge_sources(&a, Some(&toml()));
    match resolve_noninteractive(&s) {
        Some(Err(e)) => assert_eq!(e, ConfigError::MockRequiresDocker),
        other => panic!("unexpected result {:?}", other),
    }
}

#[test]
fn questions_are_asked_in_order() {
    let mut s = merge_sources(&args(), None);
    let answers = [
        (Prompt::Name, Answer::Name("My Thing".to_string())),
        (Prompt::Description, Answer::Description("d".to_string())),
        (Prompt::Author, Answer::Author("a".to_string())),
        (Prompt::Org, Answer::Org("o".to_string())),
        (Prompt::PluginType, Answer::PluginTypeIndex(1)),
        (Prompt::Wasm, Answer::Wasm(false)),
        (Prompt::Docker, Answer::Docker(true)),
        (Prompt::Mock, Answer::Mock(true)),
    ];
    for (p, a) in answers {
        match next_step(&s) {
            Step::Ask(q) => assert_eq!(q, p),
            other => panic!("unexpected step {:?}", other),
        }
        apply_answer(&mut s, a);
    }
    match next_step(&s) {
        Step::Done(cfg) => {
            assert_eq!(cfg.name, "my-thing");
            assert_eq!(cfg.plugin_type, PluginType::Datasource);
            assert!(cfg.has_docker && cfg.has_mock && !cfg.has_wasm);
        }
        other => panic!("unexpected step {:?}", other),
    }
}

#[test]
fn no_mock_question_without_docker() {
    let s = ConfigSources {
        name: Some("n".to_string()),
        description: Some("d".to_string()),
        author: Some("a".to_string()),
        org: Some("o".to_string()),
        plugin_type: Some("panel".to_string()),
        wasm: Some(true),
        docker: Some(false),
        mock: Some(true),
    };
    match next_step(&s) {
        Step::Done(cfg) => assert!(!cfg.has_mock && !cfg.has_docker && cfg.has_wasm),
        other => panic!("unexpected step {:?}", other),
    }
}

#[test]
fn bad_type_stops_questions() {
    let mut s = merge_sources(&args(), None);
    apply_answer(&mut s, Answer::Name("n".to_string()));
    apply_answer(&mut s, Answer::Description("d".to_string()));
    apply_answer(&mut s, Answer::Author("a".to_string()));
    apply_answer(&mut s, Answer::Org("o".to_string()));
    s.plugin_type = Some("nope".to_string());
    match next_step(&s) {
        Step::Fail(e) => assert_eq!(e, ConfigError::InvalidPluginType("nope".to_string())),
        other => panic!("unexpected step {:?}", other),
    }
}

#[test]
fn type_index_beyond_list_is_app() {
    let mut s = merge_sources(&args(), None);
    apply_answer(&mut s, Answer::PluginTypeIndex(7));
    assert_eq!(s.plugin_type.as_deref(), Some("app"));
    apply_answer(&mut s, Answer::PluginTypeIndex(0));
    assert_eq!(s.plugin_type.as_deref(), Some("panel"));
}
