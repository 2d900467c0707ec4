use create_grafana_plugin::config::{
    parse_plugin_type, template_directory_stack, to_kebab_case, validate_project_config,
    ConfigError, PluginType, ProjectConfig,
};

fn sample_cfg(has_docker: bool, has_mock: bool) -> ProjectConfig {
    ProjectConfig {
        name: "x".to_string(),
        description: String::new(),
        author: String::new(),
        org: String::new(),
        plugin_type: PluginType::Panel,
        has_wasm: false,
        has_docker,
        has_mock,
    }
}

#[test]
fn validate_rejects_mock_without_docker() {
    let err = validate_project_config(&sample_cfg(false, true)).unwrap_err();
    assert!(
        err.message().contains("Mock"),
        "unexpected message: {}",
        err.message()
    );
}

#[test]
fn validate_accepts_mock_with_docker() {
    validate_project_config(&sample_cfg(true, true)).unwrap();
}

#[test]
fn template_stack_includes_mock_only_with_docker() {
    let with = template_directory_stack(&sample_cfg(true, true));
    assert!(with.contains(&"mock"));

    let without = template_directory_stack(&sample_cfg(true, false));
    assert!(!without.contains(&"mock"));

    let mock_but_no_docker = template_directory_stack(&sample_cfg(false, true));
    assert!(!mock_but_no_docker.contains(&"mock"));
}

#[test]
fn validate_accepts_plain_configs() {
    assert_eq!(validate_project_config(&sample_cfg(false, false)), Ok(()));
    assert_eq!(validate_project_config(&sample_cfg(true, false)), Ok(()));
    assert_eq!(
        validate_project_config(&sample_cfg(false, true)),
        Err(ConfigError::MockRequiresDocker)
    );
}

#[test]
fn template_stack_layers_in_order() {
    let mut cfg = sample_cfg(true, true);
    cfg.plugin_type = PluginType::Datasource;
    cfg.has_wasm = true;
    assert_eq!(
        template_directory_stack(&cfg),
        vec!["base", "datasource", "wasm", "docker", "mock"]
    );
    let mut app = sample_cfg(false, false);
    app.plugin_type = PluginType::App;
    assert_eq!(template_directory_stack(&app), vec!["base", "app"]);
    assert_eq!(
        template_directory_stack(&sample_cfg(true, false)),
        vec!["base", "panel", "docker"]
    );
}

#[test]
fn kebab_case_examples() {
    assert_eq!(to_kebab_case("My Cool Plugin"), "my-cool-plugin");
    assert_eq!(to_kebab_case("  --Hello__World--  "), "hello-world");
    assert_eq!(to_kebab_case("already-kebab"), "already-kebab");
    assert_eq!(to_kebab_case("ABC123"), "abc123");
    assert_eq!(to_kebab_case(""), "");
    assert_eq!(to_kebab_case("!!!"), "");
    assert_eq!(to_kebab_case("a  b"), "a-b");
}

#[test]
fn kebab_case_is_stable_on_its_output() {
    for s in ["My Cool Plugin", "x__y", "--a--b--", "Ünïcode Näme", "a.b.c"] {
        let once = to_kebab_case(s);
        assert_eq!(to_kebab_case(&once), once);
    }
}

#[test]
fn parse_plugin_type_accepts_any_case() {
    assert_eq!(parse_plugin_type("panel"), Ok(PluginType::Panel));
    assert_eq!(parse_plugin_type("Panel"), Ok(PluginType::Panel));
    assert_eq!(parse_plugin_type("DATASOURCE"), Ok(PluginType::Datasource));
    assert_eq!(parse_plugin_type("app"), Ok(PluginType::App));
    assert_eq!(parse_plugin_type("data-source"), Ok(PluginType::Datasource));
}

#[test]
fn parse_plugin_type_rejects_unknown() {
    let err = parse_plugin_type("widget").unwrap_err();
    assert_eq!(err, ConfigError::InvalidPluginType("widget".to_string()));
    assert_eq!(
        err.message(),
        "Invalid plugin type: widget. Use: panel, datasource, or app"
    );
    assert!(parse_plugin_type(" panel").is_err());
}

#[test]
fn plugin_type_names() {
    assert_eq!(PluginType::Panel.name(), "panel");
    assert_eq!(PluginType::Datasource.name(), "datasource");
    assert_eq!(PluginType::App.name(), "app");
}

#[test]
fn mock_message_names_docker() {
    let m = ConfigError::MockRequiresDocker.message();
    assert!(m.starts_with("Mock data generator requires Docker"));
}
