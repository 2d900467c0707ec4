use create_grafana_plugin::config::PluginType;
use create_grafana_plugin::updater::{
    action_effect, decide_file_action, discover_project_config, discover_project_config_from_text,
    existing_updated_date, infer_port_offset, plan_update,
    Effect, FileAction, PluginJson, ProjectLayout, UpdateError, UpdateTally, MANAGED_MARKER_JS,
};

fn meta(id: Option<&str>, ty: Option<&str>, url: Option<&str>) -> PluginJson {
    PluginJson {
        id: id.map(|s| s.to_string()),
        plugin_type: ty.map(|s| s.to_string()),
        description: Some("A plugin".to_string()),
        author_name: Some("Jane".to_string()),
        author_url: url.map(|s| s.to_string()),
        updated: None,
    }
}

fn layout(cargo: bool, yml: bool, mock: bool, compose: Option<&str>) -> ProjectLayout {
    ProjectLayout {
        has_cargo_toml: cargo,
        has_compose_yml: yml,
        has_compose_yaml: false,
        has_otel_mock_dir: mock,
        compose_text: compose.map(|s| s.to_string()),
    }
}

const COMPOSE: &str = "services:\n  grafana:\n    image: grafana/grafana\n    ports:\n      - \"3005:3000\"\n  other:\n    ports:\n      - \"4000:3000\"\n";

#[test]
fn port_offset_from_grafana_service() {
    assert_eq!(infer_port_offset(COMPOSE), 5);
    assert_eq!(infer_port_offset("grafana:\n  ports:\n    - '3000:3000'\n"), 0);
    assert_eq!(infer_port_offset("grafana:\n  ports:\n    - 2000:3000\n"), 0);
    assert_eq!(infer_port_offset("grafana:\n  ports:\n    - \"3017:3000\"\n"), 17);
    assert_eq!(infer_port_offset(""), 0);
    assert_eq!(infer_port_offset("other:\n  ports:\n    - \"3009:3000\"\n"), 0);
    assert_eq!(infer_port_offset("grafana:\nnext:\n  - \"3009:3000\"\n"), 0);
    assert_eq!(infer_port_offset("grafana:\n  - \"99999:3000\"\n"), 0);
}

#[test]
fn discover_recovers_configuration() {
    let m = meta(
        Some("acme-corp-my-plugin"),
        Some("Datasource"),
        Some("https://github.com/acme-corp"),
    );
    let (cfg, port) = discover_project_config(&m, &layout(true, true, true, Some(COMPOSE))).unwrap();
    assert_eq!(cfg.org, "acme-corp");
    assert_eq!(cfg.name, "my-plugin");
    assert_eq!(cfg.plugin_type, PluginType::Datasource);
    assert_eq!(cfg.description, "A plugin");
    assert_eq!(cfg.author, "Jane");
    assert!(cfg.has_wasm && cfg.has_docker && cfg.has_mock);
    assert_eq!(port, 5);
}

#[test]
fn discover_without_docker_ignores_mock_and_ports() {
    let m = meta(Some("org-My_Plugin"), Some("panel"), None);
    let (cfg, port) = discover_project_config(&m, &layout(false, false, true, Some(COMPOSE))).unwrap();
    assert_eq!(cfg.name, "my-plugin");
    assert!(!cfg.has_wasm && !cfg.has_docker && !cfg.has_mock);
    assert_eq!(port, 0);
}

#[test]
fn discover_reports_each_error() {
    let l = layout(false, false, false, None);
    assert_eq!(
        discover_project_config(&meta(None, Some("panel"), None), &l).unwrap_err(),
        UpdateError::MissingId
    );
    assert_eq!(
        discover_project_config(&meta(Some("nohyphen"), Some("panel"), None), &l).unwrap_err(),
        UpdateError::InvalidPluginId
    );
    assert_eq!(
        discover_project_config(&meta(Some("a-b"), None, None), &l).unwrap_err(),
        UpdateError::MissingType
    );
    let e = discover_project_config(&meta(Some("a-b"), Some("widget"), None), &l).unwrap_err();
    assert_eq!(
        e.message(),
        "Invalid plugin type: widget. Use: panel, datasource, or app"
    );
}

#[test]
fn plan_drops_tera_and_keeps_last_duplicate() {
    let rels: Vec<String> = vec![
        "src/module.ts.tera".to_string(),
        "README.md".to_string(),
        "{{ crate_name }}/src/lib.rs.tera".to_string(),
        "src/module.ts".to_string(),
        "logo.svg".to_string(),
    ];
    let plan = plan_update(&rels, "my_crate");
    let outs: Vec<(&str, usize)> = plan.iter().map(|p| (p.output.as_str(), p.source)).collect();
    assert_eq!(
        outs,
        vec![
            ("README.md", 1),
            ("logo.svg", 4),
            ("my_crate/src/lib.rs", 2),
            ("src/module.ts", 3),
        ]
    );
}

#[test]
fn plan_orders_by_path_components() {
    let rels: Vec<String> = vec!["a.b".to_string(), "a/c".to_string(), "a-b".to_string()];
    let plan = plan_update(&rels, "c");
    let outs: Vec<&str> = plan.iter().map(|p| p.output.as_str()).collect();
    assert_eq!(outs, vec!["a/c", "a-b", "a.b"]);
}

#[test]
fn file_actions_cover_every_case() {
    let js = format!("{MANAGED_MARKER_JS}\nold\n");
    let js_new = format!("{MANAGED_MARKER_JS}\nnew\n");
    assert_eq!(decide_file_action("a.ts", None, b"x"), FileAction::Create);
    assert_eq!(decide_file_action("a.ts", Some(&b"x"[..]), b"x"), FileAction::Unchanged);
    assert_eq!(
        decide_file_action("a.ts", Some(&b"plain\n"[..]), js_new.as_bytes()),
        FileAction::SkipUnmanaged
    );
    assert_eq!(
        decide_file_action("a.ts", Some(js.as_bytes()), js_new.as_bytes()),
        FileAction::Update
    );
    assert_eq!(
        decide_file_action("a.ts", Some(js.as_bytes()), &[0xff, 0xfe]),
        FileAction::NotUtf8
    );
    assert_eq!(
        decide_file_action("package.json", Some(&b"{}"[..]), b"{ }"),
        FileAction::Update
    );
}

#[test]
fn dry_run_effects_write_nothing() {
    assert_eq!(action_effect(FileAction::Create, true), Effect::ShowNewFile);
    assert_eq!(action_effect(FileAction::Create, false), Effect::CreateFile);
    assert_eq!(action_effect(FileAction::Update, true), Effect::ShowDiff);
    assert_eq!(action_effect(FileAction::Update, false), Effect::Rewrite);
    assert_eq!(action_effect(FileAction::Unchanged, false), Effect::Nothing);
    assert_eq!(action_effect(FileAction::SkipUnmanaged, false), Effect::Nothing);
    assert_eq!(action_effect(FileAction::NotUtf8, true), Effect::Fail);
}

#[test]
fn tally_counts_actions() {
    let mut t = UpdateTally::new();
    for a in [
        FileAction::Create,
        FileAction::Update,
        FileAction::Update,
        FileAction::Unchanged,
        FileAction::SkipUnmanaged,
    ] {
        t.record(a);
    }
    assert_eq!(
        t,
        UpdateTally {
            updated: 2,
            created: 1,
            skipped: 1
        }
    );
}

#[test]
fn discover_from_plugin_json_text() {
    let raw = r#"{"id": "acme-corp-my-plugin", "type": "panel",
        "info": {"description": "D", "author": {"name": "N", "url": "https://github.com/acme-corp"},
                 "updated": "2022-03-04"}}"#;
    let (cfg, port) = discover_project_config_from_text(raw, &layout(false, false, false, None)).unwrap();
    assert_eq!(cfg.org, "acme-corp");
    assert_eq!(cfg.name, "my-plugin");
    assert_eq!(cfg.plugin_type, PluginType::Panel);
    assert_eq!(cfg.description, "D");
    assert_eq!(cfg.author, "N");
    assert_eq!(port, 0);
    assert_eq!(existing_updated_date(raw), Some("2022-03-04".to_string()));
}

#[test]
fn discover_from_text_errors() {
    let l = layout(false, false, false, None);
    assert_eq!(
        discover_project_config_from_text("{not json", &l).unwrap_err(),
        UpdateError::InvalidJson
    );
    assert_eq!(
        discover_project_config_from_text(r#"{"type": "panel"}"#, &l).unwrap_err(),
        UpdateError::MissingId
    );
    assert_eq!(
        discover_project_config_from_text(r#"{"id": 5, "type": "panel"}"#, &l).unwrap_err(),
        UpdateError::MissingId
    );
    assert_eq!(existing_updated_date("{not json"), None);
    assert_eq!(existing_updated_date(r#"{"info": {"updated": 3}}"#), None);
    assert_eq!(existing_updated_date(r#"[1, 2]"#), None);
}
