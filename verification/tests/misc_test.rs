use create_grafana_plugin::config::{PluginType, ProjectConfig};
use create_grafana_plugin::diff::{diff_display_lines, DiffTag};
use create_grafana_plugin::paths::{normalized_rel, output_rel_for, template_output_rel};
use create_grafana_plugin::scaffold::next_steps;
use create_grafana_plugin::template::TemplateContext;
use create_grafana_plugin::updater::{split_plugin_id, is_managed_existing_file};

fn cfg(name: &str, wasm: bool, docker: bool) -> ProjectConfig {
    ProjectConfig {
        name: name.to_string(),
        description: String::new(),
        author: String::new(),
        org: "org".to_string(),
        plugin_type: PluginType::Panel,
        has_wasm: wasm,
        has_docker: docker,
        has_mock: false,
    }
}

#[test]
fn next_steps_follow_options() {
    assert_eq!(
        next_steps(&cfg("p", false, false)),
        vec!["cd p", "bun install", "bun run build", "bun run dev"]
    );
    assert_eq!(
        next_steps(&cfg("q", true, true)),
        vec![
            "cd q",
            "bun run setup",
            "bun run build",
            "docker compose up -d",
            "bun run dev"
        ]
    );
}

#[test]
fn tera_suffix_is_dropped() {
    assert_eq!(template_output_rel("src/module.ts.tera"), "src/module.ts");
    assert_eq!(template_output_rel("src/module.ts"), "src/module.ts");
    assert_eq!(template_output_rel("a.tera/b"), "a.tera/b");
    assert_eq!(template_output_rel(".tera"), ".tera");
    assert_eq!(template_output_rel("dir/x.tera/"), "dir/x");
}

#[test]
fn crate_placeholder_is_replaced() {
    assert_eq!(
        output_rel_for("{{ crate_name }}/src/lib.rs.tera", "my_crate"),
        "my_crate/src/lib.rs"
    );
    assert_eq!(output_rel_for("README.md", "c"), "README.md");
    assert_eq!(normalized_rel("a\\b\\c.yml"), "a/b/c.yml");
}

#[test]
fn diff_lines_are_marked() {
    let lines = diff_display_lines("a\nb\n", "a\nc\n");
    let got: Vec<(DiffTag, &str)> = lines.iter().map(|l| (l.tag, l.text.as_str())).collect();
    assert_eq!(
        got,
        vec![
            (DiffTag::Equal, " a\n"),
            (DiffTag::Delete, "-b\n"),
            (DiffTag::Insert, "+c\n"),
        ]
    );
    assert!(diff_display_lines("", "").is_empty());
}

#[test]
fn scaffolded_id_splits_back() {
    let c = ProjectConfig {
        name: "my-cool-plugin".to_string(),
        description: String::new(),
        author: String::new(),
        org: "acme-corp".to_string(),
        plugin_type: PluginType::App,
        has_wasm: false,
        has_docker: false,
        has_mock: false,
    };
    let ctx = TemplateContext::from_config_dated(&c, String::new(), String::new());
    let url = format!("https://github.com/{}", c.org);
    let (org, name) = split_plugin_id(&ctx.plugin_id, Some(&url)).unwrap();
    assert_eq!(org, c.org);
    assert_eq!(name, c.name);
}

#[test]
fn unmanaged_file_is_never_rewritten() {
    assert!(!is_managed_existing_file("src/App.tsx", "export {}\n"));
}

#[test]
fn diff_sides_rebuild_both_texts() {
    let old = "a\nb\nc";
    let new = "a\nx\nc\nd\n";
    let lines = diff_display_lines(old, new);
    let side = |skip: DiffTag| -> String {
        lines
            .iter()
            .filter(|l| l.tag != skip)
            .map(|l| &l.text[1..])
            .collect()
    };
    assert_eq!(side(DiffTag::Insert), old);
    assert_eq!(side(DiffTag::Delete), new);
}
