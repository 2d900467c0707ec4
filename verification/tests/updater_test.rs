use create_grafana_plugin::updater::{
    has_hash_style_marker, has_html_style_marker, has_js_style_marker,
    is_known_json_managed_path, is_managed_existing_file, parse_version_marker, split_plugin_id,
    UpdateError, MANAGED_MARKER_HASH, MANAGED_MARKER_HTML, MANAGED_MARKER_JS,
};

#[test]
fn detects_json_paths() {
    assert!(is_known_json_managed_path("plugin.json"));
    assert!(is_known_json_managed_path("biome.json"));
    assert!(!is_known_json_managed_path("src/foo.json"));
}

#[test]
fn detects_js_marker() {
    let s = format!("{MANAGED_MARKER_JS}\nexport const x = 1;\n");
    assert!(has_js_style_marker(&s));
    assert!(!has_js_style_marker("export const x = 1;\n"));
}

#[test]
fn detects_hash_marker() {
    let s = format!("{MANAGED_MARKER_HASH}\nfoo: bar\n");
    assert!(has_hash_style_marker(&s));
}

#[test]
fn shebang_then_marker() {
    let s = format!("#!/usr/bin/env node\n{MANAGED_MARKER_JS}\nconsole.log(1);\n");
    assert!(has_js_style_marker(&s));
}

#[test]
fn split_plugin_id_simple() {
    let (org, name) = split_plugin_id("myorg-my-plugin", None).unwrap();
    assert_eq!(org, "myorg");
    assert_eq!(name, "my-plugin");
}

#[test]
fn split_plugin_id_with_hyphenated_org() {
    let (org, name) =
        split_plugin_id("acme-corp-my-plugin", Some("https://github.com/acme-corp")).unwrap();
    assert_eq!(org, "acme-corp");
    assert_eq!(name, "my-plugin");
}

#[test]
fn split_plugin_id_fallback_without_url() {
    let (org, name) = split_plugin_id("acme-corp-my-plugin", None).unwrap();
    assert_eq!(org, "acme");
    assert_eq!(name, "corp-my-plugin");
}

#[test]
fn split_plugin_id_without_hyphen_fails() {
    assert_eq!(
        split_plugin_id("plugin", None),
        Err(UpdateError::InvalidPluginId)
    );
    assert_eq!(
        UpdateError::InvalidPluginId.message(),
        "plugin id must be in the form org-name"
    );
}

#[test]
fn split_plugin_id_url_not_matching_falls_back() {
    let (org, name) =
        split_plugin_id("acme-corp-my-plugin", Some("https://github.com/other")).unwrap();
    assert_eq!(org, "acme");
    assert_eq!(name, "corp-my-plugin");
    let (org, name) = split_plugin_id("acme-x", Some("https://github.com/")).unwrap();
    assert_eq!(org, "acme");
    assert_eq!(name, "x");
}

#[test]
fn marker_must_be_first_significant_line() {
    let s = format!("\n\n   {MANAGED_MARKER_HASH}  \nkey: v\n");
    assert!(has_hash_style_marker(&s));
    let late = format!("key: v\n{MANAGED_MARKER_HASH}\n");
    assert!(!has_hash_style_marker(&late));
    let shebang = format!("#!/bin/sh\n{MANAGED_MARKER_HASH}\n");
    assert!(!has_hash_style_marker(&shebang));
    assert!(!has_js_style_marker(""));
    let html = format!("{MANAGED_MARKER_HTML}\n# Title\n");
    assert!(has_html_style_marker(&html));
}

#[test]
fn marker_beyond_forty_lines_is_not_seen() {
    let blank = "\n".repeat(40);
    let s = format!("{blank}{MANAGED_MARKER_JS}\n");
    assert!(!has_js_style_marker(&s));
    let blank39 = "\n".repeat(39);
    let s39 = format!("{blank39}{MANAGED_MARKER_JS}\n");
    assert!(has_js_style_marker(&s39));
}

#[test]
fn managed_file_rules_by_kind() {
    let js = format!("{MANAGED_MARKER_JS}\nx\n");
    let hash = format!("{MANAGED_MARKER_HASH}\nx\n");
    let html = format!("{MANAGED_MARKER_HTML}\nx\n");
    assert!(is_managed_existing_file("package.json", "{}"));
    assert!(is_managed_existing_file("src/module.ts", &js));
    assert!(!is_managed_existing_file("src/module.ts", &hash));
    assert!(is_managed_existing_file("docker-compose.yml", &hash));
    assert!(!is_managed_existing_file("docker-compose.yml", &js));
    assert!(is_managed_existing_file("README.md", &html));
    assert!(is_managed_existing_file("Dockerfile", &hash));
    assert!(!is_managed_existing_file("Dockerfile", &js));
    assert!(is_managed_existing_file(".github/workflows/ci.yml", &hash));
    assert!(is_managed_existing_file("bunfig.toml", &js));
    assert!(is_managed_existing_file("bunfig.toml", &hash));
    assert!(is_managed_existing_file("bunfig.toml", &html));
    assert!(!is_managed_existing_file("bunfig.toml", "x = 1\n"));
    assert!(!is_managed_existing_file("src/foo.json", "{}"));
}

#[test]
fn version_marker_is_trimmed() {
    assert_eq!(parse_version_marker("  0.3.1\n"), Some("0.3.1".to_string()));
    assert_eq!(parse_version_marker(" \n\t"), None);
    assert_eq!(parse_version_marker(""), None);
}

#[test]
fn version_marker_reads_back_as_written() {
    assert_eq!(parse_version_marker("1.2.3"), Some("1.2.3".to_string()));
}
