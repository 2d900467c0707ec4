use create_grafana_plugin::config::{PluginType, ProjectConfig};
use create_grafana_plugin::template::{
    collect_template_files, is_binary_path, render_string, render_to_bytes, EmbeddedFile,
    TemplateContext, TemplateError,
};

fn sample_config() -> ProjectConfig {
    ProjectConfig {
        name: "my-plugin".to_string(),
        description: "Test plugin".to_string(),
        author: "Jane Doe".to_string(),
        org: "acme".to_string(),
        plugin_type: PluginType::Panel,
        has_wasm: true,
        has_docker: false,
        has_mock: false,
    }
}

#[test]
fn render_string_substitutes_variables() {
    let cfg = sample_config();
    let ctx = TemplateContext::from_config(&cfg);
    let out = render_string(
        "id={{ plugin_id }} name={{ plugin_name }} org={{ org }}",
        &ctx,
    )
    .expect("render");
    assert_eq!(out, "id=acme-my-plugin name=my-plugin org=acme");
}

#[test]
fn render_string_conditional_includes_when_true() {
    let cfg = sample_config();
    let ctx = TemplateContext::from_config(&cfg);
    let tpl = "{% if has_wasm %}WASM{% else %}NO{% endif %}";
    assert_eq!(render_string(tpl, &ctx).expect("render"), "WASM");
}

#[test]
fn render_string_conditional_excludes_when_false() {
    let mut cfg = sample_config();
    cfg.has_wasm = false;
    let ctx = TemplateContext::from_config(&cfg);
    let tpl = "{% if has_wasm %}WASM{% else %}NO{% endif %}";
    assert_eq!(render_string(tpl, &ctx).expect("render"), "NO");
}

#[test]
fn template_context_derived_fields() {
    let cfg = ProjectConfig {
        name: "foo-bar-baz".to_string(),
        description: "d".to_string(),
        author: "a".to_string(),
        org: "orgx".to_string(),
        plugin_type: PluginType::Datasource,
        has_wasm: true,
        has_docker: true,
        has_mock: true,
    };
    let ctx = TemplateContext::from_config(&cfg);
    assert_eq!(ctx.plugin_id, "orgx-foo-bar-baz");
    assert_eq!(ctx.crate_name, "foo_bar_baz");
    assert_eq!(ctx.pascal_case_name, "FooBarBaz");
    assert_eq!(ctx.plugin_type, "datasource");
    assert!(!ctx.current_year.is_empty());
    assert!(!ctx.today.is_empty());
}

#[test]
fn dated_context_holds_given_dates() {
    let ctx = TemplateContext::from_config_dated(
        &sample_config(),
        "2024-02-29".to_string(),
        "2024".to_string(),
    );
    assert_eq!(ctx.today, "2024-02-29");
    assert_eq!(ctx.current_year, "2024");
    assert_eq!(ctx.port_offset, 0);
    assert_eq!(ctx.pascal_case_name, "MyPlugin");
    assert_eq!(ctx.plugin_type, "panel");
}

#[test]
fn pascal_case_edge_cases() {
    let mut cfg = sample_config();
    for (name, pascal) in [("a--b", "AB"), ("-x-", "X"), ("", ""), ("abc", "Abc")] {
        cfg.name = name.to_string();
        let ctx = TemplateContext::from_config_dated(&cfg, String::new(), String::new());
        assert_eq!(ctx.pascal_case_name, pascal);
    }
}

#[test]
fn existing_dates_are_kept() {
    let mut ctx = TemplateContext::from_config_dated(
        &sample_config(),
        "2030-01-01".to_string(),
        "2030".to_string(),
    );
    ctx.apply_dates_from_existing_plugin_json(None);
    assert_eq!(ctx.today, "2030-01-01");
    ctx.apply_dates_from_existing_plugin_json(Some("2021-07-04"));
    assert_eq!(ctx.today, "2021-07-04");
    assert_eq!(ctx.current_year, "2021");
    ctx.apply_dates_from_existing_plugin_json(Some("1999"));
    assert_eq!(ctx.current_year, "1999");
    assert_eq!(ctx.plugin_id, "acme-my-plugin");
}

#[test]
fn render_string_reports_syntax_errors() {
    let ctx = TemplateContext::from_config(&sample_config());
    let r = render_string("{% if %}", &ctx);
    assert!(matches!(r, Err(TemplateError::Parse(_))));
    let r = render_string("{{ missing_field }}", &ctx);
    assert!(matches!(r, Err(TemplateError::Render(_))));
}

#[test]
fn render_to_bytes_copies_or_renders() {
    let ctx = TemplateContext::from_config(&sample_config());
    let raw = b"{{ plugin_id }}".to_vec();
    assert_eq!(render_to_bytes(&raw, "src/a.ts", &ctx), Ok(raw.clone()));
    assert_eq!(render_to_bytes(&raw, "logo.SVG", &ctx), Ok(raw.clone()));
    assert_eq!(
        render_to_bytes(&raw, "logo.svg.tera", &ctx),
        Ok(b"acme-my-plugin".to_vec())
    );
    assert_eq!(
        render_to_bytes(&raw, "src/a.ts.tera", &ctx),
        Ok(b"acme-my-plugin".to_vec())
    );
    assert_eq!(
        render_to_bytes(&[0xff, 0x00], "x.tera", &ctx),
        Err(TemplateError::NotUtf8)
    );
    assert_eq!(render_to_bytes(&[0xff], "x.png", &ctx), Ok(vec![0xff]));
}

#[test]
fn binary_extensions_any_case() {
    assert!(is_binary_path("img/logo.SVG"));
    assert!(is_binary_path("a.woff2"));
    assert!(!is_binary_path("a.svg.tera"));
    assert!(!is_binary_path(".png"));
    assert!(!is_binary_path("README"));
}

#[test]
fn collects_files_directory_by_directory() {
    let f = |p: &str, c: &str| EmbeddedFile {
        path: p.to_string(),
        contents: c.as_bytes().to_vec(),
    };
    let tree = vec![
        f("base/README.md", "r"),
        f("panel/src/module.ts", "p"),
        f("base/package.json", "j"),
        f("basement/x", "no"),
        f("wasm/Cargo.toml", "w"),
    ];
    let got = collect_template_files(&tree, &vec!["panel", "base"]);
    let want: Vec<(Vec<u8>, String)> = vec![
        (b"p".to_vec(), "src/module.ts".to_string()),
        (b"r".to_vec(), "README.md".to_string()),
        (b"j".to_vec(), "package.json".to_string()),
    ];
    assert_eq!(got, want);
}

#[test]
fn render_string_keeps_plain_text_and_fills_one_field() {
    let ctx = TemplateContext::from_config(&sample_config());
    assert_eq!(render_string("no tags here }", &ctx).expect("render"), "no tags here }");
    assert_eq!(render_string("", &ctx).expect("render"), "");
    assert_eq!(
        render_string("crate: {{ crate_name }}!", &ctx).expect("render"),
        "crate: my_plugin!"
    );
}

#[test]
fn render_to_bytes_renders_text_fields() {
    let ctx = TemplateContext::from_config(&sample_config());
    assert_eq!(
        render_to_bytes(b"org={{ org }}", "a.txt.tera", &ctx),
        Ok(b"org=acme".to_vec())
    );
}

#[test]
fn render_string_if_without_else() {
    let mut cfg = sample_config();
    let tpl = "a{% if has_docker %}D{% endif %}b {{ plugin_name }}";
    let ctx = TemplateContext::from_config(&cfg);
    assert_eq!(render_string(tpl, &ctx).expect("render"), "ab my-plugin");
    cfg.has_docker = true;
    let ctx = TemplateContext::from_config(&cfg);
    assert_eq!(render_string(tpl, &ctx).expect("render"), "aDb my-plugin");
}

#[test]
fn render_string_json_template() {
    let ctx = TemplateContext::from_config(&sample_config());
    let tpl = "{\n  \"id\": \"{{ plugin_id }}\",\n  \"wasm\": {% if has_wasm %}true{% else %}false{% endif %}\n}\n";
    assert_eq!(
        render_string(tpl, &ctx).expect("render"),
        "{\n  \"id\": \"acme-my-plugin\",\n  \"wasm\": true\n}\n"
    );
    assert_eq!(render_string("{ a } {x", &ctx).expect("render"), "{ a } {x");
}

#[test]
fn context_dates_have_their_shape() {
    let ctx = TemplateContext::from_config(&sample_config());
    let t = ctx.today.as_bytes();
    assert!(t.len() >= 10);
    assert_eq!(t[t.len() - 3], b'-');
    assert_eq!(t[t.len() - 6], b'-');
    assert!(ctx.current_year.len() >= 4);
    assert!(ctx.current_year.chars().all(|c| c.is_ascii_digit() || c == '+'));
}
