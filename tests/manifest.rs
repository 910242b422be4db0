use playdsp::manifest::{
    generate_cargo_toml_with_dependencies, parse_dependency_declarations, parse_user_dependencies,
    DependencyManifest,
};

fn entries(m: &DependencyManifest) -> Vec<(String, String)> {
    (0..m.len()).map(|i| (m.name_at(i).clone(), m.version_at(i).clone())).collect()
}

fn pair(a: &str, b: &str) -> (String, String) {
    (a.to_string(), b.to_string())
}

#[test]
fn reads_only_the_dependencies_section() {
    let text = "[package]\nname = \"x\"\n\n[dependencies]\n# comment\nrand = \"0.8\"\n  serde = { version = \"1\" }  \nbad line\n[dev-dependencies]\nfoo = \"1\"\n";
    let m = parse_dependency_declarations(text);
    assert_eq!(
        entries(&m),
        vec![pair("rand", "\"0.8\""), pair("serde", "{ version = \"1\" }")]
    );
}

#[test]
fn later_declaration_replaces_earlier() {
    let m = parse_dependency_declarations("[dependencies]\na = \"1\"\nb = \"2\"\na = \"3\"\n");
    assert_eq!(entries(&m), vec![pair("a", "\"3\""), pair("b", "\"2\"")]);
}

#[test]
fn declared_version_wins_over_inferred() {
    let declared = "[dependencies]\nfoo = \"1.2\"\n";
    let sources = vec!["use foo::bar;\nuse baz::q;\n".to_string()];
    let m = parse_user_dependencies(Some(declared), &sources);
    assert_eq!(entries(&m), vec![pair("foo", "\"1.2\""), pair("baz", "\"*\"")]);
    assert_eq!(m.get(&"foo".to_string()), Some(&"\"1.2\"".to_string()));
}

#[test]
fn inferred_without_declarations() {
    let sources = vec![
        "mod dsp;\nuse dsp::x;\nuse rand::Rng;\n".to_string(),
        "use rand::random;\nuse libm;\n".to_string(),
    ];
    let m = parse_user_dependencies(None, &sources);
    assert_eq!(entries(&m), vec![pair("rand", "\"*\""), pair("libm", "\"*\"")]);
    assert_eq!(m.get(&"dsp".to_string()), None);
}

#[test]
fn manifest_insert_and_absent() {
    let mut m = DependencyManifest::new();
    assert!(m.is_empty());
    m.insert("a".to_string(), "1".to_string());
    m.insert_if_absent("a".to_string(), "2".to_string());
    m.insert_if_absent("b".to_string(), "3".to_string());
    m.insert("a".to_string(), "4".to_string());
    assert_eq!(entries(&m), vec![pair("a", "4"), pair("b", "3")]);
}

#[test]
fn dependencies_go_after_the_header_line() {
    let template = "[package]\nname = \"rt\"\n\n[dependencies]\nbwavfile = \"2\"\n";
    let m = parse_dependency_declarations("[dependencies]\nrand = \"0.8\"\nfoo = \"*\"\n");
    assert_eq!(
        generate_cargo_toml_with_dependencies(template, &m),
        "[package]\nname = \"rt\"\n\n[dependencies]\nrand = \"0.8\"\nfoo = \"*\"\nbwavfile = \"2\"\n"
    );
}

#[test]
fn no_dependencies_leaves_template() {
    let template = "[dependencies]\nx = \"1\"\n";
    assert_eq!(
        generate_cargo_toml_with_dependencies(template, &DependencyManifest::new()),
        template
    );
}

#[test]
fn header_without_newline_leaves_template() {
    let m = parse_dependency_declarations("[dependencies]\nrand = \"0.8\"\n");
    assert_eq!(generate_cargo_toml_with_dependencies("[package]\n[dependencies]", &m), "[package]\n[dependencies]");
    assert_eq!(generate_cargo_toml_with_dependencies("[package]\n", &m), "[package]\n");
}
