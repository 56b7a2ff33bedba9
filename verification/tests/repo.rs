use mcp_flowgate_core::repo::{load_manifest, Field, RepoLayout, RepoManifest, REPO_MANIFEST_SCHEMA_V1};

const PATH: &str = "/repo/flowgate.repo.yaml";

fn written(v: &serde_yaml::Value) -> String {
    match v {
        serde_yaml::Value::Bool(b) => b.to_string(),
        serde_yaml::Value::Number(n) => n.to_string(),
        serde_yaml::Value::String(s) => s.clone(),
        _ => String::new(),
    }
}

fn field(v: &serde_yaml::Value) -> Field {
    match v {
        serde_yaml::Value::Mapping(m) => Field::Mapping(
            m.iter().map(|(k, x)| (k.as_str().unwrap().to_string(), written(x))).collect(),
        ),
        other => Field::Text(written(other)),
    }
}

fn load(text: &str) -> Result<RepoManifest, String> {
    let parsed: serde_yaml::Value = serde_yaml::from_str(text).unwrap();
    let fields = parsed
        .as_mapping()
        .unwrap()
        .iter()
        .map(|(k, v)| (k.as_str().unwrap().to_string(), field(v)))
        .collect();
    load_manifest(PATH, &fields)
}

#[test]
fn load_manifest_accepts_minimal_well_formed_manifest() {
    let m = load("schema: flowgate.repo/v1\nname: swe-core\nnamespace: swe\nversion: 0.6.0\n")
        .expect("manifest should load");
    assert_eq!(m.schema, REPO_MANIFEST_SCHEMA_V1);
    assert_eq!(m.name, "swe-core");
    assert_eq!(m.namespace, "swe");
    assert_eq!(m.version, "0.6.0");
    assert_eq!(m.layout.capabilities, "capabilities");
    assert_eq!(m.layout.orchestrators, "orchestrators");
}

#[test]
fn load_manifest_rejects_wrong_schema_constant() {
    let msg = load("schema: flowgate.repo/v2\nname: swe-core\nnamespace: swe\nversion: 0.6.0\n")
        .expect_err("schema mismatch should error");
    assert!(msg.contains("flowgate.repo/v1"), "error should mention v1: {msg}");
    assert!(msg.contains("flowgate.repo/v2"), "error should mention actual: {msg}");
}

#[test]
fn load_manifest_rejects_unknown_top_level_field() {
    load("schema: flowgate.repo/v1\nname: swe-core\nnamespace: swe\nversion: 0.6.0\nbogus: hi\n")
        .expect_err("unknown field should error");
}

#[test]
fn load_manifest_accepts_partial_layout_with_defaults_for_rest() {
    let m = load(
        "schema: flowgate.repo/v1\nname: swe-core\nnamespace: swe\nversion: 0.6.0\nlayout:\n  capabilities: caps\n",
    )
    .expect("partial layout should load");
    assert_eq!(m.layout.capabilities, "caps");
    assert_eq!(m.layout.orchestrators, "orchestrators");
    assert_eq!(m.layout.skills, "skills");
}

#[test]
fn a_manifest_needs_its_fields() {
    load("name: a\nnamespace: b\nversion: c\n").expect_err("no schema");
    load("schema: flowgate.repo/v1\nnamespace: b\nversion: c\n").expect_err("no name");
    load("schema: flowgate.repo/v1\nname: a\nversion: c\n").expect_err("no namespace");
    load("schema: flowgate.repo/v1\nname: a\nnamespace: b\n").expect_err("no version");
    load("schema: flowgate.repo/v1\nname: a\nnamespace: b\nversion: c\nlayout:\n  extra: d\n")
        .expect_err("unknown directory");
    load("schema: flowgate.repo/v1\nname: a\nnamespace: b\nversion: c\nlayout: 4\n")
        .expect_err("no mapping");
}

#[test]
fn a_manifest_may_have_a_description() {
    let m = load(
        "schema: flowgate.repo/v1\nname: a\nnamespace: b\nversion: c\ndescription: words\n",
    )
    .unwrap();
    assert_eq!(m.description.as_deref(), Some("words"));
    assert_eq!(m.layout, RepoLayout::default());
    assert_eq!(m.layout.connections, "connections");
    assert_eq!(m.layout.scripts, "scripts");
}

#[test]
fn a_scalar_of_a_manifest_is_taken_as_it_is_written() {
    let m = load("schema: flowgate.repo/v1\nname: true\nnamespace: 7\nversion: 2\n").unwrap();
    assert_eq!(m.version, "2");
    assert_eq!(m.name, "true");
    assert_eq!(m.namespace, "7");
}

#[test]
fn a_field_of_a_manifest_is_written_once() {
    let text = |k: &str, v: &str| (k.to_string(), Field::Text(v.to_string()));
    let fields = vec![
        text("schema", "flowgate.repo/v1"),
        text("name", "a"),
        text("name", "b"),
        text("namespace", "c"),
        text("version", "d"),
    ];
    let msg = load_manifest(PATH, &fields).expect_err("a name twice");
    assert!(msg.contains("duplicate field `name`"), "{msg}");
    load("schema: flowgate.repo/v1\nname: a\nnamespace: b\nversion:\n  c: d\n")
        .expect_err("a version that is no text");
}
