use mcp_flowgate_core::json::{Number, Value};
use mcp_flowgate_core::model::{Evidence, WorkflowInstance};
use mcp_flowgate_core::store::{
    check_save, file_name_for, loadable_event, loadable_failed_event, published_event,
    stale_row_text, ConfigDefinitionStore, InMemoryEvidenceStore,
    InMemoryGuidanceAcknowledgmentStore, InMemoryScriptAcknowledgmentStore, InMemoryWorkflowStore,
    InMemoryWritableDefinitionStore,
};

fn from_serde(v: &serde_json::Value) -> Value {
    match v {
        serde_json::Value::Null => Value::Null,
        serde_json::Value::Bool(b) => Value::Bool(*b),
        serde_json::Value::Number(n) => {
            if let Some(u) = n.as_u64() {
                Value::Number(Number::PosInt(u))
            } else if let Some(i) = n.as_i64() {
                Value::Number(Number::NegInt(i))
            } else {
                Value::Number(Number::Float(n.as_f64().unwrap().to_bits()))
            }
        }
        serde_json::Value::String(s) => Value::String(s.clone()),
        serde_json::Value::Array(a) => Value::Array(a.iter().map(from_serde).collect()),
        serde_json::Value::Object(m) => {
            let mut out = Value::object();
            for (k, x) in m {
                out.set(k, from_serde(x));
            }
            out
        }
    }
}

fn j(text: &str) -> Value {
    from_serde(&serde_json::from_str(text).unwrap())
}

fn make_instance(workflow_id: &str, run_id: Option<&str>) -> WorkflowInstance {
    WorkflowInstance {
        id: workflow_id.to_string(),
        definition_id: "demo".into(),
        definition_version: "1.0.0".into(),
        definition: j(r#"{"initialState": "pending", "states": {}}"#),
        state: "pending".into(),
        version: 0,
        input: Value::object(),
        context: Value::object(),
        started_at: "2026-01-01T00:00:00Z".into(),
        trace_id: None,
        run_id: run_id.map(str::to_string),
        cancelled_at: None,
        cancelled_reason: None,
    }
}

#[test]
fn find_by_run_id_returns_workflow_id_when_indexed() {
    let mut store = InMemoryWorkflowStore::default();
    let instance = make_instance("wf_test", Some("r-abc"));
    store.create(instance).unwrap();

    let found = store.find_by_run_id("r-abc");
    assert_eq!(found.as_deref(), Some("wf_test"));
}

#[test]
fn find_by_run_id_returns_none_when_missing() {
    let store = InMemoryWorkflowStore::default();
    let found = store.find_by_run_id("r-not-there");
    assert_eq!(found, None);
}

#[test]
fn find_by_run_id_returns_none_when_instance_has_no_run_id() {
    let mut store = InMemoryWorkflowStore::default();
    let instance = make_instance("wf_norunid", None);
    store.create(instance).unwrap();
    let found = store.find_by_run_id("anything");
    assert_eq!(found, None);
}

#[test]
fn what_is_saved_is_loaded() {
    let mut store = InMemoryWorkflowStore::new();
    store.create(make_instance("w", None)).unwrap();
    assert!(store.create(make_instance("w", None)).is_err());
    let mut next = store.load("w").unwrap();
    next.state = "done".into();
    next.version = 1;
    store.save_if_version(next.dup(), 0).unwrap();
    assert_eq!(store.load("w").unwrap(), next);
    assert!(store.load("x").is_err());
}

#[test]
fn the_second_writer_is_refused() {
    let mut store = InMemoryWorkflowStore::new();
    store.create(make_instance("w", None)).unwrap();
    let mut a = store.load("w").unwrap();
    let mut b = store.load("w").unwrap();
    a.version = 1;
    b.version = 1;
    b.state = "elsewhere".into();
    assert!(store.save_if_version(a, 0).is_ok());
    assert!(store.save_if_version(b, 0).is_err());
    assert_eq!(store.load("w").unwrap().state, "pending");
    assert!(store.save_if_version(make_instance("none", None), 0).is_err());
}

#[test]
fn saves_are_checked_against_the_stored_version() {
    assert!(check_save(Some(3), "w", 3).is_ok());
    assert!(check_save(Some(4), "w", 3).is_err());
    assert!(check_save(None, "w", 3).is_err());
    assert!(stale_row_text("w", 3).contains('w'));
}

#[test]
fn definitions_come_from_a_configuration() {
    let store = ConfigDefinitionStore::from_config(&j(
        r#"{ "workflows": { "a": { "initialState": "s" } } }"#,
    ));
    assert_eq!(store.ids(), vec!["a".to_string()]);
    assert_eq!(store.load("a").unwrap(), j(r#"{ "initialState": "s" }"#));
    assert!(store.load("b").is_err());
    assert_eq!(ConfigDefinitionStore::default().ids(), Vec::<String>::new());
}

#[test]
fn an_exposed_capability_gives_the_proxy_definition() {
    let store = ConfigDefinitionStore::from_config(&j(
        r#"{ "proxy": { "expose": [{ "name": "echo", "executor": { "kind": "noop" } }] }, "workflows": {} }"#,
    ));
    assert_eq!(store.ids(), vec!["proxy_default".to_string()]);
    let none = ConfigDefinitionStore::from_config(&j(r#"{ "proxy": { "expose": [] } }"#));
    assert_eq!(none.ids(), Vec::<String>::new());
}

#[test]
fn a_registered_definition_is_loaded() {
    let mut store = InMemoryWritableDefinitionStore::with_seed(j(r#"{ "a": 1 }"#));
    assert!(store.register("b", j(r#"{ "x": 2 }"#), Ok(())).is_ok());
    assert_eq!(store.load("b").unwrap(), j(r#"{ "x": 2 }"#));
    assert_eq!(store.known_ids(), vec!["a".to_string(), "b".to_string()]);
    assert!(store.register("c", Value::Null, Err("disk full".into())).is_err());
    assert!(store.load("c").is_err());
    assert_eq!(InMemoryWritableDefinitionStore::new().known_ids(), Vec::<String>::new());
}

#[test]
fn events_of_definitions_name_them() {
    for e in [published_event("d"), loadable_event("d"), loadable_failed_event("d", "why")] {
        assert_eq!(e.payload.str_at("definitionId"), Some("d"));
    }
}

#[test]
fn the_last_acknowledgment_counts() {
    let mut g = InMemoryGuidanceAcknowledgmentStore::new();
    g.record("w", "s", "h1");
    g.record("w", "s", "h2");
    g.record("w", "t", "h3");
    assert_eq!(g.last_acknowledged_hash("w", "s").as_deref(), Some("h2"));
    assert_eq!(g.last_acknowledged_hash("w", "u"), None);
    let mut once = InMemoryGuidanceAcknowledgmentStore::new();
    once.record("w", "s", "h2");
    once.record("w", "t", "h3");
    assert_eq!(g, once);
    let mut s = InMemoryScriptAcknowledgmentStore::new();
    s.record("w", "s", "h1");
    assert_eq!(s.last_acknowledged_hash("w", "s").as_deref(), Some("h1"));
    assert_eq!(s.last_acknowledged_hash("v", "s"), None);
}

#[test]
fn evidence_is_appended() {
    let mut store = InMemoryEvidenceStore::new();
    for id in ["1", "2"] {
        store.record(
            "w",
            Evidence {
                kind: "review".into(),
                id: id.into(),
                uri: None,
                summary: None,
                digest: None,
                confidence: None,
            },
        );
    }
    let ids: Vec<String> = store.list("w").iter().map(|e| e.id.clone()).collect();
    assert_eq!(ids, vec!["1".to_string(), "2".to_string()]);
    assert!(store.list("v").is_empty());
}

#[test]
fn file_names_are_safe() {
    assert_eq!(file_name_for("wf_abc-1"), "wf_abc-1.json");
    assert!(!file_name_for("a/b").contains('/'));
}
