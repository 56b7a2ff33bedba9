use mcp_flowgate_core::json::{Number, Value};
use mcp_flowgate_core::slot_table::{
    assert_reachable, assert_type_consistent, build_slot_table, SlotSource, SlotTable,
};

fn from_serde(v: &serde_json::Value) -> Value {
    match v {
        serde_json::Value::Null => Value::Null,
        serde_json::Value::Bool(b) => Value::Bool(*b),
        serde_json::Value::Number(n) => {
            if let Some(u) = n.as_u64() {
                Value::Number(Number::PosInt(u))
            } else if let Some(i) = n.as_i64() {
                Value::Number(Number::NegInt(i))
            } else {
                Value::Number(Number::Float(n.as_f64().unwrap().to_bits()))
            }
        }
        serde_json::Value::String(s) => Value::String(s.clone()),
        serde_json::Value::Array(a) => Value::Array(a.iter().map(from_serde).collect()),
        serde_json::Value::Object(m) => {
            let mut out = Value::object();
            for (k, x) in m {
                out.set(k, from_serde(x));
            }
            out
        }
    }
}

fn j(text: &str) -> Value {
    from_serde(&serde_json::from_str(text).unwrap())
}

fn cap_outputs() -> Value {
    j(r#"{ "cap.plan.vet": { "verdict": { "type": "string", "enum": ["pass", "fail"] } } }"#)
}

#[test]
fn build_seeds_from_inputs_block() {
    let orch = j(r#"{
        "inputs": {
            "feature_brief": { "type": "string" }
        },
        "states": {}
    }"#);
    let t = build_slot_table(&orch, &Value::object()).expect("no errors");
    let entry = t.get("$.context.feature_brief").expect("present");
    assert!(matches!(entry.source, SlotSource::Input));
}

#[test]
fn build_harvests_use_outputs_from_states() {
    let orch = j(r#"{
        "states": {
            "vetting": {
                "transitions": {
                    "vet": {
                        "executor": {
                            "kind": "workflow",
                            "definitionId": "cap.plan.vet",
                            "use": {
                                "outputs": { "$.context.verdict": "verdict" }
                            }
                        }
                    }
                }
            }
        }
    }"#);
    let caps = cap_outputs();
    let t = build_slot_table(&orch, &caps).expect("no errors");
    let entry = t.get("$.context.verdict").expect("present");
    assert!(matches!(&entry.source, SlotSource::State(s) if s == "vetting"));
    assert_eq!(entry.schema.pointer("/type").and_then(Value::as_str), Some("string"));
}

#[test]
fn build_flags_v14_when_two_states_write_incompatible_types() {
    let caps = j(r#"{
        "cap.a": { "v": { "type": "string" } },
        "cap.b": { "v": { "type": "integer" } }
    }"#);
    let orch = j(r#"{
        "states": {
            "s1": {
                "transitions": { "t1": { "executor": {
                    "kind": "workflow",
                    "definitionId": "cap.a",
                    "use": { "outputs": { "$.context.x": "v" } }
                } } }
            },
            "s2": {
                "transitions": { "t1": { "executor": {
                    "kind": "workflow",
                    "definitionId": "cap.b",
                    "use": { "outputs": { "$.context.x": "v" } }
                } } }
            }
        }
    }"#);
    let err = build_slot_table(&orch, &caps).expect_err("V14 should fire");
    assert!(err.iter().any(|d| d.message().contains("SLOT_TYPE_CONFLICT")), "{err:?}");
}

#[test]
fn assert_reachable_returns_none_for_declared_slot() {
    let orch = j(r#"{
        "inputs": { "x": { "type": "string" } },
        "states": {}
    }"#);
    let t = build_slot_table(&orch, &Value::object()).unwrap();
    assert!(assert_reachable(&t, "$.context.x", "flow", "s", "t").is_none());
}

#[test]
fn assert_reachable_returns_diagnostic_for_undeclared_slot() {
    let t = SlotTable::default();
    let d = assert_reachable(&t, "$.context.missing", "flow", "s", "t").expect("must emit");
    assert!(d.message().contains("UNREACHABLE_SLOT"));
    assert!(d.message().contains("$.context.missing"));
}

#[test]
fn type_consistency_is_about_the_declared_schema() {
    let orch = j(r#"{ "inputs": { "x": { "type": "string" } }, "states": {} }"#);
    let t = build_slot_table(&orch, &Value::object()).unwrap();
    assert_eq!(t.len(), 1);
    assert!(!t.is_empty());
    assert!(assert_type_consistent(&t, "$.context.x", &j(r#"{ "type": "string" }"#)).is_none());
    assert!(assert_type_consistent(&t, "$.context.x", &j(r#"{ "type": "integer" }"#)).is_some());
    assert!(assert_type_consistent(&t, "$.context.y", &j(r#"{ "type": "integer" }"#)).is_none());
}

#[test]
fn the_first_writer_of_a_slot_stays() {
    let caps = j(r#"{ "cap.a": { "v": { "type": "string" } } }"#);
    let orch = j(r#"{
        "inputs": { "x": { "type": "string" } },
        "states": {
            "s1": {
                "transitions": { "t1": { "executor": {
                    "kind": "workflow",
                    "definitionId": "cap.a",
                    "use": { "outputs": { "$.context.x": "v" } }
                } } }
            }
        }
    }"#);
    let t = build_slot_table(&orch, &caps).unwrap();
    assert_eq!(t.len(), 1);
    assert!(matches!(t.get("$.context.x").unwrap().source, SlotSource::Input));
}
