use mcp_flowgate_core::json::{Number, Value};
use mcp_flowgate_core::validate::{
    host_path_tail_ok, validate_workflows, CapVerb, CapVerbCategory, ValidationInputs,
};

fn from_serde(v: &serde_json::Value) -> Value {
    match v {
        serde_json::Value::Null => Value::Null,
        serde_json::Value::Bool(b) => Value::Bool(*b),
        serde_json::Value::Number(n) => {
            if let Some(u) = n.as_u64() {
                Value::Number(Number::PosInt(u))
            } else if let Some(i) = n.as_i64() {
                Value::Number(Number::NegInt(i))
            } else {
                Value::Number(Number::Float(n.as_f64().unwrap().to_bits()))
            }
        }
        serde_json::Value::String(s) => Value::String(s.clone()),
        serde_json::Value::Array(a) => Value::Array(a.iter().map(from_serde).collect()),
        serde_json::Value::Object(m) => {
            let mut out = Value::object();
            for (k, x) in m {
                out.set(k, from_serde(x));
            }
            out
        }
    }
}

fn j(text: &str) -> Value {
    from_serde(&serde_json::from_str(text).unwrap())
}

#[test]
fn valid_workflow_produces_no_diagnostics() {
    let config = j(r#"{
        "workflows": {
            "demo": {
                "initialState": "start",
                "states": {
                    "start": {
                        "transitions": {
                            "go": { "target": "done" }
                        }
                    },
                    "done": { "terminal": true }
                }
            }
        }
    }"#);
    let d = validate_workflows(&config, &ValidationInputs::default());
    assert!(d.is_empty(), "expected no diagnostics, got: {d:?}");
}

#[test]
fn missing_initial_state_in_states() {
    let config = j(r#"{
        "workflows": {
            "demo": {
                "initialState": "nonexistent",
                "states": {
                    "start": { "terminal": true }
                }
            }
        }
    }"#);
    let d = validate_workflows(&config, &ValidationInputs::default());
    assert!(d
        .iter()
        .any(|d| d.is_error() && d.message().contains("nonexistent")));
}

#[test]
fn dangling_transition_target() {
    let config = j(r#"{
        "workflows": {
            "demo": {
                "initialState": "start",
                "states": {
                    "start": {
                        "transitions": {
                            "go": { "target": "nowhere" }
                        }
                    }
                }
            }
        }
    }"#);
    let d = validate_workflows(&config, &ValidationInputs::default());
    assert!(d
        .iter()
        .any(|d| d.is_error() && d.message().contains("nowhere")));
}

#[test]
fn dangling_branch_target() {
    let config = j(r#"{
        "workflows": {
            "demo": {
                "initialState": "start",
                "states": {
                    "start": {
                        "transitions": {
                            "go": {
                                "target": "done",
                                "branches": [
                                    { "when": { "kind": "expr", "expr": "1 == 1" }, "target": "ghost" }
                                ]
                            }
                        }
                    },
                    "done": { "terminal": true }
                }
            }
        }
    }"#);
    let d = validate_workflows(&config, &ValidationInputs::default());
    assert!(d
        .iter()
        .any(|d| d.is_error() && d.message().contains("ghost")));
}

#[test]
fn unreachable_state_warned() {
    let config = j(r#"{
        "workflows": {
            "demo": {
                "initialState": "start",
                "states": {
                    "start": {
                        "transitions": {
                            "go": { "target": "done" }
                        }
                    },
                    "done": { "terminal": true },
                    "orphan": {
                        "transitions": {
                            "x": { "target": "done" }
                        }
                    }
                }
            }
        }
    }"#);
    let d = validate_workflows(&config, &ValidationInputs::default());
    assert!(d
        .iter()
        .any(|d| !d.is_error() && d.message().contains("orphan")));
}

#[test]
fn dead_end_non_terminal_warned() {
    let config = j(r#"{
        "workflows": {
            "demo": {
                "initialState": "start",
                "states": {
                    "start": {
                        "transitions": {
                            "go": { "target": "stuck" }
                        }
                    },
                    "stuck": {}
                }
            }
        }
    }"#);
    let d = validate_workflows(&config, &ValidationInputs::default());
    assert!(d
        .iter()
        .any(|d| !d.is_error() && d.message().contains("stuck")));
}

#[test]
fn dead_end_suppressed_when_timeout_exists() {
    let config = j(r#"{
        "workflows": {
            "demo": {
                "initialState": "start",
                "timeoutMs": 5000,
                "onTimeout": { "target": "timed_out" },
                "states": {
                    "start": {
                        "transitions": {
                            "go": { "target": "waiting" }
                        }
                    },
                    "waiting": {},
                    "timed_out": { "terminal": true }
                }
            }
        }
    }"#);
    let d = validate_workflows(&config, &ValidationInputs::default());
    let dead_end_warnings: Vec<_> = d
        .iter()
        .filter(|d| !d.is_error() && d.message().contains("no outgoing transitions"))
        .collect();
    assert!(
        dead_end_warnings.is_empty(),
        "dead-end warning should be suppressed when onTimeout exists: {dead_end_warnings:?}"
    );
}

#[test]
fn dangling_timeout_target() {
    let config = j(r#"{
        "workflows": {
            "demo": {
                "initialState": "start",
                "timeoutMs": 5000,
                "onTimeout": { "target": "missing_timeout" },
                "states": {
                    "start": { "terminal": true }
                }
            }
        }
    }"#);
    let d = validate_workflows(&config, &ValidationInputs::default());
    assert!(d
        .iter()
        .any(|d| d.is_error() && d.message().contains("missing_timeout")));
}

#[test]
fn missing_transition_target_field() {
    let config = j(r#"{
        "workflows": {
            "demo": {
                "initialState": "start",
                "states": {
                    "start": {
                        "transitions": {
                            "go": { "executor": { "kind": "noop" } }
                        }
                    }
                }
            }
        }
    }"#);
    let d = validate_workflows(&config, &ValidationInputs::default());
    assert!(d
        .iter()
        .any(|d| d.is_error() && d.message().contains("missing 'target'")));
}

#[test]
fn no_workflows_produces_no_diagnostics() {
    let config = j(r#"{
        "version": "1.0.0",
        "proxy": { "expose": [] }
    }"#);
    let d = validate_workflows(&config, &ValidationInputs::default());
    assert!(d.is_empty());
}

fn inputs() -> ValidationInputs {
    let mut verbs = Vec::new();
    for (token, category) in [
        ("plan", CapVerbCategory::Cognitive),
        ("build", CapVerbCategory::Deterministic),
        ("gate", CapVerbCategory::Coordination),
    ] {
        verbs.push(CapVerb { token: token.to_string(), category });
    }
    ValidationInputs {
        verbs,
        contract_hashes: j(r#"{ "cap.plan.a": "h1" }"#),
        constraint_errors: Value::object(),
    }
}

fn messages(config: &str) -> Vec<String> {
    validate_workflows(&j(config), &inputs()).iter().map(|d| d.message().to_string()).collect()
}

fn found(config: &str, code: &str) -> bool {
    messages(config).iter().any(|m| m.contains(code))
}

#[test]
fn a_good_capability_has_nothing_to_report() {
    let m = messages(
        r#"{ "workflows": { "cap.plan.a": {
            "verb": "plan",
            "snippet": { "inputs": {}, "outputs": { "o": { "type": "string" } } },
            "initialState": "s",
            "states": {
                "s": { "transitions": { "go": { "target": "e", "executor": { "kind": "noop" } } } },
                "e": { "terminal": true }
            }
        } } }"#,
    );
    assert_eq!(m, Vec::<String>::new());
}

#[test]
fn capability_rules_are_reported() {
    let base = |verb: &str, snippet: &str, kind: &str| {
        format!(
            r#"{{ "workflows": {{ "cap.plan.a": {{ {verb} {snippet}
                "initialState": "s",
                "states": {{
                    "s": {{ "transitions": {{ "go": {{ "target": "e", "executor": {{ "kind": "{kind}", "definitionId": "other", "use": {{}} }} }} }} }},
                    "e": {{ "terminal": true }}
                }}
            }} }} }}"#
        )
    };
    let snippet = r#""snippet": { "inputs": {}, "outputs": {} },"#;
    let verb = r#""verb": "plan","#;
    assert!(found(&base("", snippet, "noop"), "MISSING_VERB"));
    assert!(found(&base(r#""verb": "dance","#, snippet, "noop"), "INVALID_VERB"));
    assert!(found(&base(r#""verb": "build","#, snippet, "script"), "ID_VERB_MISMATCH"));
    assert!(found(&base(verb, "", "noop"), "MISSING_SNIPPET"));
    assert!(found(&base(verb, r#""snippet": 3,"#, "noop"), "INVALID_SNIPPET"));
    assert!(found(&base(verb, r#""snippet": { "inputs": {} },"#, "noop"), "INVALID_SNIPPET"));
    assert!(found(
        &base(verb, r#""snippet": { "inputs": 1, "outputs": {} },"#, "noop"),
        "must be a mapping"
    ));
    assert!(found(
        &base(verb, r#""snippet": { "inputs": {}, "outputs": { "o": 1 } },"#, "noop"),
        "JSON-schema-shaped object"
    ));
    assert!(found(&base(verb, snippet, "script"), "INVALID_PRIMARY_EXECUTOR"));
    assert!(found(&base(verb, snippet, "workflow"), "CAPABILITY_NESTING"));
    assert!(found(
        r#"{ "workflows": { "cap.plan": { "verb": "plan", "snippet": { "inputs": {}, "outputs": {} },
            "initialState": "s", "states": { "s": { "terminal": true } } } } }"#,
        "INVALID_ID_SHAPE"
    ));
}

#[test]
fn the_kinds_of_a_primary_executor_are_listed() {
    let m = messages(
        r#"{ "workflows": { "cap.plan.a": {
            "verb": "plan",
            "snippet": { "inputs": {}, "outputs": {} },
            "initialState": "s",
            "states": {
                "s": { "transitions": { "go": { "target": "e", "executor": { "kind": "script" } } } },
                "e": { "terminal": true }
            }
        } } }"#,
    );
    assert_eq!(
        m,
        vec![
            "INVALID_PRIMARY_EXECUTOR: capability 'cap.plan.a' (verb 'plan', category Cognitive) has initial-state transitions whose primary executor kinds are [\"script\"]; expected kind: mcp OR kind: noop (skill-surfacing) (V6)".to_string()
        ]
    );
}

#[test]
fn orchestrator_rules_are_reported() {
    let flow = |extra: &str, target: &str, more: &str| {
        format!(
            r#"{{ "workflows": {{ "flow.main": {{ {extra}
                "inputs": {{ "a": {{ "type": "string" }} }},
                "initialState": "s",
                "states": {{
                    "s": {{ "transitions": {{ "go": {{ "target": "e", "executor": {{ "kind": "workflow", "definitionId": "{target}"{more} }} }} }} }},
                    "e": {{ "terminal": true }}
                }}
            }}, "cap.plan.a": {{
                "verb": "plan", "lifecycle": "stable",
                "snippet": {{ "inputs": {{}}, "outputs": {{ "o": {{ "type": "string" }} }} }},
                "initialState": "s", "states": {{ "s": {{ "terminal": true }} }}
            }} }} }}"#
        )
    };
    let pinned = r#", "expects_contract_hash": "h1", "use": { "inputs": {}, "outputs": {} }"#;
    assert_eq!(messages(&flow("", "cap.plan.a", pinned)), Vec::<String>::new());
    assert!(found(&flow(r#""snippet": {},"#, "cap.plan.a", pinned), "ORCHESTRATOR_HAS_SNIPPET"));
    assert!(found(&flow(r#""verb": "plan","#, "cap.plan.a", pinned), "ORCHESTRATOR_HAS_VERB"));
    assert!(found(&flow("", "flow.other", r#", "use": {}"#), "ORCHESTRATOR_NESTING"));
    assert!(found(&flow("", "cap.plan.a", ""), "MISSING_USE"));
    assert!(found(&flow("", "cap.plan.a", r#", "use": 1"#), "INVALID_USE:"));
    assert!(found(&flow("", "cap.plan.a", r#", "use": { "inputs": 1 }"#), "INVALID_USE:"));
    assert!(found(
        &flow("", "cap.plan.a", r#", "use": { "outputs": { "$.context.x": 1 } }"#),
        "INVALID_USE_OUTPUT_VALUE"
    ));
    assert!(found(
        &flow("", "cap.plan.a", r#", "use": { "outputs": { "$.context.X": "o" } }"#),
        "INVALID_USE_OUTPUT_PATH"
    ));
    assert!(found(&flow("", "cap.plan.a", r#", "use": {}"#), "MISSING_CONTRACT_HASH"));
    assert!(found(
        &flow("", "cap.plan.a", r#", "expects_contract_hash": "h2", "use": {}"#),
        "CONTRACT_HASH_MISMATCH"
    ));
    assert!(found(
        &flow(
            "",
            "cap.plan.a",
            r#", "expects_contract_hash": "h1", "use": { "inputs": { "i": "$.context.nope" } }"#
        ),
        "UNREACHABLE_SLOT"
    ));
    assert!(found(
        r#"{ "workflows": { "flow.": { "initialState": "s", "states": { "s": { "terminal": true } } } } }"#,
        "INVALID_ID_SHAPE"
    ));
}

#[test]
fn slots_are_written_before_they_are_read() {
    let demo = |first: &str, second: &str, extra: &str| {
        format!(
            r#"{{ "workflows": {{ "demo": {{ {extra}
                "initialState": "a",
                "states": {{
                    "a": {{ "transitions": {{ "go": {{ "target": "b" {first} }} }} }},
                    "b": {{ {second} "transitions": {{ "on": {{ "target": "c" }} }} }},
                    "c": {{ "terminal": true }}
                }}
            }} }} }}"#
        )
    };
    let reads = r#""goal": "see {{ $.context.x }}","#;
    assert!(found(&demo("", reads, ""), "no reachable writer"));
    assert!(!found(&demo(r#", "output": { "x": "$.output.x" }"#, reads, ""), "no reachable writer"));
    assert!(!found(&demo("", reads, r#""initialContext": { "x": 1 },"#), "no reachable writer"));
    assert!(found(&demo("", reads, r#""blackboard": ["y"],"#), "not a declared blackboard slot"));
    assert!(found(
        &demo(r#", "guards": [{ "kind": "expr", "expr": "$.context.summary == 1" }]"#, "", ""),
        "never a valid guard input"
    ));
    assert!(found(
        &demo(
            r#", "guards": [{ "kind": "not", "guard": { "kind": "expr", "expr": "$.context.q == 1" } }]"#,
            "",
            ""
        ),
        "guard reads `$.context.q` which has no reachable writer"
    ));
    assert!(found(
        &demo(r#", "output": { "x": "$.output.x" }"#, "", r#""blackboard": { "y": {} },"#),
        "writes output key 'x' which is not declared in the blackboard"
    ));
}

#[test]
fn a_slot_is_available_even_where_the_first_step_writes_nothing() {
    // nothing is written on the way to `b`, and `b` comes before `a` in order
    let m = messages(
        r#"{ "workflows": { "demo": {
            "initialState": "z",
            "states": {
                "z": { "transitions": { "go": { "target": "b" } } },
                "b": { "transitions": { "go": { "target": "a", "output": { "x": 1 } } } },
                "a": { "terminal": true, "goal": "{{ $.context.x }}" }
            }
        } } }"#,
    );
    assert_eq!(m, Vec::<String>::new());
}

#[test]
fn skills_are_declared() {
    let demo = |id: &str, skills: &str| {
        format!(
            r#"{{ "skills": {{ "plan.draft": {{}}, "ns/plan.other": {{}} }},
                "workflows": {{ "{id}": {{ "skills": {skills}, "initialState": "s",
                    "states": {{ "s": {{ "terminal": true }} }} }} }} }}"#
        )
    };
    assert!(!found(&demo("demo", r#"["plan.draft"]"#), "not declared"));
    assert!(found(&demo("demo", r#"["plan.other"]"#), "not declared in the top-level"));
    assert!(!found(&demo("ns/demo", r#"["plan.other"]"#), "not declared in the top-level"));
    assert!(found(
        &demo("demo", r#"["plan.draft", "plan.draft", "plan.draft", "plan.draft", "plan.draft"]"#),
        "surfaces 5 skills refs"
    ));
}

#[test]
fn states_and_entry_actions_are_checked() {
    assert!(found(r#"{ "workflows": { "demo": { "states": {} } } }"#, "missing 'initialState'"));
    assert!(found(r#"{ "workflows": { "demo": { "initialState": "s" } } }"#, "missing 'states' map"));
    assert!(found(
        r#"{ "workflows": { "demo": { "initialState": "s",
            "states": { "s": { "terminal": true, "onEnter": {} } } } } }"#,
        "has onEnter but no executor"
    ));
}

#[test]
fn paths_of_outputs_have_one_segment() {
    assert!(host_path_tail_ok("$.context.a-b_1"));
    assert!(!host_path_tail_ok("$.context."));
    assert!(!host_path_tail_ok("$.context.a.b"));
    assert!(!host_path_tail_ok("$.context.A"));
    assert!(!host_path_tail_ok("$.output.a"));
}
