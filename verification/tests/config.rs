use mcp_flowgate_core::config::{
    capabilities_nest_within, capability_subjects, compute_script_hash, compute_skill_hash,
    deep_merge, normalize_for_hash, normalize_for_script_hash, resolve, resolve_with_diagnostics,
    try_resolve, DiagnosticSeverity,
};
use mcp_flowgate_core::config_capabilities::{flatten_capabilities, rewrite_executors_in_value};
use mcp_flowgate_core::config_check::{
    closest_blessed_root, closest_blessed_script_root, is_kebab_token, is_subject_pattern,
    short_value_kind, strip_namespace_prefix, validate_authoring_preferences, validate_scripts,
    validate_skills, validate_state_delegate, validate_workflow_flag_scope,
};
use mcp_flowgate_core::config_fetch::{
    below_home, check_git_fetch, check_https_fetch, read_script_uri, Exit, ScriptSource,
};
use mcp_flowgate_core::config_hash::validate_hash_format;
use mcp_flowgate_core::config_merge::{
    enter_config, include_path, leave_config, merge_includes, relative_script_path,
    rewrite_script_uris_to_absolute,
};
use mcp_flowgate_core::config_repos::{
    check_namespaces, host_definition_ids, merge_declared_repos, take_repos_and_overrides,
    validate_workflow_refs_resolve, LoadedRepo,
};
use mcp_flowgate_core::config_stamp::{
    check_script_body, collect_referenced_script_subjects, collect_referenced_subjects,
    expand_use_bindings, host_path_tail, inject_human_ask_transitions, questions_are_ready,
    scripts_to_fetch, stamp_scripts_library,
};
use mcp_flowgate_core::json::{Number, Value};

fn from_serde(v: &serde_json::Value) -> Value {
    match v {
        serde_json::Value::Null => Value::Null,
        serde_json::Value::Bool(b) => Value::Bool(*b),
        serde_json::Value::Number(n) => {
            if let Some(u) = n.as_u64() {
                Value::Number(Number::PosInt(u))
            } else if let Some(i) = n.as_i64() {
                Value::Number(Number::NegInt(i))
            } else {
                Value::Number(Number::Float(n.as_f64().unwrap().to_bits()))
            }
        }
        serde_json::Value::String(s) => Value::String(s.clone()),
        serde_json::Value::Array(a) => Value::Array(a.iter().map(from_serde).collect()),
        serde_json::Value::Object(m) => {
            let mut out = Value::object();
            for (k, x) in m {
                out.set(k, from_serde(x));
            }
            out
        }
    }
}

fn j(text: &str) -> Value {
    from_serde(&serde_json::from_str(text).unwrap())
}

fn roots() -> Vec<String> {
    vec!["build".to_string(), "test".to_string()]
}

fn resolved(config: &str) -> Value {
    try_resolve(j(config), &roots(), &Value::object(), 100).unwrap().unwrap().0
}

fn refused(config: &str) -> String {
    try_resolve(j(config), &roots(), &Value::object(), 100).unwrap().unwrap_err()
}

#[test]
fn white_space_is_normalized() {
    assert_eq!(normalize_for_hash("  hello   world  "), "hello world");
    assert_eq!(normalize_for_hash("a\n\nb"), "a b");
    assert_eq!(normalize_for_hash("a\u{a0}\u{3000}b\u{85}"), "a b");
    assert_eq!(normalize_for_hash("a\u{200b}b"), "a\u{200b}b");
    assert_eq!(normalize_for_hash("trailing\n\n"), "trailing");
    let once = normalize_for_hash("  a b  c\n");
    assert_eq!(normalize_for_hash(&once), once);
}

#[test]
fn skill_hashes_ignore_white_space() {
    assert_eq!(compute_skill_hash("hello world"), compute_skill_hash("  hello   world  "));
    let h = compute_skill_hash("anything");
    assert!(h.starts_with("sha256:"));
    assert_eq!(h.len(), "sha256:".len() + 64);
}

#[test]
fn hashes_are_those_of_the_normalized_text() {
    // the digest of the empty text
    assert_eq!(
        compute_skill_hash(" \n "),
        "sha256:e3b0c44298fc1c149afbf4c8996fb92427ae41e4649b934ca495991b7852b855"
    );
    // the digest of "abc"
    assert_eq!(
        compute_skill_hash("abc\n"),
        "sha256:ba7816bf8f01cfea414140de5dae2223b00361a396177a9cb410ff61f20015ad"
    );
}

#[test]
fn script_hashes_ignore_trailing_newlines_alone() {
    assert_eq!(normalize_for_script_hash("a  b\n\n"), normalize_for_script_hash("a  b"));
    assert_eq!(
        normalize_for_script_hash(&normalize_for_script_hash("x\n\n")),
        normalize_for_script_hash("x\n\n")
    );
    assert_eq!(compute_script_hash("echo a\n"), compute_script_hash("echo a\n\n\n"));
    assert_ne!(compute_script_hash("echo  a"), compute_script_hash("echo a"));
}

#[test]
fn hash_formats_are_checked() {
    assert!(validate_hash_format(&compute_script_hash("x"), "s").is_ok());
    assert!(validate_hash_format("md5:1234", "s").is_err());
    assert!(validate_hash_format("sha256:12", "s").is_err());
    assert!(validate_hash_format(&compute_script_hash("x").to_uppercase(), "s").is_err());
}

#[test]
fn capabilities_are_put_in() {
    let c = resolved(
        r#"{
            "capabilities": {
                "base": { "executor": { "kind": "noop" }, "guards": [1], "title": "Base" },
                "child": { "wraps": "base", "guards": [2], "tags": ["t"] }
            },
            "proxy": { "expose": [ { "capability": "child", "as": "c" } ] },
            "workflows": { "w": { "initialState": "s", "states": { "s": { "transitions": {
                "go": { "target": "s", "executor": { "capability": "child" }, "guards": [3] }
            } } } } }
        }"#,
    );
    assert_eq!(
        c,
        j(r#"{
            "proxy": { "expose": [ {
                "name": "c", "title": "Base", "tags": ["t"], "guards": [1, 2],
                "executor": { "kind": "noop" }
            } ] },
            "workflows": { "w": { "version": "0", "initialState": "s", "states": { "s": {
                "transitions": {
                    "go": { "target": "s", "executor": { "kind": "noop" }, "guards": [1, 2, 3] }
                }
            } } } }
        }"#)
    );
}

#[test]
fn faults_of_capabilities_are_reported() {
    assert!(refused(r#"{ "capabilities": { "a": {} } }"#).contains("needs `executor` or `wraps`"));
    assert!(refused(r#"{ "capabilities": { "a": { "wraps": "b" } } }"#)
        .contains("capability 'b' is referenced but not defined"));
    assert!(refused(r#"{ "capabilities": { "a": { "wraps": "b" }, "b": { "wraps": "a" } } }"#)
        .contains("cycle detected"));
    assert!(refused(r#"{ "proxy": { "expose": [ { "capability": "x" } ] } }"#)
        .contains("exposure references unknown capability 'x'"));
    assert!(refused(r#"{ "workflows": { "w": { "executor": { "capability": "x" } } } }"#)
        .contains("executor references unknown capability 'x'"));
}

#[test]
fn nesting_that_does_not_end_is_told() {
    let loops = r#"{
        "capabilities": { "a": { "executor": { "kind": "k", "inner": { "executor": { "capability": "a" } } } } },
        "workflows": { "w": { "executor": { "capability": "a" } } }
    }"#;
    assert!(!capabilities_nest_within(&j(loops), 50));
    assert!(try_resolve(j(loops), &roots(), &Value::object(), 50).is_none());
    let plain = j(r#"{ "a": { "b": 1 } }"#);
    assert!(!capabilities_nest_within(&plain, 2));
    assert!(capabilities_nest_within(&plain, 3));
    assert!(capabilities_nest_within(&plain, 4));
    let reg = flatten_capabilities(&j("{}")).unwrap();
    assert!(reg.is_empty());
    assert!(rewrite_executors_in_value(&plain, &reg, 2).is_none());
    assert_eq!(rewrite_executors_in_value(&plain, &reg, 3).unwrap().unwrap(), plain);
}

#[test]
fn subjects_among_capabilities_have_a_dot() {
    let c = j(r#"{ "capabilities": { "a.b": {}, "c": {} } }"#);
    assert_eq!(capability_subjects(&c), vec!["a.b".to_string()]);
}

const FULL: &str = r#"{
    "flowgate": { "authoring": { "preferred_script_language": "bash" } },
    "skills": {
        "plan.draft": { "verb": "plan", "lifecycle": "stable", "body": "Draft  it." },
        "plan.unused": { "verb": "plan", "lifecycle": "stable", "body": "No." }
    },
    "scripts": {
        "build.all": { "verb": "build", "lifecycle": "stable", "body": "make\n" }
    },
    "lexicon": { "order": { "definition_short": "A thing that was ordered." } },
    "workflows": {
        "w": {
            "enable_human_ask": true,
            "skills": ["plan.draft"],
            "initialState": "a",
            "states": {
                "a": {
                    "onEnter": { "executor": { "kind": "script", "subject": "build.all" } },
                    "transitions": { "go": { "target": "z", "executor": {
                        "kind": "workflow", "definitionId": "s",
                        "use": { "outputs": { "$.context.x": "o", "$.context.y": "p" } }
                    }, "output": { "x": "own" } } }
                },
                "z": { "terminal": true }
            }
        },
        "s": {
            "version": "2",
            "snippet": { "outputs": { "o": { "type": "string" } } },
            "initialState": "a",
            "states": { "a": { "terminal": true } }
        }
    }
}"#;

#[test]
fn workflows_get_what_they_need() {
    let c = resolved(FULL);
    let w = c.get("workflows").unwrap().get("w").unwrap();
    assert_eq!(w.str_at("version"), Some("0"));
    assert_eq!(
        w.get("_skillsLibrary").unwrap(),
        &j(&format!(
            r#"{{ "plan.draft": {{ "verb": "plan", "lifecycle": "stable", "body": "Draft  it.",
                "hash": "{}", "source": "config" }} }}"#,
            compute_skill_hash("Draft it.")
        ))
    );
    assert_eq!(
        w.get("_scriptsLibrary").unwrap().get("build.all").unwrap().str_at("hash"),
        Some(compute_script_hash("make").as_str())
    );
    assert_eq!(
        w.get("_authoringPrefs").unwrap(),
        &j(r#"{ "preferred_script_language": "bash" }"#)
    );
    assert_eq!(
        w.get("_lexiconLibrary").unwrap(),
        &j(r#"{ "order": { "definition_short": "A thing that was ordered." } }"#)
    );
    let a = w.pointer("/states/a/transitions").unwrap();
    let ask = a.get("ask_human").unwrap();
    assert_eq!(ask.str_at("target"), Some("a"));
    assert_eq!(ask.str_at("actor"), Some("human"));
    assert_eq!(ask.str_at("purpose"), Some("ask"));
    assert_eq!(ask.bool_at("lightweight"), Some(true));
    assert_eq!(ask.u64_at("max_fires_per_visit"), Some(5));
    assert!(w.pointer("/states/z/transitions").is_none());
    let go = a.get("go").unwrap();
    assert_eq!(
        go.get("executor").unwrap().get("_snippetOutputs").unwrap(),
        &j(r#"{ "o": { "type": "string" } }"#)
    );
    assert_eq!(go.get("output").unwrap(), &j(r#"{ "x": "own", "y": "$.output.p" }"#));
    let s = c.get("workflows").unwrap().get("s").unwrap();
    assert_eq!(s.str_at("version"), Some("2"));
    assert!(!s.has("_skillsLibrary"));
    assert!(!s.has("_scriptsLibrary"));
}

#[test]
fn resolving_twice_is_safe() {
    let once = resolved(FULL);
    let twice = resolve(once.dup(), &roots(), &Value::object()).unwrap();
    assert_eq!(once, twice);
}

fn settles(config: &str) -> Value {
    let once = resolved(config);
    let twice = try_resolve(once.dup(), &roots(), &Value::object(), 100).unwrap().unwrap().0;
    assert_eq!(once, twice);
    once
}

#[test]
fn a_capability_may_refer_to_another() {
    let c = settles(
        r#"{
        "capabilities": {
            "a": { "executor": { "capability": "b" }, "guards": ["g"] },
            "b": { "executor": { "kind": "k" }, "guards": ["h"], "reliability": { "timeoutMs": 1 } }
        },
        "workflows": { "w": { "executor": { "capability": "a" }, "guards": ["own"] } }
    }"#,
    );
    let w = c.pointer("/workflows/w").unwrap();
    assert_eq!(w.get("executor").unwrap(), &j(r#"{ "kind": "k" }"#));
    assert_eq!(w.get("guards").unwrap(), &j(r#"["h", "g", "own"]"#));
    assert_eq!(w.get("reliability").unwrap(), &j(r#"{ "timeoutMs": 1 }"#));
}

#[test]
fn references_that_go_round_are_refused() {
    let m = refused(
        r#"{
        "capabilities": { "a": { "executor": { "capability": "b" } }, "b": { "executor": { "capability": "a" } } },
        "workflows": { "w": { "executor": { "capability": "a" } } }
    }"#,
    );
    assert_eq!(m, "capability reference cycle detected at 'a'");
    let m = refused(
        r#"{
        "capabilities": { "a": { "executor": { "capability": "a" } } },
        "proxy": { "expose": [ { "capability": "a" } ] }
    }"#,
    );
    assert_eq!(m, "capability reference cycle detected at 'a'");
    let m = refused(
        r#"{
        "capabilities": { "a": { "executor": { "capability": "b" } } },
        "workflows": { "w": { "executor": { "capability": "a" } } }
    }"#,
    );
    assert_eq!(m, "executor references unknown capability 'b'");
}

#[test]
fn references_that_go_round_unused_are_no_fault() {
    let c = settles(
        r#"{
        "capabilities": {
            "a": { "executor": { "capability": "a" } },
            "b": { "executor": { "capability": "c" } },
            "c": { "executor": { "capability": "b" } },
            "d": { "executor": { "kind": "noop" } }
        },
        "workflows": { "w": { "version": "1", "executor": { "capability": "d" } } }
    }"#,
    );
    assert_eq!(
        c,
        j(r#"{ "workflows": { "w": { "version": "1", "executor": { "kind": "noop" } } } }"#)
    );
    let m = refused(r#"{ "capabilities": { "a": { "executor": { "capability": "z" } } } }"#);
    assert_eq!(m, "executor references unknown capability 'z'");
}

#[test]
fn stamped_parts_are_no_flags() {
    let c = settles(
        r#"{
        "flowgate": { "strict_namespacing": false, "authoring": { "preferred_repo": "x" } },
        "skills": { "flowgate.plan": { "verb": "plan", "lifecycle": "stable", "body": "b" } },
        "lexicon": { "flowgate": { "definition_short": "d", "governance": "human-only" } },
        "workflows": {
            "u": { "snippet": { "outputs": { "o": {} } } },
            "w": { "skills": ["flowgate.plan"], "states": { "a": { "transitions": { "go": {
                "executor": { "kind": "workflow", "definitionId": "u", "use": { "outputs": { "$.context.flowgate": "o" } } }
            } } } } }
        }
    }"#,
    );
    let w = c.pointer("/workflows/w").unwrap();
    assert!(w.get("_skillsLibrary").unwrap().has("flowgate.plan"));
    assert!(w.get("_lexiconLibrary").unwrap().has("flowgate"));
    assert_eq!(
        w.pointer("/states/a/transitions/go/output").unwrap(),
        &j(r#"{ "flowgate": "$.output.o" }"#)
    );
    let other = j(r#"{ "workflows": { "w": { "output": { "flowgate": "$.output.o" } } } }"#);
    assert!(validate_workflow_flag_scope(&other).is_err());
}

#[test]
fn flags_under_the_keys_of_resolution_are_flags() {
    for key in ["_skillsLibrary", "_scriptsLibrary", "_authoringPrefs", "_lexiconLibrary"] {
        let c = format!(r#"{{ "workflows": {{ "w": {{ "{key}": {{ "flowgate": {{}} }} }} }} }}"#);
        let m = refused(&c);
        assert!(m.starts_with("CONFIG_FLAG_NOT_RUNTIME_MUTABLE: key 'flowgate' at '"));
        assert!(m.contains(&format!("/workflows/w/{key}/flowgate")));
    }
    // what resolution writes elsewhere, or writes differently
    let stale = r#"{
        "lexicon": { "flowgate": { "definition_short": "d", "governance": "human-only" } },
        "workflows": { "w": { "_lexiconLibrary": { "flowgate": { "definition_short": "e" } } } }
    }"#;
    assert!(refused(stale).contains("/workflows/w/_lexiconLibrary/flowgate"));
    let deep = r#"{ "workflows": { "w": { "x": {
        "executor": { "kind": "workflow", "definitionId": "u", "use": { "outputs": { "$.context.flowgate": "o" } } },
        "output": { "flowgate": "$.output.o" }
    } } } }"#;
    assert!(refused(deep).contains("/workflows/w/x/output/flowgate"));
}

#[test]
fn a_fetched_script_of_any_name_settles() {
    let hash = compute_script_hash("echo hi");
    let c = format!(
        r#"{{ "flowgate": {{ "strict_namespacing": false }},
            "scripts": {{ "flowgate.build": {{ "verb": "build", "lifecycle": "stable",
            "uri": "https://host/x.sh", "hash": "{hash}" }} }},
            "workflows": {{ "w": {{ "onEnter": {{ "kind": "script", "subject": "flowgate.build" }} }} }} }}"#
    );
    let bodies = j(r#"{ "flowgate.build": "echo hi\n" }"#);
    let once = resolve(j(&c), &roots(), &bodies).unwrap();
    assert!(once.pointer("/workflows/w/_scriptsLibrary").unwrap().has("flowgate.build"));
    assert_eq!(resolve(once.dup(), &roots(), &bodies).unwrap(), once);
    let mut other = once.dup();
    let body = r#"{ "flowgate.build": { "verb": "build", "lifecycle": "stable", "body": "rm", "hash": "HASH", "source": "config" } }"#;
    let mut workflows = other.get("workflows").unwrap().dup();
    let mut w = workflows.get("w").unwrap().dup();
    w.set("_scriptsLibrary", j(&body.replace("HASH", &hash)));
    workflows.set("w", w);
    other.set("workflows", workflows);
    assert!(resolve(other, &roots(), &bodies).is_err());
    let missing = resolve(j(&c), &roots(), &Value::object()).unwrap_err();
    assert_eq!(
        missing,
        "scripts entry 'flowgate.build' uri 'https://host/x.sh' has no resolved body"
    );
}

#[test]
fn an_authors_question_stays() {
    let c = j(r#"{ "workflows": { "w": { "enable_human_ask": true, "human_ask_cap": 2, "states": {
        "a": { "transitions": { "ask_human": { "target": "b" } } },
        "b": {}
    } } } }"#);
    assert!(questions_are_ready(&c));
    let d = inject_human_ask_transitions(c);
    assert_eq!(
        d.pointer("/workflows/w/states/a/transitions").unwrap(),
        &j(r#"{ "ask_human": { "target": "b" } }"#)
    );
    let q = d.pointer("/workflows/w/states/b/transitions/ask_human").unwrap();
    assert_eq!(q.u64_at("max_fires_per_visit"), Some(2));
    assert_eq!(inject_human_ask_transitions(d.dup()), d);
    let bad = j(r#"{ "workflows": { "w": { "enable_human_ask": true, "states": {
        "a": { "transitions": 3 } } } } }"#);
    assert!(!questions_are_ready(&bad));
}

#[test]
fn outputs_are_expanded_once() {
    let c = j(FULL);
    let once = expand_use_bindings(c);
    assert_eq!(expand_use_bindings(once.dup()), once);
    assert_eq!(host_path_tail("$.context.a_b").as_deref(), Some("a_b"));
    assert_eq!(host_path_tail("$.context.a.b"), None);
    assert_eq!(host_path_tail("$.output.a"), None);
}

#[test]
fn references_are_collected() {
    let w = j(FULL).pointer("/workflows/w").unwrap().dup();
    assert_eq!(collect_referenced_subjects(&w), vec!["plan.draft".to_string()]);
    assert_eq!(collect_referenced_script_subjects(&w), vec!["build.all".to_string()]);
}

#[test]
fn fetched_scripts_must_match_their_hash() {
    let hash = compute_script_hash("echo hi");
    let c = format!(
        r#"{{ "scripts": {{ "build.x": {{ "verb": "build", "lifecycle": "stable",
            "uri": "https://host/x.sh", "hash": "{hash}" }} }},
            "workflows": {{ "w": {{ "onEnter": {{ "kind": "script", "subject": "build.x" }} }} }} }}"#
    );
    assert_eq!(
        scripts_to_fetch(&j(&c)),
        vec![("build.x".to_string(), "https://host/x.sh".to_string())]
    );
    let good = stamp_scripts_library(j(&c), &j(r#"{ "build.x": "echo hi\n" }"#)).unwrap();
    assert_eq!(
        good.pointer("/workflows/w/_scriptsLibrary/build.x/body").and_then(Value::as_str),
        Some("echo hi\n")
    );
    let bad = stamp_scripts_library(j(&c), &j(r#"{ "build.x": "echo ho" }"#)).unwrap_err();
    assert!(bad.starts_with("SCRIPT_HASH_MISMATCH"));
    assert!(check_script_body("s", "u", &hash, "echo hi").is_ok());
    assert!(check_script_body("s", "u", &hash, "echo  hi").is_err());
}

#[test]
fn findings_are_kept() {
    let c = r#"{
        "flowgate": { "strict_namespacing": false },
        "skills": { "plam.x": { "verb": "plan", "lifecycle": "stable", "body": "b" } }
    }"#;
    let (_, found) = resolve_with_diagnostics(j(c), &roots(), &Value::object()).unwrap();
    assert_eq!(found.len(), 1);
    assert_eq!(found[0].severity, DiagnosticSeverity::Warn);
    assert_eq!(found[0].code, "INVALID_SUBJECT_ROOT");
    assert_eq!(found[0].location.as_deref(), Some("/skills/plam.x"));
    assert_eq!(found[0].suggestion.as_deref(), Some("did you mean 'plan'?"));
    let strict = c.replace("false", "true");
    assert!(refused(&strict).starts_with("INVALID_SUBJECT_ROOT"));
}

fn skill(entry: &str) -> String {
    match validate_skills(&j(&format!(r#"{{ "skills": {{ "plan.x": {entry} }} }}"#))) {
        Ok(_) => String::new(),
        Err(m) => m,
    }
}

#[test]
fn faults_of_skills_are_reported() {
    assert_eq!(skill(r#"{ "verb": "plan", "lifecycle": "stable", "body": "b" }"#), "");
    assert!(skill(r#"{}"#).starts_with("MISSING_VERB"));
    assert!(skill(r#"{ "verb": "dance" }"#).starts_with("INVALID_VERB"));
    assert!(skill(r#"{ "verb": "plan" }"#).starts_with("MISSING_LIFECYCLE"));
    assert!(skill(r#"{ "verb": "plan", "lifecycle": "old" }"#).starts_with("INVALID_LIFECYCLE"));
    assert!(skill(r#"{ "verb": "plan", "lifecycle": "stable" }"#).starts_with("MISSING_BODY"));
    assert!(skill(r#"{ "verb": "plan", "lifecycle": "stable", "body": "b", "hash": "h" }"#)
        .starts_with("HASH_MISMATCH"));
    let bad = validate_skills(&j(r#"{ "skills": { " ": {} } }"#)).unwrap_err();
    assert!(bad.starts_with("EMPTY_SUBJECT"));
    let bad = validate_skills(&j(r#"{ "skills": { "Plan.x": {} } }"#)).unwrap_err();
    assert!(bad.contains("must match"));
}

fn script(entry: &str) -> String {
    match validate_scripts(&j(&format!(r#"{{ "scripts": {{ "build.x": {entry} }} }}"#)), &roots()) {
        Ok(_) => String::new(),
        Err(m) => m,
    }
}

#[test]
fn faults_of_scripts_are_reported() {
    let h = compute_script_hash("b");
    assert_eq!(script(r#"{ "verb": "build", "lifecycle": "stable", "body": "b" }"#), "");
    let remote = |uri: &str, hash: &str| {
        script(&format!(
            r#"{{ "verb": "build", "lifecycle": "stable", "uri": "{uri}"{hash} }}"#
        ))
    };
    let pinned = format!(r#", "hash": "{h}""#);
    assert_eq!(remote("https://h/x", &pinned), "");
    assert_eq!(remote("git+https://h/r.git@abc#x.sh", &pinned), "");
    assert!(script("{}").starts_with("MISSING_SCRIPT_VERB"));
    assert!(script(r#"{ "verb": "plan" }"#).starts_with("INVALID_SCRIPT_VERB"));
    assert!(script(r#"{ "verb": "build" }"#).starts_with("MISSING_SCRIPT_LIFECYCLE"));
    assert!(script(r#"{ "verb": "build", "lifecycle": "x" }"#)
        .starts_with("INVALID_SCRIPT_LIFECYCLE"));
    assert!(script(r#"{ "verb": "build", "lifecycle": "stable" }"#)
        .starts_with("SCRIPT_BODY_SOURCE_AMBIGUOUS"));
    assert!(script(r#"{ "verb": "build", "lifecycle": "stable", "body": "b", "uri": "u" }"#)
        .starts_with("SCRIPT_BODY_SOURCE_AMBIGUOUS"));
    assert!(remote("https://h/x", "").starts_with("MISSING_SCRIPT_HASH"));
    assert!(remote("ftp://h/x", &pinned).starts_with("UNSUPPORTED_SCRIPT_URI_SCHEME"));
    assert!(remote("git+https://h/r.git", &pinned).starts_with("INVALID_GIT_HTTPS_URI"));
    assert!(remote("git+https://h/r.git#x.sh", &pinned).starts_with("INVALID_GIT_HTTPS_URI"));
    assert!(script(&format!(
        r#"{{ "verb": "build", "lifecycle": "stable", "body": "c", "hash": "{h}" }}"#
    ))
    .starts_with("SCRIPT_HASH_MISMATCH"));
    let bad = validate_scripts(&j(r#"{ "scripts": { "other.x": {} } }"#), &roots()).unwrap_err();
    assert!(bad.contains(r#"blessed roots are ["build", "test"]"#), "{bad}");
}

#[test]
fn gateway_flags_stay_out_of_workflows() {
    let bad = j(r#"{ "workflows": { "w": { "a": [ { "flowgate.x": 1 } ] } } }"#);
    let m = validate_workflow_flag_scope(&bad).unwrap_err();
    assert!(m.starts_with("CONFIG_FLAG_NOT_RUNTIME_MUTABLE"));
    assert!(m.contains("key 'flowgate.x' at '/workflows/w/a/0/flowgate.x'"), "{m}");
    let m = validate_workflow_flag_scope(&j(r#"{ "workflows": { "demo": { "flowgate": {} } } }"#))
        .unwrap_err();
    assert!(m.contains("'/workflows/demo/flowgate'"), "{m}");
    assert!(validate_workflow_flag_scope(&j(r#"{ "flowgate": {} }"#)).is_ok());
}

#[test]
fn delegates_are_names() {
    let state = |d: &str| {
        validate_state_delegate(&j(&format!(
            r#"{{ "workflows": {{ "w": {{ "states": {{ "s": {{ "delegate": {d} }} }} }} }} }}"#
        )))
    };
    assert!(state(r#""agent""#).is_ok());
    assert!(state(r#""""#).unwrap_err().contains("empty `delegate`"));
    assert!(state("3").unwrap_err().contains("non-string `delegate` (number)"));
}

#[test]
fn preferences_are_texts() {
    let prefs = |p: &str| {
        validate_authoring_preferences(&j(&format!(r#"{{ "flowgate": {{ "authoring": {p} }} }}"#)))
    };
    assert!(prefs("{}").is_ok());
    assert!(prefs(r#"{ "preferred_script_language": "bash" }"#).is_ok());
    assert!(prefs(r#"{ "preferred_script_language": "" }"#).is_err());
    assert!(prefs(r#"{ "preferred_script_language": 1 }"#).is_err());
    assert!(prefs("[]").unwrap_err().contains("must be an object (array)"));
    assert_eq!(short_value_kind(&Value::Null), "null");
}

#[test]
fn subjects_have_a_form() {
    assert!(is_kebab_token("a-1"));
    assert!(!is_kebab_token("1a"));
    assert!(is_subject_pattern("plan.draft-x"));
    assert!(is_subject_pattern("swe/plan.draft"));
    assert!(!is_subject_pattern("plan"));
    assert_eq!(strip_namespace_prefix("swe/plan.draft"), "plan.draft");
    assert_eq!(closest_blessed_root("zzz"), None);
    assert_eq!(closest_blessed_script_root("tesd", &roots()).as_deref(), Some("test"));
    assert_eq!(closest_blessed_root("revizw").as_deref(), Some("review"));
}

#[test]
fn merging_goes_key_by_key() {
    let a = j(r#"{ "x": 1, "y": { "p": 1, "q": [1] }, "z": 1 }"#);
    let b = j(r#"{ "y": { "p": 2, "q": [2], "r": 3 }, "z": { "t": 1 } }"#);
    assert_eq!(
        deep_merge(a.dup(), b),
        j(r#"{ "x": 1, "y": { "p": 2, "q": [1, 2], "r": 3 }, "z": { "t": 1 } }"#)
    );
    assert_eq!(deep_merge(a.dup(), Value::object()), a);
    assert_eq!(deep_merge(Value::object(), a.dup()), a);
    assert_eq!(
        merge_includes(&vec![j(r#"{ "a": 1, "b": 1 }"#), j(r#"{ "b": 2 }"#)], j(r#"{ "c": 3 }"#)),
        j(r#"{ "a": 1, "b": 2, "c": 3 }"#)
    );
}

#[test]
fn only_cycles_of_files_are_refused() {
    let mut reading = Vec::new();
    assert!(enter_config(&mut reading, "/main").is_ok());
    assert!(enter_config(&mut reading, "/a").is_ok());
    assert!(enter_config(&mut reading, "/c").is_ok());
    let m = enter_config(&mut reading, "/a").unwrap_err();
    assert_eq!(m, "config include cycle detected at /a");
    leave_config(&mut reading);
    leave_config(&mut reading);
    assert_eq!(reading, vec!["/main".to_string()]);
    assert!(enter_config(&mut reading, "/b").is_ok());
    assert!(enter_config(&mut reading, "/c").is_ok());
    assert_eq!(include_path(&Value::text("x.yaml")).unwrap(), "x.yaml");
    assert!(include_path(&Value::uint(1)).is_err());
}

#[test]
fn relative_scripts_are_made_absolute() {
    let c = j(r#"{ "scripts": {
        "a.b": { "uri": "file://./x.sh" }, "c.d": { "uri": "file:///etc/y.sh" }, "e.f": { "uri": "https://h" }
    } }"#);
    let s = c.get("scripts").unwrap();
    assert_eq!(relative_script_path(s.get("a.b").unwrap()).as_deref(), Some("./x.sh"));
    assert_eq!(relative_script_path(s.get("c.d").unwrap()), None);
    assert_eq!(relative_script_path(s.get("e.f").unwrap()), None);
    let d = rewrite_script_uris_to_absolute(c.dup(), &j(r#"{ "a.b": "/base/x.sh", "c.d": "/no" }"#));
    assert_eq!(
        d,
        j(r#"{ "scripts": {
            "a.b": { "uri": "file:///base/x.sh" }, "c.d": { "uri": "file:///etc/y.sh" }, "e.f": { "uri": "https://h" }
        } }"#)
    );
}

fn loaded(name: &str, namespace: &str, value: &str) -> LoadedRepo {
    LoadedRepo { name: name.into(), namespace: namespace.into(), value: j(value) }
}

#[test]
fn repositories_are_declared_and_merged() {
    let d = take_repos_and_overrides(j(
        r#"{ "repos": [ { "path": "./r" } ], "overrides": ["swe/w"], "x": 1 }"#,
    ));
    match d {
        Ok(d) => {
            assert_eq!(d.host, j(r#"{ "x": 1 }"#));
            assert_eq!(d.repos, vec!["./r".to_string()]);
            assert_eq!(d.overrides, vec!["swe/w".to_string()]);
        }
        Err(m) => panic!("{m}"),
    }
    let repo = r#"{ "workflows": { "swe/w": { "a": 1 } } }"#;
    let merged =
        merge_declared_repos(j(r#"{ "x": 1 }"#), &vec![], &vec![loaded("r", "swe", repo)]).unwrap();
    assert_eq!(merged, j(r#"{ "x": 1, "workflows": { "swe/w": { "a": 1 } } }"#));
    let host = r#"{ "workflows": { "swe/w": { "b": 2 } } }"#;
    assert!(merge_declared_repos(j(host), &vec![], &vec![loaded("r", "swe", repo)]).is_err());
    let kept = merge_declared_repos(
        j(host),
        &vec!["swe/w".to_string()],
        &vec![loaded("r", "swe", repo)],
    )
    .unwrap();
    assert_eq!(kept.pointer("/workflows/swe~1w/b"), Some(&Value::uint(2)));
    assert_eq!(host_definition_ids(&j(host)), vec!["swe/w".to_string()]);
}

#[test]
fn namespaces_are_unique() {
    let a = loaded("a", "x", "{}");
    let b = loaded("b", "x", "{}");
    let c = loaded("c", "y", "{}");
    assert!(check_namespaces(&vec![a, c]).is_ok());
    assert!(check_namespaces(&vec![loaded("a", "x", "{}"), b]).is_err());
}

#[test]
fn references_to_workflows_resolve() {
    let w = |target: &str| {
        validate_workflow_refs_resolve(&j(&format!(
            r#"{{ "workflows": {{ "ns/a": {{ "states": {{ "s": {{ "transitions": {{ "t": {{
                "executor": {{ "kind": "workflow", "definitionId": "{target}" }} }} }} }} }} }},
                "ns/b": {{}} }} }}"#
        )))
    };
    assert!(w("ns/b").is_ok());
    assert!(w("ns/none").is_err());
}

#[test]
fn script_uris_name_their_source() {
    assert_eq!(
        read_script_uri("file:///etc/x.sh", "s").unwrap(),
        ScriptSource::File("/etc/x.sh".into())
    );
    assert_eq!(
        read_script_uri("https://example.org/x.sh", "s").unwrap(),
        ScriptSource::Https("https://example.org/x.sh".into())
    );
    assert_eq!(
        read_script_uri("git+https://me@example.org/r.git@v1#dir/x.sh", "s").unwrap(),
        ScriptSource::Git {
            repository: "https://me@example.org/r.git".into(),
            revision: "v1".into(),
            path: "dir/x.sh".into(),
        }
    );
    assert_eq!(
        read_script_uri("git+https://example.org/r@v1", "s").unwrap_err(),
        "missing #<path> in git+https://example.org/r@v1"
    );
    assert_eq!(
        read_script_uri("git+https://example.org/r#p", "s").unwrap_err(),
        "missing @<ref> in git+https://example.org/r#p"
    );
    let m = read_script_uri("ftp://example.org/x", "s").unwrap_err();
    assert!(m.starts_with("UNSUPPORTED_SCRIPT_URI_SCHEME: scripts entry 's' uri 'ftp://example.org/x'"));
}

#[test]
fn fetched_scripts_are_judged_by_their_outcome() {
    let good = Exit { success: true, code: Some(0) };
    let bad = Exit { success: false, code: Some(128) };
    let killed = Exit { success: false, code: None };
    let check = |archive: Exit, extract: Exit, body: &str| {
        check_git_fetch("s", "u", "https://r", "v1", "p", archive, extract, body)
    };
    assert!(check(good, good, "echo").is_ok());
    let m = check(bad, good, "echo").unwrap_err();
    assert!(m.starts_with("GIT_ARCHIVE_NOT_SUPPORTED: scripts entry 's' uri 'u'"), "{m}");
    assert!(m.contains("--remote=https://r` exited with code Some(128)"), "{m}");
    let m = check(good, killed, "echo").unwrap_err();
    assert!(m.contains("`tar -x -O` exited with code None. The git archive may not contain 'p'"), "{m}");
    let m = check(good, good, "").unwrap_err();
    assert!(m.contains("resolved to an empty body. Check that 'p' exists in the repo at ref 'v1'"), "{m}");
    assert!(check_https_fetch("s", "u", 200).is_ok());
    assert!(check_https_fetch("s", "u", 299).is_ok());
    let m = check_https_fetch("s", "u", 404).unwrap_err();
    assert!(m.starts_with("SCRIPT_URI_FETCH_FAILED: scripts entry 's' uri 'u' returned HTTP 404"), "{m}");
    assert!(check_https_fetch("s", "u", 199).is_err());
}

#[test]
fn paths_below_the_home_are_told_apart() {
    assert_eq!(below_home("~/repos/core"), Some("repos/core"));
    assert_eq!(below_home("~"), None);
    assert_eq!(below_home("/repos/core"), None);
}
