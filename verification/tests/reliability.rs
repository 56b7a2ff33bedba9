use mcp_flowgate_core::audit::{
    event_lines, fresh_correlation_id, fresh_workflow_id, write_failed_event, AuditEvent,
    MemoryAuditSink, NullAuditSink,
};
use mcp_flowgate_core::error::{ErrorClass, ExecutorError, RuntimeError};
use mcp_flowgate_core::json::{Number, Value};
use mcp_flowgate_core::model::Evidence;
use mcp_flowgate_core::reliability::{
    backoff_delay, compute_idempotency_key, retryable, AttemptAction, AttemptEvent, Attempts,
    Backoff, ReliabilityPolicy, RetryPolicy,
};

fn from_serde(v: &serde_json::Value) -> Value {
    match v {
        serde_json::Value::Null => Value::Null,
        serde_json::Value::Bool(b) => Value::Bool(*b),
        serde_json::Value::Number(n) => {
            if let Some(u) = n.as_u64() {
                Value::Number(Number::PosInt(u))
            } else if let Some(i) = n.as_i64() {
                Value::Number(Number::NegInt(i))
            } else {
                Value::Number(Number::Float(n.as_f64().unwrap().to_bits()))
            }
        }
        serde_json::Value::String(s) => Value::String(s.clone()),
        serde_json::Value::Array(a) => Value::Array(a.iter().map(from_serde).collect()),
        serde_json::Value::Object(m) => {
            let mut out = Value::object();
            for (k, x) in m {
                out.set(k, from_serde(x));
            }
            out
        }
    }
}

fn j(text: &str) -> Value {
    from_serde(&serde_json::from_str(text).unwrap())
}

#[test]
fn policies_fall_back_to_defaults() {
    let p = ReliabilityPolicy::from_value(None);
    assert!(p.timeout().is_none());
    let r = p.retry();
    assert_eq!(r.max_attempts, 1);
    assert_eq!(r.backoff, Backoff::Immediate);
    assert_eq!(
        r.retry_on,
        vec!["timeout".to_string(), "transient_error".to_string(), "rate_limited".to_string()]
    );
    let p = ReliabilityPolicy::from_value(Some(&j(
        r#"{ "timeoutMs": 5, "retry": { "maxAttempts": 3, "backoff": "exponential", "initialDelayMs": 100, "maxDelayMs": 250, "retryOn": ["connection"] }, "fallback": { "executors": [1] } }"#,
    )));
    assert_eq!(p.timeout(), Some(5));
    assert_eq!(p.retry().max_attempts, 3);
    assert_eq!(p.retry().retry_on, vec!["connection".to_string()]);
    let f = p.fallback.as_ref().unwrap();
    assert_eq!(f.strategy, "first_success");
    assert_eq!(f.executors, vec![Value::uint(1)]);
    let broken = ReliabilityPolicy::from_value(Some(&j(r#"{ "timeoutMs": 5, "retry": { "backoff": "sometimes" } }"#)));
    assert!(broken.timeout().is_none());
}

#[test]
fn a_policy_may_be_a_list() {
    let p = ReliabilityPolicy::from_value(Some(&j(
        r#"[ 5, [ 3, { "fixed": null }, 20 ], [ "first_success", [ 1, 2 ] ] ]"#,
    )));
    assert_eq!(p.timeout(), Some(5));
    let r = p.retry();
    assert_eq!((r.max_attempts, r.backoff, r.initial_delay_ms), (3, Backoff::Fixed, 20));
    assert_eq!(r.max_delay_ms, None);
    assert_eq!(r.retry_on.len(), 3);
    assert_eq!(p.fallback.as_ref().unwrap().executors.len(), 2);
    let p = ReliabilityPolicy::from_value(Some(&j("[ null, null ]")));
    assert!(p.timeout().is_none() && p.retry.is_none() && p.fallback.is_none());
    let long = ReliabilityPolicy::from_value(Some(&j("[ 5, null, null, 1 ]")));
    assert!(long.timeout().is_none());
    for bad in [
        r#"[ 5, { "backoff": { "fixed": 1 } } ]"#,
        r#"[ 5, { "backoff": { "fixed": null, "none": null } } ]"#,
        r#"[ 5, null, [ "first_success" ] ]"#,
    ] {
        assert!(ReliabilityPolicy::from_value(Some(&j(bad))).timeout().is_none(), "{bad}");
    }
}

#[test]
fn delays_back_off() {
    let mut r = RetryPolicy::default();
    r.initial_delay_ms = 100;
    assert_eq!(backoff_delay(&r, 1), 0);
    r.backoff = Backoff::Fixed;
    assert_eq!(backoff_delay(&r, 4), 100);
    r.backoff = Backoff::Exponential;
    assert_eq!(backoff_delay(&r, 1), 100);
    assert_eq!(backoff_delay(&r, 3), 400);
    assert_eq!(backoff_delay(&r, 0), 100);
    assert_eq!(backoff_delay(&r, 60), 100 * (1 << 20));
    r.max_delay_ms = Some(250);
    assert_eq!(backoff_delay(&r, 3), 250);
    r.max_delay_ms = None;
    r.initial_delay_ms = u64::MAX;
    assert_eq!(backoff_delay(&r, 2), u64::MAX);
}

#[test]
fn keys_are_made_from_templates() {
    let key = |spec: &str, t: Option<&str>| compute_idempotency_key(&j(spec), "w", t, "c");
    assert_eq!(key(r#"{ "idempotencyKey": true }"#, Some("go")).as_deref(), Some("w.go.c"));
    assert_eq!(key(r#"{ "idempotencyKey": true }"#, None).as_deref(), Some("w.on_enter.c"));
    assert_eq!(
        key(r#"{ "idempotencyKey": "k-{workflowId}-{transition}-{correlationId}" }"#, Some("go")).as_deref(),
        Some("k-w-go-c")
    );
    assert_eq!(key(r#"{ "idempotencyKey": false }"#, None), None);
    assert_eq!(key("{}", None), None);
}

#[test]
fn classes_have_tokens() {
    let cases = [
        (ExecutorError::Timeout(5), ErrorClass::Timeout, "timeout"),
        (ExecutorError::RateLimited("x".into()), ErrorClass::RateLimited, "rate_limited"),
        (ExecutorError::Connection("x".into()), ErrorClass::Connection, "connection_error"),
        (ExecutorError::Transient("x".into()), ErrorClass::Transient, "transient_error"),
        (ExecutorError::Permanent("x".into()), ErrorClass::Permanent, "permanent_error"),
    ];
    for (e, class, token) in cases {
        assert_eq!(e.class(), class);
        assert_eq!(class.token(), token);
    }
    assert!(retryable(&RetryPolicy::default(), ErrorClass::Timeout));
    assert!(!retryable(&RetryPolicy::default(), ErrorClass::Permanent));
}

fn types(events: &Vec<AuditEvent>) -> Vec<&str> {
    events.iter().map(|e| e.event_type.as_str()).collect()
}

#[test]
fn attempts_retry_and_fall_back() {
    let policy = ReliabilityPolicy::from_value(Some(&j(
        r#"{ "retry": { "maxAttempts": 2, "backoff": "fixed", "initialDelayMs": 10 }, "fallback": { "executors": [ { "kind": "b" } ] } }"#,
    )));
    let (mut a, action) =
        Attempts::begin(&j(r#"{ "kind": "a", "idempotencyKey": true }"#), &policy, "w", Some("t"), "c");
    assert!(matches!(action, AttemptAction::Find(k) if k == "a"));
    let (e, action) = a.execute_with_reliability(AttemptEvent::Found(true));
    assert_eq!(types(&e), vec!["executor.started"]);
    assert_eq!(e[0].payload.str_at("idempotencyKey"), Some("w.t.c"));
    assert_eq!(e[0].payload.u64_at("attempt"), Some(1));
    assert!(matches!(action, AttemptAction::Run));
    let (e, action) = a.execute_with_reliability(AttemptEvent::Failed(ExecutorError::Timeout(3)));
    assert_eq!(types(&e), vec!["executor.retrying"]);
    assert!(matches!(action, AttemptAction::Sleep(10)));
    let (e, action) = a.execute_with_reliability(AttemptEvent::Slept);
    assert_eq!(types(&e), vec!["executor.started"]);
    assert_eq!(e[0].payload.u64_at("attempt"), Some(2));
    assert!(matches!(action, AttemptAction::Run));
    let (e, action) = a.execute_with_reliability(AttemptEvent::Failed(ExecutorError::Timeout(3)));
    assert_eq!(types(&e), vec!["executor.failed", "fallback.selected"]);
    assert!(matches!(action, AttemptAction::Find(k) if k == "b"));
    let (e, action) = a.execute_with_reliability(AttemptEvent::Found(false));
    assert!(e.is_empty());
    match action {
        AttemptAction::Fail(ExecutorError::Permanent(m)) => {
            assert_eq!(m, "executor kind 'b' is not registered")
        }
        other => panic!("{other:?}"),
    }
}

#[test]
fn an_attempt_may_succeed() {
    let policy = ReliabilityPolicy::default();
    let (mut a, _) = Attempts::begin(&j(r#"{ "kind": "a" }"#), &policy, "w", None, "c");
    a.execute_with_reliability(AttemptEvent::Found(true));
    let (e, action) = a.execute_with_reliability(AttemptEvent::Succeeded);
    assert_eq!(types(&e), vec!["executor.succeeded"]);
    assert_eq!(e[0].payload.get("transition"), Some(&Value::Null));
    assert!(matches!(action, AttemptAction::Succeed));
    let (mut b, _) = Attempts::begin(&j(r#"{ "kind": "a" }"#), &policy, "w", None, "c");
    b.execute_with_reliability(AttemptEvent::Found(true));
    let (e, action) = b.execute_with_reliability(AttemptEvent::Failed(ExecutorError::Permanent("no".into())));
    assert_eq!(types(&e), vec!["executor.failed"]);
    assert!(matches!(action, AttemptAction::Fail(ExecutorError::Permanent(_))));
}

#[test]
fn ids_are_fresh() {
    let a = fresh_workflow_id();
    let b = fresh_workflow_id();
    assert_ne!(a, b);
    assert!(a.starts_with("wf_"));
    assert_eq!(a.len(), 3 + 32);
    assert!(a[3..].chars().all(|c| c.is_ascii_hexdigit() && !c.is_ascii_uppercase()));
    let c = fresh_correlation_id();
    assert!(c.starts_with("cor_") && c.len() == 4 + 32);
}

#[test]
fn events_are_built_and_recorded() {
    let e = AuditEvent::new("x.y")
        .with_workflow("w")
        .with_correlation("c")
        .with_actor("a")
        .with_trace_id("t")
        .with_run_id("r")
        .with_payload(Value::uint(1));
    assert!(e.id.starts_with("evt_"));
    assert!(chrono::DateTime::parse_from_rfc3339(&e.timestamp).is_ok());
    assert_eq!(e.workflow_id.as_deref(), Some("w"));
    assert_eq!(e.correlation_id, "c");
    assert_eq!(e.actor.as_deref(), Some("a"));
    let mut sink = MemoryAuditSink::new();
    sink.record(e.dup());
    sink.record(write_failed_event("x.y", "full"));
    assert_eq!(sink.event_types().len(), 2);
    assert_eq!(sink.event_types()[0], "x.y");
    assert_eq!(sink.snapshot()[0], e);
    sink.clear();
    assert!(sink.snapshot().is_empty());
}

#[test]
fn runtime_errors_have_codes() {
    let e = RuntimeError::RunIdAlreadyRunning {
        run_id: "r".into(),
        existing_workflow_id: "w".into(),
    };
    assert_eq!(e.code(), "RUN_ID_ALREADY_RUNNING");
    assert!(e.message().contains('r') && e.message().contains('w'));
    let e = RuntimeError::RecordWriteFailed { workflow_id: "w".into(), seq: 3, source: "s".into() };
    assert_eq!(e.code(), "RECORD_WRITE_FAILED");
    let e = RuntimeError::EmbeddingBackendFailed { message: "m".into() };
    assert_eq!(e.code(), "EMBEDDING_BACKEND_FAILED");
    let e = RuntimeError::SubjectNeedsDefinition {
        unknown_subject: "s".into(),
        bounded_context: None,
        workflow_id_context: "w".into(),
    };
    assert_eq!(e.code(), "SUBJECT_NEEDS_DEFINITION");
}

#[test]
fn confidence_lies_between_zero_and_one() {
    let with = |c: Option<f32>| Evidence {
        kind: "k".into(),
        id: "i".into(),
        uri: None,
        summary: None,
        digest: None,
        confidence: c.map(f32::to_bits),
    };
    assert!(with(None).validate_confidence().is_ok());
    for good in [0.0f32, -0.0, 0.5, 1.0, f32::MIN_POSITIVE] {
        assert!(with(Some(good)).validate_confidence().is_ok(), "{good}");
    }
    for bad in [-0.1f32, 1.0000001, f32::NAN, f32::INFINITY, f32::NEG_INFINITY] {
        assert_eq!(with(Some(bad)).validate_confidence(), Err(bad.to_bits()), "{bad}");
    }
}

#[test]
fn logs_of_events_are_read_by_line() {
    let lines = event_lines("{\"a\":1}\n\n  \n{\"b\":2}\n");
    assert_eq!(lines, vec!["{\"a\":1}".to_string(), "{\"b\":2}".to_string()]);
    assert!(event_lines("").is_empty());
}

#[test]
fn sinks_show_what_they_keep() {
    let mut sink = MemoryAuditSink::new();
    sink.record(AuditEvent::new("x.y"));
    assert_eq!(sink.list_events(), Some(sink.snapshot()));
    assert!(NullAuditSink.record(AuditEvent::new("x.y")).is_ok());
    assert!(NullAuditSink.list_events().is_none());
}

#[test]
fn a_schema_violation_is_never_tried_again() {
    let policy = ReliabilityPolicy::from_value(Some(&j(
        r#"{ "retry": { "maxAttempts": 3, "retryOn": ["permanent_error"] } }"#,
    )));
    let (mut a, _) = Attempts::begin(&j(r#"{ "kind": "a" }"#), &policy, "w", None, "c");
    a.execute_with_reliability(AttemptEvent::Found(true));
    let (e, action) =
        a.execute_with_reliability(AttemptEvent::Failed(ExecutorError::SchemaViolation("x".into())));
    assert_eq!(types(&e), vec!["executor.failed"]);
    assert!(matches!(action, AttemptAction::Fail(ExecutorError::SchemaViolation(m)) if m == "x"));
    let (mut b, _) = Attempts::begin(&j(r#"{ "kind": "a" }"#), &policy, "w", None, "c");
    b.execute_with_reliability(AttemptEvent::Found(true));
    let (_, action) =
        b.execute_with_reliability(AttemptEvent::Failed(ExecutorError::Permanent("x".into())));
    assert!(matches!(action, AttemptAction::Run));
}
