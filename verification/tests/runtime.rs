use mcp_flowgate_core::audit::AuditEvent;
use mcp_flowgate_core::error::{ExecutorError, RuntimeError};
use mcp_flowgate_core::json::{Number, Value};
use mcp_flowgate_core::mapping::{merge_output, plan_output, Resolved};
use mcp_flowgate_core::model::{
    Evidence, ExecuteResult, Principal, StartWorkflow, SubmitTransition, WorkflowInstance,
};
use mcp_flowgate_core::runtime::{
    cancel, cancelled_event, describe_guidance_for_workflow, describe_script_for_workflow, explain,
    finish_response, get, max_chain_depth, ChainOutcome, Reply, StartAction, StartEvent, Starting,
};
use mcp_flowgate_core::runtime_chain::{
    apply_while_loop, chain_candidates_of, check_and_apply_timeout, clear_state_local_slots_on_exit,
    plan_while_loop, read_while_iter, run_on_enter, Branching, Chain, ChainAction, ChainEvent,
    LoopStep, Selection, TimeoutStep, WhilePlan,
};
use mcp_flowgate_core::runtime_links::{is_deterministic, is_terminal, links, resolve_skill_refs};
use mcp_flowgate_core::runtime_response::{
    filter_links_by_guards, link_guards, response, GuardRun, GuardsOutcome,
};
use mcp_flowgate_core::runtime_submit::{
    check_admission, Submission, SubmitAction, SubmitEvent,
};
use mcp_flowgate_core::store::InMemoryWorkflowStore;

fn from_serde(v: &serde_json::Value) -> Value {
    match v {
        serde_json::Value::Null => Value::Null,
        serde_json::Value::Bool(b) => Value::Bool(*b),
        serde_json::Value::Number(n) => {
            if let Some(u) = n.as_u64() {
                Value::Number(Number::PosInt(u))
            } else if let Some(i) = n.as_i64() {
                Value::Number(Number::NegInt(i))
            } else {
                Value::Number(Number::Float(n.as_f64().unwrap().to_bits()))
            }
        }
        serde_json::Value::String(s) => Value::String(s.clone()),
        serde_json::Value::Array(a) => Value::Array(a.iter().map(from_serde).collect()),
        serde_json::Value::Object(m) => {
            let mut out = Value::object();
            for (k, x) in m {
                out.set(k, from_serde(x));
            }
            out
        }
    }
}

fn j(text: &str) -> Value {
    from_serde(&serde_json::from_str(text).unwrap())
}

const NOW: &str = "2026-01-01T00:00:00Z";

fn human() -> Principal {
    Principal { subject: "h".into(), roles: vec!["human".into()], permissions: vec![] }
}

struct World {
    store: InMemoryWorkflowStore,
    events: Vec<AuditEvent>,
    output: String,
    failure: Option<String>,
    guards_pass: bool,
    trace: Option<String>,
}

impl World {
    fn new() -> World {
        World {
            store: InMemoryWorkflowStore::new(),
            events: vec![],
            output: "{}".into(),
            failure: None,
            guards_pass: true,
            trace: None,
        }
    }

    fn types(&self) -> Vec<&str> {
        self.events.iter().map(|e| e.event_type.as_str()).collect()
    }

    fn merged(&self, context: &Value, mapping: Option<&Value>, args: &Value, input: &Value, out: &Value) -> Value {
        let mut ctx = context.dup();
        let values = plan_output(context, mapping, args, input, out).map(|planned| {
            planned
                .into_iter()
                .map(|(k, r)| match r {
                    Resolved::Value(v) => (k, v),
                    other => panic!("{other:?}"),
                })
                .collect()
        });
        merge_output(&mut ctx, values).unwrap();
        ctx
    }

    fn executed(&self) -> Result<ExecuteResult, ExecutorError> {
        match &self.failure {
            Some(m) => Err(ExecutorError::Permanent(m.clone())),
            None => Ok(ExecuteResult {
                output: j(&self.output),
                evidence: vec![Evidence {
                    kind: "log".into(),
                    id: "1".into(),
                    uri: None,
                    summary: None,
                    digest: None,
                    confidence: None,
                }],
                child_workflow_id: None,
            }),
        }
    }

    fn target(&self, t: &Value) -> String {
        match Branching::begin(t) {
            Some(b) => b.default_target,
            None => panic!("no target"),
        }
    }

    fn chain(&mut self, instance: WorkflowInstance, max_depth: u64) -> ChainOutcome {
        let def = instance.definition.dup();
        let (mut chain, notes, mut action) =
            Chain::begin(&def, instance, &Principal::anonymous(), "cor", max_depth);
        self.events.extend(notes);
        loop {
            let event = match action {
                ChainAction::Select => {
                    let candidates = chain_candidates_of(&chain.definition, &chain.instance.state);
                    let mut s = Selection::begin(candidates);
                    while s.current().is_some() {
                        let e = s.report(self.guards_pass, &chain.instance, "cor");
                        self.events.push(e);
                    }
                    ChainEvent::Selected(s.select_deterministic_transition(&chain.instance.state))
                }
                ChainAction::Execute => match self.executed() {
                    Ok(r) => ChainEvent::Executed(r, 7),
                    Err(e) => ChainEvent::ExecutorFailed(e),
                },
                ChainAction::Merge(out) => ChainEvent::Merged {
                    context: self.merged(
                        &chain.instance.context,
                        chain.transition_def.get("output"),
                        &Value::object(),
                        &chain.instance.input,
                        &out,
                    ),
                    violation: None,
                },
                ChainAction::Target => ChainEvent::Targeted(self.target(&chain.transition_def)),
                ChainAction::Diff => ChainEvent::Diffed { delta: Value::object(), now: NOW.into() },
                ChainAction::Record(e) => {
                    self.events.push(e);
                    ChainEvent::Recorded
                }
                ChainAction::Save { instance, expected_version } => {
                    ChainEvent::Saved(self.store.save_if_version(instance, expected_version).unwrap())
                }
                ChainAction::Enter => ChainEvent::Entered { instance: chain.instance.dup(), elapsed: 0 },
                ChainAction::Finish(outcome) => return outcome,
                ChainAction::Ignore => panic!("ignored"),
            };
            let (notes, next) = chain.run_deterministic_chain(event);
            self.events.extend(notes);
            action = next;
        }
    }

    fn start(&mut self, definition: &str) -> Reply {
        let request = StartWorkflow {
            definition_id: "demo".into(),
            input: Value::object(),
            principal: Principal::anonymous(),
            trace_id: None,
            run_id: Some("run".into()),
        };
        let (mut s, mut action) = Starting::begin(request, "cor", false).unwrap();
        loop {
            let event = match action {
                StartAction::FindRun(id) => StartEvent::RunFound(self.store.find_by_run_id(&id)),
                StartAction::Load => StartEvent::Loaded(j(definition)),
                StartAction::CheckInput => StartEvent::InputReady {
                    input: Value::object(),
                    workflow_id: "w".into(),
                    now: NOW.into(),
                },
                StartAction::Create(i) => StartEvent::Created(self.store.create(i).unwrap()),
                StartAction::Announce { event, .. } => {
                    self.events.push(event);
                    StartEvent::Recorded
                }
                StartAction::Enter(i) => StartEvent::Entered(i),
                StartAction::Chain { instance, max_depth } => {
                    StartEvent::Chained(self.chain(instance, max_depth))
                }
                StartAction::Record(e) => {
                    self.events.push(e);
                    StartEvent::Recorded
                }
                StartAction::Respond(r) => return r,
                other => panic!("{other:?}"),
            };
            action = s.start(event);
        }
    }

    fn submit(&mut self, transition: &str, version: u64, principal: Principal) -> Result<Reply, String> {
        let request = SubmitTransition {
            workflow_id: "w".into(),
            expected_version: version,
            transition: transition.into(),
            arguments: Value::object(),
            principal,
            summary: Some("did it".into()),
            trace_id: self.trace.clone(),
            run_id: None,
        };
        let loaded = self.store.load("w").unwrap();
        let (mut s, mut action) = Submission::begin(request, loaded, "cor", "")?;
        loop {
            let event = match action {
                SubmitAction::CheckTimeout => SubmitEvent::TimeoutChecked(None),
                SubmitAction::Record(e) => {
                    self.events.push(e);
                    SubmitEvent::Recorded
                }
                SubmitAction::CheckArguments => {
                    SubmitEvent::ArgumentsChecked(Ok(s.arguments.dup()))
                }
                SubmitAction::JudgeGuards => {
                    let mut run = GuardRun::begin(&s.transition_def);
                    let mut outcome =
                        GuardsOutcome { pass: true, evaluated: vec![], diagnostic: None };
                    while run.current().is_some() {
                        let (e, o) = run.guards_pass(&s.instance, "cor", self.guards_pass, Some("said no"));
                        self.events.push(e);
                        if let Some(o) = o {
                            outcome = o;
                            break;
                        }
                    }
                    SubmitEvent::GuardsJudged(outcome)
                }
                SubmitAction::Execute => match self.executed() {
                    Ok(r) => SubmitEvent::Executed(r, 7),
                    Err(e) => SubmitEvent::ExecutorFailed(e),
                },
                SubmitAction::Merge(out) => SubmitEvent::Merged {
                    context: self.merged(
                        &s.next.context,
                        s.transition_def.get("output"),
                        &s.arguments,
                        &s.instance.input,
                        &out,
                    ),
                    violation: None,
                    constraint: None,
                    confidence: "".into(),
                },
                SubmitAction::Target => SubmitEvent::Targeted(self.target(&s.transition_def)),
                SubmitAction::JudgeLoop(_) => SubmitEvent::LoopJudged(true),
                SubmitAction::Diff => SubmitEvent::Diffed { delta: Value::object(), now: NOW.into() },
                SubmitAction::Save { instance, expected_version } => {
                    SubmitEvent::Saved(self.store.save_if_version(instance, expected_version)?)
                }
                SubmitAction::Enter(i) => SubmitEvent::Entered(i),
                SubmitAction::Chain { instance, max_depth } => {
                    SubmitEvent::Chained(self.chain(instance, max_depth))
                }
                SubmitAction::Respond(r) => return Ok(r),
                SubmitAction::Reject { event, reply } => {
                    self.events.push(event);
                    return Ok(reply);
                }
                SubmitAction::Fail(m) => return Err(m),
                SubmitAction::Ignore => panic!("ignored"),
            };
            let (notes, next) = s.submit(event);
            self.events.extend(notes);
            action = next;
        }
    }
}

const DEMO: &str = r#"{
    "version": "3",
    "initialState": "draft",
    "initialContext": { "n": 0 },
    "states": {
        "draft": { "transitions": {
            "write": { "target": "review", "executor": { "kind": "noop" }, "output": { "text": "$.output.text" } },
            "approve": { "target": "done", "actor": "human" },
            "ping": { "target": "draft", "max_fires_per_visit": 1 }
        } },
        "review": { "transitions": {
            "auto": { "target": "done", "actor": "deterministic", "executor": { "kind": "noop" } }
        } },
        "done": { "terminal": true }
    }
}"#;

#[test]
fn a_workflow_starts_in_its_initial_state() {
    let mut w = World::new();
    let r = w.start(DEMO);
    assert_eq!(r.instance.state, "draft");
    assert_eq!(r.instance.version, 0);
    assert_eq!(r.instance.definition_version, "3");
    assert_eq!(r.instance.context, j(r#"{ "n": 0 }"#));
    assert_eq!(r.status, "started");
    assert_eq!(w.types(), vec!["workflow.started"]);
    assert_eq!(w.store.load("w").unwrap(), r.instance);
}

#[test]
fn a_run_id_is_used_once() {
    let mut w = World::new();
    w.start(DEMO);
    let request = StartWorkflow {
        definition_id: "demo".into(),
        input: Value::object(),
        principal: Principal::anonymous(),
        trace_id: None,
        run_id: Some("run".into()),
    };
    let (mut s, action) = Starting::begin(request, "cor", false).unwrap();
    assert!(matches!(action, StartAction::FindRun(id) if id == "run"));
    match s.start(StartEvent::RunFound(w.store.find_by_run_id("run"))) {
        StartAction::Fail(e) => assert_eq!(e.code(), "RUN_ID_ALREADY_RUNNING"),
        other => panic!("{other:?}"),
    }
}

#[test]
fn nothing_starts_while_the_gateway_drains() {
    let request = StartWorkflow {
        definition_id: "demo".into(),
        input: Value::object(),
        principal: Principal::anonymous(),
        trace_id: None,
        run_id: None,
    };
    assert!(Starting::begin(request, "cor", true).is_err());
}

#[test]
fn a_transition_is_taken_and_the_chain_follows() {
    let mut w = World::new();
    w.start(DEMO);
    w.output = r#"{ "text": "hello" }"#.into();
    let r = w.submit("write", 0, Principal::anonymous()).unwrap();
    assert_eq!(r.instance.state, "done");
    assert_eq!(r.instance.version, 2);
    assert_eq!(r.status, "executed");
    assert_eq!(r.steps.len(), 1);
    assert_eq!(r.steps[0].from_state, "review");
    assert_eq!(r.steps[0].to_state, "done");
    assert_eq!(r.instance.context.str_at("text"), Some("hello"));
    assert_eq!(r.instance.context.str_at("summary"), Some("did it"));
    assert_eq!(w.store.load("w").unwrap(), r.instance);
    let types = w.types();
    let at = |t: &str| types.iter().position(|x| *x == t);
    assert!(at("transition.requested").is_some());
    assert!(at("transition.requested") < at("workflow.transition"));
    assert!(at("workflow.transition") < at("workflow.transitioned"));
    assert!(at("workflow.transitioned") < at("workflow.completed"));
}

#[test]
fn a_stale_version_is_refused() {
    let mut w = World::new();
    w.start(DEMO);
    let before = w.store.load("w").unwrap();
    let r = w.submit("write", 9, Principal::anonymous()).unwrap();
    assert_eq!(r.status, "rejected");
    assert_eq!(r.instance, before);
    assert_eq!(w.store.load("w").unwrap(), before);
    assert!(w.types().contains(&"transition.rejected"));
}

#[test]
fn humans_alone_take_transitions_for_humans() {
    let mut w = World::new();
    w.start(DEMO);
    let r = w.submit("approve", 0, Principal::anonymous()).unwrap();
    assert_eq!(r.status, "rejected");
    let r = w.submit("approve", 0, human()).unwrap();
    assert_eq!(r.instance.state, "done");
}

#[test]
fn unknown_transitions_and_caps_are_refused() {
    let mut w = World::new();
    w.start(DEMO);
    let i = w.store.load("w").unwrap();
    assert!(check_admission(&i, 0, "none", &human()).is_err());
    assert!(check_admission(&i, 0, "ping", &human()).is_ok());
    let r = w.submit("ping", 0, human()).unwrap();
    assert_eq!(r.instance.state, "draft");
    let r = w.submit("ping", 1, human()).unwrap();
    assert_eq!(r.status, "rejected");
}

#[test]
fn guards_that_do_not_pass_stop_the_executor() {
    let guarded = DEMO.replace(
        r#""write": { "target""#,
        r#""write": { "guards": [{ "kind": "role", "role": "x" }], "target""#,
    );
    let mut w = World::new();
    w.start(&guarded);
    w.guards_pass = false;
    let r = w.submit("write", 0, Principal::anonymous()).unwrap();
    assert_eq!(r.status, "rejected");
    assert_eq!(r.error.as_ref().and_then(|e| e.str_at("code")), Some("GUARD_REJECTED"));
    assert!(w.types().contains(&"guard.evaluated"));
    w.guards_pass = true;
    assert_eq!(w.submit("write", 0, Principal::anonymous()).unwrap().instance.state, "done");
}

#[test]
fn a_failed_executor_leaves_the_workflow() {
    let mut w = World::new();
    w.start(DEMO);
    w.failure = Some("broken".into());
    let r = w.submit("write", 0, Principal::anonymous()).unwrap();
    assert_eq!(r.status, "failed");
    assert_eq!(r.instance.state, "draft");
    assert_eq!(w.store.load("w").unwrap().version, 0);
}

#[test]
fn a_chain_stops_at_its_depth() {
    let endless = r#"{
        "initialState": "a", "maxChainDepth": 3,
        "states": { "a": { "transitions": { "t": { "target": "a", "actor": "deterministic" } } } }
    }"#;
    assert_eq!(max_chain_depth(&j(endless)), 3);
    assert_eq!(max_chain_depth(&Value::object()), 50);
    let mut w = World::new();
    let r = w.start(endless);
    assert_eq!(r.steps.len(), 3);
    assert_eq!(r.instance.version, 3);
    assert_eq!(r.status, "started");
}

#[test]
fn links_show_what_may_be_done() {
    let mut w = World::new();
    let r = w.start(DEMO);
    let l = links(&r.instance.definition, &r.instance, &Value::object());
    let rels: Vec<Option<&str>> = l.iter().map(|x| x.str_at("rel")).collect();
    assert_eq!(rels, vec![Some("approve"), Some("ping"), Some("write")]);
    let args = l[2].get("args").unwrap();
    assert_eq!(args.str_at("workflowId"), Some("w"));
    assert_eq!(args.u64_at("expectedVersion"), Some(0));
    assert!(is_terminal(&r.instance.definition, "done"));
    assert!(!is_terminal(&r.instance.definition, "draft"));
    assert!(is_deterministic(&j(r#"{ "actor": "deterministic" }"#)));
    assert_eq!(link_guards(&r.instance.definition, "draft", &l[2]), Some(vec![]));
    assert!(link_guards(&r.instance.definition, "done", &l[2]).is_none());
    let kept = filter_links_by_guards(&r.instance.definition, "draft", &l, &vec![false, true, false]);
    assert_eq!(kept.len(), 1);
    assert_eq!(kept[0].str_at("rel"), Some("ping"));
    let body = response(&r.instance.definition, &r.instance, &r.status, None, l, None, None);
    assert_eq!(body.pointer("/workflow/state").and_then(Value::as_str), Some("draft"));
    let whole = finish_response(&r.instance.definition, &r, body, vec![]);
    assert_eq!(whole.pointer("/result/status").and_then(Value::as_str), Some("started"));
    let shown = get(&r.instance, None);
    assert_eq!(shown.instance, r.instance);
}

#[test]
fn a_workflow_is_cancelled_once() {
    let mut w = World::new();
    let r = w.start(DEMO);
    let c = cancel(&r.instance, "why", NOW).unwrap();
    assert_eq!(c.cancelled_reason.as_deref(), Some("why"));
    assert_eq!(c.version, 1);
    assert!(cancel(&c, "again", NOW).is_none());
    assert_eq!(cancelled_event(&c, "why").event_type, "workflow.cancelled");
    w.store.save_if_version(c, 0).unwrap();
    assert!(w.submit("write", 1, Principal::anonymous()).is_err());
}

#[test]
fn a_timeout_moves_the_workflow() {
    let timed = DEMO.replacen(
        r#""version": "3","#,
        r#""version": "3", "timeoutMs": 100, "onTimeout": { "target": "done" },"#,
        1,
    );
    let mut w = World::new();
    let r = w.start(&timed);
    let d = r.instance.definition.dup();
    let p = Principal::anonymous();
    assert!(matches!(
        check_and_apply_timeout(&d, &r.instance, 99, "cor", NOW, &p),
        TimeoutStep::NotDue
    ));
    match check_and_apply_timeout(&d, &r.instance, 100, "cor", NOW, &p) {
        TimeoutStep::Apply { instance, expected_version, .. } => {
            assert_eq!(instance.state, "done");
            assert_eq!(instance.version, 1);
            assert_eq!(expected_version, 0);
        }
        other => panic!("{other:?}"),
    }
}

#[test]
fn loops_are_counted_and_capped() {
    let d = j(r#"{ "states": {
        "a": { "while": { "kind": "role", "role": "x" }, "max_iterations": 2 },
        "b": {}
    } }"#);
    match plan_while_loop(&d, "a") {
        WhilePlan::Judge { max_iterations, .. } => assert_eq!(max_iterations, 2),
        other => panic!("{other:?}"),
    }
    assert!(matches!(plan_while_loop(&d, "b"), WhilePlan::Leave));
    let mut ctx = Value::object();
    assert!(matches!(apply_while_loop(&mut ctx, "a", 2, true), LoopStep::Again(1)));
    assert!(matches!(apply_while_loop(&mut ctx, "a", 2, true), LoopStep::Again(2)));
    assert_eq!(read_while_iter(&ctx, "a"), 2);
    assert!(matches!(apply_while_loop(&mut ctx, "a", 2, true), LoopStep::Exceeded(_)));
    assert!(matches!(apply_while_loop(&mut ctx, "a", 2, false), LoopStep::Leave));
    assert_eq!(read_while_iter(&ctx, "a"), 0);
}

#[test]
fn slots_of_a_state_are_cleared_on_leaving_it() {
    let d = j(
        r#"{ "states": { "a": { "slots": { "x": { "scope": "state" }, "y": {}, "z": { "scope": "workflow" } } } } }"#,
    );
    let before = r#"{ "_fire_count.a.t": 1, "_fire_count.b.t": 2, "x": 1, "y": 2, "z": 3 }"#;
    let mut ctx = j(before);
    let gone = clear_state_local_slots_on_exit(&d, "a", "a", &mut ctx);
    assert!(gone.is_empty());
    assert_eq!(ctx, j(before));
    let gone = clear_state_local_slots_on_exit(&d, "a", "b", &mut ctx);
    assert_eq!(gone, vec![Value::text("x")]);
    assert_eq!(ctx, j(r#"{ "_fire_count.b.t": 2, "y": 2, "z": 3 }"#));
    let gone = clear_state_local_slots_on_exit(&d, "unknown", "b", &mut ctx);
    assert!(gone.is_empty());
}

#[test]
fn chains_clear_the_slots_of_the_states_they_leave() {
    let hop = r#"{
        "initialState": "a",
        "initialContext": { "x": 1, "y": 2 },
        "states": {
            "a": {
                "slots": { "x": { "scope": "state" }, "y": {} },
                "transitions": { "t": { "target": "b", "actor": "deterministic" } }
            },
            "b": { "terminal": true }
        }
    }"#;
    let mut w = World::new();
    let r = w.start(hop);
    assert_eq!(r.instance.state, "b");
    assert_eq!(r.instance.context, j(r#"{ "y": 2 }"#));
    assert!(w.types().contains(&"workflow.slot.cleared"));
}

#[test]
fn branches_are_tried_in_order() {
    let t = j(r#"{ "target": "z", "branches": [
        { "when": { "kind": "role", "role": "a" }, "target": "x" },
        { "when": { "kind": "role", "role": "b" }, "target": "y" }
    ] }"#);
    let mut w = World::new();
    let i = w.start(DEMO).instance;
    let p = Principal::anonymous();
    let mut b = Branching::begin(&t).unwrap();
    assert!(b.current().is_some());
    assert_eq!(b.resolve_target(false, &i, "cor", &p).0, None);
    let (target, event) = b.resolve_target(true, &i, "cor", &p);
    assert_eq!(target.as_deref(), Some("y"));
    assert!(event.is_some());
    let mut b = Branching::begin(&t).unwrap();
    b.resolve_target(false, &i, "cor", &p);
    assert_eq!(b.resolve_target(false, &i, "cor", &p).0.as_deref(), Some("z"));
    assert!(Branching::begin(&Value::object()).is_none());
}

#[test]
fn entering_a_state_writes_its_output() {
    let mut w = World::new();
    let i = w.start(DEMO).instance;
    let done = run_on_enter(i.dup(), j(r#"{ "n": 1 }"#), None).unwrap();
    assert_eq!(done.context, j(r#"{ "n": 1 }"#));
    let bad = run_on_enter(i, Value::object(), Some(("slot".into(), "no".into())));
    assert!(bad.unwrap_err().contains("slot"));
}

#[test]
fn guidance_comes_from_the_snapshot() {
    let d = r#"{
        "initialState": "s",
        "states": { "s": { "skills": ["plan.a"], "transitions": { "go": { "target": "s", "actor": "agent" } } } },
        "_skillsLibrary": { "plan.a": { "verb": "plan", "lifecycle": "stable", "body": "B", "hash": "H", "source": "config" } },
        "_scriptsLibrary": { "build.a": { "verb": "build", "lifecycle": "stable", "body": "C", "hash": "K", "source": "config" } }
    }"#;
    let mut w = World::new();
    let i = w.start(d).instance;
    let g = describe_guidance_for_workflow(Some(&i), "plan.a").unwrap();
    assert_eq!(g.str_at("body"), Some("B"));
    assert!(describe_guidance_for_workflow(Some(&i), "plan.b").is_none());
    let s = describe_script_for_workflow(Some(&i), "build.a").unwrap();
    assert_eq!(s.str_at("hash"), Some("K"));
    let refs = resolve_skill_refs(i.definition.pointer("/states/s/skills"), &i.definition);
    assert_eq!(refs.len(), 1);
    assert_eq!(refs[0].str_at("subject"), Some("plan.a"));
    let e = explain(&i, "go");
    assert!(e.is_object());
}

#[test]
fn links_can_be_followed() {
    let mut w = World::new();
    let i = w.start(DEMO).instance;
    for link in links(&i.definition, &i, &Value::object()) {
        let args = link.get("args").unwrap();
        assert_eq!(args.str_at("workflowId"), Some("w"));
        let version = args.u64_at("expectedVersion").unwrap();
        let transition = args.str_at("transition").unwrap();
        assert_eq!(link.str_at("rel"), Some(transition));
        assert!(check_admission(&i, version, transition, &human()).is_ok());
        let refused = check_admission(&i, version, transition, &Principal::anonymous());
        match link.str_at("actor") {
            Some("human") => assert_eq!(refused.unwrap_err().code, "ACTOR_MISMATCH"),
            _ => assert!(refused.is_ok()),
        }
    }
}

#[test]
fn a_failed_step_can_be_tried_again() {
    let steps = r#"{
        "initialState": "a",
        "states": {
            "a": { "transitions": { "first": { "target": "b", "actor": "deterministic" } } },
            "b": { "transitions": {
                "second": { "target": "c", "actor": "deterministic", "title": "Second", "executor": { "kind": "noop" } }
            } },
            "c": { "terminal": true }
        }
    }"#;
    let mut w = World::new();
    w.failure = Some("broken".into());
    let r = w.start(steps);
    assert_eq!(r.status, "failed");
    assert_eq!(r.instance.state, "b");
    let d = r.instance.definition.dup();
    let error = r.error.as_ref().map(Value::dup);
    let body = response(&d, &r.instance, &r.status, error, vec![], None, None);
    let whole = finish_response(&d, &r, body, vec![]);
    assert_eq!(whole.pointer("/error/code").and_then(Value::as_str), Some("CHAIN_FAILED"));
    assert_eq!(whole.pointer("/error/errorClass").and_then(Value::as_str), Some("permanent_error"));
    assert_eq!(
        whole.get("chain"),
        Some(&j(r#"[{ "fromState": "a", "transition": "first", "toState": "b", "version": 1 }]"#))
    );
    assert_eq!(
        whole.get("links"),
        Some(&j(
            r#"[{
                "rel": "second", "title": "Second", "description": null,
                "method": "flowgate.command", "actor": "deterministic",
                "args": { "workflowId": "w", "expectedVersion": 1, "transition": "second" },
                "inputSchema": { "type": "object", "properties": {}, "additionalProperties": false }
            }]"#
        ))
    );
}

const STRICT: &str = r#"{
    "initialState": "a",
    "states": {
        "a": { "transitions": {
            "go": { "target": "b", "executor": { "kind": "noop" }, "guards": [{ "kind": "role", "role": "x" }] },
            "vote": { "target": "b", "actor": "human" },
            "ping": { "target": "a", "max_fires_per_visit": 0 }
        } },
        "b": { "terminal": true },
        "loop": { "while": { "kind": "role", "role": "x" }, "transitions": { "again": { "target": "b" } } }
    }
}"#;

fn requested(state: &str, transition: &str, version: u64) -> (Submission, SubmitAction) {
    let mut w = World::new();
    let mut instance = w.start(STRICT).instance;
    instance.state = state.into();
    let request = SubmitTransition {
        workflow_id: "w".into(),
        expected_version: version,
        transition: transition.into(),
        arguments: Value::object(),
        principal: Principal::anonymous(),
        summary: None,
        trace_id: None,
        run_id: None,
    };
    let (mut s, action) = Submission::begin(request, instance, "cor", "").unwrap();
    assert!(matches!(action, SubmitAction::CheckTimeout));
    let (_, action) = s.submit(SubmitEvent::TimeoutChecked(None));
    assert!(matches!(action, SubmitAction::Record(_)));
    let (_, action) = s.submit(SubmitEvent::Recorded);
    (s, action)
}

fn guarding() -> Submission {
    let (mut s, action) = requested("a", "go", 0);
    assert!(matches!(action, SubmitAction::CheckArguments));
    let (_, action) = s.submit(SubmitEvent::ArgumentsChecked(Ok(Value::object())));
    assert!(matches!(action, SubmitAction::JudgeGuards));
    s
}

fn judged(pass: bool, diagnostic: Option<&str>) -> (Submission, SubmitAction) {
    let mut s = guarding();
    let (_, action) = s.submit(SubmitEvent::GuardsJudged(GuardsOutcome {
        pass,
        evaluated: vec![],
        diagnostic: diagnostic.map(str::to_string),
    }));
    (s, action)
}

fn merging(confidence: Option<f32>) -> Submission {
    let (mut s, action) = judged(true, None);
    assert!(matches!(action, SubmitAction::Execute));
    let evidence = vec![Evidence {
        kind: "log".into(),
        id: "1".into(),
        uri: None,
        summary: None,
        digest: None,
        confidence: confidence.map(f32::to_bits),
    }];
    let result = ExecuteResult { output: Value::object(), evidence, child_workflow_id: None };
    let (_, action) = s.submit(SubmitEvent::Executed(result, 3));
    assert!(matches!(action, SubmitAction::Merge(_)));
    s
}

fn refusal(action: SubmitAction) -> (String, String) {
    match action {
        SubmitAction::Reject { event, reply } => {
            assert_eq!(event.event_type, "transition.rejected");
            assert_eq!(reply.status, "rejected");
            let e = reply.error.unwrap();
            assert_eq!(event.payload.str_at("code"), e.str_at("code"));
            (e.str_at("code").unwrap().to_string(), e.str_at("message").unwrap().to_string())
        }
        other => panic!("{other:?}"),
    }
}

#[test]
fn requests_are_refused_with_a_code() {
    let (code, message) = refusal(requested("a", "go", 7).1);
    assert_eq!(code, "STALE_WORKFLOW_VERSION");
    assert_eq!(message, "Expected workflow version 7, but current version is 0.");
    let (code, message) = refusal(requested("a", "fly", 0).1);
    assert_eq!(code, "INVALID_TRANSITION");
    assert_eq!(message, "Transition 'fly' is not valid from state 'a'.");
    let (code, message) = refusal(requested("a", "vote", 0).1);
    assert_eq!(code, "ACTOR_MISMATCH");
    assert_eq!(
        message,
        "Transition 'vote' requires a human principal; submitter 'anonymous' has no 'human' role."
    );
    let (code, message) = refusal(requested("a", "ping", 0).1);
    assert_eq!(code, "TRANSITION_FIRE_CAP_EXCEEDED");
    assert!(message.starts_with("Transition 'ping' has fired 0 times in state 'a' (max_fires_per_visit = 0)."));
}

#[test]
fn arguments_and_guards_are_refused_with_a_code() {
    let (mut s, _) = requested("a", "go", 0);
    let (_, action) = s.submit(SubmitEvent::ArgumentsChecked(Err("no".into())));
    assert_eq!(refusal(action), ("INPUT_SCHEMA_VIOLATION".to_string(), "no".to_string()));
    let mut s = guarding();
    let (_, action) = s.submit(SubmitEvent::GuardUnset("unset".into()));
    assert_eq!(refusal(action), ("GUARD_UNSET_SLOT".to_string(), "unset".to_string()));
    assert_eq!(
        refusal(judged(false, None).1),
        ("GUARD_REJECTED".to_string(), "One or more guards rejected the transition.".to_string())
    );
    assert_eq!(
        refusal(judged(false, Some("EVIDENCE_DIGEST_REQUIRED")).1).0,
        "EVIDENCE_DIGEST_REQUIRED"
    );
    assert_eq!(
        refusal(judged(false, Some("EVIDENCE_CONFIDENCE_BELOW_THRESHOLD")).1).0,
        "EVIDENCE_CONFIDENCE_BELOW_THRESHOLD"
    );
}

#[test]
fn outputs_are_refused_with_a_code() {
    let merged = |violation: Option<(String, String)>, constraint: Option<String>| {
        SubmitEvent::Merged {
            context: Value::object(),
            violation,
            constraint,
            confidence: "1.5".into(),
        }
    };
    let (_, action) = merging(None).submit(merged(Some(("x".into(), "bad".into())), Some("c".into())));
    assert_eq!(
        refusal(action),
        ("BLACKBOARD_TYPE_ERROR".to_string(), "output write to typed slot 'x': bad".to_string())
    );
    let (_, action) = merging(None).submit(merged(None, Some("c".into())));
    assert_eq!(refusal(action), ("SLOT_CONSTRAINT_VIOLATED".to_string(), "c".to_string()));
    let (_, action) = merging(Some(1.5)).submit(merged(None, None));
    let (code, message) = refusal(action);
    assert_eq!(code, "INVALID_CONFIDENCE");
    assert!(message.contains("(kind='log', id='1') has confidence=1.5"), "{message}");
    let mut s = merging(Some(1.0));
    let (_, action) = s.submit(merged(None, None));
    assert!(matches!(action, SubmitAction::Target));
    assert_eq!(s.evidence.len(), 1);
}

#[test]
fn a_failed_executor_is_recorded_and_told() {
    let (mut s, _) = judged(true, None);
    let (_, action) = s.submit(SubmitEvent::ExecutorFailed(ExecutorError::Timeout(5)));
    match action {
        SubmitAction::Record(e) => {
            assert_eq!(e.event_type, "transition.rejected");
            assert_eq!(e.payload.str_at("code"), Some("EXECUTOR_FAILED"));
            assert_eq!(e.payload.str_at("errorClass"), Some("timeout"));
            assert_eq!(e.payload.str_at("message"), Some("timeout after 5 ms"));
        }
        other => panic!("{other:?}"),
    }
    match s.submit(SubmitEvent::Recorded).1 {
        SubmitAction::Respond(r) => {
            assert_eq!(r.status, "failed");
            assert_eq!(r.error.as_ref().and_then(|e| e.str_at("code")), Some("EXECUTOR_FAILED"));
        }
        other => panic!("{other:?}"),
    }
}

#[test]
fn loops_need_a_cap() {
    let (mut s, _) = requested("loop", "again", 0);
    s.submit(SubmitEvent::ArgumentsChecked(Ok(Value::object())));
    let all = GuardsOutcome { pass: true, evaluated: vec![], diagnostic: None };
    let (_, action) = s.submit(SubmitEvent::GuardsJudged(all));
    assert!(matches!(action, SubmitAction::Target));
    match s.submit(SubmitEvent::Targeted("b".into())).1 {
        SubmitAction::Fail(m) => assert!(m.starts_with("INVALID_STATE_CONFIG: state 'loop'"), "{m}"),
        other => panic!("{other:?}"),
    }
}

#[test]
fn a_cancelled_workflow_takes_no_transition() {
    let mut w = World::new();
    let i = w.start(STRICT).instance;
    let gone = cancel(&i, "why", NOW).unwrap();
    let request = SubmitTransition {
        workflow_id: "w".into(),
        expected_version: 1,
        transition: "go".into(),
        arguments: Value::object(),
        principal: Principal::anonymous(),
        summary: None,
        trace_id: None,
        run_id: None,
    };
    assert_eq!(
        Submission::begin(request, gone, "cor", "then").unwrap_err(),
        "WORKFLOW_CANCELLED: workflow w was cancelled at then (reason: why)"
    );
}

#[test]
fn a_definition_needs_an_initial_state() {
    let request = StartWorkflow {
        definition_id: "demo".into(),
        input: Value::object(),
        principal: Principal::anonymous(),
        trace_id: None,
        run_id: None,
    };
    let (mut s, action) = Starting::begin(request, "cor", false).unwrap();
    assert!(matches!(action, StartAction::Load));
    assert!(matches!(s.start(StartEvent::Loaded(Value::object())), StartAction::CheckInput));
    let ready = StartEvent::InputReady {
        input: Value::object(),
        workflow_id: "w".into(),
        now: NOW.into(),
    };
    assert!(matches!(s.start(ready), StartAction::NoInitialState));
}

#[test]
fn a_chain_needs_one_way() {
    let ways = r#"{
        "initialState": "a",
        "states": {
            "a": { "transitions": {
                "x": { "target": "b", "actor": "deterministic", "guards": [{ "kind": "role", "role": "r" }] },
                "y": { "target": "b", "actor": "deterministic", "guards": [{ "kind": "role", "role": "r" }] }
            } },
            "b": { "terminal": true }
        }
    }"#;
    let mut w = World::new();
    let r = w.start(ways);
    assert_eq!(r.status, "failed");
    assert_eq!(r.instance.state, "a");
    let e = r.error.unwrap();
    assert_eq!(e.str_at("errorClass"), Some("selection_error"));
    assert_eq!(
        e.str_at("message"),
        Some("ambiguous deterministic transition in state 'a': 2 of 2 candidates had passing guards; exactly one must be viable")
    );
    let mut w = World::new();
    w.guards_pass = false;
    let e = w.start(ways).error.unwrap();
    assert_eq!(
        e.str_at("message"),
        Some("no viable deterministic transition in state 'a': all 2 candidates had failing guards")
    );
    assert!(w.types().contains(&"chain.failed"));
}

#[test]
fn a_term_without_a_definition_stops_the_start() {
    let request = StartWorkflow {
        definition_id: "demo".into(),
        input: Value::object(),
        principal: Principal::anonymous(),
        trace_id: None,
        run_id: None,
    };
    let (mut s, _) = Starting::begin(request, "cor", false).unwrap();
    let definition = j(r#"{ "initialState": "a", "_lexiconLibrary": {
        "bar": { "state": "DEFINED" },
        "foo": { "state": "PENDING_DEFINITION", "bounded_context": "billing" }
    } }"#);
    assert!(matches!(s.start(StartEvent::Loaded(definition)), StartAction::CheckInput));
    let ready =
        StartEvent::InputReady { input: Value::object(), workflow_id: "w".into(), now: NOW.into() };
    match s.start(ready) {
        StartAction::Fail(RuntimeError::SubjectNeedsDefinition {
            unknown_subject,
            bounded_context,
            workflow_id_context,
        }) => {
            assert_eq!(unknown_subject, "foo");
            assert_eq!(bounded_context.as_deref(), Some("billing"));
            assert_eq!(workflow_id_context, "workflow:demo");
        }
        other => panic!("{other:?}"),
    }
    assert!(describe_guidance_for_workflow(None, "plan.a").is_none());
}

#[test]
fn a_submit_is_in_the_trace_that_it_asks_for() {
    let trace_of = |w: &World, event_type: &str| {
        w.events.iter().find(|e| e.event_type == event_type).unwrap().trace_id.clone()
    };
    let mut w = World::new();
    w.start(DEMO);
    let before = w.store.load("w").unwrap().trace_id;
    w.events.clear();
    w.trace = Some("replay".into());
    w.output = r#"{ "text": "hello" }"#.into();
    w.submit("write", 9, Principal::anonymous()).unwrap();
    assert_eq!(trace_of(&w, "transition.rejected").as_deref(), Some("replay"));
    w.submit("write", 0, Principal::anonymous()).unwrap();
    assert_eq!(trace_of(&w, "transition.requested").as_deref(), Some("replay"));
    assert_eq!(trace_of(&w, "workflow.transitioned").as_deref(), Some("replay"));
    assert_eq!(w.store.load("w").unwrap().trace_id, before);

    let mut w = World::new();
    w.start(DEMO);
    let mut own = w.store.load("w").unwrap();
    own.trace_id = Some("own".into());
    own.version = 1;
    w.store.save_if_version(own, 0).unwrap();
    w.events.clear();
    w.submit("write", 9, Principal::anonymous()).unwrap();
    assert_eq!(trace_of(&w, "transition.rejected").as_deref(), Some("own"));
    w.trace = Some("replay".into());
    w.events.clear();
    w.submit("write", 9, Principal::anonymous()).unwrap();
    assert_eq!(trace_of(&w, "transition.rejected").as_deref(), Some("replay"));
}

#[test]
fn the_steps_of_a_chain_are_one_way() {
    let row = r#"{
        "initialState": "a", "maxChainDepth": 3,
        "states": {
            "a": { "transitions": { "t": { "target": "b", "actor": "deterministic" } } },
            "b": { "transitions": { "t": { "target": "c", "actor": "deterministic" } } },
            "c": { "transitions": { "t": { "target": "d", "actor": "deterministic" } } },
            "d": { "transitions": { "t": { "target": "a", "actor": "deterministic" } } }
        }
    }"#;
    let mut w = World::new();
    let r = w.start(row);
    let way: Vec<(&str, &str, u64)> = r
        .steps
        .iter()
        .map(|s| (s.from_state.as_str(), s.to_state.as_str(), s.version))
        .collect();
    assert_eq!(way, vec![("a", "b", 1), ("b", "c", 2), ("c", "d", 3)]);
    assert_eq!((r.instance.state.as_str(), r.instance.version), ("d", 3));
}

#[test]
fn every_event_has_an_id() {
    let mut w = World::new();
    w.start(DEMO);
    w.output = r#"{ "text": "hello" }"#.into();
    w.submit("write", 0, Principal::anonymous()).unwrap();
    w.submit("write", 9, Principal::anonymous()).unwrap();
    w.events.push(cancelled_event(&w.store.load("w").unwrap(), "why"));
    for e in &w.events {
        assert!(e.id.starts_with("evt_"));
        assert_eq!(e.id.len(), 36);
    }
    let last = w.events.last().unwrap();
    assert!(last.correlation_id.starts_with("cor_"));
    assert_eq!(last.correlation_id.len(), 36);
}
