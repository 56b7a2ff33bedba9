//! The life of a workflow: starting it, reading it, cancelling it, and the record
//! of each transition.
//!
//! `Starting` decides the steps of a start. The caller performs each action and
//! reports back; an action that fails ends the start with that failure.
use crate::audit;
use crate::audit::{AuditEvent, AuditEventView};
use crate::error::{RuntimeError, RuntimeErrorView};
use crate::json;
use crate::json::{Json, Number, Value};
use crate::lexicon;
use crate::model;
use crate::model::{
    Evidence, EvidenceView, InstanceView, PrincipalView, StartWorkflow, WorkflowInstance,
};
use crate::reliability;
use crate::runtime_links;
use crate::runtime_response;
use crate::text;
use vstd::prelude::*;

verus! {

// ---------------------------------------------------------------------------
// Chains
// ---------------------------------------------------------------------------

/// One step of a deterministic chain.
#[derive(Debug)]
pub struct ChainStep {
    pub from_state: String,
    pub transition: String,
    pub to_state: String,
    pub version: u64,
}

/// A step as mathematical values.
pub struct ChainStepView {
    pub from_state: Seq<char>,
    pub transition: Seq<char>,
    pub to_state: Seq<char>,
    pub version: u64,
}

impl View for ChainStep {
    type V = ChainStepView;

    open spec fn view(&self) -> ChainStepView {
        ChainStepView {
            from_state: self.from_state@,
            transition: self.transition@,
            to_state: self.to_state@,
            version: self.version,
        }
    }
}

/// The steps, in order.
pub open spec fn step_views(s: Seq<ChainStep>) -> Seq<ChainStepView> {
    Seq::new(s.len(), |i: int| s[i]@)
}

impl ChainStepView {
    /// The step as a value.
    pub open spec fn value(self) -> Json {
        Json::empty().with("fromState"@, Json::String(self.from_state)).with(
            "transition"@,
            Json::String(self.transition),
        ).with("toState"@, Json::String(self.to_state)).with(
            "version"@,
            Json::Number(Number::PosInt(self.version)),
        )
    }
}

impl ChainStep {
    /// The step as a value.
    pub fn to_value(&self) -> (r: Value)
        ensures
            r@ == self@.value(),
    {
        Value::object().and("fromState", Value::text(self.from_state.as_str())).and(
            "transition",
            Value::text(self.transition.as_str()),
        ).and("toState", Value::text(self.to_state.as_str())).and(
            "version",
            Value::uint(self.version),
        )
    }
}

/// What a deterministic chain has come to.
#[derive(Debug)]
pub struct ChainResult {
    pub instance: WorkflowInstance,
    pub steps: Vec<ChainStep>,
    pub evidence: Vec<Evidence>,
}

/// A result as mathematical values.
pub struct ChainResultView {
    pub instance: InstanceView,
    pub steps: Seq<ChainStepView>,
    pub evidence: Seq<EvidenceView>,
}

impl View for ChainResult {
    type V = ChainResultView;

    open spec fn view(&self) -> ChainResultView {
        ChainResultView {
            instance: self.instance@,
            steps: step_views(self.steps@),
            evidence: model::evidence_views(self.evidence@),
        }
    }
}

/// The outcome of a deterministic chain.
#[derive(Debug)]
pub enum ChainOutcome {
    /// It reached a decision point, a terminal state or the depth limit.
    Completed(ChainResult),
    /// An executor failed, or no transition could be selected.
    Failed {
        partial: ChainResult,
        error: String,
        error_class: String,
        failed_transition: String,
    },
}

/// An outcome as mathematical values.
pub enum ChainOutcomeView {
    Completed(ChainResultView),
    Failed {
        partial: ChainResultView,
        error: Seq<char>,
        error_class: Seq<char>,
        failed_transition: Seq<char>,
    },
}

impl View for ChainOutcome {
    type V = ChainOutcomeView;

    open spec fn view(&self) -> ChainOutcomeView {
        match self {
            ChainOutcome::Completed(r) => ChainOutcomeView::Completed(r@),
            ChainOutcome::Failed { partial, error, error_class, failed_transition } => {
                ChainOutcomeView::Failed {
                    partial: partial@,
                    error: error@,
                    error_class: error_class@,
                    failed_transition: failed_transition@,
                }
            },
        }
    }
}

/// The number of steps that a chain may take.
pub open spec fn chain_limit(definition: Json) -> u64 {
    match definition.u64_at("maxChainDepth"@) {
        Some(n) => n,
        None => 50,
    }
}

/// The number of steps that a chain may take.
pub fn max_chain_depth(definition: &Value) -> (r: u64)
    ensures
        r == chain_limit(definition@),
{
    match definition.u64_at("maxChainDepth") {
        Some(n) => n,
        None => 50,
    }
}

// ---------------------------------------------------------------------------
// Replies
// ---------------------------------------------------------------------------

/// What a request is answered with, before the response body is built: the
/// instance, the status and error, and what a chain added.
#[derive(Debug)]
pub struct Reply {
    pub instance: WorkflowInstance,
    pub status: String,
    pub error: Option<Value>,
    pub evidence: Vec<Evidence>,
    pub steps: Vec<ChainStep>,
    pub failed_transition: Option<String>,
}

/// A reply as mathematical values.
pub struct ReplyView {
    pub instance: InstanceView,
    pub status: Seq<char>,
    pub error: Option<Json>,
    pub evidence: Seq<EvidenceView>,
    pub steps: Seq<ChainStepView>,
    pub failed_transition: Option<Seq<char>>,
}

impl View for Reply {
    type V = ReplyView;

    open spec fn view(&self) -> ReplyView {
        ReplyView {
            instance: self.instance@,
            status: self.status@,
            error: json::opt_owned_view(self.error),
            evidence: model::evidence_views(self.evidence@),
            steps: step_views(self.steps@),
            failed_transition: text::opt_text(self.failed_transition),
        }
    }
}

/// A reply with nothing that a chain added.
pub open spec fn plain_reply(instance: InstanceView, status: Seq<char>, error: Option<Json>) -> ReplyView {
    ReplyView {
        instance,
        status,
        error,
        evidence: Seq::empty(),
        steps: Seq::empty(),
        failed_transition: None,
    }
}

/// A reply with nothing that a chain added.
pub fn reply_plainly(instance: WorkflowInstance, status: &str, error: Option<Value>) -> (r: Reply)
    ensures
        r@ == plain_reply(instance@, status@, json::opt_owned_view(error)),
{
    let r = Reply {
        instance,
        status: status.to_owned(),
        error,
        evidence: Vec::new(),
        steps: Vec::new(),
        failed_transition: None,
    };
    assert(r@.evidence =~= Seq::empty());
    assert(r@.steps =~= Seq::empty());
    r
}

/// The error of a chain that failed.
pub open spec fn chain_error(
    error: Seq<char>,
    error_class: Seq<char>,
    failed_transition: Seq<char>,
) -> Json {
    Json::empty().with("code"@, Json::String("CHAIN_FAILED"@)).with(
        "message"@,
        Json::String(error),
    ).with("errorClass"@, Json::String(error_class)).with(
        "attemptedTransition"@,
        Json::String(failed_transition),
    )
}

/// The reply to a request that ended in a chain. `earlier` is the evidence from
/// before the chain.
pub open spec fn reply_after_chain(
    outcome: ChainOutcomeView,
    status: Seq<char>,
    earlier: Seq<EvidenceView>,
) -> ReplyView {
    match outcome {
        ChainOutcomeView::Completed(r) => ReplyView {
            instance: r.instance,
            status,
            error: None,
            evidence: earlier + r.evidence,
            steps: r.steps,
            failed_transition: None,
        },
        ChainOutcomeView::Failed { partial, error, error_class, failed_transition } => ReplyView {
            instance: partial.instance,
            status: "failed"@,
            error: Some(chain_error(error, error_class, failed_transition)),
            evidence: earlier + partial.evidence,
            steps: partial.steps,
            failed_transition: if failed_transition.len() > 0 {
                Some(failed_transition)
            } else {
                None
            },
        },
    }
}

/// The reply to a request that ended in a chain.
pub fn reply_with_chain(outcome: ChainOutcome, status: &str, earlier: &Vec<Evidence>) -> (r: Reply)
    ensures
        r@ == reply_after_chain(outcome@, status@, model::evidence_views(earlier@)),
{
    let mut evidence = model::copy_evidence(earlier);
    match outcome {
        ChainOutcome::Completed(result) => {
            model::append_evidence(&mut evidence, &result.evidence);
            Reply {
                instance: result.instance,
                status: status.to_owned(),
                error: None,
                evidence,
                steps: result.steps,
                failed_transition: None,
            }
        },
        ChainOutcome::Failed { partial, error, error_class, failed_transition } => {
            model::append_evidence(&mut evidence, &partial.evidence);
            let err = Value::object().and("code", Value::text("CHAIN_FAILED")).and(
                "message",
                Value::text(error.as_str()),
            ).and("errorClass", Value::text(error_class.as_str())).and(
                "attemptedTransition",
                Value::text(failed_transition.as_str()),
            );
            let failed = if text::str_eq(
                failed_transition.as_str(),
                runtime_response::no_text(),
            ) {
                assert(failed_transition@.len() == 0);
                None
            } else {
                assert(failed_transition@.len() > 0) by {
                    if failed_transition@.len() == 0 {
                        assert(failed_transition@ =~= Seq::empty());
                    }
                }
                Some(failed_transition)
            };
            Reply {
                instance: partial.instance,
                status: "failed".to_owned(),
                error: Some(err),
                evidence,
                steps: partial.steps,
                failed_transition: failed,
            }
        },
    }
}

/// The values of the steps.
pub open spec fn step_values(s: Seq<ChainStepView>) -> Seq<Json> {
    Seq::new(s.len(), |i: int| s[i].value())
}

fn steps_to_values(steps: &Vec<ChainStep>) -> (r: Vec<Value>)
    ensures
        json::views(r@) == step_values(step_views(steps@)),
{
    let ghost all = step_values(step_views(steps@));
    let mut out: Vec<Value> = Vec::new();
    let mut i: usize = 0;
    while i < steps.len()
        invariant
            i <= steps.len(),
            all == step_values(step_views(steps@)),
            json::views(out@) == all.take(i as int),
        decreases steps.len() - i,
    {
        let v = steps[i].to_value();
        proof {
            json::lemma_views_push(out@, v);
        }
        out.push(v);
        i = i + 1;
    }
    assert(all.take(i as int) =~= all);
    out
}

/// The link by which a failed deterministic transition can be tried again.
pub open spec fn recovery_link(
    transition: Json,
    failed: Seq<char>,
    instance: InstanceView,
) -> Json {
    Json::empty().with("rel"@, Json::String(failed)).with(
        "title"@,
        Json::String(runtime_links::str_else(transition, "title"@, failed)),
    ).with("description"@, runtime_links::get_or_null(transition, "description"@)).with(
        "method"@,
        Json::String("flowgate.command"@),
    ).with("actor"@, Json::String("deterministic"@)).with(
        "args"@,
        runtime_links::link_args(failed, instance),
    ).with("inputSchema"@, runtime_links::empty_schema())
}

/// A body with a link added, where it has links.
pub open spec fn with_link(body: Json, link: Json) -> Json {
    match body.array_at("links"@) {
        Some(links) => body.with("links"@, Json::Array(links.push(link))),
        None => body,
    }
}

/// The response: the body with the evidence, the chain and the recovery link of
/// the reply. `evidence` holds the values of the reply's evidence.
pub open spec fn finished(
    definition: Json,
    reply: ReplyView,
    body: Json,
    evidence: Seq<Json>,
) -> Json {
    let a = if evidence.len() > 0 {
        body.with("evidence"@, Json::Array(evidence))
    } else {
        body
    };
    let b = if reply.steps.len() > 0 {
        a.with("chain"@, Json::Array(step_values(reply.steps)))
    } else {
        a
    };
    match reply.failed_transition {
        Some(failed) => match runtime_links::transition_of(
            definition,
            reply.instance.state,
            failed,
        ) {
            Some(t) => with_link(b, recovery_link(t, failed, reply.instance)),
            None => b,
        },
        None => b,
    }
}

/// The response: the body with the evidence, the chain and the recovery link of
/// the reply.
pub fn finish_response(
    definition: &Value,
    reply: &Reply,
    body: Value,
    evidence: Vec<Value>,
) -> (r: Value)
    ensures
        r@ == finished(definition@, reply@, body@, json::views(evidence@)),
{
    let mut out = body;
    if evidence.len() > 0 {
        out.set("evidence", Value::Array(evidence));
    }
    if reply.steps.len() > 0 {
        let chain = steps_to_values(&reply.steps);
        out.set("chain", Value::Array(chain));
    }
    if let Some(failed) = &reply.failed_transition {
        if let Some(t) = runtime_links::transition_definition(
            definition,
            reply.instance.state.as_str(),
            failed.as_str(),
        ) {
            let link = Value::object().and("rel", Value::text(failed.as_str())).and(
                "title",
                Value::text(
                    runtime_links::str_or_default(t, "title", failed.as_str()),
                ),
            ).and("description", runtime_links::get_or_null_of(t, "description")).and(
                "method",
                Value::text("flowgate.command"),
            ).and("actor", Value::text("deterministic")).and(
                "args",
                runtime_links::link_arguments(failed.as_str(), &reply.instance),
            ).and("inputSchema", runtime_links::empty_object_schema());
            let links: Option<Vec<Value>> = match out.array_at("links") {
                Some(links) => {
                    let mut v = reliability::copy_values(links);
                    proof {
                        json::lemma_views_push(v@, link);
                    }
                    v.push(link);
                    Some(v)
                },
                None => None,
            };
            if let Some(v) = links {
                out.set("links", Value::Array(v));
            }
        }
    }
    out
}

// ---------------------------------------------------------------------------
// Transition records
// ---------------------------------------------------------------------------

/// Everything that the record of one applied transition is made from. The
/// instance is the one that is about to be committed.
#[derive(Debug)]
pub struct TransitionRecordParams<'a> {
    pub instance: &'a WorkflowInstance,
    pub from_state: &'a str,
    pub transition_name: &'a str,
    pub transition_def: &'a Value,
    pub actor: &'a str,
    pub principal: Option<&'a str>,
    pub arguments: &'a Value,
    pub blackboard_delta: &'a Value,
    pub guard_results: &'a Vec<Value>,
    pub child_workflow_id: Option<&'a str>,
    /// Whether the executor succeeded and how many milliseconds it took, when it
    /// ran.
    pub executor_outcome: Option<(bool, u64)>,
    pub correlation_id: &'a str,
    pub timestamp: &'a str,
}

/// The parameters as mathematical values.
pub struct RecordView {
    pub instance: InstanceView,
    pub from_state: Seq<char>,
    pub transition_name: Seq<char>,
    pub transition_def: Json,
    pub actor: Seq<char>,
    pub principal: Option<Seq<char>>,
    pub arguments: Json,
    pub blackboard_delta: Json,
    pub guard_results: Seq<Json>,
    pub child_workflow_id: Option<Seq<char>>,
    pub executor_outcome: Option<(bool, u64)>,
    pub correlation_id: Seq<char>,
    pub timestamp: Seq<char>,
}

impl<'a> View for TransitionRecordParams<'a> {
    type V = RecordView;

    open spec fn view(&self) -> RecordView {
        RecordView {
            instance: self.instance@,
            from_state: self.from_state@,
            transition_name: self.transition_name@,
            transition_def: self.transition_def@,
            actor: self.actor@,
            principal: text::opt_str(self.principal),
            arguments: self.arguments@,
            blackboard_delta: self.blackboard_delta@,
            guard_results: json::views(self.guard_results@),
            child_workflow_id: text::opt_str(self.child_workflow_id),
            executor_outcome: self.executor_outcome,
            correlation_id: self.correlation_id@,
            timestamp: self.timestamp@,
        }
    }
}

/// The hash under which a script stands in the library of a workflow snapshot.
pub open spec fn script_hash(definition: Json, subject: Seq<char>) -> Option<Seq<char>> {
    match definition.get("_scriptsLibrary"@) {
        Some(library) => match library.step(subject) {
            Some(entry) => entry.str_at("hash"@),
            None => None,
        },
        None => None,
    }
}

fn script_hash_of<'a>(definition: &'a Value, subject: &str) -> (r: Option<&'a str>)
    ensures
        text::opt_str(r) == script_hash(definition@, subject@),
{
    match definition.get("_scriptsLibrary") {
        Some(library) => match library.step(subject) {
            Some(entry) => entry.str_at("hash"),
            None => None,
        },
        None => None,
    }
}

/// What a record says of the executor: its kind, how it ended when it ran, and
/// for a script which bytes ran.
pub open spec fn executor_part(r: RecordView) -> Option<Json> {
    match r.transition_def.get("executor"@) {
        Some(config) => match config.str_at("kind"@) {
            Some(kind) => {
                let a = Json::empty().with("kind"@, Json::String(kind));
                let b = match r.executor_outcome {
                    Some((ok, ms)) => a.with("ok"@, Json::Bool(ok)).with(
                        "durationMs"@,
                        Json::Number(Number::PosInt(ms)),
                    ),
                    None => a,
                };
                Some(
                    if kind == "script"@ {
                        match config.str_at("subject"@) {
                            Some(subject) => runtime_response::with_opt(
                                b.with("subject"@, Json::String(subject)),
                                "hash"@,
                                runtime_response::some_text(
                                    script_hash(r.instance.definition, subject),
                                ),
                            ),
                            None => b,
                        }
                    } else {
                        b
                    },
                )
            },
            None => None,
        },
        None => None,
    }
}

/// What the record of a transition says.
pub open spec fn record_payload(r: RecordView) -> Json {
    runtime_response::with_opt(
        runtime_response::with_opt(
            Json::empty().with("workflowId"@, Json::String(r.instance.id)).with(
                "definitionId"@,
                Json::String(r.instance.definition_id),
            ).with("definitionVersion"@, Json::String(r.instance.definition_version)).with(
                "seq"@,
                Json::Number(Number::PosInt(r.instance.version)),
            ).with("timestamp"@, Json::String(r.timestamp)).with(
                "fromState"@,
                Json::String(r.from_state),
            ).with("toState"@, Json::String(r.instance.state)).with(
                "transition"@,
                Json::String(r.transition_name),
            ).with("actor"@, Json::String(r.actor)).with(
                "principal"@,
                reliability::text_or_null(r.principal),
            ).with("guards"@, Json::Array(r.guard_results)).with("arguments"@, r.arguments).with(
                "blackboardDelta"@,
                r.blackboard_delta,
            ).with("childWorkflowId"@, reliability::text_or_null(r.child_workflow_id)).with(
                "correlationId"@,
                Json::String(r.correlation_id),
            ),
            "executor"@,
            executor_part(r),
        ),
        "purpose"@,
        runtime_response::some_text(r.transition_def.str_at("purpose"@)),
    )
}

/// The event type of a record: a lightweight transition is an interaction and no
/// change of state.
pub open spec fn record_type(transition: Json) -> Seq<char> {
    if transition.bool_at("lightweight"@) == Some(true) {
        "workflow.interaction"@
    } else {
        "workflow.transition"@
    }
}

/// The record of one applied transition.
pub open spec fn transition_record(r: RecordView) -> AuditEventView {
    r.instance.event(
        record_type(r.transition_def),
        r.correlation_id,
        r.principal,
        record_payload(r),
    )
}

fn executor_descriptor(params: &TransitionRecordParams<'_>) -> (r: Option<Value>)
    ensures
        json::opt_owned_view(r) == executor_part(params@),
{
    let config = match params.transition_def.get("executor") {
        Some(c) => c,
        None => {
            return None;
        },
    };
    let kind = match config.str_at("kind") {
        Some(k) => k,
        None => {
            return None;
        },
    };
    let mut desc = Value::object().and("kind", Value::text(kind));
    if let Some((ok, ms)) = params.executor_outcome {
        desc.set("ok", Value::Bool(ok));
        desc.set("durationMs", Value::uint(ms));
    }
    if text::str_eq(kind, "script") {
        if let Some(subject) = config.str_at("subject") {
            desc.set("subject", Value::text(subject));
            if let Some(hash) = script_hash_of(&params.instance.definition, subject) {
                desc.set("hash", Value::text(hash));
            }
        }
    }
    Some(desc)
}

/// The record of one applied transition, which is written before the instance is
/// committed.
pub fn emit_transition_record(params: &TransitionRecordParams<'_>) -> (r: AuditEvent)
    ensures
        r@ == transition_record(params@),
        audit::is_event_id(r.id@),
{
    let executor = executor_descriptor(params);
    let guards = reliability::copy_values(params.guard_results);
    let mut record = Value::object().and("workflowId", Value::text(params.instance.id.as_str())).and(
        "definitionId",
        Value::text(params.instance.definition_id.as_str()),
    ).and("definitionVersion", Value::text(params.instance.definition_version.as_str())).and(
        "seq",
        Value::uint(params.instance.version),
    ).and("timestamp", Value::text(params.timestamp)).and(
        "fromState",
        Value::text(params.from_state),
    ).and("toState", Value::text(params.instance.state.as_str())).and(
        "transition",
        Value::text(params.transition_name),
    ).and("actor", Value::text(params.actor)).and(
        "principal",
        reliability::text_or_null_of(params.principal),
    ).and("guards", Value::Array(guards)).and("arguments", params.arguments.dup()).and(
        "blackboardDelta",
        params.blackboard_delta.dup(),
    ).and("childWorkflowId", reliability::text_or_null_of(params.child_workflow_id)).and(
        "correlationId",
        Value::text(params.correlation_id),
    );
    if let Some(e) = executor {
        record.set("executor", e);
    }
    if let Some(p) = params.transition_def.str_at("purpose") {
        record.set("purpose", Value::text(p));
    }
    let lightweight = match params.transition_def.bool_at("lightweight") {
        Some(b) => b,
        None => false,
    };
    let event_type = if lightweight {
        "workflow.interaction"
    } else {
        "workflow.transition"
    };
    params.instance.event(event_type, params.correlation_id, params.principal, record)
}

/// The failure of a transition whose record could not be written.
pub fn record_write_failed(instance: &WorkflowInstance, source: &str) -> (r: RuntimeError)
    ensures
        r matches RuntimeError::RecordWriteFailed { workflow_id, seq, source: s } && workflow_id@
            == instance@.id && seq == instance@.version && s@ == source@,
{
    RuntimeError::RecordWriteFailed {
        workflow_id: instance.id.clone(),
        seq: instance.version,
        source: source.to_owned(),
    }
}

// ---------------------------------------------------------------------------
// Starting
// ---------------------------------------------------------------------------

/// Where a start stands.
#[derive(Debug, Clone, Copy, PartialEq, Eq, Structural)]
pub enum StartPhase {
    /// The store is asked for a workflow with the same run id.
    Searching,
    /// The definition is being loaded.
    Loading,
    /// The input is being completed and checked.
    Checking,
    /// The instance is being created.
    Creating,
    /// The start is being recorded.
    Announcing,
    /// The entry action of the initial state is running.
    Entering,
    /// The deterministic chain is running.
    Chaining,
    /// The completion is being recorded.
    Completing,
    /// There is nothing more to do.
    Finished,
}

/// A start under way.
#[derive(Debug)]
pub struct Starting {
    pub request: StartWorkflow,
    pub correlation_id: String,
    pub definition: Value,
    pub reply: Option<Reply>,
    pub phase: StartPhase,
}

/// A start as mathematical values.
pub struct StartingView {
    pub definition_id: Seq<char>,
    pub input: Json,
    pub principal: PrincipalView,
    pub trace_id: Option<Seq<char>>,
    pub run_id: Option<Seq<char>>,
    pub correlation_id: Seq<char>,
    pub definition: Json,
    pub reply: Option<ReplyView>,
    pub phase: StartPhase,
}

impl View for Starting {
    type V = StartingView;

    open spec fn view(&self) -> StartingView {
        StartingView {
            definition_id: self.request.definition_id@,
            input: self.request.input@,
            principal: self.request.principal@,
            trace_id: text::opt_text(self.request.trace_id),
            run_id: text::opt_text(self.request.run_id),
            correlation_id: self.correlation_id@,
            definition: self.definition@,
            reply: match self.reply {
                Some(r) => Some(r@),
                None => None,
            },
            phase: self.phase,
        }
    }
}

/// What happened since the last decision.
#[derive(Debug)]
pub enum StartEvent {
    /// The workflow that has the same run id, if any.
    RunFound(Option<String>),
    /// The definition.
    Loaded(Value),
    /// The input with its defaults, found valid; with a fresh workflow id and the
    /// current time.
    InputReady { input: Value, workflow_id: String, now: String },
    /// The instance as the store created it.
    Created(WorkflowInstance),
    /// The audit event was recorded.
    Recorded,
    /// The instance after the entry action.
    Entered(WorkflowInstance),
    /// The outcome of the chain.
    Chained(ChainOutcome),
}

/// What to do next.
#[derive(Debug)]
pub enum StartAction {
    /// Ask the store for a workflow with this run id.
    FindRun(String),
    /// Load the definition.
    Load,
    /// Complete the input with the defaults of the definition's `inputSchema` and
    /// check it.
    CheckInput,
    /// Create the instance.
    Create(WorkflowInstance),
    /// Watch for the timeout, if there is one, and record the event; a failure to
    /// record ends the start.
    Announce { watchdog: Option<u64>, event: AuditEvent },
    /// Run the entry action of the instance's state.
    Enter(WorkflowInstance),
    /// Run the deterministic chain, with the given number of steps at most.
    Chain { instance: WorkflowInstance, max_depth: u64 },
    /// Record the event; a failure to record ends the start.
    Record(AuditEvent),
    /// Answer the request.
    Respond(Reply),
    /// End with an error.
    Fail(RuntimeError),
    /// End with an error: the definition names no initial state.
    NoInitialState,
    /// The event does not fit where the start stands.
    Ignore,
}

impl StartAction {
    /// The audit event of the action has an id of its own form.
    pub open spec fn named(self) -> bool {
        match self {
            StartAction::Announce { event, .. } => audit::is_event_id(event.id@),
            StartAction::Record(event) => audit::is_event_id(event.id@),
            _ => true,
        }
    }
}

/// An action as mathematical values.
pub enum StartActionView {
    FindRun(Seq<char>),
    Load,
    CheckInput,
    Create(InstanceView),
    Announce { watchdog: Option<u64>, event: AuditEventView },
    Enter(InstanceView),
    Chain { instance: InstanceView, max_depth: u64 },
    Record(AuditEventView),
    Respond(ReplyView),
    Fail(RuntimeErrorView),
    NoInitialState,
    Ignore,
}

impl View for StartAction {
    type V = StartActionView;

    open spec fn view(&self) -> StartActionView {
        match self {
            StartAction::FindRun(s) => StartActionView::FindRun(s@),
            StartAction::Load => StartActionView::Load,
            StartAction::CheckInput => StartActionView::CheckInput,
            StartAction::Create(i) => StartActionView::Create(i@),
            StartAction::Announce { watchdog, event } => StartActionView::Announce {
                watchdog: *watchdog,
                event: event@,
            },
            StartAction::Enter(i) => StartActionView::Enter(i@),
            StartAction::Chain { instance, max_depth } => StartActionView::Chain {
                instance: instance@,
                max_depth: *max_depth,
            },
            StartAction::Record(e) => StartActionView::Record(e@),
            StartAction::Respond(r) => StartActionView::Respond(r@),
            StartAction::Fail(e) => StartActionView::Fail(e@),
            StartAction::NoInitialState => StartActionView::NoInitialState,
            StartAction::Ignore => StartActionView::Ignore,
        }
    }
}

/// The instance that a start creates.
pub open spec fn new_instance(
    s: StartingView,
    input: Json,
    workflow_id: Seq<char>,
    now: Seq<char>,
    initial_state: Seq<char>,
) -> InstanceView {
    InstanceView {
        id: workflow_id,
        definition_id: s.definition_id,
        definition_version: runtime_links::str_else(s.definition, "version"@, "0"@),
        definition: s.definition,
        state: initial_state,
        version: 0,
        input,
        context: match s.definition.get("initialContext"@) {
            Some(c) => c,
            None => Json::empty(),
        },
        started_at: now,
        trace_id: s.trace_id,
        run_id: s.run_id,
        cancelled_at: None,
        cancelled_reason: None,
    }
}

/// The audit event that a workflow has started.
pub open spec fn started_event(s: StartingView, instance: InstanceView) -> AuditEventView {
    instance.event(
        "workflow.started"@,
        s.correlation_id,
        Some(s.principal.subject),
        Json::empty().with("definitionId"@, Json::String(instance.definition_id)).with(
            "state"@,
            Json::String(instance.state),
        ).with("version"@, Json::Number(Number::PosInt(instance.version))),
    )
}

/// The audit event that a workflow has come to its end.
pub open spec fn completed_event(instance: InstanceView, correlation_id: Seq<char>) -> AuditEventView {
    instance.event(
        "workflow.completed"@,
        correlation_id,
        None,
        Json::empty().with("state"@, Json::String(instance.state)),
    )
}

/// The audit event that a workflow has come to its end.
pub fn completed_event_for(instance: &WorkflowInstance, correlation_id: &str) -> (r: AuditEvent)
    ensures
        r@ == completed_event(instance@, correlation_id@),
        audit::is_event_id(r.id@),
{
    let payload = Value::object().and("state", Value::text(instance.state.as_str()));
    instance.event("workflow.completed", correlation_id, None, payload)
}

impl StartingView {
    /// Ends with an action.
    pub open spec fn ending(self, action: StartActionView) -> (StartingView, StartActionView) {
        (StartingView { phase: StartPhase::Finished, ..self }, action)
    }

    /// The error of a start whose definition speaks of a term that has no definition.
    pub open spec fn needs_definition(self, term: Seq<char>, entry: Json) -> RuntimeErrorView {
        RuntimeErrorView::SubjectNeedsDefinition {
            unknown_subject: term,
            bounded_context: entry.str_at("bounded_context"@),
            workflow_id_context: "workflow:"@ + self.definition_id,
        }
    }

    /// The chain has ended: a workflow in a terminal state is recorded as
    /// completed before the answer.
    pub open spec fn after_chain(self, outcome: ChainOutcomeView) -> (
        StartingView,
        StartActionView,
    ) {
        let reply = reply_after_chain(outcome, "started"@, Seq::empty());
        if outcome is Completed && runtime_links::terminal(
            self.definition,
            reply.instance.state,
        ) {
            (
                StartingView { reply: Some(reply), phase: StartPhase::Completing, ..self },
                StartActionView::Record(completed_event(reply.instance, self.correlation_id)),
            )
        } else {
            self.ending(StartActionView::Respond(reply))
        }
    }

    /// What follows an event: the start after it, and what to do next.
    pub open spec fn next(self, event: StartEvent) -> (StartingView, StartActionView) {
        match (self.phase, event) {
            (StartPhase::Searching, StartEvent::RunFound(found)) => match (found, self.run_id) {
                (Some(existing), Some(run_id)) => self.ending(
                    StartActionView::Fail(
                        RuntimeErrorView::RunIdAlreadyRunning {
                            run_id,
                            existing_workflow_id: existing@,
                        },
                    ),
                ),
                _ => (
                    StartingView { phase: StartPhase::Loading, ..self },
                    StartActionView::Load,
                ),
            },
            (StartPhase::Loading, StartEvent::Loaded(definition)) => (
                StartingView {
                    definition: definition@,
                    phase: StartPhase::Checking,
                    ..self
                },
                StartActionView::CheckInput,
            ),
            (
                StartPhase::Checking,
                StartEvent::InputReady { input, workflow_id, now },
            ) => match lexicon::undefined_term(self.definition) {
                Some((term, entry)) => self.ending(
                    StartActionView::Fail(self.needs_definition(term, entry)),
                ),
                None => match self.definition.str_at("initialState"@) {
                    Some(state) => (
                        StartingView { phase: StartPhase::Creating, ..self },
                        StartActionView::Create(
                            new_instance(self, input@, workflow_id@, now@, state),
                        ),
                    ),
                    None => self.ending(StartActionView::NoInitialState),
                },
            },
            (StartPhase::Creating, StartEvent::Created(instance)) => (
                StartingView {
                    phase: StartPhase::Announcing,
                    reply: Some(plain_reply(instance@, "started"@, None)),
                    ..self
                },
                StartActionView::Announce {
                    watchdog: self.definition.u64_at("timeoutMs"@),
                    event: started_event(self, instance@),
                },
            ),
            (StartPhase::Announcing, StartEvent::Recorded) => match self.reply {
                Some(r) => (
                    StartingView { phase: StartPhase::Entering, ..self },
                    StartActionView::Enter(r.instance),
                ),
                None => (self, StartActionView::Ignore),
            },
            (StartPhase::Entering, StartEvent::Entered(instance)) => (
                StartingView { phase: StartPhase::Chaining, ..self },
                StartActionView::Chain {
                    instance: instance@,
                    max_depth: chain_limit(self.definition),
                },
            ),
            (StartPhase::Chaining, StartEvent::Chained(outcome)) => self.after_chain(outcome@),
            (StartPhase::Completing, StartEvent::Recorded) => match self.reply {
                Some(r) => self.ending(StartActionView::Respond(r)),
                None => (self, StartActionView::Ignore),
            },
            _ => (self, StartActionView::Ignore),
        }
    }
}

/// What a gateway that is shutting down says.
pub open spec fn draining_message() -> Seq<char> {
    "gateway is shutting down; please retry shortly"@
}

impl Starting {
    /// Begins a start; a gateway that is shutting down starts nothing. A run id
    /// is looked up before the definition is loaded.
    pub fn begin(request: StartWorkflow, correlation_id: &str, draining: bool) -> (r: Result<
        (Starting, StartAction),
        String,
    >)
        ensures
            match r {
                Err(m) => draining && m@ == draining_message(),
                Ok((s, action)) => {
                    &&& !draining
                    &&& s@ == (StartingView {
                        definition_id: request.definition_id@,
                        input: request.input@,
                        principal: request.principal@,
                        trace_id: text::opt_text(request.trace_id),
                        run_id: text::opt_text(request.run_id),
                        correlation_id: correlation_id@,
                        definition: Json::Null,
                        reply: None,
                        phase: if request.run_id is Some {
                            StartPhase::Searching
                        } else {
                            StartPhase::Loading
                        },
                    })
                    &&& action@ == match text::opt_text(request.run_id) {
                        Some(run_id) => StartActionView::FindRun(run_id),
                        None => StartActionView::Load,
                    }
                },
            },
    {
        if draining {
            return Err("gateway is shutting down; please retry shortly".to_owned());
        }
        let action = match &request.run_id {
            Some(id) => StartAction::FindRun(id.clone()),
            None => StartAction::Load,
        };
        let phase = match &request.run_id {
            Some(_) => StartPhase::Searching,
            None => StartPhase::Loading,
        };
        let s = Starting {
            request,
            correlation_id: correlation_id.to_owned(),
            definition: Value::Null,
            reply: None,
            phase,
        };
        Ok((s, action))
    }

    /// Decides what follows an event.
    pub fn start(&mut self, event: StartEvent) -> (r: StartAction)
        ensures
            (final(self)@, r@) == old(self)@.next(event),
            r.named(),
    {
        match (self.phase, event) {
            (StartPhase::Searching, StartEvent::RunFound(found)) => {
                match (found, &self.request.run_id) {
                    (Some(existing_workflow_id), Some(run_id)) => {
                        let run_id = run_id.clone();
                        self.phase = StartPhase::Finished;
                        StartAction::Fail(
                            RuntimeError::RunIdAlreadyRunning { run_id, existing_workflow_id },
                        )
                    },
                    _ => {
                        self.phase = StartPhase::Loading;
                        StartAction::Load
                    },
                }
            },
            (StartPhase::Loading, StartEvent::Loaded(definition)) => {
                self.definition = definition;
                self.phase = StartPhase::Checking;
                StartAction::CheckInput
            },
            (StartPhase::Checking, StartEvent::InputReady { input, workflow_id, now }) => {
                if let Some((term, ctx)) = lexicon::find_undefined_term(&self.definition) {
                    self.phase = StartPhase::Finished;
                    return StartAction::Fail(
                        RuntimeError::SubjectNeedsDefinition {
                            unknown_subject: term,
                            bounded_context: ctx,
                            workflow_id_context: text::join2(
                                "workflow:",
                                self.request.definition_id.as_str(),
                            ),
                        },
                    );
                }
                let state = match self.definition.str_at("initialState") {
                    Some(s) => s.to_owned(),
                    None => {
                        self.phase = StartPhase::Finished;
                        return StartAction::NoInitialState;
                    },
                };
                let version = runtime_links::str_or_default(&self.definition, "version", "0");
                let context = match self.definition.get("initialContext") {
                    Some(c) => c.dup(),
                    None => Value::object(),
                };
                let instance = WorkflowInstance {
                    id: workflow_id,
                    definition_id: self.request.definition_id.clone(),
                    definition_version: version.to_owned(),
                    definition: self.definition.dup(),
                    state,
                    version: 0,
                    input,
                    context,
                    started_at: now,
                    trace_id: text::opt_copy(&self.request.trace_id),
                    run_id: text::opt_copy(&self.request.run_id),
                    cancelled_at: None,
                    cancelled_reason: None,
                };
                self.phase = StartPhase::Creating;
                StartAction::Create(instance)
            },
            (StartPhase::Creating, StartEvent::Created(instance)) => {
                let payload = Value::object().and(
                    "definitionId",
                    Value::text(instance.definition_id.as_str()),
                ).and("state", Value::text(instance.state.as_str())).and(
                    "version",
                    Value::uint(instance.version),
                );
                let event = instance.event(
                    "workflow.started",
                    self.correlation_id.as_str(),
                    Some(self.request.principal.subject.as_str()),
                    payload,
                );
                let watchdog = self.definition.u64_at("timeoutMs");
                self.reply = Some(reply_plainly(instance, "started", None));
                self.phase = StartPhase::Announcing;
                StartAction::Announce { watchdog, event }
            },
            (StartPhase::Announcing, StartEvent::Recorded) => match &self.reply {
                Some(r) => {
                    let instance = r.instance.dup();
                    self.phase = StartPhase::Entering;
                    StartAction::Enter(instance)
                },
                None => StartAction::Ignore,
            },
            (StartPhase::Entering, StartEvent::Entered(instance)) => {
                self.phase = StartPhase::Chaining;
                StartAction::Chain { instance, max_depth: max_chain_depth(&self.definition) }
            },
            (StartPhase::Chaining, StartEvent::Chained(outcome)) => {
                let completed = match &outcome {
                    ChainOutcome::Completed(_) => true,
                    _ => false,
                };
                let none: Vec<Evidence> = Vec::new();
                assert(model::evidence_views(none@) =~= Seq::empty());
                let reply = reply_with_chain(outcome, "started", &none);
                if completed && runtime_links::is_terminal(
                    &self.definition,
                    reply.instance.state.as_str(),
                ) {
                    let event = completed_event_for(
                        &reply.instance,
                        self.correlation_id.as_str(),
                    );
                    self.reply = Some(reply);
                    self.phase = StartPhase::Completing;
                    StartAction::Record(event)
                } else {
                    self.phase = StartPhase::Finished;
                    StartAction::Respond(reply)
                }
            },
            (StartPhase::Completing, StartEvent::Recorded) => match &self.reply {
                Some(r) => {
                    let reply = r.dup();
                    self.phase = StartPhase::Finished;
                    StartAction::Respond(reply)
                },
                None => StartAction::Ignore,
            },
            _ => StartAction::Ignore,
        }
    }
}

impl Reply {
    /// A copy of the reply.
    pub fn dup(&self) -> (r: Reply)
        ensures
            r@ == self@,
    {
        let error = match &self.error {
            Some(e) => Some(e.dup()),
            None => None,
        };
        Reply {
            instance: self.instance.dup(),
            status: self.status.clone(),
            error,
            evidence: model::copy_evidence(&self.evidence),
            steps: copy_steps(&self.steps),
            failed_transition: text::opt_copy(&self.failed_transition),
        }
    }
}

/// A copy of a list of steps.
pub fn copy_steps(v: &Vec<ChainStep>) -> (r: Vec<ChainStep>)
    ensures
        step_views(r@) == step_views(v@),
{
    let mut out: Vec<ChainStep> = Vec::new();
    let mut i: usize = 0;
    while i < v.len()
        invariant
            i <= v.len(),
            step_views(out@) == step_views(v@).take(i as int),
        decreases v.len() - i,
    {
        let s = ChainStep {
            from_state: v[i].from_state.clone(),
            transition: v[i].transition.clone(),
            to_state: v[i].to_state.clone(),
            version: v[i].version,
        };
        assert(step_views(out@.push(s)) =~= step_views(out@).push(s@));
        out.push(s);
        i = i + 1;
    }
    assert(step_views(v@).take(i as int) =~= step_views(v@));
    out
}

// ---------------------------------------------------------------------------
// Cancelling and reading
// ---------------------------------------------------------------------------

/// The instance after it was cancelled: its state is kept, its version grows so
/// that a submit with the old version is refused, and a second cancellation
/// changes nothing.
pub open spec fn cancelled(i: InstanceView, reason: Seq<char>, now: Seq<char>) -> Option<
    InstanceView,
> {
    if i.cancelled_at is Some {
        None
    } else {
        Some(
            InstanceView {
                cancelled_at: Some(now),
                cancelled_reason: Some(reason),
                version: if i.version < u64::MAX {
                    (i.version + 1) as u64
                } else {
                    u64::MAX
                },
                ..i
            },
        )
    }
}

/// Cancels an instance at the given time: the instance to commit, under its old
/// version; `None` when it is cancelled already.
pub fn cancel(instance: &WorkflowInstance, reason: &str, now: &str) -> (r: Option<
    WorkflowInstance,
>)
    ensures
        match r {
            Some(i) => cancelled(instance@, reason@, now@) == Some(i@),
            None => cancelled(instance@, reason@, now@) is None,
        },
{
    if instance.cancelled_at.is_some() {
        return None;
    }
    let mut updated = instance.dup();
    updated.cancelled_at = Some(now.to_owned());
    updated.cancelled_reason = Some(reason.to_owned());
    if updated.version < u64::MAX {
        updated.version = updated.version + 1;
    }
    Some(updated)
}

/// The audit event about a cancellation.
pub fn cancelled_event(saved: &WorkflowInstance, reason: &str) -> (r: AuditEvent)
    ensures
        r@ == saved@.event(
            "workflow.cancelled"@,
            r@.correlation_id,
            None,
            Json::empty().with("reason"@, Json::String(reason@)).with(
                "state_at_cancel"@,
                Json::String(saved@.state),
            ).with("version_at_cancel"@, Json::Number(Number::PosInt(saved@.version))),
        ),
        audit::is_event_id(r.id@),
        audit::is_fresh_correlation(r@.correlation_id),
{
    let payload = Value::object().and("reason", Value::text(reason)).and(
        "state_at_cancel",
        Value::text(saved.state.as_str()),
    ).and("version_at_cancel", Value::uint(saved.version));
    saved.audit_event("workflow.cancelled").with_payload(payload)
}

/// What a cancelled instance says of its cancellation.
pub open spec fn cancellation(i: InstanceView) -> Json {
    Json::empty().with("cancelled_at"@, reliability::text_or_null(i.cancelled_at)).with(
        "cancelled_reason"@,
        reliability::text_or_null(i.cancelled_reason),
    )
}

/// The reply to a read: a cancelled instance is cancelled, whatever its time; an
/// instance that ran out of time is shown as it became; any other waits.
pub open spec fn read_reply(i: InstanceView, timed_out: Option<InstanceView>) -> ReplyView {
    if i.cancelled_at is Some {
        plain_reply(i, "cancelled"@, Some(cancellation(i)))
    } else {
        match timed_out {
            Some(t) => plain_reply(t, "timed_out"@, None),
            None => plain_reply(i, "waiting_for_action"@, None),
        }
    }
}

/// The reply to a read. `timed_out` is the instance after its timeout was
/// applied, when that happened; it is not asked for of a cancelled instance.
pub fn get(instance: &WorkflowInstance, timed_out: Option<WorkflowInstance>) -> (r: Reply)
    ensures
        r@ == read_reply(
            instance@,
            match timed_out {
                Some(t) => Some(t@),
                None => None,
            },
        ),
{
    if instance.cancelled_at.is_some() {
        let at = match &instance.cancelled_at {
            Some(s) => Value::text(s.as_str()),
            None => Value::Null,
        };
        let reason = match &instance.cancelled_reason {
            Some(s) => Value::text(s.as_str()),
            None => Value::Null,
        };
        let payload = Value::object().and("cancelled_at", at).and("cancelled_reason", reason);
        return reply_plainly(instance.dup(), "cancelled", Some(payload));
    }
    match timed_out {
        Some(t) => reply_plainly(t, "timed_out", None),
        None => reply_plainly(instance.dup(), "waiting_for_action", None),
    }
}

/// A library entry of a workflow snapshot as it is described.
pub open spec fn described(kind: Seq<char>, subject: Seq<char>, entry: Json) -> Json {
    Json::empty().with("kind"@, Json::String(kind)).with("subject"@, Json::String(subject)).with(
        "verb"@,
        Json::String(runtime_links::str_else(entry, "verb"@, Seq::empty())),
    ).with(
        "lifecycle"@,
        Json::String(runtime_links::str_else(entry, "lifecycle"@, Seq::empty())),
    ).with("hash"@, Json::String(runtime_links::str_else(entry, "hash"@, Seq::empty()))).with(
        "body"@,
        Json::String(runtime_links::str_else(entry, "body"@, Seq::empty())),
    )
}

/// An entry of a library of a workflow snapshot.
pub open spec fn library_entry(definition: Json, library: Seq<char>, subject: Seq<char>) -> Option<
    Json,
> {
    match definition.get(library) {
        Some(l) => l.get(subject),
        None => None,
    }
}

fn describe_entry(definition: &Value, library: &str, kind: &str, subject: &str) -> (r: Option<
    Value,
>)
    ensures
        json::opt_owned_view(r) == match library_entry(definition@, library@, subject@) {
            Some(entry) => Some(described(kind@, subject@, entry)),
            None => None,
        },
{
    let entry = match definition.get(library) {
        Some(l) => match l.get(subject) {
            Some(e) => e,
            None => {
                return None;
            },
        },
        None => {
            return None;
        },
    };
    let none = runtime_response::no_text();
    Some(
        Value::object().and("kind", Value::text(kind)).and("subject", Value::text(subject)).and(
            "verb",
            Value::text(runtime_links::str_or_default(entry, "verb", none)),
        ).and(
            "lifecycle",
            Value::text(runtime_links::str_or_default(entry, "lifecycle", none)),
        ).and("hash", Value::text(runtime_links::str_or_default(entry, "hash", none))).and(
            "body",
            Value::text(runtime_links::str_or_default(entry, "body", none)),
        ),
    )
}

/// A guidance fragment as the snapshot of the instance has it: what was there
/// when the workflow was started.
pub fn describe_guidance_for_workflow(instance: Option<&WorkflowInstance>, subject: &str) -> (r:
    Option<Value>)
    ensures
        json::opt_owned_view(r) == match instance {
            Some(i) => match library_entry(i@.definition, "_skillsLibrary"@, subject@) {
                Some(entry) => Some(described("guidance"@, subject@, entry)),
                None => None,
            },
            None => None,
        },
{
    match instance {
        Some(i) => describe_entry(&i.definition, "_skillsLibrary", "guidance", subject),
        None => None,
    }
}

/// A script as the snapshot of the instance has it.
pub fn describe_script_for_workflow(instance: Option<&WorkflowInstance>, subject: &str) -> (r:
    Option<Value>)
    ensures
        json::opt_owned_view(r) == match instance {
            Some(i) => match library_entry(i@.definition, "_scriptsLibrary"@, subject@) {
                Some(entry) => Some(described("script"@, subject@, entry)),
                None => None,
            },
            None => None,
        },
{
    match instance {
        Some(i) => describe_entry(&i.definition, "_scriptsLibrary", "script", subject),
        None => None,
    }
}

/// Why a transition can or cannot be taken now.
pub open spec fn explanation(i: InstanceView, transition: Seq<char>) -> Json {
    let t = runtime_links::transition_of(i.definition, i.state, transition);
    let actor = match t {
        Some(d) => runtime_links::str_else(d, "actor"@, "agent"@),
        None => "agent"@,
    };
    Json::empty().with("workflowId"@, Json::String(i.id)).with(
        "currentState"@,
        Json::String(i.state),
    ).with("transition"@, Json::String(transition)).with(
        "allowedFromCurrentState"@,
        Json::Bool(t is Some),
    ).with("actor"@, Json::String(actor)).with(
        "deterministic"@,
        Json::Bool(actor == "deterministic"@),
    ).with(
        "legalTransitionsNow"@,
        Json::Array(
            match runtime_links::transitions_of(i.definition, i.state) {
                Some(e) => runtime_links::keys_of(e),
                None => Seq::empty(),
            },
        ),
    )
}

/// Explains why a transition can or cannot be taken now.
pub fn explain(instance: &WorkflowInstance, transition: &str) -> (r: Value)
    ensures
        r@ == explanation(instance@, transition@),
{
    let t = runtime_links::transition_definition(
        &instance.definition,
        instance.state.as_str(),
        transition,
    );
    let actor = match t {
        Some(d) => runtime_links::str_or_default(d, "actor", "agent"),
        None => "agent",
    };
    let legal = match runtime_links::state_transitions(
        &instance.definition,
        instance.state.as_str(),
    ) {
        Some(e) => runtime_links::entry_names(e),
        None => {
            let v: Vec<Value> = Vec::new();
            assert(json::views(v@) =~= Seq::empty());
            v
        },
    };
    Value::object().and("workflowId", Value::text(instance.id.as_str())).and(
        "currentState",
        Value::text(instance.state.as_str()),
    ).and("transition", Value::text(transition)).and(
        "allowedFromCurrentState",
        Value::Bool(t.is_some()),
    ).and("actor", Value::text(actor)).and(
        "deterministic",
        Value::Bool(text::str_eq(actor, "deterministic")),
    ).and("legalTransitionsNow", Value::Array(legal))
}

// ---------------------------------------------------------------------------
// Laws
// ---------------------------------------------------------------------------

/// Cancelling is final and idempotent: a cancelled instance keeps its state, and
/// cancelling it again, for whatever reason, changes nothing.
pub proof fn law_cancel_once(
    i: InstanceView,
    reason: Seq<char>,
    now: Seq<char>,
    again: Seq<char>,
    later: Seq<char>,
)
    ensures
        cancelled(i, reason, now) matches Some(c) ==> c.state == i.state && c.context == i.context
            && cancelled(c, again, later) is None && c.cancelled_reason == Some(reason),
{
}

/// A run id is taken only once: a start whose run id is under way ends without
/// creating an instance, and nothing is created before the run id was looked up.
pub proof fn law_run_id_unique(s: StartingView, event: StartEvent)
    ensures
        s.phase == StartPhase::Searching && s.run_id is Some ==> (event matches StartEvent::RunFound(
            Some(w),
        ) ==> s.next(event).1 == StartActionView::Fail(
            RuntimeErrorView::RunIdAlreadyRunning {
                run_id: s.run_id->0,
                existing_workflow_id: w@,
            },
        ) && s.next(event).0.phase == StartPhase::Finished),
        s.next(event).1 is Create ==> s.phase == StartPhase::Checking,
{
}

/// A definition with a term that is still without a definition is not started: an
/// instance is created only where every entry of the lexicon is defined.
pub proof fn law_placeholders_are_not_started(s: StartingView, event: StartEvent, k: int)
    requires
        s.next(event).1 is Create,
        0 <= k < s.definition.entries_at("_lexiconLibrary"@).len(),
    ensures
        !lexicon::is_placeholder(s.definition.entries_at("_lexiconLibrary"@)[k].1),
{
    lexicon::lemma_no_placeholder(s.definition.entries_at("_lexiconLibrary"@), 0, k);
}

/// A new instance carries its own snapshot of the definition and begins at
/// version zero in the initial state.
pub proof fn law_snapshot(s: StartingView, event: StartEvent)
    ensures
        s.next(event).1 matches StartActionView::Create(i) ==> i.definition == s.definition
            && i.version == 0 && Some(i.state) == s.definition.str_at("initialState"@)
            && i.cancelled_at is None,
{
}

/// A new instance is what was asked for: its input is the completed input, its id and its
/// time are those that were handed in, its definition id, run id and trace id are those of
/// the request, and its context is the initial context of the definition, or empty without
/// one.
pub proof fn law_created_as_requested(
    s: StartingView,
    input: Value,
    workflow_id: String,
    now: String,
    i: InstanceView,
)
    requires
        s.next(StartEvent::InputReady { input, workflow_id, now }).1 == StartActionView::Create(i),
    ensures
        i.input == input@,
        i.id == workflow_id@,
        i.started_at == now@,
        i.definition_id == s.definition_id,
        i.run_id == s.run_id,
        i.trace_id == s.trace_id,
        s.definition.get("initialContext"@) matches Some(c) ==> i.context == c,
        s.definition.get("initialContext"@) is None ==> i.context == Json::empty(),
        i.definition == s.definition,
        s.definition.str_at("version"@) matches Some(v) ==> i.definition_version == v,
        s.definition.str_at("version"@) is None ==> i.definition_version == "0"@,
        i.cancelled_at is None,
        i.cancelled_reason is None,
{
}

/// A start goes through its steps in order: the run id is looked up where there is one, then
/// the definition is loaded and kept, the input checked and the instance created; the
/// created instance is announced, entered and handed to the chain as it comes back from each
/// step.
pub proof fn law_start_steps(s: StartingView, definition: Value, i: WorkflowInstance)
    ensures
        s.phase == StartPhase::Searching ==> s.next(StartEvent::RunFound(None)).1
            == StartActionView::Load && s.next(StartEvent::RunFound(None)).0.phase
            == StartPhase::Loading,
        s.phase == StartPhase::Loading ==> ({
            let (t, action) = s.next(StartEvent::Loaded(definition));
            action == StartActionView::CheckInput && t.definition == definition@ && t.phase
                == StartPhase::Checking && t.run_id == s.run_id && t.trace_id == s.trace_id
                && t.definition_id == s.definition_id
        }),
        s.phase == StartPhase::Creating ==> ({
            let (t, action) = s.next(StartEvent::Created(i));
            let (u, then) = t.next(StartEvent::Recorded);
            &&& action matches StartActionView::Announce { watchdog, event } && watchdog
                == s.definition.u64_at("timeoutMs"@) && event.event_type == "workflow.started"@
                && event.workflow_id == Some(i@.id) && event.correlation_id == s.correlation_id
            &&& then == StartActionView::Enter(i@)
            &&& u.phase == StartPhase::Entering
        }),
        s.phase == StartPhase::Entering ==> ({
            let (t, action) = s.next(StartEvent::Entered(i));
            &&& action matches StartActionView::Chain { instance, max_depth } && instance == i@ && (
            s.definition.u64_at("maxChainDepth"@) matches Some(n) ==> max_depth == n) && (
            s.definition.u64_at("maxChainDepth"@) is None ==> max_depth == 50)
            &&& t.phase == StartPhase::Chaining
        }),
{
}

/// The answer to a start shows the instance, the steps and the evidence that the chain came
/// to. A chain that was completed answers that the workflow was started, and the completion
/// is recorded before it where the state is terminal; one that failed answers with the
/// failure and with the transition to be tried again.
pub proof fn law_start_answers_with_the_chain(s: StartingView, outcome: ChainOutcome)
    requires
        s.phase == StartPhase::Chaining,
    ensures
        ({
            let (t, action) = s.next(StartEvent::Chained(outcome));
            let (u, then) = t.next(StartEvent::Recorded);
            match outcome@ {
                ChainOutcomeView::Completed(r) => {
                    &&& action is Record <==> runtime_links::terminal(s.definition, r.instance.state)
                    &&& action matches StartActionView::Record(e) ==> e.event_type
                        == "workflow.completed"@ && e.workflow_id == Some(r.instance.id)
                    &&& (action matches StartActionView::Respond(reply) && answers(reply, r)
                        && reply.status == "started"@ && reply.error is None) || (
                    then matches StartActionView::Respond(reply) && action is Record && answers(
                        reply,
                        r,
                    ) && reply.status == "started"@ && reply.error is None)
                },
                ChainOutcomeView::Failed { partial, error, error_class, failed_transition } => {
                    &&& action matches StartActionView::Respond(reply) && answers(reply, partial)
                        && reply.status == "failed"@ && reply.error is Some && (
                    failed_transition.len() > 0 ==> reply.failed_transition == Some(
                        failed_transition,
                    )) && reply.error->0.get("code"@) == Some(Json::String("CHAIN_FAILED"@))
                        && reply.error->0.get("message"@) == Some(Json::String(error))
                        && reply.error->0.get("errorClass"@) == Some(Json::String(error_class))
                        && reply.error->0.get("attemptedTransition"@) == Some(
                        Json::String(failed_transition),
                    )
                },
            }
        }),
{
    json::lemma_reads();
    lemma_chain_error_words();
    match outcome@ {
        ChainOutcomeView::Completed(r) => {
            assert(Seq::<EvidenceView>::empty() + r.evidence =~= r.evidence);
        },
        ChainOutcomeView::Failed { partial, error, error_class, failed_transition } => {
            assert(Seq::<EvidenceView>::empty() + partial.evidence =~= partial.evidence);
        },
    }
}

/// A reply shows what a chain came to.
pub open spec fn answers(reply: ReplyView, result: ChainResultView) -> bool {
    reply.instance == result.instance && reply.steps == result.steps && reply.evidence
        == result.evidence
}

/// The words of the error of a chain differ from one another.
proof fn lemma_chain_error_words()
    ensures
        "code"@.len() == 4,
        "message"@.len() == 7,
        "errorClass"@.len() == 10,
        "attemptedTransition"@.len() == 19,
{
    reveal_strlit("code");
    reveal_strlit("message");
    reveal_strlit("errorClass");
    reveal_strlit("attemptedTransition");
}

/// Cancelling marks an instance that was not cancelled, with the time and the reason, and
/// counts as a change: a submit with the version of before is refused.
pub proof fn law_cancel_marks(i: InstanceView, reason: Seq<char>, now: Seq<char>)
    ensures
        cancelled(i, reason, now) is Some <==> i.cancelled_at is None,
        cancelled(i, reason, now) matches Some(c) ==> c.cancelled_at == Some(now)
            && c.cancelled_reason == Some(reason) && (i.version < u64::MAX ==> c.version
            == i.version + 1) && c.id == i.id && c.definition == i.definition && c.input == i.input
            && c.run_id == i.run_id && c.started_at == i.started_at,
{
}

/// A read shows a cancelled instance as cancelled even where its time is over, one that ran
/// out of time as it became, and any other as it is.
pub proof fn law_reads_show_what_is(i: InstanceView, t: InstanceView)
    ensures
        i.cancelled_at is Some ==> forall|o: Option<InstanceView>|
            #![trigger read_reply(i, o)]
            read_reply(i, o).status == "cancelled"@ && read_reply(i, o).instance == i && (
            read_reply(i, o).error matches Some(e) && e.get("cancelled_at"@) == Some(
                Json::String(i.cancelled_at->0),
            )),
        i.cancelled_at is None ==> read_reply(i, Some(t)).status == "timed_out"@ && read_reply(
            i,
            Some(t),
        ).instance == t && read_reply(i, Some(t)).error is None,
        i.cancelled_at is None ==> read_reply(i, None).status == "waiting_for_action"@
            && read_reply(i, None).instance == i && read_reply(i, None).error is None,
{
    json::lemma_reads();
    reveal_strlit("cancelled_at");
    reveal_strlit("cancelled_reason");
    assert("cancelled_at"@.len() == 12 && "cancelled_reason"@.len() == 16);
}

/// The record of a transition says what happened: where from, where to, by which
/// transition, by whom, under which version, with which arguments, guards and changes, and
/// whether and how long the executor ran.
pub proof fn law_records_say_what_happened(r: RecordView)
    ensures
        ({
            let e = transition_record(r);
            let p = e.payload;
            &&& e.workflow_id == Some(r.instance.id)
            &&& e.correlation_id == r.correlation_id
            &&& e.event_type == if r.transition_def.bool_at("lightweight"@) == Some(true) {
                "workflow.interaction"@
            } else {
                "workflow.transition"@
            }
            &&& p.get("fromState"@) == Some(Json::String(r.from_state))
            &&& p.get("toState"@) == Some(Json::String(r.instance.state))
            &&& p.get("transition"@) == Some(Json::String(r.transition_name))
            &&& p.get("seq"@) == Some(Json::Number(Number::PosInt(r.instance.version)))
            &&& p.get("timestamp"@) == Some(Json::String(r.timestamp))
            &&& p.get("actor"@) == Some(Json::String(r.actor))
            &&& p.get("arguments"@) == Some(r.arguments)
            &&& p.get("blackboardDelta"@) == Some(r.blackboard_delta)
            &&& p.get("guards"@) == Some(Json::Array(r.guard_results))
            &&& p.get("workflowId"@) == Some(Json::String(r.instance.id))
            &&& p.get("definitionVersion"@) == Some(Json::String(r.instance.definition_version))
            &&& p.get("principal"@) == Some(
                match r.principal {
                    Some(s) => Json::String(s),
                    None => Json::Null,
                },
            )
            &&& p.get("childWorkflowId"@) == Some(
                match r.child_workflow_id {
                    Some(s) => Json::String(s),
                    None => Json::Null,
                },
            )
            &&& r.transition_def.str_at("purpose"@) matches Some(s) ==> p.get("purpose"@) == Some(
                Json::String(s),
            )
            &&& r.transition_def.get("executor"@) is None ==> p.get("executor"@) is None
            &&& r.transition_def.get("executor"@) matches Some(c) ==> (c.str_at("kind"@)
                matches Some(kind) ==> (p.get("executor"@) matches Some(x) && x.get("kind"@)
                == Some(Json::String(kind)) && (r.executor_outcome matches Some((ok, ms)) ==> x.get(
                "ok"@,
            ) == Some(Json::Bool(ok)) && x.get("durationMs"@) == Some(
                Json::Number(Number::PosInt(ms)),
            )) && (r.executor_outcome is None ==> x.get("ok"@) is None)))
        }),
{
    json::lemma_reads();
    lemma_record_words();
}

/// The words of a record differ from one another.
proof fn lemma_record_words()
    ensures
        "workflowId"@.len() == 10 && "workflowId"@[0] == 'w',
        "definitionId"@.len() == 12,
        "definitionVersion"@.len() == 17,
        "seq"@.len() == 3,
        "timestamp"@.len() == 9 && "timestamp"@[0] == 't',
        "fromState"@.len() == 9 && "fromState"@[0] == 'f',
        "toState"@.len() == 7 && "toState"@[0] == 't',
        "transition"@.len() == 10 && "transition"@[0] == 't',
        "actor"@.len() == 5,
        "principal"@.len() == 9 && "principal"@[0] == 'p',
        "guards"@.len() == 6,
        "arguments"@.len() == 9 && "arguments"@[0] == 'a',
        "blackboardDelta"@.len() == 15 && "blackboardDelta"@[0] == 'b',
        "childWorkflowId"@.len() == 15 && "childWorkflowId"@[0] == 'c',
        "correlationId"@.len() == 13,
        "executor"@.len() == 8,
        "purpose"@.len() == 7 && "purpose"@[0] == 'p',
        "kind"@.len() == 4 && "kind"@[0] == 'k',
        "ok"@.len() == 2,
        "durationMs"@.len() == 10,
        "subject"@.len() == 7,
        "hash"@.len() == 4 && "hash"@[0] == 'h',
{
    reveal_strlit("workflowId");
    reveal_strlit("definitionId");
    reveal_strlit("definitionVersion");
    reveal_strlit("seq");
    reveal_strlit("timestamp");
    reveal_strlit("fromState");
    reveal_strlit("toState");
    reveal_strlit("transition");
    reveal_strlit("actor");
    reveal_strlit("principal");
    reveal_strlit("guards");
    reveal_strlit("arguments");
    reveal_strlit("blackboardDelta");
    reveal_strlit("childWorkflowId");
    reveal_strlit("correlationId");
    reveal_strlit("executor");
    reveal_strlit("purpose");
    reveal_strlit("kind");
    reveal_strlit("ok");
    reveal_strlit("durationMs");
    reveal_strlit("subject");
    reveal_strlit("hash");
}

/// After a failed step of a chain the response shows the steps that were taken and, as
/// its last link, the step to be tried again on the instance as it stands.
pub proof fn law_failed_step_can_be_tried_again(
    definition: Json,
    reply: ReplyView,
    body: Json,
    evidence: Seq<Json>,
    failed: Seq<char>,
)
    requires
        body.array_at("links"@) is Some,
        reply.failed_transition == Some(failed),
        runtime_links::transition_of(definition, reply.instance.state, failed) is Some,
    ensures
        ({
            let r = finished(definition, reply, body, evidence);
            let t = runtime_links::transition_of(definition, reply.instance.state, failed)->0;
            &&& r.array_at("links"@) == Some(
                body.array_at("links"@)->0.push(recovery_link(t, failed, reply.instance)),
            )
            &&& reply.steps.len() > 0 ==> r.get("chain"@) == Some(
                Json::Array(step_values(reply.steps)),
            )
        }),
{
    reveal_strlit("links");
    reveal_strlit("chain");
    reveal_strlit("evidence");
    assert("links"@.len() == 5 && "links"@[0] == 'l');
    assert("chain"@.len() == 5 && "chain"@[0] == 'c');
    assert("evidence"@.len() == 8);
    reveal(Json::get);
    let a = if evidence.len() > 0 {
        json::law_get_with(body, "evidence"@, Json::Array(evidence), "links"@);
        body.with("evidence"@, Json::Array(evidence))
    } else {
        body
    };
    let chain = Json::Array(step_values(reply.steps));
    let b = if reply.steps.len() > 0 {
        json::law_get_with(a, "chain"@, chain, "links"@);
        json::law_get_with(a, "chain"@, chain, "chain"@);
        a.with("chain"@, chain)
    } else {
        a
    };
    assert(b.array_at("links"@) == body.array_at("links"@));
    let t = runtime_links::transition_of(definition, reply.instance.state, failed)->0;
    let links = Json::Array(
        body.array_at("links"@)->0.push(recovery_link(t, failed, reply.instance)),
    );
    json::law_get_with(b, "links"@, links, "links"@);
    json::law_get_with(b, "links"@, links, "chain"@);
}

} // verus!
