//! Taking a transition.
//!
//! `Submission` decides the steps of a submit. The caller performs each action and
//! reports back; an action that fails ends the submit with that failure, and
//! nothing is committed after it.
use crate::audit;
use crate::audit::{AuditEvent, AuditEventView};
use crate::error::{ExecutorError, ExecutorErrorView};
use crate::json;
use crate::json::{Json, Number, Value};
use crate::model;
use crate::model::{
    Evidence, EvidenceView, ExecuteResult, InstanceView, Principal, PrincipalView,
    SubmitTransition, WorkflowInstance,
};
use crate::reliability;
use crate::runtime;
use crate::runtime::{
    ChainOutcome, ChainOutcomeView, RecordView, Reply, ReplyView, TransitionRecordParams,
};
use crate::runtime_chain;
use crate::runtime_chain::{LoopStep, LoopView, WhilePlan, WhilePlanView};
use crate::runtime_links;
use crate::runtime_response;
use crate::runtime_response::GuardsOutcome;
use crate::text;
use vstd::prelude::*;

verus! {

/// Where a submit stands.
#[derive(Debug, Clone, Copy, PartialEq, Eq, Structural)]
pub enum SubmitPhase {
    /// The timeout is being checked.
    TimingOut,
    /// The request is being recorded.
    Requesting,
    /// The arguments are being completed and checked.
    Checking,
    /// The guards are being judged.
    Guarding,
    /// The executor is running.
    Executing,
    /// The failure of the executor is being recorded.
    Failing,
    /// The executor's output is being written to the context.
    Merging,
    /// The target is being chosen.
    Targeting,
    /// The guard of the state's loop is being judged.
    Looping,
    /// The difference between the contexts is being taken.
    Diffing,
    /// The transition record is being written.
    Recording,
    /// The instance is being committed.
    Saving,
    /// The entry action of the new state is running.
    Entering,
    /// The transition is being announced.
    Announcing,
    /// The deterministic chain is running.
    Chaining,
    /// The completion is being recorded.
    Completing,
    /// There is nothing more to do.
    Finished,
}

/// A submit under way. `instance` is the workflow as it was loaded, `next` the
/// workflow as it is about to become. `trace_id` is the trace that the request asks
/// for in place of the workflow's own.
#[derive(Debug)]
pub struct Submission {
    pub transition: String,
    pub expected_version: u64,
    pub summary: Option<String>,
    pub principal: Principal,
    pub correlation_id: String,
    pub trace_id: Option<String>,
    pub instance: WorkflowInstance,
    pub next: WorkflowInstance,
    pub transition_def: Value,
    pub arguments: Value,
    pub guard_results: Vec<Value>,
    pub pending_evidence: Vec<Evidence>,
    pub evidence: Vec<Evidence>,
    pub child_workflow_id: Option<String>,
    pub executor_outcome: Option<(bool, u64)>,
    pub target: String,
    pub max_iterations: u32,
    pub reply: Option<Reply>,
    pub phase: SubmitPhase,
}

/// A submit as mathematical values.
pub struct SubmissionView {
    pub transition: Seq<char>,
    pub expected_version: u64,
    pub summary: Option<Seq<char>>,
    pub principal: PrincipalView,
    pub correlation_id: Seq<char>,
    pub trace_id: Option<Seq<char>>,
    pub instance: InstanceView,
    pub next: InstanceView,
    pub transition_def: Json,
    pub arguments: Json,
    pub guard_results: Seq<Json>,
    pub pending_evidence: Seq<EvidenceView>,
    pub evidence: Seq<EvidenceView>,
    pub child_workflow_id: Option<Seq<char>>,
    pub executor_outcome: Option<(bool, u64)>,
    pub target: Seq<char>,
    pub max_iterations: u32,
    pub reply: Option<ReplyView>,
    pub phase: SubmitPhase,
}

impl View for Submission {
    type V = SubmissionView;

    open spec fn view(&self) -> SubmissionView {
        SubmissionView {
            transition: self.transition@,
            expected_version: self.expected_version,
            summary: text::opt_text(self.summary),
            principal: self.principal@,
            correlation_id: self.correlation_id@,
            trace_id: text::opt_text(self.trace_id),
            instance: self.instance@,
            next: self.next@,
            transition_def: self.transition_def@,
            arguments: self.arguments@,
            guard_results: json::views(self.guard_results@),
            pending_evidence: model::evidence_views(self.pending_evidence@),
            evidence: model::evidence_views(self.evidence@),
            child_workflow_id: text::opt_text(self.child_workflow_id),
            executor_outcome: self.executor_outcome,
            target: self.target@,
            max_iterations: self.max_iterations,
            reply: match self.reply {
                Some(r) => Some(r@),
                None => None,
            },
            phase: self.phase,
        }
    }
}

/// What happened since the last decision.
#[derive(Debug)]
pub enum SubmitEvent {
    /// The timeout was checked: the instance as it became, when it was applied.
    TimeoutChecked(Option<WorkflowInstance>),
    /// The audit event was recorded.
    Recorded,
    /// The arguments with the defaults of the transition's `inputSchema`, or why
    /// they do not fit it.
    ArgumentsChecked(Result<Value, String>),
    /// The guards were judged.
    GuardsJudged(GuardsOutcome),
    /// A guard reads a slot that was never set; what is said of it.
    GuardUnset(String),
    /// The executor succeeded after the given number of milliseconds.
    Executed(ExecuteResult, u64),
    /// The executor failed.
    ExecutorFailed(ExecutorError),
    /// The context with the executor's output in it; the typed slot that the
    /// output does not fit, with the reason; what a violated slot constraint says;
    /// and the text of the first confidence that is out of range.
    Merged {
        context: Value,
        violation: Option<(String, String)>,
        constraint: Option<String>,
        confidence: String,
    },
    /// The target was chosen.
    Targeted(String),
    /// The guard of the state's loop was judged.
    LoopJudged(bool),
    /// The difference between the contexts, and the current time.
    Diffed { delta: Value, now: String },
    /// The instance as the store committed it.
    Saved(WorkflowInstance),
    /// The instance after the entry action.
    Entered(WorkflowInstance),
    /// The outcome of the chain.
    Chained(ChainOutcome),
}

/// What to do next.
#[derive(Debug)]
pub enum SubmitAction {
    /// Check the timeout of the instance.
    CheckTimeout,
    /// Record the event; a failure to record ends the submit.
    Record(AuditEvent),
    /// Complete the arguments with the defaults of the transition's `inputSchema`
    /// and check them.
    CheckArguments,
    /// Judge the guards of the transition.
    JudgeGuards,
    /// Run the executor of the transition.
    Execute,
    /// Write the executor's output to the context and check it.
    Merge(Value),
    /// Choose the target of the transition.
    Target,
    /// Judge the guard of the state's loop.
    JudgeLoop(Value),
    /// Take the difference between the context before and after.
    Diff,
    /// Commit the instance under the expected version.
    Save { instance: WorkflowInstance, expected_version: u64 },
    /// Keep the evidence of the transition, then run the entry action of the new
    /// state.
    Enter(WorkflowInstance),
    /// Run the deterministic chain.
    Chain { instance: WorkflowInstance, max_depth: u64 },
    /// Answer the request.
    Respond(Reply),
    /// Note the rejection, and answer the request.
    Reject { event: AuditEvent, reply: Reply },
    /// End with an error.
    Fail(String),
    /// The event does not fit where the submit stands.
    Ignore,
}

impl SubmitAction {
    /// The audit event of the action has an id of its own form.
    pub open spec fn named(self) -> bool {
        match self {
            SubmitAction::Record(event) => audit::is_event_id(event.id@),
            SubmitAction::Reject { event, .. } => audit::is_event_id(event.id@),
            _ => true,
        }
    }
}

/// An action as mathematical values.
pub enum SubmitActionView {
    CheckTimeout,
    Record(AuditEventView),
    CheckArguments,
    JudgeGuards,
    Execute,
    Merge(Json),
    Target,
    JudgeLoop(Json),
    Diff,
    Save { instance: InstanceView, expected_version: u64 },
    Enter(InstanceView),
    Chain { instance: InstanceView, max_depth: u64 },
    Respond(ReplyView),
    Reject { event: AuditEventView, reply: ReplyView },
    Fail(Seq<char>),
    Ignore,
}

impl SubmitActionView {
    /// The audit events that the action records.
    pub open spec fn recorded(self) -> Seq<AuditEventView> {
        match self {
            SubmitActionView::Record(e) => seq![e],
            SubmitActionView::Reject { event, reply } => seq![event],
            _ => Seq::empty(),
        }
    }

    /// The action, with its audit event in the given trace.
    pub open spec fn traced(self, trace_id: Option<Seq<char>>) -> SubmitActionView {
        match self {
            SubmitActionView::Record(e) => SubmitActionView::Record(e.traced(trace_id)),
            SubmitActionView::Reject { event, reply } => SubmitActionView::Reject {
                event: event.traced(trace_id),
                reply,
            },
            _ => self,
        }
    }
}

impl View for SubmitAction {
    type V = SubmitActionView;

    open spec fn view(&self) -> SubmitActionView {
        match self {
            SubmitAction::CheckTimeout => SubmitActionView::CheckTimeout,
            SubmitAction::Record(e) => SubmitActionView::Record(e@),
            SubmitAction::CheckArguments => SubmitActionView::CheckArguments,
            SubmitAction::JudgeGuards => SubmitActionView::JudgeGuards,
            SubmitAction::Execute => SubmitActionView::Execute,
            SubmitAction::Merge(v) => SubmitActionView::Merge(v@),
            SubmitAction::Target => SubmitActionView::Target,
            SubmitAction::JudgeLoop(g) => SubmitActionView::JudgeLoop(g@),
            SubmitAction::Diff => SubmitActionView::Diff,
            SubmitAction::Save { instance, expected_version } => SubmitActionView::Save {
                instance: instance@,
                expected_version: *expected_version,
            },
            SubmitAction::Enter(i) => SubmitActionView::Enter(i@),
            SubmitAction::Chain { instance, max_depth } => SubmitActionView::Chain {
                instance: instance@,
                max_depth: *max_depth,
            },
            SubmitAction::Respond(r) => SubmitActionView::Respond(r@),
            SubmitAction::Reject { event, reply } => SubmitActionView::Reject {
                event: event@,
                reply: reply@,
            },
            SubmitAction::Fail(m) => SubmitActionView::Fail(m@),
            SubmitAction::Ignore => SubmitActionView::Ignore,
        }
    }
}

/// What a cancelled workflow answers. `at` is the time of the cancellation.
pub open spec fn cancelled_message(id: Seq<char>, at: Seq<char>, reason: Option<Seq<char>>) -> Seq<
    char,
> {
    "WORKFLOW_CANCELLED: workflow "@ + id + " was cancelled at "@ + at + " (reason: "@
        + match reason {
        Some(r) => r,
        None => "(none)"@,
    } + ")"@
}

/// Why a request is not admitted: its code and what it says.
pub struct RefusalView {
    pub code: Seq<char>,
    pub message: Seq<char>,
}

/// The version that the request expects is not the current one.
pub open spec fn stale(expected: u64, current: u64) -> RefusalView {
    RefusalView {
        code: "STALE_WORKFLOW_VERSION"@,
        message: "Expected workflow version "@ + text::decimal(expected as nat)
            + ", but current version is "@ + text::decimal(current as nat) + "."@,
    }
}

/// The state has no such transition.
pub open spec fn invalid_transition(transition: Seq<char>, state: Seq<char>) -> RefusalView {
    RefusalView {
        code: "INVALID_TRANSITION"@,
        message: "Transition '"@ + transition + "' is not valid from state '"@ + state + "'."@,
    }
}

/// The transition is for humans.
pub open spec fn actor_mismatch(transition: Seq<char>, subject: Seq<char>) -> RefusalView {
    RefusalView {
        code: "ACTOR_MISMATCH"@,
        message: "Transition '"@ + transition + "' requires a human principal; submitter '"@
            + subject + "' has no '"@ + Principal::HUMAN_ROLE@ + "' role."@,
    }
}

/// The transition was taken as often as it may be in one visit of the state.
pub open spec fn fire_cap_exceeded(
    transition: Seq<char>,
    fired: u64,
    state: Seq<char>,
    max: u64,
) -> RefusalView {
    RefusalView {
        code: "TRANSITION_FIRE_CAP_EXCEEDED"@,
        message: "Transition '"@ + transition + "' has fired "@ + text::decimal(fired as nat)
            + " times in state '"@ + state + "' (max_fires_per_visit = "@ + text::decimal(
            max as nat,
        )
            + "). Cap is per-state-entry and resets when the workflow advances. Either raise the cap, or have the workflow advance to a different state before re-firing."@,
    }
}

/// How often a transition was taken in this visit of the state.
pub open spec fn fired(context: Json, state: Seq<char>, transition: Seq<char>) -> u64 {
    match context.u64_at(runtime_chain::fire_key(state, transition)) {
        Some(n) => n,
        None => 0,
    }
}

/// Whether a request is admitted: the version must be current, the transition one
/// of the state, the principal human where the transition asks for it, and the cap
/// of the transition not reached; in this order.
pub open spec fn admission(
    i: InstanceView,
    expected_version: u64,
    transition: Seq<char>,
    principal: PrincipalView,
) -> Result<Json, RefusalView> {
    if i.version != expected_version {
        Err(stale(expected_version, i.version))
    } else {
        match runtime_links::transition_of(i.definition, i.state, transition) {
            None => Err(invalid_transition(transition, i.state)),
            Some(t) => if t.str_at("actor"@) == Some("human"@) && !principal.is_human() {
                Err(actor_mismatch(transition, principal.subject))
            } else {
                match t.u64_at("max_fires_per_visit"@) {
                    Some(max) => {
                        let n = fired(i.context, i.state, transition);
                        if n >= max {
                            Err(fire_cap_exceeded(transition, n, i.state, max))
                        } else {
                            Ok(t)
                        }
                    },
                    None => Ok(t),
                }
            },
        }
    }
}

/// A refusal.
#[derive(Debug)]
pub struct Refusal {
    pub code: &'static str,
    pub message: String,
}

impl View for Refusal {
    type V = RefusalView;

    open spec fn view(&self) -> RefusalView {
        RefusalView { code: self.code@, message: self.message@ }
    }
}

/// Whether a request is admitted: the transition it asks for, or why not.
pub fn check_admission(
    instance: &WorkflowInstance,
    expected_version: u64,
    transition: &str,
    principal: &Principal,
) -> (r: Result<Value, Refusal>)
    ensures
        match r {
            Ok(t) => admission(instance@, expected_version, transition@, principal@) == Ok::<
                Json,
                RefusalView,
            >(t@),
            Err(e) => admission(instance@, expected_version, transition@, principal@) == Err::<
                Json,
                RefusalView,
            >(e@),
        },
{
    let state = instance.state.as_str();
    if instance.version != expected_version {
        let a = text::decimal_of(expected_version);
        let b = text::decimal_of(instance.version);
        return Err(
            Refusal {
                code: "STALE_WORKFLOW_VERSION",
                message: text::join5(
                    "Expected workflow version ",
                    a.as_str(),
                    ", but current version is ",
                    b.as_str(),
                    ".",
                ),
            },
        );
    }
    let t = match runtime_links::transition_definition(&instance.definition, state, transition) {
        Some(t) => t,
        None => {
            return Err(
                Refusal {
                    code: "INVALID_TRANSITION",
                    message: text::join5(
                        "Transition '",
                        transition,
                        "' is not valid from state '",
                        state,
                        "'.",
                    ),
                },
            );
        },
    };
    if text::opt_is(t.str_at("actor"), "human") && !principal.is_human() {
        return Err(
            Refusal {
                code: "ACTOR_MISMATCH",
                message: text::join7(
                    "Transition '",
                    transition,
                    "' requires a human principal; submitter '",
                    principal.subject.as_str(),
                    "' has no '",
                    Principal::HUMAN_ROLE,
                    "' role.",
                ),
            },
        );
    }
    if let Some(max) = t.u64_at("max_fires_per_visit") {
        let key = runtime_chain::fire_count_key(state, transition);
        let n: u64 = match instance.context.u64_at(key.as_str()) {
            Some(n) => n,
            None => 0,
        };
        if n >= max {
            let a = text::decimal_of(n);
            let b = text::decimal_of(max);
            return Err(
                Refusal {
                    code: "TRANSITION_FIRE_CAP_EXCEEDED",
                    message: text::join9(
                        "Transition '",
                        transition,
                        "' has fired ",
                        a.as_str(),
                        " times in state '",
                        state,
                        "' (max_fires_per_visit = ",
                        b.as_str(),
                        "). Cap is per-state-entry and resets when the workflow advances. Either raise the cap, or have the workflow advance to a different state before re-firing.",
                    ),
                },
            );
        }
    }
    Ok(t.dup())
}

/// What a rejection by the guards says: the cause where it has one of its own.
pub open spec fn guard_refusal(diagnostic: Option<Seq<char>>) -> RefusalView {
    if diagnostic == Some("EVIDENCE_DIGEST_REQUIRED"@) {
        RefusalView {
            code: "EVIDENCE_DIGEST_REQUIRED"@,
            message: "Evidence guard quorum failed: a `require_digest: true` clause excluded records missing a content digest."@,
        }
    } else if diagnostic == Some("EVIDENCE_CONFIDENCE_BELOW_THRESHOLD"@) {
        RefusalView {
            code: "EVIDENCE_CONFIDENCE_BELOW_THRESHOLD"@,
            message: "Evidence guard quorum failed: a `min_confidence` clause excluded records whose confidence was below threshold (or missing entirely)."@,
        }
    } else {
        RefusalView {
            code: "GUARD_REJECTED"@,
            message: "One or more guards rejected the transition."@,
        }
    }
}

fn refuse_by_guards(diagnostic: &Option<String>) -> (r: Refusal)
    ensures
        r@ == guard_refusal(text::opt_text(*diagnostic)),
{
    let d = match diagnostic {
        Some(d) => Some(d.as_str()),
        None => None,
    };
    if text::opt_is(d, "EVIDENCE_DIGEST_REQUIRED") {
        return Refusal {
            code: "EVIDENCE_DIGEST_REQUIRED",
            message:
                "Evidence guard quorum failed: a `require_digest: true` clause excluded records missing a content digest.".to_owned(),
        };
    }
    if text::opt_is(d, "EVIDENCE_CONFIDENCE_BELOW_THRESHOLD") {
        return Refusal {
            code: "EVIDENCE_CONFIDENCE_BELOW_THRESHOLD",
            message:
                "Evidence guard quorum failed: a `min_confidence` clause excluded records whose confidence was below threshold (or missing entirely).".to_owned(),
        };
    }
    Refusal {
        code: "GUARD_REJECTED",
        message: "One or more guards rejected the transition.".to_owned(),
    }
}

/// The first of the records from the `i`-th on whose confidence is out of range;
/// the number of records when there is none.
pub open spec fn bad_confidence(s: Seq<EvidenceView>, i: int) -> int
    decreases s.len() - i,
{
    if i >= s.len() {
        i
    } else if s[i].confidence matches Some(c) && !model::in_unit_range(c) {
        i
    } else {
        bad_confidence(s, i + 1)
    }
}

fn find_bad_confidence(v: &Vec<Evidence>) -> (r: usize)
    ensures
        r == bad_confidence(model::evidence_views(v@), 0),
        r <= v.len(),
{
    let ghost s = model::evidence_views(v@);
    let mut i: usize = 0;
    while i < v.len()
        invariant
            i <= v.len(),
            s == model::evidence_views(v@),
            bad_confidence(s, i as int) == bad_confidence(s, 0),
        decreases v.len() - i,
    {
        assert(s[i as int] == v@[i as int]@);
        if v[i].validate_confidence().is_err() {
            return i;
        }
        i = i + 1;
    }
    i
}

/// What is wrong with the output of an executor, if anything: a typed slot that it
/// does not fit, a slot constraint that it violates, or a confidence that is out
/// of range; in this order.
pub open spec fn output_refusal(
    violation: Option<(Seq<char>, Seq<char>)>,
    constraint: Option<Seq<char>>,
    evidence: Seq<EvidenceView>,
    confidence: Seq<char>,
) -> Option<RefusalView> {
    match violation {
        Some((slot, reason)) => Some(
            RefusalView {
                code: "BLACKBOARD_TYPE_ERROR"@,
                message: "output write to typed slot '"@ + slot + "': "@ + reason,
            },
        ),
        None => match constraint {
            Some(message) => Some(RefusalView { code: "SLOT_CONSTRAINT_VIOLATED"@, message }),
            None => {
                let i = bad_confidence(evidence, 0);
                if i < evidence.len() {
                    Some(
                        RefusalView {
                            code: "INVALID_CONFIDENCE"@,
                            message: "Evidence record (kind='"@ + evidence[i].kind + "', id='"@
                                + evidence[i].id + "') has confidence="@ + confidence
                                + " outside the allowed range 0.0..=1.0."@,
                        },
                    )
                } else {
                    None
                }
            },
        },
    }
}

fn refuse_output(
    violation: Option<(String, String)>,
    constraint: Option<String>,
    evidence: &Vec<Evidence>,
    confidence: &str,
) -> (r: Option<Refusal>)
    ensures
        match r {
            Some(e) => output_refusal(
                match violation {
                    Some(v) => Some((v.0@, v.1@)),
                    None => None,
                },
                text::opt_text(constraint),
                model::evidence_views(evidence@),
                confidence@,
            ) == Some(e@),
            None => output_refusal(
                match violation {
                    Some(v) => Some((v.0@, v.1@)),
                    None => None,
                },
                text::opt_text(constraint),
                model::evidence_views(evidence@),
                confidence@,
            ) is None,
        },
{
    if let Some((slot, reason)) = violation {
        return Some(
            Refusal {
                code: "BLACKBOARD_TYPE_ERROR",
                message: text::join4(
                    "output write to typed slot '",
                    slot.as_str(),
                    "': ",
                    reason.as_str(),
                ),
            },
        );
    }
    if let Some(message) = constraint {
        return Some(Refusal { code: "SLOT_CONSTRAINT_VIOLATED", message });
    }
    let i = find_bad_confidence(evidence);
    if i < evidence.len() {
        assert(model::evidence_views(evidence@)[i as int] == evidence@[i as int]@);
        return Some(
            Refusal {
                code: "INVALID_CONFIDENCE",
                message: text::join7(
                    "Evidence record (kind='",
                    evidence[i].kind.as_str(),
                    "', id='",
                    evidence[i].id.as_str(),
                    "') has confidence=",
                    confidence,
                    " outside the allowed range 0.0..=1.0.",
                ),
            },
        );
    }
    None
}

/// The next value of a counter.
pub open spec fn counted(n: u64) -> u64 {
    if n < u64::MAX {
        (n + 1) as u64
    } else {
        u64::MAX
    }
}

/// The context after a transition was taken: with the summary of the caller, where
/// there is one, and with the transition counted, where it has a cap.
pub open spec fn taken(
    context: Json,
    summary: Option<Seq<char>>,
    transition_def: Json,
    state: Seq<char>,
    transition: Seq<char>,
) -> Json {
    let a = runtime_response::with_opt(
        context,
        "summary"@,
        runtime_response::some_text(summary),
    );
    if transition_def.u64_at("max_fires_per_visit"@) is Some {
        a.with(
            runtime_chain::fire_key(state, transition),
            Json::Number(Number::PosInt(counted(fired(a, state, transition)))),
        )
    } else {
        a
    }
}

fn take_transition(
    context: &mut Value,
    summary: &Option<String>,
    transition_def: &Value,
    state: &str,
    transition: &str,
)
    ensures
        final(context)@ == taken(
            old(context)@,
            text::opt_text(*summary),
            transition_def@,
            state@,
            transition@,
        ),
{
    if let Some(s) = summary {
        context.set("summary", Value::text(s.as_str()));
    }
    if transition_def.u64_at("max_fires_per_visit").is_some() {
        let key = runtime_chain::fire_count_key(state, transition);
        let n: u64 = match context.u64_at(key.as_str()) {
            Some(n) => n,
            None => 0,
        };
        let m: u64 = if n < u64::MAX {
            n + 1
        } else {
            u64::MAX
        };
        context.set(key.as_str(), Value::uint(m));
    }
}

/// A decision of a submit: the submit after it, the audit events to note, and what
/// to do next. A note that cannot be written does not stop the submit.
pub struct SubmitDecision {
    pub submission: SubmissionView,
    pub notes: Seq<AuditEventView>,
    pub action: SubmitActionView,
}

impl SubmissionView {
    /// A decision without notes.
    pub open spec fn quietly(self, phase: SubmitPhase, action: SubmitActionView) -> SubmitDecision {
        SubmitDecision {
            submission: SubmissionView { phase, ..self },
            notes: Seq::empty(),
            action,
        }
    }

    /// Nothing follows.
    pub open spec fn ignoring(self) -> SubmitDecision {
        self.quietly(self.phase, SubmitActionView::Ignore)
    }

    /// Rejects the request: the workflow stays as it was loaded.
    #[verifier::opaque]
    pub open spec fn rejecting(self, r: RefusalView) -> SubmitDecision {
        self.quietly(
            SubmitPhase::Finished,
            SubmitActionView::Reject {
                event: runtime_response::rejected_event(
                    self.instance,
                    r.code,
                    r.message,
                    self.transition,
                    self.correlation_id,
                    self.principal,
                ),
                reply: runtime::plain_reply(
                    self.instance,
                    "rejected"@,
                    Some(runtime_response::rejection(r.code, r.message, self.transition)),
                ),
            },
        )
    }

    /// The audit event that a transition is requested.
    pub open spec fn requested(self) -> AuditEventView {
        self.instance.event(
            "transition.requested"@,
            self.correlation_id,
            Some(self.principal.subject),
            Json::empty().with("transition"@, Json::String(self.transition)).with(
                "expectedVersion"@,
                Json::Number(Number::PosInt(self.expected_version)),
            ).with("fromState"@, Json::String(self.instance.state)),
        )
    }

    /// Moves on to the target, with the executor behind it.
    #[verifier::opaque]
    pub open spec fn settling(self, context: Json) -> SubmitDecision {
        SubmissionView {
            next: InstanceView {
                context: taken(
                    context,
                    self.summary,
                    self.transition_def,
                    self.instance.state,
                    self.transition,
                ),
                ..self.next
            },
            ..self
        }.quietly(SubmitPhase::Targeting, SubmitActionView::Target)
    }

    /// The guards were judged.
    #[verifier::opaque]
    pub open spec fn guarded(self, o: runtime_response::GuardsOutcomeView) -> SubmitDecision {
        if !o.pass {
            self.rejecting(guard_refusal(o.diagnostic))
        } else {
            let s = SubmissionView { guard_results: o.evaluated, ..self };
            if self.transition_def.has("executor"@) {
                s.quietly(SubmitPhase::Executing, SubmitActionView::Execute)
            } else {
                s.settling(self.next.context)
            }
        }
    }

    /// The executor's output is in the context.
    #[verifier::opaque]
    pub open spec fn merged(
        self,
        context: Json,
        violation: Option<(Seq<char>, Seq<char>)>,
        constraint: Option<Seq<char>>,
        confidence: Seq<char>,
    ) -> SubmitDecision {
        match output_refusal(violation, constraint, self.pending_evidence, confidence) {
            Some(r) => self.rejecting(r),
            None => SubmissionView {
                evidence: self.pending_evidence,
                ..self
            }.settling(context),
        }
    }

    /// The target was chosen: the loop of the state is judged, where it has one.
    #[verifier::opaque]
    pub open spec fn targeted(self, target: Seq<char>) -> SubmitDecision {
        let s = SubmissionView { target, ..self };
        match runtime_chain::loop_plan(self.instance.definition, self.instance.state) {
            WhilePlanView::Unknown => s.leaving(target, Seq::empty()),
            WhilePlanView::Leave => SubmissionView {
                next: InstanceView {
                    context: self.next.context.minus(
                        runtime_chain::loop_key(self.instance.state),
                    ),
                    ..self.next
                },
                ..s
            }.leaving(target, Seq::empty()),
            WhilePlanView::Uncapped(m) => s.quietly(
                SubmitPhase::Finished,
                SubmitActionView::Fail(m),
            ),
            WhilePlanView::Judge { guard, max_iterations } => SubmissionView {
                max_iterations,
                ..s
            }.quietly(SubmitPhase::Looping, SubmitActionView::JudgeLoop(guard)),
        }
    }

    /// The guard of the loop was judged: another round re-enters the state.
    #[verifier::opaque]
    pub open spec fn looped(self, truthy: bool) -> SubmitDecision {
        let state = self.instance.state;
        let step = runtime_chain::loop_step(
            self.next.context,
            state,
            self.max_iterations,
            truthy,
        );
        let s = SubmissionView {
            next: InstanceView {
                context: runtime_chain::looped(self.next.context, state, step),
                ..self.next
            },
            ..self
        };
        match step {
            LoopView::Exceeded(m) => s.quietly(SubmitPhase::Finished, SubmitActionView::Fail(m)),
            LoopView::Leave => s.leaving(self.target, Seq::empty()),
            LoopView::Again(n) => s.leaving(
                state,
                seq![
                    runtime_chain::iteration_event(
                        s.next,
                        state,
                        n,
                        self.max_iterations,
                        self.correlation_id,
                        self.principal,
                    ),
                ],
            ),
        }
    }

    /// Leaves the state for the target: what lives only in the state goes, and the
    /// version grows by one.
    #[verifier::opaque]
    pub open spec fn leaving(self, target: Seq<char>, notes: Seq<AuditEventView>) -> SubmitDecision {
        let from = self.instance.state;
        let (context, names) = runtime_chain::left(
            self.instance.definition,
            from,
            target,
            self.next.context,
        );
        let cleared = InstanceView { context, ..self.next };
        SubmitDecision {
            submission: SubmissionView {
                target,
                next: InstanceView {
                    state: target,
                    version: (self.next.version + 1) as u64,
                    ..cleared
                },
                phase: SubmitPhase::Diffing,
                ..self
            },
            notes: if names.len() > 0 {
                notes.push(
                    runtime_chain::cleared_event(
                        cleared,
                        from,
                        names,
                        self.correlation_id,
                        self.principal,
                    ),
                )
            } else {
                notes
            },
            action: SubmitActionView::Diff,
        }
    }

    /// The actor of the record: what the transition declares.
    pub open spec fn actor(self) -> Seq<char> {
        runtime_links::str_else(self.transition_def, "actor"@, "agent"@)
    }

    /// The record of the transition. The runtime's own transitions name no
    /// principal.
    pub open spec fn record(self, delta: Json, now: Seq<char>) -> RecordView {
        RecordView {
            instance: self.next,
            from_state: self.instance.state,
            transition_name: self.transition,
            transition_def: self.transition_def,
            actor: self.actor(),
            principal: if self.actor() == "deterministic"@ || self.actor() == "system"@ {
                None
            } else {
                Some(self.principal.subject)
            },
            arguments: self.arguments,
            blackboard_delta: delta,
            guard_results: self.guard_results,
            child_workflow_id: self.child_workflow_id,
            executor_outcome: self.executor_outcome,
            correlation_id: self.correlation_id,
            timestamp: now,
        }
    }

    /// The audit event that a transition was taken.
    pub open spec fn announcement(self, i: InstanceView) -> AuditEventView {
        i.event(
            "workflow.transitioned"@,
            self.correlation_id,
            Some(self.principal.subject),
            Json::empty().with("transition"@, Json::String(self.transition)).with(
                "state"@,
                Json::String(i.state),
            ).with("version"@, Json::Number(Number::PosInt(i.version))),
        )
    }

    /// The chain has ended: a workflow in a terminal state is recorded as
    /// completed before the answer.
    #[verifier::opaque]
    pub open spec fn chained(self, outcome: ChainOutcomeView) -> SubmitDecision {
        let reply = runtime::reply_after_chain(outcome, "executed"@, self.evidence);
        if outcome is Completed && runtime_links::terminal(
            self.instance.definition,
            reply.instance.state,
        ) {
            SubmissionView { reply: Some(reply), ..self }.quietly(
                SubmitPhase::Completing,
                SubmitActionView::Record(
                    runtime::completed_event(reply.instance, self.correlation_id),
                ),
            )
        } else {
            self.quietly(SubmitPhase::Finished, SubmitActionView::Respond(reply))
        }
    }

    /// The timeout was checked: a workflow that ran out of time answers so.
    #[verifier::opaque]
    pub open spec fn timeout_checked(self, timed_out: Option<InstanceView>) -> SubmitDecision {
        match timed_out {
            Some(i) => self.quietly(
                SubmitPhase::Finished,
                SubmitActionView::Respond(runtime::plain_reply(i, "timed_out"@, None)),
            ),
            None => self.quietly(
                SubmitPhase::Requesting,
                SubmitActionView::Record(self.requested()),
            ),
        }
    }

    /// The request was recorded: it is admitted or refused.
    #[verifier::opaque]
    pub open spec fn requesting(self) -> SubmitDecision {
        match admission(
            self.instance,
            self.expected_version,
            self.transition,
            self.principal,
        ) {
            Err(r) => self.rejecting(r),
            Ok(t) => SubmissionView { transition_def: t, ..self }.quietly(
                SubmitPhase::Checking,
                SubmitActionView::CheckArguments,
            ),
        }
    }

    /// The arguments were checked.
    #[verifier::opaque]
    pub open spec fn arguments_checked(self, checked: Result<Json, Seq<char>>) -> SubmitDecision {
        match checked {
            Err(m) => self.rejecting(
                RefusalView { code: "INPUT_SCHEMA_VIOLATION"@, message: m },
            ),
            Ok(arguments) => SubmissionView { arguments, ..self }.quietly(
                SubmitPhase::Guarding,
                SubmitActionView::JudgeGuards,
            ),
        }
    }

    /// The executor has succeeded.
    #[verifier::opaque]
    pub open spec fn executed(self, result: ExecuteResult, ms: u64) -> SubmitDecision {
        SubmissionView {
            pending_evidence: model::evidence_views(result.evidence@),
            child_workflow_id: text::opt_text(result.child_workflow_id),
            executor_outcome: Some((true, ms)),
            ..self
        }.quietly(SubmitPhase::Merging, SubmitActionView::Merge(result.output@))
    }

    /// The executor has failed: that is recorded before the answer.
    #[verifier::opaque]
    pub open spec fn executor_failed(self, e: ExecutorErrorView) -> SubmitDecision {
        SubmissionView {
            reply: Some(
                runtime::plain_reply(
                    self.instance,
                    "failed"@,
                    Some(runtime_response::executor_failure(e, self.transition)),
                ),
            ),
            ..self
        }.quietly(
            SubmitPhase::Failing,
            SubmitActionView::Record(
                runtime_response::executor_failed_event(
                    self.instance,
                    e,
                    self.transition,
                    self.correlation_id,
                    self.principal,
                ),
            ),
        )
    }

    /// The entry action has run: the transition is announced.
    #[verifier::opaque]
    pub open spec fn entered(self, i: InstanceView) -> SubmitDecision {
        SubmissionView { next: i, ..self }.quietly(
            SubmitPhase::Announcing,
            SubmitActionView::Record(self.announcement(i)),
        )
    }

    /// An audit event was recorded.
    #[verifier::opaque]
    pub open spec fn recorded(self) -> SubmitDecision {
        match self.phase {
            SubmitPhase::Requesting => self.requesting(),
            SubmitPhase::Recording => self.quietly(
                SubmitPhase::Saving,
                SubmitActionView::Save {
                    instance: self.next,
                    expected_version: self.expected_version,
                },
            ),
            SubmitPhase::Announcing => self.quietly(
                SubmitPhase::Chaining,
                SubmitActionView::Chain {
                    instance: self.next,
                    max_depth: runtime::chain_limit(self.instance.definition),
                },
            ),
            SubmitPhase::Failing => self.answering(),
            SubmitPhase::Completing => self.answering(),
            _ => self.ignoring(),
        }
    }

    /// What follows an event. The audit events are in the trace that the request asks
    /// for, if it asks for one.
    pub open spec fn after(self, event: SubmitEvent) -> SubmitDecision {
        let d = self.decided(event);
        SubmitDecision {
            submission: d.submission,
            notes: audit::all_traced(d.notes, self.trace_id),
            action: d.action.traced(self.trace_id),
        }
    }

    /// What follows an event, with the audit events in the trace of the workflow. An
    /// event that does not fit where the submit stands changes nothing.
    pub open spec fn decided(self, event: SubmitEvent) -> SubmitDecision {
        match event {
            SubmitEvent::Recorded => self.recorded(),
            SubmitEvent::TimeoutChecked(timed_out) => if self.phase == SubmitPhase::TimingOut {
                self.timeout_checked(
                    match timed_out {
                        Some(i) => Some(i@),
                        None => None,
                    },
                )
            } else {
                self.ignoring()
            },
            SubmitEvent::ArgumentsChecked(checked) => if self.phase == SubmitPhase::Checking {
                self.arguments_checked(
                    match checked {
                        Ok(v) => Ok(v@),
                        Err(m) => Err(m@),
                    },
                )
            } else {
                self.ignoring()
            },
            SubmitEvent::GuardUnset(m) => if self.phase == SubmitPhase::Guarding {
                self.rejecting(RefusalView { code: "GUARD_UNSET_SLOT"@, message: m@ })
            } else {
                self.ignoring()
            },
            SubmitEvent::GuardsJudged(o) => if self.phase == SubmitPhase::Guarding {
                self.guarded(o@)
            } else {
                self.ignoring()
            },
            SubmitEvent::Executed(result, ms) => if self.phase == SubmitPhase::Executing {
                self.executed(result, ms)
            } else {
                self.ignoring()
            },
            SubmitEvent::ExecutorFailed(e) => if self.phase == SubmitPhase::Executing {
                self.executor_failed(e@)
            } else {
                self.ignoring()
            },
            SubmitEvent::Merged { context, violation, constraint, confidence } => if self.phase
                == SubmitPhase::Merging {
                self.merged(
                    context@,
                    match violation {
                        Some(v) => Some((v.0@, v.1@)),
                        None => None,
                    },
                    text::opt_text(constraint),
                    confidence@,
                )
            } else {
                self.ignoring()
            },
            SubmitEvent::Targeted(target) => if self.phase == SubmitPhase::Targeting {
                self.targeted(target@)
            } else {
                self.ignoring()
            },
            SubmitEvent::LoopJudged(truthy) => if self.phase == SubmitPhase::Looping {
                self.looped(truthy)
            } else {
                self.ignoring()
            },
            SubmitEvent::Diffed { delta, now } => if self.phase == SubmitPhase::Diffing {
                self.quietly(
                    SubmitPhase::Recording,
                    SubmitActionView::Record(
                        runtime::transition_record(self.record(delta@, now@)),
                    ),
                )
            } else {
                self.ignoring()
            },
            SubmitEvent::Saved(i) => if self.phase == SubmitPhase::Saving {
                self.quietly(SubmitPhase::Entering, SubmitActionView::Enter(i@))
            } else {
                self.ignoring()
            },
            SubmitEvent::Entered(i) => if self.phase == SubmitPhase::Entering {
                self.entered(i@)
            } else {
                self.ignoring()
            },
            SubmitEvent::Chained(outcome) => if self.phase == SubmitPhase::Chaining {
                self.chained(outcome@)
            } else {
                self.ignoring()
            },
        }
    }

    /// Answers with the reply that was prepared.
    #[verifier::opaque]
    pub open spec fn answering(self) -> SubmitDecision {
        match self.reply {
            Some(r) => self.quietly(SubmitPhase::Finished, SubmitActionView::Respond(r)),
            None => self.ignoring(),
        }
    }

    /// Until the state is left, the workflow keeps the state and version that it
    /// was loaded with.
    pub open spec fn wf(self) -> bool {
        match self.phase {
            SubmitPhase::TimingOut
            | SubmitPhase::Requesting
            | SubmitPhase::Checking
            | SubmitPhase::Guarding
            | SubmitPhase::Executing
            | SubmitPhase::Merging
            | SubmitPhase::Targeting
            | SubmitPhase::Looping => self.next.version == self.instance.version,
            SubmitPhase::Diffing | SubmitPhase::Recording => self.next.version
                == self.instance.version + 1,
            _ => true,
        }
    }
}

/// A submit at its beginning.
pub open spec fn new_submission(
    transition: Seq<char>,
    expected_version: u64,
    summary: Option<Seq<char>>,
    principal: PrincipalView,
    arguments: Json,
    correlation_id: Seq<char>,
    trace_id: Option<Seq<char>>,
    instance: InstanceView,
) -> SubmissionView {
    SubmissionView {
        transition,
        expected_version,
        summary,
        principal,
        correlation_id,
        trace_id,
        instance,
        next: instance,
        transition_def: Json::Null,
        arguments,
        guard_results: Seq::empty(),
        pending_evidence: Seq::empty(),
        evidence: Seq::empty(),
        child_workflow_id: None,
        executor_outcome: None,
        target: Seq::empty(),
        max_iterations: 0,
        reply: None,
        phase: SubmitPhase::TimingOut,
    }
}

fn no_notes() -> (r: Vec<AuditEvent>)
    ensures
        audit::event_views(r@) == Seq::<AuditEventView>::empty(),
        audit::all_named(r@),
{
    let v: Vec<AuditEvent> = Vec::new();
    assert(audit::event_views(v@) =~= Seq::empty());
    v
}

/// The events in the given trace.
fn in_trace(events: Vec<AuditEvent>, trace_id: &Option<String>) -> (r: Vec<AuditEvent>)
    ensures
        audit::event_views(r@) == audit::all_traced(
            audit::event_views(events@),
            text::opt_text(*trace_id),
        ),
        audit::all_named(events@) ==> audit::all_named(r@),
{
    let mut out: Vec<AuditEvent> = Vec::new();
    let mut i: usize = 0;
    while i < events.len()
        invariant
            i <= events.len(),
            out.len() == i,
            forall|k: int|
                0 <= k < i ==> (#[trigger] out@[k])@ == events@[k]@.traced(
                    text::opt_text(*trace_id),
                ) && out@[k].id@ == events@[k].id@,
        decreases events.len() - i,
    {
        out.push(events[i].dup().traced(trace_id));
        i = i + 1;
    }
    out
}

impl SubmitAction {
    /// The action, with its audit event in the given trace.
    fn traced(self, trace_id: &Option<String>) -> (r: SubmitAction)
        ensures
            r@ == self@.traced(text::opt_text(*trace_id)),
            r.named() == self.named(),
    {
        match self {
            SubmitAction::Record(e) => SubmitAction::Record(e.traced(trace_id)),
            SubmitAction::Reject { event, reply } => SubmitAction::Reject {
                event: event.traced(trace_id),
                reply,
            },
            other => other,
        }
    }
}

impl Submission {
    /// Begins a submit on the instance as it was loaded. A cancelled workflow
    /// refuses every submit; `cancelled_at` is the time of its cancellation as it
    /// is shown.
    pub fn begin(
        request: SubmitTransition,
        instance: WorkflowInstance,
        correlation_id: &str,
        cancelled_at: &str,
    ) -> (r: Result<(Submission, SubmitAction), String>)
        ensures
            match r {
                Err(m) => instance@.cancelled_at is Some && m@ == cancelled_message(
                    request.workflow_id@,
                    cancelled_at@,
                    instance@.cancelled_reason,
                ),
                Ok((s, action)) => {
                    &&& instance@.cancelled_at is None
                    &&& s@ == new_submission(
                        request.transition@,
                        request.expected_version,
                        text::opt_text(request.summary),
                        request.principal@,
                        request.arguments@,
                        correlation_id@,
                        text::opt_text(request.trace_id),
                        instance@,
                    )
                    &&& s@.wf()
                    &&& action@ == SubmitActionView::CheckTimeout
                },
            },
    {
        if instance.cancelled_at.is_some() {
            let reason = match &instance.cancelled_reason {
                Some(r) => r.as_str(),
                None => "(none)",
            };
            return Err(
                text::join7(
                    "WORKFLOW_CANCELLED: workflow ",
                    request.workflow_id.as_str(),
                    " was cancelled at ",
                    cancelled_at,
                    " (reason: ",
                    reason,
                    ")",
                ),
            );
        }
        let next = instance.dup();
        let s = Submission {
            transition: request.transition,
            expected_version: request.expected_version,
            summary: request.summary,
            principal: request.principal,
            correlation_id: correlation_id.to_owned(),
            trace_id: request.trace_id,
            instance,
            next,
            transition_def: Value::Null,
            arguments: request.arguments,
            guard_results: Vec::new(),
            pending_evidence: Vec::new(),
            evidence: Vec::new(),
            child_workflow_id: None,
            executor_outcome: None,
            target: String::new(),
            max_iterations: 0,
            reply: None,
            phase: SubmitPhase::TimingOut,
        };
        proof {
            assert(s@.guard_results =~= Seq::empty());
            assert(s@.pending_evidence =~= Seq::empty());
            assert(s@.evidence =~= Seq::empty());
            assert(s@.target =~= Seq::empty());
        }
        Ok((s, SubmitAction::CheckTimeout))
    }

    fn reject(&mut self, refusal: Refusal) -> (action: SubmitAction)
        ensures
            action.named(),
            old(self)@.rejecting(refusal@).notes == Seq::<AuditEventView>::empty(),
            final(self)@ == old(self)@.rejecting(refusal@).submission,
            action@ == old(self)@.rejecting(refusal@).action,
    {
        proof {
            reveal(SubmissionView::rejecting);
        }
        let event = runtime_response::record_rejected(
            &self.instance,
            refusal.code,
            refusal.message.as_str(),
            self.transition.as_str(),
            self.correlation_id.as_str(),
            &self.principal,
        );
        let error = runtime_response::invalid_response(
            refusal.code,
            refusal.message.as_str(),
            self.transition.as_str(),
        );
        let reply = runtime::reply_plainly(self.instance.dup(), "rejected", Some(error));
        self.phase = SubmitPhase::Finished;
        SubmitAction::Reject { event, reply }
    }

    fn settle(&mut self, context: Value) -> (action: SubmitAction)
        ensures
            action.named(),
            old(self)@.settling(context@).notes == Seq::<AuditEventView>::empty(),
            final(self)@ == old(self)@.settling(context@).submission,
            action@ == old(self)@.settling(context@).action,
    {
        proof {
            reveal(SubmissionView::settling);
        }
        let mut c = context;
        take_transition(
            &mut c,
            &self.summary,
            &self.transition_def,
            self.instance.state.as_str(),
            self.transition.as_str(),
        );
        self.next.context = c;
        self.phase = SubmitPhase::Targeting;
        SubmitAction::Target
    }

    fn leave(&mut self, target: String, notes: &mut Vec<AuditEvent>) -> (action: SubmitAction)
        requires
            old(self).next.version < u64::MAX,
        ensures
            action.named(),
            audit::all_named(old(notes)@) ==> audit::all_named(final(notes)@),
            ({
                let d = old(self)@.leaving(target@, audit::event_views(old(notes)@));
                &&& final(self)@ == d.submission
                &&& audit::event_views(final(notes)@) == d.notes
                &&& action@ == d.action
            }),
    {
        proof {
            reveal(SubmissionView::leaving);
        }
        let mut c = self.next.context.dup();
        let names = runtime_chain::clear_state_local_slots_on_exit(
            &self.instance.definition,
            self.instance.state.as_str(),
            target.as_str(),
            &mut c,
        );
        self.next.context = c;
        if names.len() > 0 {
            let e = runtime_chain::cleared_event_for(
                &self.next,
                self.instance.state.as_str(),
                names,
                self.correlation_id.as_str(),
                &self.principal,
            );
            let ghost before = notes@;
            notes.push(e);
            assert(audit::event_views(notes@) =~= audit::event_views(before).push(e@));
        }
        self.next.state = target.clone();
        self.next.version = self.next.version + 1;
        self.target = target;
        self.phase = SubmitPhase::Diffing;
        SubmitAction::Diff
    }

    fn target_chosen(&mut self, target: String, notes: &mut Vec<AuditEvent>) -> (action: SubmitAction)
        requires
            old(self)@.targeted(target@).action is Diff ==> old(self).next.version < u64::MAX,
            audit::event_views(old(notes)@) == Seq::<AuditEventView>::empty(),
        ensures
            action.named(),
            audit::all_named(old(notes)@) ==> audit::all_named(final(notes)@),
            ({
                let d = old(self)@.targeted(target@);
                &&& final(self)@ == d.submission
                &&& audit::event_views(final(notes)@) == d.notes
                &&& action@ == d.action
            }),
    {
        proof {
            reveal(SubmissionView::targeted);
            reveal(SubmissionView::leaving);
        }
        self.target = target.clone();
        match runtime_chain::plan_while_loop(
            &self.instance.definition,
            self.instance.state.as_str(),
        ) {
            WhilePlan::Unknown => self.leave(target, notes),
            WhilePlan::Leave => {
                let mut c = self.next.context.dup();
                runtime_chain::clear_while_iter(&mut c, self.instance.state.as_str());
                self.next.context = c;
                self.leave(target, notes)
            },
            WhilePlan::Uncapped(m) => {
                self.phase = SubmitPhase::Finished;
                SubmitAction::Fail(m)
            },
            WhilePlan::Judge { guard, max_iterations } => {
                self.max_iterations = max_iterations;
                self.phase = SubmitPhase::Looping;
                SubmitAction::JudgeLoop(guard)
            },
        }
    }

    fn loop_judged(&mut self, truthy: bool, notes: &mut Vec<AuditEvent>) -> (action: SubmitAction)
        requires
            old(self)@.looped(truthy).action is Diff ==> old(self).next.version < u64::MAX,
            audit::event_views(old(notes)@) == Seq::<AuditEventView>::empty(),
        ensures
            action.named(),
            audit::all_named(old(notes)@) ==> audit::all_named(final(notes)@),
            ({
                let d = old(self)@.looped(truthy);
                &&& final(self)@ == d.submission
                &&& audit::event_views(final(notes)@) == d.notes
                &&& action@ == d.action
            }),
    {
        proof {
            reveal(SubmissionView::looped);
            reveal(SubmissionView::leaving);
        }
        let mut c = self.next.context.dup();
        let step = runtime_chain::apply_while_loop(
            &mut c,
            self.instance.state.as_str(),
            self.max_iterations,
            truthy,
        );
        self.next.context = c;
        match step {
            LoopStep::Exceeded(m) => {
                self.phase = SubmitPhase::Finished;
                SubmitAction::Fail(m)
            },
            LoopStep::Leave => {
                let target = self.target.clone();
                self.leave(target, notes)
            },
            LoopStep::Again(n) => {
                let e = runtime_chain::iteration_event_for(
                    &self.next,
                    self.instance.state.as_str(),
                    n,
                    self.max_iterations,
                    self.correlation_id.as_str(),
                    &self.principal,
                );
                notes.push(e);
                assert(audit::event_views(notes@) =~= seq![e@]);
                let target = self.instance.state.clone();
                self.leave(target, notes)
            },
        }
    }

    fn write_record(&mut self, delta: &Value, now: &str) -> (action: SubmitAction)
        ensures
            action.named(),
            final(self)@ == (SubmissionView { phase: SubmitPhase::Recording, ..old(self)@ }),
            action@ == SubmitActionView::Record(
                runtime::transition_record(old(self)@.record(delta@, now@)),
            ),
    {
        let actor = runtime_links::str_or_default(&self.transition_def, "actor", "agent");
        let principal = if text::str_eq(actor, "deterministic") || text::str_eq(actor, "system") {
            None
        } else {
            Some(self.principal.subject.as_str())
        };
        let child = match &self.child_workflow_id {
            Some(c) => Some(c.as_str()),
            None => None,
        };
        let record = runtime::emit_transition_record(
            &TransitionRecordParams {
                instance: &self.next,
                from_state: self.instance.state.as_str(),
                transition_name: self.transition.as_str(),
                transition_def: &self.transition_def,
                actor,
                principal,
                arguments: &self.arguments,
                blackboard_delta: delta,
                guard_results: &self.guard_results,
                child_workflow_id: child,
                executor_outcome: self.executor_outcome,
                correlation_id: self.correlation_id.as_str(),
                timestamp: now,
            },
        );
        self.phase = SubmitPhase::Recording;
        SubmitAction::Record(record)
    }

    fn chain_ended(&mut self, outcome: ChainOutcome) -> (action: SubmitAction)
        ensures
            action.named(),
            old(self)@.chained(outcome@).notes == Seq::<AuditEventView>::empty(),
            final(self)@ == old(self)@.chained(outcome@).submission,
            action@ == old(self)@.chained(outcome@).action,
    {
        proof {
            reveal(SubmissionView::chained);
        }
        let completed = match &outcome {
            ChainOutcome::Completed(_) => true,
            _ => false,
        };
        let reply = runtime::reply_with_chain(outcome, "executed", &self.evidence);
        if completed && runtime_links::is_terminal(
            &self.instance.definition,
            reply.instance.state.as_str(),
        ) {
            let event = runtime::completed_event_for(
                &reply.instance,
                self.correlation_id.as_str(),
            );
            self.reply = Some(reply);
            self.phase = SubmitPhase::Completing;
            SubmitAction::Record(event)
        } else {
            self.phase = SubmitPhase::Finished;
            SubmitAction::Respond(reply)
        }
    }

    fn answer(&mut self) -> (action: SubmitAction)
        ensures
            action.named(),
            old(self)@.answering().notes == Seq::<AuditEventView>::empty(),
            final(self)@ == old(self)@.answering().submission,
            action@ == old(self)@.answering().action,
    {
        proof {
            reveal(SubmissionView::answering);
        }
        match &self.reply {
            Some(r) => {
                let reply = r.dup();
                self.phase = SubmitPhase::Finished;
                SubmitAction::Respond(reply)
            },
            None => SubmitAction::Ignore,
        }
    }

    fn timeout_checked(&mut self, timed_out: Option<WorkflowInstance>) -> (action: SubmitAction)
        ensures
            action.named(),
            ({
                let d = old(self)@.timeout_checked(
                    match timed_out {
                        Some(i) => Some(i@),
                        None => None,
                    },
                );
                final(self)@ == d.submission && action@ == d.action && d.notes == Seq::<
                    AuditEventView,
                >::empty()
            }),
    {
        proof {
            reveal(SubmissionView::timeout_checked);
        }
        match timed_out {
            Some(i) => {
                self.phase = SubmitPhase::Finished;
                SubmitAction::Respond(runtime::reply_plainly(i, "timed_out", None))
            },
            None => {
                let payload = Value::object().and(
                    "transition",
                    Value::text(self.transition.as_str()),
                ).and("expectedVersion", Value::uint(self.expected_version)).and(
                    "fromState",
                    Value::text(self.instance.state.as_str()),
                );
                let event = self.instance.event(
                    "transition.requested",
                    self.correlation_id.as_str(),
                    Some(self.principal.subject.as_str()),
                    payload,
                );
                self.phase = SubmitPhase::Requesting;
                SubmitAction::Record(event)
            },
        }
    }

    fn request_recorded(&mut self) -> (action: SubmitAction)
        ensures
            action.named(),
            old(self)@.requesting().notes == Seq::<AuditEventView>::empty(),
            final(self)@ == old(self)@.requesting().submission,
            action@ == old(self)@.requesting().action,
    {
        proof {
            reveal(SubmissionView::requesting);
        }
        match check_admission(
            &self.instance,
            self.expected_version,
            self.transition.as_str(),
            &self.principal,
        ) {
            Err(r) => self.reject(r),
            Ok(t) => {
                self.transition_def = t;
                self.phase = SubmitPhase::Checking;
                SubmitAction::CheckArguments
            },
        }
    }

    fn recorded(&mut self) -> (action: SubmitAction)
        ensures
            action.named(),
            old(self)@.recorded().notes == Seq::<AuditEventView>::empty(),
            final(self)@ == old(self)@.recorded().submission,
            action@ == old(self)@.recorded().action,
    {
        proof {
            reveal(SubmissionView::recorded);
        }
        match self.phase {
            SubmitPhase::Requesting => self.request_recorded(),
            SubmitPhase::Recording => {
                let instance = self.next.dup();
                self.phase = SubmitPhase::Saving;
                SubmitAction::Save { instance, expected_version: self.expected_version }
            },
            SubmitPhase::Announcing => {
                let instance = self.next.dup();
                let max_depth = runtime::max_chain_depth(&self.instance.definition);
                self.phase = SubmitPhase::Chaining;
                SubmitAction::Chain { instance, max_depth }
            },
            SubmitPhase::Failing => self.answer(),
            SubmitPhase::Completing => self.answer(),
            _ => SubmitAction::Ignore,
        }
    }

    fn arguments_checked(&mut self, checked: Result<Value, String>) -> (action: SubmitAction)
        ensures
            action.named(),
            ({
                let d = old(self)@.arguments_checked(
                    match checked {
                        Ok(v) => Ok(v@),
                        Err(m) => Err(m@),
                    },
                );
                final(self)@ == d.submission && action@ == d.action && d.notes == Seq::<
                    AuditEventView,
                >::empty()
            }),
    {
        proof {
            reveal(SubmissionView::arguments_checked);
        }
        match checked {
            Err(m) => self.reject(Refusal { code: "INPUT_SCHEMA_VIOLATION", message: m }),
            Ok(arguments) => {
                self.arguments = arguments;
                self.phase = SubmitPhase::Guarding;
                SubmitAction::JudgeGuards
            },
        }
    }

    fn guarded(&mut self, o: GuardsOutcome) -> (action: SubmitAction)
        ensures
            action.named(),
            old(self)@.guarded(o@).notes == Seq::<AuditEventView>::empty(),
            final(self)@ == old(self)@.guarded(o@).submission,
            action@ == old(self)@.guarded(o@).action,
    {
        proof {
            reveal(SubmissionView::guarded);
        }
        if !o.pass {
            let r = refuse_by_guards(&o.diagnostic);
            return self.reject(r);
        }
        self.guard_results = o.evaluated;
        if self.transition_def.has("executor") {
            self.phase = SubmitPhase::Executing;
            SubmitAction::Execute
        } else {
            let context = self.next.context.dup();
            self.settle(context)
        }
    }

    fn executed(&mut self, result: ExecuteResult, ms: u64) -> (action: SubmitAction)
        ensures
            action.named(),
            old(self)@.executed(result, ms).notes == Seq::<AuditEventView>::empty(),
            final(self)@ == old(self)@.executed(result, ms).submission,
            action@ == old(self)@.executed(result, ms).action,
    {
        proof {
            reveal(SubmissionView::executed);
        }
        self.pending_evidence = result.evidence;
        self.child_workflow_id = result.child_workflow_id;
        self.executor_outcome = Some((true, ms));
        self.phase = SubmitPhase::Merging;
        SubmitAction::Merge(result.output)
    }

    fn executor_failed(&mut self, e: ExecutorError) -> (action: SubmitAction)
        ensures
            action.named(),
            old(self)@.executor_failed(e@).notes == Seq::<AuditEventView>::empty(),
            final(self)@ == old(self)@.executor_failed(e@).submission,
            action@ == old(self)@.executor_failed(e@).action,
    {
        proof {
            reveal(SubmissionView::executor_failed);
        }
        let event = runtime_response::record_executor_failed(
            &self.instance,
            &e,
            self.transition.as_str(),
            self.correlation_id.as_str(),
            &self.principal,
        );
        let error = runtime_response::failed_response(&e, self.transition.as_str());
        self.reply = Some(runtime::reply_plainly(self.instance.dup(), "failed", Some(error)));
        self.phase = SubmitPhase::Failing;
        SubmitAction::Record(event)
    }

    fn merged(
        &mut self,
        context: Value,
        violation: Option<(String, String)>,
        constraint: Option<String>,
        confidence: String,
    ) -> (action: SubmitAction)
        ensures
            action.named(),
            ({
                let d = old(self)@.merged(
                    context@,
                    match violation {
                        Some(v) => Some((v.0@, v.1@)),
                        None => None,
                    },
                    text::opt_text(constraint),
                    confidence@,
                );
                final(self)@ == d.submission && action@ == d.action && d.notes == Seq::<
                    AuditEventView,
                >::empty()
            }),
    {
        proof {
            reveal(SubmissionView::merged);
        }
        match refuse_output(
            violation,
            constraint,
            &self.pending_evidence,
            confidence.as_str(),
        ) {
            Some(r) => self.reject(r),
            None => {
                self.evidence = model::copy_evidence(&self.pending_evidence);
                self.settle(context)
            },
        }
    }

    fn entered(&mut self, i: WorkflowInstance) -> (action: SubmitAction)
        ensures
            action.named(),
            old(self)@.entered(i@).notes == Seq::<AuditEventView>::empty(),
            final(self)@ == old(self)@.entered(i@).submission,
            action@ == old(self)@.entered(i@).action,
    {
        proof {
            reveal(SubmissionView::entered);
        }
        let payload = Value::object().and(
            "transition",
            Value::text(self.transition.as_str()),
        ).and("state", Value::text(i.state.as_str())).and("version", Value::uint(i.version));
        let event = i.event(
            "workflow.transitioned",
            self.correlation_id.as_str(),
            Some(self.principal.subject.as_str()),
            payload,
        );
        self.next = i;
        self.phase = SubmitPhase::Announcing;
        SubmitAction::Record(event)
    }

    /// Decides what follows an event: the audit events to note, and what to do
    /// next.
    pub fn submit(&mut self, event: SubmitEvent) -> (r: (Vec<AuditEvent>, SubmitAction))
        requires
            old(self)@.wf(),
            old(self)@.after(event).action is Diff ==> old(self).instance.version < u64::MAX,
        ensures
            ({
                let d = old(self)@.after(event);
                &&& final(self)@ == d.submission
                &&& audit::event_views(r.0@) == d.notes
                &&& r.1@ == d.action
            }),
            audit::all_named(r.0@) && r.1.named(),
            final(self)@.wf(),
            final(self)@.instance == old(self)@.instance,
    {
        proof {
            law_version_grows(self@, event);
        }
        let trace_id = text::opt_copy(&self.trace_id);
        let (notes, action) = self.decide(event);
        (in_trace(notes, &trace_id), action.traced(&trace_id))
    }

    fn decide(&mut self, event: SubmitEvent) -> (r: (Vec<AuditEvent>, SubmitAction))
        requires
            old(self)@.wf(),
            old(self)@.decided(event).action is Diff ==> old(self).instance.version < u64::MAX,
        ensures
            ({
                let d = old(self)@.decided(event);
                &&& final(self)@ == d.submission
                &&& audit::event_views(r.0@) == d.notes
                &&& r.1@ == d.action
            }),
            audit::all_named(r.0@) && r.1.named(),
    {
        let mut notes = no_notes();
        let phase = self.phase;
        let action = match event {
            SubmitEvent::Recorded => self.recorded(),
            SubmitEvent::TimeoutChecked(timed_out) => if phase == SubmitPhase::TimingOut {
                self.timeout_checked(timed_out)
            } else {
                SubmitAction::Ignore
            },
            SubmitEvent::ArgumentsChecked(checked) => if phase == SubmitPhase::Checking {
                self.arguments_checked(checked)
            } else {
                SubmitAction::Ignore
            },
            SubmitEvent::GuardUnset(m) => if phase == SubmitPhase::Guarding {
                self.reject(Refusal { code: "GUARD_UNSET_SLOT", message: m })
            } else {
                SubmitAction::Ignore
            },
            SubmitEvent::GuardsJudged(o) => if phase == SubmitPhase::Guarding {
                self.guarded(o)
            } else {
                SubmitAction::Ignore
            },
            SubmitEvent::Executed(result, ms) => if phase == SubmitPhase::Executing {
                self.executed(result, ms)
            } else {
                SubmitAction::Ignore
            },
            SubmitEvent::ExecutorFailed(e) => if phase == SubmitPhase::Executing {
                self.executor_failed(e)
            } else {
                SubmitAction::Ignore
            },
            SubmitEvent::Merged { context, violation, constraint, confidence } => if phase
                == SubmitPhase::Merging {
                self.merged(context, violation, constraint, confidence)
            } else {
                SubmitAction::Ignore
            },
            SubmitEvent::Targeted(target) => if phase == SubmitPhase::Targeting {
                self.target_chosen(target, &mut notes)
            } else {
                SubmitAction::Ignore
            },
            SubmitEvent::LoopJudged(truthy) => if phase == SubmitPhase::Looping {
                self.loop_judged(truthy, &mut notes)
            } else {
                SubmitAction::Ignore
            },
            SubmitEvent::Diffed { delta, now } => if phase == SubmitPhase::Diffing {
                self.write_record(&delta, now.as_str())
            } else {
                SubmitAction::Ignore
            },
            SubmitEvent::Saved(i) => if phase == SubmitPhase::Saving {
                self.phase = SubmitPhase::Entering;
                SubmitAction::Enter(i)
            } else {
                SubmitAction::Ignore
            },
            SubmitEvent::Entered(i) => if phase == SubmitPhase::Entering {
                self.entered(i)
            } else {
                SubmitAction::Ignore
            },
            SubmitEvent::Chained(outcome) => if phase == SubmitPhase::Chaining {
                self.chain_ended(outcome)
            } else {
                SubmitAction::Ignore
            },
        };
        (notes, action)
    }
}

// ---------------------------------------------------------------------------
// Laws
// ---------------------------------------------------------------------------

/// A stale request is refused, whatever else it asks for.
pub proof fn law_stale_refused(
    i: InstanceView,
    expected_version: u64,
    transition: Seq<char>,
    principal: PrincipalView,
)
    requires
        i.version != expected_version,
    ensures
        admission(i, expected_version, transition, principal) == Err::<Json, RefusalView>(
            stale(expected_version, i.version),
        ),
{
}

/// A transition for humans is never admitted for a principal that is not human.
pub proof fn law_human_gate(
    i: InstanceView,
    expected_version: u64,
    transition: Seq<char>,
    principal: PrincipalView,
)
    requires
        runtime_links::transition_of(i.definition, i.state, transition) matches Some(t) && t.str_at(
            "actor"@,
        ) == Some("human"@),
        !principal.is_human(),
    ensures
        admission(i, expected_version, transition, principal) is Err,
{
}

/// A transition with a cap is admitted only while it was taken less often than
/// the cap in this visit of the state.
pub proof fn law_fire_cap(
    i: InstanceView,
    expected_version: u64,
    transition: Seq<char>,
    principal: PrincipalView,
)
    ensures
        admission(i, expected_version, transition, principal) matches Ok(t) ==> (t.u64_at(
            "max_fires_per_visit"@,
        ) matches Some(max) ==> fired(i.context, i.state, transition) < max),
{
}

/// A link can be followed: it names the workflow, its version and a transition of its
/// state, and a submit with these is refused only to a principal that is not human
/// where the transition is for humans, or once the cap of the transition is reached.
pub open spec fn legal_move(i: InstanceView, link: Json, principal: PrincipalView) -> bool {
    match (link.str_at("rel"@), link.get("args"@)) {
        (Some(rel), Some(args)) => {
            &&& args.str_at("workflowId"@) == Some(i.id)
            &&& args.u64_at("expectedVersion"@) == Some(i.version)
            &&& args.str_at("transition"@) == Some(rel)
            &&& match runtime_links::transition_of(i.definition, i.state, rel) {
                Some(t) => !runtime_links::deterministic(t) && match admission(
                    i,
                    i.version,
                    rel,
                    principal,
                ) {
                    Ok(x) => x == t,
                    Err(_) => {
                        ||| t.str_at("actor"@) == Some("human"@) && !principal.is_human()
                        ||| match t.u64_at("max_fires_per_visit"@) {
                            Some(max) => fired(i.context, i.state, rel) >= max,
                            None => false,
                        }
                    },
                },
                None => false,
            }
        },
        _ => false,
    }
}

/// Every link that is offered can be followed.
pub proof fn law_links_are_legal_moves(
    i: InstanceView,
    prefills: Json,
    j: int,
    principal: PrincipalView,
)
    requires
        i.definition.wf(),
        0 <= j < runtime_links::links_of(i.definition, i, prefills).len(),
    ensures
        legal_move(i, runtime_links::links_of(i.definition, i, prefills)[j], principal),
{
    let d = i.definition;
    let ts = runtime_links::transitions_of(d, i.state)->0;
    let links = runtime_links::links_of(d, i, prefills);
    runtime_links::law_links_not_deterministic(ts, ts.len() as int, d, i, prefills);
    assert(links == runtime_links::links_after(ts, ts.len() as int, d, i, prefills));
    let link = links[j];
    let k = choose|k: int|
        0 <= k < ts.len() && !runtime_links::deterministic((#[trigger] ts[k]).1) && link
            == runtime_links::link_of(ts[k].0, ts[k].1, d, i, prefills.get(ts[k].0));
    runtime_links::lemma_link_fields(ts[k].0, ts[k].1, d, i, prefills.get(ts[k].0));
    lemma_transitions_sorted(d, i.state);
    json::lemma_find_entry(ts, k);
    assert(link.str_at("rel"@) == Some(ts[k].0));
    let declared = runtime_links::state_field(d, i.state, "transitions"@)->0;
    assert(declared == Json::Object(ts));
    assert(declared.step(ts[k].0) == Some(ts[k].1)) by {
        reveal(Json::step);
    }
    assert(runtime_links::transition_of(d, i.state, ts[k].0) == Some(ts[k].1));
}

proof fn lemma_transitions_sorted(d: Json, state: Seq<char>)
    requires
        d.wf(),
        runtime_links::transitions_of(d, state) is Some,
    ensures
        json::sorted(runtime_links::transitions_of(d, state)->0),
{
    reveal(Json::get);
    json::lemma_get_wf(d, "states"@);
    let states = d.get("states"@)->0;
    let s = runtime_links::state_of(d, state)->0;
    assert(s.wf()) by {
        reveal(Json::step);
        match states {
            Json::Object(e) => {
                json::lemma_get_wf(states, state);
                assert(states.get(state) == json::find(e, state));
            },
            Json::Array(v) => {
                let n = text::array_index(state)->0;
                assert(v[n as int].wf());
            },
            _ => {},
        }
    }
    json::lemma_get_wf(s, "transitions"@);
}

/// Taking a transition with a cap counts it, up to the largest number that can be
/// counted.
pub proof fn law_fires_counted(
    context: Json,
    summary: Option<Seq<char>>,
    transition_def: Json,
    state: Seq<char>,
    transition: Seq<char>,
)
    requires
        context is Object,
        transition_def.u64_at("max_fires_per_visit"@) is Some,
    ensures
        fired(taken(context, summary, transition_def, state, transition), state, transition)
            == counted(fired(context, state, transition)),
{
    let key = runtime_chain::fire_key(state, transition);
    reveal_strlit("_fire_count.");
    reveal_strlit("summary");
    assert(key[0] == '_');
    let a = runtime_response::with_opt(
        context,
        "summary"@,
        runtime_response::some_text(summary),
    );
    if let Some(t) = summary {
        json::law_get_with(context, "summary"@, Json::String(t), key);
    }
    json::law_get_with(
        a,
        key,
        Json::Number(Number::PosInt(counted(fired(a, state, transition)))),
        key,
    );
}

/// Nothing runs for a request that is not admitted, whose arguments do not fit, or
/// whose guards do not pass: an executor runs only after every guard has passed, the
/// guards are judged only after the arguments were found to fit, and the arguments are
/// checked only after the request was admitted.
pub proof fn law_executor_after_guards(s: SubmissionView, event: SubmitEvent)
    ensures
        s.after(event).action is Execute ==> s.phase == SubmitPhase::Guarding && (
        event matches SubmitEvent::GuardsJudged(o) && o@.pass),
        s.after(event).action is CheckArguments ==> s.phase == SubmitPhase::Requesting && admission(
            s.instance,
            s.expected_version,
            s.transition,
            s.principal,
        ) is Ok,
        s.after(event).action is JudgeGuards ==> s.phase == SubmitPhase::Checking && (
        event matches SubmitEvent::ArgumentsChecked(r) && r is Ok),
        s.after(event).submission.phase == SubmitPhase::Guarding ==> s.phase
            == SubmitPhase::Guarding || s.after(event).action is JudgeGuards,
        s.after(event).submission.phase == SubmitPhase::Checking ==> s.phase
            == SubmitPhase::Checking || s.after(event).action is CheckArguments,
{
    reveal(SubmissionView::rejecting);
    reveal(SubmissionView::settling);
    reveal(SubmissionView::guarded);
    reveal(SubmissionView::merged);
    reveal(SubmissionView::targeted);
    reveal(SubmissionView::looped);
    reveal(SubmissionView::leaving);
    reveal(SubmissionView::chained);
    reveal(SubmissionView::timeout_checked);
    reveal(SubmissionView::requesting);
    reveal(SubmissionView::arguments_checked);
    reveal(SubmissionView::executed);
    reveal(SubmissionView::executor_failed);
    reveal(SubmissionView::entered);
    reveal(SubmissionView::recorded);
    reveal(SubmissionView::answering);
}

/// The record comes first: an instance is handed to the store only right after
/// its transition record was written, under the version that the request expects.
pub proof fn law_record_first(s: SubmissionView, event: SubmitEvent)
    ensures
        s.after(event).action matches SubmitActionView::Save { instance, expected_version } ==> s.phase
            == SubmitPhase::Recording && event is Recorded && expected_version
            == s.expected_version && instance == s.next,
        s.after(event).submission.phase == SubmitPhase::Recording ==> s.phase
            == SubmitPhase::Recording || (s.phase == SubmitPhase::Diffing
            && s.after(event).action is Record),
{
    reveal(SubmissionView::rejecting);
    reveal(SubmissionView::settling);
    reveal(SubmissionView::guarded);
    reveal(SubmissionView::merged);
    reveal(SubmissionView::targeted);
    reveal(SubmissionView::looped);
    reveal(SubmissionView::leaving);
    reveal(SubmissionView::chained);
    reveal(SubmissionView::timeout_checked);
    reveal(SubmissionView::requesting);
    reveal(SubmissionView::arguments_checked);
    reveal(SubmissionView::executed);
    reveal(SubmissionView::executor_failed);
    reveal(SubmissionView::entered);
    reveal(SubmissionView::recorded);
    reveal(SubmissionView::answering);
}

/// What is committed is the next version of what was loaded, and what was loaded is
/// kept until the end.
pub proof fn law_version_grows(s: SubmissionView, event: SubmitEvent)
    requires
        s.wf(),
        s.after(event).action is Diff ==> s.instance.version < u64::MAX,
    ensures
        s.after(event).submission.wf(),
        s.after(event).submission.instance == s.instance,
        s.after(event).action matches SubmitActionView::Save { instance, expected_version } ==> instance.version
            == s.instance.version + 1,
{
    reveal(SubmissionView::rejecting);
    reveal(SubmissionView::settling);
    reveal(SubmissionView::guarded);
    reveal(SubmissionView::merged);
    reveal(SubmissionView::targeted);
    reveal(SubmissionView::looped);
    reveal(SubmissionView::leaving);
    reveal(SubmissionView::chained);
    reveal(SubmissionView::timeout_checked);
    reveal(SubmissionView::requesting);
    reveal(SubmissionView::arguments_checked);
    reveal(SubmissionView::executed);
    reveal(SubmissionView::executor_failed);
    reveal(SubmissionView::entered);
    reveal(SubmissionView::recorded);
    reveal(SubmissionView::answering);
}

/// A rejected request leaves the workflow as it was loaded: the reply shows it
/// unchanged.
pub proof fn law_rejection_changes_nothing(s: SubmissionView, event: SubmitEvent)
    ensures
        s.after(event).action matches SubmitActionView::Reject { event: e, reply } ==> reply.instance
            == s.instance && reply.status == "rejected"@ && s.after(event).submission.phase
            == SubmitPhase::Finished,
{
    reveal(SubmissionView::rejecting);
    reveal(SubmissionView::settling);
    reveal(SubmissionView::guarded);
    reveal(SubmissionView::merged);
    reveal(SubmissionView::targeted);
    reveal(SubmissionView::looped);
    reveal(SubmissionView::leaving);
    reveal(SubmissionView::chained);
    reveal(SubmissionView::timeout_checked);
    reveal(SubmissionView::requesting);
    reveal(SubmissionView::arguments_checked);
    reveal(SubmissionView::executed);
    reveal(SubmissionView::executor_failed);
    reveal(SubmissionView::entered);
    reveal(SubmissionView::recorded);
    reveal(SubmissionView::answering);
}

/// A submit is part of the trace that its request asks for: every audit event that it
/// emits carries that trace. Where the request asks for none, the events stay in the
/// trace of the workflow.
pub proof fn law_submit_trace(s: SubmissionView, event: SubmitEvent, k: int)
    ensures
        s.trace_id is Some && 0 <= k < s.after(event).notes.len() ==> s.after(
            event,
        ).notes[k].trace_id == s.trace_id,
        s.trace_id is Some && 0 <= k < s.after(event).action.recorded().len() ==> s.after(
            event,
        ).action.recorded()[k].trace_id == s.trace_id,
        s.trace_id is None ==> s.after(event) == s.decided(event),
{
    if s.trace_id is None {
        assert(audit::all_traced(s.decided(event).notes, None) =~= s.decided(event).notes);
    }
}

/// The trace of a request is that of one submit: it is kept to the end of the submit,
/// and the workflow that is committed keeps its own.
pub proof fn law_trace_is_kept(s: SubmissionView, event: SubmitEvent)
    ensures
        s.after(event).submission.trace_id == s.trace_id,
        s.next.trace_id == s.instance.trace_id && !(event is Entered) ==> s.after(
            event,
        ).submission.next.trace_id == s.instance.trace_id,
        s.next.trace_id == s.instance.trace_id ==> (
        s.after(event).action matches SubmitActionView::Save { instance, expected_version }
            ==> instance.trace_id == s.instance.trace_id),
{
    let d = s.decided(event);
    assert(d.submission.trace_id == s.trace_id && (s.next.trace_id == s.instance.trace_id && !(
    event is Entered) ==> d.submission.next.trace_id == s.instance.trace_id)) by {
        match event {
            SubmitEvent::Recorded => {
                reveal(SubmissionView::recorded);
                reveal(SubmissionView::requesting);
                reveal(SubmissionView::rejecting);
                reveal(SubmissionView::answering);
            },
            SubmitEvent::TimeoutChecked(_) => {
                reveal(SubmissionView::timeout_checked);
            },
            SubmitEvent::ArgumentsChecked(_) => {
                reveal(SubmissionView::arguments_checked);
                reveal(SubmissionView::rejecting);
            },
            SubmitEvent::GuardUnset(_) => {
                reveal(SubmissionView::rejecting);
            },
            SubmitEvent::GuardsJudged(_) => {
                reveal(SubmissionView::guarded);
                reveal(SubmissionView::rejecting);
                reveal(SubmissionView::settling);
            },
            SubmitEvent::Executed(_, _) => {
                reveal(SubmissionView::executed);
            },
            SubmitEvent::ExecutorFailed(_) => {
                reveal(SubmissionView::executor_failed);
            },
            SubmitEvent::Merged { .. } => {
                reveal(SubmissionView::merged);
                reveal(SubmissionView::rejecting);
                reveal(SubmissionView::settling);
            },
            SubmitEvent::Targeted(_) => {
                reveal(SubmissionView::targeted);
                reveal(SubmissionView::leaving);
            },
            SubmitEvent::LoopJudged(_) => {
                reveal(SubmissionView::looped);
                reveal(SubmissionView::leaving);
            },
            SubmitEvent::Entered(_) => {
                reveal(SubmissionView::entered);
            },
            SubmitEvent::Chained(_) => {
                reveal(SubmissionView::chained);
            },
            _ => {},
        }
    }
    law_record_first(s, event);
}

} // verus!
