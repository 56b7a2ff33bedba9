//! What a submit is for: laws about the admission of a request and about each step that an
//! admitted request takes until its answer.
use crate::error::ExecutorError;
use crate::json;
use crate::json::{Json, Number, Value};
use crate::model;
use crate::model::{EvidenceView, ExecuteResult, InstanceView, PrincipalView, WorkflowInstance};
use crate::runtime;
use crate::runtime::{ChainOutcome, ChainOutcomeView};
use crate::runtime_chain;
use crate::runtime_links;
use crate::runtime_response::GuardsOutcome;
use crate::runtime_submit;
use crate::runtime_submit::{
    RefusalView, SubmissionView, SubmitActionView, SubmitEvent, SubmitPhase,
};
use crate::text;
use vstd::prelude::*;

verus! {

// ---------------------------------------------------------------------------
// Admission
// ---------------------------------------------------------------------------

/// A transition is the one that the definition declares under its name, among the
/// transitions of the state of that name.
pub proof fn law_transitions_are_read_from_the_definition(
    definition: Json,
    state: Seq<char>,
    transition: Seq<char>,
    states: Json,
    s: Json,
    ts: Json,
)
    requires
        definition.get("states"@) == Some(states),
        states is Object,
        states.get(state) == Some(s),
        s.get("transitions"@) == Some(ts),
        ts is Object,
    ensures
        runtime_links::transition_of(definition, state, transition) == ts.get(transition),
        runtime_links::transitions_of(definition, state) == Some(ts->Object_0),
        runtime_links::terminal(definition, state) <==> s.get("terminal"@) == Some(
            Json::Bool(true),
        ),
{
    reveal(Json::step);
    reveal(Json::get);
}

/// A request is admitted exactly where its version is the current one, its transition is one
/// of the state, its principal is human where the transition is for humans, and the
/// transition was taken less often than its cap; what is admitted is that transition.
pub proof fn law_admitted_exactly_if_allowed(
    i: InstanceView,
    expected_version: u64,
    transition: Seq<char>,
    principal: PrincipalView,
    t: Json,
)
    ensures
        runtime_submit::admission(i, expected_version, transition, principal) == Ok::<
            Json,
            RefusalView,
        >(t) <==> {
            &&& i.version == expected_version
            &&& runtime_links::transition_of(i.definition, i.state, transition) == Some(t)
            &&& t.str_at("actor"@) == Some("human"@) ==> principal.is_human()
            &&& t.u64_at("max_fires_per_visit"@) matches Some(max) ==> match i.context.u64_at(
                "_fire_count."@ + i.state + "."@ + transition,
            ) {
                Some(n) => n < max,
                None => 0 < max,
            }
        },
{
}

/// What is refused is refused for the first reason that holds: an old version, an unknown
/// transition, a principal that is not human, a cap that is reached.
pub proof fn law_refused_for_the_first_reason(
    i: InstanceView,
    expected_version: u64,
    transition: Seq<char>,
    principal: PrincipalView,
    r: RefusalView,
)
    requires
        runtime_submit::admission(i, expected_version, transition, principal) == Err::<
            Json,
            RefusalView,
        >(r),
    ensures
        ({
            let t = runtime_links::transition_of(i.definition, i.state, transition);
            r.code == if i.version != expected_version {
                "STALE_WORKFLOW_VERSION"@
            } else if t is None {
                "INVALID_TRANSITION"@
            } else if t->0.str_at("actor"@) == Some("human"@) && !principal.is_human() {
                "ACTOR_MISMATCH"@
            } else {
                "TRANSITION_FIRE_CAP_EXCEEDED"@
            }
        }),
{
}

// ---------------------------------------------------------------------------
// The steps of a submit
// ---------------------------------------------------------------------------

/// A request begins with its workflow as it was loaded, and with what it asks for.
pub proof fn law_submit_begins_with_the_request(
    transition: Seq<char>,
    expected_version: u64,
    summary: Option<Seq<char>>,
    principal: PrincipalView,
    arguments: Json,
    correlation_id: Seq<char>,
    trace_id: Option<Seq<char>>,
    instance: InstanceView,
)
    ensures
        ({
            let s = runtime_submit::new_submission(
                transition,
                expected_version,
                summary,
                principal,
                arguments,
                correlation_id,
                trace_id,
                instance,
            );
            &&& s.transition == transition
            &&& s.expected_version == expected_version
            &&& s.summary == summary
            &&& s.principal == principal
            &&& s.arguments == arguments
            &&& s.correlation_id == correlation_id
            &&& s.trace_id == trace_id
            &&& s.instance == instance
            &&& s.next == instance
            &&& s.evidence.len() == 0
            &&& s.executor_outcome is None
            &&& s.phase == SubmitPhase::TimingOut
        }),
{
}

/// A workflow that ran out of time answers so, as it became; otherwise the request is
/// recorded, with its transition, its version and the state it begins in.
pub proof fn law_timeouts_come_first(s: SubmissionView, i: WorkflowInstance)
    requires
        s.phase == SubmitPhase::TimingOut,
    ensures
        ({
            let d = s.after(SubmitEvent::TimeoutChecked(Some(i)));
            &&& d.action matches SubmitActionView::Respond(r) && r.instance == i@ && r.status
                == "timed_out"@ && r.error is None
            &&& d.submission.phase == SubmitPhase::Finished
        }),
        ({
            let d = s.after(SubmitEvent::TimeoutChecked(None));
            &&& d.action matches SubmitActionView::Record(e) && e.event_type
                == "transition.requested"@ && e.workflow_id == Some(s.instance.id)
                && e.correlation_id == s.correlation_id && e.actor == Some(s.principal.subject)
                && e.payload.get("transition"@) == Some(Json::String(s.transition))
                && e.payload.get("expectedVersion"@) == Some(
                Json::Number(Number::PosInt(s.expected_version)),
            ) && e.payload.get("fromState"@) == Some(Json::String(s.instance.state))
            &&& d.submission.phase == SubmitPhase::Requesting
        }),
{
    reveal(SubmissionView::timeout_checked);
    json::lemma_reads();
    reveal_strlit("transition");
    reveal_strlit("expectedVersion");
    reveal_strlit("fromState");
    assert("transition"@.len() == 10 && "expectedVersion"@.len() == 15 && "fromState"@.len() == 9);
}

/// The answer to a request that is rejected for a reason: the code and the message of the
/// reason, the transition that was asked for, and the workflow as it was loaded.
pub open spec fn rejected_for(s: SubmissionView, action: SubmitActionView, code: Seq<char>, message: Seq<
    char,
>) -> bool {
    action matches SubmitActionView::Reject { event, reply } && {
        &&& reply.instance == s.instance
        &&& reply.status == "rejected"@
        &&& reply.error matches Some(e) && e.get("code"@) == Some(Json::String(code)) && e.get(
            "message"@,
        ) == Some(Json::String(message)) && e.get("attemptedTransition"@) == Some(
            Json::String(s.transition),
        )
        &&& event.event_type == "transition.rejected"@
        &&& event.workflow_id == Some(s.instance.id)
        &&& event.correlation_id == s.correlation_id
        &&& event.payload.get("code"@) == Some(Json::String(code))
        &&& event.payload.get("message"@) == Some(Json::String(message))
        &&& event.payload.get("transition"@) == Some(Json::String(s.transition))
    }
}

proof fn lemma_rejecting(s: SubmissionView, r: RefusalView)
    ensures
        rejected_for(s, s.rejecting(r).action.traced(s.trace_id), r.code, r.message),
        s.rejecting(r).submission.phase == SubmitPhase::Finished,
{
    reveal(SubmissionView::rejecting);
    json::lemma_reads();
    reveal_strlit("code");
    reveal_strlit("message");
    reveal_strlit("attemptedTransition");
    reveal_strlit("transition");
    reveal_strlit("fromState");
    assert("code"@.len() == 4 && "message"@.len() == 7 && "attemptedTransition"@.len() == 19
        && "transition"@.len() == 10 && "fromState"@.len() == 9);
}

/// A recorded request is admitted with its transition, or rejected with the reason of the
/// refusal.
pub proof fn law_requests_are_admitted_or_rejected(s: SubmissionView)
    requires
        s.phase == SubmitPhase::Requesting,
    ensures
        ({
            let d = s.after(SubmitEvent::Recorded);
            match runtime_submit::admission(
                s.instance,
                s.expected_version,
                s.transition,
                s.principal,
            ) {
                Ok(t) => d.action is CheckArguments && d.submission.transition_def == t
                    && d.submission.phase == SubmitPhase::Checking && d.submission.next == s.next,
                Err(r) => rejected_for(s, d.action, r.code, r.message) && d.submission.phase
                    == SubmitPhase::Finished,
            }
        }),
{
    reveal(SubmissionView::recorded);
    reveal(SubmissionView::requesting);
    match runtime_submit::admission(s.instance, s.expected_version, s.transition, s.principal) {
        Err(r) => {
            lemma_rejecting(s, r);
        },
        Ok(_) => {},
    }
}

/// Arguments that fit are kept, with their defaults, and the guards are judged; arguments
/// that do not fit reject the request.
pub proof fn law_arguments_are_kept_or_rejected(s: SubmissionView, v: Value, m: String)
    requires
        s.phase == SubmitPhase::Checking,
    ensures
        ({
            let d = s.after(SubmitEvent::ArgumentsChecked(Ok(v)));
            d.action is JudgeGuards && d.submission.arguments == v@ && d.submission.phase
                == SubmitPhase::Guarding && d.submission.next == s.next
                && d.submission.transition_def == s.transition_def
        }),
        rejected_for(
            s,
            s.after(SubmitEvent::ArgumentsChecked(Err(m))).action,
            "INPUT_SCHEMA_VIOLATION"@,
            m@,
        ),
{
    reveal(SubmissionView::arguments_checked);
    lemma_rejecting(s, RefusalView { code: "INPUT_SCHEMA_VIOLATION"@, message: m@ });
}

/// Guards that pass let the executor run, or the target be chosen where there is none; one
/// that does not pass, or that reads a slot which is not set, rejects the request.
pub proof fn law_guards_decide(s: SubmissionView, o: GuardsOutcome, m: String)
    requires
        s.phase == SubmitPhase::Guarding,
    ensures
        ({
            let d = s.after(SubmitEvent::GuardsJudged(o));
            &&& o@.pass ==> d.submission.guard_results == o@.evaluated && (
            if s.transition_def.has("executor"@) {
                d.action is Execute && d.submission.phase == SubmitPhase::Executing
                    && d.submission.next == s.next
            } else {
                d.action is Target && d.submission.phase == SubmitPhase::Targeting
                    && d.submission.executor_outcome == s.executor_outcome
            })
            &&& !o@.pass ==> d.action is Reject && d.submission.phase == SubmitPhase::Finished
            &&& !o@.pass && o@.diagnostic is None ==> (exists|text: Seq<char>|
                rejected_for(s, d.action, "GUARD_REJECTED"@, text))
            &&& !o@.pass && (o@.diagnostic == Some("EVIDENCE_DIGEST_REQUIRED"@) || o@.diagnostic
                == Some("EVIDENCE_CONFIDENCE_BELOW_THRESHOLD"@)) ==> (exists|text: Seq<char>|
                rejected_for(s, d.action, o@.diagnostic->0, text))
        }),
        rejected_for(s, s.after(SubmitEvent::GuardUnset(m)).action, "GUARD_UNSET_SLOT"@, m@),
{
    reveal(SubmissionView::guarded);
    reveal(SubmissionView::settling);
    let r = runtime_submit::guard_refusal(o@.diagnostic);
    lemma_rejecting(s, r);
    lemma_rejecting(s, RefusalView { code: "GUARD_UNSET_SLOT"@, message: m@ });
    reveal_strlit("EVIDENCE_DIGEST_REQUIRED");
    reveal_strlit("EVIDENCE_CONFIDENCE_BELOW_THRESHOLD");
    assert("EVIDENCE_DIGEST_REQUIRED"@.len() == 24);
    assert("EVIDENCE_CONFIDENCE_BELOW_THRESHOLD"@.len() == 35);
    if !o@.pass {
        assert(rejected_for(
            s,
            s.after(SubmitEvent::GuardsJudged(o)).action,
            r.code,
            r.message,
        ));
        if o@.diagnostic is None {
            assert(rejected_for(
                s,
                s.after(SubmitEvent::GuardsJudged(o)).action,
                "GUARD_REJECTED"@,
                r.message,
            ));
        }
        if o@.diagnostic == Some("EVIDENCE_DIGEST_REQUIRED"@) || o@.diagnostic == Some(
            "EVIDENCE_CONFIDENCE_BELOW_THRESHOLD"@,
        ) {
            assert(r.code == o@.diagnostic->0);
        }
    }
}

/// The output of an executor that succeeded is merged as it is; its evidence, its child
/// workflow and its duration are kept. One that failed leaves the workflow as it was loaded,
/// and the failure is recorded before it is answered.
pub proof fn law_executor_results_are_kept(
    s: SubmissionView,
    result: ExecuteResult,
    ms: u64,
    e: ExecutorError,
)
    requires
        s.phase == SubmitPhase::Executing,
    ensures
        ({
            let d = s.after(SubmitEvent::Executed(result, ms));
            &&& d.action == SubmitActionView::Merge(result.output@)
            &&& d.submission.pending_evidence == model::evidence_views(result.evidence@)
            &&& d.submission.child_workflow_id == text::opt_text(result.child_workflow_id)
            &&& d.submission.executor_outcome == Some((true, ms))
            &&& d.submission.phase == SubmitPhase::Merging
            &&& d.submission.next == s.next
        }),
        ({
            let d = s.after(SubmitEvent::ExecutorFailed(e));
            let then = d.submission.after(SubmitEvent::Recorded);
            &&& d.action matches SubmitActionView::Record(x) && x.event_type
                == "transition.rejected"@ && x.payload.get("code"@) == Some(
                Json::String("EXECUTOR_FAILED"@),
            ) && x.payload.get("message"@) == Some(Json::String(e@.message_text()))
                && x.payload.get("transition"@) == Some(Json::String(s.transition))
            &&& then.action matches SubmitActionView::Respond(r) && r.instance == s.instance
                && r.status == "failed"@ && (r.error matches Some(x) && x.get("code"@) == Some(
                Json::String("EXECUTOR_FAILED"@),
            ) && x.get("message"@) == Some(Json::String(e@.message_text())) && x.get(
                "errorClass"@,
            ) == Some(Json::String(e@.class_of().token_text())) && x.get("attemptedTransition"@)
                == Some(Json::String(s.transition)))
            &&& then.submission.phase == SubmitPhase::Finished
        }),
{
    reveal(SubmissionView::executed);
    reveal(SubmissionView::executor_failed);
    reveal(SubmissionView::recorded);
    reveal(SubmissionView::answering);
    json::lemma_reads();
    reveal_strlit("code");
    reveal_strlit("message");
    reveal_strlit("errorClass");
    reveal_strlit("attemptedTransition");
    reveal_strlit("transition");
    assert("code"@.len() == 4 && "message"@.len() == 7 && "attemptedTransition"@.len() == 19
        && "transition"@.len() == 10 && "errorClass"@.len() == 10 && "errorClass"@[0] == 'e'
        && "transition"@[0] == 't');
}

/// An output is accepted exactly where it fits the typed slots, violates no constraint and
/// brings no confidence out of range; it is rejected for the first of these otherwise.
pub proof fn law_outputs_are_checked(
    s: SubmissionView,
    context: Value,
    violation: Option<(String, String)>,
    constraint: Option<String>,
    confidence: String,
)
    requires
        s.phase == SubmitPhase::Merging,
    ensures
        ({
            let d = s.after(SubmitEvent::Merged { context, violation, constraint, confidence });
            let sound = forall|k: int|
                0 <= k < s.pending_evidence.len() ==> ((
                #[trigger] s.pending_evidence[k]).confidence matches Some(c)
                    ==> model::in_unit_range(c));
            &&& d.action is Target <==> violation is None && constraint is None && sound
            &&& d.action is Target || d.action is Reject
            &&& d.action is Target ==> d.submission.evidence == s.pending_evidence
                && d.submission.phase == SubmitPhase::Targeting
            &&& violation is Some ==> (exists|text: Seq<char>|
                rejected_for(s, d.action, "BLACKBOARD_TYPE_ERROR"@, text))
            &&& violation is None ==> (constraint matches Some(m) ==> rejected_for(
                s,
                d.action,
                "SLOT_CONSTRAINT_VIOLATED"@,
                m@,
            ))
            &&& violation is None && constraint is None && !sound ==> (exists|text: Seq<char>|
                rejected_for(s, d.action, "INVALID_CONFIDENCE"@, text))
        }),
{
    reveal(SubmissionView::merged);
    reveal(SubmissionView::settling);
    lemma_bad_confidence(s.pending_evidence, 0);
    let v = match violation {
        Some(v) => Some((v.0@, v.1@)),
        None => None,
    };
    let d = s.after(SubmitEvent::Merged { context, violation, constraint, confidence });
    match runtime_submit::output_refusal(
        v,
        text::opt_text(constraint),
        s.pending_evidence,
        confidence@,
    ) {
        Some(r) => {
            lemma_rejecting(s, r);
            assert(rejected_for(s, d.action, r.code, r.message));
        },
        None => {},
    }
}

/// The first confidence out of range is out of range, and those before it are not.
proof fn lemma_bad_confidence(e: Seq<EvidenceView>, i: int)
    requires
        0 <= i <= e.len(),
    ensures
        ({
            let b = runtime_submit::bad_confidence(e, i);
            &&& i <= b <= e.len()
            &&& b < e.len() ==> (e[b].confidence matches Some(c) && !model::in_unit_range(c))
            &&& forall|k: int|
                i <= k < b ==> ((#[trigger] e[k]).confidence matches Some(c)
                    ==> model::in_unit_range(c))
        }),
    decreases e.len() - i,
{
    if i < e.len() && !(e[i].confidence matches Some(c) && !model::in_unit_range(c)) {
        lemma_bad_confidence(e, i + 1);
    }
}

/// What the output wrote is in the context that goes on, together with the summary of the
/// caller; nothing else is changed but the count of the transition.
pub proof fn law_written_slots_go_on(
    context: Json,
    summary: Option<Seq<char>>,
    transition_def: Json,
    state: Seq<char>,
    transition: Seq<char>,
    key: Seq<char>,
)
    requires
        context is Object,
    ensures
        ({
            let c = runtime_submit::taken(context, summary, transition_def, state, transition);
            &&& c is Object
            &&& key != "summary"@ && key != "_fire_count."@ + state + "."@ + transition ==> c.get(
                key,
            ) == context.get(key)
            &&& summary matches Some(t) ==> c.get("summary"@) == Some(Json::String(t))
            &&& summary is None ==> c.get("summary"@) == context.get("summary"@)
            &&& transition_def.u64_at("max_fires_per_visit"@) is None ==> (key != "summary"@
                ==> c.get(key) == context.get(key))
        }),
{
    json::lemma_reads();
    reveal_strlit("_fire_count.");
    reveal_strlit("summary");
    assert(runtime_chain::fire_key(state, transition)[0] == '_');
    assert("summary"@[0] == 's');
}

/// What follows the guards and the executor begins with the context that was merged, or with
/// that of the workflow where nothing ran.
pub proof fn law_merged_context_goes_on(
    s: SubmissionView,
    context: Value,
    confidence: String,
    o: GuardsOutcome,
)
    ensures
        s.phase == SubmitPhase::Merging ==> ({
            let d = s.after(
                SubmitEvent::Merged { context, violation: None, constraint: None, confidence },
            );
            d.action is Target ==> d.submission.next == (InstanceView {
                context: runtime_submit::taken(
                    context@,
                    s.summary,
                    s.transition_def,
                    s.instance.state,
                    s.transition,
                ),
                ..s.next
            })
        }),
        s.phase == SubmitPhase::Guarding ==> ({
            let d = s.after(SubmitEvent::GuardsJudged(o));
            d.action is Target ==> d.submission.next == (InstanceView {
                context: runtime_submit::taken(
                    s.next.context,
                    s.summary,
                    s.transition_def,
                    s.instance.state,
                    s.transition,
                ),
                ..s.next
            })
        }),
{
    reveal(SubmissionView::merged);
    reveal(SubmissionView::settling);
    reveal(SubmissionView::guarded);
    reveal(SubmissionView::rejecting);
}

/// A state without a loop is left for the target: the workflow that goes on is in that state,
/// one version further, and is otherwise the same but for the context.
pub proof fn law_target_is_taken(s: SubmissionView, target: String, state: Json)
    requires
        s.phase == SubmitPhase::Targeting,
        runtime_links::state_of(s.instance.definition, s.instance.state) == Some(state),
        state.get("while"@) is None,
        s.next.version < u64::MAX,
    ensures
        ({
            let d = s.after(SubmitEvent::Targeted(target));
            let n = d.submission.next;
            &&& d.action is Diff
            &&& d.submission.phase == SubmitPhase::Diffing
            &&& n.state == target@
            &&& n.version == s.next.version + 1
            &&& n.id == s.next.id
            &&& n.definition == s.next.definition
            &&& n.input == s.next.input
            &&& n.started_at == s.next.started_at
            &&& n.run_id == s.next.run_id
            &&& n.context == runtime_chain::left(
                s.instance.definition,
                s.instance.state,
                target@,
                s.next.context.minus("_while_iter."@ + s.instance.state),
            ).0
        }),
{
    reveal(SubmissionView::targeted);
    reveal(SubmissionView::leaving);
}

/// A state with a loop is asked whether to go round again: where its guard holds and rounds
/// are left, the state is entered again and the round counted; where it does not hold, the
/// state is left for the target; and where no round is left, the submit ends.
pub proof fn law_loops_go_round(s: SubmissionView, target: String, state: Json, guard: Json, max: u64)
    requires
        s.phase == SubmitPhase::Targeting,
        runtime_links::state_of(s.instance.definition, s.instance.state) == Some(state),
        state.get("while"@) == Some(guard),
        state.u64_at("max_iterations"@) == Some(max),
        max <= u32::MAX,
        s.next.context.u64_at("_while_iter."@ + s.instance.state) matches Some(n) ==> n < u32::MAX,
        s.next.version < u64::MAX,
    ensures
        ({
            let d = s.after(SubmitEvent::Targeted(target));
            let t = d.submission;
            let again = t.after(SubmitEvent::LoopJudged(true));
            let out = t.after(SubmitEvent::LoopJudged(false));
            let rounds = s.next.context.u64_at("_while_iter."@ + s.instance.state);
            &&& d.action == SubmitActionView::JudgeLoop(guard)
            &&& t.phase == SubmitPhase::Looping
            &&& out.action is Diff && out.submission.next.state == target@
            &&& match rounds {
                Some(n) => n >= max,
                None => 0 >= max,
            } ==> again.action is Fail
            &&& match rounds {
                Some(n) => n < max,
                None => 0 < max,
            } ==> again.action is Diff && again.submission.next.state == s.instance.state
        }),
{
    reveal(SubmissionView::targeted);
    reveal(SubmissionView::looped);
    reveal(SubmissionView::leaving);
}

/// The record of a submit speaks of the transition that is being taken: from the state that
/// was loaded to the workflow that is about to be committed, with its arguments, guards and
/// outcome; the principal is named unless the runtime itself acts.
pub proof fn law_submit_records_its_transition(s: SubmissionView, delta: Value, now: String)
    requires
        s.phase == SubmitPhase::Diffing,
    ensures
        ({
            let d = s.after(SubmitEvent::Diffed { delta, now });
            let r = s.record(delta@, now@);
            &&& d.action == SubmitActionView::Record(
                runtime::transition_record(r).traced(s.trace_id),
            )
            &&& d.submission.phase == SubmitPhase::Recording
            &&& d.submission.next == s.next
            &&& r.instance == s.next
            &&& r.from_state == s.instance.state
            &&& r.transition_name == s.transition
            &&& r.transition_def == s.transition_def
            &&& r.arguments == s.arguments
            &&& r.blackboard_delta == delta@
            &&& r.guard_results == s.guard_results
            &&& r.child_workflow_id == s.child_workflow_id
            &&& r.executor_outcome == s.executor_outcome
            &&& r.correlation_id == s.correlation_id
            &&& r.timestamp == now@
            &&& s.transition_def.str_at("actor"@) matches Some(a) ==> r.actor == a
            &&& s.transition_def.str_at("actor"@) is None ==> r.actor == "agent"@ && r.principal
                == Some(s.principal.subject)
            &&& s.transition_def.str_at("actor"@) == Some("human"@) ==> r.principal == Some(
                s.principal.subject,
            )
            &&& s.transition_def.str_at("actor"@) == Some("deterministic"@) ==> r.principal is None
        }),
{
    reveal_strlit("agent");
    reveal_strlit("human");
    reveal_strlit("deterministic");
    reveal_strlit("system");
    assert("agent"@.len() == 5 && "human"@.len() == 5 && "deterministic"@.len() == 13
        && "system"@.len() == 6);
}

/// What was committed is what goes on: it is entered, announced with its new state and
/// version, and handed to the chain as the entry action left it.
pub proof fn law_committed_instance_goes_on(
    s: SubmissionView,
    saved: WorkflowInstance,
    entered: WorkflowInstance,
)
    requires
        s.phase == SubmitPhase::Saving,
    ensures
        ({
            let a = s.after(SubmitEvent::Saved(saved));
            let b = a.submission.after(SubmitEvent::Entered(entered));
            let c = b.submission.after(SubmitEvent::Recorded);
            &&& a.action == SubmitActionView::Enter(saved@)
            &&& b.action matches SubmitActionView::Record(e) && e.event_type
                == "workflow.transitioned"@ && e.workflow_id == Some(entered@.id)
                && e.payload.get("transition"@) == Some(Json::String(s.transition))
                && e.payload.get("state"@) == Some(Json::String(entered@.state)) && e.payload.get(
                "version"@,
            ) == Some(Json::Number(Number::PosInt(entered@.version)))
            &&& c.action matches SubmitActionView::Chain { instance, max_depth } && instance
                == entered@ && (s.instance.definition.u64_at("maxChainDepth"@) matches Some(n)
                ==> max_depth == n) && (s.instance.definition.u64_at("maxChainDepth"@) is None
                ==> max_depth == 50)
            &&& c.submission.phase == SubmitPhase::Chaining
            &&& c.submission.evidence == s.evidence
        }),
{
    reveal(SubmissionView::entered);
    reveal(SubmissionView::recorded);
    json::lemma_reads();
    reveal_strlit("transition");
    reveal_strlit("state");
    reveal_strlit("version");
    assert("transition"@.len() == 10 && "state"@.len() == 5 && "version"@.len() == 7);
}

/// The answer to a submit shows what the chain came to, with the evidence of the transition
/// before that of the chain: as executed where the chain was completed, as failed otherwise;
/// a completion is recorded before the answer where the state is terminal.
pub proof fn law_submit_answers_with_the_chain(s: SubmissionView, outcome: ChainOutcome)
    requires
        s.phase == SubmitPhase::Chaining,
    ensures
        ({
            let d = s.after(SubmitEvent::Chained(outcome));
            let then = d.submission.after(SubmitEvent::Recorded);
            match outcome@ {
                ChainOutcomeView::Completed(r) => {
                    let done = runtime_links::terminal(s.instance.definition, r.instance.state);
                    &&& done ==> (d.action matches SubmitActionView::Record(e) && e.event_type
                        == "workflow.completed"@ && e.workflow_id == Some(r.instance.id))
                    &&& (if done {
                        then.action
                    } else {
                        d.action
                    }) matches SubmitActionView::Respond(reply) && reply.instance == r.instance
                        && reply.status == "executed"@ && reply.error is None && reply.steps
                        == r.steps && reply.evidence == s.evidence + r.evidence
                },
                ChainOutcomeView::Failed { partial, error, error_class, failed_transition } => {
                    &&& d.action matches SubmitActionView::Respond(reply) && reply.instance
                        == partial.instance && reply.status == "failed"@ && reply.steps
                        == partial.steps && reply.evidence == s.evidence + partial.evidence && (
                    failed_transition.len() > 0 ==> reply.failed_transition == Some(
                        failed_transition,
                    )) && reply.error is Some
                },
            }
        }),
{
    reveal(SubmissionView::chained);
    reveal(SubmissionView::recorded);
    reveal(SubmissionView::answering);
}

} // verus!
