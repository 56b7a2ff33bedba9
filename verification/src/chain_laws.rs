//! What deterministic chains, branches, loops and timeouts are for: laws about the steps
//! that a workflow takes by itself.
use crate::error::ExecutorError;
use crate::json;
use crate::json::{Json, Number, Value};
use crate::model;
use crate::model::{ExecuteResult, InstanceView, PrincipalView, WorkflowInstance};
use crate::runtime;
use crate::runtime::{ChainOutcomeView, ChainStepView};
use crate::runtime_chain;
use crate::runtime_chain::{
    BranchingView, ChainActionView, ChainEvent, ChainPhase, ChainView, LoopView, TimeoutView,
};
use crate::runtime_links;
use crate::text;
use vstd::prelude::*;

verus! {

// ---------------------------------------------------------------------------
// Branches
// ---------------------------------------------------------------------------

/// The target that a choice comes to when the branches are judged one after the other;
/// `passes` says which conditions hold.
pub open spec fn chosen(b: BranchingView, passes: spec_fn(int) -> bool) -> Option<Seq<char>>
    decreases b.branches.len() - b.at,
{
    if b.at < 0 || b.exhausted() {
        Some(b.default_target)
    } else {
        let (next, target) = b.after(passes(b.at));
        if target is Some || next.at <= b.at {
            target
        } else {
            chosen(next, passes)
        }
    }
}

/// A branch that can be taken and whose condition holds.
pub open spec fn open_branch(branches: Seq<Json>, passes: spec_fn(int) -> bool, k: int) -> bool {
    branches[k].get("when"@) is Some && branches[k].str_at("target"@) is Some && passes(k)
}

proof fn lemma_usable_from(branches: Seq<Json>, i: int)
    requires
        0 <= i <= branches.len(),
    ensures
        ({
            let u = runtime_chain::usable_from(branches, i);
            &&& i <= u <= branches.len()
            &&& u < branches.len() ==> runtime_chain::branch_usable(branches[u])
            &&& forall|k: int| i <= k < u ==> !#[trigger] runtime_chain::branch_usable(branches[k])
        }),
    decreases branches.len() - i,
{
    if i < branches.len() && !runtime_chain::branch_usable(branches[i]) {
        lemma_usable_from(branches, i + 1);
    }
}

proof fn lemma_chosen(b: BranchingView, passes: spec_fn(int) -> bool)
    requires
        b.wf(),
    ensures
        (forall|k: int|
            b.at <= k < b.branches.len() ==> !#[trigger] open_branch(b.branches, passes, k))
            ==> chosen(b, passes) == Some(b.default_target),
        forall|k: int|
            b.at <= k < b.branches.len() && #[trigger] open_branch(b.branches, passes, k) && (
            forall|h: int| b.at <= h < k ==> !#[trigger] open_branch(b.branches, passes, h))
                ==> chosen(b, passes) == b.branches[k].str_at("target"@),
    decreases b.branches.len() - b.at,
{
    if !b.exhausted() {
        if passes(b.at) {
            assert(open_branch(b.branches, passes, b.at));
        } else {
            let next = b.after(false).0;
            lemma_usable_from(b.branches, b.at + 1);
            lemma_chosen(next, passes);
            assert forall|k: int| b.at <= k < next.at implies !#[trigger] open_branch(
                b.branches,
                passes,
                k,
            ) by {
                if k > b.at {
                    assert(!runtime_chain::branch_usable(b.branches[k]));
                }
            }
        }
    }
}

/// A transition leads to the target of its first branch whose condition holds, and to its
/// own target where none does.
pub proof fn law_first_open_branch_is_taken(transition: Json, passes: spec_fn(int) -> bool, k: int)
    requires
        transition.str_at("target"@) is Some,
    ensures
        ({
            let branches = transition.items_at("branches"@);
            let b = BranchingView {
                default_target: transition.str_at("target"@)->0,
                branches,
                at: runtime_chain::usable_from(branches, 0),
            };
            &&& (forall|h: int|
                0 <= h < branches.len() ==> !#[trigger] open_branch(branches, passes, h))
                ==> chosen(b, passes) == transition.str_at("target"@)
            &&& 0 <= k < branches.len() && open_branch(branches, passes, k) && (forall|h: int|
                0 <= h < k ==> !#[trigger] open_branch(branches, passes, h)) ==> chosen(b, passes)
                == branches[k].str_at("target"@)
        }),
{
    let branches = transition.items_at("branches"@);
    let b = BranchingView {
        default_target: transition.str_at("target"@)->0,
        branches,
        at: runtime_chain::usable_from(branches, 0),
    };
    lemma_usable_from(branches, 0);
    lemma_chosen(b, passes);
    if 0 <= k < branches.len() && open_branch(branches, passes, k) {
        if k < b.at {
            assert(!runtime_chain::branch_usable(branches[k]));
        }
    }
}

// ---------------------------------------------------------------------------
// What is left behind
// ---------------------------------------------------------------------------

proof fn lemma_find_push(e: Seq<(Seq<char>, Json)>, x: (Seq<char>, Json), key: Seq<char>)
    ensures
        json::find(e.push(x), key) == match json::find(e, key) {
            Some(v) => Some(v),
            None => if x.0 == key {
                Some(x.1)
            } else {
                None
            },
        },
    decreases e.len(),
{
    let p = e.push(x);
    if e.len() == 0 {
        assert(p.skip(1) =~= Seq::empty());
        assert(json::find(p.skip(1), key) is None);
    } else {
        assert(p.skip(1) =~= e.skip(1).push(x));
        lemma_find_push(e.skip(1), x, key);
    }
}

proof fn lemma_unprefixed(e: Seq<(Seq<char>, Json)>, prefix: Seq<char>, n: int, key: Seq<char>)
    requires
        0 <= n <= e.len(),
    ensures
        json::find(runtime_chain::unprefixed(e, prefix, n), key) == if prefix.is_prefix_of(key) {
            None
        } else {
            json::find(e.take(n), key)
        },
        forall|i: int|
            0 <= i < runtime_chain::unprefixed(e, prefix, n).len() ==> exists|j: int|
                0 <= j < n && #[trigger] runtime_chain::unprefixed(e, prefix, n)[i] == #[trigger] e[j],
        json::sorted(e) ==> json::sorted(runtime_chain::unprefixed(e, prefix, n)),
    decreases n,
{
    if n > 0 {
        lemma_unprefixed(e, prefix, n - 1, key);
        let before = runtime_chain::unprefixed(e, prefix, n - 1);
        let all = runtime_chain::unprefixed(e, prefix, n);
        lemma_find_push(before, e[n - 1], key);
        lemma_find_push(e.take(n - 1), e[n - 1], key);
        assert(e.take(n) =~= e.take(n - 1).push(e[n - 1]));
        assert forall|i: int| 0 <= i < all.len() implies exists|j: int|
            0 <= j < n && #[trigger] all[i] == #[trigger] e[j] by {
            if i < before.len() {
                let j = choose|j: int| 0 <= j < n - 1 && before[i] == #[trigger] e[j];
                assert(all[i] == e[j]);
            } else {
                assert(all[i] == e[n - 1]);
            }
        }
        if json::sorted(e) {
            assert forall|i: int, m: int| 0 <= i < m < all.len() implies text::text_lt(
                #[trigger] all[i].0,
                #[trigger] all[m].0,
            ) by {
                if m == before.len() {
                    let j = choose|j: int| 0 <= j < n - 1 && before[i] == #[trigger] e[j];
                    assert(text::text_lt(e[j].0, e[n - 1].0));
                } else {
                    assert(text::text_lt(before[i].0, before[m].0));
                }
            }
        }
    } else {
        assert(e.take(0) =~= Seq::empty());
    }
}

/// What lives only in the state: a declared slot with the scope of the state.
pub open spec fn lives_in_state(slots: Seq<(Seq<char>, Json)>, n: int, key: Seq<char>) -> bool {
    exists|j: int|
        0 <= j < n && (#[trigger] slots[j]).0 == key && slots[j].1.str_at("scope"@) == Some(
            "state"@,
        )
}

proof fn lemma_slots_cleared(
    slots: Seq<(Seq<char>, Json)>,
    n: int,
    context: Json,
    key: Seq<char>,
)
    requires
        0 <= n <= slots.len(),
        context.wf(),
    ensures
        ({
            let c = runtime_chain::slots_cleared(slots, n, context).0;
            &&& c.wf()
            &&& c.get(key) == if lives_in_state(slots, n, key) {
                None
            } else {
                context.get(key)
            }
        }),
    decreases n,
{
    reveal_strlit("workflow");
    reveal_strlit("state");
    assert("workflow"@.len() == 8 && "state"@.len() == 5);
    if n > 0 {
        lemma_slots_cleared(slots, n - 1, context, key);
        lemma_slots_cleared(slots, n - 1, context, slots[n - 1].0);
        let c = runtime_chain::slots_cleared(slots, n - 1, context).0;
        let (name, decl) = slots[n - 1];
        json::law_get_minus(c, name, key);
        let local = decl.str_at("scope"@) == Some("state"@);
        assert(runtime_chain::state_local(decl) == local);
        if lives_in_state(slots, n, key) {
            let j = choose|j: int|
                0 <= j < n && (#[trigger] slots[j]).0 == key && slots[j].1.str_at("scope"@) == Some(
                    "state"@,
                );
            if j < n - 1 {
                assert(slots[j].0 == key);
                assert(lives_in_state(slots, n - 1, key));
            }
        }
        if lives_in_state(slots, n - 1, key) {
            let j = choose|j: int|
                0 <= j < n - 1 && (#[trigger] slots[j]).0 == key && slots[j].1.str_at("scope"@)
                    == Some("state"@);
            assert(slots[j].0 == key);
            assert(lives_in_state(slots, n, key));
        }
        if local && name == key {
            assert(slots[n - 1].0 == key);
            assert(lives_in_state(slots, n, key));
        }
    }
}

/// Leaving a state for another takes away what lives only in it and the counts of its
/// transitions, and nothing else: every other slot keeps its value.
pub proof fn law_leaving_clears_only_the_state(
    definition: Json,
    from: Seq<char>,
    target: Seq<char>,
    context: Json,
    key: Seq<char>,
)
    requires
        context.wf(),
        context is Object,
        from != target,
    ensures
        ({
            let after = runtime_chain::left(definition, from, target, context).0;
            let slots = match runtime_links::state_field(definition, from, "slots"@) {
                Some(Json::Object(e)) => e,
                _ => Seq::empty(),
            };
            after.get(key) == if lives_in_state(slots, slots.len() as int, key) || (
            "_fire_count."@ + from + "."@).is_prefix_of(key) {
                None
            } else {
                context.get(key)
            }
        }),
{
    let prefix = "_fire_count."@ + from + "."@;
    let e = context->Object_0;
    let n = e.len() as int;
    assert(e.take(n) =~= e);
    let bare = runtime_chain::without_prefix(context, prefix);
    lemma_unprefixed(e, prefix, n, key);
    assert(bare.get(key) == json::find(runtime_chain::unprefixed(e, prefix, n), key)) by {
        reveal(Json::get);
    }
    assert(context.get(key) == json::find(e, key)) by {
        reveal(Json::get);
    }
    assert(bare.wf()) by {
        let out = runtime_chain::unprefixed(e, prefix, n);
        assert forall|i: int| 0 <= i < out.len() implies (#[trigger] out[i]).1.wf() by {
            let j = choose|j: int| 0 <= j < n && out[i] == #[trigger] e[j];
            assert(e[j].1.wf());
        }
    }
    let slots = runtime_chain::declared_slots(definition, from);
    lemma_slots_cleared(slots, slots.len() as int, bare, key);
}

// ---------------------------------------------------------------------------
// Loops
// ---------------------------------------------------------------------------

/// A loop counts its rounds in the context: another round is one more than before, and
/// leaving the loop forgets them; nothing else changes.
pub proof fn law_rounds_are_counted(context: Json, state: Seq<char>, max: u32, key: Seq<char>)
    requires
        context.wf(),
        context is Object,
    ensures
        ({
            let slot = "_while_iter."@ + state;
            let before = match context.u64_at(slot) {
                Some(n) => n,
                None => 0,
            };
            let step = runtime_chain::loop_step(context, state, max, true);
            let again = runtime_chain::looped(context, state, step);
            let out = runtime_chain::looped(
                context,
                state,
                runtime_chain::loop_step(context, state, max, false),
            );
            &&& before < max ==> step == LoopView::Again((before + 1) as u32) && again.u64_at(slot)
                == Some((before + 1) as u64)
            &&& max <= before < u32::MAX ==> step is Exceeded
            &&& out.get(slot) is None
            &&& key != slot ==> again.get(key) == context.get(key) && out.get(key) == context.get(
                key,
            )
        }),
{
    let slot = "_while_iter."@ + state;
    json::lemma_reads();
    json::law_get_minus(context, slot, slot);
    json::law_get_minus(context, slot, key);
}

// ---------------------------------------------------------------------------
// Timeouts
// ---------------------------------------------------------------------------

/// A timeout is applied exactly where the workflow declares a time, has been under way for at
/// least that long, is in no terminal state and has a target to go to; without a target it
/// is noted and nothing changes. What it applies changes only the state and the version.
pub proof fn law_timeout_is_applied_when_due(
    definition: Json,
    i: InstanceView,
    elapsed: i64,
    correlation_id: Seq<char>,
    now: Seq<char>,
    principal: PrincipalView,
)
    ensures
        ({
            let step = runtime_chain::timeout_step(
                definition,
                i,
                elapsed,
                correlation_id,
                now,
                principal,
            );
            let due = definition.u64_at("timeoutMs"@) matches Some(ms) && elapsed >= ms
                && !runtime_links::terminal(definition, i.state);
            let target = match definition.get("onTimeout"@) {
                Some(t) => t.str_at("target"@),
                None => None,
            };
            &&& step is NotDue <==> !due
            &&& step is Apply <==> due && target is Some
            &&& step is Unrecoverable <==> due && target is None
            &&& step matches TimeoutView::Apply { record, instance, expected_version } ==> {
                &&& Some(instance.state) == target
                &&& expected_version == i.version
                &&& instance == (InstanceView {
                    state: instance.state,
                    version: instance.version,
                    ..i
                })
                &&& i.version < u64::MAX ==> instance.version == i.version + 1
                &&& record.workflow_id == Some(i.id)
                &&& record.payload.get("fromState"@) == Some(Json::String(i.state))
                &&& record.payload.get("toState"@) == Some(Json::String(instance.state))
                &&& record.payload.get("actor"@) == Some(Json::String("system"@))
            }
        }),
{
    let step = runtime_chain::timeout_step(definition, i, elapsed, correlation_id, now, principal);
    if let TimeoutView::Apply { record, instance, expected_version } = step {
        runtime::law_records_say_what_happened(
            runtime_chain::timeout_record(definition, i, instance, correlation_id, now),
        );
    }
}

// ---------------------------------------------------------------------------
// Chains
// ---------------------------------------------------------------------------

/// A transition that an actor has to decide on: one that the runtime does not take by itself
/// and that is no mere interaction.
pub open spec fn actor_decides(t: Json) -> bool {
    t.str_at("actor"@) != Some("deterministic"@) && t.get("lightweight"@) != Some(Json::Bool(true))
}

proof fn lemma_deterministic_of(e: Seq<(Seq<char>, Json)>, n: int)
    requires
        0 <= n <= e.len(),
    ensures
        runtime_chain::deterministic_of(e, n) == e.take(n).filter(
            |x: (Seq<char>, Json)| x.1.str_at("actor"@) == Some("deterministic"@),
        ),
    decreases n,
{
    reveal(Seq::filter);
    if n > 0 {
        lemma_deterministic_of(e, n - 1);
        assert(e.take(n).drop_last() =~= e.take(n - 1));
        assert(e.take(n).last() == e[n - 1]);
    } else {
        assert(e.take(0) =~= Seq::empty());
    }
}

/// The candidates of a chain are the deterministic transitions of the state, in their order,
/// and there are none where an actor has to decide.
pub proof fn law_candidates_are_the_deterministic_transitions(
    definition: Json,
    state: Seq<char>,
    ts: Seq<(Seq<char>, Json)>,
)
    requires
        runtime_links::transitions_of(definition, state) == Some(ts),
    ensures
        (exists|i: int| 0 <= i < ts.len() && actor_decides((#[trigger] ts[i]).1))
            ==> runtime_chain::chain_candidates(definition, state).len() == 0,
        !(exists|i: int| 0 <= i < ts.len() && actor_decides((#[trigger] ts[i]).1))
            ==> runtime_chain::chain_candidates(definition, state) == ts.filter(
            |x: (Seq<char>, Json)| x.1.str_at("actor"@) == Some("deterministic"@),
        ),
{
    assert forall|t: Json| #[trigger] actor_decides(t) == runtime_chain::needs_decision(t) by {}
    if exists|i: int| 0 <= i < ts.len() && actor_decides((#[trigger] ts[i]).1) {
        let i = choose|i: int| 0 <= i < ts.len() && actor_decides((#[trigger] ts[i]).1);
        assert(runtime_chain::needs_decision(ts[i].1));
    }
    if exists|i: int| 0 <= i < ts.len() && runtime_chain::needs_decision((#[trigger] ts[i]).1) {
        let i = choose|i: int|
            0 <= i < ts.len() && runtime_chain::needs_decision((#[trigger] ts[i]).1);
        assert(actor_decides(ts[i].1));
    }
    lemma_deterministic_of(ts, ts.len() as int);
    assert(ts.take(ts.len() as int) =~= ts);
}

/// A transition is being taken by a chain.
pub open spec fn being_taken(
    before: ChainView,
    c: ChainView,
    action: ChainActionView,
    t: (Seq<char>, Json),
) -> bool {
    &&& c.transition_name == t.0
    &&& c.transition_def == t.1
    &&& c.from_state == before.instance.state
    &&& c.pre_context == before.instance.context
    &&& c.instance == before.instance
    &&& c.steps == before.steps
    &&& c.evidence == before.evidence
    &&& t.1.get("executor"@) is Some ==> action is Execute && c.phase == ChainPhase::Executing
    &&& t.1.get("executor"@) is None ==> action is Target && c.phase == ChainPhase::Targeting
}

/// A chain goes on as long as it can: in a state that is not terminal, within its depth, with
/// candidates, it takes the only one, or asks which of several to take; otherwise it ends
/// with what it has come to.
pub proof fn law_chain_goes_on(c: ChainView)
    ensures
        ({
            let candidates = runtime_chain::chain_candidates(c.definition, c.instance.state);
            let d = c.decided();
            let goes_on = !runtime_links::terminal(c.definition, c.instance.state) && c.steps.len()
                < c.max_depth;
            &&& goes_on && candidates.len() == 1 ==> being_taken(
                c,
                d.chain,
                d.action,
                candidates[0],
            )
            &&& goes_on && candidates.len() > 1 ==> d.action is Select && d.chain.candidates
                == candidates && d.chain.phase == ChainPhase::Selecting && d.chain.instance
                == c.instance
            &&& !goes_on || candidates.len() == 0 ==> (d.action matches ChainActionView::Finish(
                ChainOutcomeView::Completed(r),
            ) && r.instance == c.instance && r.steps == c.steps && r.evidence == c.evidence)
        }),
{
}

/// The candidate that was selected is the one that is taken; where none could be selected,
/// the chain fails with that reason and shows what it has come to.
pub proof fn law_selected_candidate_is_taken(c: ChainView, i: usize, m: String)
    requires
        c.phase == ChainPhase::Selecting,
        i < c.candidates.len(),
    ensures
        ({
            let d = c.next(ChainEvent::Selected(Ok(i)));
            being_taken(c, d.chain, d.action, c.candidates[i as int])
        }),
        c.next(ChainEvent::Selected(Err(m))).action matches ChainActionView::Finish(
            ChainOutcomeView::Failed { partial, error, error_class, failed_transition },
        ) && partial.instance == c.instance && partial.steps == c.steps && error == m@
            && error_class == "selection_error"@ && failed_transition.len() == 0,
{
}

/// The output of an executor is merged as it is, and its evidence, child workflow and
/// duration are kept; a failed executor ends the chain with the steps taken so far, and
/// names the transition that failed.
pub proof fn law_chain_executor_results(
    c: ChainView,
    result: ExecuteResult,
    ms: u64,
    e: ExecutorError,
)
    requires
        c.phase == ChainPhase::Executing,
    ensures
        ({
            let d = c.next(ChainEvent::Executed(result, ms));
            &&& d.action == ChainActionView::Merge(result.output@)
            &&& d.chain.pending_evidence == model::evidence_views(result.evidence@)
            &&& d.chain.child_workflow_id == text::opt_text(result.child_workflow_id)
            &&& d.chain.executor_outcome == Some((true, ms))
            &&& d.chain.instance == c.instance
            &&& d.chain.phase == ChainPhase::Merging
        }),
        c.next(ChainEvent::ExecutorFailed(e)).action matches ChainActionView::Finish(
            ChainOutcomeView::Failed { partial, error, error_class, failed_transition },
        ) && partial.instance == c.instance && partial.steps == c.steps && partial.evidence
            == c.evidence && error == e@.message_text() && error_class
            == e@.class_of().token_text() && failed_transition == c.transition_name,
{
}

/// A merged output goes on in the context, with the evidence after that of the steps before;
/// one that does not fit a typed slot ends the chain.
pub proof fn law_chain_merges(c: ChainView, context: Value, slot: String, reason: String)
    requires
        c.phase == ChainPhase::Merging,
    ensures
        ({
            let d = c.next(ChainEvent::Merged { context, violation: None });
            &&& d.action is Target
            &&& d.chain.phase == ChainPhase::Targeting
            &&& d.chain.instance == (InstanceView { context: context@, ..c.instance })
            &&& d.chain.evidence == c.evidence + c.pending_evidence
            &&& d.chain.steps == c.steps
        }),
        c.next(ChainEvent::Merged { context, violation: Some((slot, reason)) }).action
            matches ChainActionView::Finish(
            ChainOutcomeView::Failed { partial, error, error_class, failed_transition },
        ) && partial.steps == c.steps && partial.evidence == c.evidence && error_class
            == "blackboard_type_error"@ && failed_transition == c.transition_name,
{
}

/// A step leads to its target, one version further, and what is committed is exactly that.
/// Its record names the transition, the state it began in and the runtime as its actor.
pub proof fn law_chain_step_is_committed(
    c: ChainView,
    target: String,
    delta: Value,
    now: String,
)
    requires
        c.phase == ChainPhase::Targeting,
        c.instance.version < u64::MAX,
    ensures
        ({
            let a = c.next(ChainEvent::Targeted(target));
            let b = a.chain.next(ChainEvent::Diffed { delta, now });
            let d = b.chain.next(ChainEvent::Recorded);
            &&& a.action is Diff
            &&& a.chain.instance == (InstanceView {
                state: target@,
                version: (c.instance.version + 1) as u64,
                context: a.chain.instance.context,
                ..c.instance
            })
            &&& b.action matches ChainActionView::Record(e) && e.workflow_id == Some(c.instance.id)
                && e.payload.get("fromState"@) == Some(Json::String(c.from_state)) && e.payload.get(
                "toState"@,
            ) == Some(Json::String(target@)) && e.payload.get("transition"@) == Some(
                Json::String(c.transition_name),
            ) && e.payload.get("actor"@) == Some(Json::String("deterministic"@)) && e.payload.get(
                "blackboardDelta"@,
            ) == Some(delta@) && e.payload.get("seq"@) == Some(
                Json::Number(Number::PosInt((c.instance.version + 1) as u64)),
            )
            &&& d.action == (ChainActionView::Save {
                instance: a.chain.instance,
                expected_version: c.instance.version,
            })
            &&& d.chain.phase == ChainPhase::Saving
        }),
{
    let a = c.next(ChainEvent::Targeted(target)).chain;
    runtime::law_records_say_what_happened(a.record(delta@, now@));
}

/// A committed step is counted with where it began, what it was, where it led and under which
/// version; the chain goes on from what the entry action left, and ends there once the time
/// of the workflow is over.
pub proof fn law_committed_steps_are_counted(
    c: ChainView,
    saved: WorkflowInstance,
    entered: WorkflowInstance,
    elapsed: i64,
)
    requires
        c.phase == ChainPhase::Saving,
    ensures
        ({
            let a = c.next(ChainEvent::Saved(saved));
            let b = a.chain.next(ChainEvent::Entered { instance: entered, elapsed });
            let over = c.definition.u64_at("timeoutMs"@) matches Some(ms) && elapsed >= ms;
            let there = ChainView { instance: entered@, ..a.chain };
            &&& a.action is Enter
            &&& a.chain.instance == saved@
            &&& a.chain.steps == c.steps.push(
                ChainStepView {
                    from_state: c.from_state,
                    transition: c.transition_name,
                    to_state: c.instance.state,
                    version: saved@.version,
                },
            )
            &&& a.chain.evidence == c.evidence
            &&& over ==> (b.action matches ChainActionView::Finish(ChainOutcomeView::Completed(r))
                && r.instance == entered@ && r.steps == a.chain.steps && r.evidence == c.evidence)
            &&& !over ==> b == there.decided()
        }),
{
}

/// What a chain does is noted: a step with its transition, where it begins and how many steps
/// were taken before; a chain that took steps with how many and where it ended; a failed
/// executor with its transition, class and message.
pub proof fn law_chains_note_what_they_do(c: ChainView, e: ExecutorError, t: (Seq<char>, Json))
    ensures
        ({
            let steps = Json::Number(Number::PosInt(c.steps.len() as u64));
            let taken = c.taking(t).notes;
            let done = c.completed().notes;
            let failed = c.executor_failed(e@).notes;
            &&& taken.len() == 1 && taken[0].event_type == "chain.step"@ && taken[0].workflow_id
                == Some(c.instance.id) && taken[0].payload.get("transition"@) == Some(
                Json::String(t.0),
            ) && taken[0].payload.get("fromState"@) == Some(Json::String(c.instance.state))
                && taken[0].payload.get("chainDepth"@) == Some(steps)
            &&& c.steps.len() == 0 ==> done.len() == 0
            &&& c.steps.len() > 0 ==> done.len() == 1 && done[0].event_type == "chain.completed"@
                && done[0].workflow_id == Some(c.instance.id) && done[0].payload.get("steps"@)
                == Some(steps) && done[0].payload.get("finalState"@) == Some(
                Json::String(c.instance.state),
            )
            &&& failed.len() == 1 && failed[0].event_type == "chain.failed"@
                && failed[0].workflow_id == Some(c.instance.id) && failed[0].payload.get(
                "transition"@,
            ) == Some(Json::String(c.transition_name)) && failed[0].payload.get("fromState"@)
                == Some(Json::String(c.from_state)) && failed[0].payload.get("chainDepth"@) == Some(
                steps,
            ) && failed[0].payload.get("errorClass"@) == Some(
                Json::String(e@.class_of().token_text()),
            ) && failed[0].payload.get("message"@) == Some(Json::String(e@.message_text()))
        }),
{
    json::lemma_reads();
    reveal_strlit("transition");
    reveal_strlit("fromState");
    reveal_strlit("chainDepth");
    reveal_strlit("errorClass");
    reveal_strlit("message");
    reveal_strlit("steps");
    reveal_strlit("finalState");
    assert("transition"@.len() == 10 && "transition"@[0] == 't' && "fromState"@.len() == 9
        && "chainDepth"@.len() == 10 && "chainDepth"@[0] == 'c' && "errorClass"@.len() == 10
        && "errorClass"@[0] == 'e' && "message"@.len() == 7 && "steps"@.len() == 5
        && "finalState"@.len() == 10);
}

} // verus!
