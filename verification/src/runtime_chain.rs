//! Branches, loops, timeouts, entry actions, state-local slots, and the chain of
//! transitions that the runtime takes by itself.
use crate::audit;
use crate::audit::{AuditEvent, AuditEventView};
use crate::error::{ExecutorError, ExecutorErrorView};
use crate::json;
use crate::json::{Json, Number, Value};
use crate::model;
use crate::model::{
    Evidence, EvidenceView, ExecuteResult, InstanceView, Principal, PrincipalView, WorkflowInstance,
};
use crate::reliability;
use crate::runtime;
use crate::runtime::{
    ChainOutcome, ChainOutcomeView, ChainResult, ChainResultView, ChainStep, ChainStepView,
    RecordView, TransitionRecordParams,
};
use crate::runtime_links;
use crate::text;
use vstd::prelude::*;

verus! {

// ---------------------------------------------------------------------------
// Branches
// ---------------------------------------------------------------------------

/// A branch that can be taken: it has a condition and names a target.
pub open spec fn branch_usable(b: Json) -> bool {
    b.has("when"@) && b.str_at("target"@) is Some
}

/// The first usable branch from the `i`-th on; the number of branches when there
/// is none.
pub open spec fn usable_from(branches: Seq<Json>, i: int) -> int
    decreases branches.len() - i,
{
    if i >= branches.len() {
        i
    } else if branch_usable(branches[i]) {
        i
    } else {
        usable_from(branches, i + 1)
    }
}

/// The choice of a transition's target.
#[derive(Debug)]
pub struct Branching {
    pub default_target: String,
    pub branches: Vec<Value>,
    pub at: usize,
}

/// A choice as mathematical values: `at` is the branch that is being judged.
pub struct BranchingView {
    pub default_target: Seq<char>,
    pub branches: Seq<Json>,
    pub at: int,
}

impl View for Branching {
    type V = BranchingView;

    open spec fn view(&self) -> BranchingView {
        BranchingView {
            default_target: self.default_target@,
            branches: json::views(self.branches@),
            at: self.at as int,
        }
    }
}

impl BranchingView {
    /// The choice stands at a usable branch, or at the end.
    pub open spec fn wf(self) -> bool {
        0 <= self.at <= self.branches.len() && (self.at < self.branches.len() ==> branch_usable(
            self.branches[self.at],
        ))
    }

    /// No branch is left.
    pub open spec fn exhausted(self) -> bool {
        self.at >= self.branches.len()
    }

    /// The target once the current branch was judged: the branch's when it
    /// passes, the default when no usable branch is left.
    pub open spec fn after(self, pass: bool) -> (BranchingView, Option<Seq<char>>) {
        if pass {
            (self, self.branches[self.at].str_at("target"@))
        } else {
            let next = BranchingView { at: usable_from(self.branches, self.at + 1), ..self };
            (
                next,
                if next.exhausted() {
                    Some(self.default_target)
                } else {
                    None
                },
            )
        }
    }
}

fn next_usable(branches: &Vec<Value>, from: usize) -> (r: usize)
    requires
        from <= branches.len(),
    ensures
        r == usable_from(json::views(branches@), from as int),
        from <= r <= branches.len(),
        r < branches.len() ==> branch_usable(json::views(branches@)[r as int]),
{
    let ghost js = json::views(branches@);
    let mut i: usize = from;
    while i < branches.len()
        invariant
            from <= i <= branches.len(),
            js == json::views(branches@),
            usable_from(js, i as int) == usable_from(js, from as int),
        decreases branches.len() - i,
    {
        assert(js[i as int] == branches@[i as int]@);
        if branches[i].has("when") && branches[i].str_at("target").is_some() {
            return i;
        }
        i = i + 1;
    }
    i
}

/// The audit event that a branch was taken.
pub open spec fn branched_event(
    instance: InstanceView,
    index: int,
    target: Seq<char>,
    correlation_id: Seq<char>,
    principal: PrincipalView,
) -> AuditEventView {
    instance.event(
        "transition.branched"@,
        correlation_id,
        Some(principal.subject),
        Json::empty().with("branchIndex"@, Json::Number(Number::PosInt(index as u64))).with(
            "fromState"@,
            Json::String(instance.state),
        ).with("toState"@, Json::String(target)),
    )
}

impl Branching {
    /// Begins the choice for a transition; `None` when it declares no target. A
    /// choice that is exhausted at once has its default target.
    pub fn begin(transition: &Value) -> (r: Option<Branching>)
        ensures
            match (r, transition@.str_at("target"@)) {
                (Some(b), Some(t)) => b@ == (BranchingView {
                    default_target: t,
                    branches: transition@.items_at("branches"@),
                    at: usable_from(transition@.items_at("branches"@), 0),
                }) && b@.wf(),
                (None, None) => true,
                _ => false,
            },
    {
        let target = match transition.str_at("target") {
            Some(t) => t.to_owned(),
            None => {
                return None;
            },
        };
        let branches = match transition.array_at("branches") {
            Some(b) => reliability::copy_values(b),
            None => {
                let v: Vec<Value> = Vec::new();
                assert(json::views(v@) =~= Seq::empty());
                v
            },
        };
        let at = next_usable(&branches, 0);
        Some(Branching { default_target: target, branches, at })
    }

    /// The condition to judge next; `None` when no branch is left.
    pub fn current(&self) -> (r: Option<&Value>)
        requires
            self@.wf(),
        ensures
            match r {
                Some(w) => !self@.exhausted() && self@.branches[self@.at].get("when"@) == Some(
                    w@,
                ),
                None => self@.exhausted(),
            },
    {
        if self.at < self.branches.len() {
            assert(json::views(self.branches@)[self.at as int] == self.branches@[self.at as int]@);
            self.branches[self.at].get("when")
        } else {
            None
        }
    }

    /// Takes note of whether the current condition passes: the target once it is
    /// settled, and the audit event when a branch was taken.
    pub fn resolve_target(
        &mut self,
        pass: bool,
        instance: &WorkflowInstance,
        correlation_id: &str,
        principal: &Principal,
    ) -> (r: (Option<String>, Option<AuditEvent>))
        requires
            old(self)@.wf(),
            !old(self)@.exhausted(),
        ensures
            (final(self)@, text::opt_text(r.0)) == old(self)@.after(pass),
            final(self)@.wf(),
            match r.1 {
                Some(e) => pass && audit::is_event_id(e.id@) && e@ == branched_event(
                    instance@,
                    old(self)@.at,
                    old(self)@.branches[old(self)@.at].str_at("target"@)->0,
                    correlation_id@,
                    principal@,
                ),
                None => !pass,
            },
    {
        if pass {
            assert(json::views(self.branches@)[self.at as int] == self.branches@[self.at as int]@);
            let target = match self.branches[self.at].str_at("target") {
                Some(t) => t,
                None => crate::runtime_response::no_text(),
            };
            let payload = Value::object().and("branchIndex", Value::uint(self.at as u64)).and(
                "fromState",
                Value::text(instance.state.as_str()),
            ).and("toState", Value::text(target));
            let event = instance.event(
                "transition.branched",
                correlation_id,
                Some(principal.subject.as_str()),
                payload,
            );
            return (Some(target.to_owned()), Some(event));
        }
        assert(self.at < self.branches.len());
        self.at = next_usable(&self.branches, self.at + 1);
        if self.at >= self.branches.len() {
            (Some(self.default_target.clone()), None)
        } else {
            (None, None)
        }
    }
}

// ---------------------------------------------------------------------------
// Loops
// ---------------------------------------------------------------------------

/// The context slot that counts the rounds of a state's loop.
pub open spec fn loop_key(state: Seq<char>) -> Seq<char> {
    "_while_iter."@ + state
}

/// The context slot that counts the rounds of a state's loop.
pub fn while_iter_key(state: &str) -> (r: String)
    ensures
        r@ == loop_key(state@),
{
    text::join2("_while_iter.", state)
}

/// The rounds that a state's loop has made: the low 32 bits of the counter.
pub open spec fn rounds(context: Json, state: Seq<char>) -> u32 {
    match context.u64_at(loop_key(state)) {
        Some(n) => n as u32,
        None => 0,
    }
}

/// The rounds that a state's loop has made.
pub fn read_while_iter(context: &Value, state: &str) -> (r: u32)
    ensures
        r == rounds(context@, state@),
{
    let key = while_iter_key(state);
    match context.u64_at(key.as_str()) {
        Some(n) => n as u32,
        None => 0,
    }
}

/// Writes the counter of a state's loop.
pub fn write_while_iter(context: &mut Value, state: &str, value: u32)
    ensures
        final(context)@ == old(context)@.with(
            loop_key(state@),
            Json::Number(Number::PosInt(value as u64)),
        ),
{
    let key = while_iter_key(state);
    context.set(key.as_str(), Value::uint(value as u64));
}

/// Removes the counter of a state's loop.
pub fn clear_while_iter(context: &mut Value, state: &str)
    ensures
        final(context)@ == old(context)@.minus(loop_key(state@)),
{
    let key = while_iter_key(state);
    context.unset(key.as_str());
}

/// What the loop of a state asks for.
#[derive(Debug)]
pub enum WhilePlan {
    /// The state is unknown: nothing to do.
    Unknown,
    /// The state has no loop: its counter goes.
    Leave,
    /// The state has a loop without a cap.
    Uncapped(String),
    /// The state has a loop: judge its guard.
    Judge { guard: Value, max_iterations: u32 },
}

/// A plan as mathematical values.
pub enum WhilePlanView {
    Unknown,
    Leave,
    Uncapped(Seq<char>),
    Judge { guard: Json, max_iterations: u32 },
}

impl View for WhilePlan {
    type V = WhilePlanView;

    open spec fn view(&self) -> WhilePlanView {
        match self {
            WhilePlan::Unknown => WhilePlanView::Unknown,
            WhilePlan::Leave => WhilePlanView::Leave,
            WhilePlan::Uncapped(m) => WhilePlanView::Uncapped(m@),
            WhilePlan::Judge { guard, max_iterations } => WhilePlanView::Judge {
                guard: guard@,
                max_iterations: *max_iterations,
            },
        }
    }
}

/// What is said of a loop without a cap.
pub open spec fn uncapped_message(state: Seq<char>) -> Seq<char> {
    "INVALID_STATE_CONFIG: state '"@ + state
        + "' declares `while:` but no `max_iterations:` cap. The cap is REQUIRED to prevent runaway loops; declare an explicit ceiling."@
}

/// What is said of a loop that does not end.
pub open spec fn cap_message(state: Seq<char>, max: u32) -> Seq<char> {
    "WHILE_ITERATION_CAP_EXCEEDED: state '"@ + state
        + "' has `while:` guard that remained truthy after "@ + text::decimal(max as nat)
        + " iterations. Either the guard's exit condition is unreachable, or `max_iterations:` needs to be increased after operator review."@
}

/// What the loop of a state asks for.
pub open spec fn loop_plan(definition: Json, state: Seq<char>) -> WhilePlanView {
    match runtime_links::state_of(definition, state) {
        None => WhilePlanView::Unknown,
        Some(s) => match s.get("while"@) {
            None => WhilePlanView::Leave,
            Some(guard) => match s.u64_at("max_iterations"@) {
                None => WhilePlanView::Uncapped(uncapped_message(state)),
                Some(n) => WhilePlanView::Judge { guard, max_iterations: n as u32 },
            },
        },
    }
}

/// What the loop of a state asks for.
pub fn plan_while_loop(definition: &Value, from_state: &str) -> (r: WhilePlan)
    ensures
        r@ == loop_plan(definition@, from_state@),
{
    match runtime_links::state_definition(definition, from_state) {
        None => WhilePlan::Unknown,
        Some(s) => match s.get("while") {
            None => WhilePlan::Leave,
            Some(guard) => match s.u64_at("max_iterations") {
                None => WhilePlan::Uncapped(
                    text::join3(
                        "INVALID_STATE_CONFIG: state '",
                        from_state,
                        "' declares `while:` but no `max_iterations:` cap. The cap is REQUIRED to prevent runaway loops; declare an explicit ceiling.",
                    ),
                ),
                Some(n) => WhilePlan::Judge { guard: guard.dup(), max_iterations: n as u32 },
            },
        },
    }
}

/// What a judged loop leads to: another round with its number, leaving, or an
/// error once the cap is exceeded.
pub enum LoopView {
    Again(u32),
    Leave,
    Exceeded(Seq<char>),
}

/// What a judged loop leads to.
#[derive(Debug)]
pub enum LoopStep {
    Again(u32),
    Leave,
    Exceeded(String),
}

impl View for LoopStep {
    type V = LoopView;

    open spec fn view(&self) -> LoopView {
        match self {
            LoopStep::Again(n) => LoopView::Again(*n),
            LoopStep::Leave => LoopView::Leave,
            LoopStep::Exceeded(m) => LoopView::Exceeded(m@),
        }
    }
}

/// What a judged loop leads to.
pub open spec fn loop_step(context: Json, state: Seq<char>, max: u32, truthy: bool) -> LoopView {
    let current = rounds(context, state);
    let next = if current < u32::MAX {
        (current + 1) as u32
    } else {
        u32::MAX
    };
    if !truthy {
        LoopView::Leave
    } else if next > max {
        LoopView::Exceeded(cap_message(state, max))
    } else {
        LoopView::Again(next)
    }
}

/// The context after a judged loop.
pub open spec fn looped(context: Json, state: Seq<char>, step: LoopView) -> Json {
    match step {
        LoopView::Again(n) => context.with(loop_key(state), Json::Number(Number::PosInt(n as u64))),
        LoopView::Leave => context.minus(loop_key(state)),
        LoopView::Exceeded(_) => context,
    }
}

/// Applies a judged loop to the context.
pub fn apply_while_loop(context: &mut Value, state: &str, max: u32, truthy: bool) -> (r: LoopStep)
    ensures
        r@ == loop_step(old(context)@, state@, max, truthy),
        final(context)@ == looped(old(context)@, state@, r@),
{
    if !truthy {
        clear_while_iter(context, state);
        return LoopStep::Leave;
    }
    let current = read_while_iter(context, state);
    let next: u32 = if current < u32::MAX {
        current + 1
    } else {
        u32::MAX
    };
    if next > max {
        let n = text::decimal_of(max as u64);
        return LoopStep::Exceeded(
            text::join5(
                "WHILE_ITERATION_CAP_EXCEEDED: state '",
                state,
                "' has `while:` guard that remained truthy after ",
                n.as_str(),
                " iterations. Either the guard's exit condition is unreachable, or `max_iterations:` needs to be increased after operator review.",
            ),
        );
    }
    write_while_iter(context, state, next);
    LoopStep::Again(next)
}

/// The audit event about another round of a loop.
pub open spec fn iteration_event(
    instance: InstanceView,
    state: Seq<char>,
    iteration: u32,
    max: u32,
    correlation_id: Seq<char>,
    principal: PrincipalView,
) -> AuditEventView {
    instance.event(
        "workflow.state.iteration"@,
        correlation_id,
        Some(principal.subject),
        Json::empty().with("state"@, Json::String(state)).with(
            "iteration"@,
            Json::Number(Number::PosInt(iteration as u64)),
        ).with("max_iterations"@, Json::Number(Number::PosInt(max as u64))),
    )
}

/// The audit event about another round of a loop.
pub fn iteration_event_for(
    instance: &WorkflowInstance,
    state: &str,
    iteration: u32,
    max: u32,
    correlation_id: &str,
    principal: &Principal,
) -> (r: AuditEvent)
    ensures
        r@ == iteration_event(
            instance@,
            state@,
            iteration,
            max,
            correlation_id@,
            principal@,
        ),
        audit::is_event_id(r.id@),
{
    let payload = Value::object().and("state", Value::text(state)).and(
        "iteration",
        Value::uint(iteration as u64),
    ).and("max_iterations", Value::uint(max as u64));
    instance.event(
        "workflow.state.iteration",
        correlation_id,
        Some(principal.subject.as_str()),
        payload,
    )
}

// ---------------------------------------------------------------------------
// State-local slots
// ---------------------------------------------------------------------------

/// The first `n` entries without those whose key begins with the prefix.
pub open spec fn unprefixed(e: Seq<(Seq<char>, Json)>, prefix: Seq<char>, n: int) -> Seq<
    (Seq<char>, Json),
>
    decreases n,
{
    if n <= 0 {
        Seq::empty()
    } else {
        let before = unprefixed(e, prefix, n - 1);
        if prefix.is_prefix_of(e[n - 1].0) {
            before
        } else {
            before.push(e[n - 1])
        }
    }
}

/// An object without the keys that begin with the prefix.
pub open spec fn without_prefix(v: Json, prefix: Seq<char>) -> Json {
    match v {
        Json::Object(e) => Json::Object(unprefixed(e, prefix, e.len() as int)),
        other => other,
    }
}

fn remove_prefixed(v: &Value, prefix: &str) -> (r: Value)
    ensures
        r@ == without_prefix(v@, prefix@),
{
    match v {
        Value::Object(es) => {
            let ghost e = json::entries(es@);
            let mut out: Vec<(String, Value)> = Vec::new();
            assert(json::entries(out@) =~= Seq::empty());
            let mut i: usize = 0;
            while i < es.len()
                invariant
                    i <= es.len(),
                    e == json::entries(es@),
                    json::entries(out@) == unprefixed(e, prefix@, i as int),
                decreases es.len() - i,
            {
                assert(e[i as int] == (es@[i as int].0@, es@[i as int].1@));
                if !text::starts_with(es[i].0.as_str(), prefix) {
                    let x = (es[i].0.clone(), es[i].1.dup());
                    proof {
                        json::lemma_entries_push(out@, x);
                    }
                    out.push(x);
                }
                i = i + 1;
            }
            Value::Object(out)
        },
        other => other.dup(),
    }
}

/// The prefix of the context slots that count how often a transition of a state
/// was taken.
pub open spec fn fire_prefix(state: Seq<char>) -> Seq<char> {
    "_fire_count."@ + state + "."@
}

/// The context slot that counts how often a transition of a state was taken.
pub open spec fn fire_key(state: Seq<char>, transition: Seq<char>) -> Seq<char> {
    "_fire_count."@ + state + "."@ + transition
}

/// The context slot that counts how often a transition of a state was taken.
pub fn fire_count_key(state: &str, transition: &str) -> (r: String)
    ensures
        r@ == fire_key(state@, transition@),
{
    text::join4("_fire_count.", state, ".", transition)
}

/// A slot that lives only while its state is active.
pub open spec fn state_local(decl: Json) -> bool {
    runtime_links::str_else(decl, "scope"@, "workflow"@) == "state"@
}

/// The context, and the slots removed from it, after the first `n` declared
/// slots.
pub open spec fn slots_cleared(
    slots: Seq<(Seq<char>, Json)>,
    n: int,
    context: Json,
) -> (Json, Seq<Json>)
    decreases n,
{
    if n <= 0 {
        (context, Seq::empty())
    } else {
        let (c, names) = slots_cleared(slots, n - 1, context);
        let (name, decl) = slots[n - 1];
        if state_local(decl) && c.has(name) {
            (c.minus(name), names.push(Json::String(name)))
        } else {
            (c, names)
        }
    }
}

/// The slots that a state declares.
pub open spec fn declared_slots(definition: Json, state: Seq<char>) -> Seq<(Seq<char>, Json)> {
    match runtime_links::state_field(definition, state, "slots"@) {
        Some(Json::Object(e)) => e,
        _ => Seq::empty(),
    }
}

/// The context when a state is left for a target, and the slots removed from it:
/// the counters of the state's transitions go, and so do its state-local slots.
/// A state that is re-entered keeps both.
pub open spec fn left(
    definition: Json,
    from: Seq<char>,
    target: Seq<char>,
    context: Json,
) -> (Json, Seq<Json>) {
    if from == target {
        (context, Seq::empty())
    } else {
        let slots = declared_slots(definition, from);
        slots_cleared(slots, slots.len() as int, without_prefix(context, fire_prefix(from)))
    }
}

/// Clears what lives only while a state is active, when it is left: the names of
/// the slots removed.
pub fn clear_state_local_slots_on_exit(
    definition: &Value,
    from_state: &str,
    target: &str,
    context: &mut Value,
) -> (r: Vec<Value>)
    ensures
        (final(context)@, json::views(r@)) == left(
            definition@,
            from_state@,
            target@,
            old(context)@,
        ),
{
    let mut cleared: Vec<Value> = Vec::new();
    assert(json::views(cleared@) =~= Seq::empty());
    if text::str_eq(from_state, target) {
        return cleared;
    }
    let prefix = text::join3("_fire_count.", from_state, ".");
    let scrubbed = remove_prefixed(context, prefix.as_str());
    *context = scrubbed;
    let ghost start = context@;
    if let Some(Value::Object(slots)) = runtime_links::state_declares(
        definition,
        from_state,
        "slots",
    ) {
        let ghost e = json::entries(slots@);
        let mut i: usize = 0;
        while i < slots.len()
            invariant
                i <= slots.len(),
                e == json::entries(slots@),
                (context@, json::views(cleared@)) == slots_cleared(e, i as int, start),
            decreases slots.len() - i,
        {
            assert(e[i as int] == (slots@[i as int].0@, slots@[i as int].1@));
            let name = slots[i].0.as_str();
            let scope = runtime_links::str_or_default(&slots[i].1, "scope", "workflow");
            if text::str_eq(scope, "state") && context.has(name) {
                context.unset(name);
                let n = Value::text(name);
                proof {
                    json::lemma_views_push(cleared@, n);
                }
                cleared.push(n);
            }
            i = i + 1;
        }
    }
    cleared
}

/// The audit event about removed slots.
pub open spec fn cleared_event(
    instance: InstanceView,
    state: Seq<char>,
    names: Seq<Json>,
    correlation_id: Seq<char>,
    principal: PrincipalView,
) -> AuditEventView {
    instance.event(
        "workflow.slot.cleared"@,
        correlation_id,
        Some(principal.subject),
        Json::empty().with("state"@, Json::String(state)).with("slots"@, Json::Array(names)),
    )
}

/// The audit event about removed slots.
pub fn cleared_event_for(
    instance: &WorkflowInstance,
    state: &str,
    names: Vec<Value>,
    correlation_id: &str,
    principal: &Principal,
) -> (r: AuditEvent)
    ensures
        r@ == cleared_event(
            instance@,
            state@,
            json::views(names@),
            correlation_id@,
            principal@,
        ),
        audit::is_event_id(r.id@),
{
    let payload = Value::object().and("state", Value::text(state)).and(
        "slots",
        Value::Array(names),
    );
    instance.event(
        "workflow.slot.cleared",
        correlation_id,
        Some(principal.subject.as_str()),
        payload,
    )
}

// ---------------------------------------------------------------------------
// Timeouts
// ---------------------------------------------------------------------------

/// The time after which the workflow is due, when it has one and has passed it.
pub open spec fn timeout_due(definition: Json, state: Seq<char>, elapsed: i64) -> Option<u64> {
    match definition.u64_at("timeoutMs"@) {
        Some(ms) => if !runtime_links::terminal(definition, state) && elapsed >= 0 && elapsed
            >= ms {
            Some(ms)
        } else {
            None
        },
        None => None,
    }
}

/// What the declaration of a timeout says under a key.
pub open spec fn on_timeout_text(definition: Json, key: Seq<char>) -> Option<Seq<char>> {
    match definition.get("onTimeout"@) {
        Some(t) => t.str_at(key),
        None => None,
    }
}

fn on_timeout_str<'a>(definition: &'a Value, key: &str) -> (r: Option<&'a str>)
    ensures
        text::opt_str(r) == on_timeout_text(definition@, key@),
{
    match definition.get("onTimeout") {
        Some(t) => t.str_at(key),
        None => None,
    }
}

/// What a check for the timeout leads to.
#[derive(Debug)]
pub enum TimeoutStep {
    /// The workflow is not due.
    NotDue,
    /// It is due, but declares no target: take note of it, and change nothing.
    Unrecoverable(AuditEvent),
    /// It is due: write the record, and only if that succeeds commit the
    /// instance under the expected version.
    Apply { record: AuditEvent, instance: WorkflowInstance, expected_version: u64 },
}

impl TimeoutStep {
    /// The audit event of the step has an id of its own form.
    pub open spec fn named(self) -> bool {
        match self {
            TimeoutStep::NotDue => true,
            TimeoutStep::Unrecoverable(e) => audit::is_event_id(e.id@),
            TimeoutStep::Apply { record, .. } => audit::is_event_id(record.id@),
        }
    }
}

/// A step as mathematical values.
pub enum TimeoutView {
    NotDue,
    Unrecoverable(AuditEventView),
    Apply { record: AuditEventView, instance: InstanceView, expected_version: u64 },
}

impl View for TimeoutStep {
    type V = TimeoutView;

    open spec fn view(&self) -> TimeoutView {
        match self {
            TimeoutStep::NotDue => TimeoutView::NotDue,
            TimeoutStep::Unrecoverable(e) => TimeoutView::Unrecoverable(e@),
            TimeoutStep::Apply { record, instance, expected_version } => TimeoutView::Apply {
                record: record@,
                instance: instance@,
                expected_version: *expected_version,
            },
        }
    }
}

/// What the note about a timeout says.
pub open spec fn timed_out_payload(
    elapsed: i64,
    timeout_ms: u64,
    from: Seq<char>,
    to: Option<Seq<char>>,
) -> Json {
    crate::runtime_response::with_opt(
        Json::empty().with("elapsedMs"@, Json::Number(Number::PosInt(elapsed as u64))).with(
            "timeoutMs"@,
            Json::Number(Number::PosInt(timeout_ms)),
        ).with("fromState"@, Json::String(from)),
        "toState"@,
        crate::runtime_response::some_text(to),
    ).with("applied"@, Json::Bool(to is Some))
}

/// The record of a timeout.
pub open spec fn timeout_record(
    definition: Json,
    before: InstanceView,
    after: InstanceView,
    correlation_id: Seq<char>,
    now: Seq<char>,
) -> RecordView {
    RecordView {
        instance: after,
        from_state: before.state,
        transition_name: match on_timeout_text(definition, "transition"@) {
            Some(t) => t,
            None => "onTimeout"@,
        },
        transition_def: runtime_links::get_or_null(definition, "onTimeout"@),
        actor: "system"@,
        principal: None,
        arguments: Json::empty(),
        blackboard_delta: Json::empty(),
        guard_results: Seq::empty(),
        child_workflow_id: None,
        executor_outcome: None,
        correlation_id,
        timestamp: now,
    }
}

/// What a check for the timeout leads to, when the given number of milliseconds
/// has passed since the start.
pub open spec fn timeout_step(
    definition: Json,
    i: InstanceView,
    elapsed: i64,
    correlation_id: Seq<char>,
    now: Seq<char>,
    principal: PrincipalView,
) -> TimeoutView {
    match timeout_due(definition, i.state, elapsed) {
        None => TimeoutView::NotDue,
        Some(ms) => match on_timeout_text(definition, "target"@) {
            None => TimeoutView::Unrecoverable(
                i.event(
                    "workflow.timed_out"@,
                    correlation_id,
                    Some(principal.subject),
                    timed_out_payload(elapsed, ms, i.state, None),
                ),
            ),
            Some(target) => {
                let after = InstanceView {
                    state: target,
                    version: (i.version + 1) as u64,
                    ..i
                };
                TimeoutView::Apply {
                    record: runtime::transition_record(
                        timeout_record(definition, i, after, correlation_id, now),
                    ),
                    instance: after,
                    expected_version: i.version,
                }
            },
        },
    }
}

/// Checks the timeout of a workflow. `elapsed` is the number of milliseconds
/// since its start, `correlation_id` a fresh one.
pub fn check_and_apply_timeout(
    definition: &Value,
    instance: &WorkflowInstance,
    elapsed: i64,
    correlation_id: &str,
    now: &str,
    principal: &Principal,
) -> (r: TimeoutStep)
    requires
        timeout_step(
            definition@,
            instance@,
            elapsed,
            correlation_id@,
            now@,
            principal@,
        ) is Apply ==> instance.version < u64::MAX,
    ensures
        r@ == timeout_step(
            definition@,
            instance@,
            elapsed,
            correlation_id@,
            now@,
            principal@,
        ),
        r.named(),
{
    let timeout_ms = match definition.u64_at("timeoutMs") {
        Some(ms) => ms,
        None => {
            return TimeoutStep::NotDue;
        },
    };
    if runtime_links::is_terminal(definition, instance.state.as_str()) {
        return TimeoutStep::NotDue;
    }
    if elapsed < 0 || (elapsed as u64) < timeout_ms {
        return TimeoutStep::NotDue;
    }
    let target = match on_timeout_str(definition, "target") {
        Some(t) => t,
        None => {
            let payload = Value::object().and("elapsedMs", Value::uint(elapsed as u64)).and(
                "timeoutMs",
                Value::uint(timeout_ms),
            ).and("fromState", Value::text(instance.state.as_str())).and(
                "applied",
                Value::Bool(false),
            );
            return TimeoutStep::Unrecoverable(
                instance.event(
                    "workflow.timed_out",
                    correlation_id,
                    Some(principal.subject.as_str()),
                    payload,
                ),
            );
        },
    };
    let mut after = instance.dup();
    after.state = target.to_owned();
    after.version = after.version + 1;
    let name = match on_timeout_str(definition, "transition") {
        Some(t) => t,
        None => "onTimeout",
    };
    let def = runtime_links::get_or_null_of(definition, "onTimeout");
    let empty = Value::object();
    let no_guards: Vec<Value> = Vec::new();
    assert(json::views(no_guards@) =~= Seq::empty());
    let record = runtime::emit_transition_record(
        &TransitionRecordParams {
            instance: &after,
            from_state: instance.state.as_str(),
            transition_name: name,
            transition_def: &def,
            actor: "system",
            principal: None,
            arguments: &empty,
            blackboard_delta: &empty,
            guard_results: &no_guards,
            child_workflow_id: None,
            executor_outcome: None,
            correlation_id,
            timestamp: now,
        },
    );
    TimeoutStep::Apply { record, instance: after, expected_version: instance.version }
}

/// The note about an applied timeout.
pub fn timed_out_event(
    saved: &WorkflowInstance,
    from_state: &str,
    target: &str,
    elapsed: i64,
    timeout_ms: u64,
    correlation_id: &str,
    principal: &Principal,
) -> (r: AuditEvent)
    requires
        elapsed >= 0,
    ensures
        r@ == saved@.event(
            "workflow.timed_out"@,
            correlation_id@,
            Some(principal@.subject),
            timed_out_payload(elapsed, timeout_ms, from_state@, Some(target@)),
        ),
        audit::is_event_id(r.id@),
{
    let payload = Value::object().and("elapsedMs", Value::uint(elapsed as u64)).and(
        "timeoutMs",
        Value::uint(timeout_ms),
    ).and("fromState", Value::text(from_state)).and("toState", Value::text(target)).and(
        "applied",
        Value::Bool(true),
    );
    saved.event(
        "workflow.timed_out",
        correlation_id,
        Some(principal.subject.as_str()),
        payload,
    )
}

/// A timeout never moves a workflow that is not due or that has reached a terminal
/// state, and a timeout that is applied moves the workflow to the declared target
/// with the next version, under the version it had.
pub proof fn law_timeout(
    definition: Json,
    i: InstanceView,
    elapsed: i64,
    correlation_id: Seq<char>,
    now: Seq<char>,
    principal: PrincipalView,
)
    ensures
        timeout_step(definition, i, elapsed, correlation_id, now, principal) matches TimeoutView::Apply {
            record,
            instance,
            expected_version,
        } ==> !runtime_links::terminal(definition, i.state) && elapsed >= 0 && Some(instance.state)
            == on_timeout_text(definition, "target"@) && (i.version < u64::MAX ==> instance.version
            == i.version + 1) && expected_version == i.version && instance.context == i.context,
{
}

// ---------------------------------------------------------------------------
// Entry actions
// ---------------------------------------------------------------------------

/// The entry action of a state, when it has an executor.
pub open spec fn entry_action(definition: Json, state: Seq<char>) -> Option<Json> {
    match runtime_links::state_field(definition, state, "onEnter"@) {
        Some(a) => if a.has("executor"@) {
            Some(a)
        } else {
            None
        },
        None => None,
    }
}

/// The entry action of a state, when it has an executor.
pub fn on_enter_action<'a>(definition: &'a Value, state: &str) -> (r: Option<&'a Value>)
    ensures
        json::opt_view(r) == entry_action(definition@, state@),
{
    match runtime_links::state_declares(definition, state, "onEnter") {
        Some(a) => if a.has("executor") {
            Some(a)
        } else {
            None
        },
        None => None,
    }
}

/// What is said of an entry action whose output does not fit its slot.
pub open spec fn on_enter_type_error(slot: Seq<char>, reason: Seq<char>) -> Seq<char> {
    "BLACKBOARD_TYPE_ERROR: onEnter output write to typed slot '"@ + slot + "': "@ + reason
}

/// The instance to commit after an entry action, from the context with the
/// action's output in it; `violation` is the typed slot that the output does not
/// fit, and why. It is committed under the version that the instance had.
pub fn run_on_enter(
    instance: WorkflowInstance,
    context: Value,
    violation: Option<(String, String)>,
) -> (r: Result<WorkflowInstance, String>)
    requires
        violation is None ==> instance.version < u64::MAX,
    ensures
        match (violation, r) {
            (Some(v), Err(m)) => m@ == on_enter_type_error(v.0@, v.1@),
            (None, Ok(i)) => i@ == (InstanceView {
                context: context@,
                version: (instance@.version + 1) as u64,
                ..instance@
            }),
            _ => false,
        },
{
    if let Some((slot, reason)) = violation {
        return Err(
            text::join4(
                "BLACKBOARD_TYPE_ERROR: onEnter output write to typed slot '",
                slot.as_str(),
                "': ",
                reason.as_str(),
            ),
        );
    }
    let version: u64 = instance.version + 1;
    Ok(WorkflowInstance { context, version, ..instance })
}

/// What is said of an entry action whose executor failed.
pub fn on_enter_failed(err: &ExecutorError) -> (r: String)
    ensures
        r@ == "onEnter executor failed: "@ + err@.message_text(),
{
    let m = err.message();
    text::join2("onEnter executor failed: ", m.as_str())
}

// ---------------------------------------------------------------------------
// Selecting a deterministic transition
// ---------------------------------------------------------------------------

/// The choice among several deterministic transitions: exactly one must have
/// guards that all pass.
#[derive(Debug)]
pub struct Selection {
    pub candidates: Vec<(String, Value)>,
    pub at: usize,
    pub guard: usize,
    pub viable: Vec<usize>,
}

/// A choice as mathematical values: the candidate and the guard that are being
/// judged, and the candidates whose guards all passed.
pub struct SelectionView {
    pub candidates: Seq<(Seq<char>, Json)>,
    pub at: int,
    pub guard: int,
    pub viable: Seq<int>,
}

impl View for Selection {
    type V = SelectionView;

    open spec fn view(&self) -> SelectionView {
        SelectionView {
            candidates: json::entries(self.candidates@),
            at: self.at as int,
            guard: self.guard as int,
            viable: Seq::new(self.viable@.len(), |i: int| self.viable@[i] as int),
        }
    }
}

impl SelectionView {
    /// The guards of the candidate that is being judged.
    pub open spec fn guards(self) -> Seq<Json> {
        self.candidates[self.at].1.items_at("guards"@)
    }

    /// Every candidate was judged.
    pub open spec fn done(self) -> bool {
        self.at >= self.candidates.len()
    }

    /// Moves past the candidates that have no guard left: they are viable.
    pub open spec fn settled(self) -> SelectionView
        decreases self.candidates.len() - self.at,
    {
        if !self.done() && self.guard >= self.guards().len() {
            SelectionView {
                at: self.at + 1,
                guard: 0,
                viable: self.viable.push(self.at),
                ..self
            }.settled()
        } else {
            self
        }
    }

    /// The choice after the current guard was judged: a guard that does not pass
    /// rules the candidate out.
    pub open spec fn after(self, pass: bool) -> SelectionView {
        if pass {
            SelectionView { guard: self.guard + 1, ..self }.settled()
        } else {
            SelectionView { at: self.at + 1, guard: 0, ..self }.settled()
        }
    }

    /// The choice stands at a guard, or at the end.
    pub open spec fn wf(self) -> bool {
        &&& 0 <= self.at <= self.candidates.len()
        &&& 0 <= self.guard
        &&& !self.done() ==> self.guard < self.guards().len()
        &&& forall|i: int|
            0 <= i < self.viable.len() ==> 0 <= #[trigger] self.viable[i] < self.candidates.len()
    }

    /// The selected candidate; what is wrong otherwise.
    pub open spec fn selected(self, state: Seq<char>) -> Result<int, Seq<char>> {
        if self.viable.len() == 1 {
            Ok(self.viable[0])
        } else if self.viable.len() == 0 {
            Err(
                "no viable deterministic transition in state '"@ + state + "': all "@
                    + text::decimal(self.candidates.len()) + " candidates had failing guards"@,
            )
        } else {
            Err(
                "ambiguous deterministic transition in state '"@ + state + "': "@ + text::decimal(
                    self.viable.len(),
                ) + " of "@ + text::decimal(self.candidates.len())
                    + " candidates had passing guards; exactly one must be viable"@,
            )
        }
    }
}

impl Selection {
    fn settle(&mut self)
        requires
            old(self)@.at <= old(self)@.candidates.len(),
            forall|i: int|
                0 <= i < old(self)@.viable.len() ==> 0 <= #[trigger] old(self)@.viable[i] < old(
                    self,
                )@.candidates.len(),
        ensures
            final(self)@ == old(self)@.settled(),
            final(self)@.wf(),
    {
        let ghost goal = self@.settled();
        let ghost cands = self@.candidates;
        loop
            invariant
                self@.settled() == goal,
                self@.candidates == cands,
                self.at <= self.candidates.len(),
                forall|i: int|
                    0 <= i < self@.viable.len() ==> 0 <= #[trigger] self@.viable[i] < cands.len(),
            ensures
                self@ == goal,
                self@.wf(),
            decreases self.candidates.len() - self.at,
        {
            if self.at >= self.candidates.len() {
                break;
            }
            assert(self@.candidates[self@.at] == (
                self.candidates@[self.at as int].0@,
                self.candidates@[self.at as int].1@,
            ));
            let n: usize = match self.candidates[self.at].1.array_at("guards") {
                Some(g) => g.len(),
                None => 0,
            };
            assert(n == self@.guards().len());
            if self.guard < n {
                break;
            }
            let ghost before = self@;
            self.viable.push(self.at);
            self.at = self.at + 1;
            self.guard = 0;
            assert(self@.viable =~= before.viable.push(before.at));
        }
    }

    /// Begins the choice among the candidates.
    pub fn begin(candidates: Vec<(String, Value)>) -> (r: Selection)
        ensures
            r@ == (SelectionView {
                candidates: json::entries(candidates@),
                at: 0,
                guard: 0,
                viable: Seq::empty(),
            }).settled(),
            r@.wf(),
    {
        let mut s = Selection { candidates, at: 0, guard: 0, viable: Vec::new() };
        assert(s@.viable =~= Seq::empty());
        s.settle();
        s
    }

    /// The guard to judge next; `None` when every candidate was judged.
    pub fn current(&self) -> (r: Option<&Value>)
        requires
            self@.wf(),
        ensures
            match r {
                Some(g) => !self@.done() && g@ == self@.guards()[self@.guard],
                None => self@.done(),
            },
    {
        if self.at >= self.candidates.len() {
            return None;
        }
        assert(self@.candidates[self@.at] == (
            self.candidates@[self.at as int].0@,
            self.candidates@[self.at as int].1@,
        ));
        match self.candidates[self.at].1.array_at("guards") {
            Some(g) => Some(&g[self.guard]),
            None => None,
        }
    }

    /// Takes note of whether the current guard passes: the audit event about it.
    pub fn report(&mut self, pass: bool, instance: &WorkflowInstance, correlation_id: &str) -> (r:
        AuditEvent)
        requires
            old(self)@.wf(),
            !old(self)@.done(),
        ensures
            final(self)@ == old(self)@.after(pass),
            final(self)@.wf(),
            r@ == instance@.event(
                "guard.evaluated"@,
                correlation_id@,
                None,
                Json::empty().with("guard"@, old(self)@.guards()[old(self)@.guard]).with(
                    "passed"@,
                    Json::Bool(pass),
                ).with("context"@, Json::String("deterministic_selection"@)),
            ),
            audit::is_event_id(r.id@),
    {
        let guard = match self.current() {
            Some(g) => g.dup(),
            None => Value::Null,
        };
        let payload = Value::object().and("guard", guard).and("passed", Value::Bool(pass)).and(
            "context",
            Value::text("deterministic_selection"),
        );
        let event = instance.event("guard.evaluated", correlation_id, None, payload);
        let ghost before = self@;
        assert(json::entries(self.candidates@).len() == self.candidates@.len());
        if pass {
            assert(self@.candidates[self@.at] == (
                self.candidates@[self.at as int].0@,
                self.candidates@[self.at as int].1@,
            ));
            let n: usize = match self.candidates[self.at].1.array_at("guards") {
                Some(g) => g.len(),
                None => 0,
            };
            assert(self.guard < n);
            self.guard = self.guard + 1;
        } else {
            assert(self.at < self.candidates.len());
            self.at = self.at + 1;
            self.guard = 0;
        }
        proof {
            assert(self@.viable =~= before.viable);
            assert(self@.candidates == before.candidates);
        }
        self.settle();
        event
    }

    /// The selected transition, once every candidate was judged.
    pub fn select_deterministic_transition(&self, state: &str) -> (r: Result<usize, String>)
        requires
            self@.wf(),
        ensures
            match r {
                Ok(i) => self@.selected(state@) == Ok::<int, Seq<char>>(i as int) && i
                    < self.candidates.len(),
                Err(m) => self@.selected(state@) == Err::<int, Seq<char>>(m@),
            },
    {
        let n = text::decimal_of(self.candidates.len() as u64);
        if self.viable.len() == 1 {
            assert(self@.viable[0] == self.viable@[0] as int);
            return Ok(self.viable[0]);
        }
        if self.viable.len() == 0 {
            return Err(
                text::join5(
                    "no viable deterministic transition in state '",
                    state,
                    "': all ",
                    n.as_str(),
                    " candidates had failing guards",
                ),
            );
        }
        let k = text::decimal_of(self.viable.len() as u64);
        Err(
            text::join7(
                "ambiguous deterministic transition in state '",
                state,
                "': ",
                k.as_str(),
                " of ",
                n.as_str(),
                " candidates had passing guards; exactly one must be viable",
            ),
        )
    }
}

// ---------------------------------------------------------------------------
// The chain
// ---------------------------------------------------------------------------

/// A transition that some actor takes and that changes the state: where a state
/// has one, the actor decides.
pub open spec fn needs_decision(t: Json) -> bool {
    !runtime_links::deterministic(t) && t.bool_at("lightweight"@) != Some(true)
}

/// The deterministic transitions among the first `n`.
pub open spec fn deterministic_of(e: Seq<(Seq<char>, Json)>, n: int) -> Seq<(Seq<char>, Json)>
    decreases n,
{
    if n <= 0 {
        Seq::empty()
    } else {
        let before = deterministic_of(e, n - 1);
        if runtime_links::deterministic(e[n - 1].1) {
            before.push(e[n - 1])
        } else {
            before
        }
    }
}

/// The deterministic transitions that the runtime may take from a state: none
/// where an actor decides.
pub open spec fn chain_candidates(definition: Json, state: Seq<char>) -> Seq<(Seq<char>, Json)> {
    match runtime_links::transitions_of(definition, state) {
        Some(e) => if exists|i: int| 0 <= i < e.len() && needs_decision((#[trigger] e[i]).1) {
            Seq::empty()
        } else {
            deterministic_of(e, e.len() as int)
        },
        None => Seq::empty(),
    }
}

/// The deterministic transitions that the runtime may take from a state.
pub fn chain_candidates_of(definition: &Value, state: &str) -> (r: Vec<(String, Value)>)
    ensures
        json::entries(r@) == chain_candidates(definition@, state@),
{
    let mut out: Vec<(String, Value)> = Vec::new();
    assert(json::entries(out@) =~= Seq::empty());
    let ts = match runtime_links::state_transitions(definition, state) {
        Some(t) => t,
        None => {
            return out;
        },
    };
    let ghost e = json::entries(ts@);
    let mut i: usize = 0;
    while i < ts.len()
        invariant
            i <= ts.len(),
            e == json::entries(ts@),
            json::entries(out@) == deterministic_of(e, i as int),
            runtime_links::transitions_of(definition@, state@) == Some(e),
            forall|j: int| 0 <= j < i ==> !needs_decision((#[trigger] e[j]).1),
        decreases ts.len() - i,
    {
        assert(e[i as int] == (ts@[i as int].0@, ts@[i as int].1@));
        if runtime_links::is_deterministic(&ts[i].1) {
            let x = (ts[i].0.clone(), ts[i].1.dup());
            proof {
                json::lemma_entries_push(out@, x);
            }
            out.push(x);
        } else {
            let lightweight = match ts[i].1.bool_at("lightweight") {
                Some(b) => b,
                None => false,
            };
            if !lightweight {
                assert(needs_decision(e[i as int].1));
                let none: Vec<(String, Value)> = Vec::new();
                assert(json::entries(none@) =~= Seq::empty());
                return none;
            }
        }
        i = i + 1;
    }
    out
}

/// Where a chain stands.
#[derive(Debug, Clone, Copy, PartialEq, Eq, Structural)]
pub enum ChainPhase {
    /// A transition is being selected.
    Selecting,
    /// The transition's executor is running.
    Executing,
    /// The executor's output is being written to the context.
    Merging,
    /// The target is being chosen.
    Targeting,
    /// The difference between the contexts is being taken.
    Diffing,
    /// The transition record is being written.
    Recording,
    /// The instance is being committed.
    Saving,
    /// The entry action of the new state is running.
    Entering,
    /// There is nothing more to do.
    Finished,
}

/// A deterministic chain under way.
#[derive(Debug)]
pub struct Chain {
    pub definition: Value,
    pub instance: WorkflowInstance,
    pub principal: Principal,
    pub correlation_id: String,
    pub max_depth: u64,
    pub steps: Vec<ChainStep>,
    pub evidence: Vec<Evidence>,
    pub candidates: Vec<(String, Value)>,
    pub transition_name: String,
    pub transition_def: Value,
    pub from_state: String,
    pub pre_context: Value,
    pub pending_evidence: Vec<Evidence>,
    pub child_workflow_id: Option<String>,
    pub executor_outcome: Option<(bool, u64)>,
    pub phase: ChainPhase,
}

/// A chain as mathematical values.
pub struct ChainView {
    pub definition: Json,
    pub instance: InstanceView,
    pub principal: PrincipalView,
    pub correlation_id: Seq<char>,
    pub max_depth: u64,
    pub steps: Seq<ChainStepView>,
    pub evidence: Seq<EvidenceView>,
    pub candidates: Seq<(Seq<char>, Json)>,
    pub transition_name: Seq<char>,
    pub transition_def: Json,
    pub from_state: Seq<char>,
    pub pre_context: Json,
    pub pending_evidence: Seq<EvidenceView>,
    pub child_workflow_id: Option<Seq<char>>,
    pub executor_outcome: Option<(bool, u64)>,
    pub phase: ChainPhase,
}

impl View for Chain {
    type V = ChainView;

    open spec fn view(&self) -> ChainView {
        ChainView {
            definition: self.definition@,
            instance: self.instance@,
            principal: self.principal@,
            correlation_id: self.correlation_id@,
            max_depth: self.max_depth,
            steps: runtime::step_views(self.steps@),
            evidence: model::evidence_views(self.evidence@),
            candidates: json::entries(self.candidates@),
            transition_name: self.transition_name@,
            transition_def: self.transition_def@,
            from_state: self.from_state@,
            pre_context: self.pre_context@,
            pending_evidence: model::evidence_views(self.pending_evidence@),
            child_workflow_id: text::opt_text(self.child_workflow_id),
            executor_outcome: self.executor_outcome,
            phase: self.phase,
        }
    }
}

/// What happened since the last decision.
#[derive(Debug)]
pub enum ChainEvent {
    /// One of several candidates was selected, or none could be.
    Selected(Result<usize, String>),
    /// The executor succeeded after the given number of milliseconds.
    Executed(ExecuteResult, u64),
    /// The executor failed.
    ExecutorFailed(ExecutorError),
    /// The context with the executor's output in it, and the typed slot that the
    /// output does not fit, with the reason.
    Merged { context: Value, violation: Option<(String, String)> },
    /// The target was chosen.
    Targeted(String),
    /// The difference between the contexts, and the current time.
    Diffed { delta: Value, now: String },
    /// The record was written.
    Recorded,
    /// The instance as the store committed it.
    Saved(WorkflowInstance),
    /// The instance after the entry action, and the number of milliseconds since
    /// the workflow was started.
    Entered { instance: WorkflowInstance, elapsed: i64 },
}

/// What to do next.
#[derive(Debug)]
pub enum ChainAction {
    /// Select one of the chain's candidates by their guards.
    Select,
    /// Run the executor of the chain's transition, without arguments.
    Execute,
    /// Write the executor's output to the context and check its typed slots.
    Merge(Value),
    /// Choose the target of the chain's transition.
    Target,
    /// Take the difference between the context before the transition and the
    /// instance's context.
    Diff,
    /// Write the record; a failure to write it ends the chain, and nothing is
    /// committed.
    Record(AuditEvent),
    /// Commit the instance under the expected version.
    Save { instance: WorkflowInstance, expected_version: u64 },
    /// Keep the chain's evidence, then run the entry action of the new state.
    Enter,
    /// Hand back the outcome.
    Finish(ChainOutcome),
    /// The event does not fit where the chain stands.
    Ignore,
}

impl ChainAction {
    /// The audit event of the action has an id of its own form.
    pub open spec fn named(self) -> bool {
        self matches ChainAction::Record(e) ==> audit::is_event_id(e.id@)
    }
}

/// An action as mathematical values.
pub enum ChainActionView {
    Select,
    Execute,
    Merge(Json),
    Target,
    Diff,
    Record(AuditEventView),
    Save { instance: InstanceView, expected_version: u64 },
    Enter,
    Finish(ChainOutcomeView),
    Ignore,
}

impl View for ChainAction {
    type V = ChainActionView;

    open spec fn view(&self) -> ChainActionView {
        match self {
            ChainAction::Select => ChainActionView::Select,
            ChainAction::Execute => ChainActionView::Execute,
            ChainAction::Merge(v) => ChainActionView::Merge(v@),
            ChainAction::Target => ChainActionView::Target,
            ChainAction::Diff => ChainActionView::Diff,
            ChainAction::Record(e) => ChainActionView::Record(e@),
            ChainAction::Save { instance, expected_version } => ChainActionView::Save {
                instance: instance@,
                expected_version: *expected_version,
            },
            ChainAction::Enter => ChainActionView::Enter,
            ChainAction::Finish(o) => ChainActionView::Finish(o@),
            ChainAction::Ignore => ChainActionView::Ignore,
        }
    }
}

/// A number as a value.
pub open spec fn count(n: nat) -> Json {
    Json::Number(Number::PosInt(n as u64))
}

/// A decision of a chain: the chain after it, the audit events to note, and what
/// to do next. A note that cannot be written does not stop the chain.
pub struct ChainDecision {
    pub chain: ChainView,
    pub notes: Seq<AuditEventView>,
    pub action: ChainActionView,
}

impl ChainView {
    /// What the chain has come to so far.
    pub open spec fn result(self) -> ChainResultView {
        ChainResultView {
            instance: self.instance,
            steps: self.steps,
            evidence: self.evidence,
        }
    }

    /// The chain stops here: a decision point, a terminal state, the depth limit,
    /// or nothing to take.
    pub open spec fn stops(self) -> bool {
        runtime_links::terminal(self.definition, self.instance.state) || self.steps.len()
            >= self.max_depth || chain_candidates(self.definition, self.instance.state).len() == 0
    }

    /// Ends the chain normally; a chain that took steps is noted.
    pub open spec fn completed(self) -> ChainDecision {
        ChainDecision {
            chain: ChainView { phase: ChainPhase::Finished, ..self },
            notes: if self.steps.len() > 0 {
                seq![
                    self.instance.event(
                        "chain.completed"@,
                        self.correlation_id,
                        None,
                        Json::empty().with("steps"@, count(self.steps.len())).with(
                            "finalState"@,
                            Json::String(self.instance.state),
                        ),
                    ),
                ]
            } else {
                Seq::empty()
            },
            action: ChainActionView::Finish(ChainOutcomeView::Completed(self.result())),
        }
    }

    /// Ends the chain with a failure, which is noted.
    pub open spec fn failed(
        self,
        payload: Json,
        error: Seq<char>,
        error_class: Seq<char>,
        failed_transition: Seq<char>,
    ) -> ChainDecision {
        ChainDecision {
            chain: ChainView { phase: ChainPhase::Finished, ..self },
            notes: seq![
                self.instance.event("chain.failed"@, self.correlation_id, None, payload),
            ],
            action: ChainActionView::Finish(
                ChainOutcomeView::Failed {
                    partial: self.result(),
                    error,
                    error_class,
                    failed_transition,
                },
            ),
        }
    }

    /// Decides whether to go on: with one candidate it is taken, among several
    /// one is selected.
    pub open spec fn decided(self) -> ChainDecision {
        let candidates = chain_candidates(self.definition, self.instance.state);
        if self.stops() {
            self.completed()
        } else {
            let s = ChainView { candidates, ..self };
            if candidates.len() == 1 {
                s.taking(candidates[0])
            } else {
                ChainDecision {
                    chain: ChainView { phase: ChainPhase::Selecting, ..s },
                    notes: Seq::empty(),
                    action: ChainActionView::Select,
                }
            }
        }
    }

    /// Takes a transition: its executor runs first, where it has one.
    pub open spec fn taking(self, t: (Seq<char>, Json)) -> ChainDecision {
        let execute = t.1.has("executor"@);
        let s = ChainView {
            transition_name: t.0,
            transition_def: t.1,
            from_state: self.instance.state,
            pre_context: self.instance.context,
            pending_evidence: Seq::empty(),
            child_workflow_id: None,
            executor_outcome: None,
            phase: if execute {
                ChainPhase::Executing
            } else {
                ChainPhase::Targeting
            },
            ..self
        };
        ChainDecision {
            chain: s,
            notes: seq![
                self.instance.event(
                    "chain.step"@,
                    self.correlation_id,
                    None,
                    Json::empty().with("transition"@, Json::String(t.0)).with(
                        "fromState"@,
                        Json::String(self.instance.state),
                    ).with("chainDepth"@, count(self.steps.len())),
                ),
            ],
            action: if execute {
                ChainActionView::Execute
            } else {
                ChainActionView::Target
            },
        }
    }

    /// No transition could be selected.
    pub open spec fn selection_failed(self, error: Seq<char>) -> ChainDecision {
        self.failed(
            Json::empty().with("fromState"@, Json::String(self.instance.state)).with(
                "chainDepth"@,
                count(self.steps.len()),
            ).with("errorClass"@, Json::String("selection_error"@)).with(
                "message"@,
                Json::String(error),
            ),
            error,
            "selection_error"@,
            Seq::empty(),
        )
    }

    /// The executor has failed.
    pub open spec fn executor_failed(self, e: ExecutorErrorView) -> ChainDecision {
        self.failed(
            Json::empty().with("transition"@, Json::String(self.transition_name)).with(
                "fromState"@,
                Json::String(self.from_state),
            ).with("chainDepth"@, count(self.steps.len())).with(
                "errorClass"@,
                Json::String(e.class_of().token_text()),
            ).with("message"@, Json::String(e.message_text())),
            e.message_text(),
            e.class_of().token_text(),
            self.transition_name,
        )
    }

    /// The executor's output is in the context, or does not fit a typed slot.
    pub open spec fn merged(
        self,
        context: Json,
        violation: Option<(Seq<char>, Seq<char>)>,
    ) -> ChainDecision {
        let s = ChainView { instance: InstanceView { context, ..self.instance }, ..self };
        match violation {
            Some((slot, reason)) => {
                let message = "BLACKBOARD_TYPE_ERROR: output write to typed slot '"@ + slot
                    + "': "@ + reason;
                s.failed(
                    Json::empty().with("transition"@, Json::String(self.transition_name)).with(
                        "fromState"@,
                        Json::String(self.from_state),
                    ).with("chainDepth"@, count(self.steps.len())).with(
                        "code"@,
                        Json::String("BLACKBOARD_TYPE_ERROR"@),
                    ).with("message"@, Json::String(message)),
                    message,
                    "blackboard_type_error"@,
                    self.transition_name,
                )
            },
            None => ChainDecision {
                chain: ChainView {
                    evidence: self.evidence + self.pending_evidence,
                    pending_evidence: Seq::empty(),
                    phase: ChainPhase::Targeting,
                    ..s
                },
                notes: Seq::empty(),
                action: ChainActionView::Target,
            },
        }
    }

    /// The record of the chain's current transition.
    pub open spec fn record(self, delta: Json, now: Seq<char>) -> RecordView {
        RecordView {
            instance: self.instance,
            from_state: self.from_state,
            transition_name: self.transition_name,
            transition_def: self.transition_def,
            actor: "deterministic"@,
            principal: None,
            arguments: Json::empty(),
            blackboard_delta: delta,
            guard_results: Seq::empty(),
            child_workflow_id: self.child_workflow_id,
            executor_outcome: self.executor_outcome,
            correlation_id: self.correlation_id,
            timestamp: now,
        }
    }

    /// The instance was committed: the step is complete.
    pub open spec fn saved(self, instance: InstanceView) -> ChainDecision {
        let steps = self.steps.push(
            ChainStepView {
                from_state: self.from_state,
                transition: self.transition_name,
                to_state: self.instance.state,
                version: instance.version,
            },
        );
        ChainDecision {
            chain: ChainView { instance, steps, phase: ChainPhase::Entering, ..self },
            notes: seq![
                instance.event(
                    "workflow.transitioned"@,
                    self.correlation_id,
                    Some(self.principal.subject),
                    Json::empty().with("transition"@, Json::String(self.transition_name)).with(
                        "state"@,
                        Json::String(instance.state),
                    ).with("version"@, Json::Number(Number::PosInt(instance.version))).with(
                        "deterministic"@,
                        Json::Bool(true),
                    ).with("chainDepth"@, count(steps.len())),
                ),
            ],
            action: ChainActionView::Enter,
        }
    }

    /// The entry action has run: a workflow whose time is up stops here.
    pub open spec fn entered(self, instance: InstanceView, elapsed: i64) -> ChainDecision {
        let s = ChainView { instance, ..self };
        let due = match self.definition.u64_at("timeoutMs"@) {
            Some(ms) => elapsed >= 0 && elapsed >= ms,
            None => false,
        };
        if due {
            s.completed()
        } else {
            s.decided()
        }
    }

    /// A decision without notes.
    pub open spec fn quietly(self, action: ChainActionView) -> ChainDecision {
        ChainDecision { chain: self, notes: Seq::empty(), action }
    }

    /// Leaves the state for the target: what lives only in the state goes, and the
    /// version grows by one.
    pub open spec fn leaving(self, target: Seq<char>) -> ChainDecision {
        let (context, names) = left(
            self.definition,
            self.from_state,
            target,
            self.instance.context,
        );
        let cleared = InstanceView { context, ..self.instance };
        ChainDecision {
            chain: ChainView {
                instance: InstanceView {
                    state: target,
                    version: (self.instance.version + 1) as u64,
                    ..cleared
                },
                phase: ChainPhase::Diffing,
                ..self
            },
            notes: if names.len() > 0 {
                seq![
                    cleared_event(
                        cleared,
                        self.from_state,
                        names,
                        self.correlation_id,
                        self.principal,
                    ),
                ]
            } else {
                Seq::empty()
            },
            action: ChainActionView::Diff,
        }
    }

    /// What follows an event.
    pub open spec fn next(self, event: ChainEvent) -> ChainDecision {
        match (self.phase, event) {
            (ChainPhase::Selecting, ChainEvent::Selected(choice)) => match choice {
                Ok(i) => if (i as int) < self.candidates.len() {
                    self.taking(self.candidates[i as int])
                } else {
                    self.quietly(ChainActionView::Ignore)
                },
                Err(m) => self.selection_failed(m@),
            },
            (ChainPhase::Executing, ChainEvent::Executed(result, ms)) => ChainView {
                pending_evidence: model::evidence_views(result.evidence@),
                child_workflow_id: text::opt_text(result.child_workflow_id),
                executor_outcome: Some((true, ms)),
                phase: ChainPhase::Merging,
                ..self
            }.quietly(ChainActionView::Merge(result.output@)),
            (ChainPhase::Executing, ChainEvent::ExecutorFailed(e)) => self.executor_failed(
                e@,
            ),
            (ChainPhase::Merging, ChainEvent::Merged { context, violation }) => self.merged(
                context@,
                match violation {
                    Some(v) => Some((v.0@, v.1@)),
                    None => None,
                },
            ),
            (ChainPhase::Targeting, ChainEvent::Targeted(target)) => self.leaving(target@),
            (ChainPhase::Diffing, ChainEvent::Diffed { delta, now }) => ChainView {
                phase: ChainPhase::Recording,
                ..self
            }.quietly(
                ChainActionView::Record(runtime::transition_record(self.record(delta@, now@))),
            ),
            (ChainPhase::Recording, ChainEvent::Recorded) => ChainView {
                phase: ChainPhase::Saving,
                ..self
            }.quietly(
                ChainActionView::Save {
                    instance: self.instance,
                    expected_version: (self.instance.version - 1) as u64,
                },
            ),
            (ChainPhase::Saving, ChainEvent::Saved(instance)) => self.saved(instance@),
            (ChainPhase::Entering, ChainEvent::Entered { instance, elapsed }) => self.entered(
                instance@,
                elapsed,
            ),
            _ => self.quietly(ChainActionView::Ignore),
        }
    }

    /// Between the choice of the target and the commit, the version is past zero.
    pub open spec fn wf(self) -> bool {
        (self.phase == ChainPhase::Diffing || self.phase == ChainPhase::Recording)
            ==> self.instance.version > 0
    }
}

impl ChainView {
    /// The state that the steps taken so far lead to, from where the chain began.
    pub open spec fn reached_state(self, start: InstanceView) -> Seq<char> {
        if self.steps.len() == 0 {
            start.state
        } else {
            self.steps.last().to_state
        }
    }

    /// The version that the steps taken so far lead to.
    pub open spec fn reached_version(self, start: InstanceView) -> u64 {
        if self.steps.len() == 0 {
            start.version
        } else {
            self.steps.last().version
        }
    }

    /// The steps taken so far form one way through the workflow, no longer than the
    /// depth limit: each begins where the one before it ended, with a greater version,
    /// and the chain stands where the last one ended. A step that is being taken
    /// begins there.
    pub open spec fn connected(self, start: InstanceView) -> bool {
        &&& self.steps.len() <= self.max_depth
        &&& forall|i: int|
            0 <= i < self.steps.len() ==> {
                let before = ChainView { steps: self.steps.take(i), ..self };
                &&& (#[trigger] self.steps[i]).from_state == before.reached_state(start)
                &&& self.steps[i].version > before.reached_version(start)
            }
        &&& match self.phase {
            ChainPhase::Selecting => {
                &&& self.steps.len() < self.max_depth
                &&& self.instance.state == self.reached_state(start)
                &&& self.instance.version >= self.reached_version(start)
            },
            ChainPhase::Executing | ChainPhase::Merging | ChainPhase::Targeting => {
                &&& self.steps.len() < self.max_depth
                &&& self.from_state == self.reached_state(start)
                &&& self.instance.state == self.from_state
                &&& self.instance.version >= self.reached_version(start)
            },
            ChainPhase::Diffing | ChainPhase::Recording | ChainPhase::Saving => {
                &&& self.steps.len() < self.max_depth
                &&& self.from_state == self.reached_state(start)
                &&& self.instance.version > self.reached_version(start)
            },
            ChainPhase::Entering | ChainPhase::Finished => {
                &&& self.instance.state == self.reached_state(start)
                &&& self.instance.version >= self.reached_version(start)
            },
        }
    }

    /// The event is one of a store that hands back what it was given, and of an entry
    /// action that leaves the state alone.
    pub open spec fn faithful(self, event: ChainEvent) -> bool {
        match event {
            ChainEvent::Saved(i) => i@ == self.instance,
            ChainEvent::Entered { instance, elapsed } => {
                &&& instance@.state == self.instance.state
                &&& instance@.version >= self.instance.version
            },
            _ => true,
        }
    }
}

/// A chain at its beginning.
pub open spec fn new_chain(
    definition: Json,
    instance: InstanceView,
    principal: PrincipalView,
    correlation_id: Seq<char>,
    max_depth: u64,
) -> ChainView {
    ChainView {
        definition,
        instance,
        principal,
        correlation_id,
        max_depth,
        steps: Seq::empty(),
        evidence: Seq::empty(),
        candidates: Seq::empty(),
        transition_name: Seq::empty(),
        transition_def: Json::Null,
        from_state: Seq::empty(),
        pre_context: Json::Null,
        pending_evidence: Seq::empty(),
        child_workflow_id: None,
        executor_outcome: None,
        phase: ChainPhase::Finished,
    }
}

fn one_note(e: AuditEvent) -> (r: Vec<AuditEvent>)
    ensures
        audit::event_views(r@) == seq![e@],
        audit::is_event_id(e.id@) ==> audit::all_named(r@),
{
    let mut v: Vec<AuditEvent> = Vec::new();
    v.push(e);
    assert(audit::event_views(v@) =~= seq![e@]);
    v
}

fn no_notes() -> (r: Vec<AuditEvent>)
    ensures
        audit::event_views(r@) == Seq::<AuditEventView>::empty(),
        audit::all_named(r@),
{
    let v: Vec<AuditEvent> = Vec::new();
    assert(audit::event_views(v@) =~= Seq::empty());
    v
}

impl Chain {
    /// Begins a chain from the state of an instance: the chain, the audit events
    /// to note, and what to do first.
    pub fn begin(
        definition: &Value,
        instance: WorkflowInstance,
        principal: &Principal,
        correlation_id: &str,
        max_depth: u64,
    ) -> (r: (Chain, Vec<AuditEvent>, ChainAction))
        ensures
            ({
                let d = new_chain(
                    definition@,
                    instance@,
                    principal@,
                    correlation_id@,
                    max_depth,
                ).decided();
                &&& r.0@ == d.chain
                &&& audit::event_views(r.1@) == d.notes
                &&& r.2@ == d.action
            }),
            audit::all_named(r.1@) && r.2.named(),
            r.0@.wf(),
    {
        let mut chain = Chain {
            definition: definition.dup(),
            instance,
            principal: principal.dup(),
            correlation_id: correlation_id.to_owned(),
            max_depth,
            steps: Vec::new(),
            evidence: Vec::new(),
            candidates: Vec::new(),
            transition_name: String::new(),
            transition_def: Value::Null,
            from_state: String::new(),
            pre_context: Value::Null,
            pending_evidence: Vec::new(),
            child_workflow_id: None,
            executor_outcome: None,
            phase: ChainPhase::Finished,
        };
        proof {
            assert(chain@.steps =~= Seq::empty());
            assert(chain@.evidence =~= Seq::empty());
            assert(chain@.candidates =~= Seq::empty());
            assert(chain@.transition_name =~= Seq::empty());
            assert(chain@.from_state =~= Seq::empty());
            assert(chain@.pending_evidence =~= Seq::empty());
        }
        let (notes, action) = chain.decide();
        (chain, notes, action)
    }

    fn result(&self) -> (r: ChainResult)
        ensures
            r@ == self@.result(),
    {
        ChainResult {
            instance: self.instance.dup(),
            steps: runtime::copy_steps(&self.steps),
            evidence: model::copy_evidence(&self.evidence),
        }
    }

    fn complete(&mut self) -> (r: (Vec<AuditEvent>, ChainAction))
        ensures
            ({
                let d = old(self)@.completed();
                &&& final(self)@ == d.chain
                &&& audit::event_views(r.0@) == d.notes
                &&& r.1@ == d.action
            }),
            audit::all_named(r.0@) && r.1.named(),
    {
        let notes = if self.steps.len() > 0 {
            let payload = Value::object().and("steps", Value::uint(self.steps.len() as u64)).and(
                "finalState",
                Value::text(self.instance.state.as_str()),
            );
            one_note(
                self.instance.event(
                    "chain.completed",
                    self.correlation_id.as_str(),
                    None,
                    payload,
                ),
            )
        } else {
            no_notes()
        };
        let result = self.result();
        self.phase = ChainPhase::Finished;
        (notes, ChainAction::Finish(ChainOutcome::Completed(result)))
    }

    fn fail(&mut self, payload: Value, error: String, error_class: &str, failed_transition: String) -> (r:
        (Vec<AuditEvent>, ChainAction))
        ensures
            ({
                let d = old(self)@.failed(
                    payload@,
                    error@,
                    error_class@,
                    failed_transition@,
                );
                &&& final(self)@ == d.chain
                &&& audit::event_views(r.0@) == d.notes
                &&& r.1@ == d.action
            }),
            audit::all_named(r.0@) && r.1.named(),
    {
        let notes = one_note(
            self.instance.event("chain.failed", self.correlation_id.as_str(), None, payload),
        );
        let partial = self.result();
        self.phase = ChainPhase::Finished;
        (
            notes,
            ChainAction::Finish(
                ChainOutcome::Failed {
                    partial,
                    error,
                    error_class: error_class.to_owned(),
                    failed_transition,
                },
            ),
        )
    }

    fn decide(&mut self) -> (r: (Vec<AuditEvent>, ChainAction))
        ensures
            ({
                let d = old(self)@.decided();
                &&& final(self)@ == d.chain
                &&& audit::event_views(r.0@) == d.notes
                &&& r.1@ == d.action
            }),
            audit::all_named(r.0@) && r.1.named(),
            final(self)@.wf(),
    {
        let candidates = chain_candidates_of(&self.definition, self.instance.state.as_str());
        assert(json::entries(candidates@).len() == candidates@.len());
        if runtime_links::is_terminal(&self.definition, self.instance.state.as_str())
            || self.steps.len() as u64 >= self.max_depth || candidates.len() == 0 {
            return self.complete();
        }
        self.candidates = candidates;
        if self.candidates.len() == 1 {
            return self.take(0);
        }
        self.phase = ChainPhase::Selecting;
        (no_notes(), ChainAction::Select)
    }

    fn take(&mut self, i: usize) -> (r: (Vec<AuditEvent>, ChainAction))
        requires
            i < old(self).candidates.len(),
        ensures
            ({
                let d = old(self)@.taking(old(self)@.candidates[i as int]);
                &&& final(self)@ == d.chain
                &&& audit::event_views(r.0@) == d.notes
                &&& r.1@ == d.action
            }),
            audit::all_named(r.0@) && r.1.named(),
            final(self)@.wf(),
    {
        assert(self@.candidates[i as int] == (
            self.candidates@[i as int].0@,
            self.candidates@[i as int].1@,
        ));
        let name = self.candidates[i].0.clone();
        let def = self.candidates[i].1.dup();
        let payload = Value::object().and("transition", Value::text(name.as_str())).and(
            "fromState",
            Value::text(self.instance.state.as_str()),
        ).and("chainDepth", Value::uint(self.steps.len() as u64));
        let notes = one_note(
            self.instance.event("chain.step", self.correlation_id.as_str(), None, payload),
        );
        let execute = def.has("executor");
        self.transition_name = name;
        self.transition_def = def;
        self.from_state = self.instance.state.clone();
        self.pre_context = self.instance.context.dup();
        self.pending_evidence = Vec::new();
        self.child_workflow_id = None;
        self.executor_outcome = None;
        assert(self@.pending_evidence =~= Seq::empty());
        if execute {
            self.phase = ChainPhase::Executing;
            (notes, ChainAction::Execute)
        } else {
            self.phase = ChainPhase::Targeting;
            (notes, ChainAction::Target)
        }
    }

    fn leave(&mut self, target: String) -> (r: (Vec<AuditEvent>, ChainAction))
        requires
            old(self).instance.version < u64::MAX,
        ensures
            ({
                let d = old(self)@.leaving(target@);
                &&& final(self)@ == d.chain
                &&& audit::event_views(r.0@) == d.notes
                &&& r.1@ == d.action
            }),
            audit::all_named(r.0@) && r.1.named(),
    {
        let mut c = self.instance.context.dup();
        let names = clear_state_local_slots_on_exit(
            &self.definition,
            self.from_state.as_str(),
            target.as_str(),
            &mut c,
        );
        self.instance.context = c;
        let notes = if names.len() > 0 {
            one_note(
                cleared_event_for(
                    &self.instance,
                    self.from_state.as_str(),
                    names,
                    self.correlation_id.as_str(),
                    &self.principal,
                ),
            )
        } else {
            no_notes()
        };
        self.instance.state = target;
        self.instance.version = self.instance.version + 1;
        self.phase = ChainPhase::Diffing;
        (notes, ChainAction::Diff)
    }

    /// Decides what follows an event: the audit events to note, and what to do
    /// next.
    pub fn run_deterministic_chain(&mut self, event: ChainEvent) -> (r: (
        Vec<AuditEvent>,
        ChainAction,
    ))
        requires
            old(self)@.wf(),
            old(self)@.next(event).action is Diff ==> old(self).instance.version < u64::MAX,
        ensures
            ({
                let d = old(self)@.next(event);
                &&& final(self)@ == d.chain
                &&& audit::event_views(r.0@) == d.notes
                &&& r.1@ == d.action
            }),
            audit::all_named(r.0@) && r.1.named(),
            final(self)@.wf(),
    {
        match (self.phase, event) {
            (ChainPhase::Selecting, ChainEvent::Selected(choice)) => match choice {
                Ok(i) => {
                    if i < self.candidates.len() {
                        self.take(i)
                    } else {
                        (no_notes(), ChainAction::Ignore)
                    }
                },
                Err(m) => {
                    let payload = Value::object().and(
                        "fromState",
                        Value::text(self.instance.state.as_str()),
                    ).and("chainDepth", Value::uint(self.steps.len() as u64)).and(
                        "errorClass",
                        Value::text("selection_error"),
                    ).and("message", Value::text(m.as_str()));
                    self.fail(payload, m, "selection_error", String::new())
                },
            },
            (ChainPhase::Executing, ChainEvent::Executed(result, ms)) => {
                self.pending_evidence = result.evidence;
                self.child_workflow_id = result.child_workflow_id;
                self.executor_outcome = Some((true, ms));
                self.phase = ChainPhase::Merging;
                (no_notes(), ChainAction::Merge(result.output))
            },
            (ChainPhase::Executing, ChainEvent::ExecutorFailed(e)) => {
                let m = e.message();
                let class = e.class().token();
                let payload = Value::object().and(
                    "transition",
                    Value::text(self.transition_name.as_str()),
                ).and("fromState", Value::text(self.from_state.as_str())).and(
                    "chainDepth",
                    Value::uint(self.steps.len() as u64),
                ).and("errorClass", Value::text(class)).and("message", Value::text(m.as_str()));
                let name = self.transition_name.clone();
                self.fail(payload, m, class, name)
            },
            (ChainPhase::Merging, ChainEvent::Merged { context, violation }) => {
                self.instance.context = context;
                match violation {
                    Some((slot, reason)) => {
                        let message = text::join4(
                            "BLACKBOARD_TYPE_ERROR: output write to typed slot '",
                            slot.as_str(),
                            "': ",
                            reason.as_str(),
                        );
                        let payload = Value::object().and(
                            "transition",
                            Value::text(self.transition_name.as_str()),
                        ).and("fromState", Value::text(self.from_state.as_str())).and(
                            "chainDepth",
                            Value::uint(self.steps.len() as u64),
                        ).and("code", Value::text("BLACKBOARD_TYPE_ERROR")).and(
                            "message",
                            Value::text(message.as_str()),
                        );
                        let name = self.transition_name.clone();
                        self.fail(payload, message, "blackboard_type_error", name)
                    },
                    None => {
                        let pending = model::copy_evidence(&self.pending_evidence);
                        model::append_evidence(&mut self.evidence, &pending);
                        self.pending_evidence = Vec::new();
                        assert(self@.pending_evidence =~= Seq::empty());
                        self.phase = ChainPhase::Targeting;
                        (no_notes(), ChainAction::Target)
                    },
                }
            },
            (ChainPhase::Targeting, ChainEvent::Targeted(target)) => self.leave(target),
            (ChainPhase::Diffing, ChainEvent::Diffed { delta, now }) => {
                let empty = Value::object();
                let no_guards: Vec<Value> = Vec::new();
                assert(json::views(no_guards@) =~= Seq::empty());
                let child = match &self.child_workflow_id {
                    Some(c) => Some(c.as_str()),
                    None => None,
                };
                let record = runtime::emit_transition_record(
                    &TransitionRecordParams {
                        instance: &self.instance,
                        from_state: self.from_state.as_str(),
                        transition_name: self.transition_name.as_str(),
                        transition_def: &self.transition_def,
                        actor: "deterministic",
                        principal: None,
                        arguments: &empty,
                        blackboard_delta: &delta,
                        guard_results: &no_guards,
                        child_workflow_id: child,
                        executor_outcome: self.executor_outcome,
                        correlation_id: self.correlation_id.as_str(),
                        timestamp: now.as_str(),
                    },
                );
                self.phase = ChainPhase::Recording;
                (no_notes(), ChainAction::Record(record))
            },
            (ChainPhase::Recording, ChainEvent::Recorded) => {
                let instance = self.instance.dup();
                let expected_version: u64 = self.instance.version - 1;
                self.phase = ChainPhase::Saving;
                (no_notes(), ChainAction::Save { instance, expected_version })
            },
            (ChainPhase::Saving, ChainEvent::Saved(instance)) => {
                let step = ChainStep {
                    from_state: self.from_state.clone(),
                    transition: self.transition_name.clone(),
                    to_state: self.instance.state.clone(),
                    version: instance.version,
                };
                let ghost before = self.steps@;
                self.steps.push(step);
                assert(runtime::step_views(self.steps@) =~= runtime::step_views(before).push(
                    step@,
                ));
                let payload = Value::object().and(
                    "transition",
                    Value::text(self.transition_name.as_str()),
                ).and("state", Value::text(instance.state.as_str())).and(
                    "version",
                    Value::uint(instance.version),
                ).and("deterministic", Value::Bool(true)).and(
                    "chainDepth",
                    Value::uint(self.steps.len() as u64),
                );
                let notes = one_note(
                    instance.event(
                        "workflow.transitioned",
                        self.correlation_id.as_str(),
                        Some(self.principal.subject.as_str()),
                        payload,
                    ),
                );
                self.instance = instance;
                self.phase = ChainPhase::Entering;
                (notes, ChainAction::Enter)
            },
            (ChainPhase::Entering, ChainEvent::Entered { instance, elapsed }) => {
                self.instance = instance;
                let due = match self.definition.u64_at("timeoutMs") {
                    Some(ms) => elapsed >= 0 && elapsed as u64 >= ms,
                    None => false,
                };
                if due {
                    self.complete()
                } else {
                    self.decide()
                }
            },
            _ => (no_notes(), ChainAction::Ignore),
        }
    }
}

// ---------------------------------------------------------------------------
// Laws
// ---------------------------------------------------------------------------

/// The record comes first: an instance is handed to the store only right after
/// its transition record was written, with the version after the one that the
/// store is to expect.
pub proof fn law_chain_record_first(c: ChainView, event: ChainEvent)
    requires
        c.wf(),
    ensures
        c.next(event).action matches ChainActionView::Save { instance, expected_version } ==> c.phase
            == ChainPhase::Recording && event is Recorded && instance.version == expected_version
            + 1,
{
}

/// A chain never takes a transition from a terminal state, nor where an actor
/// decides, nor beyond its depth limit; where it stops, it is completed with what
/// it has come to.
pub proof fn law_chain_stops(c: ChainView)
    ensures
        c.stops() ==> c.decided().action == ChainActionView::Finish(
            ChainOutcomeView::Completed(c.result()),
        ),
        runtime_links::terminal(c.definition, c.instance.state) ==> c.stops(),
        c.steps.len() >= c.max_depth ==> c.stops(),
        (runtime_links::transitions_of(c.definition, c.instance.state) matches Some(e) && exists|
            i: int,
        |
            0 <= i < e.len() && needs_decision((#[trigger] e[i]).1)) ==> c.stops(),
{
}

/// A step of a chain is counted only when the store has committed it, and the
/// steps taken before are kept.
pub proof fn law_chain_steps(c: ChainView, event: ChainEvent)
    ensures
        c.next(event).chain.steps.len() == c.steps.len() || (event is Saved && c.next(
            event,
        ).chain.steps.len() == c.steps.len() + 1),
        c.steps.is_prefix_of(c.next(event).chain.steps),
{
}

/// A chain begins where the instance stands, with no step taken.
pub proof fn law_chain_begins_connected(
    definition: Json,
    instance: InstanceView,
    principal: PrincipalView,
    correlation_id: Seq<char>,
    max_depth: u64,
)
    ensures
        new_chain(definition, instance, principal, correlation_id, max_depth).decided().chain
            .connected(instance),
{
}

/// A chain as a whole, over a store that hands back what it was given: it takes at most
/// as many steps as its depth limit, each step begins where the one before it ended,
/// and the versions grow from step to step. What it ends with is where the last step
/// ended, and all the steps.
pub proof fn law_chain_stays_connected(c: ChainView, event: ChainEvent, start: InstanceView)
    requires
        c.connected(start),
        c.faithful(event),
        c.next(event).action is Diff ==> c.instance.version < u64::MAX,
    ensures
        c.next(event).chain.connected(start),
        c.next(event).action matches ChainActionView::Finish(outcome) ==> {
            let d = c.next(event).chain;
            &&& d.phase == ChainPhase::Finished
            &&& match outcome {
                ChainOutcomeView::Completed(r) => r == d.result(),
                ChainOutcomeView::Failed { partial, .. } => partial == d.result(),
            }
        },
{
    let d = c.next(event).chain;
    if event is Saved && c.phase == ChainPhase::Saving {
        let n = c.steps.len() as int;
        assert forall|i: int| 0 <= i < d.steps.len() implies {
            let before = ChainView { steps: d.steps.take(i), ..d };
            &&& (#[trigger] d.steps[i]).from_state == before.reached_state(start)
            &&& d.steps[i].version > before.reached_version(start)
        } by {
            if i < n {
                assert(c.steps[i] == d.steps[i]);
                assert(d.steps.take(i) =~= c.steps.take(i));
            } else {
                assert(d.steps.take(i) =~= c.steps);
            }
        }
    } else {
        assert(d.steps == c.steps);
        assert forall|i: int| 0 <= i < d.steps.len() implies {
            let before = ChainView { steps: d.steps.take(i), ..d };
            &&& (#[trigger] d.steps[i]).from_state == before.reached_state(start)
            &&& d.steps[i].version > before.reached_version(start)
        } by {
            assert(c.steps[i] == d.steps[i]);
        }
    }
}

/// A loop never makes more rounds than its cap, and leaves as soon as its guard
/// does not hold.
pub proof fn law_loop_capped(context: Json, state: Seq<char>, max: u32, truthy: bool)
    ensures
        loop_step(context, state, max, truthy) matches LoopView::Again(n) ==> truthy && n <= max,
        !truthy ==> loop_step(context, state, max, truthy) is Leave,
{
}

/// A chain that leaves a state clears what lives only in the state, as a submit does.
pub proof fn law_chain_clears_slots(c: ChainView, target: String)
    requires
        c.phase == ChainPhase::Targeting,
    ensures
        c.next(ChainEvent::Targeted(target)).chain.instance.context == left(
            c.definition,
            c.from_state,
            target@,
            c.instance.context,
        ).0,
{
}

/// Re-entering a state keeps its context as it is.
pub proof fn law_reentry_keeps_slots(definition: Json, state: Seq<char>, context: Json)
    ensures
        left(definition, state, state, context).0 == context,
{
}

} // verus!
