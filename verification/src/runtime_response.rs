//! Response bodies, rejections, and the run through a transition's guards.
use crate::audit;
use crate::audit::{AuditEvent, AuditEventView};
use crate::error::{ExecutorError, ExecutorErrorView};
use crate::json;
use crate::json::{Json, Number, Value};
use crate::model::{InstanceView, Principal, PrincipalView, WorkflowInstance};
use crate::reliability;
use crate::runtime_links;
use crate::text;
use vstd::prelude::*;

verus! {

/// The outcome of a transition's guards: whether they pass, what each evaluated
/// guard said, and the code of a rejection that has a cause of its own.
#[derive(Debug)]
pub struct GuardsOutcome {
    pub pass: bool,
    pub evaluated: Vec<Value>,
    pub diagnostic: Option<String>,
}

/// An outcome as mathematical values.
pub struct GuardsOutcomeView {
    pub pass: bool,
    pub evaluated: Seq<Json>,
    pub diagnostic: Option<Seq<char>>,
}

impl View for GuardsOutcome {
    type V = GuardsOutcomeView;

    open spec fn view(&self) -> GuardsOutcomeView {
        GuardsOutcomeView {
            pass: self.pass,
            evaluated: json::views(self.evaluated@),
            diagnostic: text::opt_text(self.diagnostic),
        }
    }
}

/// A run through the guards of a transition, in the order in which they are
/// declared.
#[derive(Debug)]
pub struct GuardRun {
    pub guards: Vec<Value>,
    pub evaluated: Vec<Value>,
}

/// A run as mathematical values.
pub struct GuardRunView {
    pub guards: Seq<Json>,
    pub evaluated: Seq<Json>,
}

impl View for GuardRun {
    type V = GuardRunView;

    open spec fn view(&self) -> GuardRunView {
        GuardRunView {
            guards: json::views(self.guards@),
            evaluated: json::views(self.evaluated@),
        }
    }
}

/// What is kept of an evaluated guard.
pub open spec fn guard_record(guard: Json, pass: bool) -> Json {
    Json::empty().with(
        "kind"@,
        Json::String(runtime_links::str_else(guard, "kind"@, Seq::empty())),
    ).with("result"@, Json::Bool(pass))
}

/// What the audit event about an evaluated guard says.
pub open spec fn guard_payload(index: int, guard: Json, pass: bool) -> Json {
    Json::empty().with("guardIndex"@, Json::Number(Number::PosInt(index as u64))).with(
        "guard"@,
        guard,
    ).with("passed"@, Json::Bool(pass))
}

impl GuardRunView {
    /// Every guard was evaluated.
    pub open spec fn done(self) -> bool {
        self.evaluated.len() >= self.guards.len()
    }

    /// The run after the current guard was evaluated.
    pub open spec fn after(self, pass: bool) -> GuardRunView {
        GuardRunView {
            evaluated: self.evaluated.push(
                guard_record(self.guards[self.evaluated.len() as int], pass),
            ),
            ..self
        }
    }

    /// The outcome, once it is settled: at the first guard that does not pass, or
    /// when every guard has passed.
    pub open spec fn outcome(self, pass: bool, diagnostic: Option<Seq<char>>) -> Option<
        GuardsOutcomeView,
    > {
        let evaluated = self.after(pass).evaluated;
        if !pass {
            Some(GuardsOutcomeView { pass: false, evaluated, diagnostic })
        } else if self.after(pass).done() {
            Some(GuardsOutcomeView { pass: true, evaluated, diagnostic: None })
        } else {
            None
        }
    }
}

/// An empty text.
pub fn no_text() -> (r: &'static str)
    ensures
        r@ == Seq::<char>::empty(),
{
    proof {
        reveal_strlit("");
    }
    assert(""@ =~= Seq::empty());
    ""
}

impl GuardRun {
    /// Begins a run through the guards of a transition.
    pub fn begin(transition: &Value) -> (r: GuardRun)
        ensures
            r@.guards == transition@.items_at("guards"@),
            r@.evaluated == Seq::<Json>::empty(),
    {
        let guards = match transition.array_at("guards") {
            Some(v) => reliability::copy_values(v),
            None => Vec::new(),
        };
        let r = GuardRun { guards, evaluated: Vec::new() };
        assert(r@.evaluated =~= Seq::empty());
        assert(r@.guards =~= transition@.items_at("guards"@));
        r
    }

    /// The guard to evaluate next; none when every guard has passed.
    pub fn current(&self) -> (r: Option<&Value>)
        ensures
            match r {
                Some(g) => !self@.done() && g@ == self@.guards[self@.evaluated.len() as int],
                None => self@.done(),
            },
    {
        if self.evaluated.len() < self.guards.len() {
            Some(&self.guards[self.evaluated.len()])
        } else {
            None
        }
    }

    /// Takes note of what the current guard said: the audit event about it, and
    /// the outcome once it is settled.
    pub fn guards_pass(
        &mut self,
        instance: &WorkflowInstance,
        correlation_id: &str,
        pass: bool,
        diagnostic: Option<&str>,
    ) -> (r: (AuditEvent, Option<GuardsOutcome>))
        requires
            !old(self)@.done(),
        ensures
            final(self)@ == old(self)@.after(pass),
            r.0@ == instance@.event(
                "guard.evaluated"@,
                correlation_id@,
                None,
                guard_payload(
                    old(self)@.evaluated.len() as int,
                    old(self)@.guards[old(self)@.evaluated.len() as int],
                    pass,
                ),
            ),
            audit::is_event_id(r.0.id@),
            match r.1 {
                Some(o) => old(self)@.outcome(pass, text::opt_str(diagnostic)) == Some(o@),
                None => old(self)@.outcome(pass, text::opt_str(diagnostic)) is None,
            },
    {
        let index: usize = self.evaluated.len();
        let guard = self.guards[index].dup();
        let kind = runtime_links::str_or_default(&guard, "kind", no_text());
        let record = Value::object().and("kind", Value::text(kind)).and(
            "result",
            Value::Bool(pass),
        );
        let payload = Value::object().and("guardIndex", Value::uint(index as u64)).and(
            "guard",
            guard.dup(),
        ).and("passed", Value::Bool(pass));
        let event = instance.event("guard.evaluated", correlation_id, None, payload);
        proof {
            json::lemma_views_push(self.evaluated@, record);
        }
        self.evaluated.push(record);
        let outcome: Option<GuardsOutcome> = if !pass {
            Some(
                GuardsOutcome {
                    pass: false,
                    evaluated: reliability::copy_values(&self.evaluated),
                    diagnostic: text::opt_owned(diagnostic),
                },
            )
        } else if self.evaluated.len() >= self.guards.len() {
            Some(
                GuardsOutcome {
                    pass: true,
                    evaluated: reliability::copy_values(&self.evaluated),
                    diagnostic: None,
                },
            )
        } else {
            None
        };
        (event, outcome)
    }
}

/// The status of a response: a terminal state is completed, whatever led there.
pub open spec fn final_status(definition: Json, state: Seq<char>, status: Seq<char>) -> Seq<char> {
    if runtime_links::terminal(definition, state) {
        "completed"@
    } else {
        status
    }
}

/// What a response says of the workflow itself.
pub open spec fn workflow_part(instance: InstanceView) -> Json {
    Json::empty().with("id"@, Json::String(instance.id)).with(
        "definitionId"@,
        Json::String(instance.definition_id),
    ).with("definitionVersion"@, Json::String(instance.definition_version)).with(
        "state"@,
        Json::String(instance.state),
    ).with("version"@, Json::Number(Number::PosInt(instance.version)))
}

/// The body of a response before anything optional.
pub open spec fn body_base(
    definition: Json,
    instance: InstanceView,
    status: Seq<char>,
    links: Seq<Json>,
) -> Json {
    Json::empty().with("workflow"@, workflow_part(instance)).with(
        "result"@,
        Json::empty().with(
            "status"@,
            Json::String(final_status(definition, instance.state, status)),
        ),
    ).with("context"@, instance.context).with("links"@, Json::Array(links)).with(
        "evidence"@,
        Json::Array(Seq::empty()),
    )
}

/// A body with a key bound, where there is a value for it.
pub open spec fn with_opt(body: Json, key: Seq<char>, v: Option<Json>) -> Json {
    match v {
        Some(x) => body.with(key, x),
        None => body,
    }
}

/// A non-empty text, as a value.
pub open spec fn non_empty_text(v: Option<Seq<char>>) -> Option<Json> {
    match v {
        Some(s) => if s.len() > 0 {
            Some(Json::String(s))
        } else {
            None
        },
        None => None,
    }
}

/// A text, as a value.
pub open spec fn some_text(v: Option<Seq<char>>) -> Option<Json> {
    match v {
        Some(s) => Some(Json::String(s)),
        None => None,
    }
}

/// What guides the caller: the rendered goal and instructions of the state, and
/// the skills that the workflow and the state refer to.
pub open spec fn guidance_part(
    goal: Option<Seq<char>>,
    instructions: Option<Seq<char>>,
    refs: Seq<Json>,
) -> Json {
    with_opt(
        with_opt(
            with_opt(Json::empty(), "goal"@, some_text(goal)),
            "instructions"@,
            some_text(instructions),
        ),
        "refs"@,
        if refs.len() > 0 {
            Some(Json::Array(refs))
        } else {
            None
        },
    )
}

/// The body of a response. `goal` and `instructions` are the state's texts after
/// rendering.
pub open spec fn body_of(
    definition: Json,
    instance: InstanceView,
    status: Seq<char>,
    error: Option<Json>,
    links: Seq<Json>,
    goal: Option<Seq<char>>,
    instructions: Option<Seq<char>>,
) -> Json {
    let state_def = runtime_links::state_of(definition, instance.state);
    let base = with_opt(
        with_opt(
            with_opt(
                body_base(definition, instance, status, links),
                "summary"@,
                some_text(instance.context.str_at("summary"@)),
            ),
            "error"@,
            error,
        ),
        "delegate"@,
        match state_def {
            Some(s) => non_empty_text(s.str_at("delegate"@)),
            None => None,
        },
    );
    let refs = runtime_links::guidance_refs(definition, state_def);
    let guidance = guidance_part(goal, instructions, refs);
    if goal is Some || instructions is Some || refs.len() > 0 {
        base.with("guidance"@, guidance)
    } else {
        base
    }
}

/// The templates of the active state's goal and instructions, which the caller
/// renders.
pub fn guidance_templates<'a>(definition: &'a Value, instance: &WorkflowInstance) -> (r: (
    Option<&'a str>,
    Option<&'a str>,
))
    ensures
        text::opt_str(r.0) == match runtime_links::state_of(definition@, instance@.state) {
            Some(s) => s.str_at("goal"@),
            None => None,
        },
        text::opt_str(r.1) == match runtime_links::state_of(definition@, instance@.state) {
            Some(s) => s.str_at("guidance"@),
            None => None,
        },
{
    match runtime_links::state_definition(definition, instance.state.as_str()) {
        Some(s) => (s.str_at("goal"), s.str_at("guidance")),
        None => (None, None),
    }
}

/// The body of a response.
pub fn response(
    definition: &Value,
    instance: &WorkflowInstance,
    status: &str,
    error: Option<Value>,
    links: Vec<Value>,
    goal: Option<&str>,
    instructions: Option<&str>,
) -> (r: Value)
    ensures
        r@ == body_of(
            definition@,
            instance@,
            status@,
            json::opt_owned_view(error),
            json::views(links@),
            text::opt_str(goal),
            text::opt_str(instructions),
        ),
{
    let shown = if runtime_links::is_terminal(definition, instance.state.as_str()) {
        "completed"
    } else {
        status
    };
    let workflow = Value::object().and("id", Value::text(instance.id.as_str())).and(
        "definitionId",
        Value::text(instance.definition_id.as_str()),
    ).and("definitionVersion", Value::text(instance.definition_version.as_str())).and(
        "state",
        Value::text(instance.state.as_str()),
    ).and("version", Value::uint(instance.version));
    let no_evidence: Vec<Value> = Vec::new();
    assert(json::views(no_evidence@) =~= Seq::empty());
    let mut body = Value::object().and("workflow", workflow).and(
        "result",
        Value::object().and("status", Value::text(shown)),
    ).and("context", instance.context.dup()).and("links", Value::Array(links)).and(
        "evidence",
        Value::Array(no_evidence),
    );
    if let Some(s) = instance.context.str_at("summary") {
        body.set("summary", Value::text(s));
    }
    if let Some(e) = error {
        body.set("error", e);
    }
    let state_def = runtime_links::state_definition(definition, instance.state.as_str());
    if let Some(s) = state_def {
        if let Some(d) = s.str_at("delegate") {
            if !text::str_eq(d, no_text()) {
                assert(d@.len() > 0) by {
                    if d@.len() == 0 {
                        assert(d@ =~= Seq::empty());
                    }
                }
                body.set("delegate", Value::text(d));
            }
        }
    }
    let mut guidance = Value::object();
    if let Some(g) = goal {
        guidance.set("goal", Value::text(g));
    }
    if let Some(g) = instructions {
        guidance.set("instructions", Value::text(g));
    }
    let refs = runtime_links::collect_guidance_refs(definition, state_def);
    let some_refs = refs.len() > 0;
    if some_refs {
        guidance.set("refs", Value::Array(refs));
    }
    if goal.is_some() || instructions.is_some() || some_refs {
        body.set("guidance", guidance);
    }
    body
}

/// Whether a link is kept when links are filtered by guards: its transition is
/// one of the state, and every guard of that transition passes.
pub open spec fn keeps_link(definition: Json, state: Seq<char>, link: Json, passes: bool) -> bool {
    match link.str_at("rel"@) {
        Some(rel) => runtime_links::transition_of(definition, state, rel) is Some && passes,
        None => false,
    }
}

/// The guards that decide on a link; `None` when the link has no transition.
pub fn link_guards(definition: &Value, state: &str, link: &Value) -> (r: Option<Vec<Value>>)
    ensures
        match (r, link@.str_at("rel"@)) {
            (Some(v), Some(rel)) => runtime_links::transition_of(
                definition@,
                state@,
                rel,
            ) matches Some(t) && json::views(v@) == t.items_at("guards"@),
            (None, Some(rel)) => runtime_links::transition_of(definition@, state@, rel) is None,
            (r, None) => r is None,
        },
{
    match link.str_at("rel") {
        Some(rel) => match runtime_links::transition_definition(definition, state, rel) {
            Some(t) => {
                let run = GuardRun::begin(t);
                Some(run.guards)
            },
            None => None,
        },
        None => None,
    }
}

/// The first `n` links without those that are filtered out.
pub open spec fn kept_links(
    definition: Json,
    state: Seq<char>,
    links: Seq<Json>,
    passes: Seq<bool>,
    n: int,
) -> Seq<Json>
    decreases n,
{
    if n <= 0 {
        Seq::empty()
    } else {
        let before = kept_links(definition, state, links, passes, n - 1);
        if keeps_link(definition, state, links[n - 1], passes[n - 1]) {
            before.push(links[n - 1])
        } else {
            before
        }
    }
}

/// Filters links by their guards; `passes` says of each link whether every guard
/// of its transition passes.
pub fn filter_links_by_guards(
    definition: &Value,
    state: &str,
    links: &Vec<Value>,
    passes: &Vec<bool>,
) -> (r: Vec<Value>)
    requires
        links.len() == passes.len(),
    ensures
        json::views(r@) == kept_links(
            definition@,
            state@,
            json::views(links@),
            passes@,
            links@.len() as int,
        ),
{
    let mut out: Vec<Value> = Vec::new();
    assert(json::views(out@) =~= Seq::empty());
    let mut i: usize = 0;
    while i < links.len()
        invariant
            i <= links.len(),
            links.len() == passes.len(),
            json::views(out@) == kept_links(
                definition@,
                state@,
                json::views(links@),
                passes@,
                i as int,
            ),
        decreases links.len() - i,
    {
        let keep = match links[i].str_at("rel") {
            Some(rel) => runtime_links::transition_definition(definition, state, rel).is_some()
                && passes[i],
            None => false,
        };
        if keep {
            let l = links[i].dup();
            proof {
                json::lemma_views_push(out@, l);
            }
            out.push(l);
        }
        i = i + 1;
    }
    out
}

/// The error of a rejected transition.
pub open spec fn rejection(code: Seq<char>, message: Seq<char>, transition: Seq<char>) -> Json {
    Json::empty().with("code"@, Json::String(code)).with("message"@, Json::String(message)).with(
        "attemptedTransition"@,
        Json::String(transition),
    )
}

/// The error of a rejected transition.
pub fn invalid_response(code: &str, message: &str, attempted_transition: &str) -> (r: Value)
    ensures
        r@ == rejection(code@, message@, attempted_transition@),
{
    Value::object().and("code", Value::text(code)).and("message", Value::text(message)).and(
        "attemptedTransition",
        Value::text(attempted_transition),
    )
}

/// The audit event about a rejected transition.
pub open spec fn rejected_event(
    instance: InstanceView,
    code: Seq<char>,
    message: Seq<char>,
    transition: Seq<char>,
    correlation_id: Seq<char>,
    principal: PrincipalView,
) -> AuditEventView {
    instance.event(
        "transition.rejected"@,
        correlation_id,
        Some(principal.subject),
        Json::empty().with("transition"@, Json::String(transition)).with(
            "code"@,
            Json::String(code),
        ).with("message"@, Json::String(message)).with("fromState"@, Json::String(instance.state)),
    )
}

/// The audit event about a rejected transition.
pub fn record_rejected(
    instance: &WorkflowInstance,
    code: &str,
    message: &str,
    attempted_transition: &str,
    correlation_id: &str,
    principal: &Principal,
) -> (r: AuditEvent)
    ensures
        r@ == rejected_event(
            instance@,
            code@,
            message@,
            attempted_transition@,
            correlation_id@,
            principal@,
        ),
        audit::is_event_id(r.id@),
{
    let payload = Value::object().and("transition", Value::text(attempted_transition)).and(
        "code",
        Value::text(code),
    ).and("message", Value::text(message)).and("fromState", Value::text(instance.state.as_str()));
    instance.event(
        "transition.rejected",
        correlation_id,
        Some(principal.subject.as_str()),
        payload,
    )
}

/// The error of a transition whose executor failed.
pub open spec fn executor_failure(e: ExecutorErrorView, transition: Seq<char>) -> Json {
    Json::empty().with("code"@, Json::String("EXECUTOR_FAILED"@)).with(
        "message"@,
        Json::String(e.message_text()),
    ).with("errorClass"@, Json::String(e.class_of().token_text())).with(
        "attemptedTransition"@,
        Json::String(transition),
    )
}

/// The error of a transition whose executor failed.
pub fn failed_response(err: &ExecutorError, attempted_transition: &str) -> (r: Value)
    ensures
        r@ == executor_failure(err@, attempted_transition@),
{
    let m = err.message();
    Value::object().and("code", Value::text("EXECUTOR_FAILED")).and(
        "message",
        Value::String(m),
    ).and("errorClass", Value::text(err.class().token())).and(
        "attemptedTransition",
        Value::text(attempted_transition),
    )
}

/// The audit event about a transition whose executor failed.
pub open spec fn executor_failed_event(
    instance: InstanceView,
    e: ExecutorErrorView,
    transition: Seq<char>,
    correlation_id: Seq<char>,
    principal: PrincipalView,
) -> AuditEventView {
    instance.event(
        "transition.rejected"@,
        correlation_id,
        Some(principal.subject),
        Json::empty().with("transition"@, Json::String(transition)).with(
            "code"@,
            Json::String("EXECUTOR_FAILED"@),
        ).with("errorClass"@, Json::String(e.class_of().token_text())).with(
            "message"@,
            Json::String(e.message_text()),
        ),
    )
}

/// The audit event about a transition whose executor failed.
pub fn record_executor_failed(
    instance: &WorkflowInstance,
    err: &ExecutorError,
    transition: &str,
    correlation_id: &str,
    principal: &Principal,
) -> (r: AuditEvent)
    ensures
        r@ == executor_failed_event(
            instance@,
            err@,
            transition@,
            correlation_id@,
            principal@,
        ),
        audit::is_event_id(r.id@),
{
    let m = err.message();
    let payload = Value::object().and("transition", Value::text(transition)).and(
        "code",
        Value::text("EXECUTOR_FAILED"),
    ).and("errorClass", Value::text(err.class().token())).and("message", Value::String(m));
    instance.event(
        "transition.rejected",
        correlation_id,
        Some(principal.subject.as_str()),
        payload,
    )
}

/// A guard run is settled by the first guard that does not pass, and passes only
/// when every guard has passed.
pub proof fn law_guards_all_pass(run: GuardRunView, pass: bool, diagnostic: Option<Seq<char>>)
    requires
        !run.done(),
    ensures
        !pass ==> (run.outcome(pass, diagnostic) matches Some(o) && !o.pass && o.diagnostic
            == diagnostic),
        run.outcome(pass, diagnostic) matches Some(o) ==> (o.pass ==> o.evaluated.len()
            == run.guards.len()),
        run.outcome(pass, diagnostic) is None ==> pass && !run.after(pass).done(),
{
}

} // verus!
