//! The links of a response: which transitions a caller may take from here, and
//! which guidance goes with them.
use crate::json;
use crate::json::{Json, Number, Value};
use crate::mapping;
use crate::mapping::{Resolved, ResolvedView};
use crate::model::{InstanceView, WorkflowInstance};
use crate::text;
use vstd::prelude::*;

verus! {

/// `s` written as a token of a JSON pointer.
pub open spec fn escaped(s: Seq<char>) -> Seq<char> {
    text::replaced_char(text::replaced_char(s, '~', "~0"@), '/', "~1"@)
}

/// `value` written as a token of a JSON pointer.
pub fn pointer_escape(value: &str) -> (r: String)
    ensures
        r@ == escaped(value@),
{
    let a = text::replace_char(value, '~', "~0");
    text::replace_char(a.as_str(), '/', "~1")
}

/// The declaration of a state.
pub open spec fn state_of(definition: Json, state: Seq<char>) -> Option<Json> {
    match definition.get("states"@) {
        Some(states) => states.step(state),
        None => None,
    }
}

/// The declaration of a state.
pub fn state_definition<'a>(definition: &'a Value, state: &str) -> (r: Option<&'a Value>)
    ensures
        json::opt_view(r) == state_of(definition@, state@),
{
    match definition.get("states") {
        Some(states) => states.step(state),
        None => None,
    }
}

/// What a state declares under a key.
pub open spec fn state_field(definition: Json, state: Seq<char>, key: Seq<char>) -> Option<Json> {
    match state_of(definition, state) {
        Some(s) => s.get(key),
        None => None,
    }
}

/// What a state declares under a key.
pub fn state_declares<'a>(definition: &'a Value, state: &str, key: &str) -> (r: Option<&'a Value>)
    ensures
        json::opt_view(r) == state_field(definition@, state@, key@),
{
    match state_definition(definition, state) {
        Some(s) => s.get(key),
        None => None,
    }
}

/// A state is terminal when it says so.
pub open spec fn terminal(definition: Json, state: Seq<char>) -> bool {
    match state_field(definition, state, "terminal"@) {
        Some(Json::Bool(b)) => b,
        _ => false,
    }
}

/// Whether a state is terminal.
pub fn is_terminal(definition: &Value, state: &str) -> (r: bool)
    ensures
        r == terminal(definition@, state@),
{
    match state_declares(definition, state, "terminal") {
        Some(Value::Bool(b)) => *b,
        _ => false,
    }
}

/// Whether links are filtered by guards in a state: what the state says, or
/// else what the workflow says.
pub open spec fn filters_by_guards(definition: Json, state: Seq<char>) -> bool {
    match state_field(definition, state, "linkFilter"@) {
        Some(Json::String(s)) => s == "byGuards"@,
        _ => definition.str_at("linkFilter"@) == Some("byGuards"@),
    }
}

/// Whether links are filtered by guards in a state.
pub fn link_filter_byguards(definition: &Value, state: &str) -> (r: bool)
    ensures
        r == filters_by_guards(definition@, state@),
{
    match state_declares(definition, state, "linkFilter") {
        Some(Value::String(s)) => text::str_eq(s.as_str(), "byGuards"),
        _ => text::opt_is(definition.str_at("linkFilter"), "byGuards"),
    }
}

/// The declaration of a transition of a state.
pub open spec fn transition_of(
    definition: Json,
    state: Seq<char>,
    transition: Seq<char>,
) -> Option<Json> {
    match state_field(definition, state, "transitions"@) {
        Some(t) => t.step(transition),
        None => None,
    }
}

/// The declaration of a transition of a state.
pub fn transition_definition<'a>(
    definition: &'a Value,
    state: &str,
    transition: &str,
) -> (r: Option<&'a Value>)
    ensures
        json::opt_view(r) == transition_of(definition@, state@, transition@),
{
    match state_declares(definition, state, "transitions") {
        Some(t) => t.step(transition),
        None => None,
    }
}

/// The transitions of a state, by name.
pub open spec fn transitions_of(definition: Json, state: Seq<char>) -> Option<
    Seq<(Seq<char>, Json)>,
> {
    match state_field(definition, state, "transitions"@) {
        Some(t) => t.as_object(),
        None => None,
    }
}

/// The transitions of a state, by name.
pub fn state_transitions<'a>(definition: &'a Value, state: &str) -> (r: Option<
    &'a Vec<(String, Value)>,
>)
    ensures
        match r {
            Some(v) => transitions_of(definition@, state@) == Some(json::entries(v@)),
            None => transitions_of(definition@, state@) is None,
        },
{
    match state_declares(definition, state, "transitions") {
        Some(t) => t.as_object(),
        None => None,
    }
}

/// A transition that the runtime takes by itself.
pub open spec fn deterministic(transition: Json) -> bool {
    transition.str_at("actor"@) == Some("deterministic"@)
}

/// Whether the runtime takes a transition by itself.
pub fn is_deterministic(transition: &Value) -> (r: bool)
    ensures
        r == deterministic(transition@),
{
    text::opt_is(transition.str_at("actor"), "deterministic")
}

/// The schema of an object without properties.
pub open spec fn empty_schema() -> Json {
    Json::empty().with("type"@, Json::String("object"@)).with("properties"@, Json::empty()).with(
        "additionalProperties"@,
        Json::Bool(false),
    )
}

/// The schema of an object without properties.
pub fn empty_object_schema() -> (r: Value)
    ensures
        r@ == empty_schema(),
{
    Value::object().and("type", Value::text("object")).and("properties", Value::object()).and(
        "additionalProperties",
        Value::Bool(false),
    )
}

/// The verb that the library of a workflow snapshot gives to a skill.
pub open spec fn skill_verb(definition: Json, subject: Seq<char>) -> Option<Seq<char>> {
    match definition.get("_skillsLibrary"@) {
        Some(library) => match library.get(subject) {
            Some(entry) => entry.str_at("verb"@),
            None => None,
        },
        None => None,
    }
}

fn skill_verb_of<'a>(definition: &'a Value, subject: &str) -> (r: Option<&'a str>)
    ensures
        text::opt_str(r) == skill_verb(definition@, subject@),
{
    match definition.get("_skillsLibrary") {
        Some(library) => match library.get(subject) {
            Some(entry) => entry.str_at("verb"),
            None => None,
        },
        None => None,
    }
}

/// A reference to a skill.
pub open spec fn skill_ref(verb: Seq<char>, subject: Seq<char>) -> Json {
    Json::empty().with("verb"@, Json::String(verb)).with("subject"@, Json::String(subject))
}

/// The subjects seen and the references gathered after the first `n` entries of
/// a scope: each subject once, in order, and only where the library knows it.
pub open spec fn refs_after(
    items: Seq<Json>,
    n: int,
    definition: Json,
    start: (Seq<Seq<char>>, Seq<Json>),
) -> (Seq<Seq<char>>, Seq<Json>)
    decreases n,
{
    if n <= 0 {
        start
    } else {
        let (seen, out) = refs_after(items, n - 1, definition, start);
        match items[n - 1].as_str() {
            Some(subject) => if seen.contains(subject) {
                (seen, out)
            } else {
                (
                    seen.push(subject),
                    match skill_verb(definition, subject) {
                        Some(verb) => out.push(skill_ref(verb, subject)),
                        None => out,
                    },
                )
            },
            None => (seen, out),
        }
    }
}

/// The same after a whole scope, which may be absent.
pub open spec fn refs_in(
    scope: Option<Json>,
    definition: Json,
    start: (Seq<Seq<char>>, Seq<Json>),
) -> (Seq<Seq<char>>, Seq<Json>) {
    match scope {
        Some(Json::Array(items)) => refs_after(items, items.len() as int, definition, start),
        _ => start,
    }
}

/// Appends the references of one scope.
pub fn push_resolved_refs(
    scope: Option<&Value>,
    definition: &Value,
    seen: &mut Vec<String>,
    out: &mut Vec<Value>,
)
    ensures
        (text::texts(final(seen)@), json::views(final(out)@)) == refs_in(
            json::opt_view(scope),
            definition@,
            (text::texts(old(seen)@), json::views(old(out)@)),
        ),
{
    let items = match scope {
        Some(Value::Array(items)) => items,
        _ => {
            return;
        },
    };
    let ghost start = (text::texts(seen@), json::views(out@));
    let ghost js = json::views(items@);
    let mut i: usize = 0;
    while i < items.len()
        invariant
            i <= items.len(),
            js == json::views(items@),
            (text::texts(seen@), json::views(out@)) == refs_after(
                js,
                i as int,
                definition@,
                start,
            ),
        decreases items.len() - i,
    {
        assert(js[i as int] == items@[i as int]@);
        if let Some(subject) = items[i].as_str() {
            if !text::has_text(seen, subject) {
                let s = subject.to_owned();
                proof {
                    text::lemma_texts_push(seen@, s);
                }
                seen.push(s);
                if let Some(verb) = skill_verb_of(definition, subject) {
                    let r = Value::object().and("verb", Value::text(verb)).and(
                        "subject",
                        Value::text(subject),
                    );
                    proof {
                        json::lemma_views_push(out@, r);
                    }
                    out.push(r);
                }
            }
        }
        i = i + 1;
    }
}

/// The references of a single scope.
pub open spec fn skill_refs(scope: Option<Json>, definition: Json) -> Seq<Json> {
    refs_in(scope, definition, (Seq::empty(), Seq::empty())).1
}

/// The references of a single scope.
pub fn resolve_skill_refs(scope: Option<&Value>, definition: &Value) -> (r: Vec<Value>)
    ensures
        json::views(r@) == skill_refs(json::opt_view(scope), definition@),
{
    let mut seen: Vec<String> = Vec::new();
    let mut out: Vec<Value> = Vec::new();
    assert(text::texts(seen@) =~= Seq::empty());
    assert(json::views(out@) =~= Seq::empty());
    push_resolved_refs(scope, definition, &mut seen, &mut out);
    out
}

/// The references of the workflow and of the active state, each subject once.
pub open spec fn guidance_refs(definition: Json, state_def: Option<Json>) -> Seq<Json> {
    refs_in(
        match state_def {
            Some(s) => s.get("skills"@),
            None => None,
        },
        definition,
        refs_in(definition.get("skills"@), definition, (Seq::empty(), Seq::empty())),
    ).1
}

/// The references of the workflow and of the active state.
pub fn collect_guidance_refs(definition: &Value, state_def: Option<&Value>) -> (r: Vec<Value>)
    ensures
        json::views(r@) == guidance_refs(definition@, json::opt_view(state_def)),
{
    let mut seen: Vec<String> = Vec::new();
    let mut out: Vec<Value> = Vec::new();
    assert(text::texts(seen@) =~= Seq::empty());
    assert(json::views(out@) =~= Seq::empty());
    push_resolved_refs(definition.get("skills"), definition, &mut seen, &mut out);
    let scope = match state_def {
        Some(s) => s.get("skills"),
        None => None,
    };
    push_resolved_refs(scope, definition, &mut seen, &mut out);
    out
}

/// What each prefilled argument of a transition resolves to: against the
/// instance's context and input, without arguments and without output.
pub open spec fn prefill_resolution(transition: Json, instance: InstanceView) -> Seq<
    (Seq<char>, ResolvedView),
> {
    mapping::output_resolution(
        transition.entries_at("prefill"@),
        Json::empty(),
        instance.context,
        instance.input,
        Json::empty(),
    )
}

/// Resolves the prefilled arguments of a transition.
pub fn plan_prefill(transition: &Value, instance: &WorkflowInstance) -> (r: Vec<(String, Resolved)>)
    ensures
        mapping::pending_views(r@) == prefill_resolution(transition@, instance@),
{
    let empty = Value::object();
    match mapping::plan_output(
        &instance.context,
        transition.get("prefill"),
        &empty,
        &instance.input,
        &empty,
    ) {
        Some(v) => v,
        None => {
            let v: Vec<(String, Resolved)> = Vec::new();
            assert(mapping::pending_views(v@) =~= prefill_resolution(transition@, instance@));
            v
        },
    }
}

/// The text under a key, or a default.
pub open spec fn str_else(v: Json, key: Seq<char>, default: Seq<char>) -> Seq<char> {
    match v.str_at(key) {
        Some(s) => s,
        None => default,
    }
}

/// The text under a key, or a default.
pub fn str_or_default<'a>(v: &'a Value, key: &str, default: &'a str) -> (r: &'a str)
    ensures
        r@ == str_else(v@, key@, default@),
{
    match v.str_at(key) {
        Some(s) => s,
        None => default,
    }
}

/// The value under a key, or null.
pub open spec fn get_or_null(v: Json, key: Seq<char>) -> Json {
    match v.get(key) {
        Some(x) => x,
        None => Json::Null,
    }
}

/// A copy of the value under a key, or null.
pub fn get_or_null_of(v: &Value, key: &str) -> (r: Value)
    ensures
        r@ == get_or_null(v@, key@),
{
    match v.get(key) {
        Some(x) => x.dup(),
        None => Value::Null,
    }
}

/// The arguments with which a transition is to be submitted, without those that
/// the caller chooses.
pub open spec fn link_args(rel: Seq<char>, instance: InstanceView) -> Json {
    Json::empty().with("workflowId"@, Json::String(instance.id)).with(
        "expectedVersion"@,
        Json::Number(Number::PosInt(instance.version)),
    ).with("transition"@, Json::String(rel))
}

/// The arguments with which a transition is to be submitted.
pub fn link_arguments(rel: &str, instance: &WorkflowInstance) -> (r: Value)
    ensures
        r@ == link_args(rel@, instance@),
{
    Value::object().and("workflowId", Value::text(instance.id.as_str())).and(
        "expectedVersion",
        Value::uint(instance.version),
    ).and("transition", Value::text(rel))
}

/// An object with at least one entry.
pub open spec fn non_empty_object(v: Option<Json>) -> bool {
    v matches Some(Json::Object(e)) && e.len() > 0
}

/// The link for one transition. `prefill` holds its prefilled arguments.
pub open spec fn link_of(
    rel: Seq<char>,
    transition: Json,
    definition: Json,
    instance: InstanceView,
    prefill: Option<Json>,
) -> Json {
    let args = if non_empty_object(prefill) {
        link_args(rel, instance).with("arguments"@, prefill->0)
    } else {
        link_args(rel, instance)
    };
    let link = Json::empty().with("rel"@, Json::String(rel)).with(
        "title"@,
        Json::String(str_else(transition, "title"@, rel)),
    ).with("description"@, get_or_null(transition, "description"@)).with(
        "method"@,
        Json::String("workflow.submit"@),
    ).with("actor"@, Json::String(str_else(transition, "actor"@, "agent"@))).with(
        "args"@,
        args,
    ).with(
        "inputSchema"@,
        match transition.get("inputSchema"@) {
            Some(s) => s,
            None => empty_schema(),
        },
    );
    let refs = skill_refs(transition.get("skills"@), definition);
    if refs.len() > 0 {
        link.with("guidance"@, Json::empty().with("refs"@, Json::Array(refs)))
    } else {
        link
    }
}

/// The link for one transition.
pub fn link_for(
    rel: &str,
    transition: &Value,
    definition: &Value,
    instance: &WorkflowInstance,
    prefill: Option<&Value>,
) -> (r: Value)
    ensures
        r@ == link_of(rel@, transition@, definition@, instance@, json::opt_view(prefill)),
{
    let mut args = link_arguments(rel, instance);
    if let Some(p) = prefill {
        if let Value::Object(e) = p {
            if e.len() > 0 {
                args.set("arguments", p.dup());
            }
        }
    }
    let schema = match transition.get("inputSchema") {
        Some(s) => s.dup(),
        None => empty_object_schema(),
    };
    let mut link = Value::object().and("rel", Value::text(rel)).and(
        "title",
        Value::text(str_or_default(transition, "title", rel)),
    ).and("description", get_or_null_of(transition, "description")).and(
        "method",
        Value::text("workflow.submit"),
    ).and("actor", Value::text(str_or_default(transition, "actor", "agent"))).and(
        "args",
        args,
    ).and("inputSchema", schema);
    let refs = resolve_skill_refs(transition.get("skills"), definition);
    if refs.len() > 0 {
        link.set("guidance", Value::object().and("refs", Value::Array(refs)));
    }
    link
}

/// The links for the first `n` transitions, without those that the runtime takes
/// by itself.
pub open spec fn links_after(
    transitions: Seq<(Seq<char>, Json)>,
    n: int,
    definition: Json,
    instance: InstanceView,
    prefills: Json,
) -> Seq<Json>
    decreases n,
{
    if n <= 0 {
        Seq::empty()
    } else {
        let before = links_after(transitions, n - 1, definition, instance, prefills);
        let (rel, t) = transitions[n - 1];
        if deterministic(t) {
            before
        } else {
            before.push(link_of(rel, t, definition, instance, prefills.get(rel)))
        }
    }
}

/// The links of an instance: none in a terminal state.
pub open spec fn links_of(definition: Json, instance: InstanceView, prefills: Json) -> Seq<Json> {
    if terminal(definition, instance.state) {
        Seq::empty()
    } else {
        match transitions_of(definition, instance.state) {
            Some(t) => links_after(t, t.len() as int, definition, instance, prefills),
            None => Seq::empty(),
        }
    }
}

/// The links of an instance. `prefills` is an object that holds the prefilled
/// arguments of each transition under its name.
pub fn links(definition: &Value, instance: &WorkflowInstance, prefills: &Value) -> (r: Vec<Value>)
    ensures
        json::views(r@) == links_of(definition@, instance@, prefills@),
{
    let mut out: Vec<Value> = Vec::new();
    assert(json::views(out@) =~= Seq::empty());
    if is_terminal(definition, instance.state.as_str()) {
        return out;
    }
    if let Some(ts) = state_transitions(definition, instance.state.as_str()) {
        let ghost e = json::entries(ts@);
        let mut i: usize = 0;
        while i < ts.len()
            invariant
                i <= ts.len(),
                e == json::entries(ts@),
                json::views(out@) == links_after(
                    e,
                    i as int,
                    definition@,
                    instance@,
                    prefills@,
                ),
            decreases ts.len() - i,
        {
            assert(e[i as int] == (ts@[i as int].0@, ts@[i as int].1@));
            if !is_deterministic(&ts[i].1) {
                let rel = ts[i].0.as_str();
                let link = link_for(rel, &ts[i].1, definition, instance, prefills.get(rel));
                proof {
                    json::lemma_views_push(out@, link);
                }
                out.push(link);
            }
            i = i + 1;
        }
    }
    out
}

/// The names of a list of entries.
pub open spec fn keys_of(e: Seq<(Seq<char>, Json)>) -> Seq<Json> {
    Seq::new(e.len(), |i: int| Json::String(e[i].0))
}

/// The names of a list of entries.
pub fn entry_names(v: &Vec<(String, Value)>) -> (r: Vec<Value>)
    ensures
        json::views(r@) == keys_of(json::entries(v@)),
{
    let mut out: Vec<Value> = Vec::new();
    let ghost all = keys_of(json::entries(v@));
    let mut i: usize = 0;
    while i < v.len()
        invariant
            i <= v.len(),
            all == keys_of(json::entries(v@)),
            json::views(out@) == all.take(i as int),
        decreases v.len() - i,
    {
        let k = Value::text(v[i].0.as_str());
        proof {
            json::lemma_views_push(out@, k);
        }
        out.push(k);
        i = i + 1;
    }
    assert(all.take(i as int) =~= all);
    out
}

/// A transition that the runtime takes by itself is never offered: every link
/// stands for a transition of the state that some actor takes.
pub proof fn law_links_not_deterministic(
    transitions: Seq<(Seq<char>, Json)>,
    n: int,
    definition: Json,
    instance: InstanceView,
    prefills: Json,
)
    requires
        0 <= n <= transitions.len(),
    ensures
        forall|j: int|
            0 <= j < links_after(transitions, n, definition, instance, prefills).len() ==> exists|
                i: int,
            |
                0 <= i < n && !deterministic((#[trigger] transitions[i]).1) && #[trigger] links_after(
                    transitions,
                    n,
                    definition,
                    instance,
                    prefills,
                )[j] == link_of(
                    transitions[i].0,
                    transitions[i].1,
                    definition,
                    instance,
                    prefills.get(transitions[i].0),
                ),
    decreases n,
{
    if n > 0 {
        law_links_not_deterministic(transitions, n - 1, definition, instance, prefills);
        let before = links_after(transitions, n - 1, definition, instance, prefills);
        let now = links_after(transitions, n, definition, instance, prefills);
        assert forall|j: int| 0 <= j < now.len() implies exists|i: int|
            0 <= i < n && !deterministic((#[trigger] transitions[i]).1) && #[trigger] now[j]
                == link_of(
                transitions[i].0,
                transitions[i].1,
                definition,
                instance,
                prefills.get(transitions[i].0),
            ) by {
            if j < before.len() {
                let b = before[j];
                assert(now[j] == b);
                let i = choose|i: int|
                    0 <= i < n - 1 && !deterministic((#[trigger] transitions[i]).1) && b == link_of(
                        transitions[i].0,
                        transitions[i].1,
                        definition,
                        instance,
                        prefills.get(transitions[i].0),
                    );
                assert(!deterministic(transitions[i].1));
            } else {
                assert(!deterministic(transitions[n - 1].1));
            }
        }
    }
}

/// Every transition of the state that some actor takes is offered by a link, unless
/// the state is terminal.
pub proof fn law_every_move_is_offered(
    definition: Json,
    instance: InstanceView,
    prefills: Json,
    i: int,
)
    requires
        !terminal(definition, instance.state),
        transitions_of(definition, instance.state) matches Some(t) && 0 <= i < t.len()
            && !deterministic(t[i].1),
    ensures
        ({
            let t = transitions_of(definition, instance.state)->0;
            links_of(definition, instance, prefills).contains(
                link_of(t[i].0, t[i].1, definition, instance, prefills.get(t[i].0)),
            )
        }),
{
    let t = transitions_of(definition, instance.state)->0;
    lemma_move_is_offered(t, t.len() as int, definition, instance, prefills, i);
}

proof fn lemma_move_is_offered(
    transitions: Seq<(Seq<char>, Json)>,
    n: int,
    definition: Json,
    instance: InstanceView,
    prefills: Json,
    i: int,
)
    requires
        0 <= i < n <= transitions.len(),
        !deterministic(transitions[i].1),
    ensures
        links_after(transitions, n, definition, instance, prefills).contains(
            link_of(
                transitions[i].0,
                transitions[i].1,
                definition,
                instance,
                prefills.get(transitions[i].0),
            ),
        ),
    decreases n,
{
    let before = links_after(transitions, n - 1, definition, instance, prefills);
    let now = links_after(transitions, n, definition, instance, prefills);
    let link = link_of(
        transitions[i].0,
        transitions[i].1,
        definition,
        instance,
        prefills.get(transitions[i].0),
    );
    if i == n - 1 {
        assert(now[before.len() as int] == link);
    } else {
        lemma_move_is_offered(transitions, n - 1, definition, instance, prefills, i);
        let j = before.index_of(link);
        assert(now[j] == link);
    }
}

/// What a link holds for whoever follows it.
pub proof fn lemma_link_fields(
    rel: Seq<char>,
    transition: Json,
    definition: Json,
    instance: InstanceView,
    prefill: Option<Json>,
)
    ensures
        ({
            let link = link_of(rel, transition, definition, instance, prefill);
            &&& link.str_at("rel"@) == Some(rel)
            &&& link.get("args"@) matches Some(args) && args.str_at("workflowId"@) == Some(
                instance.id,
            ) && args.u64_at("expectedVersion"@) == Some(instance.version) && args.str_at(
                "transition"@,
            ) == Some(rel)
        }),
{
    reveal_strlit("rel");
    reveal_strlit("title");
    reveal_strlit("description");
    reveal_strlit("method");
    reveal_strlit("actor");
    reveal_strlit("args");
    reveal_strlit("inputSchema");
    reveal_strlit("guidance");
    reveal_strlit("workflowId");
    reveal_strlit("expectedVersion");
    reveal_strlit("transition");
    reveal_strlit("arguments");
    assert("rel"@.len() == 3);
    assert("title"@.len() == 5);
    assert("description"@.len() == 11);
    assert("method"@.len() == 6);
    assert("actor"@.len() == 5);
    assert("args"@.len() == 4);
    assert("inputSchema"@.len() == 11);
    assert("guidance"@.len() == 8);
    assert("expectedVersion"@.len() == 15);
    assert("arguments"@.len() == 9);
    assert("workflowId"@.len() == 10 && "workflowId"@[0] == 'w');
    assert("transition"@.len() == 10 && "transition"@[0] == 't');
    let w = "workflowId"@;
    let x = "expectedVersion"@;
    let t = "transition"@;
    let id = Json::String(instance.id);
    let version = Json::Number(Number::PosInt(instance.version));
    let a0 = Json::empty();
    let a1 = a0.with(w, id);
    let a2 = a1.with(x, version);
    let plain = link_args(rel, instance);
    assert(plain == a2.with(t, Json::String(rel)));
    json::law_get_with(a0, w, id, w);
    json::law_get_with(a1, x, version, w);
    json::law_get_with(a1, x, version, x);
    json::law_get_with(a2, t, Json::String(rel), w);
    json::law_get_with(a2, t, Json::String(rel), x);
    json::law_get_with(a2, t, Json::String(rel), t);
    let args = if non_empty_object(prefill) {
        json::law_get_with(plain, "arguments"@, prefill->0, w);
        json::law_get_with(plain, "arguments"@, prefill->0, x);
        json::law_get_with(plain, "arguments"@, prefill->0, t);
        plain.with("arguments"@, prefill->0)
    } else {
        plain
    };
    assert(args.get(w) == Some(id));
    assert(args.get(x) == Some(version));
    assert(args.get(t) == Some(Json::String(rel)));
    let r = "rel"@;
    let title = Json::String(str_else(transition, "title"@, rel));
    let description = get_or_null(transition, "description"@);
    let method = Json::String("workflow.submit"@);
    let actor = Json::String(str_else(transition, "actor"@, "agent"@));
    let schema = match transition.get("inputSchema"@) {
        Some(s) => s,
        None => empty_schema(),
    };
    let l0 = Json::empty();
    let l1 = l0.with(r, Json::String(rel));
    let l2 = l1.with("title"@, title);
    let l3 = l2.with("description"@, description);
    let l4 = l3.with("method"@, method);
    let l5 = l4.with("actor"@, actor);
    let l6 = l5.with("args"@, args);
    let l7 = l6.with("inputSchema"@, schema);
    json::law_get_with(l0, r, Json::String(rel), r);
    json::law_get_with(l1, "title"@, title, r);
    json::law_get_with(l2, "description"@, description, r);
    json::law_get_with(l3, "method"@, method, r);
    json::law_get_with(l4, "actor"@, actor, r);
    json::law_get_with(l5, "args"@, args, r);
    json::law_get_with(l5, "args"@, args, "args"@);
    json::law_get_with(l6, "inputSchema"@, schema, r);
    json::law_get_with(l6, "inputSchema"@, schema, "args"@);
    assert(l7.get(r) == Some(Json::String(rel)));
    assert(l7.get("args"@) == Some(args));
    let refs = skill_refs(transition.get("skills"@), definition);
    let link = link_of(rel, transition, definition, instance, prefill);
    if refs.len() > 0 {
        let guidance = Json::empty().with("refs"@, Json::Array(refs));
        json::law_get_with(l7, "guidance"@, guidance, r);
        json::law_get_with(l7, "guidance"@, guidance, "args"@);
        assert(link == l7.with("guidance"@, guidance));
    } else {
        assert(link == l7);
    }
}

/// Replacing a character goes piece by piece.
proof fn lemma_replaced_char_add(a: Seq<char>, b: Seq<char>, c: char, t: Seq<char>)
    ensures
        text::replaced_char(a + b, c, t) == text::replaced_char(a, c, t) + text::replaced_char(
            b,
            c,
            t,
        ),
    decreases b.len(),
{
    if b.len() == 0 {
        assert(a + b =~= a);
        assert(text::replaced_char(a, c, t) + b =~= text::replaced_char(a, c, t));
    } else {
        lemma_replaced_char_add(a, b.drop_last(), c, t);
        assert((a + b).drop_last() =~= a + b.drop_last());
        assert((a + b).last() == b.last());
        let x = text::replaced_char(a, c, t);
        let y = text::replaced_char(b.drop_last(), c, t);
        if b.last() == c {
            assert((x + y) + t =~= x + (y + t));
        } else {
            assert((x + y).push(b.last()) =~= x + y.push(b.last()));
        }
    }
}

proof fn lemma_replaced_first(s: Seq<char>, c: char, t: Seq<char>)
    requires
        s.len() > 0,
    ensures
        text::replaced_char(s, c, t) == (if s[0] == c {
            t
        } else {
            seq![s[0]]
        }) + text::replaced_char(s.skip(1), c, t),
{
    assert(s =~= seq![s[0]] + s.skip(1));
    lemma_replaced_char_add(seq![s[0]], s.skip(1), c, t);
    let one = seq![s[0]];
    assert(one.drop_last() =~= Seq::<char>::empty());
    assert(text::replaced_char(one.drop_last(), c, t) =~= Seq::<char>::empty());
    assert(one.last() == s[0]);
    if s[0] == c {
        assert(text::replaced_char(one, c, t) =~= t);
    } else {
        assert(text::replaced_char(one, c, t) =~= one);
    }
}

/// One character, escaped.
spec fn escaped_char(c: char) -> Seq<char> {
    if c == '~' {
        seq!['~', '0']
    } else if c == '/' {
        seq!['~', '1']
    } else {
        seq![c]
    }
}

proof fn lemma_escaped_first(s: Seq<char>)
    requires
        s.len() > 0,
    ensures
        escaped(s) == escaped_char(s[0]) + escaped(s.skip(1)),
{
    reveal_strlit("~0");
    reveal_strlit("~1");
    let tilde = "~0"@;
    let slash = "~1"@;
    assert(tilde =~= seq!['~', '0']);
    assert(slash =~= seq!['~', '1']);
    let rest = text::replaced_char(s.skip(1), '~', tilde);
    lemma_replaced_first(s, '~', tilde);
    if s[0] == '~' {
        lemma_replaced_char_add(tilde, rest, '/', slash);
        lemma_replaced_first(tilde, '/', slash);
        lemma_replaced_first(tilde.skip(1), '/', slash);
        assert(tilde.skip(1).skip(1) =~= Seq::<char>::empty());
        assert(text::replaced_char(tilde, '/', slash) =~= tilde);
    } else {
        let one = seq![s[0]];
        lemma_replaced_char_add(one, rest, '/', slash);
        lemma_replaced_first(one, '/', slash);
        assert(one.skip(1) =~= Seq::<char>::empty());
        assert(text::replaced_char(one, '/', slash) =~= escaped_char(s[0]));
    }
}

/// Undoing the escapes of slashes leaves those of tildes.
proof fn lemma_slashes_back(s: Seq<char>)
    ensures
        text::replaced(escaped(s), "~1"@, "/"@) == text::replaced_char(s, '~', "~0"@),
    decreases s.len(),
{
    reveal_strlit("~0");
    reveal_strlit("~1");
    reveal_strlit("/");
    let slash = "~1"@;
    assert(slash =~= seq!['~', '1']);
    assert("~0"@ =~= seq!['~', '0']);
    assert("/"@ =~= seq!['/']);
    if s.len() == 0 {
        assert(escaped(s) =~= Seq::<char>::empty());
        assert(text::replaced_char(s, '~', "~0"@) =~= Seq::<char>::empty());
    } else {
        let r = s.skip(1);
        lemma_slashes_back(r);
        lemma_escaped_first(s);
        lemma_replaced_first(s, '~', "~0"@);
        let e = escaped(s);
        let f = escaped(r);
        let back = text::replaced(f, slash, "/"@);
        if s[0] == '/' {
            assert(e.take(2) =~= slash);
            assert(e.skip(2) =~= f);
        } else if s[0] == '~' {
            assert(e.take(2)[1] == '0');
            let g = e.skip(1);
            assert(g =~= seq!['0'] + f);
            if g.len() >= 2 {
                assert(g.take(2)[0] == '0');
                assert(g.skip(1) =~= f);
            } else {
                assert(f =~= Seq::<char>::empty());
                assert(back =~= f);
            }
            assert(text::replaced(g, slash, "/"@) =~= seq!['0'] + back);
            assert(text::replaced(e, slash, "/"@) =~= seq!['~'] + (seq!['0'] + back));
            assert(seq!['~'] + (seq!['0'] + back) =~= seq!['~', '0'] + back);
        } else {
            if e.len() >= 2 {
                assert(e.take(2)[0] == s[0]);
                assert(e.skip(1) =~= f);
            } else {
                assert(f =~= Seq::<char>::empty());
                assert(back =~= f);
            }
            assert(text::replaced(e, slash, "/"@) =~= seq![s[0]] + back);
        }
    }
}

/// Undoing the escapes of tildes leaves the text.
proof fn lemma_tildes_back(s: Seq<char>)
    ensures
        text::replaced(text::replaced_char(s, '~', "~0"@), "~0"@, "~"@) == s,
    decreases s.len(),
{
    reveal_strlit("~0");
    reveal_strlit("~");
    let tilde = "~0"@;
    assert(tilde =~= seq!['~', '0']);
    assert("~"@ =~= seq!['~']);
    if s.len() == 0 {
        assert(text::replaced_char(s, '~', tilde) =~= Seq::<char>::empty());
    } else {
        let r = s.skip(1);
        lemma_tildes_back(r);
        lemma_replaced_first(s, '~', tilde);
        let e = text::replaced_char(s, '~', tilde);
        let f = text::replaced_char(r, '~', tilde);
        if s[0] == '~' {
            assert(e.take(2) =~= tilde);
            assert(e.skip(2) =~= f);
        } else if e.len() >= 2 {
            assert(e.take(2)[0] == s[0]);
            assert(e.skip(1) =~= f);
        } else {
            assert(f =~= Seq::<char>::empty());
            assert(text::replaced(f, tilde, "~"@) =~= f);
        }
        assert(text::replaced(e, tilde, "~"@) =~= seq![s[0]] + r);
        assert(seq![s[0]] + r =~= s);
    }
}

proof fn lemma_escaped_has_no_slash(s: Seq<char>)
    ensures
        !escaped(s).contains('/'),
    decreases s.len(),
{
    if s.len() == 0 {
        assert(escaped(s) =~= Seq::<char>::empty());
    } else {
        lemma_escaped_first(s);
        lemma_escaped_has_no_slash(s.skip(1));
        let f = escaped(s.skip(1));
        assert forall|i: int| 0 <= i < escaped(s).len() implies escaped(s)[i] != '/' by {
            let h = escaped_char(s[0]);
            if i >= h.len() {
                assert(escaped(s)[i] == f[i - h.len()]);
            }
        }
    }
}

/// A text that is written as a token of a pointer is read back as it was, and is one
/// token: it holds no slash.
pub proof fn law_tokens_are_read_back(s: Seq<char>)
    ensures
        json::unescaped(escaped(s)) == s,
        !escaped(s).contains('/'),
{
    lemma_slashes_back(s);
    lemma_tildes_back(s);
    lemma_escaped_has_no_slash(s);
}

} // verus!
