//! What the small parts of the runtime are for: laws about states, loops, entry actions,
//! failures and the fragments that a workflow holds.
use crate::config;
use crate::config_merge;
use crate::error::{ErrorClass, ExecutorErrorView};
use crate::json;
use crate::json::Json;
use crate::model::{InstanceView, PrincipalView};
use crate::runtime;
use crate::runtime_chain;
use crate::runtime_chain::WhilePlanView;
use crate::runtime_links;
use crate::text;
use vstd::prelude::*;

verus! {

// ---------------------------------------------------------------------------
// States
// ---------------------------------------------------------------------------

/// A state is what stands under its name among the states, a transition what stands under its
/// name among the transitions of the state; a state is terminal exactly where it says so.
pub proof fn law_states_are_read_from_the_definition(
    definition: Json,
    states: Json,
    state: Seq<char>,
    s: Json,
    ts: Json,
    transition: Seq<char>,
)
    requires
        states is Object,
        ts is Object,
        definition.get("states"@) == Some(states),
        states.get(state) == Some(s),
    ensures
        runtime_links::state_of(definition, state) == Some(s),
        runtime_links::terminal(definition, state) <==> s.get("terminal"@) == Some(
            Json::Bool(true),
        ),
        s.get("transitions"@) == Some(ts) ==> runtime_links::transition_of(
            definition,
            state,
            transition,
        ) == ts.get(transition),
        runtime_chain::entry_action(definition, state) is Some <==> (s.get("onEnter"@) matches Some(
            a,
        ) && a.get("executor"@) is Some),
        runtime_chain::entry_action(definition, state) is Some
            ==> runtime_chain::entry_action(definition, state) == s.get("onEnter"@),
{
    reveal(Json::get);
    reveal(Json::step);
}

/// A state without a loop is left; one with a loop is judged by its condition as often as it
/// allows, and one that does not say how often is refused.
pub proof fn law_loops_are_planned(definition: Json, state: Seq<char>, s: Json)
    requires
        runtime_links::state_of(definition, state) == Some(s),
    ensures
        ({
            let plan = runtime_chain::loop_plan(definition, state);
            &&& plan is Leave <==> s.get("while"@) is None
            &&& plan is Uncapped <==> s.get("while"@) is Some && s.u64_at("max_iterations"@) is None
            &&& plan is Judge <==> s.get("while"@) is Some && s.u64_at("max_iterations"@) is Some
            &&& plan matches WhilePlanView::Judge { guard, max_iterations } ==> s.get("while"@)
                == Some(guard) && (s.u64_at("max_iterations"@)->0 <= u32::MAX ==> max_iterations
                == s.u64_at("max_iterations"@)->0)
        }),
{
}

/// A chain takes as many steps as the workflow allows, or fifty.
pub proof fn law_chains_are_limited(definition: Json)
    ensures
        definition.u64_at("maxChainDepth"@) matches Some(n) ==> runtime::chain_limit(definition)
            == n,
        definition.u64_at("maxChainDepth"@) is None ==> runtime::chain_limit(definition) == 50,
{
}

/// An event about an instance carries its workflow, its trace and its run, and says what it is
/// given.
pub proof fn law_events_name_their_instance(
    i: InstanceView,
    event_type: Seq<char>,
    correlation_id: Seq<char>,
    actor: Option<Seq<char>>,
    payload: Json,
)
    ensures
        ({
            let e = i.event(event_type, correlation_id, actor, payload);
            &&& e.workflow_id == Some(i.id) && e.trace_id == i.trace_id && e.run_id == i.run_id
            &&& e.event_type == event_type && e.correlation_id == correlation_id && e.actor == actor
                && e.payload == payload
        }),
{
}

/// A principal is human exactly where it has that role.
pub proof fn law_humans_have_the_role(p: PrincipalView)
    ensures
        p.is_human() <==> exists|i: int| 0 <= i < p.roles.len() && #[trigger] p.roles[i] == "human"@,
{
}

// ---------------------------------------------------------------------------
// Failures
// ---------------------------------------------------------------------------

/// A failure is of the class that it says; what says nothing of it, and a schema violation,
/// is permanent.
pub proof fn law_failures_have_a_class(e: ExecutorErrorView)
    ensures
        e is Timeout <==> e.class_of() == ErrorClass::Timeout,
        e is RateLimited <==> e.class_of() == ErrorClass::RateLimited,
        e is Connection <==> e.class_of() == ErrorClass::Connection,
        e is Transient <==> e.class_of() == ErrorClass::Transient,
        e is Permanent || e is SchemaViolation || e is Other <==> e.class_of()
            == ErrorClass::Permanent,
        e.class_of().token_text() == (match e {
            ExecutorErrorView::Timeout(_) => "timeout"@,
            ExecutorErrorView::RateLimited(_) => "rate_limited"@,
            ExecutorErrorView::Connection(_) => "connection_error"@,
            ExecutorErrorView::Transient(_) => "transient_error"@,
            _ => "permanent_error"@,
        }),
{
}

// ---------------------------------------------------------------------------
// Fragments
// ---------------------------------------------------------------------------

/// A fragment that a workflow holds is described with its verb, lifecycle, hash and body.
pub proof fn law_held_fragments_are_described(
    definition: Json,
    library: Seq<char>,
    lib: Json,
    kind: Seq<char>,
    subject: Seq<char>,
    entry: Json,
)
    requires
        definition.get(library) == Some(lib),
        lib.get(subject) == Some(entry),
    ensures
        runtime::library_entry(definition, library, subject) == Some(entry),
        ({
            let d = runtime::described(kind, subject, entry);
            &&& d.str_at("kind"@) == Some(kind)
            &&& d.str_at("subject"@) == Some(subject)
            &&& entry.str_at("verb"@) is Some ==> d.str_at("verb"@) == entry.str_at("verb"@)
            &&& entry.str_at("lifecycle"@) is Some ==> d.str_at("lifecycle"@) == entry.str_at(
                "lifecycle"@,
            )
            &&& entry.str_at("hash"@) is Some ==> d.str_at("hash"@) == entry.str_at("hash"@)
            &&& entry.str_at("body"@) is Some ==> d.str_at("body"@) == entry.str_at("body"@)
        }),
{
    json::lemma_reads();
    reveal_strlit("kind");
    reveal_strlit("subject");
    reveal_strlit("verb");
    reveal_strlit("lifecycle");
    reveal_strlit("hash");
    reveal_strlit("body");
    assert("kind"@.len() == 4 && "kind"@[0] == 'k' && "subject"@.len() == 7 && "verb"@.len() == 4
        && "verb"@[0] == 'v' && "lifecycle"@.len() == 9 && "hash"@.len() == 4 && "hash"@[0] == 'h'
        && "body"@.len() == 4 && "body"@[0] == 'b');
}

/// The capabilities that are subjects are those with a dot in their name.
pub proof fn law_dotted_names_are_subjects(e: Seq<(Seq<char>, Json)>, n: int, name: Seq<char>)
    requires
        0 <= n <= e.len(),
    ensures
        config::dotted(e, n).contains(name) <==> name.contains('.') && exists|i: int|
            0 <= i < n && (#[trigger] e[i]).0 == name,
    decreases n,
{
    if n > 0 {
        law_dotted_names_are_subjects(e, n - 1, name);
        let before = config::dotted(e, n - 1);
        let all = config::dotted(e, n);
        if before.contains(name) {
            let i = choose|i: int| 0 <= i < before.len() && before[i] == name;
            assert(all[i] == name);
        }
        if e[n - 1].0 == name && name.contains('.') {
            assert(all[before.len() as int] == name);
        }
        if all.contains(name) && !before.contains(name) {
            let i = choose|i: int| 0 <= i < all.len() && all[i] == name;
            if i < before.len() {
                assert(before[i] == name);
            }
            assert(e[n - 1].0 == name);
        }
    }
}

/// A script whose uri names a file by a relative path gets the absolute path that is known of
/// it; every other script stays as it is, and so does everything else that a script says.
pub proof fn law_relative_paths_become_absolute(
    absolute: Json,
    subject: Seq<char>,
    entry: Json,
    rest: Seq<char>,
    path: Seq<char>,
    other: Seq<char>,
)
    requires
        entry is Object,
        absolute.str_at(subject) == Some(path),
        entry.str_at("uri"@) == Some("file://"@ + rest),
    ensures
        ({
            let s = config_merge::with_absolute_path(absolute, subject, entry);
            &&& rest.len() == 0 || rest[0] != '/' ==> s.str_at("uri"@) == Some("file://"@ + path)
            &&& rest.len() > 0 && rest[0] == '/' ==> s == entry
            &&& other != "uri"@ ==> s.get(other) == entry.get(other)
        }),
{
    json::lemma_reads();
    let p = "file://"@;
    let uri = p + rest;
    assert(uri.take(p.len() as int) =~= p);
    assert(uri.skip(p.len() as int) =~= rest);
}

/// Each script of a configuration gets its absolute path, under its own subject.
pub proof fn law_every_script_gets_its_path(
    config: Json,
    absolute: Json,
    e: Seq<(Seq<char>, Json)>,
    other: Seq<char>,
)
    requires
        config.get("scripts"@) == Some(Json::Object(e)),
    ensures
        ({
            let c = config_merge::with_absolute_paths(config, absolute);
            &&& other != "scripts"@ ==> c.get(other) == config.get(other)
            &&& c.get("scripts"@) matches Some(Json::Object(d)) && d.len() == e.len() && forall|
                i: int,
            |
                0 <= i < e.len() ==> (#[trigger] d[i]).0 == e[i].0 && d[i].1
                    == config_merge::with_absolute_path(absolute, e[i].0, e[i].1)
        }),
{
    reveal(Json::get);
    json::lemma_reads();
    assert(config is Object);
    let d = config_merge::absolute_scripts(absolute, e);
    assert(config_merge::with_absolute_paths(config, absolute) == config.with(
        "scripts"@,
        Json::Object(d),
    ));
}

/// What is left after a beginning is what follows it.
pub proof fn law_what_follows_a_prefix(p: Seq<char>, rest: Seq<char>, s: Seq<char>)
    ensures
        text::after_prefix(p + rest, p) == Some(rest),
        text::after_prefix(s, p) is Some ==> s == p + text::after_prefix(s, p)->0,
{
    assert((p + rest).take(p.len() as int) =~= p);
    assert((p + rest).skip(p.len() as int) =~= rest);
    if p.is_prefix_of(s) {
        assert(s =~= p + s.skip(p.len() as int));
    }
}

} // verus!
