//! What responses and links are for: laws about what they show and what they offer.
use crate::json;
use crate::json::{Json, Number};
use crate::model::InstanceView;
use crate::runtime;
use crate::runtime_links;
use crate::runtime_response;
use crate::runtime_response::GuardRunView;
use vstd::prelude::*;

verus! {

// ---------------------------------------------------------------------------
// Responses
// ---------------------------------------------------------------------------

/// The words of a response differ from one another.
proof fn lemma_body_words()
    ensures
        "workflow"@.len() == 8 && "workflow"@[0] == 'w',
        "result"@.len() == 6,
        "context"@.len() == 7 && "context"@[0] == 'c',
        "links"@.len() == 5 && "links"@[0] == 'l',
        "evidence"@.len() == 8 && "evidence"@[0] == 'e',
        "summary"@.len() == 7 && "summary"@[0] == 's',
        "error"@.len() == 5 && "error"@[0] == 'e',
        "delegate"@.len() == 8 && "delegate"@[0] == 'd',
        "guidance"@.len() == 8 && "guidance"@[0] == 'g',
        "goal"@.len() == 4,
        "instructions"@.len() == 12,
        "refs"@.len() == 4,
        "goal"@ != "refs"@,
        "id"@.len() == 2,
        "definitionId"@.len() == 12,
        "definitionVersion"@.len() == 17,
        "state"@.len() == 5,
        "version"@.len() == 7,
        "status"@.len() == 6,
{
    reveal_strlit("workflow");
    reveal_strlit("result");
    reveal_strlit("context");
    reveal_strlit("links");
    reveal_strlit("evidence");
    reveal_strlit("summary");
    reveal_strlit("error");
    reveal_strlit("delegate");
    reveal_strlit("guidance");
    reveal_strlit("goal");
    reveal_strlit("instructions");
    reveal_strlit("refs");
    reveal_strlit("id");
    reveal_strlit("definitionId");
    reveal_strlit("definitionVersion");
    reveal_strlit("state");
    reveal_strlit("version");
    reveal_strlit("status");
    assert("goal"@[0] == 'g' && "refs"@[0] == 'r');
}

/// A response shows the workflow as it is: its id, state, version, definition and context,
/// the links that it was given, the error and the summary where there is one, and the
/// rendered texts that guide the caller. A workflow in a terminal state is completed.
pub proof fn law_response_shows_the_instance(
    definition: Json,
    instance: InstanceView,
    status: Seq<char>,
    error: Option<Json>,
    links: Seq<Json>,
    goal: Option<Seq<char>>,
    instructions: Option<Seq<char>>,
)
    ensures
        ({
            let r = runtime_response::body_of(
                definition,
                instance,
                status,
                error,
                links,
                goal,
                instructions,
            );
            &&& r.get("workflow"@) matches Some(w) && w.get("id"@) == Some(
                Json::String(instance.id),
            ) && w.get("definitionId"@) == Some(Json::String(instance.definition_id)) && w.get(
                "definitionVersion"@,
            ) == Some(Json::String(instance.definition_version)) && w.get("state"@) == Some(
                Json::String(instance.state),
            ) && w.get("version"@) == Some(Json::Number(Number::PosInt(instance.version)))
            &&& r.get("result"@) matches Some(x) && x.get("status"@) == Some(
                Json::String(
                    if runtime_links::terminal(definition, instance.state) {
                        "completed"@
                    } else {
                        status
                    },
                ),
            )
            &&& r.get("context"@) == Some(instance.context)
            &&& r.get("links"@) == Some(Json::Array(links))
            &&& r.get("error"@) == error
            &&& r.get("summary"@) == match instance.context.str_at("summary"@) {
                Some(s) => Some(Json::String(s)),
                None => None,
            }
            &&& goal matches Some(t) ==> (r.get("guidance"@) matches Some(g) && g.get("goal"@)
                == Some(Json::String(t)))
            &&& instructions matches Some(t) ==> (r.get("guidance"@) matches Some(g) && g.get(
                "instructions"@,
            ) == Some(Json::String(t)))
            &&& r.get("delegate"@) == match runtime_links::state_field(
                definition,
                instance.state,
                "delegate"@,
            ) {
                Some(Json::String(d)) => if d.len() > 0 {
                    Some(Json::String(d))
                } else {
                    None
                },
                _ => None,
            }
            &&& ({
                let refs = runtime_links::guidance_refs(
                    definition,
                    runtime_links::state_of(definition, instance.state),
                );
                &&& refs.len() > 0 ==> (r.get("guidance"@) matches Some(g) && g.get("refs"@)
                    == Some(Json::Array(refs)))
                &&& r.get("guidance"@) is None <==> goal is None && instructions is None
                    && refs.len() == 0
            })
        }),
{
    json::lemma_reads();
    lemma_body_words();
}

/// The response after a chain shows its evidence and its steps, and changes nothing else but
/// the links.
pub proof fn law_finished_response_shows_the_chain(
    definition: Json,
    reply: runtime::ReplyView,
    body: Json,
    evidence: Seq<Json>,
    k: int,
)
    requires
        body is Object,
    ensures
        ({
            let r = runtime::finished(definition, reply, body, evidence);
            &&& evidence.len() > 0 ==> r.get("evidence"@) == Some(Json::Array(evidence))
            &&& evidence.len() == 0 ==> r.get("evidence"@) == body.get("evidence"@)
            &&& reply.steps.len() > 0 ==> (r.get("chain"@) matches Some(Json::Array(steps))
                && steps.len() == reply.steps.len())
            &&& 0 <= k < reply.steps.len() ==> (r.get("chain"@) matches Some(Json::Array(steps))
                && steps[k].get("fromState"@) == Some(Json::String(reply.steps[k].from_state))
                && steps[k].get("toState"@) == Some(Json::String(reply.steps[k].to_state))
                && steps[k].get("transition"@) == Some(Json::String(reply.steps[k].transition))
                && steps[k].get("version"@) == Some(
                Json::Number(Number::PosInt(reply.steps[k].version)),
            ))
            &&& reply.failed_transition is None ==> r.get("links"@) == body.get("links"@)
            &&& r.get("workflow"@) == body.get("workflow"@)
            &&& r.get("result"@) == body.get("result"@)
            &&& r.get("context"@) == body.get("context"@)
        }),
{
    json::lemma_reads();
    lemma_body_words();
    reveal_strlit("chain");
    reveal_strlit("fromState");
    reveal_strlit("toState");
    reveal_strlit("transition");
    assert("chain"@.len() == 5 && "chain"@[0] == 'c');
    assert("fromState"@.len() == 9 && "toState"@.len() == 7 && "toState"@[0] == 't');
    assert("transition"@.len() == 10 && "version"@[0] == 'v') by {
        reveal_strlit("version");
    }
    if 0 <= k < reply.steps.len() {
        assert(runtime::step_values(reply.steps)[k] == reply.steps[k].value());
    }
}

// ---------------------------------------------------------------------------
// Links
// ---------------------------------------------------------------------------

/// A link says how its transition is to be submitted: its name, its title or else its name,
/// who takes it, with which schema, for which workflow and under which version; prefilled
/// arguments come along.
pub proof fn law_links_say_how_to_submit(
    rel: Seq<char>,
    transition: Json,
    definition: Json,
    instance: InstanceView,
    prefill: Option<Json>,
)
    ensures
        ({
            let l = runtime_links::link_of(rel, transition, definition, instance, prefill);
            &&& l.get("rel"@) == Some(Json::String(rel))
            &&& l.get("title"@) == Some(
                Json::String(
                    match transition.str_at("title"@) {
                        Some(t) => t,
                        None => rel,
                    },
                ),
            )
            &&& l.get("actor"@) == Some(
                Json::String(
                    match transition.str_at("actor"@) {
                        Some(t) => t,
                        None => "agent"@,
                    },
                ),
            )
            &&& l.get("method"@) == Some(Json::String("workflow.submit"@))
            &&& transition.get("description"@) matches Some(d) ==> l.get("description"@) == Some(d)
            &&& transition.get("inputSchema"@) matches Some(s) ==> l.get("inputSchema"@) == Some(s)
            &&& l.get("args"@) matches Some(a) && a.get("workflowId"@) == Some(
                Json::String(instance.id),
            ) && a.get("expectedVersion"@) == Some(Json::Number(Number::PosInt(instance.version)))
                && a.get("transition"@) == Some(Json::String(rel))
            &&& prefill matches Some(Json::Object(e)) ==> (e.len() > 0 ==> (l.get("args"@)
                matches Some(a) && a.get("arguments"@) == prefill))
            &&& prefill is None ==> (l.get("args"@) matches Some(a) && a.get("arguments"@) is None)
        }),
{
    json::lemma_reads();
    reveal_strlit("rel");
    reveal_strlit("title");
    reveal_strlit("description");
    reveal_strlit("method");
    reveal_strlit("actor");
    reveal_strlit("args");
    reveal_strlit("inputSchema");
    reveal_strlit("guidance");
    reveal_strlit("workflowId");
    reveal_strlit("expectedVersion");
    reveal_strlit("transition");
    reveal_strlit("arguments");
    assert("rel"@.len() == 3 && "title"@.len() == 5 && "title"@[0] == 't' && "description"@.len()
        == 11 && "description"@[0] == 'd' && "method"@.len() == 6 && "actor"@.len() == 5
        && "actor"@[0] == 'a' && "args"@.len() == 4 && "inputSchema"@.len() == 11
        && "inputSchema"@[0] == 'i' && "guidance"@.len() == 8);
    assert("workflowId"@.len() == 10 && "workflowId"@[0] == 'w' && "transition"@.len() == 10
        && "transition"@[0] == 't' && "expectedVersion"@.len() == 15 && "arguments"@.len() == 9);
}

/// A terminal state offers nothing.
pub proof fn law_terminal_states_offer_nothing(
    definition: Json,
    instance: InstanceView,
    prefills: Json,
)
    requires
        runtime_links::terminal(definition, instance.state),
    ensures
        runtime_links::links_of(definition, instance, prefills).len() == 0,
{
}

/// A link of a transition of the state whose guards all pass.
pub open spec fn open_link(
    definition: Json,
    state: Seq<char>,
    links: Seq<Json>,
    passes: Seq<bool>,
    k: int,
) -> bool {
    passes[k] && (links[k].str_at("rel"@) matches Some(rel) && runtime_links::transition_of(
        definition,
        state,
        rel,
    ) is Some)
}

/// A link is one of the first `n` whose transition is one of the state and passes.
pub open spec fn among_open(
    definition: Json,
    state: Seq<char>,
    links: Seq<Json>,
    passes: Seq<bool>,
    n: int,
    link: Json,
) -> bool {
    exists|k: int|
        0 <= k < n && #[trigger] open_link(definition, state, links, passes, k) && link == links[k]
}

/// Filtering by guards keeps exactly the links of transitions of the state whose guards all
/// pass; where all of them do, it keeps all of them as they stand.
pub proof fn law_links_are_filtered_by_guards(
    definition: Json,
    state: Seq<char>,
    links: Seq<Json>,
    passes: Seq<bool>,
    n: int,
)
    requires
        0 <= n <= links.len(),
    ensures
        ({
            let kept = runtime_response::kept_links(definition, state, links, passes, n);
            &&& forall|link: Json| #[trigger]
                kept.contains(link) <==> among_open(definition, state, links, passes, n, link)
            &&& (forall|k: int|
                0 <= k < n ==> #[trigger] open_link(definition, state, links, passes, k)) ==> kept
                == links.take(n)
        }),
    decreases n,
{
    let kept = runtime_response::kept_links(definition, state, links, passes, n);
    if n > 0 {
        law_links_are_filtered_by_guards(definition, state, links, passes, n - 1);
        let before = runtime_response::kept_links(definition, state, links, passes, n - 1);
        let last = links[n - 1];
        let open = open_link(definition, state, links, passes, n - 1);
        assert(open == runtime_response::keeps_link(definition, state, last, passes[n - 1]));
        assert forall|link: Json| #[trigger] kept.contains(link) <==> among_open(
            definition,
            state,
            links,
            passes,
            n,
            link,
        ) by {
            assert(before.contains(link) <==> among_open(
                definition,
                state,
                links,
                passes,
                n - 1,
                link,
            ));
            if before.contains(link) {
                let p = choose|p: int| 0 <= p < before.len() && before[p] == link;
                assert(kept[p] == link);
            }
            if kept.contains(link) && !before.contains(link) {
                let p = choose|p: int| 0 <= p < kept.len() && kept[p] == link;
                if p < before.len() {
                    assert(before[p] == link);
                }
                assert(open && link == last);
            }
            if open && link == last {
                assert(kept[before.len() as int] == link);
            }
        }
        if forall|k: int| 0 <= k < n ==> #[trigger] open_link(definition, state, links, passes, k) {
            assert(open);
            assert(kept =~= links.take(n));
        }
    } else {
        assert(kept =~= links.take(n));
    }
}

/// The links are filtered where the state says so, or where it says nothing and the workflow
/// does.
pub proof fn law_filtering_is_declared(definition: Json, state: Seq<char>, s: Json)
    requires
        runtime_links::state_of(definition, state) == Some(s),
    ensures
        s.str_at("linkFilter"@) matches Some(f) ==> runtime_links::filters_by_guards(
            definition,
            state,
        ) == (f == "byGuards"@),
        s.get("linkFilter"@) is None ==> runtime_links::filters_by_guards(definition, state) == (
        definition.str_at("linkFilter"@) == Some("byGuards"@)),
{
}

// ---------------------------------------------------------------------------
// Guards of one transition
// ---------------------------------------------------------------------------

/// The run over the guards of a transition after a history of verdicts.
pub open spec fn judged(guards: Seq<Json>, history: Seq<bool>) -> GuardRunView
    decreases history.len(),
{
    if history.len() == 0 {
        GuardRunView { guards, evaluated: Seq::empty() }
    } else {
        judged(guards, history.drop_last()).after(history.last())
    }
}

/// What is kept of the guards that were judged: one entry for each verdict, in order, with the
/// kind of the guard and the verdict.
pub proof fn law_judged_guards_are_kept(guards: Seq<Json>, history: Seq<bool>)
    requires
        history.len() <= guards.len(),
    ensures
        judged(guards, history).guards == guards,
        judged(guards, history).evaluated.len() == history.len(),
        forall|k: int|
            0 <= k < history.len() ==> (#[trigger] judged(guards, history).evaluated[k]).get(
                "result"@,
            ) == Some(Json::Bool(history[k])) && (guards[k].str_at("kind"@) matches Some(kind)
                ==> judged(guards, history).evaluated[k].get("kind"@) == Some(
                Json::String(kind),
            )),
    decreases history.len(),
{
    json::lemma_reads();
    reveal_strlit("kind");
    reveal_strlit("result");
    assert("kind"@.len() == 4 && "result"@.len() == 6);
    if history.len() > 0 {
        law_judged_guards_are_kept(guards, history.drop_last());
        let run = judged(guards, history);
        let before = judged(guards, history.drop_last());
        assert forall|k: int| 0 <= k < history.len() implies (#[trigger] run.evaluated[k]).get(
            "result"@,
        ) == Some(Json::Bool(history[k])) && (guards[k].str_at("kind"@) matches Some(kind)
            ==> run.evaluated[k].get("kind"@) == Some(Json::String(kind))) by {
            if k < history.len() - 1 {
                assert(run.evaluated[k] == before.evaluated[k]);
                assert(history.drop_last()[k] == history[k]);
            }
        }
    }
}

/// The guards of a transition pass exactly where every one of them was judged and passed; the
/// first that does not pass settles the run.
pub proof fn law_guards_pass_together(
    guards: Seq<Json>,
    history: Seq<bool>,
    pass: bool,
    diagnostic: Option<Seq<char>>,
)
    requires
        history.len() < guards.len(),
        forall|k: int| 0 <= k < history.len() ==> #[trigger] history[k],
    ensures
        ({
            let o = judged(guards, history).outcome(pass, diagnostic);
            &&& (o matches Some(x) && x.pass) <==> pass && history.len() + 1 == guards.len()
            &&& (o matches Some(x) && !x.pass) <==> !pass
            &&& o matches Some(x) ==> x.evaluated.len() == history.len() + 1 && x.evaluated
                == judged(guards, history.push(pass)).evaluated
        }),
{
    law_judged_guards_are_kept(guards, history);
    assert(history.push(pass).drop_last() =~= history);
}

// ---------------------------------------------------------------------------
// Skills
// ---------------------------------------------------------------------------

proof fn lemma_refs_after(
    items: Seq<Json>,
    n: int,
    definition: Json,
    start: (Seq<Seq<char>>, Seq<Json>),
)
    requires
        0 <= n <= items.len(),
    ensures
        ({
            let (seen, out) = runtime_links::refs_after(items, n, definition, start);
            &&& forall|s: Seq<char>|
                start.0.contains(s) ==> #[trigger] seen.contains(s)
            &&& forall|r: Json| start.1.contains(r) ==> #[trigger] out.contains(r)
            &&& forall|k: int|
                0 <= k < n ==> ((#[trigger] items[k]) matches Json::String(s) ==> seen.contains(s))
            &&& forall|s: Seq<char>, verb: Seq<char>|
                #![trigger runtime_links::skill_ref(verb, s)]
                seen.contains(s) && !start.0.contains(s) && runtime_links::skill_verb(definition, s)
                    == Some(verb) ==> out.contains(runtime_links::skill_ref(verb, s))
            &&& forall|j: int|
                0 <= j < out.len() ==> start.1.contains(#[trigger] out[j]) || exists|
                    k: int,
                    s: Seq<char>,
                    verb: Seq<char>,
                |
                    0 <= k < n && #[trigger] items[k] == Json::String(s)
                        && runtime_links::skill_verb(definition, s) == Some(verb) && out[j]
                        == #[trigger] runtime_links::skill_ref(verb, s)
        }),
    decreases n,
{
    if n <= 0 {
        assert forall|j: int| 0 <= j < start.1.len() implies start.1.contains(
            #[trigger] start.1[j],
        ) by {}
    } else {
        lemma_refs_after(items, n - 1, definition, start);
        let (seen0, out0) = runtime_links::refs_after(items, n - 1, definition, start);
        let (seen, out) = runtime_links::refs_after(items, n, definition, start);
        assert forall|s: Seq<char>| seen0.contains(s) implies #[trigger] seen.contains(s) by {
            let p = choose|p: int| 0 <= p < seen0.len() && seen0[p] == s;
            assert(seen[p] == s);
        }
        assert forall|r: Json| out0.contains(r) implies #[trigger] out.contains(r) by {
            let p = choose|p: int| 0 <= p < out0.len() && out0[p] == r;
            assert(out[p] == r);
        }
        let item = items[n - 1];
        if let Json::String(t) = item {
            assert(seen.contains(t)) by {
                if !seen0.contains(t) {
                    assert(seen[seen0.len() as int] == t);
                }
            }
            assert forall|s: Seq<char>, verb: Seq<char>|
                #![trigger runtime_links::skill_ref(verb, s)]
                seen.contains(s) && !start.0.contains(s) && runtime_links::skill_verb(definition, s)
                    == Some(verb) implies out.contains(runtime_links::skill_ref(verb, s)) by {
                if seen0.contains(s) {
                    assert(out0.contains(runtime_links::skill_ref(verb, s)));
                } else {
                    let p = choose|p: int| 0 <= p < seen.len() && seen[p] == s;
                    if p < seen0.len() {
                        assert(seen0[p] == s);
                    }
                    assert(s == t);
                    assert(out[out0.len() as int] == runtime_links::skill_ref(verb, s));
                }
            }
        }
        assert forall|j: int| 0 <= j < out.len() implies start.1.contains(#[trigger] out[j])
            || exists|k: int, s: Seq<char>, verb: Seq<char>|
            0 <= k < n && #[trigger] items[k] == Json::String(s) && runtime_links::skill_verb(
                definition,
                s,
            ) == Some(verb) && out[j] == #[trigger] runtime_links::skill_ref(verb, s) by {
            if j < out0.len() {
                let r = out0[j];
                assert(out[j] == r);
                if !start.1.contains(r) {
                    let (k, s, verb) = choose|k: int, s: Seq<char>, verb: Seq<char>|
                        0 <= k < n - 1 && #[trigger] items[k] == Json::String(s)
                            && runtime_links::skill_verb(definition, s) == Some(verb) && r
                            == #[trigger] runtime_links::skill_ref(verb, s);
                    assert(items[k] == Json::String(s) && out[j] == runtime_links::skill_ref(
                        verb,
                        s,
                    ));
                }
            } else if let Json::String(t) = item {
                let verb = runtime_links::skill_verb(definition, t)->0;
                assert(items[n - 1] == Json::String(t) && out[j] == runtime_links::skill_ref(
                    verb,
                    t,
                ));
            }
        }
    }
}

/// A scope refers to exactly the skills that it names and that the library of the workflow
/// knows, each with its verb.
pub proof fn law_skills_are_those_named(items: Seq<Json>, definition: Json, k: int, j: int)
    ensures
        ({
            let refs = runtime_links::skill_refs(Some(Json::Array(items)), definition);
            &&& 0 <= k < items.len() ==> (items[k] matches Json::String(s) ==> (
            definition.get("_skillsLibrary"@) matches Some(library) ==> (library.get(s)
                matches Some(entry) ==> (entry.str_at("verb"@) matches Some(verb) ==> refs.contains(
                Json::empty().with("verb"@, Json::String(verb)).with("subject"@, Json::String(s)),
            )))))
            &&& 0 <= j < refs.len() ==> exists|i: int, s: Seq<char>, verb: Seq<char>|
                0 <= i < items.len() && #[trigger] items[i] == Json::String(s)
                    && runtime_links::skill_verb(definition, s) == Some(verb) && refs[j]
                    == #[trigger] runtime_links::skill_ref(verb, s)
        }),
{
    let start = (Seq::<Seq<char>>::empty(), Seq::<Json>::empty());
    lemma_refs_after(items, items.len() as int, definition, start);
    let refs = runtime_links::skill_refs(Some(Json::Array(items)), definition);
    if 0 <= k < items.len() {
        if let Json::String(s) = items[k] {
            if let Some(verb) = runtime_links::skill_verb(definition, s) {
                assert(refs.contains(runtime_links::skill_ref(verb, s)));
            }
        }
    }
    if 0 <= j < refs.len() {
        let r = refs[j];
        assert(!start.1.contains(r));
    }
}

/// The guidance of a state refers to the skills that the workflow names and to those that the
/// state names, where the library of the workflow knows them, and to no others.
pub proof fn law_guidance_is_of_the_workflow_and_the_state(
    definition: Json,
    state_def: Json,
    a: Seq<Json>,
    b: Seq<Json>,
    s: Seq<char>,
    verb: Seq<char>,
    j: int,
)
    requires
        definition.get("skills"@) == Some(Json::Array(a)),
        state_def.get("skills"@) == Some(Json::Array(b)),
    ensures
        ({
            let refs = runtime_links::guidance_refs(definition, Some(state_def));
            &&& (a.contains(Json::String(s)) || b.contains(Json::String(s)))
                && runtime_links::skill_verb(definition, s) == Some(verb) ==> refs.contains(
                Json::empty().with("verb"@, Json::String(verb)).with("subject"@, Json::String(s)),
            )
            &&& 0 <= j < refs.len() ==> exists|t: Seq<char>, v: Seq<char>|
                (a.contains(Json::String(t)) || b.contains(Json::String(t)))
                    && runtime_links::skill_verb(definition, t) == Some(v) && refs[j]
                    == #[trigger] runtime_links::skill_ref(v, t)
        }),
{
    let start = (Seq::<Seq<char>>::empty(), Seq::<Json>::empty());
    let first = runtime_links::refs_after(a, a.len() as int, definition, start);
    let second = runtime_links::refs_after(b, b.len() as int, definition, first);
    lemma_refs_after(a, a.len() as int, definition, start);
    lemma_refs_after(b, b.len() as int, definition, first);
    let refs = second.1;
    let r = runtime_links::skill_ref(verb, s);
    if (a.contains(Json::String(s)) || b.contains(Json::String(s))) && runtime_links::skill_verb(
        definition,
        s,
    ) == Some(verb) {
        if a.contains(Json::String(s)) {
            let k = choose|k: int| 0 <= k < a.len() && a[k] == Json::String(s);
            assert(a[k] == Json::String(s));
            assert(first.0.contains(s));
        }
        if b.contains(Json::String(s)) {
            let k = choose|k: int| 0 <= k < b.len() && b[k] == Json::String(s);
            assert(b[k] == Json::String(s));
            assert(second.0.contains(s));
        }
        if first.0.contains(s) {
            assert(first.1.contains(r));
        }
        assert(refs.contains(r));
    }
    if 0 <= j < refs.len() {
        assert(first.1.contains(refs[j]) || !first.1.contains(refs[j]));
        if first.1.contains(refs[j]) {
            let i = choose|i: int| 0 <= i < first.1.len() && first.1[i] == refs[j];
            assert(!start.1.contains(first.1[i]));
            let (k, t, v) = choose|k: int, t: Seq<char>, v: Seq<char>|
                0 <= k < a.len() && #[trigger] a[k] == Json::String(t)
                    && runtime_links::skill_verb(definition, t) == Some(v) && first.1[i]
                    == #[trigger] runtime_links::skill_ref(v, t);
            assert(a.contains(Json::String(t)));
            assert(refs[j] == runtime_links::skill_ref(v, t));
        } else {
            let (k, t, v) = choose|k: int, t: Seq<char>, v: Seq<char>|
                0 <= k < b.len() && #[trigger] b[k] == Json::String(t)
                    && runtime_links::skill_verb(definition, t) == Some(v) && refs[j]
                    == #[trigger] runtime_links::skill_ref(v, t);
            assert(b.contains(Json::String(t)));
            assert(refs[j] == runtime_links::skill_ref(v, t));
        }
    }
}

// ---------------------------------------------------------------------------
// Explanations
// ---------------------------------------------------------------------------

/// An explanation says whether the transition can be taken from the current state, who takes
/// it, and which transitions there are.
pub proof fn law_explanations_tell_what_is_legal(i: InstanceView, transition: Seq<char>)
    ensures
        ({
            let x = runtime::explanation(i, transition);
            let t = runtime_links::transition_of(i.definition, i.state, transition);
            &&& x.get("workflowId"@) == Some(Json::String(i.id))
            &&& x.get("currentState"@) == Some(Json::String(i.state))
            &&& x.get("transition"@) == Some(Json::String(transition))
            &&& x.get("allowedFromCurrentState"@) == Some(Json::Bool(t is Some))
            &&& t matches Some(d) ==> (d.str_at("actor"@) matches Some(a) ==> x.get("actor"@)
                == Some(Json::String(a)) && x.get("deterministic"@) == Some(
                Json::Bool(a == "deterministic"@),
            ))
            &&& runtime_links::transitions_of(i.definition, i.state) matches Some(ts) ==> (x.get(
                "legalTransitionsNow"@,
            ) matches Some(Json::Array(names)) && names.len() == ts.len() && forall|k: int|
                0 <= k < ts.len() ==> #[trigger] names[k] == Json::String(ts[k].0))
        }),
{
    json::lemma_reads();
    reveal_strlit("workflowId");
    reveal_strlit("currentState");
    reveal_strlit("transition");
    reveal_strlit("allowedFromCurrentState");
    reveal_strlit("actor");
    reveal_strlit("deterministic");
    reveal_strlit("legalTransitionsNow");
    assert("workflowId"@.len() == 10 && "workflowId"@[0] == 'w' && "currentState"@.len() == 12
        && "transition"@.len() == 10 && "transition"@[0] == 't'
        && "allowedFromCurrentState"@.len() == 23 && "actor"@.len() == 5
        && "deterministic"@.len() == 13 && "legalTransitionsNow"@.len() == 19);
}

} // verus!
