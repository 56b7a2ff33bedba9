//! What resolution writes into a configuration: laws about which fragments, questions and
//! bindings a workflow holds in the end.
use crate::config;
use crate::config_check;
use crate::config_hash;
use crate::config_stamp;
use crate::json;
use crate::json::{Json, Number};
use crate::validate_findings;
use crate::validate_rules;
use crate::validate_steps;
use vstd::prelude::*;

verus! {

// ---------------------------------------------------------------------------
// Mapping
// ---------------------------------------------------------------------------

/// What is done to each entry under a key is done to each of them, in place, and to nothing
/// else.
pub proof fn law_each_entry_is_mapped(
    v: Json,
    key: Seq<char>,
    f: spec_fn(Seq<char>, Json) -> Json,
    e: Seq<(Seq<char>, Json)>,
    other: Seq<char>,
)
    requires
        v.get(key) == Some(Json::Object(e)),
    ensures
        ({
            let m = config_stamp::over(v, key, f);
            &&& other != key ==> m.get(other) == v.get(other)
            &&& m.get(key) matches Some(Json::Object(d)) && d.len() == e.len() && forall|i: int|
                0 <= i < e.len() ==> (#[trigger] d[i]).0 == e[i].0 && d[i].1 == f(e[i].0, e[i].1)
        }),
{
    reveal(Json::get);
    let m = config_stamp::mapped(e, f);
    json::lemma_reads();
    assert(v is Object);
    assert(config_stamp::over(v, key, f) == v.with(key, Json::Object(m)));
    assert forall|i: int| 0 <= i < e.len() implies (#[trigger] m[i]).0 == e[i].0 && m[i].1 == f(
        e[i].0,
        e[i].1,
    ) by {}
}

/// A definition without a version gets version `0`, and keeps everything else; one with a
/// version stays as it is.
pub proof fn law_versions_are_filled_in(id: Seq<char>, def: Json, other: Seq<char>)
    requires
        def is Object,
    ensures
        ({
            let d = config_stamp::versioned()(id, def);
            &&& def.get("version"@) is Some ==> d == def
            &&& def.get("version"@) is None ==> d.str_at("version"@) == Some("0"@)
            &&& other != "version"@ ==> d.get(other) == def.get(other)
        }),
{
    json::lemma_reads();
}

// ---------------------------------------------------------------------------
// Libraries
// ---------------------------------------------------------------------------

proof fn lemma_scoped(lib: Json, subjects: Seq<Seq<char>>, n: int, subject: Seq<char>)
    requires
        0 <= n <= subjects.len(),
    ensures
        config_stamp::scoped(lib, subjects, n) is Object,
        config_stamp::scoped(lib, subjects, n).get(subject) == (if named_among(
            subjects,
            n,
            subject,
        ) {
            lib.get(subject)
        } else {
            None
        }),
    decreases n,
{
    json::lemma_reads();
    if n > 0 {
        lemma_scoped(lib, subjects, n - 1, subject);
        if subjects[n - 1] == subject {
            assert(named_among(subjects, n, subject));
        }
        if named_among(subjects, n - 1, subject) {
            let i = choose|i: int| 0 <= i < n - 1 && #[trigger] subjects[i] == subject;
            assert(subjects[i] == subject);
            assert(named_among(subjects, n, subject));
        }
        if named_among(subjects, n, subject) && subjects[n - 1] != subject {
            let i = choose|i: int| 0 <= i < n && #[trigger] subjects[i] == subject;
            assert(subjects[i] == subject);
            assert(named_among(subjects, n - 1, subject));
        }
    }
}

/// The subject is one of the first `n`.
pub open spec fn named_among(subjects: Seq<Seq<char>>, n: int, subject: Seq<char>) -> bool {
    exists|i: int| 0 <= i < n && #[trigger] subjects[i] == subject
}

/// A definition holds exactly those fragments of a library that it refers to, and everything
/// else of it stays as it is.
pub proof fn law_definitions_hold_what_they_refer_to(
    def: Json,
    key: Seq<char>,
    lib: Json,
    subjects: Seq<Seq<char>>,
    subject: Seq<char>,
    other: Seq<char>,
)
    requires
        def is Object,
        named_among(subjects, subjects.len() as int, subject),
        lib.get(subject) is Some,
    ensures
        ({
            let d = config_stamp::stamped(def, key, lib, subjects);
            &&& d.get(key) matches Some(part) && part.get(subject) == lib.get(subject) && forall|
                s: Seq<char>,
            |
                (#[trigger] part.get(s)) is Some ==> named_among(
                    subjects,
                    subjects.len() as int,
                    s,
                ) && part.get(s) == lib.get(s)
            &&& other != key ==> d.get(other) == def.get(other)
        }),
{
    json::lemma_reads();
    let n = subjects.len() as int;
    let part = config_stamp::scoped(lib, subjects, n);
    lemma_scoped(lib, subjects, n, subject);
    assert(part != Json::empty());
    assert forall|s: Seq<char>| (#[trigger] part.get(s)) is Some implies named_among(subjects, n, s)
        && part.get(s) == lib.get(s) by {
        lemma_scoped(lib, subjects, n, s);
    }
}

/// A fragment says the verb, the lifecycle, the body, the hash and where it comes from; that
/// is the configuration where nothing else is said.
pub proof fn law_fragments_say_what_they_are(
    verb: Seq<char>,
    lifecycle: Seq<char>,
    body: Seq<char>,
    hash: Seq<char>,
    entry: Json,
)
    ensures
        ({
            let f = config_stamp::fragment(
                verb,
                lifecycle,
                body,
                hash,
                config_stamp::source_name(entry),
            );
            &&& f.str_at("verb"@) == Some(verb)
            &&& f.str_at("lifecycle"@) == Some(lifecycle)
            &&& f.str_at("body"@) == Some(body)
            &&& f.str_at("hash"@) == Some(hash)
            &&& entry.str_at("source"@) is Some ==> f.str_at("source"@) == entry.str_at("source"@)
            &&& entry.str_at("source"@) is None ==> f.str_at("source"@) == Some("config"@)
        }),
{
    json::lemma_reads();
    reveal_strlit("verb");
    reveal_strlit("lifecycle");
    reveal_strlit("body");
    reveal_strlit("hash");
    reveal_strlit("source");
    assert("verb"@.len() == 4 && "verb"@[0] == 'v' && "lifecycle"@.len() == 9 && "body"@.len() == 4
        && "body"@[0] == 'b' && "hash"@.len() == 4 && "hash"@[0] == 'h' && "source"@.len() == 6);
}

/// No other entry has the key.
pub open spec fn single(e: Seq<(Seq<char>, Json)>, i: int) -> bool {
    forall|j: int| 0 <= j < e.len() && j != i ==> (#[trigger] e[j]).0 != e[i].0
}

proof fn lemma_skills_library(e: Seq<(Seq<char>, Json)>, n: int, i: int)
    requires
        0 <= n <= e.len(),
        0 <= i < e.len(),
        single(e, i),
    ensures
        config_stamp::skills_library(e, n) is Object,
        config_stamp::skills_library(e, n).get(e[i].0) == (if i < n {
            skill_held(e[i].1)
        } else {
            None
        }),
    decreases n,
{
    json::lemma_reads();
    if n > 0 {
        lemma_skills_library(e, n - 1, i);
    }
}

/// What the library holds of a skill: nothing of an incomplete one.
pub open spec fn skill_held(entry: Json) -> Option<Json> {
    if entry.str_at("verb"@) is Some && entry.str_at("lifecycle"@) is Some && entry.str_at(
        "body"@,
    ) is Some {
        Some(
            config_stamp::fragment(
                entry.str_at("verb"@)->0,
                entry.str_at("lifecycle"@)->0,
                entry.str_at("body"@)->0,
                config_hash::skill_hash(entry.str_at("body"@)->0),
                config_stamp::source_name(entry),
            ),
        )
    } else {
        None
    }
}

/// The library of skills holds each complete skill under its subject, with the hash of its
/// body.
pub proof fn law_skills_are_in_the_library(e: Seq<(Seq<char>, Json)>, i: int)
    requires
        0 <= i < e.len(),
        single(e, i),
    ensures
        config_stamp::skills_library(e, e.len() as int).get(e[i].0) == skill_held(e[i].1),
{
    lemma_skills_library(e, e.len() as int, i);
}

/// The scope lists the skill.
pub open spec fn lists(scope: Json, name: Seq<char>) -> bool {
    exists|i: int|
        0 <= i < scope.items_at("skills"@).len() && #[trigger] scope.items_at("skills"@)[i]
            == Json::String(name)
}

proof fn lemma_lists(scope: Json, name: Seq<char>)
    ensures
        config_stamp::skill_names(scope).contains(name) <==> lists(scope, name),
{
    let items = scope.items_at("skills"@);
    validate_findings::lemma_strings(items, items.len() as int, name);
    if config_stamp::skill_names(scope).contains(name) {
        let i = choose|i: int| 0 <= i < items.len() && (#[trigger] items[i]).as_str() == Some(name);
        assert(items[i] == Json::String(name));
    }
    if lists(scope, name) {
        let i = choose|i: int| 0 <= i < items.len() && #[trigger] items[i] == Json::String(name);
        assert(items[i].as_str() == Some(name));
    }
}

proof fn lemma_transition_skills(ts: Seq<(Seq<char>, Json)>, n: int, name: Seq<char>)
    requires
        0 <= n <= ts.len(),
    ensures
        config_stamp::transition_skills(ts, n).contains(name) <==> exists|i: int|
            0 <= i < n && lists((#[trigger] ts[i]).1, name),
    decreases n,
{
    if n > 0 {
        lemma_transition_skills(ts, n - 1, name);
        lemma_lists(ts[n - 1].1, name);
        validate_steps::lemma_key_sum(
            config_stamp::transition_skills(ts, n - 1),
            config_stamp::skill_names(ts[n - 1].1),
            name,
        );
        if lists(ts[n - 1].1, name) {
            assert(lists(ts[n - 1].1, name));
        }
    }
}

/// The state lists the skill, or one of its transitions does.
pub open spec fn state_lists(s: Json, name: Seq<char>) -> bool {
    lists(s, name) || exists|i: int|
        0 <= i < s.entries_at("transitions"@).len() && lists(
            (#[trigger] s.entries_at("transitions"@)[i]).1,
            name,
        )
}

proof fn lemma_state_skills(e: Seq<(Seq<char>, Json)>, n: int, name: Seq<char>)
    requires
        0 <= n <= e.len(),
    ensures
        config_stamp::state_skills(e, n).contains(name) <==> exists|i: int|
            0 <= i < n && state_lists((#[trigger] e[i]).1, name),
    decreases n,
{
    if n > 0 {
        let ts = e[n - 1].1.entries_at("transitions"@);
        lemma_state_skills(e, n - 1, name);
        lemma_lists(e[n - 1].1, name);
        lemma_transition_skills(ts, ts.len() as int, name);
        let a = config_stamp::state_skills(e, n - 1);
        let b = config_stamp::skill_names(e[n - 1].1);
        validate_steps::lemma_key_sum(a, b, name);
        validate_steps::lemma_key_sum(
            a + b,
            config_stamp::transition_skills(ts, ts.len() as int),
            name,
        );
        if state_lists(e[n - 1].1, name) {
            assert(state_lists(e[n - 1].1, name));
        }
    }
}

/// A definition refers to the skills that it lists itself, or that a state or a transition of
/// it lists.
pub proof fn law_skills_that_are_referred_to(def: Json, name: Seq<char>)
    ensures
        ({
            let e = def.entries_at("states"@);
            config_stamp::referenced_skills(def).contains(name) <==> lists(def, name) || exists|
                i: int,
            |
                0 <= i < e.len() && state_lists((#[trigger] e[i]).1, name)
        }),
{
    let e = def.entries_at("states"@);
    lemma_lists(def, name);
    lemma_state_skills(e, e.len() as int, name);
    validate_steps::lemma_key_sum(
        config_stamp::skill_names(def),
        config_stamp::state_skills(e, e.len() as int),
        name,
    );
}

// ---------------------------------------------------------------------------
// Scripts
// ---------------------------------------------------------------------------

/// A script whose body stands in the configuration is held with that body and its hash. One
/// that is fetched is held with the body that was fetched, exactly where that has the declared
/// hash; without a body, or with another, it is refused.
pub proof fn law_only_the_declared_body_is_held(
    subject: Seq<char>,
    entry: Json,
    bodies: Json,
    verb: Seq<char>,
    lifecycle: Seq<char>,
)
    requires
        entry.str_at("verb"@) == Some(verb),
        entry.str_at("lifecycle"@) == Some(lifecycle),
    ensures
        ({
            let r = config_stamp::script_fragment(subject, entry, bodies);
            &&& entry.str_at("uri"@) is None ==> (entry.str_at("body"@) matches Some(b) ==> (
            r matches Ok(Some(f)) && f.str_at("body"@) == Some(b) && f.str_at("hash"@) == Some(
                config_hash::script_hash(b),
            ) && f.str_at("verb"@) == Some(verb) && f.str_at("lifecycle"@) == Some(lifecycle)))
            &&& entry.str_at("body"@) is None && entry.str_at("uri"@) is Some ==> {
                &&& r is Ok <==> (entry.str_at("hash"@) matches Some(h) && (bodies.str_at(
                    subject,
                ) matches Some(b) && config_hash::script_hash(b) == h))
                &&& r is Ok ==> (r matches Ok(Some(f)) && f.str_at("body"@) == bodies.str_at(
                    subject,
                ) && f.str_at("hash"@) == entry.str_at("hash"@) && f.str_at("verb"@) == Some(verb)
                    && f.str_at("lifecycle"@) == Some(lifecycle))
            }
        }),
{
    if let Some(b) = entry.str_at("body"@) {
        law_fragments_say_what_they_are(
            verb,
            lifecycle,
            b,
            config_hash::script_hash(b),
            entry,
        );
    }
    if let Some(h) = entry.str_at("hash"@) {
        if let Some(b) = bodies.str_at(subject) {
            law_fragments_say_what_they_are(verb, lifecycle, b, h, entry);
        }
    }
}

proof fn lemma_scripts_library(e: Seq<(Seq<char>, Json)>, bodies: Json, n: int, i: int)
    requires
        0 <= n <= e.len(),
        0 <= i < e.len(),
        single(e, i),
    ensures
        config_stamp::scripts_library(e, bodies, n) is Ok <==> forall|j: int|
            0 <= j < n ==> config_stamp::script_fragment((#[trigger] e[j]).0, e[j].1, bodies) is Ok,
        config_stamp::scripts_library(e, bodies, n) matches Ok(lib) ==> lib is Object && lib.get(
            e[i].0,
        ) == (if i < n {
            config_stamp::script_fragment(e[i].0, e[i].1, bodies)->Ok_0
        } else {
            None
        }),
    decreases n,
{
    json::lemma_reads();
    if n > 0 {
        lemma_scripts_library(e, bodies, n - 1, i);
    }
}

/// The library of scripts is there exactly where each script can be held, and holds each of
/// them under its subject.
pub proof fn law_scripts_are_in_the_library(e: Seq<(Seq<char>, Json)>, bodies: Json, i: int)
    requires
        0 <= i < e.len(),
        single(e, i),
    ensures
        ({
            let r = config_stamp::scripts_library(e, bodies, e.len() as int);
            &&& r is Ok <==> forall|j: int|
                0 <= j < e.len() ==> config_stamp::script_fragment(
                    (#[trigger] e[j]).0,
                    e[j].1,
                    bodies,
                ) is Ok
            &&& r matches Ok(lib) ==> lib.get(e[i].0) == config_stamp::script_fragment(
                e[i].0,
                e[i].1,
                bodies,
            )->Ok_0
        }),
{
    lemma_scripts_library(e, bodies, e.len() as int, i);
}

/// The value is an executor that runs the script.
pub open spec fn runs(x: Json, name: Seq<char>) -> bool {
    x.str_at("kind"@) == Some("script"@) && x.str_at("subject"@) == Some(name)
}

/// The scope holds, or is, an executor that runs the script.
pub open spec fn scope_runs(scope: Option<Json>, name: Seq<char>) -> bool {
    scope matches Some(v) && (if v.get("executor"@) is Some && v.get("executor"@)->0 is Object {
        runs(v.get("executor"@)->0, name)
    } else {
        runs(v, name)
    })
}

proof fn lemma_script_name(scope: Option<Json>, name: Seq<char>)
    ensures
        config_stamp::script_name(scope).contains(name) <==> scope_runs(scope, name),
{
    let s = config_stamp::script_name(scope);
    if s.len() > 0 {
        assert(s[0] == s[0]);
    }
    if scope_runs(scope, name) {
        assert(s[0] == name);
    }
}

/// The state runs the script on entering it, or one of its transitions runs it.
pub open spec fn state_runs(s: Json, name: Seq<char>) -> bool {
    scope_runs(s.get("onEnter"@), name) || exists|i: int|
        0 <= i < s.entries_at("transitions"@).len() && scope_runs(
            (#[trigger] s.entries_at("transitions"@)[i]).1.get("executor"@),
            name,
        )
}

proof fn lemma_transition_scripts(ts: Seq<(Seq<char>, Json)>, n: int, name: Seq<char>)
    requires
        0 <= n <= ts.len(),
    ensures
        config_stamp::transition_scripts(ts, n).contains(name) <==> exists|i: int|
            0 <= i < n && scope_runs((#[trigger] ts[i]).1.get("executor"@), name),
    decreases n,
{
    if n > 0 {
        lemma_transition_scripts(ts, n - 1, name);
        lemma_script_name(ts[n - 1].1.get("executor"@), name);
        validate_steps::lemma_key_sum(
            config_stamp::transition_scripts(ts, n - 1),
            config_stamp::script_name(ts[n - 1].1.get("executor"@)),
            name,
        );
        if scope_runs(ts[n - 1].1.get("executor"@), name) {
            assert(scope_runs(ts[n - 1].1.get("executor"@), name));
        }
    }
}

proof fn lemma_state_scripts(e: Seq<(Seq<char>, Json)>, n: int, name: Seq<char>)
    requires
        0 <= n <= e.len(),
    ensures
        config_stamp::state_scripts(e, n).contains(name) <==> exists|i: int|
            0 <= i < n && state_runs((#[trigger] e[i]).1, name),
    decreases n,
{
    if n > 0 {
        let ts = e[n - 1].1.entries_at("transitions"@);
        lemma_state_scripts(e, n - 1, name);
        lemma_script_name(e[n - 1].1.get("onEnter"@), name);
        lemma_transition_scripts(ts, ts.len() as int, name);
        let a = config_stamp::state_scripts(e, n - 1);
        let b = config_stamp::script_name(e[n - 1].1.get("onEnter"@));
        validate_steps::lemma_key_sum(a, b, name);
        validate_steps::lemma_key_sum(
            a + b,
            config_stamp::transition_scripts(ts, ts.len() as int),
            name,
        );
        if state_runs(e[n - 1].1, name) {
            assert(state_runs(e[n - 1].1, name));
        }
    }
}

/// A definition refers to the scripts that run on entering it or one of its states, or in a
/// transition.
pub proof fn law_scripts_that_are_referred_to(def: Json, name: Seq<char>)
    ensures
        ({
            let e = def.entries_at("states"@);
            config_stamp::referenced_scripts(def).contains(name) <==> scope_runs(
                def.get("onEnter"@),
                name,
            ) || exists|i: int| 0 <= i < e.len() && state_runs((#[trigger] e[i]).1, name)
        }),
{
    let e = def.entries_at("states"@);
    lemma_script_name(def.get("onEnter"@), name);
    lemma_state_scripts(e, e.len() as int, name);
    validate_steps::lemma_key_sum(
        config_stamp::script_name(def.get("onEnter"@)),
        config_stamp::state_scripts(e, e.len() as int),
        name,
    );
}

/// The scripts that are fetched are those with a uri and without a body.
pub proof fn law_scripts_that_are_fetched(
    e: Seq<(Seq<char>, Json)>,
    n: int,
    subject: Seq<char>,
    uri: Seq<char>,
)
    requires
        0 <= n <= e.len(),
    ensures
        config_stamp::remote_scripts(e, n).contains((subject, uri)) <==> exists|i: int|
            0 <= i < n && (#[trigger] e[i]).0 == subject && e[i].1.str_at("body"@) is None
                && e[i].1.str_at("uri"@) == Some(uri),
    decreases n,
{
    if n > 0 {
        law_scripts_that_are_fetched(e, n - 1, subject, uri);
        let before = config_stamp::remote_scripts(e, n - 1);
        let all = config_stamp::remote_scripts(e, n);
        let x = (subject, uri);
        if before.contains(x) {
            let i = choose|i: int| 0 <= i < before.len() && before[i] == x;
            assert(all[i] == x);
        }
        if e[n - 1].0 == subject && e[n - 1].1.str_at("body"@) is None && e[n - 1].1.str_at("uri"@)
            == Some(uri) {
            assert(all[before.len() as int] == x);
        }
        if all.contains(x) && !before.contains(x) {
            let i = choose|i: int| 0 <= i < all.len() && all[i] == x;
            if i < before.len() {
                assert(before[i] == x);
            }
            assert(e[n - 1].0 == subject);
        }
    }
}

// ---------------------------------------------------------------------------
// Questions
// ---------------------------------------------------------------------------

/// A question stays in its state, is put to a human, says that it is lightweight and how
/// often it may be put, and what it and its answer must say.
pub proof fn law_questions_are_put_to_a_human(state: Seq<char>, cap: u64)
    ensures
        ({
            let q = config_stamp::question(state, cap);
            &&& q.str_at("target"@) == Some(state)
            &&& q.str_at("actor"@) == Some("human"@)
            &&& q.bool_at("lightweight"@) == Some(true)
            &&& q.get("max_fires_per_visit"@) == Some(Json::Number(Number::PosInt(cap)))
            &&& q.get("inputSchema"@) == Some(config_stamp::question_schema())
            &&& q.get("outputSchema"@) == Some(config_stamp::answer_schema())
        }),
{
    json::lemma_reads();
    reveal(config_stamp::question);
    reveal_strlit("target");
    reveal_strlit("actor");
    reveal_strlit("purpose");
    reveal_strlit("lightweight");
    reveal_strlit("max_fires_per_visit");
    reveal_strlit("inputSchema");
    reveal_strlit("outputSchema");
    assert("target"@.len() == 6 && "actor"@.len() == 5 && "purpose"@.len() == 7
        && "lightweight"@.len() == 11 && "lightweight"@[0] == 'l' && "max_fires_per_visit"@.len()
        == 19 && "inputSchema"@.len() == 11 && "inputSchema"@[0] == 'i' && "outputSchema"@.len()
        == 12);
}

/// A question says what is asked, in which context, and what was tried before; an answer says
/// the answer.
pub proof fn law_questions_say_what_was_tried()
    ensures
        config_stamp::question_schema().get("required"@) == Some(
            Json::Array(
                seq![
                    Json::String("question"@),
                    Json::String("context_summary"@),
                    Json::String("attempted_alternatives"@),
                ],
            ),
        ),
        config_stamp::question_schema().str_at("type"@) == Some("object"@),
        config_stamp::answer_schema().get("required"@) == Some(
            Json::Array(seq![Json::String("answer"@)]),
        ),
        config_stamp::answer_schema().str_at("type"@) == Some("object"@),
{
    json::lemma_reads();
    reveal(config_stamp::question_schema);
    reveal(config_stamp::answer_schema);
    reveal_strlit("type");
    reveal_strlit("required");
    reveal_strlit("properties");
    assert("type"@.len() == 4 && "required"@.len() == 8 && "properties"@.len() == 10);
}

/// A state that is not terminal gets the question, unless it has one; its other transitions
/// stay, and a terminal state stays as it is.
pub proof fn law_states_ask_once(state: Seq<char>, s: Json, cap: u64, other: Seq<char>)
    requires
        s is Object,
        s.get("transitions"@) matches Some(t) ==> t is Object,
    ensures
        ({
            let a = config_stamp::asking_state(cap)(state, s);
            let asks = s.get("transitions"@) matches Some(t) && t.get("ask_human"@) is Some;
            &&& s.bool_at("terminal"@) == Some(true) || asks ==> a == s
            &&& !(s.bool_at("terminal"@) == Some(true) || asks) ==> (a.get("transitions"@)
                matches Some(t) && t.get("ask_human"@) == Some(config_stamp::question(state, cap))
                && (other != "ask_human"@ ==> t.get(other) == (match s.get("transitions"@) {
                Some(before) => before.get(other),
                None => None,
            })))
            &&& other != "transitions"@ ==> a.get(other) == s.get(other)
        }),
{
    json::lemma_reads();
}

/// Only a definition that enables questions gets them; how often each may be put is what it
/// says, or five times.
pub proof fn law_only_where_enabled(id: Seq<char>, def: Json)
    ensures
        def.bool_at("enable_human_ask"@) != Some(true) ==> config_stamp::asking()(id, def) == def,
        def.bool_at("enable_human_ask"@) == Some(true) ==> config_stamp::asking()(id, def)
            == config_stamp::over(
            def,
            "states"@,
            config_stamp::asking_state(config_stamp::ask_cap(def)),
        ),
        def.u64_at("human_ask_cap"@) matches Some(n) ==> config_stamp::ask_cap(def) == n,
        def.u64_at("human_ask_cap"@) is None ==> config_stamp::ask_cap(def) == 5,
{
}

// ---------------------------------------------------------------------------
// Bindings
// ---------------------------------------------------------------------------

proof fn lemma_bound_outputs(outs: Seq<(Seq<char>, Json)>, n: int, slot: Seq<char>)
    requires
        0 <= n <= outs.len(),
    ensures
        config_stamp::bound_outputs(outs, n) is Object,
        (forall|j: int| 0 <= j < n ==> !binds(#[trigger] outs[j], slot))
            ==> config_stamp::bound_outputs(outs, n).get(slot) is None,
    decreases n,
{
    json::lemma_reads();
    if n > 0 {
        lemma_bound_outputs(outs, n - 1, slot);
        if forall|j: int| 0 <= j < n ==> !binds(#[trigger] outs[j], slot) {
            assert(!binds(outs[n - 1], slot));
        }
    }
}

/// The binding fills the slot with an output.
pub open spec fn binds(x: (Seq<char>, Json), slot: Seq<char>) -> bool {
    x.1 is String && validate_rules::slot_tail(x.0) == Some(slot)
}

/// A slot gets the output that the last binding of it names, and one that is not bound gets
/// none.
pub proof fn law_bound_slots_are_filled(outs: Seq<(Seq<char>, Json)>, n: int, i: int, slot: Seq<char>)
    requires
        0 <= i < n <= outs.len(),
        binds(outs[i], slot),
        forall|j: int| i < j < n ==> !binds(#[trigger] outs[j], slot),
    ensures
        config_stamp::bound_outputs(outs, n) is Object,
        config_stamp::bound_outputs(outs, n).get(slot) == Some(
            Json::String("$.output."@ + outs[i].1->String_0),
        ),
    decreases n,
{
    json::lemma_reads();
    lemma_bound_outputs(outs, n - 1, slot);
    if i < n - 1 {
        assert(!binds(outs[n - 1], slot));
        law_bound_slots_are_filled(outs, n - 1, i, slot);
    }
}

/// A transition that runs no other workflow with a binding stays as it is. One that does
/// holds the outputs that the other declares, and keeps what else its executor says.
pub proof fn law_uses_hold_the_declared_outputs(
    t: Json,
    workflows: Json,
    x: Json,
    u: Json,
    id: Seq<char>,
    other: Seq<char>,
)
    requires
        t is Object,
        x is Object,
        t.get("executor"@) == Some(x),
        x.str_at("kind"@) == Some("workflow"@),
        x.get("use"@) == Some(u),
        x.str_at("definitionId"@) == Some(id),
    ensures
        ({
            let a = config_stamp::expanded(t, workflows);
            &&& a.get("executor"@) matches Some(y) && (config_stamp::snippet_schema(workflows, id)
                matches Some(d) ==> y.get("_snippetOutputs"@) == Some(d)) && (other
                != "_snippetOutputs"@ ==> y.get(other) == x.get(other))
            &&& other != "executor"@ && other != "output"@ ==> a.get(other) == t.get(other)
        }),
{
    json::lemma_reads();
    reveal_strlit("executor");
    reveal_strlit("output");
    assert("executor"@.len() == 8 && "output"@.len() == 6);
}

/// A transition whose executor is no workflow, or has no binding, stays as it is.
pub proof fn law_other_transitions_stay(t: Json, workflows: Json)
    ensures
        !(t.get("executor"@) matches Some(x) && x.str_at("kind"@) == Some("workflow"@) && x.get(
            "use"@,
        ) is Some && x.str_at("definitionId"@) is Some) ==> config_stamp::expanded(t, workflows)
            == t,
{
}

proof fn lemma_overlaid(o: Json, e: Seq<(Seq<char>, Json)>, n: int, key: Seq<char>)
    requires
        o is Object,
        0 <= n <= e.len(),
    ensures
        config_stamp::overlaid(o, e, n) is Object,
        (forall|j: int| 0 <= j < n ==> (#[trigger] e[j]).0 != key) ==> config_stamp::overlaid(
            o,
            e,
            n,
        ).get(key) == o.get(key),
    decreases n,
{
    json::lemma_reads();
    if n > 0 {
        lemma_overlaid(o, e, n - 1, key);
    }
}

proof fn lemma_overlaid_last(o: Json, e: Seq<(Seq<char>, Json)>, n: int, i: int)
    requires
        o is Object,
        0 <= i < n <= e.len(),
        single(e, i),
    ensures
        config_stamp::overlaid(o, e, n).get(e[i].0) == Some(e[i].1),
    decreases n,
{
    json::lemma_reads();
    lemma_overlaid(o, e, n - 1, e[i].0);
    if i < n - 1 {
        lemma_overlaid_last(o, e, n - 1, i);
    }
}

/// What a transition maps itself goes before what its binding says; a slot that it does not
/// map is filled as the binding says.
pub proof fn law_own_outputs_go_first(
    t: Json,
    workflows: Json,
    x: Json,
    u: Json,
    id: Seq<char>,
    outs: Seq<(Seq<char>, Json)>,
    own: Seq<(Seq<char>, Json)>,
    i: int,
    slot: Seq<char>,
)
    requires
        t is Object,
        t.get("executor"@) == Some(x),
        x.str_at("kind"@) == Some("workflow"@),
        x.get("use"@) == Some(u),
        x.str_at("definitionId"@) == Some(id),
        u.get("outputs"@) == Some(Json::Object(outs)),
        t.get("output"@) == Some(Json::Object(own)),
        0 <= i < own.len(),
        single(own, i),
    ensures
        ({
            let a = config_stamp::expanded(t, workflows);
            a.get("output"@) matches Some(m) && m.get(own[i].0) == Some(own[i].1) && ((forall|
                j: int,
            |
                0 <= j < own.len() ==> (#[trigger] own[j]).0 != slot) ==> m.get(slot)
                == config_stamp::bound_outputs(outs, outs.len() as int).get(slot))
        }),
{
    json::lemma_reads();
    reveal_strlit("executor");
    reveal_strlit("output");
    assert("executor"@.len() == 8 && "output"@.len() == 6);
    let b = config_stamp::bound_outputs(outs, outs.len() as int);
    lemma_bound_outputs(outs, outs.len() as int, slot);
    lemma_overlaid_last(b, own, own.len() as int, i);
    lemma_overlaid(b, own, own.len() as int, slot);
}

// ---------------------------------------------------------------------------
// Resolution
// ---------------------------------------------------------------------------

/// A configuration is accepted exactly where its skills, its scripts, its flags, its
/// delegates and its preferences are.
pub proof fn law_all_checks_are_made(c: Json, roots: Seq<Seq<char>>)
    ensures
        config::checks(c, roots) is Ok <==> {
            &&& config_check::skills_outcome(c) is Ok
            &&& config_check::scripts_outcome(c, roots) is Ok
            &&& config_check::flag_scope_fault(c) is None
            &&& config_check::delegates_fault(c) is None
            &&& config_check::preferences_fault(c) is None
        },
        config::checks(c, roots) matches Ok(d) ==> d == config_check::skills_outcome(c)->Ok_0
            + config_check::scripts_outcome(c, roots)->Ok_0,
{
}

/// A configuration is resolved only where it is accepted with its versions filled in, and
/// what was found of it is handed on.
pub proof fn law_only_accepted_configurations_are_resolved(
    config: Json,
    roots: Seq<Seq<char>>,
    bodies: Json,
)
    ensures
        config::resolution(config, roots, bodies) matches Ok(r) ==> {
            &&& config::flattened(config) is Ok
            &&& config::checks(
                config_stamp::over(
                    config::flattened(config)->Ok_0,
                    "workflows"@,
                    config_stamp::versioned(),
                ),
                roots,
            ) == Ok::<Seq<config_check::FindingView>, Seq<char>>(r.1)
        },
{
}

} // verus!
