//! What resolution writes into workflows stays as it is when it is written again.
use crate::config_capabilities;
use crate::config_check;
use crate::config_stamp;
use crate::json;
use crate::json::{Json, Number};
use crate::text;
use crate::validate_rules;
use vstd::prelude::*;

verus! {

// ---------------------------------------------------------------------------
// Mapped entries
// ---------------------------------------------------------------------------

/// A key is found in mapped entries where it is found in the entries, and its value is
/// the mapped one.
pub proof fn lemma_find_mapped(
    e: Seq<(Seq<char>, Json)>,
    f: spec_fn(Seq<char>, Json) -> Json,
    key: Seq<char>,
)
    ensures
        json::find(config_stamp::mapped(e, f), key) == (match json::find(e, key) {
            Some(v) => Some(f(key, v)),
            None => None,
        }),
    decreases e.len(),
{
    let m = config_stamp::mapped(e, f);
    if e.len() > 0 && e[0].0 != key {
        lemma_find_mapped(e.skip(1), f, key);
        assert(m.skip(1) =~= config_stamp::mapped(e.skip(1), f));
    }
}

/// The mapping keeps what it is given well-formed.
pub open spec fn keeps_wf(f: spec_fn(Seq<char>, Json) -> Json) -> bool {
    forall|k: Seq<char>, v: Json| v.wf() ==> (#[trigger] f(k, v)).wf()
}

/// The mapping leaves every entry as it is.
pub open spec fn fixes(f: spec_fn(Seq<char>, Json) -> Json, e: Seq<(Seq<char>, Json)>) -> bool {
    forall|i: int| 0 <= i < e.len() ==> f((#[trigger] e[i]).0, e[i].1) == e[i].1
}

/// Mapped entries are well-formed where the mapping keeps that.
pub proof fn lemma_mapped_wf(e: Seq<(Seq<char>, Json)>, f: spec_fn(Seq<char>, Json) -> Json)
    requires
        Json::Object(e).wf(),
        keeps_wf(f),
    ensures
        Json::Object(config_stamp::mapped(e, f)).wf(),
{
    let m = config_stamp::mapped(e, f);
    assert forall|i: int| 0 <= i < m.len() implies (#[trigger] m[i]).1.wf() by {
        assert(e[i].1.wf());
        assert(f(e[i].0, e[i].1).wf());
    }
    assert forall|i: int, j: int| 0 <= i < j < m.len() implies text::text_lt(
        #[trigger] m[i].0,
        #[trigger] m[j].0,
    ) by {
        assert(text::text_lt(e[i].0, e[j].0));
    }
}

/// An object stays well-formed when it is mapped under a key.
pub proof fn lemma_over_wf(v: Json, key: Seq<char>, f: spec_fn(Seq<char>, Json) -> Json)
    requires
        v.wf(),
        keeps_wf(f),
    ensures
        config_stamp::over(v, key, f).wf(),
{
    json::lemma_get_wf(v, key);
    if let Some(e) = v.object_at(key) {
        lemma_mapped_wf(e, f);
        json::law_with_wf(v, key, Json::Object(config_stamp::mapped(e, f)));
    }
}

/// An object stays the same when it is mapped by what leaves the entries as they are.
pub proof fn lemma_over_fixed(v: Json, key: Seq<char>, f: spec_fn(Seq<char>, Json) -> Json)
    requires
        v.wf(),
        v.object_at(key) matches Some(e) ==> fixes(f, e),
    ensures
        config_stamp::over(v, key, f) == v,
{
    if let Some(e) = v.object_at(key) {
        let m = config_stamp::mapped(e, f);
        assert forall|i: int| 0 <= i < e.len() implies m[i] == #[trigger] e[i] by {
            assert(f(e[i].0, e[i].1) == e[i].1);
        }
        assert(m =~= e);
        json::law_with_same(v, key, Json::Object(e));
    }
}

/// The kind of a value that is mapped under a key stays.
pub proof fn lemma_over_object(v: Json, key: Seq<char>, f: spec_fn(Seq<char>, Json) -> Json)
    ensures
        config_stamp::over(v, key, f) is Object == (v is Object),
        !(v is Object) ==> config_stamp::over(v, key, f) == v,
{
    reveal(Json::get);
    if let Some(e) = v.object_at(key) {
        json::law_get_with(v, key, Json::Object(config_stamp::mapped(e, f)), key);
    }
}

/// Writing a new key puts it in at one place.
proof fn lemma_put_new<V>(e: Seq<(Seq<char>, V)>, key: Seq<char>, v: V) -> (j: int)
    requires
        json::find(e, key) is None,
    ensures
        0 <= j <= e.len(),
        json::put(e, key, v) == e.insert(j, (key, v)),
    decreases e.len(),
{
    if e.len() == 0 {
        assert(json::put(e, key, v) =~= e.insert(0, (key, v)));
        0
    } else if text::text_lt(key, e[0].0) {
        assert(json::put(e, key, v) =~= e.insert(0, (key, v)));
        0
    } else {
        let j = lemma_put_new(e.skip(1), key, v);
        assert(json::put(e, key, v) =~= e.insert(j + 1, (key, v)));
        j + 1
    }
}

// ---------------------------------------------------------------------------
// Libraries
// ---------------------------------------------------------------------------

proof fn lemma_empty_wf()
    ensures
        Json::empty().wf(),
        Json::empty() is Object,
{
}

proof fn lemma_with_wf(o: Json, key: Seq<char>, v: Json)
    requires
        o.wf(),
        o is Object,
        v.wf(),
    ensures
        o.with(key, v).wf(),
        o.with(key, v) is Object,
{
    json::law_with_wf(o, key, v);
    json::law_get_with(o, key, v, key);
}

proof fn lemma_with_text_wf(o: Json, key: Seq<char>, s: Seq<char>)
    requires
        o.wf(),
        o is Object,
    ensures
        o.with(key, Json::String(s)).wf(),
        o.with(key, Json::String(s)) is Object,
{
    lemma_with_wf(o, key, Json::String(s));
}

proof fn lemma_fragment_wf(
    verb: Seq<char>,
    lifecycle: Seq<char>,
    body: Seq<char>,
    hash: Seq<char>,
    source: Seq<char>,
)
    ensures
        config_stamp::fragment(verb, lifecycle, body, hash, source).wf(),
{
    lemma_empty_wf();
    let a = Json::empty().with("verb"@, Json::String(verb));
    lemma_with_text_wf(Json::empty(), "verb"@, verb);
    let b = a.with("lifecycle"@, Json::String(lifecycle));
    lemma_with_text_wf(a, "lifecycle"@, lifecycle);
    let c = b.with("body"@, Json::String(body));
    lemma_with_text_wf(b, "body"@, body);
    let d = c.with("hash"@, Json::String(hash));
    lemma_with_text_wf(c, "hash"@, hash);
    lemma_with_text_wf(d, "source"@, source);
}

/// The library of skills is well-formed.
pub proof fn lemma_skills_library_wf(e: Seq<(Seq<char>, Json)>, n: int)
    ensures
        config_stamp::skills_library(e, n).wf(),
        config_stamp::skills_library(e, n) is Object,
    decreases n,
{
    lemma_empty_wf();
    if n > 0 {
        lemma_skills_library_wf(e, n - 1);
        let (subject, entry) = e[n - 1];
        match (entry.str_at("verb"@), entry.str_at("lifecycle"@), entry.str_at("body"@)) {
            (Some(verb), Some(lifecycle), Some(body)) => {
                let hash = crate::config_hash::skill_hash(body);
                let source = config_stamp::source_name(entry);
                lemma_fragment_wf(verb, lifecycle, body, hash, source);
                lemma_with_wf(
                    config_stamp::skills_library(e, n - 1),
                    subject,
                    config_stamp::fragment(verb, lifecycle, body, hash, source),
                );
            },
            _ => {},
        }
    }
}

proof fn lemma_script_fragment_wf(subject: Seq<char>, entry: Json, bodies: Json)
    ensures
        config_stamp::script_fragment(subject, entry, bodies) matches Ok(Some(x)) ==> x.wf(),
{
    match (entry.str_at("verb"@), entry.str_at("lifecycle"@)) {
        (Some(verb), Some(lifecycle)) => {
            let source = config_stamp::source_name(entry);
            match (entry.str_at("body"@), entry.str_at("uri"@)) {
                (Some(b), None) => {
                    let hash = crate::config_hash::script_hash(b);
                    lemma_fragment_wf(verb, lifecycle, b, hash, source);
                },
                (None, Some(uri)) => {
                    if let Some(declared) = entry.str_at("hash"@) {
                        if let Some(body) = bodies.str_at(subject) {
                            lemma_fragment_wf(verb, lifecycle, body, declared, source);
                        }
                    }
                },
                _ => {},
            }
        },
        _ => {},
    }
}

/// The library of scripts is well-formed.
pub proof fn lemma_scripts_library_wf(e: Seq<(Seq<char>, Json)>, bodies: Json, n: int)
    ensures
        config_stamp::scripts_library(e, bodies, n) matches Ok(lib) ==> lib.wf() && lib is Object,
    decreases n,
{
    lemma_empty_wf();
    if n > 0 {
        lemma_scripts_library_wf(e, bodies, n - 1);
        lemma_script_fragment_wf(e[n - 1].0, e[n - 1].1, bodies);
        if let Ok(lib) = config_stamp::scripts_library(e, bodies, n - 1) {
            if let Ok(Some(x)) = config_stamp::script_fragment(e[n - 1].0, e[n - 1].1, bodies) {
                lemma_with_wf(lib, e[n - 1].0, x);
            }
        }
    }
}

proof fn lemma_scoped_wf(lib: Json, subjects: Seq<Seq<char>>, n: int)
    requires
        lib.wf(),
    ensures
        config_stamp::scoped(lib, subjects, n).wf(),
        config_stamp::scoped(lib, subjects, n) is Object,
    decreases n,
{
    lemma_empty_wf();
    if n > 0 {
        lemma_scoped_wf(lib, subjects, n - 1);
        json::lemma_get_wf(lib, subjects[n - 1]);
        if let Some(x) = lib.get(subjects[n - 1]) {
            lemma_with_wf(config_stamp::scoped(lib, subjects, n - 1), subjects[n - 1], x);
        }
    }
}

/// What stamping a library leaves of a definition.
pub proof fn lemma_stamped(
    def: Json,
    key: Seq<char>,
    lib: Json,
    subjects: Seq<Seq<char>>,
    other: Seq<char>,
)
    ensures
        config_stamp::stamped(def, key, lib, subjects) is Object == (def is Object),
        !(def is Object) ==> config_stamp::stamped(def, key, lib, subjects) == def,
        other != key ==> config_stamp::stamped(def, key, lib, subjects).get(other) == def.get(
            other,
        ),
        def.wf() && lib.wf() ==> config_stamp::stamped(def, key, lib, subjects).wf(),
{
    let part = config_stamp::scoped(lib, subjects, subjects.len() as int);
    if def is Object {
        json::law_get_with(def, key, part, other);
        if def.wf() && lib.wf() {
            lemma_scoped_wf(lib, subjects, subjects.len() as int);
            json::law_with_wf(def, key, part);
        }
    }
}

/// A definition that has a library stamped on it, and refers to the same things as
/// when it was stamped, stays as it is when it is stamped again.
pub proof fn law_stamping_twice(
    before: Json,
    def: Json,
    key: Seq<char>,
    lib: Json,
    subjects: Seq<Seq<char>>,
)
    requires
        def.wf(),
        def is Object == (before is Object),
        def.get(key) == config_stamp::stamped(before, key, lib, subjects).get(key),
    ensures
        config_stamp::stamped(def, key, lib, subjects) == def,
{
    let part = config_stamp::scoped(lib, subjects, subjects.len() as int);
    if def is Object && part != Json::empty() {
        json::law_get_with(before, key, part, key);
        json::law_with_same(def, key, part);
    }
}

// ---------------------------------------------------------------------------
// Questions
// ---------------------------------------------------------------------------

proof fn lemma_texts_wf(s: Seq<Json>)
    requires
        forall|i: int| 0 <= i < s.len() ==> (#[trigger] s[i]) is String,
    ensures
        Json::Array(s).wf(),
{
    assert forall|i: int| 0 <= i < s.len() implies (#[trigger] s[i]).wf() by {
        assert(s[i] is String);
    }
}

proof fn lemma_question_schema_wf()
    ensures
        config_stamp::question_schema().wf(),
{
    lemma_empty_wf();
    reveal(config_stamp::question_schema);
    lemma_with_wf(Json::empty(), "type"@, Json::String("object"@));
    let o1 = Json::empty().with("type"@, Json::String("object"@));
    let a2 = Json::Array(seq![Json::String("question"@), Json::String("context_summary"@), Json::String("attempted_alternatives"@)]);
    lemma_texts_wf(a2->Array_0);
    lemma_with_wf(o1, "required"@, a2);
    let o2 = o1.with("required"@, a2);
    lemma_with_wf(Json::empty(), "type"@, Json::String("string"@));
    let o3 = Json::empty().with("type"@, Json::String("string"@));
    lemma_with_wf(o3, "minLength"@, Json::Number(Number::PosInt(1)));
    let o4 = o3.with("minLength"@, Json::Number(Number::PosInt(1)));
    lemma_with_wf(o4, "maxLength"@, Json::Number(Number::PosInt(2000)));
    let o5 = o4.with("maxLength"@, Json::Number(Number::PosInt(2000)));
    lemma_with_wf(o5, "description"@, Json::String("The question for the human. Be specific; the human can't see your reasoning chain."@));
    let o6 = o5.with("description"@, Json::String("The question for the human. Be specific; the human can't see your reasoning chain."@));
    lemma_with_wf(Json::empty(), "question"@, o6);
    let o7 = Json::empty().with("question"@, o6);
    lemma_with_wf(Json::empty(), "type"@, Json::String("string"@));
    let o8 = Json::empty().with("type"@, Json::String("string"@));
    lemma_with_wf(o8, "minLength"@, Json::Number(Number::PosInt(1)));
    let o9 = o8.with("minLength"@, Json::Number(Number::PosInt(1)));
    lemma_with_wf(o9, "maxLength"@, Json::Number(Number::PosInt(1000)));
    let o10 = o9.with("maxLength"@, Json::Number(Number::PosInt(1000)));
    lemma_with_wf(o10, "description"@, Json::String("Brief context — what you're trying to do, what state you're in."@));
    let o11 = o10.with("description"@, Json::String("Brief context — what you're trying to do, what state you're in."@));
    lemma_with_wf(o7, "context_summary"@, o11);
    let o12 = o7.with("context_summary"@, o11);
    lemma_with_wf(Json::empty(), "type"@, Json::String("string"@));
    let o13 = Json::empty().with("type"@, Json::String("string"@));
    lemma_with_wf(o13, "minLength"@, Json::Number(Number::PosInt(1)));
    let o14 = o13.with("minLength"@, Json::Number(Number::PosInt(1)));
    lemma_with_wf(o14, "maxLength"@, Json::Number(Number::PosInt(1000)));
    let o15 = o14.with("maxLength"@, Json::Number(Number::PosInt(1000)));
    lemma_with_wf(o15, "description"@, Json::String("What you already tried (docs, scripts, other tools) before asking. Agents must demonstrate effort before interrupting humans."@));
    let o16 = o15.with("description"@, Json::String("What you already tried (docs, scripts, other tools) before asking. Agents must demonstrate effort before interrupting humans."@));
    lemma_with_wf(o12, "attempted_alternatives"@, o16);
    let o17 = o12.with("attempted_alternatives"@, o16);
    lemma_with_wf(o2, "properties"@, o17);
}

proof fn lemma_answer_schema_wf()
    ensures
        config_stamp::answer_schema().wf(),
{
    lemma_empty_wf();
    reveal(config_stamp::answer_schema);
    lemma_with_wf(Json::empty(), "type"@, Json::String("object"@));
    let o1 = Json::empty().with("type"@, Json::String("object"@));
    let a2 = Json::Array(seq![Json::String("answer"@)]);
    lemma_texts_wf(a2->Array_0);
    lemma_with_wf(o1, "required"@, a2);
    let o2 = o1.with("required"@, a2);
    lemma_with_wf(Json::empty(), "type"@, Json::String("string"@));
    let o3 = Json::empty().with("type"@, Json::String("string"@));
    lemma_with_wf(o3, "minLength"@, Json::Number(Number::PosInt(1)));
    let o4 = o3.with("minLength"@, Json::Number(Number::PosInt(1)));
    lemma_with_wf(o4, "description"@, Json::String("The human's answer."@));
    let o5 = o4.with("description"@, Json::String("The human's answer."@));
    lemma_with_wf(Json::empty(), "answer"@, o5);
    let o6 = Json::empty().with("answer"@, o5);
    lemma_with_wf(o2, "properties"@, o6);
}

/// The question that is added is well-formed, and refers to no skill and no script.
proof fn lemma_question(state: Seq<char>, cap: u64)
    ensures
        config_stamp::question(state, cap).wf(),
        config_stamp::question(state, cap).get("skills"@) is None,
        config_stamp::question(state, cap).get("executor"@) is None,
{
    reveal(config_stamp::question);
    lemma_empty_wf();
    lemma_question_schema_wf();
    lemma_answer_schema_wf();
    reveal_strlit("skills");
    reveal_strlit("executor");
    reveal_strlit("target");
    reveal_strlit("actor");
    reveal_strlit("purpose");
    reveal_strlit("lightweight");
    reveal_strlit("max_fires_per_visit");
    reveal_strlit("inputSchema");
    reveal_strlit("outputSchema");
    assert("target"@.len() == 6);
    assert("actor"@.len() == 5);
    assert("purpose"@.len() == 7);
    assert("lightweight"@.len() == 11);
    assert("max_fires_per_visit"@.len() == 19);
    assert("inputSchema"@.len() == 11);
    assert("outputSchema"@.len() == 12);
    assert("skills"@.len() == 6);
    assert("executor"@.len() == 8);
    assert("skills"@[0] == 's');
    assert("target"@[0] == 't');
    assert(Json::empty().get("skills"@) is None && Json::empty().get("executor"@) is None) by {
        reveal(Json::get);
    }
    let v0 = Json::String(state);
    let o0 = Json::empty().with("target"@, v0);
    lemma_with_wf(Json::empty(), "target"@, v0);
    json::law_get_with(Json::empty(), "target"@, v0, "skills"@);
    json::law_get_with(Json::empty(), "target"@, v0, "executor"@);
    let v1 = Json::String("human"@);
    let o1 = o0.with("actor"@, v1);
    lemma_with_wf(o0, "actor"@, v1);
    json::law_get_with(o0, "actor"@, v1, "skills"@);
    json::law_get_with(o0, "actor"@, v1, "executor"@);
    let v2 = Json::String("ask"@);
    let o2 = o1.with("purpose"@, v2);
    lemma_with_wf(o1, "purpose"@, v2);
    json::law_get_with(o1, "purpose"@, v2, "skills"@);
    json::law_get_with(o1, "purpose"@, v2, "executor"@);
    let v3 = Json::Bool(true);
    let o3 = o2.with("lightweight"@, v3);
    lemma_with_wf(o2, "lightweight"@, v3);
    json::law_get_with(o2, "lightweight"@, v3, "skills"@);
    json::law_get_with(o2, "lightweight"@, v3, "executor"@);
    let v4 = Json::Number(Number::PosInt(cap));
    let o4 = o3.with("max_fires_per_visit"@, v4);
    lemma_with_wf(o3, "max_fires_per_visit"@, v4);
    json::law_get_with(o3, "max_fires_per_visit"@, v4, "skills"@);
    json::law_get_with(o3, "max_fires_per_visit"@, v4, "executor"@);
    let v5 = config_stamp::question_schema();
    let o5 = o4.with("inputSchema"@, v5);
    lemma_with_wf(o4, "inputSchema"@, v5);
    json::law_get_with(o4, "inputSchema"@, v5, "skills"@);
    json::law_get_with(o4, "inputSchema"@, v5, "executor"@);
    let v6 = config_stamp::answer_schema();
    let o6 = o5.with("outputSchema"@, v6);
    lemma_with_wf(o5, "outputSchema"@, v6);
    json::law_get_with(o5, "outputSchema"@, v6, "skills"@);
    json::law_get_with(o5, "outputSchema"@, v6, "executor"@);
}

/// Putting in a transition that refers to no skill adds none.
proof fn lemma_skills_inserted(ts: Seq<(Seq<char>, Json)>, j: int, x: (Seq<char>, Json), n: int)
    requires
        0 <= j <= ts.len(),
        0 <= n <= ts.len() + 1,
        x.1.get("skills"@) is None,
    ensures
        config_stamp::transition_skills(ts.insert(j, x), n) == config_stamp::transition_skills(
            ts,
            if n <= j {
                n
            } else {
                n - 1
            },
        ),
    decreases n,
{
    if n > 0 {
        lemma_skills_inserted(ts, j, x, n - 1);
        let y = ts.insert(j, x);
        if n - 1 < j {
            assert(y[n - 1] == ts[n - 1]);
        } else if n - 1 == j {
            assert(y[n - 1] == x);
            assert(config_stamp::skill_names(x.1) =~= Seq::<Seq<char>>::empty());
            assert(config_stamp::transition_skills(y, n) =~= config_stamp::transition_skills(
                y,
                n - 1,
            ));
        } else {
            assert(y[n - 1] == ts[n - 2]);
        }
    }
}

/// Putting in a transition without an executor adds no script.
proof fn lemma_scripts_inserted(ts: Seq<(Seq<char>, Json)>, j: int, x: (Seq<char>, Json), n: int)
    requires
        0 <= j <= ts.len(),
        0 <= n <= ts.len() + 1,
        x.1.get("executor"@) is None,
    ensures
        config_stamp::transition_scripts(ts.insert(j, x), n) == config_stamp::transition_scripts(
            ts,
            if n <= j {
                n
            } else {
                n - 1
            },
        ),
    decreases n,
{
    if n > 0 {
        lemma_scripts_inserted(ts, j, x, n - 1);
        let y = ts.insert(j, x);
        if n - 1 < j {
            assert(y[n - 1] == ts[n - 1]);
        } else if n - 1 == j {
            assert(y[n - 1] == x);
            assert(config_stamp::transition_scripts(y, n) =~= config_stamp::transition_scripts(
                y,
                n - 1,
            ));
        } else {
            assert(y[n - 1] == ts[n - 2]);
        }
    }
}

/// What a state refers to: its own skills and those of its transitions.
pub open spec fn skills_of_state(s: Json) -> Seq<Seq<char>> {
    let ts = s.entries_at("transitions"@);
    config_stamp::skill_names(s) + config_stamp::transition_skills(ts, ts.len() as int)
}

/// What a state refers to: the script that runs on entering it and those of its
/// transitions.
pub open spec fn scripts_of_state(s: Json) -> Seq<Seq<char>> {
    let ts = s.entries_at("transitions"@);
    config_stamp::script_name(s.get("onEnter"@)) + config_stamp::transition_scripts(
        ts,
        ts.len() as int,
    )
}

/// The literal keys of states and transitions differ.
pub proof fn lemma_keys_differ()
    ensures
        "transitions"@ != "skills"@,
        "transitions"@ != "onEnter"@,
        "transitions"@ != "terminal"@,
        "states"@ != "skills"@,
        "states"@ != "onEnter"@,
        "executor"@ != "skills"@,
        "output"@ != "skills"@,
        "output"@ != "executor"@,
        "_snippetOutputs"@ != "kind"@,
        "_snippetOutputs"@ != "use"@,
        "_snippetOutputs"@ != "definitionId"@,
        "_snippetOutputs"@ != "subject"@,
        "_snippetOutputs"@ != "executor"@,
        "states"@ != "snippet"@,
        "states"@ != "enable_human_ask"@,
        "states"@ != "human_ask_cap"@,
{
    reveal_strlit("transitions");
    reveal_strlit("skills");
    reveal_strlit("onEnter");
    reveal_strlit("terminal");
    reveal_strlit("states");
    reveal_strlit("executor");
    reveal_strlit("output");
    reveal_strlit("_snippetOutputs");
    reveal_strlit("kind");
    reveal_strlit("use");
    reveal_strlit("definitionId");
    reveal_strlit("subject");
    reveal_strlit("snippet");
    reveal_strlit("enable_human_ask");
    reveal_strlit("human_ask_cap");
    assert("transitions"@.len() == 11);
    assert("skills"@.len() == 6);
    assert("onEnter"@.len() == 7);
    assert("terminal"@.len() == 8);
    assert("states"@.len() == 6);
    assert("executor"@.len() == 8);
    assert("output"@.len() == 6);
    assert("_snippetOutputs"@.len() == 15);
    assert("kind"@.len() == 4);
    assert("use"@.len() == 3);
    assert("definitionId"@.len() == 12);
    assert("subject"@.len() == 7);
    assert("snippet"@.len() == 7);
    assert("enable_human_ask"@.len() == 16);
    assert("human_ask_cap"@.len() == 13);
    assert("states"@[1] == 't');
    assert("skills"@[1] == 'k');
    assert("output"@[1] == 'u');
}

/// Adding the question to a state changes none of its other keys, keeps it well-formed
/// and adds nothing that it refers to.
pub proof fn lemma_asking_state(name: Seq<char>, s: Json, cap: u64, other: Seq<char>)
    ensures
        ({
            let a = config_stamp::asking_state(cap)(name, s);
            &&& a is Object == (s is Object)
            &&& other != "transitions"@ ==> a.get(other) == s.get(other)
            &&& s.wf() ==> a.wf()
            &&& skills_of_state(a) == skills_of_state(s)
            &&& scripts_of_state(a) == scripts_of_state(s)
        }),
{
    lemma_keys_differ();
    if s.bool_at("terminal"@) == Some(true) || !(s is Object) {
    } else {
        let ts = match s.get("transitions"@) {
            Some(t) => t,
            None => Json::empty(),
        };
        if !ts.has("ask_human"@) {
            let q = config_stamp::question(name, cap);
            lemma_question(name, cap);
            let added = ts.with("ask_human"@, q);
            json::law_get_with(s, "transitions"@, added, other);
            json::law_get_with(s, "transitions"@, added, "transitions"@);
            json::law_get_with(s, "transitions"@, added, "skills"@);
            json::law_get_with(s, "transitions"@, added, "onEnter"@);
            if s.wf() {
                json::lemma_get_wf(s, "transitions"@);
                json::law_with_wf(ts, "ask_human"@, q);
                json::law_with_wf(s, "transitions"@, added);
            }
            reveal(Json::get);
            reveal(Json::with);
            match ts {
                Json::Object(e) => {
                    let j = lemma_put_new(e, "ask_human"@, q);
                    lemma_skills_inserted(e, j, ("ask_human"@, q), e.len() as int + 1);
                    lemma_scripts_inserted(e, j, ("ask_human"@, q), e.len() as int + 1);
                },
                _ => {},
            }
        }
    }
}

/// A state that has the question, or cannot have it, stays as it is when the question
/// is added: what an author writes there is kept.
pub proof fn law_written_questions_stay(name: Seq<char>, s: Json, cap: u64)
    requires
        s.wf(),
        s.bool_at("terminal"@) == Some(true) || !(s is Object) || (s.get("transitions"@) matches Some(
            t,
        ) && (t.has("ask_human"@) || !(t is Object))),
    ensures
        config_stamp::asking_state(cap)(name, s) == s,
{
    if let Some(t) = s.get("transitions"@) {
        if !(t is Object) {
            reveal(Json::with);
            json::law_with_same(s, "transitions"@, t);
        }
    }
}

// ---------------------------------------------------------------------------
// Outputs of used workflows
// ---------------------------------------------------------------------------

/// A key that is not found stands nowhere.
proof fn lemma_absent(e: Seq<(Seq<char>, Json)>, key: Seq<char>, i: int)
    requires
        json::find(e, key) is None,
        0 <= i < e.len(),
    ensures
        e[i].0 != key,
    decreases e.len(),
{
    if i > 0 {
        lemma_absent(e.skip(1), key, i - 1);
        assert(e.skip(1)[i - 1] == e[i]);
    }
}

proof fn lemma_overlaid_upto(o: Json, e: Seq<(Seq<char>, Json)>, n: int, key: Seq<char>)
    requires
        o is Object,
        0 <= n <= e.len(),
        json::sorted(e),
    ensures
        config_stamp::overlaid(o, e, n) is Object,
        (forall|i: int| 0 <= i < n ==> (#[trigger] e[i]).0 != key) ==> config_stamp::overlaid(
            o,
            e,
            n,
        ).get(key) == o.get(key),
        forall|i: int|
            0 <= i < n && (#[trigger] e[i]).0 == key ==> config_stamp::overlaid(o, e, n).get(key)
                == Some(e[i].1),
    decreases n,
{
    if n > 0 {
        lemma_overlaid_upto(o, e, n - 1, key);
        json::law_get_with(
            config_stamp::overlaid(o, e, n - 1),
            e[n - 1].0,
            e[n - 1].1,
            key,
        );
        assert forall|i: int| 0 <= i < n && (#[trigger] e[i]).0 == key implies
            config_stamp::overlaid(o, e, n).get(key) == Some(e[i].1) by {
            if i < n - 1 {
                assert(text::text_lt(e[i].0, e[n - 1].0));
                text::lemma_text_lt_total(key, key, 0);
            }
        }
    }
}

/// What an overlaid object holds under a key: what was laid over it, or else its own.
pub proof fn law_overlaid(o: Json, e: Seq<(Seq<char>, Json)>, key: Seq<char>)
    requires
        o is Object,
        json::sorted(e),
    ensures
        config_stamp::overlaid(o, e, e.len() as int) is Object,
        config_stamp::overlaid(o, e, e.len() as int).get(key) == (match json::find(e, key) {
            Some(v) => Some(v),
            None => o.get(key),
        }),
{
    lemma_overlaid_upto(o, e, e.len() as int, key);
    match json::find(e, key) {
        Some(v) => {
            json::lemma_find_member(e, key);
            let i = choose|i: int| 0 <= i < e.len() && e[i].0 == key && #[trigger] e[i].1 == v;
            assert(e[i].0 == key);
        },
        None => {
            assert forall|i: int| 0 <= i < e.len() implies (#[trigger] e[i]).0 != key by {
                lemma_absent(e, key, i);
            }
        },
    }
}

proof fn lemma_overlaid_wf(o: Json, e: Seq<(Seq<char>, Json)>, n: int)
    requires
        o.wf(),
        o is Object,
        0 <= n <= e.len(),
        forall|i: int| 0 <= i < e.len() ==> (#[trigger] e[i]).1.wf(),
    ensures
        config_stamp::overlaid(o, e, n).wf(),
        config_stamp::overlaid(o, e, n) is Object,
    decreases n,
{
    if n > 0 {
        lemma_overlaid_wf(o, e, n - 1);
        assert(e[n - 1].1.wf());
        lemma_with_wf(config_stamp::overlaid(o, e, n - 1), e[n - 1].0, e[n - 1].1);
    }
}

proof fn lemma_bound_wf(outs: Seq<(Seq<char>, Json)>, n: int)
    ensures
        config_stamp::bound_outputs(outs, n).wf(),
        config_stamp::bound_outputs(outs, n) is Object,
    decreases n,
{
    lemma_empty_wf();
    if n > 0 {
        lemma_bound_wf(outs, n - 1);
        match (outs[n - 1].1.as_str(), validate_rules::slot_tail(outs[n - 1].0)) {
            (Some(name), Some(tail)) => {
                lemma_with_text_wf(
                    config_stamp::bound_outputs(outs, n - 1),
                    tail,
                    "$.output."@ + name,
                );
            },
            _ => {},
        }
    }
}

/// The expanded output mapping of a transition is well-formed.
pub proof fn lemma_output_wf(outs: Seq<(Seq<char>, Json)>, n: int, own: Seq<(Seq<char>, Json)>)
    requires
        Json::Object(own).wf(),
    ensures
        config_stamp::overlaid(
            config_stamp::bound_outputs(outs, n),
            own,
            own.len() as int,
        ).wf(),
{
    lemma_bound_wf(outs, n);
    lemma_overlaid_wf(config_stamp::bound_outputs(outs, n), own, own.len() as int);
}

/// Laying over an object what it gave once laid over something changes nothing.
proof fn lemma_overlaid_twice(o: Json, e: Seq<(Seq<char>, Json)>, f: Seq<(Seq<char>, Json)>)
    requires
        o.wf(),
        o is Object,
        Json::Object(e).wf(),
        config_stamp::overlaid(o, e, e.len() as int) == Json::Object(f),
    ensures
        config_stamp::overlaid(o, f, f.len() as int) == Json::Object(f),
{
    lemma_overlaid_wf(o, e, e.len() as int);
    assert forall|i: int| 0 <= i < f.len() implies (#[trigger] f[i]).1.wf() by {}
    lemma_overlaid_wf(o, f, f.len() as int);
    let g = config_stamp::overlaid(o, f, f.len() as int)->Object_0;
    assert forall|k: Seq<char>| json::find(g, k) == #[trigger] json::find(f, k) by {
        law_overlaid(o, e, k);
        law_overlaid(o, f, k);
        reveal(Json::get);
    }
    json::law_same_bindings(g, f);
}

/// The expanded transition, up to its outputs.
proof fn lemma_expanded(t: Json, workflows: Json, other: Seq<char>)
    requires
        t.wf(),
        workflows.wf(),
    ensures
        ({
            let r = config_stamp::expanded(t, workflows);
            &&& r.wf()
            &&& r is Object == (t is Object)
            &&& other != "executor"@ && other != "output"@ ==> r.get(other) == t.get(other)
            &&& config_stamp::skill_names(r) == config_stamp::skill_names(t)
            &&& config_stamp::script_name(r.get("executor"@)) == config_stamp::script_name(
                t.get("executor"@),
            )
        }),
{
    lemma_keys_differ();
    if let Some((x, u, id)) = config_stamp::use_of(t) {
        reveal(Json::get);
        json::lemma_get_wf(t, "executor"@);
        let schema = config_stamp::snippet_schema(workflows, id);
        lemma_snippet_wf(workflows, id);
        let y = config_capabilities::with_some(x, "_snippetOutputs"@, schema);
        if let Some(z) = schema {
            lemma_with_wf(x, "_snippetOutputs"@, z);
            json::law_get_with(x, "_snippetOutputs"@, z, "executor"@);
            json::law_get_with(x, "_snippetOutputs"@, z, "kind"@);
            json::law_get_with(x, "_snippetOutputs"@, z, "subject"@);
        }
        let a = t.with("executor"@, y);
        lemma_with_wf(t, "executor"@, y);
        json::law_get_with(t, "executor"@, y, other);
        json::law_get_with(t, "executor"@, y, "skills"@);
        json::law_get_with(t, "executor"@, y, "executor"@);
        if let Some(outs) = u.object_at("outputs"@) {
            let own = a.entries_at("output"@);
            let b = config_stamp::bound_outputs(outs, outs.len() as int);
            lemma_bound_wf(outs, outs.len() as int);
            json::lemma_get_wf(a, "output"@);
            lemma_overlaid_wf(b, own, own.len() as int);
            let c = config_stamp::overlaid(b, own, own.len() as int);
            lemma_with_wf(a, "output"@, c);
            json::law_get_with(a, "output"@, c, other);
            json::law_get_with(a, "output"@, c, "skills"@);
            json::law_get_with(a, "output"@, c, "executor"@);
        }
    }
}

proof fn lemma_snippet_wf(workflows: Json, id: Seq<char>)
    requires
        workflows.wf(),
    ensures
        config_stamp::snippet_schema(workflows, id) matches Some(z) ==> z.wf(),
{
    json::lemma_get_wf(workflows, id);
    if let Some(def) = workflows.get(id) {
        json::lemma_get_wf(def, "snippet"@);
        if let Some(v) = def.get("snippet"@) {
            reveal(Json::step);
            reveal(Json::get);
            json::lemma_get_wf(v, "outputs"@);
        }
    }
}

/// The schemas of the snippets that workflows declare are the same.
pub open spec fn same_snippets(a: Json, b: Json) -> bool {
    forall|id: Seq<char>| #[trigger]
        config_stamp::snippet_schema(a, id) == config_stamp::snippet_schema(b, id)
}

/// A transition that was expanded stays as it is when it is expanded again.
pub proof fn law_expanding_twice(t: Json, a: Json, b: Json)
    requires
        t.wf(),
        a.wf(),
        same_snippets(a, b),
    ensures
        config_stamp::expanded(config_stamp::expanded(t, a), b) == config_stamp::expanded(t, a),
{
    lemma_keys_differ();
    let r = config_stamp::expanded(t, a);
    lemma_expanded(t, a, "executor"@);
    if let Some((x, u, id)) = config_stamp::use_of(t) {
        reveal(Json::get);
        json::lemma_get_wf(t, "executor"@);
        let schema = config_stamp::snippet_schema(a, id);
        lemma_snippet_wf(a, id);
        assert(config_stamp::snippet_schema(b, id) == schema);
        let y = config_capabilities::with_some(x, "_snippetOutputs"@, schema);
        if let Some(z) = schema {
            lemma_with_wf(x, "_snippetOutputs"@, z);
            json::law_get_with(x, "_snippetOutputs"@, z, "kind"@);
            json::law_get_with(x, "_snippetOutputs"@, z, "use"@);
            json::law_get_with(x, "_snippetOutputs"@, z, "definitionId"@);
            json::law_get_with(x, "_snippetOutputs"@, z, "_snippetOutputs"@);
            json::law_with_same(y, "_snippetOutputs"@, z);
        }
        let c = t.with("executor"@, y);
        lemma_with_wf(t, "executor"@, y);
        json::law_get_with(t, "executor"@, y, "executor"@);
        match u.object_at("outputs"@) {
            None => {
                assert(r == c);
                json::law_with_same(r, "executor"@, y);
            },
            Some(outs) => {
                let own = c.entries_at("output"@);
                let n = outs.len() as int;
                let bound = config_stamp::bound_outputs(outs, n);
                lemma_bound_wf(outs, n);
                json::lemma_get_wf(c, "output"@);
                lemma_overlaid_wf(bound, own, own.len() as int);
                let d = config_stamp::overlaid(bound, own, own.len() as int);
                json::law_get_with(c, "output"@, d, "output"@);
                json::law_get_with(c, "output"@, d, "executor"@);
                assert(r.get("executor"@) == Some(y));
                assert(r.get("output"@) == Some(d));
                json::law_with_same(r, "executor"@, y);
                lemma_overlaid_twice(bound, own, d->Object_0);
                json::law_with_same(r, "output"@, d);
            },
        }
    }
}

// ---------------------------------------------------------------------------
// States
// ---------------------------------------------------------------------------

proof fn lemma_expanded_transitions(ts: Seq<(Seq<char>, Json)>, workflows: Json, n: int)
    requires
        Json::Object(ts).wf(),
        workflows.wf(),
        0 <= n <= ts.len(),
    ensures
        ({
            let m = config_stamp::mapped(ts, config_stamp::expand_transition(workflows));
            &&& config_stamp::transition_skills(m, n) == config_stamp::transition_skills(ts, n)
            &&& config_stamp::transition_scripts(m, n) == config_stamp::transition_scripts(ts, n)
        }),
    decreases n,
{
    if n > 0 {
        lemma_expanded_transitions(ts, workflows, n - 1);
        assert(ts[n - 1].1.wf());
        lemma_expanded(ts[n - 1].1, workflows, ""@);
    }
}

proof fn lemma_expand_keeps_wf(workflows: Json)
    requires
        workflows.wf(),
    ensures
        keeps_wf(config_stamp::expand_transition(workflows)),
        keeps_wf(config_stamp::expand_state(workflows)),
        keeps_wf(config_stamp::expand_definition(workflows)),
{
    let f = config_stamp::expand_transition(workflows);
    assert forall|k: Seq<char>, v: Json| v.wf() implies (#[trigger] f(k, v)).wf() by {
        lemma_expanded(v, workflows, ""@);
    }
    let g = config_stamp::expand_state(workflows);
    assert forall|k: Seq<char>, v: Json| v.wf() implies (#[trigger] g(k, v)).wf() by {
        lemma_over_wf(v, "transitions"@, f);
    }
    let h = config_stamp::expand_definition(workflows);
    assert forall|k: Seq<char>, v: Json| v.wf() implies (#[trigger] h(k, v)).wf() by {
        lemma_over_wf(v, "states"@, g);
    }
}

/// Expanding the transitions of a state changes none of its other keys, and nothing
/// that it refers to.
pub proof fn lemma_expand_state(name: Seq<char>, s: Json, workflows: Json, other: Seq<char>)
    requires
        s.wf(),
        workflows.wf(),
    ensures
        ({
            let r = config_stamp::expand_state(workflows)(name, s);
            &&& r is Object == (s is Object)
            &&& r.wf()
            &&& other != "transitions"@ ==> r.get(other) == s.get(other)
            &&& skills_of_state(r) == skills_of_state(s)
            &&& scripts_of_state(r) == scripts_of_state(s)
        }),
{
    lemma_keys_differ();
    lemma_expand_keeps_wf(workflows);
    let f = config_stamp::expand_transition(workflows);
    assert(config_stamp::expand_state(workflows)(name, s) == config_stamp::over(
        s,
        "transitions"@,
        f,
    ));
    lemma_over_wf(s, "transitions"@, f);
    lemma_over_object(s, "transitions"@, f);
    config_stamp::lemma_over_get(s, "transitions"@, f, other);
    config_stamp::lemma_over_get(s, "transitions"@, f, "skills"@);
    config_stamp::lemma_over_get(s, "transitions"@, f, "onEnter"@);
    json::lemma_get_wf(s, "transitions"@);
    if let Some(ts) = s.object_at("transitions"@) {
        lemma_expanded_transitions(ts, workflows, ts.len() as int);
    }
}

/// A state whose transitions were expanded stays as it is when they are expanded again.
proof fn lemma_expand_state_twice(name: Seq<char>, s: Json, a: Json, b: Json)
    requires
        s.wf(),
        a.wf(),
        same_snippets(a, b),
    ensures
        config_stamp::expand_state(b)(name, config_stamp::expand_state(a)(name, s))
            == config_stamp::expand_state(a)(name, s),
{
    let r = config_stamp::expand_state(a)(name, s);
    let f = config_stamp::expand_transition(a);
    let g = config_stamp::expand_transition(b);
    lemma_expand_state(name, s, a, ""@);
    config_stamp::lemma_over_get(s, "transitions"@, f, "transitions"@);
    json::lemma_get_wf(s, "transitions"@);
    if let Some(ts) = s.object_at("transitions"@) {
        let m = config_stamp::mapped(ts, f);
        assert forall|i: int| 0 <= i < m.len() implies g((#[trigger] m[i]).0, m[i].1)
            == m[i].1 by {
            assert(ts[i].1.wf());
            law_expanding_twice(ts[i].1, a, b);
        }
    }
    lemma_over_fixed(r, "transitions"@, g);
}

/// The state has a question to a human, or cannot have it.
pub open spec fn state_asks(s: Json) -> bool {
    s.bool_at("terminal"@) == Some(true) || !(s is Object) || (s.get("transitions"@) matches Some(t)
        && (t.has("ask_human"@) || !(t is Object)))
}

proof fn lemma_asking_state_asks(name: Seq<char>, s: Json, cap: u64)
    ensures
        state_asks(config_stamp::asking_state(cap)(name, s)),
{
    lemma_asking_state(name, s, cap, "terminal"@);
    if s.bool_at("terminal"@) == Some(true) || !(s is Object) {
    } else {
        let ts = match s.get("transitions"@) {
            Some(t) => t,
            None => Json::empty(),
        };
        let q = config_stamp::question(name, cap);
        json::law_get_with(s, "transitions"@, ts.with("ask_human"@, q), "transitions"@);
        if ts is Object {
            json::law_get_with(ts, "ask_human"@, q, "ask_human"@);
        } else {
            reveal(Json::with);
        }
        if ts.has("ask_human"@) {
            reveal(Json::get);
        }
    }
}

proof fn lemma_expand_state_asks(name: Seq<char>, s: Json, workflows: Json)
    requires
        s.wf(),
        workflows.wf(),
        state_asks(s),
    ensures
        state_asks(config_stamp::expand_state(workflows)(name, s)),
{
    lemma_keys_differ();
    let f = config_stamp::expand_transition(workflows);
    lemma_expand_state(name, s, workflows, "terminal"@);
    config_stamp::lemma_over_get(s, "transitions"@, f, "transitions"@);
    if let Some(ts) = s.object_at("transitions"@) {
        lemma_find_mapped(ts, f, "ask_human"@);
        reveal(Json::get);
    }
}

// ---------------------------------------------------------------------------
// Definitions
// ---------------------------------------------------------------------------

/// Two lists of states refer to the same things.
pub open spec fn refer_alike(a: Seq<(Seq<char>, Json)>, b: Seq<(Seq<char>, Json)>) -> bool {
    a.len() == b.len() && forall|i: int|
        0 <= i < a.len() ==> skills_of_state((#[trigger] a[i]).1) == skills_of_state(b[i].1)
            && scripts_of_state(a[i].1) == scripts_of_state(b[i].1)
}

proof fn lemma_alike(a: Seq<(Seq<char>, Json)>, b: Seq<(Seq<char>, Json)>, n: int)
    requires
        refer_alike(a, b),
        0 <= n <= a.len(),
    ensures
        config_stamp::state_skills(a, n) == config_stamp::state_skills(b, n),
        config_stamp::state_scripts(a, n) == config_stamp::state_scripts(b, n),
    decreases n,
{
    if n > 0 {
        lemma_alike(a, b, n - 1);
        let x = a[n - 1].1;
        let y = b[n - 1].1;
        assert(skills_of_state(x) == skills_of_state(y));
        assert(config_stamp::state_skills(a, n) =~= config_stamp::state_skills(a, n - 1)
            + skills_of_state(x));
        assert(config_stamp::state_skills(b, n) =~= config_stamp::state_skills(b, n - 1)
            + skills_of_state(y));
        assert(config_stamp::state_scripts(a, n) =~= config_stamp::state_scripts(a, n - 1)
            + scripts_of_state(x));
        assert(config_stamp::state_scripts(b, n) =~= config_stamp::state_scripts(b, n - 1)
            + scripts_of_state(y));
    }
}

/// Mapping the states of a definition by what keeps what each refers to keeps what the
/// definition refers to.
proof fn lemma_states_mapped(def: Json, f: spec_fn(Seq<char>, Json) -> Json)
    requires
        def.object_at("states"@) matches Some(e) ==> refer_alike(config_stamp::mapped(e, f), e),
    ensures
        ({
            let r = config_stamp::over(def, "states"@, f);
            &&& config_stamp::referenced_skills(r) == config_stamp::referenced_skills(def)
            &&& config_stamp::referenced_scripts(r) == config_stamp::referenced_scripts(def)
        }),
{
    lemma_keys_differ();
    config_stamp::lemma_over_get(def, "states"@, f, "skills"@);
    config_stamp::lemma_over_get(def, "states"@, f, "onEnter"@);
    if let Some(e) = def.object_at("states"@) {
        lemma_alike(config_stamp::mapped(e, f), e, e.len() as int);
    }
}

/// Adding questions to a definition changes none of its other keys, and nothing that it
/// refers to.
pub proof fn lemma_asking(id: Seq<char>, def: Json, other: Seq<char>)
    ensures
        ({
            let r = config_stamp::asking()(id, def);
            &&& r is Object == (def is Object)
            &&& def.wf() ==> r.wf()
            &&& other != "states"@ ==> r.get(other) == def.get(other)
            &&& config_stamp::referenced_skills(r) == config_stamp::referenced_skills(def)
            &&& config_stamp::referenced_scripts(r) == config_stamp::referenced_scripts(def)
        }),
{
    if def.bool_at("enable_human_ask"@) == Some(true) {
        let cap = config_stamp::ask_cap(def);
        let f = config_stamp::asking_state(cap);
        lemma_over_object(def, "states"@, f);
        config_stamp::lemma_over_get(def, "states"@, f, other);
        if def.wf() {
            assert forall|k: Seq<char>, v: Json| v.wf() implies (#[trigger] f(k, v)).wf() by {
                lemma_asking_state(k, v, cap, ""@);
            }
            lemma_over_wf(def, "states"@, f);
        }
        if let Some(e) = def.object_at("states"@) {
            let m = config_stamp::mapped(e, f);
            assert forall|i: int| 0 <= i < m.len() implies skills_of_state((#[trigger] m[i]).1)
                == skills_of_state(e[i].1) && scripts_of_state(m[i].1) == scripts_of_state(
                e[i].1,
            ) by {
                lemma_asking_state(e[i].0, e[i].1, cap, ""@);
            }
        }
        lemma_states_mapped(def, f);
    }
}

/// Where questions are enabled, every state of the definition asks.
pub open spec fn asks(def: Json) -> bool {
    def.bool_at("enable_human_ask"@) == Some(true) ==> forall|i: int|
        0 <= i < def.entries_at("states"@).len() ==> state_asks(
            (#[trigger] def.entries_at("states"@)[i]).1,
        )
}

/// A definition asks once questions were added to it.
pub proof fn law_questions_are_added(id: Seq<char>, def: Json)
    ensures
        asks(config_stamp::asking()(id, def)),
{
    let r = config_stamp::asking()(id, def);
    lemma_keys_differ();
    lemma_asking(id, def, "enable_human_ask"@);
    if def.bool_at("enable_human_ask"@) == Some(true) {
        let cap = config_stamp::ask_cap(def);
        let f = config_stamp::asking_state(cap);
        config_stamp::lemma_over_get(def, "states"@, f, "states"@);
        if let Some(e) = def.object_at("states"@) {
            assert forall|i: int| 0 <= i < r.entries_at("states"@).len() implies state_asks(
                (#[trigger] r.entries_at("states"@)[i]).1,
            ) by {
                lemma_asking_state_asks(e[i].0, e[i].1, cap);
            }
        }
    }
}

/// A definition that asks stays as it is when questions are added to it.
pub proof fn law_asking_twice(id: Seq<char>, def: Json)
    requires
        def.wf(),
        asks(def),
    ensures
        config_stamp::asking()(id, def) == def,
{
    if def.bool_at("enable_human_ask"@) == Some(true) {
        let cap = config_stamp::ask_cap(def);
        let f = config_stamp::asking_state(cap);
        json::lemma_get_wf(def, "states"@);
        if let Some(e) = def.object_at("states"@) {
            assert forall|i: int| 0 <= i < e.len() implies f((#[trigger] e[i]).0, e[i].1)
                == e[i].1 by {
                assert(state_asks(def.entries_at("states"@)[i].1));
                assert(e[i].1.wf());
                law_written_questions_stay(e[i].0, e[i].1, cap);
            }
        }
        lemma_over_fixed(def, "states"@, f);
    }
}

/// Expanding the transitions of a definition changes none of its other keys, nothing
/// that it refers to, and nothing that it asks.
pub proof fn lemma_expand_definition(id: Seq<char>, def: Json, workflows: Json, other: Seq<char>)
    requires
        def.wf(),
        workflows.wf(),
    ensures
        ({
            let r = config_stamp::expand_definition(workflows)(id, def);
            &&& r is Object == (def is Object)
            &&& r.wf()
            &&& other != "states"@ ==> r.get(other) == def.get(other)
            &&& config_stamp::referenced_skills(r) == config_stamp::referenced_skills(def)
            &&& config_stamp::referenced_scripts(r) == config_stamp::referenced_scripts(def)
            &&& asks(def) ==> asks(r)
        }),
{
    lemma_keys_differ();
    lemma_expand_keeps_wf(workflows);
    let f = config_stamp::expand_state(workflows);
    let r = config_stamp::over(def, "states"@, f);
    assert(config_stamp::expand_definition(workflows)(id, def) == r);
    lemma_over_wf(def, "states"@, f);
    lemma_over_object(def, "states"@, f);
    config_stamp::lemma_over_get(def, "states"@, f, other);
    config_stamp::lemma_over_get(def, "states"@, f, "enable_human_ask"@);
    json::lemma_get_wf(def, "states"@);
    if let Some(e) = def.object_at("states"@) {
        let m = config_stamp::mapped(e, f);
        assert forall|i: int| 0 <= i < m.len() implies skills_of_state((#[trigger] m[i]).1)
            == skills_of_state(e[i].1) && scripts_of_state(m[i].1) == scripts_of_state(e[i].1) by {
            assert(e[i].1.wf());
            lemma_expand_state(e[i].0, e[i].1, workflows, ""@);
        }
        if asks(def) && def.bool_at("enable_human_ask"@) == Some(true) {
            assert forall|i: int| 0 <= i < r.entries_at("states"@).len() implies state_asks(
                (#[trigger] r.entries_at("states"@)[i]).1,
            ) by {
                assert(e[i].1.wf());
                assert(state_asks(def.entries_at("states"@)[i].1));
                lemma_expand_state_asks(e[i].0, e[i].1, workflows);
            }
        }
    }
    lemma_states_mapped(def, f);
}

/// A definition whose transitions were expanded stays as it is when they are expanded
/// again.
pub proof fn lemma_expand_definition_twice(id: Seq<char>, def: Json, a: Json, b: Json)
    requires
        def.wf(),
        a.wf(),
        same_snippets(a, b),
    ensures
        config_stamp::expand_definition(b)(id, config_stamp::expand_definition(a)(id, def))
            == config_stamp::expand_definition(a)(id, def),
{
    let r = config_stamp::expand_definition(a)(id, def);
    let f = config_stamp::expand_state(a);
    let g = config_stamp::expand_state(b);
    lemma_expand_definition(id, def, a, ""@);
    config_stamp::lemma_over_get(def, "states"@, f, "states"@);
    json::lemma_get_wf(def, "states"@);
    if let Some(e) = def.object_at("states"@) {
        let m = config_stamp::mapped(e, f);
        assert forall|i: int| 0 <= i < m.len() implies g((#[trigger] m[i]).0, m[i].1)
            == m[i].1 by {
            assert(e[i].1.wf());
            lemma_expand_state_twice(e[i].0, e[i].1, a, b);
        }
    }
    lemma_over_fixed(r, "states"@, g);
}

/// Expanding the transitions of workflows leaves the schemas of their snippets.
pub proof fn lemma_snippets_stay(e: Seq<(Seq<char>, Json)>, workflows: Json)
    requires
        Json::Object(e).wf(),
        workflows.wf(),
    ensures
        same_snippets(
            Json::Object(e),
            Json::Object(config_stamp::mapped(e, config_stamp::expand_definition(workflows))),
        ),
{
    let f = config_stamp::expand_definition(workflows);
    let m = config_stamp::mapped(e, f);
    lemma_keys_differ();
    assert forall|id: Seq<char>| #[trigger]
        config_stamp::snippet_schema(Json::Object(e), id) == config_stamp::snippet_schema(
            Json::Object(m),
            id,
        ) by {
        lemma_find_mapped(e, f, id);
        json::lemma_get_wf(Json::Object(e), id);
        reveal(Json::get);
        if let Some(def) = json::find(e, id) {
            lemma_expand_definition(id, def, workflows, "snippet"@);
        }
    }
}

} // verus!
