//! What the resolution of a configuration writes into its workflows: default versions,
//! libraries of what they refer to, questions to humans, and the outputs of the
//! workflows that they use.
use crate::config_capabilities;
use crate::config_check;
use crate::config_hash;
use crate::json;
use crate::json::{Json, Number, Value};
use crate::text;
use crate::validate;
use crate::validate_rules;
use vstd::prelude::*;

verus! {

// ---------------------------------------------------------------------------
// Mapping over entries
// ---------------------------------------------------------------------------

/// The entries with each value mapped.
pub open spec fn mapped(
    e: Seq<(Seq<char>, Json)>,
    f: spec_fn(Seq<char>, Json) -> Json,
) -> Seq<(Seq<char>, Json)> {
    Seq::new(e.len(), |i: int| (e[i].0, f(e[i].0, e[i].1)))
}

/// The object with each value of the object under a key mapped.
pub open spec fn over(v: Json, key: Seq<char>, f: spec_fn(Seq<char>, Json) -> Json) -> Json {
    match v.object_at(key) {
        Some(e) => v.with(key, Json::Object(mapped(e, f))),
        None => v,
    }
}

/// Adding the next mapped entry.
proof fn lemma_mapped_take(
    e: Seq<(Seq<char>, Json)>,
    f: spec_fn(Seq<char>, Json) -> Json,
    i: int,
)
    requires
        0 <= i < e.len(),
    ensures
        mapped(e, f).take(i + 1) == mapped(e, f).take(i).push((e[i].0, f(e[i].0, e[i].1))),
{
    assert(mapped(e, f).take(i + 1) =~= mapped(e, f).take(i).push((e[i].0, f(e[i].0, e[i].1))));
}

/// The mapping keeps a mapped object.
pub proof fn lemma_over_get(v: Json, key: Seq<char>, f: spec_fn(Seq<char>, Json) -> Json, other: Seq<char>)
    ensures
        other != key ==> over(v, key, f).get(other) == v.get(other),
        match v.object_at(key) {
            Some(e) => over(v, key, f).object_at(key) == Some(mapped(e, f)),
            None => over(v, key, f) == v,
        },
{
    if let Some(e) = v.object_at(key) {
        reveal(Json::get);
        assert(v is Object);
        json::law_get_with(v, key, Json::Object(mapped(e, f)), other);
        json::law_get_with(v, key, Json::Object(mapped(e, f)), key);
    }
}

// ---------------------------------------------------------------------------
// Versions
// ---------------------------------------------------------------------------

/// A definition with a version.
pub open spec fn versioned() -> spec_fn(Seq<char>, Json) -> Json {
    |id: Seq<char>, def: Json|
        if def is Object && !def.has("version"@) {
            def.with("version"@, Json::String("0"@))
        } else {
            def
        }
}

/// Gives every workflow without a version the version zero.
pub fn default_versions(config: Value) -> (r: Value)
    ensures
        r@ == over(config@, "workflows"@, versioned()),
{
    let ghost f = versioned();
    let mut out: Vec<(String, Value)> = Vec::new();
    match config.object_at("workflows") {
        None => {
            return config;
        },
        Some(workflows) => {
            let ghost e = json::entries(workflows@);
            let mut i: usize = 0;
            assert(json::entries(out@) =~= mapped(e, f).take(0));
            while i < workflows.len()
                invariant
                    i <= workflows.len(),
                    e == json::entries(workflows@),
                    config@.object_at("workflows"@) == Some(e),
                    f == versioned(),
                    json::entries(out@) == mapped(e, f).take(i as int),
                decreases workflows.len() - i,
            {
                assert(e[i as int] == (workflows@[i as int].0@, workflows@[i as int].1@));
                let def = &workflows[i].1;
                let mut d = def.dup();
                if def.is_object() && !def.has("version") {
                    d.set("version", Value::text("0"));
                }
                let k = workflows[i].0.clone();
                proof {
                    lemma_mapped_take(e, f, i as int);
                    json::lemma_entries_push(out@, (k, d));
                }
                out.push((k, d));
                i = i + 1;
            }
            assert(mapped(e, f).take(i as int) =~= mapped(e, f));
        },
    }
    let mut c = config;
    c.set("workflows", Value::Object(out));
    c
}

// ---------------------------------------------------------------------------
// Libraries
// ---------------------------------------------------------------------------

/// The part of a library that the first `n` subjects name.
pub open spec fn scoped(lib: Json, subjects: Seq<Seq<char>>, n: int) -> Json
    decreases n,
{
    if n <= 0 {
        Json::empty()
    } else {
        match lib.get(subjects[n - 1]) {
            Some(x) => scoped(lib, subjects, n - 1).with(subjects[n - 1], x),
            None => scoped(lib, subjects, n - 1),
        }
    }
}

/// A definition with the part of a library that it refers to. Without such a part it
/// stays as it is.
pub open spec fn stamped(def: Json, key: Seq<char>, lib: Json, subjects: Seq<Seq<char>>) -> Json {
    let part = scoped(lib, subjects, subjects.len() as int);
    if def is Object && part != Json::empty() {
        def.with(key, part)
    } else {
        def
    }
}

fn scoped_of(lib: &Value, subjects: &Vec<String>) -> (r: Value)
    ensures
        r@ == scoped(lib@, text::texts(subjects@), subjects@.len() as int),
{
    let ghost ss = text::texts(subjects@);
    let mut out = Value::object();
    let mut i: usize = 0;
    while i < subjects.len()
        invariant
            i <= subjects.len(),
            ss == text::texts(subjects@),
            out@ == scoped(lib@, ss, i as int),
        decreases subjects.len() - i,
    {
        assert(ss[i as int] == subjects@[i as int]@);
        if let Some(x) = lib.get(subjects[i].as_str()) {
            out.set(subjects[i].as_str(), x.dup());
        }
        i = i + 1;
    }
    out
}

fn stamp(def: &Value, key: &str, lib: &Value, subjects: &Vec<String>) -> (r: Value)
    ensures
        r@ == stamped(def@, key@, lib@, text::texts(subjects@)),
{
    let part = scoped_of(lib, subjects);
    let mut d = def.dup();
    let none = Value::object();
    if def.is_object() && !part.same(&none) {
        d.set(key, part);
    }
    d
}

/// What a library says of a fragment.
pub open spec fn fragment(
    verb: Seq<char>,
    lifecycle: Seq<char>,
    body: Seq<char>,
    hash: Seq<char>,
    source: Seq<char>,
) -> Json {
    Json::empty().with("verb"@, Json::String(verb)).with(
        "lifecycle"@,
        Json::String(lifecycle),
    ).with("body"@, Json::String(body)).with("hash"@, Json::String(hash)).with(
        "source"@,
        Json::String(source),
    )
}

fn fragment_value(verb: &str, lifecycle: &str, body: &str, hash: &str, source: &str) -> (r: Value)
    ensures
        r@ == fragment(verb@, lifecycle@, body@, hash@, source@),
{
    Value::object().and("verb", Value::text(verb)).and("lifecycle", Value::text(lifecycle)).and(
        "body",
        Value::text(body),
    ).and("hash", Value::text(hash)).and("source", Value::text(source))
}

/// Where a fragment comes from.
pub open spec fn source_name(entry: Json) -> Seq<char> {
    match entry.str_at("source"@) {
        Some(s) => s,
        None => "config"@,
    }
}

fn source_name_of(entry: &Value) -> (r: &str)
    ensures
        r@ == source_name(entry@),
{
    match entry.str_at("source") {
        Some(s) => s,
        None => "config",
    }
}

// ---------------------------------------------------------------------------
// The library of skills
// ---------------------------------------------------------------------------

/// The library of the first `n` skills. An incomplete one stays out.
pub open spec fn skills_library(e: Seq<(Seq<char>, Json)>, n: int) -> Json
    decreases n,
{
    if n <= 0 {
        Json::empty()
    } else {
        let before = skills_library(e, n - 1);
        let (subject, entry) = e[n - 1];
        match (entry.str_at("verb"@), entry.str_at("lifecycle"@), entry.str_at("body"@)) {
            (Some(verb), Some(lifecycle), Some(body)) => before.with(
                subject,
                fragment(
                    verb,
                    lifecycle,
                    body,
                    config_hash::skill_hash(body),
                    source_name(entry),
                ),
            ),
            _ => before,
        }
    }
}

/// The texts in the list of skills of a scope.
pub open spec fn skill_names(scope: Json) -> Seq<Seq<char>> {
    let items = scope.items_at("skills"@);
    validate::strings(items, items.len() as int)
}

/// The skills that the first `n` transitions refer to.
pub open spec fn transition_skills(ts: Seq<(Seq<char>, Json)>, n: int) -> Seq<Seq<char>>
    decreases n,
{
    if n <= 0 {
        Seq::empty()
    } else {
        transition_skills(ts, n - 1) + skill_names(ts[n - 1].1)
    }
}

/// The skills that the first `n` states refer to.
pub open spec fn state_skills(e: Seq<(Seq<char>, Json)>, n: int) -> Seq<Seq<char>>
    decreases n,
{
    if n <= 0 {
        Seq::empty()
    } else {
        let ts = e[n - 1].1.entries_at("transitions"@);
        state_skills(e, n - 1) + skill_names(e[n - 1].1) + transition_skills(ts, ts.len() as int)
    }
}

/// The skills that a definition refers to, in whatever scope.
pub open spec fn referenced_skills(def: Json) -> Seq<Seq<char>> {
    let e = def.entries_at("states"@);
    skill_names(def) + state_skills(e, e.len() as int)
}

fn collect_skills_strings(scope: &Value, out: &mut Vec<String>)
    ensures
        text::texts(final(out)@) == text::texts(old(out)@) + skill_names(scope@),
{
    match scope.array_at("skills") {
        Some(items) => {
            let names = validate::strings_of(items);
            validate::append_texts(out, &names);
        },
        None => {
            assert(validate::strings(Seq::empty(), 0) =~= Seq::empty());
            assert(text::texts(out@) + skill_names(scope@) =~= text::texts(out@));
        },
    }
}

fn collect_state_subjects(state: &Value, out: &mut Vec<String>)
    ensures
        text::texts(final(out)@) == text::texts(old(out)@) + skill_names(state@)
            + transition_skills(
            state@.entries_at("transitions"@),
            state@.entries_at("transitions"@).len() as int,
        ),
{
    collect_skills_strings(state, out);
    let ghost base = text::texts(out@);
    match state.object_at("transitions") {
        Some(ts) => {
            let ghost e = json::entries(ts@);
            let mut i: usize = 0;
            assert(base + transition_skills(e, 0) =~= base);
            while i < ts.len()
                invariant
                    i <= ts.len(),
                    e == json::entries(ts@),
                    text::texts(out@) == base + transition_skills(e, i as int),
                decreases ts.len() - i,
            {
                assert(e[i as int] == (ts@[i as int].0@, ts@[i as int].1@));
                collect_skills_strings(&ts[i].1, out);
                assert((base + transition_skills(e, i as int)) + skill_names(e[i as int].1) =~= base
                    + transition_skills(e, i + 1));
                i = i + 1;
            }
        },
        None => {
            assert(base + transition_skills(Seq::empty(), 0) =~= base);
        },
    }
}

/// The skills that a definition refers to.
pub fn collect_referenced_subjects(def: &Value) -> (r: Vec<String>)
    ensures
        text::texts(r@) == referenced_skills(def@),
{
    let mut out: Vec<String> = Vec::new();
    assert(text::texts(out@) =~= Seq::empty());
    collect_skills_strings(def, &mut out);
    let ghost base = skill_names(def@);
    assert(text::texts(out@) =~= base);
    match def.object_at("states") {
        Some(states) => {
            let ghost e = json::entries(states@);
            let mut i: usize = 0;
            assert(base + state_skills(e, 0) =~= base);
            while i < states.len()
                invariant
                    i <= states.len(),
                    e == json::entries(states@),
                    text::texts(out@) == base + state_skills(e, i as int),
                decreases states.len() - i,
            {
                assert(e[i as int] == (states@[i as int].0@, states@[i as int].1@));
                let ghost before = text::texts(out@);
                collect_state_subjects(&states[i].1, &mut out);
                proof {
                    let ts = e[i as int].1.entries_at("transitions"@);
                    let names = skill_names(e[i as int].1);
                    let rest = transition_skills(ts, ts.len() as int);
                    assert(before + names + rest =~= base + (state_skills(e, i as int) + names
                        + rest));
                }
                i = i + 1;
            }
        },
        None => {
            assert(base + state_skills(Seq::empty(), 0) =~= base);
        },
    }
    out
}

/// A definition with the skills that it refers to.
pub open spec fn with_skills(lib: Json) -> spec_fn(Seq<char>, Json) -> Json {
    |id: Seq<char>, def: Json| stamped(def, "_skillsLibrary"@, lib, referenced_skills(def))
}

/// A configuration whose workflows hold the skills that they refer to.
pub open spec fn skills_stamped(config: Json) -> Json {
    let e = config.entries_at("skills"@);
    if e.len() == 0 {
        config
    } else {
        over(config, "workflows"@, with_skills(skills_library(e, e.len() as int)))
    }
}

fn skills_library_of(skills: &Vec<(String, Value)>) -> (r: Value)
    ensures
        r@ == skills_library(json::entries(skills@), skills@.len() as int),
{
    let ghost e = json::entries(skills@);
    let mut lib = Value::object();
    let mut i: usize = 0;
    while i < skills.len()
        invariant
            i <= skills.len(),
            e == json::entries(skills@),
            lib@ == skills_library(e, i as int),
        decreases skills.len() - i,
    {
        assert(e[i as int] == (skills@[i as int].0@, skills@[i as int].1@));
        let entry = &skills[i].1;
        if let Some(verb) = entry.str_at("verb") {
            if let Some(lifecycle) = entry.str_at("lifecycle") {
                if let Some(body) = entry.str_at("body") {
                    let hash = config_hash::compute_skill_hash(body);
                    lib.set(
                        skills[i].0.as_str(),
                        fragment_value(
                            verb,
                            lifecycle,
                            body,
                            hash.as_str(),
                            source_name_of(entry),
                        ),
                    );
                }
            }
        }
        i = i + 1;
    }
    lib
}

/// Gives every workflow the skills that it refers to.
pub fn stamp_skills_library(config: Value) -> (r: Value)
    ensures
        r@ == skills_stamped(config@),
{
    let lib = match config.object_at("skills") {
        None => {
            return config;
        },
        Some(skills) => {
            if skills.len() == 0 {
                return config;
            }
            skills_library_of(skills)
        },
    };
    let ghost f = with_skills(lib@);
    let mut out: Vec<(String, Value)> = Vec::new();
    match config.object_at("workflows") {
        None => {
            return config;
        },
        Some(workflows) => {
            let ghost e = json::entries(workflows@);
            let mut i: usize = 0;
            assert(json::entries(out@) =~= mapped(e, f).take(0));
            while i < workflows.len()
                invariant
                    i <= workflows.len(),
                    e == json::entries(workflows@),
                    f == with_skills(lib@),
                    json::entries(out@) == mapped(e, f).take(i as int),
                decreases workflows.len() - i,
            {
                assert(e[i as int] == (workflows@[i as int].0@, workflows@[i as int].1@));
                let subjects = collect_referenced_subjects(&workflows[i].1);
                let d = stamp(&workflows[i].1, "_skillsLibrary", &lib, &subjects);
                let k = workflows[i].0.clone();
                proof {
                    lemma_mapped_take(e, f, i as int);
                    json::lemma_entries_push(out@, (k, d));
                }
                out.push((k, d));
                i = i + 1;
            }
            assert(mapped(e, f).take(i as int) =~= mapped(e, f));
        },
    }
    let mut c = config;
    c.set("workflows", Value::Object(out));
    c
}

// ---------------------------------------------------------------------------
// The library of scripts
// ---------------------------------------------------------------------------

/// What is wrong with a fetched script body: its hash must be the declared one.
pub open spec fn body_fault(
    subject: Seq<char>,
    uri: Seq<char>,
    declared: Seq<char>,
    body: Seq<char>,
) -> Option<Seq<char>> {
    if config_hash::script_hash(body) == declared {
        None
    } else {
        Some(
            "SCRIPT_HASH_MISMATCH: scripts entry '"@ + subject + "' uri '"@ + uri
                + "' resolved to a body whose content-hash is '"@ + config_hash::script_hash(body)
                + "' but the declared hash is '"@ + declared
                + "'. Either the external source has drifted since the workflow was authored, or the declared hash is wrong."@,
        )
    }
}

/// Checks a fetched script body against the declared hash.
pub fn check_script_body(subject: &str, uri: &str, declared: &str, body: &str) -> (r: Result<
    (),
    String,
>)
    ensures
        config_check::fault(r) == body_fault(subject@, uri@, declared@, body@),
{
    let computed = config_hash::compute_script_hash(body);
    if text::str_eq(computed.as_str(), declared) {
        Ok(())
    } else {
        Err(
            text::join9(
                "SCRIPT_HASH_MISMATCH: scripts entry '",
                subject,
                "' uri '",
                uri,
                "' resolved to a body whose content-hash is '",
                computed.as_str(),
                "' but the declared hash is '",
                declared,
                "'. Either the external source has drifted since the workflow was authored, or the declared hash is wrong.",
            ),
        )
    }
}

/// What is said of a script whose body is to be fetched and is not there.
pub open spec fn missing_body(subject: Seq<char>, uri: Seq<char>) -> Seq<char> {
    "scripts entry '"@ + subject + "' uri '"@ + uri + "' has no resolved body"@
}

/// A script for the library; `None` for one that stays out. A body that stands in the
/// configuration is taken as it is; one that is to be fetched must be there, and have
/// the declared hash.
pub open spec fn script_fragment(subject: Seq<char>, entry: Json, bodies: Json) -> Result<
    Option<Json>,
    Seq<char>,
> {
    match (entry.str_at("verb"@), entry.str_at("lifecycle"@)) {
        (Some(verb), Some(lifecycle)) => match (entry.str_at("body"@), entry.str_at("uri"@)) {
            (Some(b), None) => Ok(
                Some(
                    fragment(verb, lifecycle, b, config_hash::script_hash(b), source_name(entry)),
                ),
            ),
            (None, Some(uri)) => match entry.str_at("hash"@) {
                None => Err(
                    "scripts entry '"@ + subject
                        + "' uri-source without hash reached stamp_scripts_library — validate_scripts should have caught this"@,
                ),
                Some(declared) => match bodies.str_at(subject) {
                    None => Err(missing_body(subject, uri)),
                    Some(body) => match body_fault(subject, uri, declared, body) {
                        Some(m) => Err(m),
                        None => Ok(
                            Some(fragment(verb, lifecycle, body, declared, source_name(entry))),
                        ),
                    },
                },
            },
            _ => Ok(None),
        },
        _ => Ok(None),
    }
}

/// The library of the first `n` scripts.
pub open spec fn scripts_library(e: Seq<(Seq<char>, Json)>, bodies: Json, n: int) -> Result<
    Json,
    Seq<char>,
>
    decreases n,
{
    if n <= 0 {
        Ok(Json::empty())
    } else {
        match scripts_library(e, bodies, n - 1) {
            Err(m) => Err(m),
            Ok(lib) => match script_fragment(e[n - 1].0, e[n - 1].1, bodies) {
                Err(m) => Err(m),
                Ok(None) => Ok(lib),
                Ok(Some(x)) => Ok(lib.with(e[n - 1].0, x)),
            },
        }
    }
}

proof fn lemma_scripts_err(e: Seq<(Seq<char>, Json)>, bodies: Json, k: int, n: int)
    requires
        k <= n,
        scripts_library(e, bodies, k) is Err,
    ensures
        scripts_library(e, bodies, n) == scripts_library(e, bodies, k),
    decreases n - k,
{
    if k < n {
        lemma_scripts_err(e, bodies, k, n - 1);
    }
}

/// The script that a scope runs: its executor may stand in it or be it.
pub open spec fn script_name(scope: Option<Json>) -> Seq<Seq<char>> {
    match scope {
        None => Seq::empty(),
        Some(v) => {
            let x = match v.get("executor"@) {
                Some(inner) => if inner is Object {
                    inner
                } else {
                    v
                },
                None => v,
            };
            match (x.str_at("kind"@), x.str_at("subject"@)) {
                (Some(kind), Some(subject)) => if kind == "script"@ {
                    seq![subject]
                } else {
                    Seq::empty()
                },
                _ => Seq::empty(),
            }
        },
    }
}

/// The scripts that the first `n` transitions run.
pub open spec fn transition_scripts(ts: Seq<(Seq<char>, Json)>, n: int) -> Seq<Seq<char>>
    decreases n,
{
    if n <= 0 {
        Seq::empty()
    } else {
        transition_scripts(ts, n - 1) + script_name(ts[n - 1].1.get("executor"@))
    }
}

/// The scripts that the first `n` states run.
pub open spec fn state_scripts(e: Seq<(Seq<char>, Json)>, n: int) -> Seq<Seq<char>>
    decreases n,
{
    if n <= 0 {
        Seq::empty()
    } else {
        let ts = e[n - 1].1.entries_at("transitions"@);
        state_scripts(e, n - 1) + script_name(e[n - 1].1.get("onEnter"@)) + transition_scripts(
            ts,
            ts.len() as int,
        )
    }
}

/// The scripts that a definition runs.
pub open spec fn referenced_scripts(def: Json) -> Seq<Seq<char>> {
    let e = def.entries_at("states"@);
    script_name(def.get("onEnter"@)) + state_scripts(e, e.len() as int)
}

fn collect_script_subject_from(scope: Option<&Value>, out: &mut Vec<String>)
    ensures
        text::texts(final(out)@) == text::texts(old(out)@) + script_name(json::opt_view(scope)),
{
    let ghost base = text::texts(out@);
    assert(base + Seq::<Seq<char>>::empty() =~= base);
    let v = match scope {
        None => {
            return;
        },
        Some(v) => v,
    };
    let x = match v.get("executor") {
        Some(inner) => if inner.is_object() {
            inner
        } else {
            v
        },
        None => v,
    };
    if text::opt_is(x.str_at("kind"), "script") {
        if let Some(subject) = x.str_at("subject") {
            let s = subject.to_owned();
            proof {
                text::lemma_texts_push(out@, s);
                assert(base.push(s@) =~= base + seq![s@]);
            }
            out.push(s);
        }
    }
}

fn collect_state_scripts(state: &Value, out: &mut Vec<String>)
    ensures
        text::texts(final(out)@) == text::texts(old(out)@) + script_name(state@.get("onEnter"@))
            + transition_scripts(
            state@.entries_at("transitions"@),
            state@.entries_at("transitions"@).len() as int,
        ),
{
    collect_script_subject_from(state.get("onEnter"), out);
    let ghost base = text::texts(out@);
    match state.object_at("transitions") {
        Some(ts) => {
            let ghost e = json::entries(ts@);
            let mut i: usize = 0;
            assert(base + transition_scripts(e, 0) =~= base);
            while i < ts.len()
                invariant
                    i <= ts.len(),
                    e == json::entries(ts@),
                    text::texts(out@) == base + transition_scripts(e, i as int),
                decreases ts.len() - i,
            {
                assert(e[i as int] == (ts@[i as int].0@, ts@[i as int].1@));
                collect_script_subject_from(ts[i].1.get("executor"), out);
                assert((base + transition_scripts(e, i as int)) + script_name(
                    e[i as int].1.get("executor"@),
                ) =~= base + transition_scripts(e, i + 1));
                i = i + 1;
            }
        },
        None => {
            assert(base + transition_scripts(Seq::empty(), 0) =~= base);
        },
    }
}

/// The scripts that a definition runs.
pub fn collect_referenced_script_subjects(def: &Value) -> (r: Vec<String>)
    ensures
        text::texts(r@) == referenced_scripts(def@),
{
    let mut out: Vec<String> = Vec::new();
    assert(text::texts(out@) =~= Seq::empty());
    collect_script_subject_from(def.get("onEnter"), &mut out);
    let ghost base = script_name(def@.get("onEnter"@));
    assert(text::texts(out@) =~= base);
    match def.object_at("states") {
        Some(states) => {
            let ghost e = json::entries(states@);
            let mut i: usize = 0;
            assert(base + state_scripts(e, 0) =~= base);
            while i < states.len()
                invariant
                    i <= states.len(),
                    e == json::entries(states@),
                    text::texts(out@) == base + state_scripts(e, i as int),
                decreases states.len() - i,
            {
                assert(e[i as int] == (states@[i as int].0@, states@[i as int].1@));
                let ghost before = text::texts(out@);
                collect_state_scripts(&states[i].1, &mut out);
                proof {
                    let ts = e[i as int].1.entries_at("transitions"@);
                    let names = script_name(e[i as int].1.get("onEnter"@));
                    let rest = transition_scripts(ts, ts.len() as int);
                    assert(before + names + rest =~= base + (state_scripts(e, i as int) + names
                        + rest));
                }
                i = i + 1;
            }
        },
        None => {
            assert(base + state_scripts(Seq::empty(), 0) =~= base);
        },
    }
    out
}

/// A definition with the scripts that it runs.
pub open spec fn with_scripts(lib: Json) -> spec_fn(Seq<char>, Json) -> Json {
    |id: Seq<char>, def: Json| stamped(def, "_scriptsLibrary"@, lib, referenced_scripts(def))
}

/// A configuration whose workflows hold the scripts that they run. `bodies` holds the
/// bodies that were fetched, by subject.
pub open spec fn scripts_stamped(config: Json, bodies: Json) -> Result<Json, Seq<char>> {
    let e = config.entries_at("scripts"@);
    match scripts_library(e, bodies, e.len() as int) {
        Err(m) => Err(m),
        Ok(lib) => if e.len() == 0 {
            Ok(config)
        } else {
            Ok(over(config, "workflows"@, with_scripts(lib)))
        },
    }
}

/// The outcome for one script.
pub open spec fn fragment_result(r: Result<Option<Value>, String>) -> Result<
    Option<Json>,
    Seq<char>,
> {
    match r {
        Ok(o) => Ok(json::opt_owned_view(o)),
        Err(m) => Err(m@),
    }
}

fn script_fragment_of(subject: &str, entry: &Value, bodies: &Value) -> (r: Result<
    Option<Value>,
    String,
>)
    ensures
        fragment_result(r) == script_fragment(subject@, entry@, bodies@),
{
    let verb = match entry.str_at("verb") {
        Some(v) => v,
        None => {
            return Ok(None);
        },
    };
    let lifecycle = match entry.str_at("lifecycle") {
        Some(v) => v,
        None => {
            return Ok(None);
        },
    };
    let source = source_name_of(entry);
    match (entry.str_at("body"), entry.str_at("uri")) {
        (Some(b), None) => {
            let hash = config_hash::compute_script_hash(b);
            Ok(Some(fragment_value(verb, lifecycle, b, hash.as_str(), source)))
        },
        (None, Some(uri)) => {
            let declared = match entry.str_at("hash") {
                Some(h) => h,
                None => {
                    return Err(
                        text::join3(
                            "scripts entry '",
                            subject,
                            "' uri-source without hash reached stamp_scripts_library — validate_scripts should have caught this",
                        ),
                    );
                },
            };
            match bodies.str_at(subject) {
                None => Err(
                    text::join5(
                        "scripts entry '",
                        subject,
                        "' uri '",
                        uri,
                        "' has no resolved body",
                    ),
                ),
                Some(body) => match check_script_body(subject, uri, declared, body) {
                    Err(m) => Err(m),
                    Ok(_) => Ok(
                        Some(fragment_value(verb, lifecycle, body, declared, source)),
                    ),
                },
            }
        },
        _ => Ok(None),
    }
}

fn scripts_library_of(scripts: &Vec<(String, Value)>, bodies: &Value) -> (r: Result<Value, String>)
    ensures
        config_capabilities::value_result(r) == scripts_library(
            json::entries(scripts@),
            bodies@,
            scripts@.len() as int,
        ),
{
    let ghost e = json::entries(scripts@);
    let mut lib = Value::object();
    let mut i: usize = 0;
    while i < scripts.len()
        invariant
            i <= scripts.len(),
            e == json::entries(scripts@),
            scripts_library(e, bodies@, i as int) == Ok::<Json, Seq<char>>(lib@),
        decreases scripts.len() - i,
    {
        assert(e[i as int] == (scripts@[i as int].0@, scripts@[i as int].1@));
        match script_fragment_of(scripts[i].0.as_str(), &scripts[i].1, bodies) {
            Err(m) => {
                proof {
                    lemma_scripts_err(e, bodies@, i + 1, e.len() as int);
                }
                return Err(m);
            },
            Ok(None) => {},
            Ok(Some(x)) => {
                lib.set(scripts[i].0.as_str(), x);
            },
        }
        i = i + 1;
    }
    Ok(lib)
}

/// Gives every workflow the scripts that it runs.
pub fn stamp_scripts_library(config: Value, bodies: &Value) -> (r: Result<Value, String>)
    ensures
        config_capabilities::value_result(r) == scripts_stamped(config@, bodies@),
{
    let lib = match config.object_at("scripts") {
        None => {
            return Ok(config);
        },
        Some(scripts) => {
            if scripts.len() == 0 {
                return Ok(config);
            }
            match scripts_library_of(scripts, bodies) {
                Err(m) => {
                    return Err(m);
                },
                Ok(lib) => lib,
            }
        },
    };
    let ghost f = with_scripts(lib@);
    let mut out: Vec<(String, Value)> = Vec::new();
    match config.object_at("workflows") {
        None => {
            return Ok(config);
        },
        Some(workflows) => {
            let ghost e = json::entries(workflows@);
            let mut i: usize = 0;
            assert(json::entries(out@) =~= mapped(e, f).take(0));
            while i < workflows.len()
                invariant
                    i <= workflows.len(),
                    e == json::entries(workflows@),
                    f == with_scripts(lib@),
                    json::entries(out@) == mapped(e, f).take(i as int),
                decreases workflows.len() - i,
            {
                assert(e[i as int] == (workflows@[i as int].0@, workflows@[i as int].1@));
                let subjects = collect_referenced_script_subjects(&workflows[i].1);
                let d = stamp(&workflows[i].1, "_scriptsLibrary", &lib, &subjects);
                let k = workflows[i].0.clone();
                proof {
                    lemma_mapped_take(e, f, i as int);
                    json::lemma_entries_push(out@, (k, d));
                }
                out.push((k, d));
                i = i + 1;
            }
            assert(mapped(e, f).take(i as int) =~= mapped(e, f));
        },
    }
    let mut c = config;
    c.set("workflows", Value::Object(out));
    Ok(c)
}

/// The scripts whose bodies are to be fetched, among the first `n`: subject and uri.
pub open spec fn remote_scripts(e: Seq<(Seq<char>, Json)>, n: int) -> Seq<(Seq<char>, Seq<char>)>
    decreases n,
{
    if n <= 0 {
        Seq::empty()
    } else {
        match (e[n - 1].1.str_at("body"@), e[n - 1].1.str_at("uri"@)) {
            (None, Some(uri)) => remote_scripts(e, n - 1).push((e[n - 1].0, uri)),
            _ => remote_scripts(e, n - 1),
        }
    }
}

/// Pairs of texts.
pub open spec fn pairs(v: Seq<(String, String)>) -> Seq<(Seq<char>, Seq<char>)> {
    Seq::new(v.len(), |i: int| (v[i].0@, v[i].1@))
}

/// The scripts whose bodies are to be fetched, in order: subject and uri.
pub fn scripts_to_fetch(config: &Value) -> (r: Vec<(String, String)>)
    ensures
        pairs(r@) == remote_scripts(
            config@.entries_at("scripts"@),
            config@.entries_at("scripts"@).len() as int,
        ),
{
    let mut out: Vec<(String, String)> = Vec::new();
    assert(pairs(out@) =~= Seq::empty());
    if let Some(scripts) = config.object_at("scripts") {
        let ghost e = json::entries(scripts@);
        let mut i: usize = 0;
        while i < scripts.len()
            invariant
                i <= scripts.len(),
                e == json::entries(scripts@),
                pairs(out@) == remote_scripts(e, i as int),
            decreases scripts.len() - i,
        {
            assert(e[i as int] == (scripts@[i as int].0@, scripts@[i as int].1@));
            if scripts[i].1.str_at("body").is_none() {
                if let Some(uri) = scripts[i].1.str_at("uri") {
                    let x = (scripts[i].0.clone(), uri.to_owned());
                    assert(pairs(out@.push(x)) =~= pairs(out@).push((x.0@, x.1@)));
                    out.push(x);
                }
            }
            i = i + 1;
        }
    }
    out
}

// ---------------------------------------------------------------------------
// Authoring preferences
// ---------------------------------------------------------------------------

/// A configuration whose workflows hold the preferences for authoring, where there are
/// any.
pub open spec fn preferences_stamped(config: Json) -> Json {
    match config_check::at2(config, "flowgate"@, "authoring"@) {
        Some(Json::Object(e)) => if e.len() > 0 {
            over(config, "workflows"@, with_value("_authoringPrefs"@, Json::Object(e)))
        } else {
            config
        },
        _ => config,
    }
}

/// Gives every workflow the preferences for authoring.
pub fn stamp_authoring_preferences(config: Value) -> (r: Value)
    ensures
        r@ == preferences_stamped(config@),
{
    let prefs = match preferences_stamp_of(&config) {
        None => {
            return config;
        },
        Some(p) => p,
    };
    stamp_all(config, "_authoringPrefs", &prefs)
}

/// A definition with a value under a key.
pub open spec fn with_value(key: Seq<char>, v: Json) -> spec_fn(Seq<char>, Json) -> Json {
    |id: Seq<char>, def: Json|
        if def is Object {
            def.with(key, v)
        } else {
            def
        }
}

/// Gives every workflow a value under a key.
pub fn stamp_all(config: Value, key: &str, v: &Value) -> (r: Value)
    ensures
        r@ == over(config@, "workflows"@, with_value(key@, v@)),
{
    let ghost f = with_value(key@, v@);
    let mut out: Vec<(String, Value)> = Vec::new();
    match config.object_at("workflows") {
        None => {
            return config;
        },
        Some(workflows) => {
            let ghost e = json::entries(workflows@);
            let mut i: usize = 0;
            assert(json::entries(out@) =~= mapped(e, f).take(0));
            while i < workflows.len()
                invariant
                    i <= workflows.len(),
                    e == json::entries(workflows@),
                    f == with_value(key@, v@),
                    json::entries(out@) == mapped(e, f).take(i as int),
                decreases workflows.len() - i,
            {
                assert(e[i as int] == (workflows@[i as int].0@, workflows@[i as int].1@));
                let mut d = workflows[i].1.dup();
                if d.is_object() {
                    d.set(key, v.dup());
                }
                let k = workflows[i].0.clone();
                proof {
                    lemma_mapped_take(e, f, i as int);
                    json::lemma_entries_push(out@, (k, d));
                }
                out.push((k, d));
                i = i + 1;
            }
            assert(mapped(e, f).take(i as int) =~= mapped(e, f));
        },
    }
    let mut c = config;
    c.set("workflows", Value::Object(out));
    c
}

// ---------------------------------------------------------------------------
// What is written into a definition
// ---------------------------------------------------------------------------

/// The library of skills of a configuration, where it has skills.
pub open spec fn skills_stamp(c: Json) -> Option<Json> {
    let e = c.entries_at("skills"@);
    if e.len() == 0 {
        None
    } else {
        Some(skills_library(e, e.len() as int))
    }
}

/// The preferences for authoring of a configuration, where it has any.
pub open spec fn preferences_stamp(c: Json) -> Option<Json> {
    match config_check::at2(c, "flowgate"@, "authoring"@) {
        Some(Json::Object(e)) => if e.len() > 0 {
            Some(Json::Object(e))
        } else {
            None
        },
        _ => None,
    }
}

/// A value, unless it is an empty object.
pub open spec fn filled(v: Json) -> Option<Json> {
    if v == Json::empty() {
        None
    } else {
        Some(v)
    }
}

/// The body of a subject that a library holds, as if it had been fetched.
pub open spec fn held_body(held: Option<Json>, subject: Seq<char>) -> Json {
    match held {
        Some(lib) => match lib.get(subject) {
            Some(x) => match x.str_at("body"@) {
                Some(body) => Json::empty().with(subject, Json::String(body)),
                None => Json::empty(),
            },
            None => Json::empty(),
        },
        None => Json::empty(),
    }
}

/// The library of the scripts that the first `n` subjects name, where the bodies that
/// are to be fetched are those that a library holds already.
pub open spec fn held_scripts(
    scripts: Option<Json>,
    held: Option<Json>,
    subjects: Seq<Seq<char>>,
    n: int,
) -> Json
    decreases n,
{
    if n <= 0 {
        Json::empty()
    } else {
        let before = held_scripts(scripts, held, subjects, n - 1);
        let subject = subjects[n - 1];
        match script_at(scripts, subject) {
            Some(entry) => match script_fragment(subject, entry, held_body(held, subject)) {
                Ok(Some(x)) => before.with(subject, x),
                _ => before,
            },
            None => before,
        }
    }
}

/// The script of a subject.
pub open spec fn script_at(scripts: Option<Json>, subject: Seq<char>) -> Option<Json> {
    match scripts {
        Some(v) => v.get(subject),
        None => None,
    }
}

/// What resolution writes into a definition, by the key that it writes it under. Which
/// body a script has that is to be fetched is not known before it is; what the
/// definition holds is taken for it where it has the declared hash.
pub open spec fn written(c: Json, def: Json) -> Json {
    let skills = match skills_stamp(c) {
        Some(lib) => {
            let subjects = referenced_skills(def);
            filled(scoped(lib, subjects, subjects.len() as int))
        },
        None => None,
    };
    let names = referenced_scripts(def);
    let scripts = filled(
        held_scripts(c.get("scripts"@), def.get("_scriptsLibrary"@), names, names.len() as int),
    );
    let a = config_capabilities::with_some(Json::empty(), "_skillsLibrary"@, skills);
    let b = config_capabilities::with_some(a, "_scriptsLibrary"@, scripts);
    let d = config_capabilities::with_some(b, "_authoringPrefs"@, preferences_stamp(c));
    config_capabilities::with_some(d, "_lexiconLibrary"@, c.get("lexicon"@))
}

/// The library of skills of a configuration, where it has skills.
pub fn skills_stamp_of(config: &Value) -> (r: Option<Value>)
    ensures
        json::opt_owned_view(r) == skills_stamp(config@),
{
    match config.object_at("skills") {
        None => None,
        Some(skills) => {
            if skills.len() == 0 {
                None
            } else {
                Some(skills_library_of(skills))
            }
        },
    }
}

/// The preferences for authoring of a configuration, where it has any.
fn preferences_stamp_of(config: &Value) -> (r: Option<Value>)
    ensures
        json::opt_owned_view(r) == preferences_stamp(config@),
{
    match config_check::get2(config, "flowgate", "authoring") {
        None => None,
        Some(p) => match p.as_object() {
            None => None,
            Some(e) => {
                if e.len() == 0 {
                    None
                } else {
                    Some(p.dup())
                }
            },
        },
    }
}

fn held_body_of(held: Option<&Value>, subject: &str) -> (r: Value)
    ensures
        r@ == held_body(json::opt_view(held), subject@),
{
    let mut out = Value::object();
    if let Some(lib) = held {
        if let Some(x) = lib.get(subject) {
            if let Some(body) = x.str_at("body") {
                out.set(subject, Value::text(body));
            }
        }
    }
    out
}

fn held_scripts_of(scripts: Option<&Value>, held: Option<&Value>, subjects: &Vec<String>) -> (r:
    Value)
    ensures
        r@ == held_scripts(
            json::opt_view(scripts),
            json::opt_view(held),
            text::texts(subjects@),
            subjects@.len() as int,
        ),
{
    let ghost ss = text::texts(subjects@);
    let mut out = Value::object();
    let mut i: usize = 0;
    while i < subjects.len()
        invariant
            i <= subjects.len(),
            ss == text::texts(subjects@),
            out@ == held_scripts(json::opt_view(scripts), json::opt_view(held), ss, i as int),
        decreases subjects.len() - i,
    {
        assert(ss[i as int] == subjects@[i as int]@);
        let subject = subjects[i].as_str();
        if let Some(v) = scripts {
            if let Some(entry) = v.get(subject) {
                let bodies = held_body_of(held, subject);
                if let Ok(Some(x)) = script_fragment_of(subject, entry, &bodies) {
                    out.set(subject, x);
                }
            }
        }
        i = i + 1;
    }
    out
}

/// What resolution writes into a definition, by the key that it writes it under.
/// `skills` is the library of skills of the configuration.
pub fn written_of(config: &Value, skills: &Option<Value>, def: &Value) -> (r: Value)
    requires
        json::opt_owned_view(*skills) == skills_stamp(config@),
    ensures
        r@ == written(config@, def@),
{
    let none = Value::object();
    let mut out = Value::object();
    if let Some(lib) = skills {
        let subjects = collect_referenced_subjects(def);
        let part = scoped_of(lib, &subjects);
        if !part.same(&none) {
            out.set("_skillsLibrary", part);
        }
    }
    let names = collect_referenced_script_subjects(def);
    let part = held_scripts_of(config.get("scripts"), def.get("_scriptsLibrary"), &names);
    if !part.same(&none) {
        out.set("_scriptsLibrary", part);
    }
    if let Some(p) = preferences_stamp_of(config) {
        out.set("_authoringPrefs", p);
    }
    if let Some(terms) = config.get("lexicon") {
        out.set("_lexiconLibrary", terms.dup());
    }
    out
}

// ---------------------------------------------------------------------------
// Questions to humans
// ---------------------------------------------------------------------------

/// What a question to a human must say.
#[verifier::opaque]
pub open spec fn question_schema() -> Json {
    Json::empty().with("type"@, Json::String("object"@)).with("required"@, Json::Array(seq![Json::String("question"@), Json::String("context_summary"@), Json::String("attempted_alternatives"@)])).with("properties"@, Json::empty().with("question"@, Json::empty().with("type"@, Json::String("string"@)).with("minLength"@, Json::Number(Number::PosInt(1))).with("maxLength"@, Json::Number(Number::PosInt(2000))).with("description"@, Json::String("The question for the human. Be specific; the human can't see your reasoning chain."@))).with("context_summary"@, Json::empty().with("type"@, Json::String("string"@)).with("minLength"@, Json::Number(Number::PosInt(1))).with("maxLength"@, Json::Number(Number::PosInt(1000))).with("description"@, Json::String("Brief context — what you're trying to do, what state you're in."@))).with("attempted_alternatives"@, Json::empty().with("type"@, Json::String("string"@)).with("minLength"@, Json::Number(Number::PosInt(1))).with("maxLength"@, Json::Number(Number::PosInt(1000))).with("description"@, Json::String("What you already tried (docs, scripts, other tools) before asking. Agents must demonstrate effort before interrupting humans."@))))
}

fn question_schema_value() -> (r: Value)
    ensures
        r@ == question_schema(),
{
    proof {
        reveal(question_schema);
    }
    Value::object().and("type", Value::text("object")).and("required", json::list3(Value::text("question"), Value::text("context_summary"), Value::text("attempted_alternatives"))).and("properties", Value::object().and("question", Value::object().and("type", Value::text("string")).and("minLength", Value::uint(1)).and("maxLength", Value::uint(2000)).and("description", Value::text("The question for the human. Be specific; the human can't see your reasoning chain."))).and("context_summary", Value::object().and("type", Value::text("string")).and("minLength", Value::uint(1)).and("maxLength", Value::uint(1000)).and("description", Value::text("Brief context — what you're trying to do, what state you're in."))).and("attempted_alternatives", Value::object().and("type", Value::text("string")).and("minLength", Value::uint(1)).and("maxLength", Value::uint(1000)).and("description", Value::text("What you already tried (docs, scripts, other tools) before asking. Agents must demonstrate effort before interrupting humans."))))
}

/// What the answer to a question must say.
#[verifier::opaque]
pub open spec fn answer_schema() -> Json {
    Json::empty().with("type"@, Json::String("object"@)).with("required"@, Json::Array(seq![Json::String("answer"@)])).with("properties"@, Json::empty().with("answer"@, Json::empty().with("type"@, Json::String("string"@)).with("minLength"@, Json::Number(Number::PosInt(1))).with("description"@, Json::String("The human's answer."@))))
}

fn answer_schema_value() -> (r: Value)
    ensures
        r@ == answer_schema(),
{
    proof {
        reveal(answer_schema);
    }
    Value::object().and("type", Value::text("object")).and("required", json::list1(Value::text("answer"))).and("properties", Value::object().and("answer", Value::object().and("type", Value::text("string")).and("minLength", Value::uint(1)).and("description", Value::text("The human's answer."))))
}

/// The transition by which a question is put to a human. It stays in the state.
#[verifier::opaque]
pub open spec fn question(state: Seq<char>, cap: u64) -> Json {
    Json::empty().with("target"@, Json::String(state)).with("actor"@, Json::String("human"@)).with("purpose"@, Json::String("ask"@)).with("lightweight"@, Json::Bool(true)).with("max_fires_per_visit"@, Json::Number(Number::PosInt(cap))).with("inputSchema"@, question_schema()).with("outputSchema"@, answer_schema())
}

fn question_value(state: &str, cap: u64) -> (r: Value)
    ensures
        r@ == question(state@, cap),
{
    proof {
        reveal(question);
    }
    Value::object().and("target", Value::text(state)).and("actor", Value::text("human")).and("purpose", Value::text("ask")).and("lightweight", Value::Bool(true)).and("max_fires_per_visit", Value::uint(cap)).and("inputSchema", question_schema_value()).and("outputSchema", answer_schema_value())
}

/// A state with a question, unless it is terminal or has one.
pub open spec fn asking_state(cap: u64) -> spec_fn(Seq<char>, Json) -> Json {
    |state: Seq<char>, s: Json|
        if s.bool_at("terminal"@) == Some(true) || !(s is Object) {
            s
        } else {
            let ts = match s.get("transitions"@) {
                Some(t) => t,
                None => Json::empty(),
            };
            if ts.has("ask_human"@) {
                s
            } else {
                s.with("transitions"@, ts.with("ask_human"@, question(state, cap)))
            }
        }
}

/// How often a question may be put while a workflow stays in a state.
pub open spec fn ask_cap(def: Json) -> u64 {
    match def.u64_at("human_ask_cap"@) {
        Some(n) => n,
        None => 5,
    }
}

/// A definition with questions in its states, where it enables them.
pub open spec fn asking() -> spec_fn(Seq<char>, Json) -> Json {
    |id: Seq<char>, def: Json|
        if def.bool_at("enable_human_ask"@) == Some(true) {
            over(def, "states"@, asking_state(ask_cap(def)))
        } else {
            def
        }
}

/// A configuration with questions in the states of the workflows that enable them.
pub open spec fn questions_added(config: Json) -> Json {
    over(config, "workflows"@, asking())
}

/// A question can be added to the state: its transitions, where it has any, are a
/// mapping.
pub open spec fn state_ready(s: Json) -> bool {
    s is Object && s.bool_at("terminal"@) != Some(true) && s.has("transitions"@)
        ==> s.object_at("transitions"@) is Some
}

/// Questions can be added to the states of the definition.
pub open spec fn definition_ready(def: Json) -> bool {
    def.bool_at("enable_human_ask"@) == Some(true) ==> forall|i: int|
        0 <= i < def.entries_at("states"@).len() ==> state_ready(
            (#[trigger] def.entries_at("states"@)[i]).1,
        )
}

/// Questions can be added wherever they are enabled.
pub open spec fn questions_ready(config: Json) -> bool {
    forall|i: int|
        0 <= i < config.entries_at("workflows"@).len() ==> definition_ready(
            (#[trigger] config.entries_at("workflows"@)[i]).1,
        )
}

fn state_is_ready(s: &Value) -> (r: bool)
    ensures
        r == state_ready(s@),
{
    let terminal = match s.bool_at("terminal") {
        Some(b) => b,
        None => false,
    };
    if s.is_object() && !terminal && s.has("transitions") {
        s.object_at("transitions").is_some()
    } else {
        true
    }
}

fn definition_is_ready(def: &Value) -> (r: bool)
    ensures
        r == definition_ready(def@),
{
    let enabled = match def.bool_at("enable_human_ask") {
        Some(b) => b,
        None => false,
    };
    if !enabled {
        return true;
    }
    if let Some(states) = def.object_at("states") {
        let ghost e = json::entries(states@);
        let mut i: usize = 0;
        while i < states.len()
            invariant
                i <= states.len(),
                e == json::entries(states@),
                e == def@.entries_at("states"@),
                def@.bool_at("enable_human_ask"@) == Some(true),
                forall|j: int| 0 <= j < i ==> state_ready((#[trigger] e[j]).1),
            decreases states.len() - i,
        {
            assert(e[i as int] == (states@[i as int].0@, states@[i as int].1@));
            if !state_is_ready(&states[i].1) {
                assert(!state_ready(def@.entries_at("states"@)[i as int].1));
                return false;
            }
            i = i + 1;
        }
    }
    true
}

/// Whether questions can be added wherever they are enabled.
pub fn questions_are_ready(config: &Value) -> (r: bool)
    ensures
        r == questions_ready(config@),
{
    if let Some(workflows) = config.object_at("workflows") {
        let ghost e = json::entries(workflows@);
        let mut i: usize = 0;
        while i < workflows.len()
            invariant
                i <= workflows.len(),
                e == json::entries(workflows@),
                e == config@.entries_at("workflows"@),
                forall|j: int| 0 <= j < i ==> definition_ready((#[trigger] e[j]).1),
            decreases workflows.len() - i,
        {
            assert(e[i as int] == (workflows@[i as int].0@, workflows@[i as int].1@));
            if !definition_is_ready(&workflows[i].1) {
                assert(!definition_ready(config@.entries_at("workflows"@)[i as int].1));
                return false;
            }
            i = i + 1;
        }
    }
    true
}

fn ask_in_state(cap: u64, state: &str, s: &Value) -> (r: Value)
    requires
        state_ready(s@),
    ensures
        r@ == asking_state(cap)(state@, s@),
{
    let terminal = match s.bool_at("terminal") {
        Some(b) => b,
        None => false,
    };
    let mut d = s.dup();
    if terminal || !s.is_object() {
        return d;
    }
    let mut ts = match s.get("transitions") {
        Some(t) => t.dup(),
        None => Value::object(),
    };
    if !ts.has("ask_human") {
        ts.set("ask_human", question_value(state, cap));
        d.set("transitions", ts);
    }
    d
}

fn ask_in_definition(def: &Value) -> (r: Value)
    requires
        definition_ready(def@),
    ensures
        r@ == asking()(Seq::empty(), def@),
{
    let enabled = match def.bool_at("enable_human_ask") {
        Some(b) => b,
        None => false,
    };
    if !enabled {
        return def.dup();
    }
    let cap: u64 = match def.u64_at("human_ask_cap") {
        Some(n) => n,
        None => 5,
    };
    let ghost f = asking_state(ask_cap(def@));
    let mut out: Vec<(String, Value)> = Vec::new();
    match def.object_at("states") {
        None => {
            return def.dup();
        },
        Some(states) => {
            let ghost e = json::entries(states@);
            let mut i: usize = 0;
            assert(json::entries(out@) =~= mapped(e, f).take(0));
            while i < states.len()
                invariant
                    i <= states.len(),
                    e == json::entries(states@),
                    e == def@.entries_at("states"@),
                    definition_ready(def@),
                    def@.bool_at("enable_human_ask"@) == Some(true),
                    cap == ask_cap(def@),
                    f == asking_state(cap),
                    json::entries(out@) == mapped(e, f).take(i as int),
                decreases states.len() - i,
            {
                assert(e[i as int] == (states@[i as int].0@, states@[i as int].1@));
                assert(state_ready(def@.entries_at("states"@)[i as int].1));
                let d = ask_in_state(cap, states[i].0.as_str(), &states[i].1);
                let k = states[i].0.clone();
                proof {
                    lemma_mapped_take(e, f, i as int);
                    json::lemma_entries_push(out@, (k, d));
                }
                out.push((k, d));
                i = i + 1;
            }
            assert(mapped(e, f).take(i as int) =~= mapped(e, f));
        },
    }
    let mut d = def.dup();
    d.set("states", Value::Object(out));
    d
}

/// Adds a question to every state that is not terminal, in every workflow that enables
/// questions. A question that is already there stays.
pub fn inject_human_ask_transitions(config: Value) -> (r: Value)
    requires
        questions_ready(config@),
    ensures
        r@ == questions_added(config@),
{
    let ghost f = asking();
    let mut out: Vec<(String, Value)> = Vec::new();
    match config.object_at("workflows") {
        None => {
            return config;
        },
        Some(workflows) => {
            let ghost e = json::entries(workflows@);
            let mut i: usize = 0;
            assert(json::entries(out@) =~= mapped(e, f).take(0));
            while i < workflows.len()
                invariant
                    i <= workflows.len(),
                    e == json::entries(workflows@),
                    e == config@.entries_at("workflows"@),
                    questions_ready(config@),
                    f == asking(),
                    json::entries(out@) == mapped(e, f).take(i as int),
                decreases workflows.len() - i,
            {
                assert(e[i as int] == (workflows@[i as int].0@, workflows@[i as int].1@));
                assert(definition_ready(config@.entries_at("workflows"@)[i as int].1));
                let d = ask_in_definition(&workflows[i].1);
                let k = workflows[i].0.clone();
                proof {
                    lemma_mapped_take(e, f, i as int);
                    json::lemma_entries_push(out@, (k, d));
                }
                out.push((k, d));
                i = i + 1;
            }
            assert(mapped(e, f).take(i as int) =~= mapped(e, f));
        },
    }
    let mut c = config;
    c.set("workflows", Value::Object(out));
    c
}

// ---------------------------------------------------------------------------
// Use bindings
// ---------------------------------------------------------------------------

/// The context slot that a host path names.
pub fn host_path_tail(host_path: &str) -> (r: Option<String>)
    ensures
        text::opt_text(r) == validate_rules::slot_tail(host_path@),
{
    match text::strip_prefix(host_path, "$.context.") {
        Some(tail) => {
            if validate_rules::slot_name_ok(tail) {
                Some(tail.to_owned())
            } else {
                None
            }
        },
        None => None,
    }
}

/// The output mapping that the first `n` bindings stand for. One that is malformed
/// stays out.
pub open spec fn bound_outputs(outs: Seq<(Seq<char>, Json)>, n: int) -> Json
    decreases n,
{
    if n <= 0 {
        Json::empty()
    } else {
        let before = bound_outputs(outs, n - 1);
        match (outs[n - 1].1.as_str(), validate_rules::slot_tail(outs[n - 1].0)) {
            (Some(name), Some(tail)) => before.with(tail, Json::String("$.output."@ + name)),
            _ => before,
        }
    }
}

/// An object with the first `n` entries bound on top.
pub open spec fn overlaid(o: Json, e: Seq<(Seq<char>, Json)>, n: int) -> Json
    decreases n,
{
    if n <= 0 {
        o
    } else {
        overlaid(o, e, n - 1).with(e[n - 1].0, e[n - 1].1)
    }
}

/// The outputs that the snippet of a workflow declares.
pub open spec fn snippet_schema(workflows: Json, id: Seq<char>) -> Option<Json> {
    match workflows.get(id) {
        Some(def) => config_check::at2(def, "snippet"@, "outputs"@),
        None => None,
    }
}

/// The executor of a transition that uses another workflow, what it binds and the
/// workflow that it uses.
pub open spec fn use_of(t: Json) -> Option<(Json, Json, Seq<char>)> {
    match t.get("executor"@) {
        Some(x) => match (x.str_at("kind"@), x.get("use"@), x.str_at("definitionId"@)) {
            (Some(kind), Some(u), Some(id)) => if kind == "workflow"@ {
                Some((x, u, id))
            } else {
                None
            },
            _ => None,
        },
        None => None,
    }
}

/// How the use binding of a transition fills a slot, where it does.
pub open spec fn bound_slot(t: Json, slot: Seq<char>) -> Option<Json> {
    match use_of(t) {
        Some((_, u, _)) => match u.object_at("outputs"@) {
            Some(outs) => bound_outputs(outs, outs.len() as int).get(slot),
            None => None,
        },
        None => None,
    }
}

/// How the use binding of a transition fills a slot, where it does.
pub fn bound_slot_of(t: &Value, slot: &str) -> (r: Option<Value>)
    ensures
        json::opt_owned_view(r) == bound_slot(t@, slot@),
{
    let x = match t.get("executor") {
        Some(x) => x,
        None => {
            return None;
        },
    };
    if !text::opt_is(x.str_at("kind"), "workflow") || x.str_at("definitionId").is_none() {
        return None;
    }
    match x.get("use") {
        Some(u) => match u.object_at("outputs") {
            Some(outs) => match bound_outputs_of(outs).get(slot) {
                Some(v) => Some(v.dup()),
                None => None,
            },
            None => None,
        },
        None => None,
    }
}

/// A transition that uses another workflow: its executor holds the outputs that the
/// other declares, and its output mapping holds what the binding says. What the
/// transition maps itself goes before that.
pub open spec fn expanded(t: Json, workflows: Json) -> Json {
    match use_of(t) {
        None => t,
        Some((x, u, id)) => {
            let a = t.with(
                "executor"@,
                config_capabilities::with_some(
                    x,
                    "_snippetOutputs"@,
                    snippet_schema(workflows, id),
                ),
            );
            match u.object_at("outputs"@) {
                None => a,
                Some(outs) => {
                    let own = a.entries_at("output"@);
                    a.with(
                        "output"@,
                        overlaid(
                            bound_outputs(outs, outs.len() as int),
                            own,
                            own.len() as int,
                        ),
                    )
                },
            }
        },
    }
}

/// A transition with its use binding expanded.
pub open spec fn expand_transition(workflows: Json) -> spec_fn(Seq<char>, Json) -> Json {
    |name: Seq<char>, t: Json| expanded(t, workflows)
}

/// A state with the use bindings of its transitions expanded.
pub open spec fn expand_state(workflows: Json) -> spec_fn(Seq<char>, Json) -> Json {
    |name: Seq<char>, s: Json| over(s, "transitions"@, expand_transition(workflows))
}

/// A definition with the use bindings of its transitions expanded.
pub open spec fn expand_definition(workflows: Json) -> spec_fn(Seq<char>, Json) -> Json {
    |id: Seq<char>, def: Json| over(def, "states"@, expand_state(workflows))
}

/// A configuration with the use bindings of all transitions expanded.
pub open spec fn uses_expanded(config: Json) -> Json {
    match config.get("workflows"@) {
        Some(w) => over(config, "workflows"@, expand_definition(w)),
        None => config,
    }
}

fn bound_outputs_of(outs: &Vec<(String, Value)>) -> (r: Value)
    ensures
        r@ == bound_outputs(json::entries(outs@), outs@.len() as int),
{
    let ghost e = json::entries(outs@);
    let mut out = Value::object();
    let mut i: usize = 0;
    while i < outs.len()
        invariant
            i <= outs.len(),
            e == json::entries(outs@),
            out@ == bound_outputs(e, i as int),
        decreases outs.len() - i,
    {
        assert(e[i as int] == (outs@[i as int].0@, outs@[i as int].1@));
        if let Some(name) = outs[i].1.as_str() {
            if let Some(tail) = host_path_tail(outs[i].0.as_str()) {
                out.set(tail.as_str(), Value::String(text::join2("$.output.", name)));
            }
        }
        i = i + 1;
    }
    out
}

/// Binds entries on top of an object.
pub fn overlay(o: Value, v: &Vec<(String, Value)>) -> (r: Value)
    ensures
        r@ == overlaid(o@, json::entries(v@), v@.len() as int),
{
    let ghost e = json::entries(v@);
    let ghost base = o@;
    let mut out = o;
    let mut i: usize = 0;
    while i < v.len()
        invariant
            i <= v.len(),
            e == json::entries(v@),
            out@ == overlaid(base, e, i as int),
        decreases v.len() - i,
    {
        assert(e[i as int] == (v@[i as int].0@, v@[i as int].1@));
        out.set(v[i].0.as_str(), v[i].1.dup());
        i = i + 1;
    }
    out
}

fn expand_one_transition(t: &Value, workflows: &Value) -> (r: Value)
    ensures
        r@ == expanded(t@, workflows@),
{
    let x = match t.get("executor") {
        Some(x) => x,
        None => {
            return t.dup();
        },
    };
    if !text::opt_is(x.str_at("kind"), "workflow") {
        return t.dup();
    }
    let u = match x.get("use") {
        Some(u) => u,
        None => {
            return t.dup();
        },
    };
    let id = match x.str_at("definitionId") {
        Some(id) => id,
        None => {
            return t.dup();
        },
    };
    let mut x2 = x.dup();
    if let Some(def) = workflows.get(id) {
        if let Some(schema) = config_check::get2(def, "snippet", "outputs") {
            x2.set("_snippetOutputs", schema.dup());
        }
    }
    let a = t.dup().and("executor", x2);
    match u.object_at("outputs") {
        None => a,
        Some(outs) => {
            let bound = bound_outputs_of(outs);
            let merged = match a.object_at("output") {
                Some(own) => overlay(bound, own),
                None => bound,
            };
            a.and("output", merged)
        },
    }
}

fn expand_in_state(s: &Value, workflows: &Value) -> (r: Value)
    ensures
        r@ == over(s@, "transitions"@, expand_transition(workflows@)),
{
    let ghost f = expand_transition(workflows@);
    let mut out: Vec<(String, Value)> = Vec::new();
    match s.object_at("transitions") {
        None => {
            return s.dup();
        },
        Some(ts) => {
            let ghost e = json::entries(ts@);
            let mut i: usize = 0;
            assert(json::entries(out@) =~= mapped(e, f).take(0));
            while i < ts.len()
                invariant
                    i <= ts.len(),
                    e == json::entries(ts@),
                    f == expand_transition(workflows@),
                    json::entries(out@) == mapped(e, f).take(i as int),
                decreases ts.len() - i,
            {
                assert(e[i as int] == (ts@[i as int].0@, ts@[i as int].1@));
                let d = expand_one_transition(&ts[i].1, workflows);
                let k = ts[i].0.clone();
                proof {
                    lemma_mapped_take(e, f, i as int);
                    json::lemma_entries_push(out@, (k, d));
                }
                out.push((k, d));
                i = i + 1;
            }
            assert(mapped(e, f).take(i as int) =~= mapped(e, f));
        },
    }
    let mut d = s.dup();
    d.set("transitions", Value::Object(out));
    d
}

fn expand_in_definition(def: &Value, workflows: &Value) -> (r: Value)
    ensures
        r@ == over(def@, "states"@, expand_state(workflows@)),
{
    let ghost f = expand_state(workflows@);
    let mut out: Vec<(String, Value)> = Vec::new();
    match def.object_at("states") {
        None => {
            return def.dup();
        },
        Some(states) => {
            let ghost e = json::entries(states@);
            let mut i: usize = 0;
            assert(json::entries(out@) =~= mapped(e, f).take(0));
            while i < states.len()
                invariant
                    i <= states.len(),
                    e == json::entries(states@),
                    f == expand_state(workflows@),
                    json::entries(out@) == mapped(e, f).take(i as int),
                decreases states.len() - i,
            {
                assert(e[i as int] == (states@[i as int].0@, states@[i as int].1@));
                let d = expand_in_state(&states[i].1, workflows);
                let k = states[i].0.clone();
                proof {
                    lemma_mapped_take(e, f, i as int);
                    json::lemma_entries_push(out@, (k, d));
                }
                out.push((k, d));
                i = i + 1;
            }
            assert(mapped(e, f).take(i as int) =~= mapped(e, f));
        },
    }
    let mut d = def.dup();
    d.set("states", Value::Object(out));
    d
}

/// Expands the use bindings of all transitions.
pub fn expand_use_bindings(config: Value) -> (r: Value)
    ensures
        r@ == uses_expanded(config@),
{
    let mut out: Vec<(String, Value)> = Vec::new();
    let w = match config.get("workflows") {
        None => {
            return config;
        },
        Some(w) => w,
    };
    match w {
        Value::Object(workflows) => {
            let ghost f = expand_definition(w@);
            let ghost e = json::entries(workflows@);
            let mut i: usize = 0;
            assert(json::entries(out@) =~= mapped(e, f).take(0));
            while i < workflows.len()
                invariant
                    i <= workflows.len(),
                    e == json::entries(workflows@),
                    w@ == Json::Object(e),
                    f == expand_definition(w@),
                    json::entries(out@) == mapped(e, f).take(i as int),
                decreases workflows.len() - i,
            {
                assert(e[i as int] == (workflows@[i as int].0@, workflows@[i as int].1@));
                let d = expand_in_definition(&workflows[i].1, w);
                let k = workflows[i].0.clone();
                proof {
                    lemma_mapped_take(e, f, i as int);
                    json::lemma_entries_push(out@, (k, d));
                }
                out.push((k, d));
                i = i + 1;
            }
            assert(mapped(e, f).take(i as int) =~= mapped(e, f));
        },
        _ => {
            return config;
        },
    }
    let mut c = config;
    c.set("workflows", Value::Object(out));
    c
}

} // verus!
