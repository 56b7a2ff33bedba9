//! Resolution of a configuration: capabilities are put in the place of the references
//! to them, the configuration is checked, and its workflows get what they need to run
//! by themselves.
pub use crate::config_check::{Diagnostic, DiagnosticSeverity};
pub use crate::config_hash::{
    compute_script_hash, compute_skill_hash, normalize_for_hash, normalize_for_script_hash,
};
pub use crate::config_merge::deep_merge;

use crate::config_capabilities;
use crate::config_check;
use crate::config_check::FindingView;
use crate::config_stamp;
use crate::json;
use crate::json::{Json, Value};
use crate::lexicon;
use crate::text;
use vstd::prelude::*;

verus! {

// ---------------------------------------------------------------------------
// Capabilities
// ---------------------------------------------------------------------------

/// A configuration with the capabilities put in that executors inside it refer to, and
/// without the capabilities themselves.
pub open spec fn settled(c: Json, reg: config_capabilities::Registry) -> Result<Json, Seq<char>> {
    let n = choose|n: nat| #[trigger] config_capabilities::settled_within(c, reg, n) is Some;
    config_capabilities::settled_within(c, reg, n)->Some_0
}

/// A configuration with its capabilities put in and taken out.
pub open spec fn flattened(config: Json) -> Result<Json, Seq<char>> {
    match config_capabilities::registry(config) {
        Err(m) => Err(m),
        Ok(reg) => match config_capabilities::exposures_resolved(config, reg) {
            Err(m) => Err(m),
            Ok(c) => settled(c, reg),
        },
    }
}

/// The capabilities of a configuration are nested no deeper than that.
pub open spec fn nested_within(config: Json, depth: nat) -> bool {
    match config_capabilities::registry(config) {
        Err(_) => true,
        Ok(reg) => match config_capabilities::exposures_resolved(config, reg) {
            Err(_) => true,
            Ok(c) => config_capabilities::settled_within(c, reg, depth) is Some,
        },
    }
}

/// Whether the capabilities of a configuration are nested no deeper than that.
pub fn capabilities_nest_within(config: &Value, depth: u64) -> (r: bool)
    ensures
        r == nested_within(config@, depth as nat),
{
    match config_capabilities::flatten_capabilities(config) {
        Err(_) => true,
        Ok(reg) => match config_capabilities::resolve_exposures(config.dup(), &reg) {
            Err(_) => true,
            Ok(c) => config_capabilities::settle_config(&c, &reg, depth).is_some(),
        },
    }
}

/// Nesting that ends within one depth ends within every greater one.
pub proof fn law_nesting_is_monotone(config: Json, n: nat, m: nat)
    requires
        n <= m,
        nested_within(config, n),
    ensures
        nested_within(config, m),
{
    if let Ok(reg) = config_capabilities::registry(config) {
        if let Ok(c) = config_capabilities::exposures_resolved(config, reg) {
            config_capabilities::law_settling_depth(c, reg, n, m);
        }
    }
}

/// The capabilities with a name that has a dot in it: those that are subjects.
pub open spec fn dotted(e: Seq<(Seq<char>, Json)>, n: int) -> Seq<Seq<char>>
    decreases n,
{
    if n <= 0 {
        Seq::empty()
    } else if e[n - 1].0.contains('.') {
        dotted(e, n - 1).push(e[n - 1].0)
    } else {
        dotted(e, n - 1)
    }
}

/// The names of the capabilities of a configuration that are subjects.
pub fn capability_subjects(config: &Value) -> (r: Vec<String>)
    ensures
        text::texts(r@) == dotted(
            config@.entries_at("capabilities"@),
            config@.entries_at("capabilities"@).len() as int,
        ),
{
    let mut out: Vec<String> = Vec::new();
    assert(text::texts(out@) =~= Seq::empty());
    if let Some(caps) = config.object_at("capabilities") {
        let ghost e = json::entries(caps@);
        let mut i: usize = 0;
        while i < caps.len()
            invariant
                i <= caps.len(),
                e == json::entries(caps@),
                text::texts(out@) == dotted(e, i as int),
            decreases caps.len() - i,
        {
            assert(e[i as int] == (caps@[i as int].0@, caps@[i as int].1@));
            if text::contains_char(caps[i].0.as_str(), '.') {
                let k = caps[i].0.clone();
                proof {
                    text::lemma_texts_push(out@, k);
                }
                out.push(k);
            }
            i = i + 1;
        }
    }
    out
}

fn flatten(config: Value) -> (r: Result<Value, String>)
    requires
        nested_within(config@, u64::MAX as nat),
    ensures
        config_capabilities::value_result(r) == flattened(config@),
{
    let reg = match config_capabilities::flatten_capabilities(&config) {
        Err(m) => {
            return Err(m);
        },
        Ok(reg) => reg,
    };
    let c = match config_capabilities::resolve_exposures(config, &reg) {
        Err(m) => {
            return Err(m);
        },
        Ok(c) => c,
    };
    let ghost g = config_capabilities::registry_of(reg@);
    proof {
        let n = choose|n: nat| #[trigger] config_capabilities::settled_within(c@, g, n) is Some;
        let m = u64::MAX as nat;
        assert(config_capabilities::settled_within(c@, g, m) is Some);
        if n <= m {
            config_capabilities::law_settling_depth(c@, g, n, m);
        } else {
            config_capabilities::law_settling_depth(c@, g, m, n);
        }
    }
    match config_capabilities::settle_config(&c, &reg, u64::MAX) {
        Some(Ok(v)) => Ok(v),
        Some(Err(m)) => Err(m),
        None => Err("".to_owned()),
    }
}

// ---------------------------------------------------------------------------
// Checks
// ---------------------------------------------------------------------------

/// The outcome of a step that gives a configuration and findings.
pub type Resolved = Result<(Json, Seq<FindingView>), Seq<char>>;

/// The outcome of a step that gives a configuration and findings.
pub open spec fn resolved_result(r: Result<(Value, Vec<Diagnostic>), String>) -> Resolved {
    match r {
        Ok(p) => Ok((p.0@, config_check::findings(p.1@))),
        Err(m) => Err(m@),
    }
}

/// What is wrong with where things stand in a configuration.
pub open spec fn placement_fault(c: Json) -> Option<Seq<char>> {
    match config_check::flag_scope_fault(c) {
        Some(m) => Some(m),
        None => match config_check::delegates_fault(c) {
            Some(m) => Some(m),
            None => config_check::preferences_fault(c),
        },
    }
}

/// The outcome of checking a configuration.
pub open spec fn checks(c: Json, roots: Seq<Seq<char>>) -> config_check::Outcome {
    match config_check::skills_outcome(c) {
        Err(m) => Err(m),
        Ok(a) => match config_check::scripts_outcome(c, roots) {
            Err(m) => Err(m),
            Ok(b) => match placement_fault(c) {
                Some(m) => Err(m),
                None => Ok(a + b),
            },
        },
    }
}

fn check(c: &Value, roots: &Vec<String>) -> (r: Result<Vec<Diagnostic>, String>)
    ensures
        config_check::outcome(r) == checks(c@, text::texts(roots@)),
{
    let mut out = match config_check::validate_skills(c) {
        Err(m) => {
            return Err(m);
        },
        Ok(d) => d,
    };
    match config_check::validate_scripts(c, roots) {
        Err(m) => {
            return Err(m);
        },
        Ok(d) => {
            config_check::append_findings(&mut out, d);
        },
    }
    match config_check::validate_workflow_flag_scope(c) {
        Err(m) => {
            return Err(m);
        },
        Ok(_) => {},
    }
    match config_check::validate_state_delegate(c) {
        Err(m) => {
            return Err(m);
        },
        Ok(_) => {},
    }
    match config_check::validate_authoring_preferences(c) {
        Err(m) => Err(m),
        Ok(_) => Ok(out),
    }
}

// ---------------------------------------------------------------------------
// Resolution
// ---------------------------------------------------------------------------

/// A configuration up to where script bodies are needed, with the findings on it.
pub open spec fn prepared(config: Json, roots: Seq<Seq<char>>) -> Resolved {
    match flattened(config) {
        Err(m) => Err(m),
        Ok(v) => {
            let c = config_stamp::over(v, "workflows"@, config_stamp::versioned());
            match checks(c, roots) {
                Err(m) => Err(m),
                Ok(d) => Ok((config_stamp::skills_stamped(c), d)),
            }
        },
    }
}

/// A prepared configuration with everything that comes after script bodies are there.
pub open spec fn finished(c: Json, bodies: Json) -> Result<Json, Seq<char>> {
    match config_stamp::scripts_stamped(c, bodies) {
        Err(m) => Err(m),
        Ok(d) => {
            let e = config_stamp::questions_added(config_stamp::preferences_stamped(d));
            match lexicon::lexicon_fault(e) {
                Some(m) => Err(m),
                None => Ok(config_stamp::uses_expanded(lexicon::lexicon_stamped(e))),
            }
        },
    }
}

/// A resolved configuration, with the findings on it.
pub open spec fn resolution(config: Json, roots: Seq<Seq<char>>, bodies: Json) -> Resolved {
    match prepared(config, roots) {
        Err(m) => Err(m),
        Ok(p) => match finished(p.0, bodies) {
            Err(m) => Err(m),
            Ok(c) => Ok((c, p.1)),
        },
    }
}

/// A configuration can be resolved: the nesting of its capabilities ends, and questions
/// can be added where they are enabled.
pub open spec fn resolvable(config: Json, roots: Seq<Seq<char>>) -> bool {
    nested_within(config, u64::MAX as nat) && (prepared(config, roots) matches Ok(p)
        ==> config_stamp::questions_ready(p.0))
}

/// Resolves a configuration up to where script bodies are needed. `script_roots` are
/// the roots that subjects of scripts may have.
pub fn prepare(config: Value, script_roots: &Vec<String>) -> (r: Result<
    (Value, Vec<Diagnostic>),
    String,
>)
    requires
        nested_within(config@, u64::MAX as nat),
    ensures
        resolved_result(r) == prepared(config@, text::texts(script_roots@)),
{
    let v = match flatten(config) {
        Err(m) => {
            return Err(m);
        },
        Ok(v) => v,
    };
    let c = config_stamp::default_versions(v);
    match check(&c, script_roots) {
        Err(m) => Err(m),
        Ok(d) => Ok((config_stamp::stamp_skills_library(c), d)),
    }
}

/// Writing a value under a key that questions do not depend on keeps a definition ready
/// for them.
proof fn lemma_ready_with(def: Json, key: Seq<char>, v: Json)
    requires
        config_stamp::definition_ready(def),
        def is Object,
        key != "enable_human_ask"@,
        key != "states"@,
    ensures
        config_stamp::definition_ready(def.with(key, v)),
{
    json::law_get_with(def, key, v, "enable_human_ask"@);
    json::law_get_with(def, key, v, "states"@);
    assert(def.with(key, v).entries_at("states"@) == def.entries_at("states"@));
    if def.bool_at("enable_human_ask"@) == Some(true) {
        assert forall|i: int|
            0 <= i < def.with(key, v).entries_at("states"@).len() implies config_stamp::state_ready(
            (#[trigger] def.with(key, v).entries_at("states"@)[i]).1,
        ) by {
            assert(config_stamp::state_ready(def.entries_at("states"@)[i].1));
        }
    }
}

/// Mapping the workflows by something that keeps each ready for questions keeps all
/// ready.
proof fn lemma_ready_over(c: Json, f: spec_fn(Seq<char>, Json) -> Json)
    requires
        config_stamp::questions_ready(c),
        forall|id: Seq<char>, d: Json|
            config_stamp::definition_ready(d) ==> config_stamp::definition_ready(
                #[trigger] f(id, d),
            ),
    ensures
        config_stamp::questions_ready(config_stamp::over(c, "workflows"@, f)),
{
    config_stamp::lemma_over_get(c, "workflows"@, f, "workflows"@);
    let o = config_stamp::over(c, "workflows"@, f);
    if let Some(e) = c.object_at("workflows"@) {
        assert forall|i: int|
            0 <= i < o.entries_at("workflows"@).len() implies config_stamp::definition_ready(
            (#[trigger] o.entries_at("workflows"@)[i]).1,
        ) by {
            assert(config_stamp::definition_ready(c.entries_at("workflows"@)[i].1));
            assert(o.entries_at("workflows"@)[i] == (e[i].0, f(e[i].0, e[i].1)));
        }
    }
}

proof fn lemma_ready_after_scripts(c: Json, bodies: Json)
    requires
        config_stamp::questions_ready(c),
    ensures
        config_stamp::scripts_stamped(c, bodies) matches Ok(d) ==> config_stamp::questions_ready(d),
{
    let e = c.entries_at("scripts"@);
    if let Ok(lib) = config_stamp::scripts_library(e, bodies, e.len() as int) {
        let f = config_stamp::with_scripts(lib);
        reveal_strlit("_scriptsLibrary");
        reveal_strlit("enable_human_ask");
        reveal_strlit("states");
        assert("_scriptsLibrary"@.len() == 15);
        assert("enable_human_ask"@.len() == 16);
        assert("states"@.len() == 6);
        assert forall|id: Seq<char>, d: Json| config_stamp::definition_ready(d) implies
            config_stamp::definition_ready(#[trigger] f(id, d)) by {
            let subjects = config_stamp::referenced_scripts(d);
            let part = config_stamp::scoped(lib, subjects, subjects.len() as int);
            if d is Object {
                lemma_ready_with(d, "_scriptsLibrary"@, part);
            }
        }
        lemma_ready_over(c, f);
    }
}

proof fn lemma_ready_after_value(c: Json, key: Seq<char>, v: Json)
    requires
        config_stamp::questions_ready(c),
        key != "enable_human_ask"@,
        key != "states"@,
    ensures
        config_stamp::questions_ready(
            config_stamp::over(c, "workflows"@, config_stamp::with_value(key, v)),
        ),
{
    let f = config_stamp::with_value(key, v);
    assert forall|id: Seq<char>, d: Json| config_stamp::definition_ready(d) implies
        config_stamp::definition_ready(#[trigger] f(id, d)) by {
        if d is Object {
            lemma_ready_with(d, key, v);
        }
    }
    lemma_ready_over(c, f);
}

proof fn lemma_ready_after_preferences(c: Json)
    requires
        config_stamp::questions_ready(c),
    ensures
        config_stamp::questions_ready(config_stamp::preferences_stamped(c)),
{
    reveal_strlit("_authoringPrefs");
    reveal_strlit("enable_human_ask");
    reveal_strlit("states");
    assert("_authoringPrefs"@.len() == 15);
    assert("enable_human_ask"@.len() == 16);
    assert("states"@.len() == 6);
    match config_check::at2(c, "flowgate"@, "authoring"@) {
        Some(Json::Object(e)) => {
            lemma_ready_after_value(c, "_authoringPrefs"@, Json::Object(e));
        },
        _ => {},
    }
}

/// Resolves a prepared configuration. `bodies` holds the script bodies that were
/// fetched, by subject.
pub fn finish(config: Value, bodies: &Value) -> (r: Result<Value, String>)
    requires
        config_stamp::questions_ready(config@),
    ensures
        config_capabilities::value_result(r) == finished(config@, bodies@),
{
    proof {
        lemma_ready_after_scripts(config@, bodies@);
    }
    let d = match config_stamp::stamp_scripts_library(config, bodies) {
        Err(m) => {
            return Err(m);
        },
        Ok(d) => d,
    };
    proof {
        lemma_ready_after_preferences(d@);
    }
    let p = config_stamp::stamp_authoring_preferences(d);
    let e = config_stamp::inject_human_ask_transitions(p);
    match lexicon::validate_lexicon(&e) {
        Err(m) => {
            return Err(m);
        },
        Ok(_) => {},
    }
    Ok(config_stamp::expand_use_bindings(lexicon::stamp_lexicon_library(e)))
}

/// Resolves a configuration, and says what was found on the way.
pub fn resolve_with_diagnostics(
    config: Value,
    script_roots: &Vec<String>,
    bodies: &Value,
) -> (r: Result<(Value, Vec<Diagnostic>), String>)
    requires
        resolvable(config@, text::texts(script_roots@)),
    ensures
        resolved_result(r) == resolution(config@, text::texts(script_roots@), bodies@),
{
    match prepare(config, script_roots) {
        Err(m) => Err(m),
        Ok((c, d)) => match finish(c, bodies) {
            Err(m) => Err(m),
            Ok(v) => Ok((v, d)),
        },
    }
}

/// Resolves a configuration where it can be resolved with capabilities nested no deeper
/// than `depth`; `None` where it cannot.
pub fn try_resolve(
    config: Value,
    script_roots: &Vec<String>,
    bodies: &Value,
    depth: u64,
) -> (r: Option<Result<(Value, Vec<Diagnostic>), String>>)
    ensures
        r is Some == (nested_within(config@, depth as nat) && (prepared(
            config@,
            text::texts(script_roots@),
        ) matches Ok(p) ==> config_stamp::questions_ready(p.0))),
        r matches Some(x) ==> resolved_result(x) == resolution(
            config@,
            text::texts(script_roots@),
            bodies@,
        ),
{
    if !capabilities_nest_within(&config, depth) {
        return None;
    }
    proof {
        law_nesting_is_monotone(config@, depth as nat, u64::MAX as nat);
    }
    match prepare(config.dup(), script_roots) {
        Err(m) => Some(Err(m)),
        Ok((c, _)) => {
            if config_stamp::questions_are_ready(&c) {
                Some(resolve_with_diagnostics(config, script_roots, bodies))
            } else {
                None
            }
        },
    }
}

/// Resolves a configuration.
pub fn resolve(config: Value, script_roots: &Vec<String>, bodies: &Value) -> (r: Result<
    Value,
    String,
>)
    requires
        resolvable(config@, text::texts(script_roots@)),
    ensures
        config_capabilities::value_result(r) == (match resolution(
            config@,
            text::texts(script_roots@),
            bodies@,
        ) {
            Ok(p) => Ok::<Json, Seq<char>>(p.0),
            Err(m) => Err(m),
        }),
{
    match resolve_with_diagnostics(config, script_roots, bodies) {
        Err(m) => Err(m),
        Ok((v, _)) => Ok(v),
    }
}

} // verus!
