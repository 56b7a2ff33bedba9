//! The rules for the tiers of workflows: what a capability and an orchestrator must
//! and must not declare, and how workflows may invoke each other.
use crate::diagnostic;
use crate::diagnostic::{Diagnostic, DiagnosticView};
use crate::json;
use crate::json::{Json, Value};
use crate::runtime_links;
use crate::runtime_response;
use crate::slot_table;
use crate::slot_table::SlotTable;
use crate::text;
use crate::tier;
use crate::tier::Tier;
use vstd::prelude::*;

verus! {

// ---------------------------------------------------------------------------
// Walking a definition
// ---------------------------------------------------------------------------

/// The findings of `f` on the first `n` entries, in order.
pub open spec fn over(
    e: Seq<(Seq<char>, Json)>,
    n: int,
    f: spec_fn(Seq<char>, Json) -> Seq<DiagnosticView>,
) -> Seq<DiagnosticView>
    decreases n,
{
    if n <= 0 {
        Seq::empty()
    } else {
        over(e, n - 1, f) + f(e[n - 1].0, e[n - 1].1)
    }
}

/// The findings of `f` on every entry under a key.
pub open spec fn over_entries(
    v: Json,
    key: Seq<char>,
    f: spec_fn(Seq<char>, Json) -> Seq<DiagnosticView>,
) -> Seq<DiagnosticView> {
    over(v.entries_at(key), v.entries_at(key).len() as int, f)
}

/// The findings of `f` on every transition of every state of a definition.
pub open spec fn over_transitions(
    def: Json,
    f: spec_fn(Seq<char>, Seq<char>, Json) -> Seq<DiagnosticView>,
) -> Seq<DiagnosticView> {
    over_entries(def, "states"@, in_state(f))
}

/// The findings of `f` on every transition of one state.
pub open spec fn in_state(
    f: spec_fn(Seq<char>, Seq<char>, Json) -> Seq<DiagnosticView>,
) -> spec_fn(Seq<char>, Json) -> Seq<DiagnosticView> {
    |state: Seq<char>, s: Json| over_entries(s, "transitions"@, in_transition(f, state))
}

/// The findings of `f` on one transition of a state.
pub open spec fn in_transition(
    f: spec_fn(Seq<char>, Seq<char>, Json) -> Seq<DiagnosticView>,
    state: Seq<char>,
) -> spec_fn(Seq<char>, Json) -> Seq<DiagnosticView> {
    |t: Seq<char>, d: Json| f(state, t, d)
}

// ---------------------------------------------------------------------------
// Verbs
// ---------------------------------------------------------------------------

/// What kind of work a capability verb stands for.
#[derive(Debug, Clone, Copy, PartialEq, Eq, Structural)]
pub enum CapVerbCategory {
    Cognitive,
    Deterministic,
    Coordination,
}

/// A capability verb.
#[derive(Debug)]
pub struct CapVerb {
    pub token: String,
    pub category: CapVerbCategory,
}

/// The verbs, in order.
pub open spec fn verb_views(s: Seq<CapVerb>) -> Seq<(Seq<char>, CapVerbCategory)> {
    Seq::new(s.len(), |i: int| (s[i].token@, s[i].category))
}

/// The tokens of the verbs, in order.
pub open spec fn verb_tokens(s: Seq<(Seq<char>, CapVerbCategory)>) -> Seq<Seq<char>> {
    Seq::new(s.len(), |i: int| s[i].0)
}

fn verb_category(verbs: &Vec<CapVerb>, token: &str) -> (r: Option<CapVerbCategory>)
    ensures
        r == json::find(verb_views(verbs@), token@),
{
    let ghost e = verb_views(verbs@);
    let mut i: usize = 0;
    assert(e.skip(0) =~= e);
    while i < verbs.len()
        invariant
            i <= verbs.len(),
            e == verb_views(verbs@),
            json::find(e.skip(i as int), token@) == json::find(e, token@),
        decreases verbs.len() - i,
    {
        if text::str_eq(verbs[i].token.as_str(), token) {
            return Some(verbs[i].category);
        }
        assert(e.skip(i as int).skip(1) =~= e.skip(i + 1));
        i = i + 1;
    }
    None
}

fn verb_list(verbs: &Vec<CapVerb>) -> (r: String)
    ensures
        r@ == text::debug_list_text(verb_tokens(verb_views(verbs@))),
{
    let mut out: Vec<String> = Vec::new();
    let ghost all = verb_tokens(verb_views(verbs@));
    let mut i: usize = 0;
    while i < verbs.len()
        invariant
            i <= verbs.len(),
            all == verb_tokens(verb_views(verbs@)),
            text::texts(out@) == all.take(i as int),
        decreases verbs.len() - i,
    {
        let t = verbs[i].token.clone();
        proof {
            text::lemma_texts_push(out@, t);
        }
        out.push(t);
        i = i + 1;
    }
    assert(all.take(i as int) =~= all);
    text::debug_list(&out)
}

/// A capability must have one of the known verbs.
pub open spec fn verb_findings(
    id: Seq<char>,
    def: Json,
    verbs: Seq<(Seq<char>, CapVerbCategory)>,
) -> Seq<DiagnosticView> {
    let list = text::debug_list_text(verb_tokens(verbs));
    match def.str_at("verb"@) {
        None => diagnostic::error(
            "MISSING_VERB: capability '"@ + id
                + "' is missing required `verb:` field; allowed verbs are "@ + list + " (V1)"@,
        ),
        Some(verb) => if json::find(verbs, verb) is None {
            diagnostic::error(
                "INVALID_VERB: capability '"@ + id + "' has verb '"@ + verb
                    + "'; allowed verbs are "@ + list + " (V1)"@,
            )
        } else {
            diagnostic::nothing()
        },
    }
}

fn v1_verb_in_cloud(id: &str, def: &Value, verbs: &Vec<CapVerb>) -> (r: Vec<Diagnostic>)
    ensures
        diagnostic::diags(r@) == verb_findings(id@, def@, verb_views(verbs@)),
{
    match def.str_at("verb") {
        None => {
            let list = verb_list(verbs);
            diagnostic::one_error(
                text::join5(
                    "MISSING_VERB: capability '",
                    id,
                    "' is missing required `verb:` field; allowed verbs are ",
                    list.as_str(),
                    " (V1)",
                ),
            )
        },
        Some(verb) => {
            if verb_category(verbs, verb).is_none() {
                let list = verb_list(verbs);
                diagnostic::one_error(
                    text::join7(
                        "INVALID_VERB: capability '",
                        id,
                        "' has verb '",
                        verb,
                        "'; allowed verbs are ",
                        list.as_str(),
                        " (V1)",
                    ),
                )
            } else {
                diagnostic::none()
            }
        },
    }
}

/// The id of a capability must be `cap.<verb>.<name>`, with the declared verb.
pub open spec fn cap_id_findings(id: Seq<char>, def: Json) -> Seq<DiagnosticView> {
    let parts = text::split(tier::stem(id), '.');
    if parts.len() < 3 || parts[0] != "cap"@ {
        diagnostic::error(
            "INVALID_ID_SHAPE: capability '"@ + id + "' must match `cap.<verb>.<name>` (V2)"@,
        )
    } else {
        match def.str_at("verb"@) {
            Some(verb) => if verb != parts[1] {
                diagnostic::error(
                    "ID_VERB_MISMATCH: capability '"@ + id + "' declares verb '"@ + verb
                        + "' but its id stem uses verb segment '"@ + parts[1]
                        + "' — must agree (V2)"@,
                )
            } else {
                diagnostic::nothing()
            },
            None => diagnostic::nothing(),
        }
    }
}

fn v2_id_matches_verb_name(id: &str, def: &Value) -> (r: Vec<Diagnostic>)
    ensures
        diagnostic::diags(r@) == cap_id_findings(id@, def@),
{
    let stem = text::last_piece(id, '/');
    let parts = text::split_on(stem.as_str(), '.');
    assert(text::texts(parts@)[0] == parts@[0]@);
    if parts.len() < 3 || !text::str_eq(parts[0].as_str(), "cap") {
        return diagnostic::one_error(
            text::join3(
                "INVALID_ID_SHAPE: capability '",
                id,
                "' must match `cap.<verb>.<name>` (V2)",
            ),
        );
    }
    assert(text::texts(parts@)[1] == parts@[1]@);
    if let Some(verb) = def.str_at("verb") {
        if !text::str_eq(verb, parts[1].as_str()) {
            return diagnostic::one_error(
                text::join7(
                    "ID_VERB_MISMATCH: capability '",
                    id,
                    "' declares verb '",
                    verb,
                    "' but its id stem uses verb segment '",
                    parts[1].as_str(),
                    "' — must agree (V2)",
                ),
            );
        }
    }
    diagnostic::none()
}

// ---------------------------------------------------------------------------
// Snippets
// ---------------------------------------------------------------------------

/// Every declared input or output must have a schema that is an object.
pub open spec fn snippet_entry(id: Seq<char>, key: Seq<char>) -> spec_fn(Seq<char>, Json) -> Seq<
    DiagnosticView,
> {
    |name: Seq<char>, schema: Json|
        if schema is Object {
            diagnostic::nothing()
        } else {
            diagnostic::error(
                "INVALID_SNIPPET: capability '"@ + id + "' `snippet."@ + key + "."@ + name
                    + "` must be a JSON-schema-shaped object (V5)"@,
            )
        }
}

/// A snippet must have the given block, and it must be a mapping.
pub open spec fn snippet_block(id: Seq<char>, snippet: Json, key: Seq<char>) -> Seq<DiagnosticView> {
    match snippet.get(key) {
        None => diagnostic::error(
            "INVALID_SNIPPET: capability '"@ + id + "' `snippet:` is missing required `"@ + key
                + ":` key (may be `{}` — but must be present) (V4)"@,
        ),
        Some(Json::Object(e)) => over(e, e.len() as int, snippet_entry(id, key)),
        Some(_) => diagnostic::error(
            "INVALID_SNIPPET: capability '"@ + id + "' `snippet."@ + key
                + "` must be a mapping (V4)"@,
        ),
    }
}

/// A capability must declare a snippet with inputs and outputs.
pub open spec fn snippet_findings(id: Seq<char>, def: Json) -> Seq<DiagnosticView> {
    match def.get("snippet"@) {
        None => diagnostic::error(
            "MISSING_SNIPPET: capability '"@ + id + "' is missing required `snippet:` block (V3)"@,
        ),
        Some(snippet) => if snippet is Object {
            snippet_block(id, snippet, "inputs"@) + snippet_block(id, snippet, "outputs"@)
        } else {
            diagnostic::error(
                "INVALID_SNIPPET: capability '"@ + id + "' `snippet:` must be an object (V4)"@,
            )
        },
    }
}

fn check_snippet_block(id: &str, snippet: &Value, key: &str) -> (r: Vec<Diagnostic>)
    ensures
        diagnostic::diags(r@) == snippet_block(id@, snippet@, key@),
{
    match snippet.get(key) {
        None => diagnostic::one_error(
            text::join5(
                "INVALID_SNIPPET: capability '",
                id,
                "' `snippet:` is missing required `",
                key,
                ":` key (may be `{}` — but must be present) (V4)",
            ),
        ),
        Some(Value::Object(es)) => {
            let ghost e = json::entries(es@);
            let ghost f = snippet_entry(id@, key@);
            let mut out = diagnostic::none();
            let mut i: usize = 0;
            while i < es.len()
                invariant
                    i <= es.len(),
                    e == json::entries(es@),
                    f == snippet_entry(id@, key@),
                    diagnostic::diags(out@) == over(e, i as int, f),
                decreases es.len() - i,
            {
                assert(e[i as int] == (es@[i as int].0@, es@[i as int].1@));
                let found = if es[i].1.is_object() {
                    diagnostic::none()
                } else {
                    diagnostic::one_error(
                        text::join7(
                            "INVALID_SNIPPET: capability '",
                            id,
                            "' `snippet.",
                            key,
                            ".",
                            es[i].0.as_str(),
                            "` must be a JSON-schema-shaped object (V5)",
                        ),
                    )
                };
                diagnostic::extend(&mut out, found);
                i = i + 1;
            }
            out
        },
        Some(_) => diagnostic::one_error(
            text::join5(
                "INVALID_SNIPPET: capability '",
                id,
                "' `snippet.",
                key,
                "` must be a mapping (V4)",
            ),
        ),
    }
}

fn validate_snippet(id: &str, def: &Value) -> (r: Vec<Diagnostic>)
    ensures
        diagnostic::diags(r@) == snippet_findings(id@, def@),
{
    match def.get("snippet") {
        None => diagnostic::one_error(
            text::join3(
                "MISSING_SNIPPET: capability '",
                id,
                "' is missing required `snippet:` block (V3)",
            ),
        ),
        Some(snippet) => {
            if snippet.is_object() {
                let mut out = check_snippet_block(id, snippet, "inputs");
                diagnostic::extend(&mut out, check_snippet_block(id, snippet, "outputs"));
                out
            } else {
                diagnostic::one_error(
                    text::join3(
                        "INVALID_SNIPPET: capability '",
                        id,
                        "' `snippet:` must be an object (V4)",
                    ),
                )
            }
        },
    }
}

// ---------------------------------------------------------------------------
// The primary executor
// ---------------------------------------------------------------------------

/// The executor kind of a transition.
pub open spec fn executor_kind(t: Json) -> Option<Seq<char>> {
    match t.get("executor"@) {
        Some(e) => e.str_at("kind"@),
        None => None,
    }
}

/// The executor kind of a transition.
pub fn executor_kind_of(t: &Value) -> (r: Option<&str>)
    ensures
        text::opt_str(r) == executor_kind(t@),
{
    match t.get("executor") {
        Some(e) => e.str_at("kind"),
        None => None,
    }
}

/// The executor kinds of the first `n` transitions.
pub open spec fn kinds_of(e: Seq<(Seq<char>, Json)>, n: int) -> Seq<Seq<char>>
    decreases n,
{
    if n <= 0 {
        Seq::empty()
    } else {
        match executor_kind(e[n - 1].1) {
            Some(k) => kinds_of(e, n - 1).push(k),
            None => kinds_of(e, n - 1),
        }
    }
}

/// A transition that a human takes or that asks one.
pub open spec fn asks_human(t: Json) -> bool {
    t.str_at("actor"@) == Some("human"@) || t.str_at("purpose"@) == Some("ask"@)
}

/// Whether the executors of the initial state fit the verb.
pub open spec fn shape_fits(
    verb: Seq<char>,
    category: CapVerbCategory,
    kinds: Seq<Seq<char>>,
    human: bool,
) -> bool {
    match category {
        CapVerbCategory::Cognitive => kinds.contains("mcp"@) || kinds.contains("noop"@),
        CapVerbCategory::Deterministic => kinds.contains("script"@) || kinds.contains("mcp"@),
        CapVerbCategory::Coordination => if verb == "gate"@ {
            human
        } else if verb == "coordinate"@ {
            kinds.contains("mcp"@)
        } else {
            true
        },
    }
}

/// What a verb asks of the executors of the initial state.
pub open spec fn shape_text(verb: Seq<char>, category: CapVerbCategory) -> Seq<char> {
    match category {
        CapVerbCategory::Cognitive => "kind: mcp OR kind: noop (skill-surfacing)"@,
        CapVerbCategory::Deterministic => "kind: script OR kind: mcp"@,
        CapVerbCategory::Coordination => if verb == "gate"@ {
            "at least one initial-state transition with actor: human OR purpose: ask"@
        } else if verb == "coordinate"@ {
            "kind: mcp"@
        } else {
            "?"@
        },
    }
}

/// What a category is called.
pub open spec fn category_text(c: CapVerbCategory) -> Seq<char> {
    match c {
        CapVerbCategory::Cognitive => "Cognitive"@,
        CapVerbCategory::Deterministic => "Deterministic"@,
        CapVerbCategory::Coordination => "Coordination"@,
    }
}

fn category_name(c: CapVerbCategory) -> (r: &'static str)
    ensures
        r@ == category_text(c),
{
    match c {
        CapVerbCategory::Cognitive => "Cognitive",
        CapVerbCategory::Deterministic => "Deterministic",
        CapVerbCategory::Coordination => "Coordination",
    }
}

/// The executors that leave the initial state of a capability must fit its verb.
pub open spec fn shape_findings(
    id: Seq<char>,
    def: Json,
    verbs: Seq<(Seq<char>, CapVerbCategory)>,
) -> Seq<DiagnosticView> {
    match (def.str_at("verb"@), def.str_at("initialState"@)) {
        (Some(verb), Some(initial)) => match (
            json::find(verbs, verb),
            runtime_links::transitions_of(def, initial),
        ) {
            (Some(category), Some(e)) => {
                let kinds = kinds_of(e, e.len() as int);
                let human = exists|i: int| 0 <= i < e.len() && asks_human((#[trigger] e[i]).1);
                if e.len() == 0 || shape_fits(verb, category, kinds, human) {
                    diagnostic::nothing()
                } else {
                    diagnostic::error(
                        "INVALID_PRIMARY_EXECUTOR: capability '"@ + id + "' (verb '"@ + verb
                            + "', category "@ + category_text(category)
                            + ") has initial-state transitions whose primary executor kinds are "@
                            + text::debug_list_text(kinds) + "; expected "@ + shape_text(
                            verb,
                            category,
                        ) + " (V6)"@,
                    )
                }
            },
            _ => diagnostic::nothing(),
        },
        _ => diagnostic::nothing(),
    }
}

fn fits(verb: &str, category: CapVerbCategory, kinds: &Vec<String>, human: bool) -> (r: bool)
    ensures
        r == shape_fits(verb@, category, text::texts(kinds@), human),
{
    match category {
        CapVerbCategory::Cognitive => text::has_text(kinds, "mcp") || text::has_text(kinds, "noop"),
        CapVerbCategory::Deterministic => text::has_text(kinds, "script") || text::has_text(
            kinds,
            "mcp",
        ),
        CapVerbCategory::Coordination => if text::str_eq(verb, "gate") {
            human
        } else if text::str_eq(verb, "coordinate") {
            text::has_text(kinds, "mcp")
        } else {
            true
        },
    }
}

fn shape_name(verb: &str, category: CapVerbCategory) -> (r: &'static str)
    ensures
        r@ == shape_text(verb@, category),
{
    match category {
        CapVerbCategory::Cognitive => "kind: mcp OR kind: noop (skill-surfacing)",
        CapVerbCategory::Deterministic => "kind: script OR kind: mcp",
        CapVerbCategory::Coordination => if text::str_eq(verb, "gate") {
            "at least one initial-state transition with actor: human OR purpose: ask"
        } else if text::str_eq(verb, "coordinate") {
            "kind: mcp"
        } else {
            "?"
        },
    }
}

fn v6_primary_executor_verb_shape(id: &str, def: &Value, verbs: &Vec<CapVerb>) -> (r: Vec<
    Diagnostic,
>)
    ensures
        diagnostic::diags(r@) == shape_findings(id@, def@, verb_views(verbs@)),
{
    let verb = match def.str_at("verb") {
        Some(v) => v,
        None => {
            return diagnostic::none();
        },
    };
    let category = match verb_category(verbs, verb) {
        Some(c) => c,
        None => {
            return diagnostic::none();
        },
    };
    let initial = match def.str_at("initialState") {
        Some(s) => s,
        None => {
            return diagnostic::none();
        },
    };
    let ts = match runtime_links::state_transitions(def, initial) {
        Some(t) => t,
        None => {
            return diagnostic::none();
        },
    };
    let ghost e = json::entries(ts@);
    let mut kinds: Vec<String> = Vec::new();
    assert(text::texts(kinds@) =~= Seq::empty());
    let mut human = false;
    let mut i: usize = 0;
    while i < ts.len()
        invariant
            i <= ts.len(),
            e == json::entries(ts@),
            text::texts(kinds@) == kinds_of(e, i as int),
            human == exists|j: int| 0 <= j < i && asks_human((#[trigger] e[j]).1),
        decreases ts.len() - i,
    {
        assert(e[i as int] == (ts@[i as int].0@, ts@[i as int].1@));
        let t = &ts[i].1;
        if let Some(k) = executor_kind_of(t) {
            let s = k.to_owned();
            proof {
                text::lemma_texts_push(kinds@, s);
            }
            kinds.push(s);
        }
        if text::opt_is(t.str_at("actor"), "human") || text::opt_is(t.str_at("purpose"), "ask") {
            assert(asks_human(e[i as int].1));
            human = true;
        }
        i = i + 1;
    }
    if ts.len() == 0 || fits(verb, category, &kinds, human) {
        return diagnostic::none();
    }
    let list = text::debug_list(&kinds);
    diagnostic::one_error(
        text::join11(
            "INVALID_PRIMARY_EXECUTOR: capability '",
            id,
            "' (verb '",
            verb,
            "', category ",
            category_name(category),
            ") has initial-state transitions whose primary executor kinds are ",
            list.as_str(),
            "; expected ",
            shape_name(verb, category),
            " (V6)",
        ),
    )
}

// ---------------------------------------------------------------------------
// Nesting
// ---------------------------------------------------------------------------

/// The workflow that a transition's executor names.
pub open spec fn executor_target(t: Json) -> Option<Seq<char>> {
    match t.get("executor"@) {
        Some(e) => e.str_at("definitionId"@),
        None => None,
    }
}

/// The workflow that a transition's executor names.
pub fn executor_target_of(t: &Value) -> (r: Option<&str>)
    ensures
        text::opt_str(r) == executor_target(t@),
{
    match t.get("executor") {
        Some(e) => e.str_at("definitionId"),
        None => None,
    }
}

/// The workflow that a transition invokes.
pub open spec fn invocation(t: Json) -> Option<Seq<char>> {
    if executor_kind(t) == Some("workflow"@) {
        executor_target(t)
    } else {
        None
    }
}

/// The orchestrator that a transition names.
pub open spec fn orchestrator_target(t: Json) -> Option<Seq<char>> {
    match executor_target(t) {
        Some(id) => if tier::tier_of(id) == Tier::Flow {
            Some(id)
        } else {
            None
        },
        None => None,
    }
}

/// Which of the two questions is asked of a transition.
#[derive(Clone, Copy, PartialEq, Eq, Structural)]
pub enum Probe {
    /// Which workflow does it invoke?
    Invocation,
    /// Which orchestrator does it name?
    Orchestrator,
}

/// The answer of a transition to a question.
pub open spec fn probed(p: Probe, t: Json) -> Option<Seq<char>> {
    match p {
        Probe::Invocation => invocation(t),
        Probe::Orchestrator => orchestrator_target(t),
    }
}

fn probe(p: Probe, t: &Value) -> (r: Option<&str>)
    ensures
        text::opt_str(r) == probed(p, t@),
{
    match p {
        Probe::Invocation => if text::opt_is(executor_kind_of(t), "workflow") {
            executor_target_of(t)
        } else {
            None
        },
        Probe::Orchestrator => match executor_target_of(t) {
            Some(id) => if Tier::from_id(id) == Tier::Flow {
                Some(id)
            } else {
                None
            },
            None => None,
        },
    }
}

/// The first answer among the transitions from the `i`-th on.
pub open spec fn first_in(p: Probe, e: Seq<(Seq<char>, Json)>, i: int) -> Option<Seq<char>>
    decreases e.len() - i,
{
    if i < 0 || i >= e.len() {
        None
    } else {
        match probed(p, e[i].1) {
            Some(t) => Some(t),
            None => first_in(p, e, i + 1),
        }
    }
}

/// The first answer among the transitions of the states from the `i`-th on.
pub open spec fn first_of(p: Probe, states: Seq<(Seq<char>, Json)>, i: int) -> Option<Seq<char>>
    decreases states.len() - i,
{
    if i < 0 || i >= states.len() {
        None
    } else {
        match first_in(p, states[i].1.entries_at("transitions"@), 0) {
            Some(t) => Some(t),
            None => first_of(p, states, i + 1),
        }
    }
}

fn find_in_transitions(p: Probe, ts: &Vec<(String, Value)>) -> (r: Option<String>)
    ensures
        text::opt_text(r) == first_in(p, json::entries(ts@), 0),
{
    let ghost e = json::entries(ts@);
    let mut i: usize = 0;
    while i < ts.len()
        invariant
            i <= ts.len(),
            e == json::entries(ts@),
            first_in(p, e, i as int) == first_in(p, e, 0),
        decreases ts.len() - i,
    {
        assert(e[i as int] == (ts@[i as int].0@, ts@[i as int].1@));
        if let Some(t) = probe(p, &ts[i].1) {
            return Some(t.to_owned());
        }
        i = i + 1;
    }
    None
}

fn find_first_workflow_invocation(p: Probe, def: &Value) -> (r: Option<String>)
    ensures
        text::opt_text(r) == first_of(p, def@.entries_at("states"@), 0),
{
    let states = match def.object_at("states") {
        Some(s) => s,
        None => {
            return None;
        },
    };
    let ghost e = json::entries(states@);
    let mut i: usize = 0;
    while i < states.len()
        invariant
            i <= states.len(),
            e == json::entries(states@),
            e == def@.entries_at("states"@),
            first_of(p, e, i as int) == first_of(p, e, 0),
        decreases states.len() - i,
    {
        assert(e[i as int] == (states@[i as int].0@, states@[i as int].1@));
        if let Some(ts) = states[i].1.object_at("transitions") {
            if let Some(t) = find_in_transitions(p, ts) {
                return Some(t);
            }
        }
        i = i + 1;
    }
    None
}

/// A capability must not invoke a workflow.
pub open spec fn cap_nesting_findings(id: Seq<char>, def: Json) -> Seq<DiagnosticView> {
    match first_of(Probe::Invocation, def.entries_at("states"@), 0) {
        Some(target) => diagnostic::error(
            "CAPABILITY_NESTING: capability '"@ + id + "' invokes workflow '"@ + target
                + "' via `kind: workflow`. Capabilities are composition leaves; only orchestrators may invoke other workflows (V10)"@,
        ),
        None => diagnostic::nothing(),
    }
}

fn v10_capability_does_not_invoke_workflow(id: &str, def: &Value) -> (r: Vec<Diagnostic>)
    ensures
        diagnostic::diags(r@) == cap_nesting_findings(id@, def@),
{
    match find_first_workflow_invocation(Probe::Invocation, def) {
        Some(target) => diagnostic::one_error(
            text::join5(
                "CAPABILITY_NESTING: capability '",
                id,
                "' invokes workflow '",
                target.as_str(),
                "' via `kind: workflow`. Capabilities are composition leaves; only orchestrators may invoke other workflows (V10)",
            ),
        ),
        None => diagnostic::none(),
    }
}

/// An orchestrator must not invoke an orchestrator. One violation is reported.
pub open spec fn flow_nesting_findings(id: Seq<char>, def: Json) -> Seq<DiagnosticView> {
    match first_of(Probe::Orchestrator, def.entries_at("states"@), 0) {
        Some(target) => diagnostic::error(
            "ORCHESTRATOR_NESTING: orchestrator '"@ + id + "' invokes orchestrator '"@ + target
                + "' via `kind: workflow`. Orchestrators may only invoke capabilities (V11)"@,
        ),
        None => diagnostic::nothing(),
    }
}

fn v11_orchestrator_does_not_invoke_orchestrator(id: &str, def: &Value) -> (r: Vec<Diagnostic>)
    ensures
        diagnostic::diags(r@) == flow_nesting_findings(id@, def@),
{
    match find_first_workflow_invocation(Probe::Orchestrator, def) {
        Some(target) => diagnostic::one_error(
            text::join5(
                "ORCHESTRATOR_NESTING: orchestrator '",
                id,
                "' invokes orchestrator '",
                target.as_str(),
                "' via `kind: workflow`. Orchestrators may only invoke capabilities (V11)",
            ),
        ),
        None => diagnostic::none(),
    }
}

/// The id of an orchestrator must be `flow.<name>`.
pub open spec fn flow_id_findings(id: Seq<char>) -> Seq<DiagnosticView> {
    let parts = text::split(tier::stem(id), '.');
    if parts.len() < 2 || parts[0] != "flow"@ || parts[1].len() == 0 {
        diagnostic::error(
            "INVALID_ID_SHAPE: orchestrator '"@ + id + "' must match `flow.<name>` (V7)"@,
        )
    } else {
        diagnostic::nothing()
    }
}

fn v7_id_matches_flow_pattern(id: &str) -> (r: Vec<Diagnostic>)
    ensures
        diagnostic::diags(r@) == flow_id_findings(id@),
{
    let stem = text::last_piece(id, '/');
    let parts = text::split_on(stem.as_str(), '.');
    assert(text::texts(parts@)[0] == parts@[0]@);
    let bad = if parts.len() < 2 || !text::str_eq(parts[0].as_str(), "flow") {
        true
    } else {
        assert(text::texts(parts@)[1] == parts@[1]@);
        let empty = text::str_eq(parts[1].as_str(), runtime_response::no_text());
        assert(empty == (parts@[1]@.len() == 0)) by {
            if parts@[1]@.len() == 0 {
                assert(parts@[1]@ =~= Seq::empty());
            }
        }
        empty
    };
    if bad {
        diagnostic::one_error(
            text::join3(
                "INVALID_ID_SHAPE: orchestrator '",
                id,
                "' must match `flow.<name>` (V7)",
            ),
        )
    } else {
        diagnostic::none()
    }
}

/// An orchestrator must not declare a snippet.
pub open spec fn flow_snippet_findings(id: Seq<char>, def: Json) -> Seq<DiagnosticView> {
    if def.has("snippet"@) {
        diagnostic::error(
            "ORCHESTRATOR_HAS_SNIPPET: orchestrator '"@ + id
                + "' declares a `snippet:` block; snippets are capability-only — orchestrators are not externally invokable as snippets (V8)"@,
        )
    } else {
        diagnostic::nothing()
    }
}

fn v8_orchestrator_has_no_snippet(id: &str, def: &Value) -> (r: Vec<Diagnostic>)
    ensures
        diagnostic::diags(r@) == flow_snippet_findings(id@, def@),
{
    if def.has("snippet") {
        diagnostic::one_error(
            text::join3(
                "ORCHESTRATOR_HAS_SNIPPET: orchestrator '",
                id,
                "' declares a `snippet:` block; snippets are capability-only — orchestrators are not externally invokable as snippets (V8)",
            ),
        )
    } else {
        diagnostic::none()
    }
}

/// An orchestrator must not declare a verb.
pub open spec fn flow_verb_findings(id: Seq<char>, def: Json) -> Seq<DiagnosticView> {
    if def.has("verb"@) {
        diagnostic::error(
            "ORCHESTRATOR_HAS_VERB: orchestrator '"@ + id
                + "' declares `verb:`; verbs are capability-only (V9)"@,
        )
    } else {
        diagnostic::nothing()
    }
}

fn v9_orchestrator_has_no_verb(id: &str, def: &Value) -> (r: Vec<Diagnostic>)
    ensures
        diagnostic::diags(r@) == flow_verb_findings(id@, def@),
{
    if def.has("verb") {
        diagnostic::one_error(
            text::join3(
                "ORCHESTRATOR_HAS_VERB: orchestrator '",
                id,
                "' declares `verb:`; verbs are capability-only (V9)",
            ),
        )
    } else {
        diagnostic::none()
    }
}

// ---------------------------------------------------------------------------
// Use bindings
// ---------------------------------------------------------------------------

/// A slot name: a lowercase letter, then lowercase letters, digits, `-` and `_`.
pub open spec fn is_slot_name(s: Seq<char>) -> bool {
    s.len() > 0 && text::is_lower(s[0]) && forall|i: int|
        1 <= i < s.len() ==> text::is_lower(#[trigger] s[i]) || text::is_digit(s[i]) || s[i] == '-'
            || s[i] == '_'
}

/// The context slot that a host path names.
pub open spec fn slot_tail(host_path: Seq<char>) -> Option<Seq<char>> {
    match text::after_prefix(host_path, "$.context."@) {
        Some(tail) => if is_slot_name(tail) {
            Some(tail)
        } else {
            None
        },
        None => None,
    }
}

/// Whether a text is a slot name.
pub fn slot_name_ok(s: &str) -> (r: bool)
    ensures
        r == is_slot_name(s@),
{
    let cs = text::chars_of(s);
    if cs.len() == 0 || !text::lower(cs[0]) {
        return false;
    }
    let mut i: usize = 1;
    while i < cs.len()
        invariant
            1 <= i <= cs.len(),
            cs@ == s@,
            forall|j: int|
                1 <= j < i ==> text::is_lower(#[trigger] s@[j]) || text::is_digit(s@[j]) || s@[j]
                    == '-' || s@[j] == '_',
        decreases cs.len() - i,
    {
        let c = cs[i];
        if !(text::lower(c) || text::digit(c) || c == '-' || c == '_') {
            assert(!(text::is_lower(s@[i as int]) || text::is_digit(s@[i as int]) || s@[i as int]
                == '-' || s@[i as int] == '_'));
            return false;
        }
        i = i + 1;
    }
    true
}

/// Whether a host path names a context slot.
pub fn host_path_tail_ok(host_path: &str) -> (r: bool)
    ensures
        r == (slot_tail(host_path@) is Some),
{
    match text::strip_prefix(host_path, "$.context.") {
        Some(tail) => slot_name_ok(tail),
        None => false,
    }
}

/// Where a transition stands, as the findings about use bindings name it.
pub open spec fn at_transition(id: Seq<char>, state: Seq<char>, t: Seq<char>) -> Seq<char> {
    "workflow '"@ + id + "' state '"@ + state + "' transition '"@ + t + "' "@
}

fn at_transition_of(id: &str, state: &str, t: &str) -> (r: String)
    ensures
        r@ == at_transition(id@, state@, t@),
{
    text::join7("workflow '", id, "' state '", state, "' transition '", t, "' ")
}

/// A block of a use binding must be a mapping, where it is there.
pub open spec fn use_block(at: Seq<char>, use_value: Json, key: Seq<char>) -> Seq<DiagnosticView> {
    match use_value.get(key) {
        Some(b) => if b is Object {
            diagnostic::nothing()
        } else {
            diagnostic::error("INVALID_USE: "@ + at + "`use."@ + key + "` must be a mapping (V12)"@)
        },
        None => diagnostic::nothing(),
    }
}

/// Every bound output must name a capability output and a context slot.
pub open spec fn use_output(at: Seq<char>) -> spec_fn(Seq<char>, Json) -> Seq<DiagnosticView> {
    |host_path: Seq<char>, cap_name: Json|
        (if cap_name.as_str() is None {
            diagnostic::error(
                "INVALID_USE_OUTPUT_VALUE: "@ + at + "use.outputs["@ + host_path
                    + "] must be a string naming a capability output (V12)"@,
            )
        } else {
            diagnostic::nothing()
        }) + (if slot_tail(host_path) is None {
            diagnostic::error(
                "INVALID_USE_OUTPUT_PATH: "@ + at + "use.outputs key '"@ + host_path
                    + "' must match `^\\$\\.context\\.[a-z][a-z0-9_-]*$` — v0.6 projects only to single-segment context slots (V12)"@,
            )
        } else {
            diagnostic::nothing()
        })
}

/// The shape of a use binding.
pub open spec fn use_findings(at: Seq<char>, use_value: Json) -> Seq<DiagnosticView> {
    if use_value is Object {
        use_block(at, use_value, "inputs"@) + use_block(at, use_value, "outputs"@) + over_entries(
            use_value,
            "outputs"@,
            use_output(at),
        )
    } else {
        diagnostic::error("INVALID_USE: "@ + at + "`use:` must be a mapping (V12)"@)
    }
}

fn check_use_block(at: &str, use_value: &Value, key: &str) -> (r: Vec<Diagnostic>)
    ensures
        diagnostic::diags(r@) == use_block(at@, use_value@, key@),
{
    match use_value.get(key) {
        Some(b) => if b.is_object() {
            diagnostic::none()
        } else {
            diagnostic::one_error(
                text::join5("INVALID_USE: ", at, "`use.", key, "` must be a mapping (V12)"),
            )
        },
        None => diagnostic::none(),
    }
}

fn check_use_output(at: &str, host_path: &str, cap_name: &Value) -> (r: Vec<Diagnostic>)
    ensures
        diagnostic::diags(r@) == use_output(at@)(host_path@, cap_name@),
{
    let mut out = if cap_name.as_str().is_none() {
        diagnostic::one_error(
            text::join5(
                "INVALID_USE_OUTPUT_VALUE: ",
                at,
                "use.outputs[",
                host_path,
                "] must be a string naming a capability output (V12)",
            ),
        )
    } else {
        diagnostic::none()
    };
    let more = if !host_path_tail_ok(host_path) {
        diagnostic::one_error(
            text::join5(
                "INVALID_USE_OUTPUT_PATH: ",
                at,
                "use.outputs key '",
                host_path,
                "' must match `^\\$\\.context\\.[a-z][a-z0-9_-]*$` — v0.6 projects only to single-segment context slots (V12)",
            ),
        )
    } else {
        diagnostic::none()
    };
    diagnostic::extend(&mut out, more);
    out
}

fn validate_use_block_shape(at: &str, use_value: &Value) -> (r: Vec<Diagnostic>)
    ensures
        diagnostic::diags(r@) == use_findings(at@, use_value@),
{
    if !use_value.is_object() {
        return diagnostic::one_error(
            text::join3("INVALID_USE: ", at, "`use:` must be a mapping (V12)"),
        );
    }
    let mut out = check_use_block(at, use_value, "inputs");
    diagnostic::extend(&mut out, check_use_block(at, use_value, "outputs"));
    let ghost base = diagnostic::diags(out@);
    let ghost f = use_output(at@);
    match use_value.object_at("outputs") {
        Some(es) => {
            let ghost e = json::entries(es@);
            let mut i: usize = 0;
            assert(base + over(e, 0, f) =~= base);
            while i < es.len()
                invariant
                    i <= es.len(),
                    e == json::entries(es@),
                    f == use_output(at@),
                    diagnostic::diags(out@) == base + over(e, i as int, f),
                decreases es.len() - i,
            {
                assert(e[i as int] == (es@[i as int].0@, es@[i as int].1@));
                let found = check_use_output(at, es[i].0.as_str(), &es[i].1);
                diagnostic::extend(&mut out, found);
                assert((base + over(e, i as int, f)) + f(e[i as int].0, e[i as int].1) =~= base
                    + over(e, i + 1, f));
                i = i + 1;
            }
        },
        None => {
            assert(base + over_entries(use_value@, "outputs"@, f) =~= base);
        },
    }
    out
}

/// A transition that invokes a capability must bind its inputs and outputs, and
/// every binding must be well shaped.
pub open spec fn use_transition(id: Seq<char>) -> spec_fn(Seq<char>, Seq<char>, Json) -> Seq<
    DiagnosticView,
> {
    |state: Seq<char>, t: Seq<char>, d: Json|
        match d.get("executor"@) {
            Some(exec) => if exec.str_at("kind"@) == Some("workflow"@) {
                let target = exec.str_at("definitionId"@);
                match exec.get("use"@) {
                    Some(u) => use_findings(at_transition(id, state, t), u),
                    None => if target matches Some(c) && tier::tier_of(c) == Tier::Cap {
                        diagnostic::error(
                            "MISSING_USE: "@ + at_transition(id, state, t)
                                + "invokes capability '"@ + target->0
                                + "' via `kind: workflow` without a `use:` block. Capability invocations require a typed use-binding (V12)."@,
                        )
                    } else {
                        diagnostic::nothing()
                    },
                }
            } else {
                diagnostic::nothing()
            },
            None => diagnostic::nothing(),
        }
}

fn check_use_transition(id: &str, state: &str, t: &str, d: &Value) -> (r: Vec<Diagnostic>)
    ensures
        diagnostic::diags(r@) == use_transition(id@)(state@, t@, d@),
{
    let exec = match d.get("executor") {
        Some(e) => e,
        None => {
            return diagnostic::none();
        },
    };
    if !text::opt_is(exec.str_at("kind"), "workflow") {
        return diagnostic::none();
    }
    let at = at_transition_of(id, state, t);
    match exec.get("use") {
        Some(u) => validate_use_block_shape(at.as_str(), u),
        None => {
            if let Some(target) = exec.str_at("definitionId") {
                if Tier::from_id(target) == Tier::Cap {
                    return diagnostic::one_error(
                        text::join5(
                            "MISSING_USE: ",
                            at.as_str(),
                            "invokes capability '",
                            target,
                            "' via `kind: workflow` without a `use:` block. Capability invocations require a typed use-binding (V12).",
                        ),
                    );
                }
            }
            diagnostic::none()
        },
    }
}

// ---------------------------------------------------------------------------
// Contract hashes
// ---------------------------------------------------------------------------

/// What the rules read besides one definition: every definition, the contract hash
/// of each capability that has a snippet, and what is wrong with the slot
/// constraints of a definition.
#[derive(Debug)]
pub struct ValidationInputs {
    pub verbs: Vec<CapVerb>,
    pub contract_hashes: Value,
    pub constraint_errors: Value,
}

/// The inputs as mathematical values.
pub struct InputsView {
    pub verbs: Seq<(Seq<char>, CapVerbCategory)>,
    pub contract_hashes: Json,
    pub constraint_errors: Json,
}

impl View for ValidationInputs {
    type V = InputsView;

    open spec fn view(&self) -> InputsView {
        InputsView {
            verbs: verb_views(self.verbs@),
            contract_hashes: self.contract_hashes@,
            constraint_errors: self.constraint_errors@,
        }
    }
}

impl Default for ValidationInputs {
    /// No verbs, no hashes and no constraint errors.
    fn default() -> (r: ValidationInputs)
        ensures
            r@.verbs == Seq::<(Seq<char>, CapVerbCategory)>::empty(),
            r@.contract_hashes == Json::empty(),
            r@.constraint_errors == Json::empty(),
    {
        let r = ValidationInputs {
            verbs: Vec::new(),
            contract_hashes: Value::object(),
            constraint_errors: Value::object(),
        };
        assert(r@.verbs =~= Seq::empty());
        r
    }
}

/// The definition of a capability.
pub open spec fn capability(workflows: Json, id: Seq<char>) -> Option<Json> {
    if tier::tier_of(id) == Tier::Cap {
        workflows.get(id)
    } else {
        None
    }
}

fn capability_of<'a>(workflows: &'a Value, id: &str) -> (r: Option<&'a Value>)
    ensures
        json::opt_view(r) == capability(workflows@, id@),
{
    if Tier::from_id(id) == Tier::Cap {
        workflows.get(id)
    } else {
        None
    }
}

/// The contract hash of a capability that has a snippet.
pub open spec fn contract_hash(workflows: Json, hashes: Json, id: Seq<char>) -> Option<Seq<char>> {
    match capability(workflows, id) {
        Some(def) => if def.has("snippet"@) {
            hashes.str_at(id)
        } else {
            None
        },
        None => None,
    }
}

/// A pinned contract hash must be the loaded one, and a stable capability must be
/// pinned.
pub open spec fn pin_transition(
    id: Seq<char>,
    workflows: Json,
    hashes: Json,
) -> spec_fn(Seq<char>, Seq<char>, Json) -> Seq<DiagnosticView> {
    |state: Seq<char>, t: Seq<char>, d: Json|
        match invocation(d) {
            Some(target) => match contract_hash(workflows, hashes, target) {
                Some(actual) => {
                    let exec = d.get("executor"@)->0;
                    match exec.str_at("expects_contract_hash"@) {
                        Some(pin) => if pin != actual {
                            diagnostic::error(
                                "CONTRACT_HASH_MISMATCH: "@ + at_transition(id, state, t)
                                    + "pins capability '"@ + target + "' to `"@ + pin
                                    + "` but the loaded contract hash is `"@ + actual + "` (V15)"@,
                            )
                        } else {
                            diagnostic::nothing()
                        },
                        None => if runtime_links::str_else(
                            capability(workflows, target)->0,
                            "lifecycle"@,
                            "experimental"@,
                        ) == "stable"@ {
                            diagnostic::error(
                                "MISSING_CONTRACT_HASH: "@ + at_transition(id, state, t)
                                    + "invokes stable-lifecycle capability '"@ + target
                                    + "' without `expects_contract_hash:`. Add: expects_contract_hash: \""@
                                    + actual + "\" (V16)"@,
                            )
                        } else {
                            diagnostic::nothing()
                        },
                    }
                },
                None => diagnostic::nothing(),
            },
            None => diagnostic::nothing(),
        }
}

fn check_pin_transition(
    id: &str,
    workflows: &Value,
    hashes: &Value,
    state: &str,
    t: &str,
    d: &Value,
) -> (r: Vec<Diagnostic>)
    ensures
        diagnostic::diags(r@) == pin_transition(id@, workflows@, hashes@)(state@, t@, d@),
{
    let exec = match d.get("executor") {
        Some(e) => e,
        None => {
            return diagnostic::none();
        },
    };
    if !text::opt_is(exec.str_at("kind"), "workflow") {
        return diagnostic::none();
    }
    let target = match exec.str_at("definitionId") {
        Some(x) => x,
        None => {
            return diagnostic::none();
        },
    };
    let cap = match capability_of(workflows, target) {
        Some(c) => c,
        None => {
            return diagnostic::none();
        },
    };
    if !cap.has("snippet") {
        return diagnostic::none();
    }
    let actual = match hashes.str_at(target) {
        Some(h) => h,
        None => {
            return diagnostic::none();
        },
    };
    let at = at_transition_of(id, state, t);
    match exec.str_at("expects_contract_hash") {
        Some(pin) => {
            if text::str_eq(pin, actual) {
                diagnostic::none()
            } else {
                diagnostic::one_error(
                    text::join9(
                        "CONTRACT_HASH_MISMATCH: ",
                        at.as_str(),
                        "pins capability '",
                        target,
                        "' to `",
                        pin,
                        "` but the loaded contract hash is `",
                        actual,
                        "` (V15)",
                    ),
                )
            }
        },
        None => {
            let lifecycle = runtime_links::str_or_default(cap, "lifecycle", "experimental");
            if text::str_eq(lifecycle, "stable") {
                diagnostic::one_error(
                    text::join7(
                        "MISSING_CONTRACT_HASH: ",
                        at.as_str(),
                        "invokes stable-lifecycle capability '",
                        target,
                        "' without `expects_contract_hash:`. Add: expects_contract_hash: \"",
                        actual,
                        "\" (V16)",
                    ),
                )
            } else {
                diagnostic::none()
            }
        },
    }
}

// ---------------------------------------------------------------------------
// Slots
// ---------------------------------------------------------------------------

/// The slots that a transition's binding reads must be declared or written.
pub open spec fn slot_input(
    table: Seq<(Seq<char>, slot_table::SlotEntryView)>,
    id: Seq<char>,
    state: Seq<char>,
    t: Seq<char>,
) -> spec_fn(Seq<char>, Json) -> Seq<DiagnosticView> {
    |name: Seq<char>, expr: Json|
        match expr.as_str() {
            Some(path) => if "$.context."@.is_prefix_of(path) && json::find(table, path) is None {
                diagnostic::error(slot_table::unreachable_message(id, state, t, path))
            } else {
                diagnostic::nothing()
            },
            None => diagnostic::nothing(),
        }
}

/// The inputs that a transition binds.
pub open spec fn bound_inputs(d: Json) -> Seq<(Seq<char>, Json)> {
    match d.get("executor"@) {
        Some(exec) => match exec.get("use"@) {
            Some(u) => u.entries_at("inputs"@),
            None => Seq::empty(),
        },
        None => Seq::empty(),
    }
}

/// The slots that the bindings of a transition read.
pub open spec fn slot_transition(
    table: Seq<(Seq<char>, slot_table::SlotEntryView)>,
    id: Seq<char>,
) -> spec_fn(Seq<char>, Seq<char>, Json) -> Seq<DiagnosticView> {
    |state: Seq<char>, t: Seq<char>, d: Json|
        over(bound_inputs(d), bound_inputs(d).len() as int, slot_input(table, id, state, t))
}

/// The slots of an orchestrator must have one type each, and every slot that is
/// read must be declared or written.
pub open spec fn slot_findings(id: Seq<char>, def: Json, caps: Json) -> Seq<DiagnosticView> {
    let t = slot_table::table_of(def, caps);
    if t.errors.len() > 0 {
        t.errors
    } else {
        over_transitions(def, slot_transition(t.table, id))
    }
}

fn check_slot_transition(table: &SlotTable, id: &str, state: &str, t: &str, d: &Value) -> (r: Vec<
    Diagnostic,
>)
    ensures
        diagnostic::diags(r@) == slot_transition(table@, id@)(state@, t@, d@),
{
    let mut out = diagnostic::none();
    let inputs = match d.get("executor") {
        Some(exec) => match exec.get("use") {
            Some(u) => match u.object_at("inputs") {
                Some(i) => i,
                None => {
                    return out;
                },
            },
            None => {
                return out;
            },
        },
        None => {
            return out;
        },
    };
    let ghost e = json::entries(inputs@);
    let ghost f = slot_input(table@, id@, state@, t@);
    let mut i: usize = 0;
    while i < inputs.len()
        invariant
            i <= inputs.len(),
            e == json::entries(inputs@),
            f == slot_input(table@, id@, state@, t@),
            diagnostic::diags(out@) == over(e, i as int, f),
        decreases inputs.len() - i,
    {
        assert(e[i as int] == (inputs@[i as int].0@, inputs@[i as int].1@));
        let mut found = diagnostic::none();
        if let Some(path) = inputs[i].1.as_str() {
            if text::starts_with(path, "$.context.") {
                if let Some(d) = slot_table::assert_reachable(table, path, id, state, t) {
                    found.push(d);
                    assert(diagnostic::diags(found@) =~= diagnostic::error(
                        slot_table::unreachable_message(id@, state@, t@, path@),
                    ));
                }
            }
        }
        diagnostic::extend(&mut out, found);
        i = i + 1;
    }
    out
}

// ---------------------------------------------------------------------------
// Walks
// ---------------------------------------------------------------------------

/// Which rule is checked on every transition.
#[derive(Clone, Copy)]
pub enum TransitionRule<'a> {
    Use,
    Pins(&'a Value, &'a Value),
    Slots(&'a SlotTable),
}

/// The findings of a rule on one transition.
pub open spec fn rule_findings(rule: TransitionRule<'_>, id: Seq<char>) -> spec_fn(
    Seq<char>,
    Seq<char>,
    Json,
) -> Seq<DiagnosticView> {
    match rule {
        TransitionRule::Use => use_transition(id),
        TransitionRule::Pins(workflows, hashes) => pin_transition(id, workflows@, hashes@),
        TransitionRule::Slots(table) => slot_transition(table@, id),
    }
}

fn check_rule(rule: TransitionRule<'_>, id: &str, state: &str, t: &str, d: &Value) -> (r: Vec<
    Diagnostic,
>)
    ensures
        diagnostic::diags(r@) == rule_findings(rule, id@)(state@, t@, d@),
{
    match rule {
        TransitionRule::Use => check_use_transition(id, state, t, d),
        TransitionRule::Pins(workflows, hashes) => check_pin_transition(
            id,
            workflows,
            hashes,
            state,
            t,
            d,
        ),
        TransitionRule::Slots(table) => check_slot_transition(table, id, state, t, d),
    }
}

fn check_state(rule: TransitionRule<'_>, id: &str, state: &str, s: &Value) -> (r: Vec<Diagnostic>)
    ensures
        diagnostic::diags(r@) == in_state(rule_findings(rule, id@))(state@, s@),
{
    let mut out = diagnostic::none();
    let ghost f = in_transition(rule_findings(rule, id@), state@);
    if let Some(ts) = s.object_at("transitions") {
        let ghost e = json::entries(ts@);
        let mut i: usize = 0;
        while i < ts.len()
            invariant
                i <= ts.len(),
                e == json::entries(ts@),
                f == in_transition(rule_findings(rule, id@), state@),
                diagnostic::diags(out@) == over(e, i as int, f),
            decreases ts.len() - i,
        {
            assert(e[i as int] == (ts@[i as int].0@, ts@[i as int].1@));
            let found = check_rule(rule, id, state, ts[i].0.as_str(), &ts[i].1);
            diagnostic::extend(&mut out, found);
            i = i + 1;
        }
    }
    out
}

fn check_transitions(rule: TransitionRule<'_>, id: &str, def: &Value) -> (r: Vec<Diagnostic>)
    ensures
        diagnostic::diags(r@) == over_transitions(def@, rule_findings(rule, id@)),
{
    let mut out = diagnostic::none();
    let ghost f = in_state(rule_findings(rule, id@));
    if let Some(states) = def.object_at("states") {
        let ghost e = json::entries(states@);
        let mut i: usize = 0;
        while i < states.len()
            invariant
                i <= states.len(),
                e == json::entries(states@),
                f == in_state(rule_findings(rule, id@)),
                diagnostic::diags(out@) == over(e, i as int, f),
            decreases states.len() - i,
        {
            assert(e[i as int] == (states@[i as int].0@, states@[i as int].1@));
            let found = check_state(rule, id, states[i].0.as_str(), &states[i].1);
            diagnostic::extend(&mut out, found);
            i = i + 1;
        }
    }
    out
}

fn v13_v14_slot_table(id: &str, def: &Value, caps: &Value) -> (r: Vec<Diagnostic>)
    ensures
        diagnostic::diags(r@) == slot_findings(id@, def@, caps@),
{
    match slot_table::build_slot_table(def, caps) {
        Ok(table) => check_transitions(TransitionRule::Slots(&table), id, def),
        Err(d) => {
            assert(diagnostic::diags(d@).len() == d@.len());
            d
        },
    }
}

/// The rules of a definition's tier, the bindings of its transitions, and the
/// contract hashes that they pin.
pub open spec fn tier_findings(
    id: Seq<char>,
    def: Json,
    workflows: Json,
    caps: Json,
    inputs: InputsView,
) -> Seq<DiagnosticView> {
    (match inputs.constraint_errors.str_at(id) {
        Some(e) => diagnostic::error("workflow '"@ + id + "': "@ + e),
        None => diagnostic::nothing(),
    }) + (match tier::tier_of(id) {
        Tier::Cap => verb_findings(id, def, inputs.verbs) + cap_id_findings(id, def)
            + snippet_findings(id, def) + shape_findings(id, def, inputs.verbs)
            + cap_nesting_findings(id, def),
        Tier::Flow => flow_id_findings(id) + flow_snippet_findings(id, def) + flow_verb_findings(
            id,
            def,
        ) + flow_nesting_findings(id, def) + slot_findings(id, def, caps),
        Tier::Other => diagnostic::nothing(),
    }) + over_transitions(def, use_transition(id)) + over_transitions(
        def,
        pin_transition(id, workflows, inputs.contract_hashes),
    )
}

/// Checks the rules of a definition's tier.
pub fn check_tier(
    id: &str,
    def: &Value,
    workflows: &Value,
    caps: &Value,
    inputs: &ValidationInputs,
) -> (r: Vec<Diagnostic>)
    ensures
        diagnostic::diags(r@) == tier_findings(id@, def@, workflows@, caps@, inputs@),
{
    let mut out = match inputs.constraint_errors.str_at(id) {
        Some(e) => diagnostic::one_error(text::join4("workflow '", id, "': ", e)),
        None => diagnostic::none(),
    };
    let rules = match Tier::from_id(id) {
        Tier::Cap => {
            let mut v = v1_verb_in_cloud(id, def, &inputs.verbs);
            diagnostic::extend(&mut v, v2_id_matches_verb_name(id, def));
            diagnostic::extend(&mut v, validate_snippet(id, def));
            diagnostic::extend(&mut v, v6_primary_executor_verb_shape(id, def, &inputs.verbs));
            diagnostic::extend(&mut v, v10_capability_does_not_invoke_workflow(id, def));
            v
        },
        Tier::Flow => {
            let mut v = v7_id_matches_flow_pattern(id);
            diagnostic::extend(&mut v, v8_orchestrator_has_no_snippet(id, def));
            diagnostic::extend(&mut v, v9_orchestrator_has_no_verb(id, def));
            diagnostic::extend(&mut v, v11_orchestrator_does_not_invoke_orchestrator(id, def));
            diagnostic::extend(&mut v, v13_v14_slot_table(id, def, caps));
            v
        },
        Tier::Other => diagnostic::none(),
    };
    diagnostic::extend(&mut out, rules);
    diagnostic::extend(&mut out, check_transitions(TransitionRule::Use, id, def));
    diagnostic::extend(
        &mut out,
        check_transitions(TransitionRule::Pins(workflows, &inputs.contract_hashes), id, def),
    );
    out
}

/// The declared outputs of the capabilities among the first `n` workflows.
pub open spec fn snippet_outputs(e: Seq<(Seq<char>, Json)>, n: int) -> Json
    decreases n,
{
    if n <= 0 {
        Json::empty()
    } else {
        let before = snippet_outputs(e, n - 1);
        let (id, def) = e[n - 1];
        if tier::tier_of(id) == Tier::Cap {
            match def.get("snippet"@) {
                Some(s) => match s.get("outputs"@) {
                    Some(o) => before.with(id, o),
                    None => before,
                },
                None => before,
            }
        } else {
            before
        }
    }
}

/// The declared outputs of every capability.
pub fn snippet_outputs_of(workflows: &Vec<(String, Value)>) -> (r: Value)
    ensures
        r@ == snippet_outputs(json::entries(workflows@), workflows@.len() as int),
{
    let ghost e = json::entries(workflows@);
    let mut out = Value::object();
    let mut i: usize = 0;
    while i < workflows.len()
        invariant
            i <= workflows.len(),
            e == json::entries(workflows@),
            out@ == snippet_outputs(e, i as int),
        decreases workflows.len() - i,
    {
        assert(e[i as int] == (workflows@[i as int].0@, workflows@[i as int].1@));
        if Tier::from_id(workflows[i].0.as_str()) == Tier::Cap {
            if let Some(s) = workflows[i].1.get("snippet") {
                if let Some(o) = s.get("outputs") {
                    out.set(workflows[i].0.as_str(), o.dup());
                }
            }
        }
        i = i + 1;
    }
    out
}

} // verus!
