//! Checks of workflow definitions: their states and transitions, which slots they
//! read before anything writes them, and which skills they refer to.
pub use crate::diagnostic::Diagnostic;
pub use crate::validate_rules::{host_path_tail_ok, CapVerb, CapVerbCategory, ValidationInputs};

use crate::diagnostic;
use crate::diagnostic::DiagnosticView;
use crate::graph;
use crate::graph::{Edge, EdgeView};
use crate::json;
use crate::json::{Json, Value};
use crate::text;
use crate::validate_rules;
use crate::validate_rules::InputsView;
use vstd::prelude::*;

verus! {

// ---------------------------------------------------------------------------
// Names
// ---------------------------------------------------------------------------

/// The keys of a list of entries.
pub open spec fn keys(e: Seq<(Seq<char>, Json)>) -> Seq<Seq<char>> {
    Seq::new(e.len(), |i: int| e[i].0)
}

/// The keys of a list of entries.
pub fn keys_of(v: &Vec<(String, Value)>) -> (r: Vec<String>)
    ensures
        text::texts(r@) == keys(json::entries(v@)),
{
    let ghost all = keys(json::entries(v@));
    let mut out: Vec<String> = Vec::new();
    let mut i: usize = 0;
    while i < v.len()
        invariant
            i <= v.len(),
            all == keys(json::entries(v@)),
            text::texts(out@) == all.take(i as int),
        decreases v.len() - i,
    {
        let k = v[i].0.clone();
        proof {
            text::lemma_texts_push(out@, k);
        }
        out.push(k);
        i = i + 1;
    }
    assert(all.take(i as int) =~= all);
    out
}

/// The texts among the first `n` items.
pub open spec fn strings(items: Seq<Json>, n: int) -> Seq<Seq<char>>
    decreases n,
{
    if n <= 0 {
        Seq::empty()
    } else {
        match items[n - 1].as_str() {
            Some(s) => strings(items, n - 1).push(s),
            None => strings(items, n - 1),
        }
    }
}

/// The texts among the items.
pub fn strings_of(items: &Vec<Value>) -> (r: Vec<String>)
    ensures
        text::texts(r@) == strings(json::views(items@), items@.len() as int),
{
    let ghost js = json::views(items@);
    let mut out: Vec<String> = Vec::new();
    assert(text::texts(out@) =~= Seq::empty());
    let mut i: usize = 0;
    while i < items.len()
        invariant
            i <= items.len(),
            js == json::views(items@),
            text::texts(out@) == strings(js, i as int),
        decreases items.len() - i,
    {
        assert(js[i as int] == items@[i as int]@);
        if let Some(s) = items[i].as_str() {
            let t = s.to_owned();
            proof {
                text::lemma_texts_push(out@, t);
            }
            out.push(t);
        }
        i = i + 1;
    }
    out
}

/// Where the timeout of a definition leads.
pub open spec fn timeout_target(def: Json) -> Option<Seq<char>> {
    match def.get("onTimeout"@) {
        Some(t) => t.str_at("target"@),
        None => None,
    }
}

fn timeout_target_of(def: &Value) -> (r: Option<&str>)
    ensures
        text::opt_str(r) == timeout_target(def@),
{
    match def.get("onTimeout") {
        Some(t) => t.str_at("target"),
        None => None,
    }
}

// ---------------------------------------------------------------------------
// States and transitions
// ---------------------------------------------------------------------------

/// The targets of the branches must be states.
pub open spec fn branch_findings(
    id: Seq<char>,
    state: Seq<char>,
    t: Seq<char>,
    names: Seq<Seq<char>>,
    branches: Seq<Json>,
    n: int,
) -> Seq<DiagnosticView>
    decreases n,
{
    if n <= 0 {
        Seq::empty()
    } else {
        branch_findings(id, state, t, names, branches, n - 1) + match branches[n - 1].str_at(
            "target"@,
        ) {
            Some(bt) => if names.contains(bt) {
                diagnostic::nothing()
            } else {
                diagnostic::error(
                    "workflow '"@ + id + "': branch "@ + text::decimal((n - 1) as nat)
                        + " of transition '"@ + t + "' in state '"@ + state + "' targets '"@ + bt
                        + "' which is not in states"@,
                )
            },
            None => diagnostic::nothing(),
        }
    }
}

fn check_branches(
    id: &str,
    state: &str,
    t: &str,
    names: &Vec<String>,
    branches: &Vec<Value>,
) -> (r: Vec<Diagnostic>)
    ensures
        diagnostic::diags(r@) == branch_findings(
            id@,
            state@,
            t@,
            text::texts(names@),
            json::views(branches@),
            branches@.len() as int,
        ),
{
    let ghost js = json::views(branches@);
    let mut out = diagnostic::none();
    let mut i: usize = 0;
    while i < branches.len()
        invariant
            i <= branches.len(),
            js == json::views(branches@),
            diagnostic::diags(out@) == branch_findings(
                id@,
                state@,
                t@,
                text::texts(names@),
                js,
                i as int,
            ),
        decreases branches.len() - i,
    {
        assert(js[i as int] == branches@[i as int]@);
        let mut found = diagnostic::none();
        if let Some(bt) = branches[i].str_at("target") {
            if !text::has_text(names, bt) {
                let n = text::decimal_of(i as u64);
                found = diagnostic::one_error(
                    text::join11(
                        "workflow '",
                        id,
                        "': branch ",
                        n.as_str(),
                        " of transition '",
                        t,
                        "' in state '",
                        state,
                        "' targets '",
                        bt,
                        "' which is not in states",
                    ),
                );
            }
        }
        diagnostic::extend(&mut out, found);
        i = i + 1;
    }
    out
}

/// A transition must have a target, and its targets must be states.
pub open spec fn transition_findings(id: Seq<char>, names: Seq<Seq<char>>, state: Seq<char>) -> spec_fn(
    Seq<char>,
    Json,
) -> Seq<DiagnosticView> {
    |t: Seq<char>, d: Json|
        (match d.str_at("target"@) {
            Some(target) => if names.contains(target) {
                diagnostic::nothing()
            } else {
                diagnostic::error(
                    "workflow '"@ + id + "': transition '"@ + t + "' in state '"@ + state
                        + "' targets '"@ + target + "' which is not in states"@,
                )
            },
            None => diagnostic::error(
                "workflow '"@ + id + "': transition '"@ + t + "' in state '"@ + state
                    + "' is missing 'target'"@,
            ),
        }) + branch_findings(
            id,
            state,
            t,
            names,
            d.items_at("branches"@),
            d.items_at("branches"@).len() as int,
        )
}

fn check_transition(id: &str, names: &Vec<String>, state: &str, t: &str, d: &Value) -> (r: Vec<
    Diagnostic,
>)
    ensures
        diagnostic::diags(r@) == transition_findings(id@, text::texts(names@), state@)(t@, d@),
{
    let mut out = match d.str_at("target") {
        Some(target) => {
            if text::has_text(names, target) {
                diagnostic::none()
            } else {
                diagnostic::one_error(
                    text::join9(
                        "workflow '",
                        id,
                        "': transition '",
                        t,
                        "' in state '",
                        state,
                        "' targets '",
                        target,
                        "' which is not in states",
                    ),
                )
            }
        },
        None => diagnostic::one_error(
            text::join7(
                "workflow '",
                id,
                "': transition '",
                t,
                "' in state '",
                state,
                "' is missing 'target'",
            ),
        ),
    };
    match d.array_at("branches") {
        Some(branches) => {
            diagnostic::extend(&mut out, check_branches(id, state, t, names, branches));
        },
        None => {
            diagnostic::extend(&mut out, diagnostic::none());
        },
    }
    out
}

/// A state that is not terminal should have a way out, its transitions must be
/// sound, and an entry action should have an executor.
pub open spec fn state_findings(id: Seq<char>, def: Json, names: Seq<Seq<char>>) -> spec_fn(
    Seq<char>,
    Json,
) -> Seq<DiagnosticView> {
    |state: Seq<char>, s: Json|
        (if s.bool_at("terminal"@) != Some(true) && s.entries_at("transitions"@).len() == 0
            && !has_timeout_target(def) {
            diagnostic::warning(
                "workflow '"@ + id + "': state '"@ + state
                    + "' is non-terminal with no outgoing transitions"@,
            )
        } else {
            diagnostic::nothing()
        }) + validate_rules::over_entries(
            s,
            "transitions"@,
            transition_findings(id, names, state),
        ) + (match s.get("onEnter"@) {
            Some(e) => if e.has("executor"@) {
                diagnostic::nothing()
            } else {
                diagnostic::warning(
                    "workflow '"@ + id + "': state '"@ + state
                        + "' has onEnter but no executor"@,
                )
            },
            None => diagnostic::nothing(),
        })
}

/// The timeout of a definition declares a target, of whatever kind.
pub open spec fn has_timeout_target(def: Json) -> bool {
    match def.get("onTimeout"@) {
        Some(t) => t.step("target"@) is Some,
        None => false,
    }
}

fn has_timeout_target_of(def: &Value) -> (r: bool)
    ensures
        r == has_timeout_target(def@),
{
    match def.get("onTimeout") {
        Some(t) => t.step("target").is_some(),
        None => false,
    }
}

fn check_state(id: &str, def: &Value, names: &Vec<String>, state: &str, s: &Value) -> (r: Vec<
    Diagnostic,
>)
    ensures
        diagnostic::diags(r@) == state_findings(id@, def@, text::texts(names@))(state@, s@),
{
    let terminal = match s.bool_at("terminal") {
        Some(b) => b,
        None => false,
    };
    let ts = s.object_at("transitions");
    let dead_end = match ts {
        Some(t) => t.len() == 0,
        None => true,
    };
    let mut out = if !terminal && dead_end && !has_timeout_target_of(def) {
        diagnostic::one_warning(
            text::join5(
                "workflow '",
                id,
                "': state '",
                state,
                "' is non-terminal with no outgoing transitions",
            ),
        )
    } else {
        diagnostic::none()
    };
    let ghost f = transition_findings(id@, text::texts(names@), state@);
    let mut inner = diagnostic::none();
    if let Some(ts) = ts {
        let ghost e = json::entries(ts@);
        let mut i: usize = 0;
        while i < ts.len()
            invariant
                i <= ts.len(),
                e == json::entries(ts@),
                f == transition_findings(id@, text::texts(names@), state@),
                diagnostic::diags(inner@) == validate_rules::over(e, i as int, f),
            decreases ts.len() - i,
        {
            assert(e[i as int] == (ts@[i as int].0@, ts@[i as int].1@));
            let found = check_transition(id, names, state, ts[i].0.as_str(), &ts[i].1);
            diagnostic::extend(&mut inner, found);
            i = i + 1;
        }
    }
    diagnostic::extend(&mut out, inner);
    let entry = match s.get("onEnter") {
        Some(e) => {
            if e.has("executor") {
                diagnostic::none()
            } else {
                diagnostic::one_warning(
                    text::join5(
                        "workflow '",
                        id,
                        "': state '",
                        state,
                        "' has onEnter but no executor",
                    ),
                )
            }
        },
        None => diagnostic::none(),
    };
    diagnostic::extend(&mut out, entry);
    out
}

// ---------------------------------------------------------------------------
// The blackboard
// ---------------------------------------------------------------------------

/// The slots that a blackboard declares; `None` without a blackboard, or where it
/// is neither a list nor a mapping.
pub open spec fn blackboard_slots(def: Json) -> Option<Seq<Seq<char>>> {
    match def.get("blackboard"@) {
        Some(Json::Array(items)) => Some(strings(items, items.len() as int)),
        Some(Json::Object(e)) => Some(keys(e)),
        _ => None,
    }
}

/// The slots that a blackboard declares.
pub fn declared_blackboard_slots(def: &Value) -> (r: Option<Vec<String>>)
    ensures
        match r {
            Some(v) => blackboard_slots(def@) == Some(text::texts(v@)),
            None => blackboard_slots(def@) is None,
        },
{
    match def.get("blackboard") {
        Some(Value::Array(items)) => Some(strings_of(items)),
        Some(Value::Object(e)) => Some(keys_of(e)),
        _ => None,
    }
}

/// A slot that an output writes should be declared.
pub open spec fn output_key(
    id: Seq<char>,
    declared: Seq<Seq<char>>,
    state: Seq<char>,
    t: Seq<char>,
) -> spec_fn(Seq<char>, Json) -> Seq<DiagnosticView> {
    |key: Seq<char>, v: Json|
        if declared.contains(key) {
            diagnostic::nothing()
        } else {
            diagnostic::warning(
                "workflow '"@ + id + "': transition '"@ + t + "' in state '"@ + state
                    + "' writes output key '"@ + key
                    + "' which is not declared in the blackboard"@,
            )
        }
}

/// The slots that the outputs of a transition write.
pub open spec fn output_transition(id: Seq<char>, declared: Seq<Seq<char>>) -> spec_fn(
    Seq<char>,
    Seq<char>,
    Json,
) -> Seq<DiagnosticView> {
    |state: Seq<char>, t: Seq<char>, d: Json|
        validate_rules::over_entries(d, "output"@, output_key(id, declared, state, t))
}

/// The slots that a definition writes should be those of its blackboard, where it
/// has one.
pub open spec fn blackboard_findings(id: Seq<char>, def: Json) -> Seq<DiagnosticView> {
    if def.has("blackboard"@) {
        let declared = match blackboard_slots(def) {
            Some(d) => d,
            None => Seq::empty(),
        };
        validate_rules::over_transitions(def, output_transition(id, declared))
    } else {
        diagnostic::nothing()
    }
}

fn check_output(id: &str, declared: &Vec<String>, state: &str, t: &str, d: &Value) -> (r: Vec<
    Diagnostic,
>)
    ensures
        diagnostic::diags(r@) == output_transition(id@, text::texts(declared@))(state@, t@, d@),
{
    let mut out = diagnostic::none();
    let ghost f = output_key(id@, text::texts(declared@), state@, t@);
    if let Some(es) = d.object_at("output") {
        let ghost e = json::entries(es@);
        let mut i: usize = 0;
        while i < es.len()
            invariant
                i <= es.len(),
                e == json::entries(es@),
                f == output_key(id@, text::texts(declared@), state@, t@),
                diagnostic::diags(out@) == validate_rules::over(e, i as int, f),
            decreases es.len() - i,
        {
            assert(e[i as int] == (es@[i as int].0@, es@[i as int].1@));
            let key = es[i].0.as_str();
            let found = if text::has_text(declared, key) {
                diagnostic::none()
            } else {
                diagnostic::one_warning(
                    text::join9(
                        "workflow '",
                        id,
                        "': transition '",
                        t,
                        "' in state '",
                        state,
                        "' writes output key '",
                        key,
                        "' which is not declared in the blackboard",
                    ),
                )
            };
            diagnostic::extend(&mut out, found);
            i = i + 1;
        }
    }
    out
}

fn check_outputs_in_state(id: &str, declared: &Vec<String>, state: &str, s: &Value) -> (r: Vec<
    Diagnostic,
>)
    ensures
        diagnostic::diags(r@) == validate_rules::in_state(
            output_transition(id@, text::texts(declared@)),
        )(state@, s@),
{
    let mut out = diagnostic::none();
    let ghost f = validate_rules::in_transition(
        output_transition(id@, text::texts(declared@)),
        state@,
    );
    if let Some(ts) = s.object_at("transitions") {
        let ghost e = json::entries(ts@);
        let mut i: usize = 0;
        while i < ts.len()
            invariant
                i <= ts.len(),
                e == json::entries(ts@),
                f == validate_rules::in_transition(
                    output_transition(id@, text::texts(declared@)),
                    state@,
                ),
                diagnostic::diags(out@) == validate_rules::over(e, i as int, f),
            decreases ts.len() - i,
        {
            assert(e[i as int] == (ts@[i as int].0@, ts@[i as int].1@));
            let found = check_output(id, declared, state, ts[i].0.as_str(), &ts[i].1);
            diagnostic::extend(&mut out, found);
            i = i + 1;
        }
    }
    out
}

fn check_blackboard(id: &str, def: &Value) -> (r: Vec<Diagnostic>)
    ensures
        diagnostic::diags(r@) == blackboard_findings(id@, def@),
{
    let mut out = diagnostic::none();
    if !def.has("blackboard") {
        return out;
    }
    let declared = match declared_blackboard_slots(def) {
        Some(d) => d,
        None => {
            let v: Vec<String> = Vec::new();
            assert(text::texts(v@) =~= Seq::empty());
            v
        },
    };
    let ghost f = validate_rules::in_state(output_transition(id@, text::texts(declared@)));
    if let Some(states) = def.object_at("states") {
        let ghost e = json::entries(states@);
        let mut i: usize = 0;
        while i < states.len()
            invariant
                i <= states.len(),
                e == json::entries(states@),
                f == validate_rules::in_state(output_transition(id@, text::texts(declared@))),
                diagnostic::diags(out@) == validate_rules::over(e, i as int, f),
            decreases states.len() - i,
        {
            assert(e[i as int] == (states@[i as int].0@, states@[i as int].1@));
            let found = check_outputs_in_state(
                id,
                &declared,
                states[i].0.as_str(),
                &states[i].1,
            );
            diagnostic::extend(&mut out, found);
            i = i + 1;
        }
    }
    out
}

// ---------------------------------------------------------------------------
// The graph of a definition
// ---------------------------------------------------------------------------

/// The slots that the entry action of a state writes.
pub open spec fn entry_slots(states: Json, state: Seq<char>) -> Seq<Seq<char>> {
    match states.get(state) {
        Some(s) => match s.get("onEnter"@) {
            Some(e) => keys(e.entries_at("output"@)),
            None => Seq::empty(),
        },
        None => Seq::empty(),
    }
}

fn entry_slots_of(states: &Value, state: &str) -> (r: Vec<String>)
    ensures
        text::texts(r@) == entry_slots(states@, state@),
{
    if let Some(s) = states.get(state) {
        if let Some(e) = s.get("onEnter") {
            if let Some(o) = e.object_at("output") {
                return keys_of(o);
            }
        }
    }
    let v: Vec<String> = Vec::new();
    assert(text::texts(v@) =~= entry_slots(states@, state@));
    v
}

/// A step to a target, with the slots written on the way and on entry.
pub open spec fn edge(
    states: Json,
    from: Seq<char>,
    to: Seq<char>,
    written: Seq<Seq<char>>,
) -> EdgeView {
    EdgeView { from, to, keys: written + entry_slots(states, to) }
}

fn edge_of(states: &Value, from: &str, to: &str, written: &Vec<String>) -> (r: Edge)
    ensures
        r@ == edge(states@, from@, to@, text::texts(written@)),
{
    let mut keys = text::copy_texts(written);
    let more = entry_slots_of(states, to);
    append_texts(&mut keys, &more);
    Edge { from: from.to_owned(), to: to.to_owned(), keys }
}

/// Appends copies of the texts of `from` to `to`.
pub fn append_texts(to: &mut Vec<String>, from: &Vec<String>)
    ensures
        text::texts(final(to)@) == text::texts(old(to)@) + text::texts(from@),
{
    let ghost before = text::texts(to@);
    let mut i: usize = 0;
    while i < from.len()
        invariant
            i <= from.len(),
            text::texts(to@) == before + text::texts(from@).take(i as int),
        decreases from.len() - i,
    {
        let s = from[i].clone();
        proof {
            text::lemma_texts_push(to@, s);
        }
        to.push(s);
        i = i + 1;
    }
    assert(text::texts(from@).take(i as int) =~= text::texts(from@));
}

/// The steps along the first `n` branches.
pub open spec fn branch_edges(
    states: Json,
    from: Seq<char>,
    written: Seq<Seq<char>>,
    branches: Seq<Json>,
    n: int,
) -> Seq<EdgeView>
    decreases n,
{
    if n <= 0 {
        Seq::empty()
    } else {
        let before = branch_edges(states, from, written, branches, n - 1);
        match branches[n - 1].str_at("target"@) {
            Some(bt) => before.push(edge(states, from, bt, written)),
            None => before,
        }
    }
}

/// The steps along a transition: to its target and to those of its branches.
pub open spec fn transition_edges(states: Json, from: Seq<char>, d: Json) -> Seq<EdgeView> {
    let written = keys(d.entries_at("output"@));
    let branches = d.items_at("branches"@);
    (match d.str_at("target"@) {
        Some(target) => seq![edge(states, from, target, written)],
        None => Seq::empty(),
    }) + branch_edges(states, from, written, branches, branches.len() as int)
}

/// The steps along the first `n` transitions of a state.
pub open spec fn transitions_edges(
    states: Json,
    from: Seq<char>,
    ts: Seq<(Seq<char>, Json)>,
    n: int,
) -> Seq<EdgeView>
    decreases n,
{
    if n <= 0 {
        Seq::empty()
    } else {
        transitions_edges(states, from, ts, n - 1) + transition_edges(states, from, ts[n - 1].1)
    }
}

/// The steps from the first `n` states. The timeout leads away from every state.
pub open spec fn state_edges(
    states: Json,
    timeout: Option<Seq<char>>,
    e: Seq<(Seq<char>, Json)>,
    n: int,
) -> Seq<EdgeView>
    decreases n,
{
    if n <= 0 {
        Seq::empty()
    } else {
        let (from, s) = e[n - 1];
        let ts = s.entries_at("transitions"@);
        state_edges(states, timeout, e, n - 1) + (match timeout {
            Some(target) => seq![edge(states, from, target, Seq::empty())],
            None => Seq::empty(),
        }) + transitions_edges(states, from, ts, ts.len() as int)
    }
}

fn push_edge(out: &mut Vec<Edge>, x: Edge)
    ensures
        graph::edges_of(final(out)@) == graph::edges_of(old(out)@).push(x@),
{
    let ghost before = out@;
    out.push(x);
    assert(graph::edges_of(out@) =~= graph::edges_of(before).push(x@));
}

fn add_transition_edges(states: &Value, from: &str, d: &Value, out: &mut Vec<Edge>)
    ensures
        graph::edges_of(final(out)@) == graph::edges_of(old(out)@) + transition_edges(
            states@,
            from@,
            d@,
        ),
{
    let ghost base = graph::edges_of(out@);
    let written = match d.object_at("output") {
        Some(o) => keys_of(o),
        None => {
            let v: Vec<String> = Vec::new();
            assert(text::texts(v@) =~= keys(d@.entries_at("output"@)));
            v
        },
    };
    let ghost w = text::texts(written@);
    if let Some(target) = d.str_at("target") {
        let x = edge_of(states, from, target, &written);
        push_edge(out, x);
    }
    let ghost first = match d@.str_at("target"@) {
        Some(target) => seq![edge(states@, from@, target, w)],
        None => Seq::empty(),
    };
    assert(graph::edges_of(out@) =~= base + first);
    match d.array_at("branches") {
        Some(branches) => {
            let ghost js = json::views(branches@);
            let mut i: usize = 0;
            assert((base + first) + branch_edges(states@, from@, w, js, 0) =~= base + first);
            while i < branches.len()
                invariant
                    i <= branches.len(),
                    js == json::views(branches@),
                    w == text::texts(written@),
                    graph::edges_of(out@) == (base + first) + branch_edges(
                        states@,
                        from@,
                        w,
                        js,
                        i as int,
                    ),
                decreases branches.len() - i,
            {
                assert(js[i as int] == branches@[i as int]@);
                if let Some(bt) = branches[i].str_at("target") {
                    let x = edge_of(states, from, bt, &written);
                    push_edge(out, x);
                }
                i = i + 1;
            }
            assert(graph::edges_of(out@) =~= base + (first + branch_edges(
                states@,
                from@,
                w,
                js,
                js.len() as int,
            )));
        },
        None => {
            assert(base + first =~= base + transition_edges(states@, from@, d@));
        },
    }
}

fn add_state_edges(states: &Value, timeout: Option<&str>, from: &str, s: &Value, out: &mut Vec<
    Edge,
>)
    ensures
        graph::edges_of(final(out)@) == graph::edges_of(old(out)@) + (match text::opt_str(timeout) {
            Some(target) => seq![edge(states@, from@, target, Seq::empty())],
            None => Seq::empty(),
        }) + transitions_edges(
            states@,
            from@,
            s@.entries_at("transitions"@),
            s@.entries_at("transitions"@).len() as int,
        ),
{
    let ghost base = graph::edges_of(out@);
    if let Some(target) = timeout {
        let none: Vec<String> = Vec::new();
        assert(text::texts(none@) =~= Seq::empty());
        let x = edge_of(states, from, target, &none);
        push_edge(out, x);
    }
    let ghost first = match text::opt_str(timeout) {
        Some(target) => seq![edge(states@, from@, target, Seq::empty())],
        None => Seq::empty(),
    };
    let ghost b2 = base + first;
    assert(graph::edges_of(out@) =~= b2);
    match s.object_at("transitions") {
        Some(ts) => {
            let ghost e = json::entries(ts@);
            let mut i: usize = 0;
            assert(b2 + transitions_edges(states@, from@, e, 0) =~= b2);
            while i < ts.len()
                invariant
                    i <= ts.len(),
                    e == json::entries(ts@),
                    graph::edges_of(out@) == b2 + transitions_edges(
                        states@,
                        from@,
                        e,
                        i as int,
                    ),
                decreases ts.len() - i,
            {
                assert(e[i as int] == (ts@[i as int].0@, ts@[i as int].1@));
                add_transition_edges(states, from, &ts[i].1, out);
                assert((b2 + transitions_edges(states@, from@, e, i as int)) + transition_edges(
                    states@,
                    from@,
                    e[i as int].1,
                ) =~= b2 + transitions_edges(states@, from@, e, i + 1));
                i = i + 1;
            }
        },
        None => {
            assert(b2 + transitions_edges(
                states@,
                from@,
                s@.entries_at("transitions"@),
                0,
            ) =~= b2);
        },
    }
}

/// The steps of a definition. With `timeout`, the timeout leads away from every
/// state.
fn edges_of_states(states: &Value, timeout: Option<&str>) -> (r: Vec<Edge>)
    ensures
        states@ matches Json::Object(e) ==> graph::edges_of(r@) == state_edges(
            states@,
            text::opt_str(timeout),
            e,
            e.len() as int,
        ),
{
    let mut out: Vec<Edge> = Vec::new();
    assert(graph::edges_of(out@) =~= Seq::empty());
    if let Value::Object(es) = states {
        let ghost e = json::entries(es@);
        let mut i: usize = 0;
        while i < es.len()
            invariant
                i <= es.len(),
                e == json::entries(es@),
                graph::edges_of(out@) == state_edges(
                    states@,
                    text::opt_str(timeout),
                    e,
                    i as int,
                ),
            decreases es.len() - i,
        {
            assert(e[i as int] == (es@[i as int].0@, es@[i as int].1@));
            add_state_edges(states, timeout, es[i].0.as_str(), &es[i].1, &mut out);
            i = i + 1;
        }
    }
    out
}

/// The steps of a definition's states.
pub open spec fn definition_edges(def: Json, timeout: Option<Seq<char>>) -> Seq<EdgeView> {
    let e = def.entries_at("states"@);
    state_edges(Json::Object(e), timeout, e, e.len() as int)
}

/// A state that cannot be reached from the initial one by transitions, nor by the
/// timeout, deserves a warning.
pub open spec fn reach_findings(id: Seq<char>, def: Json, initial: Seq<char>) -> spec_fn(
    Seq<char>,
    Json,
) -> Seq<DiagnosticView> {
    |state: Seq<char>, s: Json|
        if graph::reachable(definition_edges(def, None), seq![initial], state) || timeout_target(
            def,
        ) == Some(state) {
            diagnostic::nothing()
        } else {
            diagnostic::warning(
                "workflow '"@ + id + "': state '"@ + state
                    + "' is unreachable from initialState '"@ + initial + "'"@,
            )
        }
}

fn check_reachability(id: &str, def: &Value, states: &Value, initial: &str) -> (r: Vec<Diagnostic>)
    requires
        states@ == Json::Object(def@.entries_at("states"@)),
    ensures
        diagnostic::diags(r@) == validate_rules::over_entries(
            def@,
            "states"@,
            reach_findings(id@, def@, initial@),
        ),
{
    let edges = edges_of_states(states, None);
    let mut from: Vec<String> = Vec::new();
    from.push(initial.to_owned());
    assert(text::texts(from@) =~= seq![initial@]);
    let reached = graph::closure(&edges, &from);
    let timeout = timeout_target_of(def);
    let ghost f = reach_findings(id@, def@, initial@);
    let mut out = diagnostic::none();
    if let Value::Object(es) = states {
        let ghost e = json::entries(es@);
        let mut i: usize = 0;
        while i < es.len()
            invariant
                i <= es.len(),
                e == json::entries(es@),
                f == reach_findings(id@, def@, initial@),
                text::opt_str(timeout) == timeout_target(def@),
                forall|s: Seq<char>|
                    text::texts(reached@).contains(s) <==> graph::reachable(
                        definition_edges(def@, None),
                        seq![initial@],
                        s,
                    ),
                diagnostic::diags(out@) == validate_rules::over(e, i as int, f),
            decreases es.len() - i,
        {
            assert(e[i as int] == (es@[i as int].0@, es@[i as int].1@));
            let name = es[i].0.as_str();
            let found = if text::has_text(&reached, name) || text::opt_is(timeout, name) {
                diagnostic::none()
            } else {
                diagnostic::one_warning(
                    text::join7(
                        "workflow '",
                        id,
                        "': state '",
                        name,
                        "' is unreachable from initialState '",
                        initial,
                        "'",
                    ),
                )
            };
            diagnostic::extend(&mut out, found);
            i = i + 1;
        }
    }
    out
}

// ---------------------------------------------------------------------------
// Slots read before they are written
// ---------------------------------------------------------------------------

/// A character of a slot name in an expression.
pub open spec fn is_word(c: char) -> bool {
    text::is_lower(c) || text::is_upper(c) || text::is_digit(c) || c == '_'
}

/// The number of slot-name characters at the front of `s`.
pub open spec fn word_len(s: Seq<char>) -> int
    decreases s.len(),
{
    if s.len() > 0 && is_word(s[0]) {
        1 + word_len(s.skip(1))
    } else {
        0
    }
}

/// A word is part of the text that it begins.
pub proof fn lemma_word_len(s: Seq<char>)
    ensures
        0 <= word_len(s) <= s.len(),
    decreases s.len(),
{
    if s.len() > 0 && is_word(s[0]) {
        lemma_word_len(s.skip(1));
    }
}

/// The slots that a text reads: the word after each `$.context.`.
pub open spec fn context_slots(s: Seq<char>) -> Seq<Seq<char>>
    decreases s.len(),
{
    match text::find_pos(s, "$.context."@, 0) {
        None => Seq::empty(),
        Some(i) => {
            proof {
                text::lemma_find_pos(s, "$.context."@, 0);
                reveal_strlit("$.context.");
                lemma_word_len(s.skip(i + 10));
            }
            let after = s.skip(i + 10);
            let k = word_len(after);
            (if k > 0 {
                seq![after.take(k)]
            } else {
                Seq::empty()
            }) + context_slots(after.skip(k))
        },
    }
}

fn word_end(cs: &Vec<char>, from: usize) -> (r: usize)
    requires
        from <= cs.len(),
    ensures
        from <= r <= cs.len(),
        r - from == word_len(cs@.skip(from as int)),
{
    let mut i: usize = from;
    while i < cs.len() && (text::lower(cs[i]) || text::upper(cs[i]) || text::digit(cs[i]) || cs[i]
        == '_')
        invariant
            from <= i <= cs.len(),
            word_len(cs@.skip(from as int)) == i - from + word_len(cs@.skip(i as int)),
        decreases cs.len() - i,
    {
        assert(cs@.skip(i as int).skip(1) =~= cs@.skip(i + 1));
        i = i + 1;
    }
    i
}

/// The slots that the characters from `from` up to `to` read.
fn slots_in_range(cs: &Vec<char>, from: usize, to: usize, out: &mut Vec<String>)
    requires
        from <= to <= cs.len(),
    ensures
        text::texts(final(out)@) == text::texts(old(out)@) + context_slots(
            cs@.subrange(from as int, to as int),
        ),
{
    let piece = text::string_of_range(cs, from, to);
    let s = text::chars_of(piece.as_str());
    let pat = text::chars_of("$.context.");
    let ghost base = text::texts(out@);
    let ghost all = s@;
    proof {
        reveal_strlit("$.context.");
    }
    let mut at: usize = 0;
    assert(all.skip(0) =~= all);
    assert(base + context_slots(all) =~= base + context_slots(all.skip(0)));
    loop
        invariant
            at <= s.len(),
            s@ == all,
            pat@ == "$.context."@,
            pat@.len() == 10,
            text::texts(out@) + context_slots(all.skip(at as int)) == base + context_slots(all),
        ensures
            text::texts(out@) == base + context_slots(all),
        decreases s.len() - at,
    {
        let ghost rest = all.skip(at as int);
        match text::find_text(&s, &pat, at) {
            None => {
                proof {
                    lemma_find_pos_skip(all, pat@, at as int, at as int);
                    assert(text::texts(out@) + Seq::<Seq<char>>::empty() =~= text::texts(out@));
                }
                break;
            },
            Some(i) => {
                let start: usize = i + 10;
                let end = word_end(&s, start);
                let ghost before = text::texts(out@);
                proof {
                    lemma_find_pos_skip(all, pat@, at as int, at as int);
                    let k = i - at;
                    assert(rest.skip(k + 10) =~= all.skip(start as int));
                    assert(all.skip(start as int).take(end - start) =~= all.subrange(
                        start as int,
                        end as int,
                    ));
                    assert(all.skip(start as int).skip(end - start) =~= all.skip(end as int));
                }
                if end > start {
                    let w = text::string_of_range(&s, start, end);
                    proof {
                        text::lemma_texts_push(out@, w);
                        assert(before.push(w@) + context_slots(all.skip(end as int)) =~= before + (
                        seq![w@] + context_slots(all.skip(end as int))));
                    }
                    out.push(w);
                } else {
                    assert(before + context_slots(all.skip(end as int)) =~= before + (Seq::<
                        Seq<char>,
                    >::empty() + context_slots(all.skip(end as int))));
                }
                at = end;
            },
        }
    }
}

/// Searching a tail of a text is searching the text from there on.
proof fn lemma_find_pos_skip(s: Seq<char>, pat: Seq<char>, at: int, i: int)
    requires
        0 <= at <= i <= s.len(),
    ensures
        match text::find_pos(s, pat, i) {
            Some(k) => text::find_pos(s.skip(at), pat, i - at) == Some(k - at),
            None => text::find_pos(s.skip(at), pat, i - at) is None,
        },
    decreases s.len() - i,
{
    if i + pat.len() <= s.len() && i < s.len() {
        assert(s.skip(at).subrange(i - at, i - at + pat.len()) =~= s.subrange(i, i + pat.len()));
        if s.subrange(i, i + pat.len()) != pat {
            lemma_find_pos_skip(s, pat, at, i + 1);
        }
    }
}

/// The slots that a text reads.
pub fn extract_context_slots_from(s: &str) -> (r: Vec<String>)
    ensures
        text::texts(r@) == context_slots(s@),
{
    let cs = text::chars_of(s);
    let mut out: Vec<String> = Vec::new();
    assert(text::texts(out@) =~= Seq::empty());
    let n: usize = cs.len();
    slots_in_range(&cs, 0, n, &mut out);
    assert(cs@.subrange(0, n as int) =~= s@);
    assert(Seq::<Seq<char>>::empty() + context_slots(s@) =~= context_slots(s@));
    out
}

/// The slots that an expression reads.
pub fn extract_expr_context_slots(expr: &str) -> (r: Vec<String>)
    ensures
        text::texts(r@) == context_slots(expr@),
{
    extract_context_slots_from(expr)
}

/// The slots that the placeholders `{{ .. }}` of a template read, from position `i`
/// on.
pub open spec fn template_slots(s: Seq<char>, i: int) -> Seq<Seq<char>>
    decreases s.len() - i,
{
    if i < 0 || i + 1 >= s.len() {
        Seq::empty()
    } else if s[i] == '{' && s[i + 1] == '{' {
        match text::find_pos(s, "}}"@, i + 2) {
            Some(end) => {
                proof {
                    text::lemma_find_pos(s, "}}"@, i + 2);
                    reveal_strlit("}}");
                }
                context_slots(s.subrange(i + 2, end)) + template_slots(s, end + 2)
            },
            None => template_slots(s, i + 1),
        }
    } else {
        template_slots(s, i + 1)
    }
}

/// The slots that the placeholders of a template read.
pub fn extract_template_context_slots(s: &str) -> (r: Vec<String>)
    ensures
        text::texts(r@) == template_slots(s@, 0),
{
    let cs = text::chars_of(s);
    let close = text::chars_of("}}");
    let mut out: Vec<String> = Vec::new();
    assert(text::texts(out@) =~= Seq::empty());
    proof {
        reveal_strlit("}}");
    }
    let mut i: usize = 0;
    assert(text::texts(out@) + template_slots(s@, 0) =~= template_slots(s@, 0));
    while i < cs.len() && cs.len() - i > 1
        invariant
            i <= cs.len(),
            cs@ == s@,
            close@ == "}}"@,
            close@.len() == 2,
            text::texts(out@) + template_slots(s@, i as int) == template_slots(s@, 0),
        decreases cs.len() - i,
    {
        if cs[i] == '{' && cs[i + 1] == '{' {
            if let Some(end) = text::find_text(&cs, &close, i + 2) {
                let ghost before = text::texts(out@);
                slots_in_range(&cs, i + 2, end, &mut out);
                assert((before + context_slots(s@.subrange(i + 2, end as int))) + template_slots(
                    s@,
                    end + 2,
                ) =~= before + (context_slots(s@.subrange(i + 2, end as int)) + template_slots(
                    s@,
                    end + 2,
                )));
                i = end + 2;
                continue;
            }
        }
        i = i + 1;
    }
    assert(text::texts(out@) + template_slots(s@, i as int) =~= text::texts(out@));
    out
}

/// The guards that a guard is made of: those of its groups, and itself where it is
/// none.
pub open spec fn leaf_guards(g: Json) -> Seq<Json>
    decreases g, 0int,
{
    proof {
        json::lemma_get_smaller(g, "guards"@);
        json::lemma_get_smaller(g, "guard"@);
    }
    let kind = g.str_at("kind"@);
    if kind == Some("all_of"@) || kind == Some("any_of"@) {
        match g.array_at("guards"@) {
            Some(items) => leaves_of(items, items.len() as int),
            None => Seq::empty(),
        }
    } else if kind == Some("not"@) {
        match g.get("guard"@) {
            Some(inner) => leaf_guards(inner),
            None => Seq::empty(),
        }
    } else {
        seq![g]
    }
}

/// The guards that the first `n` guards are made of.
pub open spec fn leaves_of(items: Seq<Json>, n: int) -> Seq<Json>
    decreases items, n,
{
    if n <= 0 || n > items.len() {
        Seq::empty()
    } else {
        leaves_of(items, n - 1) + leaf_guards(items[n - 1])
    }
}

fn collect_guards_into(guard: &Value, out: &mut Vec<Value>)
    ensures
        json::views(final(out)@) == json::views(old(out)@) + leaf_guards(guard@),
    decreases guard@, 0int,
{
    proof {
        json::lemma_get_smaller(guard@, "guards"@);
        json::lemma_get_smaller(guard@, "guard"@);
    }
    let ghost base = json::views(out@);
    let kind = guard.str_at("kind");
    if text::opt_is(kind, "all_of") || text::opt_is(kind, "any_of") {
        match guard.array_at("guards") {
            Some(items) => {
                collect_all_guards(items, out);
            },
            None => {
                assert(base + Seq::<Json>::empty() =~= base);
            },
        }
    } else if text::opt_is(kind, "not") {
        match guard.get("guard") {
            Some(inner) => {
                collect_guards_into(inner, out);
            },
            None => {
                assert(base + Seq::<Json>::empty() =~= base);
            },
        }
    } else {
        let g = guard.dup();
        proof {
            json::lemma_views_push(out@, g);
        }
        out.push(g);
        assert(base.push(guard@) =~= base + seq![guard@]);
    }
}

fn collect_all_guards(items: &Vec<Value>, out: &mut Vec<Value>)
    ensures
        json::views(final(out)@) == json::views(old(out)@) + leaves_of(
            json::views(items@),
            items@.len() as int,
        ),
    decreases json::views(items@), items@.len(),
{
    let ghost js = json::views(items@);
    let ghost base = json::views(out@);
    let mut i: usize = 0;
    assert(base + leaves_of(js, 0) =~= base);
    while i < items.len()
        invariant
            i <= items.len(),
            js == json::views(items@),
            json::views(out@) == base + leaves_of(js, i as int),
        decreases items.len() - i,
    {
        assert(js[i as int] == items@[i as int]@);
        assert(decreases_to!(js => js[i as int]));
        collect_guards_into(&items[i], out);
        assert((base + leaves_of(js, i as int)) + leaf_guards(js[i as int]) =~= base + leaves_of(
            js,
            i + 1,
        ));
        i = i + 1;
    }
}

/// The guards of the conditions of the first `n` branches.
pub open spec fn branch_guards(branches: Seq<Json>, n: int) -> Seq<Json>
    decreases n,
{
    if n <= 0 {
        Seq::empty()
    } else {
        branch_guards(branches, n - 1) + match branches[n - 1].get("when"@) {
            Some(w) => leaf_guards(w),
            None => Seq::empty(),
        }
    }
}

/// Every guard of a transition and of its branches.
pub open spec fn transition_guards(d: Json) -> Seq<Json> {
    let guards = d.items_at("guards"@);
    let branches = d.items_at("branches"@);
    leaves_of(guards, guards.len() as int) + branch_guards(branches, branches.len() as int)
}

/// Every guard of a transition and of its branches.
pub fn collect_guards(d: &Value) -> (r: Vec<Value>)
    ensures
        json::views(r@) == transition_guards(d@),
{
    let mut out: Vec<Value> = Vec::new();
    assert(json::views(out@) =~= Seq::empty());
    let ghost guards = d@.items_at("guards"@);
    match d.array_at("guards") {
        Some(items) => {
            collect_all_guards(items, &mut out);
            assert(Seq::empty() + leaves_of(guards, guards.len() as int) =~= leaves_of(
                guards,
                guards.len() as int,
            ));
        },
        None => {},
    }
    let ghost base = leaves_of(guards, guards.len() as int);
    assert(json::views(out@) =~= base);
    match d.array_at("branches") {
        Some(branches) => {
            let ghost js = json::views(branches@);
            let mut i: usize = 0;
            assert(base + branch_guards(js, 0) =~= base);
            while i < branches.len()
                invariant
                    i <= branches.len(),
                    js == json::views(branches@),
                    json::views(out@) == base + branch_guards(js, i as int),
                decreases branches.len() - i,
            {
                assert(js[i as int] == branches@[i as int]@);
                if let Some(w) = branches[i].get("when") {
                    collect_guards_into(w, &mut out);
                }
                assert(json::views(out@) =~= base + branch_guards(js, i + 1));
                i = i + 1;
            }
        },
        None => {
            assert(base + branch_guards(Seq::empty(), 0) =~= base);
        },
    }
    out
}

/// What a slot is checked against: the declared slots, where there is a
/// blackboard, and the steps by which slots are written.
pub struct SlotCheck {
    pub declared: Option<Seq<Seq<char>>>,
    pub edges: Seq<EdgeView>,
    pub initial: Seq<char>,
    pub seed: Seq<Seq<char>>,
}

impl SlotCheck {
    /// The slot is available in the state.
    pub open spec fn available(self, slot: Seq<char>, state: Seq<char>) -> bool {
        graph::available(self.edges, self.initial, self.seed, slot, state)
    }

    /// There is a blackboard, and it does not declare the slot.
    pub open spec fn undeclared(self, slot: Seq<char>) -> bool {
        match self.declared {
            Some(d) => !d.contains(slot),
            None => false,
        }
    }
}

/// What is wrong with a slot that a template reads. The summary may always be
/// read.
pub open spec fn template_slot(
    c: SlotCheck,
    id: Seq<char>,
    state: Seq<char>,
    field: Seq<char>,
    slot: Seq<char>,
) -> Seq<DiagnosticView> {
    if slot == "summary"@ {
        diagnostic::nothing()
    } else if c.undeclared(slot) {
        diagnostic::error(
            "workflow '"@ + id + "': state '"@ + state + "' template `"@ + field
                + "` reads `$.context."@ + slot + "` which is not a declared blackboard slot"@,
        )
    } else if !c.available(slot, state) {
        diagnostic::error(
            "workflow '"@ + id + "': state '"@ + state + "' template `"@ + field
                + "` reads `$.context."@ + slot
                + "` which has no reachable writer (use-before-def). Runtime will render a stub but this is a likely authoring bug."@,
        )
    } else {
        diagnostic::nothing()
    }
}

/// What is wrong with the first `n` slots that a template reads.
pub open spec fn template_findings(
    c: SlotCheck,
    id: Seq<char>,
    state: Seq<char>,
    field: Seq<char>,
    slots: Seq<Seq<char>>,
    n: int,
) -> Seq<DiagnosticView>
    decreases n,
{
    if n <= 0 {
        Seq::empty()
    } else {
        template_findings(c, id, state, field, slots, n - 1) + template_slot(
            c,
            id,
            state,
            field,
            slots[n - 1],
        )
    }
}

/// What is wrong with the slots that a template of a state reads.
pub open spec fn field_findings(
    c: SlotCheck,
    id: Seq<char>,
    state: Seq<char>,
    s: Json,
    field: Seq<char>,
) -> Seq<DiagnosticView> {
    match s.str_at(field) {
        Some(t) => template_findings(
            c,
            id,
            state,
            field,
            template_slots(t, 0),
            template_slots(t, 0).len() as int,
        ),
        None => diagnostic::nothing(),
    }
}

/// What is wrong with a slot that a guard reads. A guard may never read the
/// summary.
pub open spec fn guard_slot(
    c: SlotCheck,
    id: Seq<char>,
    state: Seq<char>,
    t: Seq<char>,
    slot: Seq<char>,
) -> Seq<DiagnosticView> {
    let at = "workflow '"@ + id + "': transition '"@ + t + "' in state '"@ + state + "' "@;
    if slot == "summary"@ {
        diagnostic::error(
            at
                + "guard reads `$.context.summary` — model-authored summary is never a valid guard input"@,
        )
    } else if c.undeclared(slot) {
        diagnostic::error(
            at + "guard reads `$.context."@ + slot + "` which is not a declared blackboard slot"@,
        )
    } else if !c.available(slot, state) {
        diagnostic::error(
            at + "guard reads `$.context."@ + slot
                + "` which has no reachable writer (use-before-def)"@,
        )
    } else {
        diagnostic::nothing()
    }
}

/// What is wrong with the first `n` slots that a guard reads.
pub open spec fn guard_slots(
    c: SlotCheck,
    id: Seq<char>,
    state: Seq<char>,
    t: Seq<char>,
    slots: Seq<Seq<char>>,
    n: int,
) -> Seq<DiagnosticView>
    decreases n,
{
    if n <= 0 {
        Seq::empty()
    } else {
        guard_slots(c, id, state, t, slots, n - 1) + guard_slot(c, id, state, t, slots[n - 1])
    }
}

/// What is wrong with the slots that the first `n` guards read.
pub open spec fn guard_findings(
    c: SlotCheck,
    id: Seq<char>,
    state: Seq<char>,
    t: Seq<char>,
    guards: Seq<Json>,
    n: int,
) -> Seq<DiagnosticView>
    decreases n,
{
    if n <= 0 {
        Seq::empty()
    } else {
        guard_findings(c, id, state, t, guards, n - 1) + match guards[n - 1].str_at("expr"@) {
            Some(x) => guard_slots(
                c,
                id,
                state,
                t,
                context_slots(x),
                context_slots(x).len() as int,
            ),
            None => diagnostic::nothing(),
        }
    }
}

/// What is wrong with the slots that the guards of a transition read.
pub open spec fn read_transition(c: SlotCheck, id: Seq<char>, state: Seq<char>) -> spec_fn(
    Seq<char>,
    Json,
) -> Seq<DiagnosticView> {
    |t: Seq<char>, d: Json|
        guard_findings(
            c,
            id,
            state,
            t,
            transition_guards(d),
            transition_guards(d).len() as int,
        )
}

/// What is wrong with the slots that a state reads.
pub open spec fn read_state(c: SlotCheck, id: Seq<char>) -> spec_fn(Seq<char>, Json) -> Seq<
    DiagnosticView,
> {
    |state: Seq<char>, s: Json|
        field_findings(c, id, state, s, "goal"@) + field_findings(c, id, state, s, "guidance"@)
            + validate_rules::over_entries(s, "transitions"@, read_transition(c, id, state))
}

/// The slots that are there before the first transition.
pub open spec fn seed_slots(def: Json, initial: Seq<char>) -> Seq<Seq<char>> {
    keys(def.entries_at("initialContext"@)) + entry_slots(
        Json::Object(def.entries_at("states"@)),
        initial,
    )
}

/// What slots are checked against in a definition.
pub open spec fn slot_check(def: Json, initial: Seq<char>) -> SlotCheck {
    SlotCheck {
        declared: blackboard_slots(def),
        edges: definition_edges(def, timeout_target(def)),
        initial,
        seed: seed_slots(def, initial),
    }
}

/// What is wrong with the slots that a definition reads.
pub open spec fn read_findings(id: Seq<char>, def: Json, initial: Seq<char>) -> Seq<DiagnosticView> {
    validate_rules::over_entries(def, "states"@, read_state(slot_check(def, initial), id))
}

/// What slots are checked against.
struct Checker {
    declared: Option<Vec<String>>,
    edges: Vec<Edge>,
    reached: Vec<String>,
    initial: String,
    seed: Vec<String>,
}

impl Checker {
    spec fn check(&self) -> SlotCheck {
        SlotCheck {
            declared: match self.declared {
                Some(d) => Some(text::texts(d@)),
                None => None,
            },
            edges: graph::edges_of(self.edges@),
            initial: self.initial@,
            seed: text::texts(self.seed@),
        }
    }

    spec fn wf(&self) -> bool {
        forall|s: Seq<char>|
            text::texts(self.reached@).contains(s) <==> graph::reachable(
                graph::edges_of(self.edges@),
                seq![self.initial@],
                s,
            )
    }

    fn available(&self, slot: &str, state: &str) -> (r: bool)
        requires
            self.wf(),
        ensures
            r == self.check().available(slot@, state@),
    {
        graph::slot_available(
            &self.edges,
            &self.reached,
            self.initial.as_str(),
            &self.seed,
            slot,
            state,
        )
    }

    fn undeclared(&self, slot: &str) -> (r: bool)
        ensures
            r == self.check().undeclared(slot@),
    {
        match &self.declared {
            Some(d) => !text::has_text(d, slot),
            None => false,
        }
    }

    fn template_slot(&self, id: &str, state: &str, field: &str, slot: &str) -> (r: Vec<Diagnostic>)
        requires
            self.wf(),
        ensures
            diagnostic::diags(r@) == template_slot(self.check(), id@, state@, field@, slot@),
    {
        if text::str_eq(slot, "summary") {
            return diagnostic::none();
        }
        if self.undeclared(slot) {
            return diagnostic::one_error(
                text::join9(
                    "workflow '",
                    id,
                    "': state '",
                    state,
                    "' template `",
                    field,
                    "` reads `$.context.",
                    slot,
                    "` which is not a declared blackboard slot",
                ),
            );
        }
        if !self.available(slot, state) {
            return diagnostic::one_error(
                text::join9(
                    "workflow '",
                    id,
                    "': state '",
                    state,
                    "' template `",
                    field,
                    "` reads `$.context.",
                    slot,
                    "` which has no reachable writer (use-before-def). Runtime will render a stub but this is a likely authoring bug.",
                ),
            );
        }
        diagnostic::none()
    }

    fn field(&self, id: &str, state: &str, s: &Value, field: &str) -> (r: Vec<Diagnostic>)
        requires
            self.wf(),
        ensures
            diagnostic::diags(r@) == field_findings(self.check(), id@, state@, s@, field@),
    {
        let mut out = diagnostic::none();
        if let Some(t) = s.str_at(field) {
            let slots = extract_template_context_slots(t);
            let ghost ss = text::texts(slots@);
            let mut i: usize = 0;
            while i < slots.len()
                invariant
                    i <= slots.len(),
                    self.wf(),
                    ss == text::texts(slots@),
                    diagnostic::diags(out@) == template_findings(
                        self.check(),
                        id@,
                        state@,
                        field@,
                        ss,
                        i as int,
                    ),
                decreases slots.len() - i,
            {
                assert(ss[i as int] == slots@[i as int]@);
                let found = self.template_slot(id, state, field, slots[i].as_str());
                diagnostic::extend(&mut out, found);
                i = i + 1;
            }
        }
        out
    }

    fn guard_slot(&self, id: &str, state: &str, t: &str, slot: &str) -> (r: Vec<Diagnostic>)
        requires
            self.wf(),
        ensures
            diagnostic::diags(r@) == guard_slot(self.check(), id@, state@, t@, slot@),
    {
        let at = text::join7(
            "workflow '",
            id,
            "': transition '",
            t,
            "' in state '",
            state,
            "' ",
        );
        if text::str_eq(slot, "summary") {
            return diagnostic::one_error(
                text::join2(
                    at.as_str(),
                    "guard reads `$.context.summary` — model-authored summary is never a valid guard input",
                ),
            );
        }
        if self.undeclared(slot) {
            return diagnostic::one_error(
                text::join4(
                    at.as_str(),
                    "guard reads `$.context.",
                    slot,
                    "` which is not a declared blackboard slot",
                ),
            );
        }
        if !self.available(slot, state) {
            return diagnostic::one_error(
                text::join4(
                    at.as_str(),
                    "guard reads `$.context.",
                    slot,
                    "` which has no reachable writer (use-before-def)",
                ),
            );
        }
        diagnostic::none()
    }

    fn guard(&self, id: &str, state: &str, t: &str, expr: &str) -> (r: Vec<Diagnostic>)
        requires
            self.wf(),
        ensures
            diagnostic::diags(r@) == guard_slots(
                self.check(),
                id@,
                state@,
                t@,
                context_slots(expr@),
                context_slots(expr@).len() as int,
            ),
    {
        let slots = extract_expr_context_slots(expr);
        let ghost ss = text::texts(slots@);
        let mut out = diagnostic::none();
        let mut i: usize = 0;
        while i < slots.len()
            invariant
                i <= slots.len(),
                self.wf(),
                ss == text::texts(slots@),
                diagnostic::diags(out@) == guard_slots(
                    self.check(),
                    id@,
                    state@,
                    t@,
                    ss,
                    i as int,
                ),
            decreases slots.len() - i,
        {
            assert(ss[i as int] == slots@[i as int]@);
            let found = self.guard_slot(id, state, t, slots[i].as_str());
            diagnostic::extend(&mut out, found);
            i = i + 1;
        }
        out
    }

    fn transition(&self, id: &str, state: &str, t: &str, d: &Value) -> (r: Vec<Diagnostic>)
        requires
            self.wf(),
        ensures
            diagnostic::diags(r@) == read_transition(self.check(), id@, state@)(t@, d@),
    {
        let guards = collect_guards(d);
        let ghost gs = json::views(guards@);
        let mut out = diagnostic::none();
        let mut i: usize = 0;
        while i < guards.len()
            invariant
                i <= guards.len(),
                self.wf(),
                gs == json::views(guards@),
                diagnostic::diags(out@) == guard_findings(
                    self.check(),
                    id@,
                    state@,
                    t@,
                    gs,
                    i as int,
                ),
            decreases guards.len() - i,
        {
            assert(gs[i as int] == guards@[i as int]@);
            let found = match guards[i].str_at("expr") {
                Some(x) => self.guard(id, state, t, x),
                None => diagnostic::none(),
            };
            diagnostic::extend(&mut out, found);
            i = i + 1;
        }
        out
    }

    fn state(&self, id: &str, state: &str, s: &Value) -> (r: Vec<Diagnostic>)
        requires
            self.wf(),
        ensures
            diagnostic::diags(r@) == read_state(self.check(), id@)(state@, s@),
    {
        let mut out = self.field(id, state, s, "goal");
        diagnostic::extend(&mut out, self.field(id, state, s, "guidance"));
        let ghost f = read_transition(self.check(), id@, state@);
        let mut inner = diagnostic::none();
        if let Some(ts) = s.object_at("transitions") {
            let ghost e = json::entries(ts@);
            let mut i: usize = 0;
            while i < ts.len()
                invariant
                    i <= ts.len(),
                    self.wf(),
                    e == json::entries(ts@),
                    f == read_transition(self.check(), id@, state@),
                    diagnostic::diags(inner@) == validate_rules::over(e, i as int, f),
                decreases ts.len() - i,
            {
                assert(e[i as int] == (ts@[i as int].0@, ts@[i as int].1@));
                let found = self.transition(id, state, ts[i].0.as_str(), &ts[i].1);
                diagnostic::extend(&mut inner, found);
                i = i + 1;
            }
        }
        diagnostic::extend(&mut out, inner);
        out
    }
}

/// The slots that are there before the first transition.
fn seed_slots_of(def: &Value, states: &Value, initial: &str) -> (r: Vec<String>)
    requires
        states@ == Json::Object(def@.entries_at("states"@)),
    ensures
        text::texts(r@) == seed_slots(def@, initial@),
{
    let mut seed = match def.object_at("initialContext") {
        Some(c) => keys_of(c),
        None => {
            let v: Vec<String> = Vec::new();
            assert(text::texts(v@) =~= keys(def@.entries_at("initialContext"@)));
            v
        },
    };
    let more = entry_slots_of(states, initial);
    append_texts(&mut seed, &more);
    seed
}

/// Checks the slots that a definition reads.
fn check_use_before_def(id: &str, def: &Value, states: &Value, initial: &str) -> (r: Vec<
    Diagnostic,
>)
    requires
        states@ == Json::Object(def@.entries_at("states"@)),
    ensures
        diagnostic::diags(r@) == read_findings(id@, def@, initial@),
{
    let edges = edges_of_states(states, timeout_target_of(def));
    let mut from: Vec<String> = Vec::new();
    from.push(initial.to_owned());
    assert(text::texts(from@) =~= seq![initial@]);
    let reached = graph::closure(&edges, &from);
    let checker = Checker {
        declared: declared_blackboard_slots(def),
        edges,
        reached,
        initial: initial.to_owned(),
        seed: seed_slots_of(def, states, initial),
    };
    let ghost f = read_state(slot_check(def@, initial@), id@);
    assert(checker.check() == slot_check(def@, initial@));
    let mut out = diagnostic::none();
    if let Value::Object(es) = states {
        let ghost e = json::entries(es@);
        let mut i: usize = 0;
        while i < es.len()
            invariant
                i <= es.len(),
                checker.wf(),
                e == json::entries(es@),
                f == read_state(checker.check(), id@),
                diagnostic::diags(out@) == validate_rules::over(e, i as int, f),
            decreases es.len() - i,
        {
            assert(e[i as int] == (es@[i as int].0@, es@[i as int].1@));
            let found = checker.state(id, es[i].0.as_str(), &es[i].1);
            diagnostic::extend(&mut out, found);
            i = i + 1;
        }
    }
    out
}

// ---------------------------------------------------------------------------
// Skills
// ---------------------------------------------------------------------------

/// Whether a subject is known: as it stands, or under the namespace of the
/// workflow.
pub open spec fn knows_skill(subjects: Seq<Seq<char>>, id: Seq<char>, subject: Seq<char>) -> bool {
    subjects.contains(subject) || match text::halves(id, '/') {
        Some(p) => subjects.contains(p.0 + "/"@ + subject),
        None => false,
    }
}

/// Each of the first `n` references must be to a known skill.
pub open spec fn ref_findings(
    id: Seq<char>,
    scope: Seq<char>,
    subjects: Seq<Seq<char>>,
    refs: Seq<Json>,
    n: int,
) -> Seq<DiagnosticView>
    decreases n,
{
    if n <= 0 {
        Seq::empty()
    } else {
        ref_findings(id, scope, subjects, refs, n - 1) + match refs[n - 1].as_str() {
            Some(subject) => if knows_skill(subjects, id, subject) {
                diagnostic::nothing()
            } else {
                diagnostic::error(
                    "workflow '"@ + id + "': "@ + scope + " references skills entry '"@ + subject
                        + "' which is not declared in the top-level `skills:` library"@,
                )
            },
            None => diagnostic::nothing(),
        }
    }
}

/// The references of one scope: not too many, and each to a known skill.
pub open spec fn scope_findings(
    id: Seq<char>,
    scope: Seq<char>,
    subjects: Seq<Seq<char>>,
    refs: Option<Json>,
) -> Seq<DiagnosticView> {
    match refs {
        Some(Json::Array(items)) => (if items.len() > 4 {
            diagnostic::warning(
                "workflow '"@ + id + "': "@ + scope + " surfaces "@ + text::decimal(items.len())
                    + " skills refs — the menu is itself payload, consider trimming to ≤4"@,
            )
        } else {
            diagnostic::nothing()
        }) + ref_findings(id, scope, subjects, items, items.len() as int),
        _ => diagnostic::nothing(),
    }
}

fn check_scope(id: &str, scope: &str, subjects: &Vec<String>, refs: Option<&Value>) -> (r: Vec<
    Diagnostic,
>)
    ensures
        diagnostic::diags(r@) == scope_findings(
            id@,
            scope@,
            text::texts(subjects@),
            json::opt_view(refs),
        ),
{
    let items = match refs {
        Some(Value::Array(items)) => items,
        _ => {
            return diagnostic::none();
        },
    };
    let mut out = if items.len() > 4 {
        let n = text::decimal_of(items.len() as u64);
        diagnostic::one_warning(
            text::join7(
                "workflow '",
                id,
                "': ",
                scope,
                " surfaces ",
                n.as_str(),
                " skills refs — the menu is itself payload, consider trimming to ≤4",
            ),
        )
    } else {
        diagnostic::none()
    };
    let namespace = text::split_once(id, '/');
    let ghost js = json::views(items@);
    let ghost ss = text::texts(subjects@);
    let mut inner = diagnostic::none();
    let mut i: usize = 0;
    while i < items.len()
        invariant
            i <= items.len(),
            js == json::views(items@),
            ss == text::texts(subjects@),
            match namespace {
                Some(p) => text::halves(id@, '/') == Some((p.0@, p.1@)),
                None => text::halves(id@, '/') is None,
            },
            diagnostic::diags(inner@) == ref_findings(id@, scope@, ss, js, i as int),
        decreases items.len() - i,
    {
        assert(js[i as int] == items@[i as int]@);
        let mut found = diagnostic::none();
        if let Some(subject) = items[i].as_str() {
            let known = text::has_text(subjects, subject) || match &namespace {
                Some(p) => {
                    let full = text::join3(p.0.as_str(), "/", subject);
                    text::has_text(subjects, full.as_str())
                },
                None => false,
            };
            if !known {
                found = diagnostic::one_error(
                    text::join7(
                        "workflow '",
                        id,
                        "': ",
                        scope,
                        " references skills entry '",
                        subject,
                        "' which is not declared in the top-level `skills:` library",
                    ),
                );
            }
        }
        diagnostic::extend(&mut inner, found);
        i = i + 1;
    }
    diagnostic::extend(&mut out, inner);
    out
}

/// The references of a transition.
pub open spec fn skills_transition(id: Seq<char>, subjects: Seq<Seq<char>>, state: Seq<char>) -> spec_fn(
    Seq<char>,
    Json,
) -> Seq<DiagnosticView> {
    |t: Seq<char>, d: Json|
        scope_findings(
            id,
            "transition '"@ + t + "' in state '"@ + state + "'"@,
            subjects,
            d.get("skills"@),
        )
}

/// The references of a state and of its transitions.
pub open spec fn skills_state(id: Seq<char>, subjects: Seq<Seq<char>>) -> spec_fn(
    Seq<char>,
    Json,
) -> Seq<DiagnosticView> {
    |state: Seq<char>, s: Json|
        scope_findings(id, "state '"@ + state + "'"@, subjects, s.get("skills"@))
            + validate_rules::over_entries(
            s,
            "transitions"@,
            skills_transition(id, subjects, state),
        )
}

/// The references of a definition, of its states and of their transitions.
pub open spec fn skills_findings(id: Seq<char>, def: Json, subjects: Seq<Seq<char>>) -> Seq<
    DiagnosticView,
> {
    scope_findings(id, "workflow scope"@, subjects, def.get("skills"@))
        + validate_rules::over_entries(def, "states"@, skills_state(id, subjects))
}

fn check_skills_in_state(id: &str, subjects: &Vec<String>, state: &str, s: &Value) -> (r: Vec<
    Diagnostic,
>)
    ensures
        diagnostic::diags(r@) == skills_state(id@, text::texts(subjects@))(state@, s@),
{
    let scope = text::join3("state '", state, "'");
    let mut out = check_scope(id, scope.as_str(), subjects, s.get("skills"));
    let ghost f = skills_transition(id@, text::texts(subjects@), state@);
    let mut inner = diagnostic::none();
    if let Some(ts) = s.object_at("transitions") {
        let ghost e = json::entries(ts@);
        let mut i: usize = 0;
        while i < ts.len()
            invariant
                i <= ts.len(),
                e == json::entries(ts@),
                f == skills_transition(id@, text::texts(subjects@), state@),
                diagnostic::diags(inner@) == validate_rules::over(e, i as int, f),
            decreases ts.len() - i,
        {
            assert(e[i as int] == (ts@[i as int].0@, ts@[i as int].1@));
            let scope = text::join5(
                "transition '",
                ts[i].0.as_str(),
                "' in state '",
                state,
                "'",
            );
            let found = check_scope(id, scope.as_str(), subjects, ts[i].1.get("skills"));
            diagnostic::extend(&mut inner, found);
            i = i + 1;
        }
    }
    diagnostic::extend(&mut out, inner);
    out
}

fn check_skills_refs(id: &str, def: &Value, subjects: &Vec<String>) -> (r: Vec<Diagnostic>)
    ensures
        diagnostic::diags(r@) == skills_findings(id@, def@, text::texts(subjects@)),
{
    let mut out = check_scope(id, "workflow scope", subjects, def.get("skills"));
    let ghost f = skills_state(id@, text::texts(subjects@));
    let mut inner = diagnostic::none();
    if let Some(states) = def.object_at("states") {
        let ghost e = json::entries(states@);
        let mut i: usize = 0;
        while i < states.len()
            invariant
                i <= states.len(),
                e == json::entries(states@),
                f == skills_state(id@, text::texts(subjects@)),
                diagnostic::diags(inner@) == validate_rules::over(e, i as int, f),
            decreases states.len() - i,
        {
            assert(e[i as int] == (states@[i as int].0@, states@[i as int].1@));
            let found = check_skills_in_state(
                id,
                subjects,
                states[i].0.as_str(),
                &states[i].1,
            );
            diagnostic::extend(&mut inner, found);
            i = i + 1;
        }
    }
    diagnostic::extend(&mut out, inner);
    out
}

// ---------------------------------------------------------------------------
// Definitions
// ---------------------------------------------------------------------------

/// The initial state and the target of the timeout must be states.
pub open spec fn entry_findings(
    id: Seq<char>,
    def: Json,
    initial: Seq<char>,
    names: Seq<Seq<char>>,
) -> Seq<DiagnosticView> {
    (if names.contains(initial) {
        diagnostic::nothing()
    } else {
        diagnostic::error(
            "workflow '"@ + id + "': initialState '"@ + initial + "' is not in states"@,
        )
    }) + (match timeout_target(def) {
        Some(t) => if names.contains(t) {
            diagnostic::nothing()
        } else {
            diagnostic::error(
                "workflow '"@ + id + "': onTimeout.target '"@ + t + "' is not in states"@,
            )
        },
        None => diagnostic::nothing(),
    })
}

fn check_entry(id: &str, def: &Value, initial: &str, names: &Vec<String>) -> (r: Vec<Diagnostic>)
    ensures
        diagnostic::diags(r@) == entry_findings(id@, def@, initial@, text::texts(names@)),
{
    let mut out = if text::has_text(names, initial) {
        diagnostic::none()
    } else {
        diagnostic::one_error(
            text::join5("workflow '", id, "': initialState '", initial, "' is not in states"),
        )
    };
    let more = match timeout_target_of(def) {
        Some(t) => {
            if text::has_text(names, t) {
                diagnostic::none()
            } else {
                diagnostic::one_error(
                    text::join5("workflow '", id, "': onTimeout.target '", t, "' is not in states"),
                )
            }
        },
        None => diagnostic::none(),
    };
    diagnostic::extend(&mut out, more);
    out
}

/// The findings on the states of a definition.
pub open spec fn states_findings(
    id: Seq<char>,
    def: Json,
    initial: Seq<char>,
    subjects: Seq<Seq<char>>,
) -> Seq<DiagnosticView> {
    let names = keys(def.entries_at("states"@));
    entry_findings(id, def, initial, names) + validate_rules::over_entries(
        def,
        "states"@,
        state_findings(id, def, names),
    ) + blackboard_findings(id, def) + (if names.contains(initial) {
        validate_rules::over_entries(def, "states"@, reach_findings(id, def, initial))
    } else {
        diagnostic::nothing()
    }) + read_findings(id, def, initial) + skills_findings(id, def, subjects)
}

/// The findings on one definition. Without an initial state or states, nothing more
/// is checked.
pub open spec fn definition_findings(
    id: Seq<char>,
    def: Json,
    workflows: Json,
    caps: Json,
    subjects: Seq<Seq<char>>,
    inputs: InputsView,
) -> Seq<DiagnosticView> {
    validate_rules::tier_findings(id, def, workflows, caps, inputs) + match (
        def.str_at("initialState"@),
        def.object_at("states"@),
    ) {
        (None, _) => diagnostic::error("workflow '"@ + id + "': missing 'initialState'"@),
        (Some(_), None) => diagnostic::error("workflow '"@ + id + "': missing 'states' map"@),
        (Some(initial), Some(_)) => states_findings(id, def, initial, subjects),
    }
}

fn check_states(id: &str, def: &Value, states: &Value, initial: &str, subjects: &Vec<String>) -> (r:
    Vec<Diagnostic>)
    requires
        states@ == Json::Object(def@.entries_at("states"@)),
    ensures
        diagnostic::diags(r@) == states_findings(id@, def@, initial@, text::texts(subjects@)),
{
    let ghost e = def@.entries_at("states"@);
    let es = match states {
        Value::Object(es) => es,
        _ => {
            return diagnostic::none();
        },
    };
    let names = keys_of(es);
    let mut out = check_entry(id, def, initial, &names);
    let ghost f = state_findings(id@, def@, text::texts(names@));
    let mut inner = diagnostic::none();
    let mut i: usize = 0;
    while i < es.len()
        invariant
            i <= es.len(),
            e == json::entries(es@),
            f == state_findings(id@, def@, text::texts(names@)),
            diagnostic::diags(inner@) == validate_rules::over(e, i as int, f),
        decreases es.len() - i,
    {
        assert(e[i as int] == (es@[i as int].0@, es@[i as int].1@));
        let found = check_state(id, def, &names, es[i].0.as_str(), &es[i].1);
        diagnostic::extend(&mut inner, found);
        i = i + 1;
    }
    diagnostic::extend(&mut out, inner);
    diagnostic::extend(&mut out, check_blackboard(id, def));
    if text::has_text(&names, initial) {
        diagnostic::extend(&mut out, check_reachability(id, def, states, initial));
    } else {
        diagnostic::extend(&mut out, diagnostic::none());
    }
    diagnostic::extend(&mut out, check_use_before_def(id, def, states, initial));
    diagnostic::extend(&mut out, check_skills_refs(id, def, subjects));
    out
}

/// Checks one definition.
pub fn validate_one_workflow(
    id: &str,
    def: &Value,
    workflows: &Value,
    caps: &Value,
    skill_subjects: &Vec<String>,
    inputs: &ValidationInputs,
) -> (r: Vec<Diagnostic>)
    ensures
        diagnostic::diags(r@) == definition_findings(
            id@,
            def@,
            workflows@,
            caps@,
            text::texts(skill_subjects@),
            inputs@,
        ),
{
    let mut out = validate_rules::check_tier(id, def, workflows, caps, inputs);
    let initial = match def.str_at("initialState") {
        Some(s) => s,
        None => {
            diagnostic::extend(
                &mut out,
                diagnostic::one_error(
                    text::join3("workflow '", id, "': missing 'initialState'"),
                ),
            );
            return out;
        },
    };
    if let Some(states) = def.get("states") {
        if states.is_object() {
            diagnostic::extend(
                &mut out,
                check_states(id, def, states, initial, skill_subjects),
            );
            return out;
        }
    }
    diagnostic::extend(
        &mut out,
        diagnostic::one_error(text::join3("workflow '", id, "': missing 'states' map")),
    );
    out
}

/// The findings on the definitions of a configuration.
pub open spec fn workflow_findings(config: Json, inputs: InputsView) -> Seq<DiagnosticView> {
    let e = config.entries_at("workflows"@);
    validate_rules::over(
        e,
        e.len() as int,
        one_workflow(
            Json::Object(e),
            validate_rules::snippet_outputs(e, e.len() as int),
            keys(config.entries_at("skills"@)),
            inputs,
        ),
    )
}

/// The findings on one definition of a configuration.
pub open spec fn one_workflow(
    workflows: Json,
    caps: Json,
    subjects: Seq<Seq<char>>,
    inputs: InputsView,
) -> spec_fn(Seq<char>, Json) -> Seq<DiagnosticView> {
    |id: Seq<char>, def: Json| definition_findings(id, def, workflows, caps, subjects, inputs)
}

/// Checks the workflow definitions of a configuration.
pub fn validate_workflows(config: &Value, inputs: &ValidationInputs) -> (r: Vec<Diagnostic>)
    ensures
        diagnostic::diags(r@) == workflow_findings(config@, inputs@),
{
    let subjects = match config.object_at("skills") {
        Some(s) => keys_of(s),
        None => {
            let v: Vec<String> = Vec::new();
            assert(text::texts(v@) =~= keys(config@.entries_at("skills"@)));
            v
        },
    };
    let mut out = diagnostic::none();
    let workflows = match config.get("workflows") {
        Some(w) => w,
        None => {
            return out;
        },
    };
    if let Value::Object(es) = workflows {
        let ghost e = json::entries(es@);
        let caps = validate_rules::snippet_outputs_of(es);
        let ghost f = one_workflow(
            Json::Object(e),
            caps@,
            text::texts(subjects@),
            inputs@,
        );
        let mut i: usize = 0;
        while i < es.len()
            invariant
                i <= es.len(),
                e == json::entries(es@),
                workflows@ == Json::Object(e),
                f == one_workflow(workflows@, caps@, text::texts(subjects@), inputs@),
                diagnostic::diags(out@) == validate_rules::over(e, i as int, f),
            decreases es.len() - i,
        {
            assert(e[i as int] == (es@[i as int].0@, es@[i as int].1@));
            let found = validate_one_workflow(
                es[i].0.as_str(),
                &es[i].1,
                workflows,
                &caps,
                &subjects,
                inputs,
            );
            diagnostic::extend(&mut out, found);
            i = i + 1;
        }
    }
    out
}

} // verus!
