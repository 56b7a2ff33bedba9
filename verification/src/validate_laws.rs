//! What the checks of workflow definitions catch.
use crate::diagnostic::DiagnosticView;
use crate::graph;
use crate::json::Json;
use crate::validate;
use crate::validate::SlotCheck;
use crate::validate_rules;
use crate::validate_rules::InputsView;
use vstd::prelude::*;

verus! {

/// There is no error among the findings.
pub open spec fn no_errors(s: Seq<DiagnosticView>) -> bool {
    forall|k: int| 0 <= k < s.len() ==> (#[trigger] s[k]) is Warning
}

proof fn lemma_no_errors_parts(a: Seq<DiagnosticView>, b: Seq<DiagnosticView>)
    requires
        no_errors(a + b),
    ensures
        no_errors(a),
        no_errors(b),
{
    assert forall|k: int| 0 <= k < a.len() implies (#[trigger] a[k]) is Warning by {
        assert((a + b)[k] == a[k]);
    }
    assert forall|k: int| 0 <= k < b.len() implies (#[trigger] b[k]) is Warning by {
        assert((a + b)[a.len() + k] == b[k]);
    }
}

proof fn lemma_no_errors_over(
    e: Seq<(Seq<char>, Json)>,
    n: int,
    f: spec_fn(Seq<char>, Json) -> Seq<DiagnosticView>,
    i: int,
)
    requires
        no_errors(validate_rules::over(e, n, f)),
        0 <= i < n,
    ensures
        no_errors(f(e[i].0, e[i].1)),
    decreases n,
{
    lemma_no_errors_parts(validate_rules::over(e, n - 1, f), f(e[n - 1].0, e[n - 1].1));
    if i < n - 1 {
        lemma_no_errors_over(e, n - 1, f, i);
    }
}

proof fn lemma_nothing_over(
    e: Seq<(Seq<char>, Json)>,
    n: int,
    f: spec_fn(Seq<char>, Json) -> Seq<DiagnosticView>,
    i: int,
)
    requires
        validate_rules::over(e, n, f).len() == 0,
        0 <= i < n,
    ensures
        f(e[i].0, e[i].1).len() == 0,
    decreases n,
{
    if i < n - 1 {
        lemma_nothing_over(e, n - 1, f, i);
    }
}

proof fn lemma_branches(
    id: Seq<char>,
    state: Seq<char>,
    t: Seq<char>,
    names: Seq<Seq<char>>,
    branches: Seq<Json>,
    n: int,
    i: int,
)
    requires
        no_errors(validate::branch_findings(id, state, t, names, branches, n)),
        0 <= i < n <= branches.len(),
    ensures
        branches[i].str_at("target"@) matches Some(b) ==> names.contains(b),
    decreases n,
{
    let before = validate::branch_findings(id, state, t, names, branches, n - 1);
    let all = validate::branch_findings(id, state, t, names, branches, n);
    let last = all.skip(before.len() as int);
    assert(all =~= before + last);
    lemma_no_errors_parts(before, last);
    if i < n - 1 {
        lemma_branches(id, state, t, names, branches, n - 1, i);
    } else if let Some(b) = branches[i].str_at("target"@) {
        if !names.contains(b) {
            assert(last[0] is Error);
        }
    }
}

/// The findings on the states of a definition, where it has an initial state and
/// states.
proof fn lemma_states_findings(
    id: Seq<char>,
    def: Json,
    workflows: Json,
    caps: Json,
    subjects: Seq<Seq<char>>,
    inputs: InputsView,
)
    requires
        no_errors(
            validate::definition_findings(id, def, workflows, caps, subjects, inputs),
        ),
    ensures
        def.str_at("initialState"@) is Some,
        def.object_at("states"@) is Some,
        no_errors(
            validate::states_findings(id, def, def.str_at("initialState"@)->0, subjects),
        ),
{
    let tier = validate_rules::tier_findings(id, def, workflows, caps, inputs);
    let all = validate::definition_findings(id, def, workflows, caps, subjects, inputs);
    let rest = all.skip(tier.len() as int);
    assert(all =~= tier + rest);
    lemma_no_errors_parts(tier, rest);
    match (def.str_at("initialState"@), def.object_at("states"@)) {
        (Some(initial), Some(_)) => {
            assert(rest =~= validate::states_findings(id, def, initial, subjects));
        },
        _ => {
            assert(rest[0] is Error);
        },
    }
}

/// A definition without errors leads nowhere but to its states: its initial state, the
/// target of its timeout and the targets of its transitions and of their branches are
/// states, and every transition has a target.
pub proof fn law_without_errors_targets_are_states(
    id: Seq<char>,
    def: Json,
    workflows: Json,
    caps: Json,
    subjects: Seq<Seq<char>>,
    inputs: InputsView,
    i: int,
    j: int,
    k: int,
)
    requires
        no_errors(
            validate::definition_findings(id, def, workflows, caps, subjects, inputs),
        ),
    ensures
        ({
            let states = def.entries_at("states"@);
            let names = validate::keys(states);
            let ts = states[i].1.entries_at("transitions"@);
            let branches = ts[j].1.items_at("branches"@);
            &&& def.str_at("initialState"@) matches Some(initial) && names.contains(initial)
            &&& validate::timeout_target(def) matches Some(t) ==> names.contains(t)
            &&& 0 <= i < states.len() && 0 <= j < ts.len() ==> {
                &&& ts[j].1.str_at("target"@) matches Some(t) && names.contains(t)
                &&& 0 <= k < branches.len() ==> (branches[k].str_at("target"@) matches Some(b)
                    ==> names.contains(b))
            }
        }),
{
    lemma_states_findings(id, def, workflows, caps, subjects, inputs);
    let initial = def.str_at("initialState"@)->0;
    let states = def.entries_at("states"@);
    let names = validate::keys(states);
    let entry = validate::entry_findings(id, def, initial, names);
    let f = validate::state_findings(id, def, names);
    let inner = validate_rules::over_entries(def, "states"@, f);
    let all = validate::states_findings(id, def, initial, subjects);
    let rest = all.skip((entry + inner).len() as int);
    assert(all =~= entry + inner + rest);
    lemma_no_errors_parts(entry + inner, rest);
    lemma_no_errors_parts(entry, inner);
    if !names.contains(initial) {
        assert(entry[0] is Error);
    }
    if let Some(t) = validate::timeout_target(def) {
        if !names.contains(t) {
            assert(entry.last() is Error);
        }
    }
    let ts = states[i].1.entries_at("transitions"@);
    if 0 <= i < states.len() && 0 <= j < ts.len() {
        let (state, s) = states[i];
        lemma_no_errors_over(states, states.len() as int, f, i);
        let g = validate::transition_findings(id, names, state);
        lemma_state_parts(id, def, names, state, s);
        lemma_no_errors_over(ts, ts.len() as int, g, j);
        let (t, d) = ts[j];
        let branches = d.items_at("branches"@);
        let on_branches = validate::branch_findings(
            id,
            state,
            t,
            names,
            branches,
            branches.len() as int,
        );
        let on_target = g(t, d).take(g(t, d).len() - on_branches.len());
        assert(g(t, d) =~= on_target + on_branches);
        lemma_no_errors_parts(on_target, on_branches);
        match d.str_at("target"@) {
            Some(target) => {
                if !names.contains(target) {
                    assert(on_target[0] is Error);
                }
            },
            None => {
                assert(on_target[0] is Error);
            },
        }
        if 0 <= k < branches.len() {
            lemma_branches(id, state, t, names, branches, branches.len() as int, k);
        }
    }
}

/// What is found on the transitions of a state is part of what is found on the state.
proof fn lemma_state_parts(
    id: Seq<char>,
    def: Json,
    names: Seq<Seq<char>>,
    state: Seq<char>,
    s: Json,
)
    requires
        no_errors(validate::state_findings(id, def, names)(state, s)),
    ensures
        no_errors(
            validate_rules::over_entries(
                s,
                "transitions"@,
                validate::transition_findings(id, names, state),
            ),
        ),
{
    let all = validate::state_findings(id, def, names)(state, s);
    let middle = validate_rules::over_entries(
        s,
        "transitions"@,
        validate::transition_findings(id, names, state),
    );
    let stuck = s.bool_at("terminal"@) != Some(true) && s.entries_at("transitions"@).len() == 0
        && !validate::has_timeout_target(def);
    let from: int = if stuck {
        1
    } else {
        0
    };
    let front = all.take(from);
    let back = all.skip(from + middle.len());
    assert(all =~= front + middle + back);
    lemma_no_errors_parts(front + middle, back);
    lemma_no_errors_parts(front, middle);
}

proof fn lemma_guard_slots(
    c: SlotCheck,
    id: Seq<char>,
    state: Seq<char>,
    t: Seq<char>,
    slots: Seq<Seq<char>>,
    n: int,
    i: int,
)
    requires
        no_errors(validate::guard_slots(c, id, state, t, slots, n)),
        0 <= i < n,
    ensures
        no_errors(validate::guard_slot(c, id, state, t, slots[i])),
    decreases n,
{
    lemma_no_errors_parts(
        validate::guard_slots(c, id, state, t, slots, n - 1),
        validate::guard_slot(c, id, state, t, slots[n - 1]),
    );
    if i < n - 1 {
        lemma_guard_slots(c, id, state, t, slots, n - 1, i);
    }
}

proof fn lemma_guards(
    c: SlotCheck,
    id: Seq<char>,
    state: Seq<char>,
    t: Seq<char>,
    guards: Seq<Json>,
    n: int,
    i: int,
)
    requires
        no_errors(validate::guard_findings(c, id, state, t, guards, n)),
        0 <= i < n,
    ensures
        guards[i].str_at("expr"@) matches Some(x) ==> no_errors(
            validate::guard_slots(
                c,
                id,
                state,
                t,
                validate::context_slots(x),
                validate::context_slots(x).len() as int,
            ),
        ),
    decreases n,
{
    let before = validate::guard_findings(c, id, state, t, guards, n - 1);
    let all = validate::guard_findings(c, id, state, t, guards, n);
    let last = all.skip(before.len() as int);
    assert(all =~= before + last);
    lemma_no_errors_parts(before, last);
    if i < n - 1 {
        lemma_guards(c, id, state, t, guards, n - 1, i);
    } else if let Some(x) = guards[i].str_at("expr"@) {
        assert(last =~= validate::guard_slots(
            c,
            id,
            state,
            t,
            validate::context_slots(x),
            validate::context_slots(x).len() as int,
        ));
    }
}

/// In a definition without errors a guard reads only slots that are written on some way
/// to its state and, where there is a blackboard, declared there; it never reads the
/// summary. `g` counts the guards of the `j`-th transition of the `i`-th state, `q` the
/// slots that the guard reads.
pub proof fn law_without_errors_guards_read_written_slots(
    id: Seq<char>,
    def: Json,
    workflows: Json,
    caps: Json,
    subjects: Seq<Seq<char>>,
    inputs: InputsView,
    i: int,
    j: int,
    g: int,
    q: int,
    expr: Seq<char>,
)
    requires
        no_errors(
            validate::definition_findings(id, def, workflows, caps, subjects, inputs),
        ),
        ({
            let states = def.entries_at("states"@);
            let ts = states[i].1.entries_at("transitions"@);
            let guards = validate::transition_guards(ts[j].1);
            &&& 0 <= i < states.len()
            &&& 0 <= j < ts.len()
            &&& 0 <= g < guards.len()
            &&& guards[g].str_at("expr"@) == Some(expr)
            &&& 0 <= q < validate::context_slots(expr).len()
        }),
    ensures
        ({
            let c = validate::slot_check(def, def.str_at("initialState"@)->0);
            let slot = validate::context_slots(expr)[q];
            &&& slot != "summary"@
            &&& !c.undeclared(slot)
            &&& c.available(slot, def.entries_at("states"@)[i].0)
        }),
{
    lemma_states_findings(id, def, workflows, caps, subjects, inputs);
    let initial = def.str_at("initialState"@)->0;
    let c = validate::slot_check(def, initial);
    let states = def.entries_at("states"@);
    let all = validate::states_findings(id, def, initial, subjects);
    let reads = validate::read_findings(id, def, initial);
    let skills = validate::skills_findings(id, def, subjects);
    let front = all.take(all.len() - skills.len() - reads.len());
    assert(all =~= front + reads + skills);
    lemma_no_errors_parts(front + reads, skills);
    lemma_no_errors_parts(front, reads);
    lemma_no_errors_over(states, states.len() as int, validate::read_state(c, id), i);
    let (state, s) = states[i];
    let goal = validate::field_findings(c, id, state, s, "goal"@);
    let guidance = validate::field_findings(c, id, state, s, "guidance"@);
    let f = validate::read_transition(c, id, state);
    let ts = s.entries_at("transitions"@);
    lemma_no_errors_parts(
        goal + guidance,
        validate_rules::over_entries(s, "transitions"@, f),
    );
    lemma_no_errors_over(ts, ts.len() as int, f, j);
    let (t, d) = ts[j];
    let guards = validate::transition_guards(d);
    lemma_guards(c, id, state, t, guards, guards.len() as int, g);
    let slots = validate::context_slots(expr);
    lemma_guard_slots(c, id, state, t, slots, slots.len() as int, q);
    let found = validate::guard_slot(c, id, state, t, slots[q]);
    if slots[q] == "summary"@ || c.undeclared(slots[q]) || !c.available(slots[q], state) {
        assert(found[0] is Error);
    }
}

/// A definition without any finding has no dead end and no state that cannot be
/// reached: every state that is not terminal has a transition or a timeout to leave it
/// by, and every state is reached from the initial one, or by the timeout.
pub proof fn law_without_findings_states_are_reached_and_left(
    id: Seq<char>,
    def: Json,
    workflows: Json,
    caps: Json,
    subjects: Seq<Seq<char>>,
    inputs: InputsView,
    i: int,
)
    requires
        validate::definition_findings(id, def, workflows, caps, subjects, inputs).len() == 0,
        0 <= i < def.entries_at("states"@).len(),
    ensures
        ({
            let (state, s) = def.entries_at("states"@)[i];
            let initial = def.str_at("initialState"@)->0;
            &&& s.bool_at("terminal"@) == Some(true) || s.entries_at("transitions"@).len() > 0
                || validate::has_timeout_target(def)
            &&& graph::reachable(
                validate::definition_edges(def, None),
                seq![initial],
                state,
            ) || validate::timeout_target(def) == Some(state)
        }),
{
    lemma_states_findings(id, def, workflows, caps, subjects, inputs);
    law_without_errors_targets_are_states(id, def, workflows, caps, subjects, inputs, i, 0, 0);
    let initial = def.str_at("initialState"@)->0;
    let states = def.entries_at("states"@);
    let names = validate::keys(states);
    let all = validate::states_findings(id, def, initial, subjects);
    assert(all.len() == 0) by {
        let tier = validate_rules::tier_findings(id, def, workflows, caps, inputs);
        assert(validate::definition_findings(id, def, workflows, caps, subjects, inputs)
            == tier + all);
    }
    let f = validate::state_findings(id, def, names);
    let r = validate::reach_findings(id, def, initial);
    assert(validate_rules::over_entries(def, "states"@, f).len() == 0);
    assert(validate_rules::over_entries(def, "states"@, r).len() == 0);
    lemma_nothing_over(states, states.len() as int, f, i);
    lemma_nothing_over(states, states.len() as int, r, i);
}

} // verus!
