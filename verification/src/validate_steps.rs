//! What the checks of reachability and of slots are for: laws over the steps that are read
//! directly from a definition.
use crate::diagnostic::DiagnosticView;
use crate::graph;
use crate::graph::EdgeView;
use crate::json::Json;
use crate::validate;
use crate::validate_rules;
use vstd::prelude::*;

verus! {

// ---------------------------------------------------------------------------
// Steps
// ---------------------------------------------------------------------------

/// The transitions of the state at place `i` of a definition.
pub open spec fn transitions_at(def: Json, i: int) -> Seq<(Seq<char>, Json)> {
    def.entries_at("states"@)[i].1.entries_at("transitions"@)
}

/// A transition leads to a state: by its target, or by the target of one of its branches.
pub open spec fn points_at(t: Json, to: Seq<char>) -> bool {
    t.str_at("target"@) == Some(to) || exists|k: int|
        0 <= k < t.items_at("branches"@).len() && (#[trigger] t.items_at("branches"@)[k]).str_at(
            "target"@,
        ) == Some(to)
}

/// The transition at place `j` of the state at place `i` leads from one state to another.
pub open spec fn leads_at(def: Json, i: int, j: int, from: Seq<char>, to: Seq<char>) -> bool {
    &&& 0 <= i < def.entries_at("states"@).len()
    &&& def.entries_at("states"@)[i].0 == from
    &&& 0 <= j < transitions_at(def, i).len()
    &&& points_at(transitions_at(def, i)[j].1, to)
}

/// Some transition of a definition leads from one state to another.
pub open spec fn leads(def: Json) -> spec_fn(Seq<char>, Seq<char>) -> bool {
    |from: Seq<char>, to: Seq<char>| exists|i: int, j: int| leads_at(def, i, j, from, to)
}

/// A state of a definition.
pub open spec fn is_state(def: Json, state: Seq<char>) -> bool {
    exists|i: int|
        0 <= i < def.entries_at("states"@).len() && (#[trigger] def.entries_at("states"@)[i]).0
            == state
}

/// Where the timeout of a definition leads.
pub open spec fn times_out_to(def: Json, to: Seq<char>) -> bool {
    def.get("onTimeout"@) matches Some(t) && t.str_at("target"@) == Some(to)
}

/// A workflow can move from one state to another: by a transition, or by its timeout.
pub open spec fn moves(def: Json) -> spec_fn(Seq<char>, Seq<char>) -> bool {
    |from: Seq<char>, to: Seq<char>|
        leads(def)(from, to) || (times_out_to(def, to) && is_state(def, from))
}

/// Each state of a way leads to the next.
pub open spec fn way(step: spec_fn(Seq<char>, Seq<char>) -> bool, path: Seq<Seq<char>>) -> bool {
    forall|k: int, m: int|
        0 <= k && m == k + 1 && m < path.len() ==> step(#[trigger] path[k], #[trigger] path[m])
}

/// A chain of steps leads from one state to another.
pub open spec fn reached(
    step: spec_fn(Seq<char>, Seq<char>) -> bool,
    from: Seq<char>,
    to: Seq<char>,
) -> bool {
    exists|path: Seq<Seq<char>>|
        path.len() > 0 && path[0] == from && path.last() == to && #[trigger] way(step, path)
}

/// One step further than a state that is reached is reached.
pub proof fn lemma_one_more(
    step: spec_fn(Seq<char>, Seq<char>) -> bool,
    from: Seq<char>,
    by: Seq<char>,
    to: Seq<char>,
)
    requires
        reached(step, from, by),
        step(by, to),
    ensures
        reached(step, from, to),
{
    let path = choose|path: Seq<Seq<char>>|
        path.len() > 0 && path[0] == from && path.last() == by && #[trigger] way(step, path);
    let longer = path.push(to);
    assert(way(step, longer)) by {
        assert forall|k: int, m: int| 0 <= k && m == k + 1 && m < longer.len() implies step(
            #[trigger] longer[k],
            #[trigger] longer[m],
        ) by {
            if m < path.len() {
                assert(step(path[k], path[m]));
            }
        }
    }
    assert(longer[0] == from && longer.last() == to);
}

/// The list of edges draws exactly the steps.
spec fn draws(edges: Seq<EdgeView>, step: spec_fn(Seq<char>, Seq<char>) -> bool) -> bool {
    &&& forall|i: int|
        0 <= i < edges.len() ==> step((#[trigger] edges[i]).from, edges[i].to)
    &&& forall|from: Seq<char>, to: Seq<char>| #[trigger]
        step(from, to) ==> exists|i: int|
            0 <= i < edges.len() && (#[trigger] edges[i]).from == from && edges[i].to == to
}

proof fn lemma_within_reached(
    edges: Seq<EdgeView>,
    step: spec_fn(Seq<char>, Seq<char>) -> bool,
    from: Seq<char>,
    to: Seq<char>,
    n: nat,
)
    requires
        draws(edges, step),
        graph::within(edges, seq![from], to, n),
    ensures
        reached(step, from, to),
    decreases n,
{
    if n == 0 {
        let path = seq![from];
        assert(seq![from].contains(to));
        assert(way(step, path));
        assert(path[0] == from && path.last() == to);
    } else if graph::within(edges, seq![from], to, (n - 1) as nat) {
        lemma_within_reached(edges, step, from, to, (n - 1) as nat);
    } else {
        let i = choose|i: int|
            0 <= i < edges.len() && (#[trigger] edges[i]).to == to && graph::within(
                edges,
                seq![from],
                edges[i].from,
                (n - 1) as nat,
            );
        lemma_within_reached(edges, step, from, edges[i].from, (n - 1) as nat);
        lemma_one_more(step, from, edges[i].from, to);
    }
}

proof fn lemma_way_within(
    edges: Seq<EdgeView>,
    step: spec_fn(Seq<char>, Seq<char>) -> bool,
    path: Seq<Seq<char>>,
)
    requires
        draws(edges, step),
        path.len() > 0,
        way(step, path),
    ensures
        graph::within(edges, seq![path[0]], path.last(), (path.len() - 1) as nat),
    decreases path.len(),
{
    if path.len() == 1 {
        assert(seq![path[0]][0] == path.last());
    } else {
        let shorter = path.drop_last();
        assert(way(step, shorter)) by {
            assert forall|k: int, m: int| 0 <= k && m == k + 1 && m < shorter.len() implies step(
                #[trigger] shorter[k],
                #[trigger] shorter[m],
            ) by {
                assert(step(path[k], path[m]));
            }
        }
        lemma_way_within(edges, step, shorter);
        let k = path.len() - 2;
        let m = path.len() - 1;
        assert(step(path[k], path[m]));
        let i = choose|i: int|
            0 <= i < edges.len() && (#[trigger] edges[i]).from == path[k] && edges[i].to == path[m];
        assert(edges[i].to == path.last());
        assert(shorter.last() == path[k]);
        assert(shorter[0] == path[0]);
    }
}

/// Being reachable over the edges is being reached by steps.
proof fn lemma_reachable_reached(
    edges: Seq<EdgeView>,
    step: spec_fn(Seq<char>, Seq<char>) -> bool,
    from: Seq<char>,
    to: Seq<char>,
)
    requires
        draws(edges, step),
    ensures
        graph::reachable(edges, seq![from], to) <==> reached(step, from, to),
{
    if graph::reachable(edges, seq![from], to) {
        let n = choose|n: nat| graph::within(edges, seq![from], to, n);
        lemma_within_reached(edges, step, from, to, n);
    }
    if reached(step, from, to) {
        let path = choose|path: Seq<Seq<char>>|
            path.len() > 0 && path[0] == from && path.last() == to && #[trigger] way(step, path);
        lemma_way_within(edges, step, path);
    }
}

// ---------------------------------------------------------------------------
// Slots
// ---------------------------------------------------------------------------

/// A key among entries.
pub open spec fn keyed(e: Seq<(Seq<char>, Json)>, key: Seq<char>) -> bool {
    exists|k: int| 0 <= k < e.len() && (#[trigger] e[k]).0 == key
}

/// The entry action of a state writes a slot.
pub open spec fn entered_with(def: Json, state: Seq<char>, slot: Seq<char>) -> bool {
    Json::Object(def.entries_at("states"@)).get(state) matches Some(s) && (s.get("onEnter"@)
        matches Some(action) && keyed(action.entries_at("output"@), slot))
}

/// A move from one state to another writes a slot: a transition that leads there has it
/// among its outputs, or the entry action of the state has.
pub open spec fn writes(def: Json, from: Seq<char>, to: Seq<char>, slot: Seq<char>) -> bool {
    ||| moves(def)(from, to) && entered_with(def, to, slot)
    ||| exists|i: int, j: int|
        #[trigger] leads_at(def, i, j, from, to) && keyed(
            transitions_at(def, i)[j].1.entries_at("output"@),
            slot,
        )
}

/// A slot is written on the way into a state: it is there from the beginning, or a move
/// from a state that is reached writes it.
pub open spec fn written_into(def: Json, initial: Seq<char>, slot: Seq<char>, state: Seq<char>) -> bool {
    ||| state == initial && (keyed(def.entries_at("initialContext"@), slot) || entered_with(
        def,
        initial,
        slot,
    ))
    ||| exists|from: Seq<char>|
        #[trigger] reached(moves(def), initial, from) && writes(def, from, state, slot)
}

// ---------------------------------------------------------------------------
// The edges of a definition
// ---------------------------------------------------------------------------

spec fn is_branch_edge(
    states: Json,
    from: Seq<char>,
    written: Seq<Seq<char>>,
    branches: Seq<Json>,
    n: int,
    e: EdgeView,
) -> bool {
    e == validate::edge(states, from, e.to, written) && exists|k: int|
        0 <= k < n && (#[trigger] branches[k]).str_at("target"@) == Some(e.to)
}

proof fn lemma_branch_edges(
    states: Json,
    from: Seq<char>,
    written: Seq<Seq<char>>,
    branches: Seq<Json>,
    n: int,
    e: EdgeView,
)
    requires
        0 <= n <= branches.len(),
    ensures
        validate::branch_edges(states, from, written, branches, n).contains(e) <==> is_branch_edge(
            states,
            from,
            written,
            branches,
            n,
            e,
        ),
    decreases n,
{
    let all = validate::branch_edges(states, from, written, branches, n);
    if n > 0 {
        lemma_branch_edges(states, from, written, branches, n - 1, e);
        let before = validate::branch_edges(states, from, written, branches, n - 1);
        let b = branches[n - 1];
        if before.contains(e) {
            let p = choose|p: int| 0 <= p < before.len() && before[p] == e;
            assert(all[p] == e);
        }
        if all.contains(e) {
            let p = choose|p: int| 0 <= p < all.len() && all[p] == e;
            if p < before.len() {
                assert(before[p] == e);
            } else {
                assert(branches[n - 1].str_at("target"@) == Some(e.to));
            }
        }
        if is_branch_edge(states, from, written, branches, n, e) {
            let k = choose|k: int|
                0 <= k < n && (#[trigger] branches[k]).str_at("target"@) == Some(e.to);
            if k < n - 1 {
                assert(is_branch_edge(states, from, written, branches, n - 1, e));
            } else {
                assert(all[before.len() as int] == e);
            }
        }
    }
}

proof fn lemma_transition_edges(states: Json, from: Seq<char>, d: Json, e: EdgeView)
    ensures
        validate::transition_edges(states, from, d).contains(e) <==> (points_at(d, e.to) && e
            == validate::edge(states, from, e.to, validate::keys(d.entries_at("output"@)))),
{
    let written = validate::keys(d.entries_at("output"@));
    let branches = d.items_at("branches"@);
    let n = branches.len() as int;
    lemma_branch_edges(states, from, written, branches, n, e);
    let second = validate::branch_edges(states, from, written, branches, n);
    let first = match d.str_at("target"@) {
        Some(target) => seq![validate::edge(states, from, target, written)],
        None => Seq::empty(),
    };
    let all = validate::transition_edges(states, from, d);
    assert(all == first + second);
    if all.contains(e) {
        let p = choose|p: int| 0 <= p < all.len() && all[p] == e;
        if p < first.len() {
            assert(all[p] == first[p]);
        } else {
            assert(second[p - first.len()] == e);
            let k = choose|k: int|
                0 <= k < n && (#[trigger] branches[k]).str_at("target"@) == Some(e.to);
            assert(d.items_at("branches"@)[k].str_at("target"@) == Some(e.to));
        }
    }
    if points_at(d, e.to) && e == validate::edge(states, from, e.to, written) {
        if d.str_at("target"@) == Some(e.to) {
            assert(all[0] == e);
        } else {
            let k = choose|k: int|
                0 <= k < d.items_at("branches"@).len() && (#[trigger] d.items_at(
                    "branches"@,
                )[k]).str_at("target"@) == Some(e.to);
            assert(branches[k].str_at("target"@) == Some(e.to));
            assert(is_branch_edge(states, from, written, branches, n, e));
            let p = choose|p: int| 0 <= p < second.len() && second[p] == e;
            assert(all[first.len() + p] == e);
        }
    }
}

spec fn is_step_edge(
    states: Json,
    from: Seq<char>,
    ts: Seq<(Seq<char>, Json)>,
    j: int,
    e: EdgeView,
) -> bool {
    points_at(ts[j].1, e.to) && e == validate::edge(
        states,
        from,
        e.to,
        validate::keys(ts[j].1.entries_at("output"@)),
    )
}

proof fn lemma_transitions_edges(
    states: Json,
    from: Seq<char>,
    ts: Seq<(Seq<char>, Json)>,
    n: int,
    e: EdgeView,
)
    requires
        0 <= n <= ts.len(),
    ensures
        validate::transitions_edges(states, from, ts, n).contains(e) <==> exists|j: int|
            0 <= j < n && #[trigger] is_step_edge(states, from, ts, j, e),
    decreases n,
{
    if n > 0 {
        lemma_transitions_edges(states, from, ts, n - 1, e);
        lemma_transition_edges(states, from, ts[n - 1].1, e);
        let a = validate::transitions_edges(states, from, ts, n - 1);
        let b = validate::transition_edges(states, from, ts[n - 1].1);
        lemma_contains_sum(a, b, e);
        if b.contains(e) {
            assert(is_step_edge(states, from, ts, n - 1, e));
        }
    }
}

proof fn lemma_contains_sum(a: Seq<EdgeView>, b: Seq<EdgeView>, e: EdgeView)
    ensures
        (a + b).contains(e) <==> a.contains(e) || b.contains(e),
{
    if a.contains(e) {
        let p = choose|p: int| 0 <= p < a.len() && a[p] == e;
        assert((a + b)[p] == e);
    }
    if b.contains(e) {
        let p = choose|p: int| 0 <= p < b.len() && b[p] == e;
        assert((a + b)[a.len() + p] == e);
    }
    if (a + b).contains(e) {
        let p = choose|p: int| 0 <= p < (a + b).len() && (a + b)[p] == e;
        if p < a.len() {
            assert(a[p] == e);
        } else {
            assert(b[p - a.len()] == e);
        }
    }
}

spec fn is_state_edge(
    states: Json,
    timeout: Option<Seq<char>>,
    s: Seq<(Seq<char>, Json)>,
    i: int,
    e: EdgeView,
) -> bool {
    ||| timeout == Some(e.to) && e == validate::edge(states, s[i].0, e.to, Seq::empty())
    ||| exists|j: int|
        0 <= j < s[i].1.entries_at("transitions"@).len() && #[trigger] is_step_edge(
            states,
            s[i].0,
            s[i].1.entries_at("transitions"@),
            j,
            e,
        )
}

proof fn lemma_state_edges(
    states: Json,
    timeout: Option<Seq<char>>,
    s: Seq<(Seq<char>, Json)>,
    n: int,
    e: EdgeView,
)
    requires
        0 <= n <= s.len(),
    ensures
        validate::state_edges(states, timeout, s, n).contains(e) <==> exists|i: int|
            0 <= i < n && #[trigger] is_state_edge(states, timeout, s, i, e),
    decreases n,
{
    if n > 0 {
        lemma_state_edges(states, timeout, s, n - 1, e);
        let from = s[n - 1].0;
        let ts = s[n - 1].1.entries_at("transitions"@);
        lemma_transitions_edges(states, from, ts, ts.len() as int, e);
        let a = validate::state_edges(states, timeout, s, n - 1);
        let b = match timeout {
            Some(target) => seq![validate::edge(states, from, target, Seq::empty())],
            None => Seq::empty(),
        };
        let c = validate::transitions_edges(states, from, ts, ts.len() as int);
        assert(validate::state_edges(states, timeout, s, n) == a + b + c);
        lemma_contains_sum(a, b, e);
        lemma_contains_sum(a + b, c, e);
        if timeout == Some(e.to) && e == validate::edge(states, from, e.to, Seq::empty()) {
            assert(b[0] == e);
        }
        if b.contains(e) {
            assert(b[0] == e);
        }
        if b.contains(e) || c.contains(e) {
            assert(is_state_edge(states, timeout, s, n - 1, e));
        }
    }
}

/// The edges that the checker builds are the steps of the definition, each with the slots
/// that it writes.
proof fn lemma_definition_edges(def: Json, timeout: Option<Seq<char>>)
    requires
        timeout is None || timeout == validate::timeout_target(def),
    ensures
        draws(
            validate::definition_edges(def, timeout),
            if timeout is None {
                leads(def)
            } else {
                moves(def)
            },
        ),
{
    let s = def.entries_at("states"@);
    let states = Json::Object(s);
    let n = s.len() as int;
    let edges = validate::definition_edges(def, timeout);
    let step = if timeout is None {
        leads(def)
    } else {
        moves(def)
    };
    assert forall|p: int| 0 <= p < edges.len() implies step(
        (#[trigger] edges[p]).from,
        edges[p].to,
    ) by {
        let e = edges[p];
        assert(edges.contains(e));
        lemma_state_edges(states, timeout, s, n, e);
        let i = choose|i: int| 0 <= i < n && #[trigger] is_state_edge(states, timeout, s, i, e);
        if timeout == Some(e.to) && e == validate::edge(states, s[i].0, e.to, Seq::empty()) {
            assert(def.entries_at("states"@)[i].0 == e.from);
            assert(is_state(def, e.from));
            assert(times_out_to(def, e.to));
        } else {
            let ts = s[i].1.entries_at("transitions"@);
            let j = choose|j: int|
                0 <= j < ts.len() && #[trigger] is_step_edge(states, s[i].0, ts, j, e);
            assert(leads_at(def, i, j, e.from, e.to));
        }
    }
    assert forall|from: Seq<char>, to: Seq<char>| #[trigger] step(from, to) implies exists|p: int|
        0 <= p < edges.len() && (#[trigger] edges[p]).from == from && edges[p].to == to by {
        if leads(def)(from, to) {
            let (i, j) = choose|i: int, j: int| leads_at(def, i, j, from, to);
            lemma_edge_for(def, timeout, i, j, from, to);
        } else {
            let i = choose|i: int|
                0 <= i < def.entries_at("states"@).len() && (#[trigger] def.entries_at(
                    "states"@,
                )[i]).0 == from;
            let e = validate::edge(states, from, to, Seq::empty());
            assert(is_state_edge(states, timeout, s, i, e));
            lemma_state_edges(states, timeout, s, n, e);
            let p = choose|p: int| 0 <= p < edges.len() && edges[p] == e;
            assert(edges[p].from == from);
        }
    }
}

/// A transition that leads somewhere has its edge, with the slots that it writes.
proof fn lemma_edge_for(
    def: Json,
    timeout: Option<Seq<char>>,
    i: int,
    j: int,
    from: Seq<char>,
    to: Seq<char>,
)
    requires
        leads_at(def, i, j, from, to),
    ensures
        ({
            let e = validate::edge(
                Json::Object(def.entries_at("states"@)),
                from,
                to,
                validate::keys(transitions_at(def, i)[j].1.entries_at("output"@)),
            );
            let edges = validate::definition_edges(def, timeout);
            &&& e.from == from
            &&& e.to == to
            &&& exists|p: int| 0 <= p < edges.len() && #[trigger] edges[p] == e
        }),
{
    let s = def.entries_at("states"@);
    let states = Json::Object(s);
    let ts = s[i].1.entries_at("transitions"@);
    let e = validate::edge(states, from, to, validate::keys(ts[j].1.entries_at("output"@)));
    assert(is_step_edge(states, s[i].0, ts, j, e));
    assert(is_state_edge(states, timeout, s, i, e));
    lemma_state_edges(states, timeout, s, s.len() as int, e);
    let edges = validate::definition_edges(def, timeout);
    assert(edges.contains(e));
}

pub proof fn lemma_keyed(e: Seq<(Seq<char>, Json)>, key: Seq<char>)
    ensures
        validate::keys(e).contains(key) <==> keyed(e, key),
{
    if keyed(e, key) {
        let k = choose|k: int| 0 <= k < e.len() && (#[trigger] e[k]).0 == key;
        assert(validate::keys(e)[k] == key);
    }
    if validate::keys(e).contains(key) {
        let k = choose|k: int| 0 <= k < validate::keys(e).len() && validate::keys(e)[k] == key;
        assert(e[k].0 == key);
    }
}

proof fn lemma_entry_slots(def: Json, state: Seq<char>, slot: Seq<char>)
    ensures
        validate::entry_slots(Json::Object(def.entries_at("states"@)), state).contains(slot)
            <==> entered_with(def, state, slot),
{
    if let Some(s) = Json::Object(def.entries_at("states"@)).get(state) {
        if let Some(action) = s.get("onEnter"@) {
            lemma_keyed(action.entries_at("output"@), slot);
        }
    }
}

pub proof fn lemma_key_sum(a: Seq<Seq<char>>, b: Seq<Seq<char>>, slot: Seq<char>)
    ensures
        (a + b).contains(slot) <==> a.contains(slot) || b.contains(slot),
{
    if a.contains(slot) {
        let p = choose|p: int| 0 <= p < a.len() && a[p] == slot;
        assert((a + b)[p] == slot);
    }
    if b.contains(slot) {
        let p = choose|p: int| 0 <= p < b.len() && b[p] == slot;
        assert((a + b)[a.len() + p] == slot);
    }
    if (a + b).contains(slot) {
        let p = choose|p: int| 0 <= p < (a + b).len() && (a + b)[p] == slot;
        if p < a.len() {
            assert(a[p] == slot);
        } else {
            assert(b[p - a.len()] == slot);
        }
    }
}

/// An edge that writes a slot stands exactly for a move that writes it.
proof fn lemma_writes(def: Json, from: Seq<char>, to: Seq<char>, slot: Seq<char>)
    ensures
        writes(def, from, to, slot) <==> ({
            let edges = validate::definition_edges(def, validate::timeout_target(def));
            exists|p: int|
                0 <= p < edges.len() && (#[trigger] edges[p]).from == from && edges[p].to == to
                    && edges[p].keys.contains(slot)
        }),
{
    let timeout = validate::timeout_target(def);
    let s = def.entries_at("states"@);
    let states = Json::Object(s);
    let n = s.len() as int;
    let edges = validate::definition_edges(def, timeout);
    lemma_entry_slots(def, to, slot);
    assert forall|p: int|
        0 <= p < edges.len() && (#[trigger] edges[p]).from == from && edges[p].to == to
            && edges[p].keys.contains(slot) implies writes(def, from, to, slot) by {
        let e = edges[p];
        assert(edges.contains(e));
        lemma_state_edges(states, timeout, s, n, e);
        let i = choose|i: int| 0 <= i < n && #[trigger] is_state_edge(states, timeout, s, i, e);
        if timeout == Some(e.to) && e == validate::edge(states, s[i].0, e.to, Seq::empty()) {
            assert(def.entries_at("states"@)[i].0 == e.from);
            lemma_key_sum(Seq::empty(), validate::entry_slots(states, to), slot);
            assert(is_state(def, from) && times_out_to(def, to));
            assert(moves(def)(from, to));
        } else {
            let ts = s[i].1.entries_at("transitions"@);
            let j = choose|j: int|
                0 <= j < ts.len() && #[trigger] is_step_edge(states, s[i].0, ts, j, e);
            assert(leads_at(def, i, j, from, to));
            assert(leads(def)(from, to));
            assert(moves(def)(from, to));
            let out = ts[j].1.entries_at("output"@);
            lemma_keyed(out, slot);
            lemma_key_sum(validate::keys(out), validate::entry_slots(states, to), slot);
        }
    }
    if writes(def, from, to, slot) {
        if moves(def)(from, to) && entered_with(def, to, slot) {
            if leads(def)(from, to) {
                let (i, j) = choose|i: int, j: int| leads_at(def, i, j, from, to);
                lemma_edge_for(def, timeout, i, j, from, to);
                let out = transitions_at(def, i)[j].1.entries_at("output"@);
                lemma_key_sum(validate::keys(out), validate::entry_slots(states, to), slot);
            } else {
                let i = choose|i: int|
                    0 <= i < def.entries_at("states"@).len() && (#[trigger] def.entries_at(
                        "states"@,
                    )[i]).0 == from;
                let e = validate::edge(states, from, to, Seq::empty());
                assert(is_state_edge(states, timeout, s, i, e));
                lemma_state_edges(states, timeout, s, n, e);
                lemma_key_sum(Seq::empty(), validate::entry_slots(states, to), slot);
                let p = choose|p: int| 0 <= p < edges.len() && edges[p] == e;
                assert(edges[p].keys.contains(slot));
            }
        } else {
            let (i, j) = choose|i: int, j: int|
                #[trigger] leads_at(def, i, j, from, to) && keyed(
                    transitions_at(def, i)[j].1.entries_at("output"@),
                    slot,
                );
            lemma_edge_for(def, timeout, i, j, from, to);
            let out = transitions_at(def, i)[j].1.entries_at("output"@);
            lemma_keyed(out, slot);
            lemma_key_sum(validate::keys(out), validate::entry_slots(states, to), slot);
        }
    }
}

// ---------------------------------------------------------------------------
// Laws
// ---------------------------------------------------------------------------

/// A state is warned of exactly where no chain of steps leads to it from the initial state,
/// and the timeout does not lead to it either: a step is a transition of a state, or a
/// branch of one, with its target.
pub proof fn law_warned_only_if_not_reached(
    id: Seq<char>,
    def: Json,
    initial: Seq<char>,
    state: Seq<char>,
    s: Json,
)
    ensures
        validate::reach_findings(id, def, initial)(state, s).len() == 0 <==> (reached(
            leads(def),
            initial,
            state,
        ) || times_out_to(def, state)),
        validate::reach_findings(id, def, initial)(state, s).len() <= 1,
        validate::reach_findings(id, def, initial)(state, s).len() == 1
            ==> validate::reach_findings(id, def, initial)(state, s)[0] is Warning,
{
    lemma_definition_edges(def, None);
    lemma_reachable_reached(
        validate::definition_edges(def, None),
        leads(def),
        initial,
        state,
    );
}

/// What a state that is reached leads to is reached, and no warning is given about it: the
/// target of a transition, and the target of each of its branches.
pub proof fn law_targets_are_reached(
    id: Seq<char>,
    def: Json,
    initial: Seq<char>,
    i: int,
    j: int,
    k: int,
    to: Seq<char>,
    s: Json,
)
    requires
        0 <= i < def.entries_at("states"@).len(),
        0 <= j < transitions_at(def, i).len(),
        transitions_at(def, i)[j].1.str_at("target"@) == Some(to) || (0 <= k < transitions_at(
            def,
            i,
        )[j].1.items_at("branches"@).len() && transitions_at(def, i)[j].1.items_at(
            "branches"@,
        )[k].str_at("target"@) == Some(to)),
        reached(leads(def), initial, def.entries_at("states"@)[i].0),
    ensures
        reached(leads(def), initial, to),
        validate::reach_findings(id, def, initial)(to, s).len() == 0,
{
    let from = def.entries_at("states"@)[i].0;
    assert(leads_at(def, i, j, from, to));
    assert(leads(def)(from, to));
    lemma_one_more(leads(def), initial, from, to);
    law_warned_only_if_not_reached(id, def, initial, to, s);
}

/// The initial state is reached without a step.
pub proof fn law_initial_state_is_reached(def: Json, initial: Seq<char>)
    ensures
        reached(leads(def), initial, initial),
        reached(moves(def), initial, initial),
{
    let path = seq![initial];
    assert(way(leads(def), path) && way(moves(def), path));
    assert(path[0] == initial && path.last() == initial);
}

pub proof fn lemma_over_nothing(
    e: Seq<(Seq<char>, Json)>,
    n: int,
    f: spec_fn(Seq<char>, Json) -> Seq<DiagnosticView>,
)
    requires
        0 <= n <= e.len(),
    ensures
        validate_rules::over(e, n, f).len() == 0 <==> forall|i: int|
            0 <= i < n ==> f((#[trigger] e[i]).0, e[i].1).len() == 0,
    decreases n,
{
    if n > 0 {
        lemma_over_nothing(e, n - 1, f);
        if forall|i: int| 0 <= i < n ==> f((#[trigger] e[i]).0, e[i].1).len() == 0 {
            assert(f(e[n - 1].0, e[n - 1].1).len() == 0);
        }
    }
}

/// The check of a whole definition says nothing exactly where every state is reached.
pub proof fn law_reachability_of_all_states(id: Seq<char>, def: Json, initial: Seq<char>)
    ensures
        validate_rules::over_entries(
            def,
            "states"@,
            validate::reach_findings(id, def, initial),
        ).len() == 0 <==> forall|i: int|
            0 <= i < def.entries_at("states"@).len() ==> reached(
                leads(def),
                initial,
                (#[trigger] def.entries_at("states"@)[i]).0,
            ) || times_out_to(def, def.entries_at("states"@)[i].0),
{
    let e = def.entries_at("states"@);
    let f = validate::reach_findings(id, def, initial);
    lemma_over_nothing(e, e.len() as int, f);
    assert forall|i: int| 0 <= i < e.len() implies (f((#[trigger] e[i]).0, e[i].1).len() == 0
        <==> (reached(leads(def), initial, e[i].0) || times_out_to(def, e[i].0))) by {
        law_warned_only_if_not_reached(id, def, initial, e[i].0, e[i].1);
    }
}

/// A slot counts as available in a state exactly where it is written on the way into some
/// state from which moves lead there: by the initial context, by an output of a transition,
/// along its target and along each of its branches, or by an entry action.
pub proof fn law_slots_are_available_where_written(
    def: Json,
    initial: Seq<char>,
    slot: Seq<char>,
    state: Seq<char>,
)
    ensures
        validate::slot_check(def, initial).available(slot, state) <==> exists|origin: Seq<char>|
            written_into(def, initial, slot, origin) && #[trigger] reached(
                moves(def),
                origin,
                state,
            ),
{
    let timeout = validate::timeout_target(def);
    let edges = validate::definition_edges(def, timeout);
    let seed = validate::seed_slots(def, initial);
    lemma_definition_edges(def, timeout);
    lemma_moves_without_timeout(def);
    assert(draws(edges, moves(def)));
    lemma_keyed(def.entries_at("initialContext"@), slot);
    lemma_entry_slots(def, initial, slot);
    lemma_key_sum(
        validate::keys(def.entries_at("initialContext"@)),
        validate::entry_slots(Json::Object(def.entries_at("states"@)), initial),
        slot,
    );
    assert forall|origin: Seq<char>| #[trigger] written_into(def, initial, slot, origin)
        == graph::writes_into(edges, initial, seed, slot, origin) by {
        if exists|p: int|
            0 <= p < edges.len() && (#[trigger] edges[p]).to == origin && edges[p].keys.contains(
                slot,
            ) && graph::reachable(edges, seq![initial], edges[p].from) {
            let p = choose|p: int|
                0 <= p < edges.len() && (#[trigger] edges[p]).to == origin
                    && edges[p].keys.contains(slot) && graph::reachable(
                    edges,
                    seq![initial],
                    edges[p].from,
                );
            lemma_reachable_reached(edges, moves(def), initial, edges[p].from);
            lemma_writes(def, edges[p].from, origin, slot);
        }
        if exists|from: Seq<char>|
            #[trigger] reached(moves(def), initial, from) && writes(def, from, origin, slot) {
            let from = choose|from: Seq<char>|
                #[trigger] reached(moves(def), initial, from) && writes(def, from, origin, slot);
            lemma_reachable_reached(edges, moves(def), initial, from);
            lemma_writes(def, from, origin, slot);
            let p = choose|p: int|
                0 <= p < edges.len() && (#[trigger] edges[p]).from == from && edges[p].to == origin
                    && edges[p].keys.contains(slot);
            assert(edges[p].to == origin);
        }
    }
    if graph::available(edges, initial, seed, slot, state) {
        let (n, origin) = choose|n: nat, origin: Seq<char>|
            graph::writes_into(edges, initial, seed, slot, origin) && #[trigger] graph::within(
                edges,
                seq![origin],
                state,
                n,
            );
        assert(graph::reachable(edges, seq![origin], state));
        lemma_reachable_reached(edges, moves(def), origin, state);
        assert(written_into(def, initial, slot, origin));
    }
    if exists|origin: Seq<char>|
        written_into(def, initial, slot, origin) && #[trigger] reached(moves(def), origin, state) {
        let origin = choose|origin: Seq<char>|
            written_into(def, initial, slot, origin) && #[trigger] reached(
                moves(def),
                origin,
                state,
            );
        lemma_reachable_reached(edges, moves(def), origin, state);
        let n = choose|n: nat| graph::within(edges, seq![origin], state, n);
        assert(graph::writes_into(edges, initial, seed, slot, origin) && graph::within(
            edges,
            seq![origin],
            state,
            n,
        ));
    }
}

/// Without a timeout a workflow moves by its transitions alone.
proof fn lemma_moves_without_timeout(def: Json)
    ensures
        validate::timeout_target(def) is None ==> draws(
            validate::definition_edges(def, None),
            moves(def),
        ),
{
    if validate::timeout_target(def) is None {
        lemma_definition_edges(def, None);
        let edges = validate::definition_edges(def, None);
        assert forall|i: int| 0 <= i < edges.len() implies moves(def)(
            (#[trigger] edges[i]).from,
            edges[i].to,
        ) by {
            assert(leads(def)(edges[i].from, edges[i].to));
        }
        assert forall|from: Seq<char>, to: Seq<char>| #[trigger]
            moves(def)(from, to) implies exists|i: int|
            0 <= i < edges.len() && (#[trigger] edges[i]).from == from && edges[i].to == to by {
            assert(leads(def)(from, to));
        }
    }
}

/// A slot that a transition of a reached state writes is available in the target of the
/// transition and in the targets of its branches.
pub proof fn law_outputs_are_available_after_the_step(
    def: Json,
    initial: Seq<char>,
    i: int,
    j: int,
    to: Seq<char>,
    slot: Seq<char>,
)
    requires
        0 <= i < def.entries_at("states"@).len(),
        0 <= j < transitions_at(def, i).len(),
        points_at(transitions_at(def, i)[j].1, to),
        keyed(transitions_at(def, i)[j].1.entries_at("output"@), slot),
        reached(moves(def), initial, def.entries_at("states"@)[i].0),
    ensures
        validate::slot_check(def, initial).available(slot, to),
{
    let from = def.entries_at("states"@)[i].0;
    assert(leads_at(def, i, j, from, to));
    assert(writes(def, from, to, slot));
    assert(written_into(def, initial, slot, to));
    law_initial_state_is_reached(def, to);
    law_slots_are_available_where_written(def, initial, slot, to);
}

} // verus!
