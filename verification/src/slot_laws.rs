//! What slot tables and proxy workflows are for: laws about the slots that an orchestrator
//! writes and about the transitions that exposures make up.
use crate::config_stamp;
use crate::json;
use crate::json::Json;
use crate::proxy_workflow;
use crate::slot_table;
use crate::slot_table::{SlotEntryView, SlotSourceView, TableState};
use crate::store;
use crate::text;
use crate::tier;
use crate::tier::Tier;
use vstd::prelude::*;

verus! {

// ---------------------------------------------------------------------------
// Slot tables
// ---------------------------------------------------------------------------

/// A write is in conflict exactly where the slot is there with another schema: that is one
/// more error, and the table stays as it is. Any other write is no error.
pub proof fn law_conflicting_writes_are_errors(
    s: TableState,
    host_path: Seq<char>,
    entry: SlotEntryView,
)
    ensures
        ({
            let t = slot_table::after_write(s, host_path, entry);
            match json::find(s.table, host_path) {
                Some(first) => {
                    &&& t.table == s.table
                    &&& first.schema == entry.schema ==> t.errors == s.errors
                    &&& first.schema != entry.schema ==> t.errors.len() == s.errors.len() + 1
                        && t.errors.take(s.errors.len() as int) == s.errors
                        && t.errors.last() is Error
                },
                None => t.errors == s.errors && json::find(t.table, host_path) == Some(entry),
            }
        }),
{
    let t = slot_table::after_write(s, host_path, entry);
    json::law_find_put(s.table, host_path, entry, host_path);
    if json::find(s.table, host_path) is Some {
        if t.errors.len() > s.errors.len() {
            assert(t.errors.take(s.errors.len() as int) =~= s.errors);
        }
    }
}

/// Every input of an orchestrator is a slot of the context with the schema that the last
/// declaration of its name gives it.
pub proof fn law_inputs_are_slots(inputs: Seq<(Seq<char>, Json)>, n: int, k: int)
    requires
        0 <= k < n <= inputs.len(),
        forall|h: int| k < h < n ==> (#[trigger] inputs[h]).0 != inputs[k].0,
    ensures
        json::find(slot_table::after_inputs(inputs, n), "$.context."@ + inputs[k].0) == Some(
            SlotEntryView { schema: inputs[k].1, source: SlotSourceView::Input },
        ),
    decreases n,
{
    let key = "$.context."@ + inputs[k].0;
    let last = "$.context."@ + inputs[n - 1].0;
    json::law_find_put(
        slot_table::after_inputs(inputs, n - 1),
        last,
        SlotEntryView { schema: inputs[n - 1].1, source: SlotSourceView::Input },
        key,
    );
    if k < n - 1 {
        law_inputs_are_slots(inputs, n - 1, k);
        assert(inputs[n - 1].0 != inputs[k].0);
        if key == last {
            let m = "$.context."@.len() as int;
            assert(key.skip(m) =~= inputs[k].0);
            assert(last.skip(m) =~= inputs[n - 1].0);
        }
    }
}

/// A table only grows: what stands in it stays, and errors are only added.
pub open spec fn grows(a: TableState, b: TableState) -> bool {
    &&& a.errors.len() <= b.errors.len()
    &&& forall|key: Seq<char>|
        json::find(a.table, key) is Some ==> #[trigger] json::find(b.table, key) == json::find(
            a.table,
            key,
        )
}

proof fn lemma_write_grows(s: TableState, host_path: Seq<char>, entry: SlotEntryView)
    ensures
        grows(s, slot_table::after_write(s, host_path, entry)),
        json::find(slot_table::after_write(s, host_path, entry).table, host_path) is Some,
{
    let t = slot_table::after_write(s, host_path, entry);
    assert forall|key: Seq<char>| json::find(s.table, key) is Some implies #[trigger] json::find(
        t.table,
        key,
    ) == json::find(s.table, key) by {
        slot_table::law_first_writer_stays(s, host_path, entry, key);
    }
    slot_table::law_first_writer_stays(s, host_path, entry, host_path);
}

proof fn lemma_outputs_grow(
    outputs: Seq<(Seq<char>, Json)>,
    n: int,
    snippet: Option<Json>,
    state: Seq<char>,
    s: TableState,
)
    requires
        0 <= n <= outputs.len(),
    ensures
        grows(s, slot_table::after_outputs(outputs, n, snippet, state, s)),
        forall|k: int|
            0 <= k < n ==> ((#[trigger] outputs[k]).1 is String ==> json::find(
                slot_table::after_outputs(outputs, n, snippet, state, s).table,
                outputs[k].0,
            ) is Some),
    decreases n,
{
    if n > 0 {
        lemma_outputs_grow(outputs, n - 1, snippet, state, s);
        let before = slot_table::after_outputs(outputs, n - 1, snippet, state, s);
        if let Json::String(name) = outputs[n - 1].1 {
            lemma_write_grows(
                before,
                outputs[n - 1].0,
                SlotEntryView {
                    schema: match snippet {
                        Some(v) => match v.get(name) {
                            Some(schema) => schema,
                            None => Json::Null,
                        },
                        None => Json::Null,
                    },
                    source: SlotSourceView::State(state),
                },
            );
        }
    }
}

proof fn lemma_transitions_grow(
    ts: Seq<(Seq<char>, Json)>,
    n: int,
    caps: Json,
    state: Seq<char>,
    s: TableState,
)
    requires
        0 <= n <= ts.len(),
    ensures
        grows(s, slot_table::after_transitions(ts, n, caps, state, s)),
        forall|j: int, k: int|
            0 <= j < n && bound_at(ts, j, k) ==> json::find(
                slot_table::after_transitions(ts, n, caps, state, s).table,
                (#[trigger] slot_table::bound_outputs(ts[j].1)->0[k]).0,
            ) is Some,
    decreases n,
{
    if n > 0 {
        lemma_transitions_grow(ts, n - 1, caps, state, s);
        let before = slot_table::after_transitions(ts, n - 1, caps, state, s);
        if let Some(outputs) = slot_table::bound_outputs(ts[n - 1].1) {
            lemma_outputs_grow(
                outputs,
                outputs.len() as int,
                caps.get(slot_table::invoked(ts[n - 1].1)),
                state,
                before,
            );
        }
    }
}

/// The output at place `k` of the transition at place `j` is bound to a slot.
pub open spec fn bound_at(ts: Seq<(Seq<char>, Json)>, j: int, k: int) -> bool {
    slot_table::bound_outputs(ts[j].1) matches Some(o) && 0 <= k < o.len() && o[k].1 is String
}

proof fn lemma_states_grow(states: Seq<(Seq<char>, Json)>, n: int, caps: Json, s: TableState)
    requires
        0 <= n <= states.len(),
    ensures
        grows(s, slot_table::after_states(states, n, caps, s)),
    decreases n,
{
    if n > 0 {
        lemma_states_grow(states, n - 1, caps, s);
        let ts = states[n - 1].1.entries_at("transitions"@);
        lemma_transitions_grow(
            ts,
            ts.len() as int,
            caps,
            states[n - 1].0,
            slot_table::after_states(states, n - 1, caps, s),
        );
    }
}

proof fn lemma_states_bind(
    states: Seq<(Seq<char>, Json)>,
    n: int,
    caps: Json,
    s: TableState,
    i: int,
    j: int,
    k: int,
)
    requires
        0 <= i < n <= states.len(),
        0 <= j < states[i].1.entries_at("transitions"@).len(),
        bound_at(states[i].1.entries_at("transitions"@), j, k),
    ensures
        json::find(
            slot_table::after_states(states, n, caps, s).table,
            slot_table::bound_outputs(states[i].1.entries_at("transitions"@)[j].1)->0[k].0,
        ) is Some,
    decreases n,
{
    let ts = states[n - 1].1.entries_at("transitions"@);
    let before = slot_table::after_states(states, n - 1, caps, s);
    lemma_transitions_grow(ts, ts.len() as int, caps, states[n - 1].0, before);
    if i < n - 1 {
        lemma_states_bind(states, n - 1, caps, s, i, j, k);
    }
}

/// Every slot to which a transition of an orchestrator binds an output of the workflow that
/// it invokes is in the table, and so is every input.
pub proof fn law_bound_outputs_are_slots(
    orchestrator: Json,
    caps: Json,
    i: int,
    j: int,
    k: int,
    transition: Json,
    exec: Json,
    uses: Json,
    outputs: Seq<(Seq<char>, Json)>,
)
    requires
        0 <= i < orchestrator.entries_at("states"@).len(),
        0 <= j < orchestrator.entries_at("states"@)[i].1.entries_at("transitions"@).len(),
        transition == orchestrator.entries_at("states"@)[i].1.entries_at("transitions"@)[j].1,
        transition.get("executor"@) == Some(exec),
        exec.str_at("kind"@) == Some("workflow"@),
        exec.get("use"@) == Some(uses),
        uses.object_at("outputs"@) == Some(outputs),
        0 <= k < outputs.len(),
        outputs[k].1 is String,
    ensures
        json::find(slot_table::table_of(orchestrator, caps).table, outputs[k].0) is Some,
        forall|key: Seq<char>|
            json::find(
                slot_table::after_inputs(
                    orchestrator.entries_at("inputs"@),
                    orchestrator.entries_at("inputs"@).len() as int,
                ),
                key,
            ) is Some ==> #[trigger] json::find(
                slot_table::table_of(orchestrator, caps).table,
                key,
            ) is Some,
{
    let inputs = orchestrator.entries_at("inputs"@);
    let states = orchestrator.entries_at("states"@);
    let start = TableState {
        table: slot_table::after_inputs(inputs, inputs.len() as int),
        errors: Seq::empty(),
    };
    assert(bound_at(states[i].1.entries_at("transitions"@), j, k));
    lemma_states_bind(states, states.len() as int, caps, start, i, j, k);
    lemma_states_grow(states, states.len() as int, caps, start);
}

// ---------------------------------------------------------------------------
// Proxy workflows
// ---------------------------------------------------------------------------

proof fn lemma_exposure_words()
    ensures
        "title"@.len() == 5,
        "description"@.len() == 11 && "description"@[0] == 'd',
        "target"@.len() == 6 && "target"@[0] == 't',
        "actor"@.len() == 5 && "actor"@[0] == 'a',
        "title"@[0] == 't',
        "inputSchema"@.len() == 11 && "inputSchema"@[0] == 'i',
        "guards"@.len() == 6 && "guards"@[0] == 'g',
        "executor"@.len() == 8,
        "reliability"@.len() == 11 && "reliability"@[0] == 'r',
        "output"@.len() == 6 && "output"@[0] == 'o',
{
    reveal_strlit("title");
    reveal_strlit("description");
    reveal_strlit("target");
    reveal_strlit("actor");
    reveal_strlit("inputSchema");
    reveal_strlit("guards");
    reveal_strlit("executor");
    reveal_strlit("reliability");
    reveal_strlit("output");
}

/// The transition of an exposure runs its executor behind its guards, with its schema, its
/// reliability and its title, or its name for one; an agent takes it, and its output is kept
/// as the last result.
pub proof fn law_exposures_are_transitions(ex: Json, name: Seq<char>)
    ensures
        ({
            let t = proxy_workflow::exposure_transition(ex, name);
            &&& t.get("actor"@) == Some(Json::String("agent"@))
            &&& t.get("title"@) == Some(
                match ex.get("title"@) {
                    Some(v) => v,
                    None => Json::String(name),
                },
            )
            &&& t.get("description"@) == ex.get("description"@)
            &&& t.get("reliability"@) == ex.get("reliability"@)
            &&& ex.get("executor"@) is Some ==> t.get("executor"@) == ex.get("executor"@)
            &&& ex.get("executor"@) is None ==> (t.get("executor"@) matches Some(x) && x.get(
                "kind"@,
            ) == Some(Json::String("noop"@)))
            &&& ex.get("guards"@) is Some ==> t.get("guards"@) == ex.get("guards"@)
            &&& ex.get("guards"@) is None ==> t.get("guards"@) == Some(Json::Array(Seq::empty()))
            &&& ex.get("inputSchema"@) is Some ==> t.get("inputSchema"@) == ex.get("inputSchema"@)
            &&& t.get("output"@) matches Some(o) && o.get("lastResult"@) == Some(
                Json::String("$.output"@),
            )
        }),
{
    json::lemma_reads();
    lemma_exposure_words();
}

/// Every exposure with a name has its transition under that name, of several with one name
/// the last; nothing else is a transition.
pub proof fn law_every_exposure_has_its_transition(exposures: Seq<Json>, n: int, name: Seq<char>)
    requires
        0 <= n <= exposures.len(),
    ensures
        ({
            let ts = proxy_workflow::proxy_transitions(exposures, n);
            &&& ts is Object
            &&& (forall|k: int|
                0 <= k < n ==> (#[trigger] exposures[k]).str_at("name"@) != Some(name)) ==> ts.get(
                name,
            ) is None
            &&& forall|k: int|
                0 <= k < n && (#[trigger] exposures[k]).str_at("name"@) == Some(name) && (forall|
                    h: int,
                |
                    k < h < n ==> (#[trigger] exposures[h]).str_at("name"@) != Some(name))
                    ==> ts.get(name) == Some(
                    proxy_workflow::exposure_transition(exposures[k], name),
                )
        }),
    decreases n,
{
    json::lemma_reads();
    if n > 0 {
        law_every_exposure_has_its_transition(exposures, n - 1, name);
        if exposures[n - 1].str_at("name"@) != Some(name) {
            assert forall|k: int|
                0 <= k < n && (#[trigger] exposures[k]).str_at("name"@) == Some(name) && (forall|
                    h: int,
                |
                    k < h < n ==> (#[trigger] exposures[h]).str_at("name"@) != Some(
                        name,
                    )) implies proxy_workflow::proxy_transitions(exposures, n).get(name) == Some(
                proxy_workflow::exposure_transition(exposures[k], name),
            ) by {
                assert(k < n - 1);
            }
        }
    }
}

/// The proxy workflow begins in its only state, which has the transitions of the exposures.
pub proof fn law_proxy_workflow(exposures: Seq<Json>)
    ensures
        ({
            let w = proxy_workflow::proxy_workflow(exposures);
            &&& w.get("initialState"@) matches Some(Json::String(s)) && (w.get("states"@)
                matches Some(states) && (states.get(s) matches Some(state) && state.get(
                "transitions"@,
            ) == Some(proxy_workflow::proxy_transitions(exposures, exposures.len() as int))))
            &&& w.get("version"@) == Some(Json::String("0"@))
        }),
{
    json::lemma_reads();
    reveal_strlit("version");
    reveal_strlit("description");
    reveal_strlit("initialState");
    reveal_strlit("states");
    reveal_strlit("transitions");
    assert("version"@.len() == 7 && "description"@.len() == 11 && "initialState"@.len() == 12
        && "states"@.len() == 6 && "transitions"@.len() == 11 && "transitions"@[0] == 't'
        && "description"@[0] == 'd');
}

// ---------------------------------------------------------------------------
// Definitions
// ---------------------------------------------------------------------------

proof fn lemma_overlaid(o: Json, e: Seq<(Seq<char>, Json)>, n: int, key: Seq<char>)
    requires
        o is Object,
        0 <= n <= e.len(),
    ensures
        config_stamp::overlaid(o, e, n) is Object,
        (forall|k: int| 0 <= k < n ==> (#[trigger] e[k]).0 != key) ==> config_stamp::overlaid(
            o,
            e,
            n,
        ).get(key) == o.get(key),
        forall|k: int|
            0 <= k < n && (#[trigger] e[k]).0 == key && (forall|h: int|
                k < h < n ==> (#[trigger] e[h]).0 != key) ==> config_stamp::overlaid(o, e, n).get(
                key,
            ) == Some(e[k].1),
    decreases n,
{
    json::lemma_reads();
    if n > 0 {
        lemma_overlaid(o, e, n - 1, key);
        if e[n - 1].0 != key {
            assert forall|k: int|
                0 <= k < n && (#[trigger] e[k]).0 == key && (forall|h: int|
                    k < h < n ==> (#[trigger] e[h]).0 != key) implies config_stamp::overlaid(
                o,
                e,
                n,
            ).get(key) == Some(e[k].1) by {
                assert(k < n - 1);
            }
        }
    }
}

/// The definitions of a configuration are its workflows under their own ids, and the proxy
/// workflow where something is exposed.
pub proof fn law_definitions_are_the_workflows(config: Json, k: int)
    requires
        0 <= k < config.entries_at("workflows"@).len(),
        config.entries_at("workflows"@)[k].0 != proxy_workflow::DEFAULT_PROXY_WORKFLOW_ID@,
        forall|h: int|
            k < h < config.entries_at("workflows"@).len() ==> (#[trigger] config.entries_at(
                "workflows"@,
            )[h]).0 != config.entries_at("workflows"@)[k].0,
    ensures
        store::definitions(config).get(config.entries_at("workflows"@)[k].0) == Some(
            config.entries_at("workflows"@)[k].1,
        ),
        proxy_workflow::exposures_of(config) matches Some(s) ==> (s.len() > 0
            ==> store::definitions(config).get(proxy_workflow::DEFAULT_PROXY_WORKFLOW_ID@) == Some(
            proxy_workflow::proxy_workflow(s),
        )),
{
    json::lemma_reads();
    let e = config.entries_at("workflows"@);
    lemma_overlaid(Json::empty(), e, e.len() as int, e[k].0);
    assert(e[k].0 == config.entries_at("workflows"@)[k].0);
}

/// The tier of a definition is what its name begins with, whatever its namespace is.
pub proof fn law_tier_is_in_the_name(namespace: Seq<char>, name: Seq<char>)
    requires
        !name.contains('/'),
    ensures
        tier::tier_of(namespace + seq!['/'] + name) == tier::tier_of(name),
        tier::tier_of(name) == Tier::Cap <==> "cap."@.is_prefix_of(name),
        tier::tier_of(name) == Tier::Flow <==> "flow."@.is_prefix_of(name),
{
    crate::mapping_laws::lemma_split_more(Seq::empty(), name, '/');
    crate::mapping_laws::lemma_split_at(namespace, '/');
    crate::mapping_laws::lemma_split_more(namespace + seq!['/'], name, '/');
    assert(namespace.push('/') =~= namespace + seq!['/']);
    assert(Seq::<char>::empty() + name =~= name);
    assert(text::split(name, '/').last() == name);
    assert(text::split(namespace + seq!['/'] + name, '/').last() == name);
    reveal_strlit("cap.");
    reveal_strlit("flow.");
    if "cap."@.is_prefix_of(name) && "flow."@.is_prefix_of(name) {
        assert(name.take(4)[0] == 'c');
        assert(name.take(5)[0] == 'f');
    }
}

} // verus!
