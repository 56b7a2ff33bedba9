//! When the rules on capabilities and orchestrators say something: exact laws, read from the
//! definitions.
use crate::diagnostic::DiagnosticView;
use crate::json;
use crate::json::Json;
use crate::lexicon_laws;
use crate::mapping_laws;
use crate::runtime_links;
use crate::slot_table;
use crate::text;
use crate::tier;
use crate::tier::Tier;
use crate::validate_rules;
use crate::validate_rules::{CapVerbCategory, InputsView, Probe};
use crate::validate_steps;
use vstd::prelude::*;

verus! {

/// Every finding is an error.
pub open spec fn all_errors(f: Seq<DiagnosticView>) -> bool {
    forall|i: int| 0 <= i < f.len() ==> (#[trigger] f[i]) is Error
}

// ---------------------------------------------------------------------------
// Capabilities
// ---------------------------------------------------------------------------

/// A capability has to have a verb, and one of those that are known.
pub proof fn law_verbs_are_known(
    id: Seq<char>,
    def: Json,
    verbs: Seq<(Seq<char>, CapVerbCategory)>,
)
    ensures
        ({
            let f = validate_rules::verb_findings(id, def, verbs);
            &&& f.len() == 0 <==> (def.str_at("verb"@) matches Some(verb) && exists|i: int|
                0 <= i < verbs.len() && (#[trigger] verbs[i]).0 == verb)
            &&& all_errors(f)
        }),
{
    if let Some(verb) = def.str_at("verb"@) {
        lexicon_laws::lemma_find_some(verbs, verb);
    }
}

/// What stands before the last piece is not changed by what is appended.
proof fn lemma_split_front(s: Seq<char>, t: Seq<char>, c: char, i: int)
    requires
        0 <= i < text::split(s, c).len() - 1,
    ensures
        text::split(s + t, c).len() >= text::split(s, c).len(),
        text::split(s + t, c)[i] == text::split(s, c)[i],
    decreases t.len(),
{
    if t.len() == 0 {
        assert(s + t =~= s);
    } else {
        lemma_split_front(s, t.drop_last(), c, i);
        assert((s + t).drop_last() =~= s + t.drop_last());
    }
}

/// The id of a capability names its verb: `cap.<verb>.<name>` is accepted exactly where the
/// declared verb is that of the id.
pub proof fn law_capability_ids_name_their_verb(
    id: Seq<char>,
    def: Json,
    verb: Seq<char>,
    name: Seq<char>,
)
    requires
        tier::stem(id) == "cap"@ + seq!['.'] + verb + seq!['.'] + name,
        !verb.contains('.'),
    ensures
        ({
            let f = validate_rules::cap_id_findings(id, def);
            &&& f.len() == 0 <==> (def.str_at("verb"@) matches Some(v) ==> v == verb)
            &&& all_errors(f)
        }),
{
    reveal_strlit("cap");
    let cap = "cap"@;
    let none = Seq::<char>::empty();
    assert(!cap.contains('.')) by {
        assert(cap =~= seq!['c', 'a', 'p']);
    }
    mapping_laws::lemma_split_more(none, cap, '.');
    assert(none + cap =~= cap);
    let a = text::split(cap, '.');
    assert(a =~= seq![cap]);
    mapping_laws::lemma_split_at(cap, '.');
    assert(cap.push('.') =~= cap + seq!['.']);
    mapping_laws::lemma_split_more(cap + seq!['.'], verb, '.');
    let s = cap + seq!['.'] + verb;
    assert(none + verb =~= verb);
    assert(text::split(s, '.') =~= seq![cap, verb]);
    mapping_laws::lemma_split_at(s, '.');
    assert(s.push('.') =~= s + seq!['.']);
    let u = s + seq!['.'];
    assert(text::split(u, '.') =~= seq![cap, verb, none]);
    lemma_split_front(u, name, '.', 0);
    lemma_split_front(u, name, '.', 1);
}

/// A block of a snippet is sound: a mapping from names to schemas.
pub open spec fn sound_block(snippet: Json, key: Seq<char>) -> bool {
    snippet.get(key) matches Some(Json::Object(e)) && forall|i: int|
        0 <= i < e.len() ==> (#[trigger] e[i]).1 is Object
}

proof fn lemma_snippet_block(id: Seq<char>, snippet: Json, key: Seq<char>)
    ensures
        validate_rules::snippet_block(id, snippet, key).len() == 0 <==> sound_block(snippet, key),
{
    if let Some(Json::Object(e)) = snippet.get(key) {
        let f = validate_rules::snippet_entry(id, key);
        validate_steps::lemma_over_nothing(e, e.len() as int, f);
        assert forall|i: int| 0 <= i < e.len() implies (f((#[trigger] e[i]).0, e[i].1).len() == 0
            <==> e[i].1 is Object) by {}
    }
}

/// A capability has to declare a snippet with inputs and outputs, each a mapping from names to
/// schemas.
pub proof fn law_snippets_are_declared(id: Seq<char>, def: Json)
    ensures
        validate_rules::snippet_findings(id, def).len() == 0 <==> (def.get("snippet"@)
            matches Some(s) && s is Object && sound_block(s, "inputs"@) && sound_block(
            s,
            "outputs"@,
        )),
{
    if let Some(s) = def.get("snippet"@) {
        lemma_snippet_block(id, s, "inputs"@);
        lemma_snippet_block(id, s, "outputs"@);
    }
}

proof fn lemma_kinds(e: Seq<(Seq<char>, Json)>, n: int, kind: Seq<char>)
    requires
        0 <= n <= e.len(),
    ensures
        validate_rules::kinds_of(e, n).contains(kind) <==> exists|i: int|
            0 <= i < n && runs((#[trigger] e[i]).1, kind),
    decreases n,
{
    let all = validate_rules::kinds_of(e, n);
    if n > 0 {
        lemma_kinds(e, n - 1, kind);
        let before = validate_rules::kinds_of(e, n - 1);
        if before.contains(kind) {
            let p = choose|p: int| 0 <= p < before.len() && before[p] == kind;
            assert(all[p] == kind);
        }
        if all.contains(kind) && !before.contains(kind) {
            let p = choose|p: int| 0 <= p < all.len() && all[p] == kind;
            if p < before.len() {
                assert(before[p] == kind);
            }
            assert(runs(e[n - 1].1, kind));
        }
        if runs(e[n - 1].1, kind) {
            assert(all[before.len() as int] == kind);
        }
    }
}

/// A transition runs an executor of a kind.
pub open spec fn runs(t: Json, kind: Seq<char>) -> bool {
    t.get("executor"@) matches Some(x) && x.str_at("kind"@) == Some(kind)
}

/// Some transition runs an executor of a kind.
pub open spec fn some_runs(e: Seq<(Seq<char>, Json)>, kind: Seq<char>) -> bool {
    exists|i: int| 0 <= i < e.len() && runs((#[trigger] e[i]).1, kind)
}

/// The transitions that leave the initial state of a capability fit its verb: a cognitive one
/// asks a tool or surfaces skills, a deterministic one runs a script or a tool, a gate asks a
/// human and a coordinator a tool.
pub proof fn law_executors_fit_the_verb(
    id: Seq<char>,
    def: Json,
    verbs: Seq<(Seq<char>, CapVerbCategory)>,
    verb: Seq<char>,
    initial: Seq<char>,
    category: CapVerbCategory,
    e: Seq<(Seq<char>, Json)>,
)
    requires
        def.str_at("verb"@) == Some(verb),
        def.str_at("initialState"@) == Some(initial),
        json::find(verbs, verb) == Some(category),
        runtime_links::transitions_of(def, initial) == Some(e),
        e.len() > 0,
    ensures
        ({
            let f = validate_rules::shape_findings(id, def, verbs);
            &&& f.len() == 0 <==> match category {
                CapVerbCategory::Cognitive => some_runs(e, "mcp"@) || some_runs(e, "noop"@),
                CapVerbCategory::Deterministic => some_runs(e, "script"@) || some_runs(e, "mcp"@),
                CapVerbCategory::Coordination => {
                    &&& verb == "gate"@ ==> exists|i: int|
                        0 <= i < e.len() && ((#[trigger] e[i]).1.str_at("actor"@) == Some("human"@)
                            || e[i].1.str_at("purpose"@) == Some("ask"@))
                    &&& verb == "coordinate"@ ==> some_runs(e, "mcp"@)
                },
            }
            &&& all_errors(f)
        }),
{
    let n = e.len() as int;
    lemma_kinds(e, n, "mcp"@);
    lemma_kinds(e, n, "noop"@);
    lemma_kinds(e, n, "script"@);
    reveal_strlit("gate");
    reveal_strlit("coordinate");
    assert("gate"@.len() == 4 && "coordinate"@.len() == 10);
    assert forall|i: int| 0 <= i < e.len() implies validate_rules::asks_human((#[trigger] e[i]).1)
        == (e[i].1.str_at("actor"@) == Some("human"@) || e[i].1.str_at("purpose"@) == Some(
        "ask"@,
    )) by {}
}

/// What a transition is asked for.
pub open spec fn answers(p: Probe, t: Json) -> bool {
    match p {
        Probe::Invocation => runs(t, "workflow"@) && t.get("executor"@)->0.str_at("definitionId"@)
            is Some,
        Probe::Orchestrator => t.get("executor"@) matches Some(x) && (x.str_at("definitionId"@)
            matches Some(id) && tier::tier_of(id) == Tier::Flow),
    }
}

proof fn lemma_first_in(p: Probe, e: Seq<(Seq<char>, Json)>, i: int)
    requires
        0 <= i <= e.len(),
    ensures
        validate_rules::first_in(p, e, i) is None <==> forall|k: int|
            i <= k < e.len() ==> !answers(p, (#[trigger] e[k]).1),
    decreases e.len() - i,
{
    if i < e.len() {
        assert((validate_rules::probed(p, e[i].1) is Some) == answers(p, e[i].1));
        if !answers(p, e[i].1) {
            lemma_first_in(p, e, i + 1);
        }
    }
}

/// Some transition of a definition answers a question.
pub open spec fn some_answers(p: Probe, def: Json) -> bool {
    exists|i: int, j: int|
        0 <= i < def.entries_at("states"@).len() && 0 <= j < validate_steps::transitions_at(
            def,
            i,
        ).len() && answers(p, (#[trigger] validate_steps::transitions_at(def, i)[j]).1)
}

proof fn lemma_first_of(p: Probe, def: Json, i: int)
    requires
        0 <= i <= def.entries_at("states"@).len(),
    ensures
        validate_rules::first_of(p, def.entries_at("states"@), i) is None <==> forall|
            k: int,
            j: int,
        |
            i <= k < def.entries_at("states"@).len() && 0 <= j < validate_steps::transitions_at(
                def,
                k,
            ).len() ==> !answers(p, (#[trigger] validate_steps::transitions_at(def, k)[j]).1),
    decreases def.entries_at("states"@).len() - i,
{
    let states = def.entries_at("states"@);
    if i < states.len() {
        let ts = states[i].1.entries_at("transitions"@);
        assert(ts == validate_steps::transitions_at(def, i));
        lemma_first_in(p, ts, 0);
        lemma_first_of(p, def, i + 1);
        if validate_rules::first_in(p, ts, 0) is Some {
            let j = choose|j: int| 0 <= j < ts.len() && answers(p, (#[trigger] ts[j]).1);
            assert(answers(p, validate_steps::transitions_at(def, i)[j].1));
        } else {
            assert forall|k: int, j: int|
                validate_rules::first_of(p, states, i + 1) is None && i <= k < states.len() && 0
                    <= j < validate_steps::transitions_at(def, k).len() implies !answers(
                p,
                (#[trigger] validate_steps::transitions_at(def, k)[j]).1,
            ) by {
                if k == i {
                    assert(!answers(p, ts[j].1));
                }
            }
        }
    }
}

/// A capability is a leaf: it is found fault with exactly where one of its transitions invokes
/// a workflow. An orchestrator invokes capabilities only: it is found fault with exactly
/// where one of its transitions names an orchestrator.
pub proof fn law_nesting(id: Seq<char>, def: Json)
    ensures
        validate_rules::cap_nesting_findings(id, def).len() == 0 <==> !some_answers(
            Probe::Invocation,
            def,
        ),
        validate_rules::flow_nesting_findings(id, def).len() == 0 <==> !some_answers(
            Probe::Orchestrator,
            def,
        ),
        all_errors(validate_rules::cap_nesting_findings(id, def)),
        all_errors(validate_rules::flow_nesting_findings(id, def)),
{
    lemma_first_of(Probe::Invocation, def, 0);
    lemma_first_of(Probe::Orchestrator, def, 0);
}

// ---------------------------------------------------------------------------
// Orchestrators
// ---------------------------------------------------------------------------

/// An orchestrator declares neither a snippet nor a verb.
pub proof fn law_orchestrators_declare_no_snippet(id: Seq<char>, def: Json)
    ensures
        validate_rules::flow_snippet_findings(id, def).len() == 0 <==> def.get("snippet"@) is None,
        validate_rules::flow_verb_findings(id, def).len() == 0 <==> def.get("verb"@) is None,
        all_errors(validate_rules::flow_snippet_findings(id, def)),
        all_errors(validate_rules::flow_verb_findings(id, def)),
{
}

/// The id of an orchestrator is `flow.<name>`, with a name.
pub proof fn law_orchestrator_ids(id: Seq<char>, name: Seq<char>)
    requires
        tier::stem(id) == "flow"@ + seq!['.'] + name,
        !name.contains('.'),
    ensures
        validate_rules::flow_id_findings(id).len() == 0 <==> name.len() > 0,
        all_errors(validate_rules::flow_id_findings(id)),
{
    reveal_strlit("flow");
    let flow = "flow"@;
    let none = Seq::<char>::empty();
    assert(!flow.contains('.')) by {
        assert(flow =~= seq!['f', 'l', 'o', 'w']);
    }
    mapping_laws::lemma_split_more(none, flow, '.');
    assert(none + flow =~= flow);
    assert(text::split(flow, '.') =~= seq![flow]);
    mapping_laws::lemma_split_at(flow, '.');
    assert(flow.push('.') =~= flow + seq!['.']);
    mapping_laws::lemma_split_more(flow + seq!['.'], name, '.');
    assert(none + name =~= name);
    assert(text::split(flow + seq!['.'] + name, '.') =~= seq![flow, name]);
}

// ---------------------------------------------------------------------------
// Bindings
// ---------------------------------------------------------------------------

/// A bound output: its key is a slot of the context, of one segment, and its value the name of
/// an output.
pub open spec fn sound_output(path: Seq<char>, v: Json) -> bool {
    &&& v is String
    &&& exists|slot: Seq<char>|
        path == "$.context."@ + slot && #[trigger] validate_rules::is_slot_name(slot)
}

/// A binding is sound: a mapping whose inputs and outputs are mappings, with sound outputs.
pub open spec fn sound_use(u: Json) -> bool {
    &&& u is Object
    &&& u.get("inputs"@) matches Some(b) ==> b is Object
    &&& u.get("outputs"@) matches Some(b) ==> b is Object
    &&& forall|k: int|
        0 <= k < u.entries_at("outputs"@).len() ==> sound_output(
            (#[trigger] u.entries_at("outputs"@)[k]).0,
            u.entries_at("outputs"@)[k].1,
        )
}

proof fn lemma_slot_tail(path: Seq<char>)
    ensures
        validate_rules::slot_tail(path) is Some <==> exists|slot: Seq<char>|
            path == "$.context."@ + slot && #[trigger] validate_rules::is_slot_name(slot),
{
    let pre = "$.context."@;
    if pre.is_prefix_of(path) {
        let slot = path.skip(pre.len() as int);
        assert(path =~= pre + slot);
    }
    if exists|slot: Seq<char>|
        path == pre + slot && #[trigger] validate_rules::is_slot_name(slot) {
        let slot = choose|slot: Seq<char>|
            path == pre + slot && #[trigger] validate_rules::is_slot_name(slot);
        assert(path.take(pre.len() as int) =~= pre);
        assert(path.skip(pre.len() as int) =~= slot);
    }
}

/// The binding of a transition that invokes a workflow is found fault with exactly where it is
/// not sound, or where it is missing and a capability is invoked.
pub proof fn law_bindings(id: Seq<char>, state: Seq<char>, t: Seq<char>, d: Json)
    ensures
        !runs(d, "workflow"@) ==> validate_rules::use_transition(id)(state, t, d).len() == 0,
        runs(d, "workflow"@) ==> ({
            let x = d.get("executor"@)->0;
            validate_rules::use_transition(id)(state, t, d).len() == 0 <==> match x.get("use"@) {
                Some(u) => sound_use(u),
                None => !(x.str_at("definitionId"@) matches Some(c) && tier::tier_of(c)
                    == Tier::Cap),
            }
        }),
{
    if runs(d, "workflow"@) {
        let x = d.get("executor"@)->0;
        if let Some(u) = x.get("use"@) {
            let at = validate_rules::at_transition(id, state, t);
            let e = u.entries_at("outputs"@);
            let f = validate_rules::use_output(at);
            validate_steps::lemma_over_nothing(e, e.len() as int, f);
            assert forall|k: int| 0 <= k < e.len() implies (f((#[trigger] e[k]).0, e[k].1).len()
                == 0 <==> sound_output(e[k].0, e[k].1)) by {
                lemma_slot_tail(e[k].0);
            }
        }
    }
}

/// A pinned contract is found fault with exactly where the loaded one is another; one that is
/// not pinned exactly where the capability is stable. Both are errors.
pub proof fn law_contracts_are_pinned(
    id: Seq<char>,
    workflows: Json,
    hashes: Json,
    state: Seq<char>,
    t: Seq<char>,
    d: Json,
    target: Seq<char>,
    def: Json,
    actual: Seq<char>,
)
    requires
        runs(d, "workflow"@),
        d.get("executor"@)->0.str_at("definitionId"@) == Some(target),
        tier::tier_of(target) == Tier::Cap,
        workflows.get(target) == Some(def),
        def.get("snippet"@) is Some,
        hashes.str_at(target) == Some(actual),
    ensures
        ({
            let f = validate_rules::pin_transition(id, workflows, hashes)(state, t, d);
            &&& f.len() == 0 <==> match d.get("executor"@)->0.str_at("expects_contract_hash"@) {
                Some(pin) => pin == actual,
                None => def.str_at("lifecycle"@) != Some("stable"@),
            }
            &&& all_errors(f)
        }),
{
    reveal_strlit("experimental");
    reveal_strlit("stable");
    assert("experimental"@.len() == 12 && "stable"@.len() == 6);
}

/// A bound input is found fault with exactly where it reads a slot of the context that is
/// neither declared nor written.
pub proof fn law_bound_inputs_are_written(
    table: Seq<(Seq<char>, slot_table::SlotEntryView)>,
    id: Seq<char>,
    state: Seq<char>,
    t: Seq<char>,
    d: Json,
    u: Json,
    x: Json,
)
    requires
        d.get("executor"@) == Some(x),
        x.get("use"@) == Some(u),
    ensures
        validate_rules::slot_transition(table, id)(state, t, d).len() == 0 <==> forall|k: int|
            0 <= k < u.entries_at("inputs"@).len() ==> ((#[trigger] u.entries_at("inputs"@)[k]).1
                matches Json::String(path) ==> ("$.context."@.is_prefix_of(path) ==> json::find(
                table,
                path,
            ) is Some)),
{
    let e = u.entries_at("inputs"@);
    let f = validate_rules::slot_input(table, id, state, t);
    validate_steps::lemma_over_nothing(e, e.len() as int, f);
    assert forall|k: int| 0 <= k < e.len() implies (f((#[trigger] e[k]).0, e[k].1).len() == 0 <==> (
    e[k].1 matches Json::String(path) ==> ("$.context."@.is_prefix_of(path) ==> json::find(
        table,
        path,
    ) is Some))) by {}
}

/// Every transition of every state is looked at.
pub proof fn law_every_transition_is_checked(
    def: Json,
    f: spec_fn(Seq<char>, Seq<char>, Json) -> Seq<DiagnosticView>,
)
    ensures
        validate_rules::over_transitions(def, f).len() == 0 <==> forall|i: int, j: int|
            0 <= i < def.entries_at("states"@).len() && 0 <= j < validate_steps::transitions_at(
                def,
                i,
            ).len() ==> f(
                def.entries_at("states"@)[i].0,
                (#[trigger] validate_steps::transitions_at(def, i)[j]).0,
                validate_steps::transitions_at(def, i)[j].1,
            ).len() == 0,
{
    let e = def.entries_at("states"@);
    let g = validate_rules::in_state(f);
    validate_steps::lemma_over_nothing(e, e.len() as int, g);
    assert forall|i: int| 0 <= i < e.len() implies (g((#[trigger] e[i]).0, e[i].1).len() == 0
        <==> forall|j: int|
        0 <= j < validate_steps::transitions_at(def, i).len() ==> f(
            e[i].0,
            (#[trigger] validate_steps::transitions_at(def, i)[j]).0,
            validate_steps::transitions_at(def, i)[j].1,
        ).len() == 0) by {
        let ts = validate_steps::transitions_at(def, i);
        let h = validate_rules::in_transition(f, e[i].0);
        validate_steps::lemma_over_nothing(ts, ts.len() as int, h);
        assert forall|j: int| 0 <= j < ts.len() implies h((#[trigger] ts[j]).0, ts[j].1).len()
            == f(e[i].0, ts[j].0, ts[j].1).len() by {}
    }
    if validate_rules::over_transitions(def, f).len() == 0 {
        assert forall|i: int, j: int|
            0 <= i < e.len() && 0 <= j < validate_steps::transitions_at(def, i).len() implies f(
            e[i].0,
            (#[trigger] validate_steps::transitions_at(def, i)[j]).0,
            validate_steps::transitions_at(def, i)[j].1,
        ).len() == 0 by {
            assert(g(e[i].0, e[i].1).len() == 0);
        }
    }
}

/// The rules of a tier hold exactly where each of them does: those of capabilities for
/// capabilities, those of orchestrators for orchestrators, and the bindings and contracts of
/// all of them.
pub proof fn law_rules_of_the_tier(
    id: Seq<char>,
    def: Json,
    workflows: Json,
    caps: Json,
    inputs: InputsView,
)
    ensures
        validate_rules::tier_findings(id, def, workflows, caps, inputs).len() == 0 <==> {
            &&& inputs.constraint_errors.str_at(id) is None
            &&& tier::tier_of(id) == Tier::Cap ==> validate_rules::verb_findings(
                id,
                def,
                inputs.verbs,
            ).len() == 0 && validate_rules::cap_id_findings(id, def).len() == 0
                && validate_rules::snippet_findings(id, def).len() == 0
                && validate_rules::shape_findings(id, def, inputs.verbs).len() == 0
                && validate_rules::cap_nesting_findings(id, def).len() == 0
            &&& tier::tier_of(id) == Tier::Flow ==> validate_rules::flow_id_findings(id).len() == 0
                && validate_rules::flow_snippet_findings(id, def).len() == 0
                && validate_rules::flow_verb_findings(id, def).len() == 0
                && validate_rules::flow_nesting_findings(id, def).len() == 0
                && validate_rules::slot_findings(id, def, caps).len() == 0
            &&& validate_rules::over_transitions(def, validate_rules::use_transition(id)).len() == 0
            &&& validate_rules::over_transitions(
                def,
                validate_rules::pin_transition(id, workflows, inputs.contract_hashes),
            ).len() == 0
        },
{
}

/// The declared outputs that bindings are checked against are those of the capabilities.
pub proof fn law_declared_outputs(e: Seq<(Seq<char>, Json)>, n: int, k: int, s: Json, o: Json)
    requires
        0 <= k < n <= e.len(),
        tier::tier_of(e[k].0) == Tier::Cap,
        e[k].1.get("snippet"@) == Some(s),
        s.get("outputs"@) == Some(o),
        forall|h: int| k < h < n ==> (#[trigger] e[h]).0 != e[k].0,
    ensures
        validate_rules::snippet_outputs(e, n) is Object,
        validate_rules::snippet_outputs(e, n).get(e[k].0) == Some(o),
    decreases n,
{
    json::lemma_reads();
    lemma_outputs_object(e, n - 1);
    if k < n - 1 {
        law_declared_outputs(e, n - 1, k, s, o);
        assert(e[n - 1].0 != e[k].0);
    }
}

proof fn lemma_outputs_object(e: Seq<(Seq<char>, Json)>, n: int)
    requires
        0 <= n <= e.len(),
    ensures
        validate_rules::snippet_outputs(e, n) is Object,
    decreases n,
{
    json::lemma_reads();
    if n > 0 {
        lemma_outputs_object(e, n - 1);
    }
}

} // verus!
