//! The slots of an orchestrator: which context slots it has, of which type, and
//! where each is declared.
//!
//! A slot's type is decided where it is declared: the table is built in one pass
//! over the inputs and the states, without inference.
use crate::diagnostic;
use crate::diagnostic::{Diagnostic, DiagnosticView};
use crate::json;
use crate::json::{Json, Value};
use crate::text;
use vstd::prelude::*;

verus! {

/// Where a slot's type came from.
#[derive(Debug, Clone, PartialEq, Eq)]
pub enum SlotSource {
    /// The orchestrator's `inputs:` block.
    Input,
    /// A state that writes the slot.
    State(String),
}

/// A source as mathematical values.
pub enum SlotSourceView {
    Input,
    State(Seq<char>),
}

impl View for SlotSource {
    type V = SlotSourceView;

    open spec fn view(&self) -> SlotSourceView {
        match self {
            SlotSource::Input => SlotSourceView::Input,
            SlotSource::State(s) => SlotSourceView::State(s@),
        }
    }
}

/// A slot: its schema and where that came from.
#[derive(Debug)]
pub struct SlotEntry {
    pub schema: Value,
    pub source: SlotSource,
}

/// A slot as mathematical values.
pub struct SlotEntryView {
    pub schema: Json,
    pub source: SlotSourceView,
}

impl View for SlotEntry {
    type V = SlotEntryView;

    open spec fn view(&self) -> SlotEntryView {
        SlotEntryView { schema: self.schema@, source: self.source@ }
    }
}

/// The slots of an orchestrator, in the order of their paths.
#[derive(Debug)]
pub struct SlotTable {
    pub entries: Vec<(String, SlotEntry)>,
}

/// The rows of a table.
pub open spec fn rows(s: Seq<(String, SlotEntry)>) -> Seq<(Seq<char>, SlotEntryView)> {
    Seq::new(s.len(), |i: int| (s[i].0@, s[i].1@))
}

impl View for SlotTable {
    type V = Seq<(Seq<char>, SlotEntryView)>;

    open spec fn view(&self) -> Seq<(Seq<char>, SlotEntryView)> {
        rows(self.entries@)
    }
}

/// The slot of an optional entry.
pub open spec fn opt_entry(o: Option<&SlotEntry>) -> Option<SlotEntryView> {
    match o {
        Some(e) => Some(e@),
        None => None,
    }
}

impl Default for SlotTable {
    /// A table without slots.
    fn default() -> (r: SlotTable)
        ensures
            r@ == Seq::<(Seq<char>, SlotEntryView)>::empty(),
    {
        let r = SlotTable { entries: Vec::new() };
        assert(r@ =~= Seq::empty());
        r
    }
}

impl SlotTable {
    /// The slot at a path.
    pub fn get(&self, host_path: &str) -> (r: Option<&SlotEntry>)
        ensures
            opt_entry(r) == json::find(self@, host_path@),
    {
        let ghost e = self@;
        let mut i: usize = 0;
        assert(e.skip(0) =~= e);
        while i < self.entries.len()
            invariant
                i <= self.entries.len(),
                e == rows(self.entries@),
                json::find(e.skip(i as int), host_path@) == json::find(e, host_path@),
            decreases self.entries.len() - i,
        {
            if text::str_eq(self.entries[i].0.as_str(), host_path) {
                return Some(&self.entries[i].1);
            }
            assert(e.skip(i as int).skip(1) =~= e.skip(i + 1));
            i = i + 1;
        }
        None
    }

    /// The number of slots.
    pub fn len(&self) -> (r: usize)
        ensures
            r == self@.len(),
    {
        self.entries.len()
    }

    /// Whether there are no slots.
    pub fn is_empty(&self) -> (r: bool)
        ensures
            r == (self@.len() == 0),
    {
        self.entries.len() == 0
    }

    /// The `i`-th slot, in the order of the paths.
    pub fn row(&self, i: usize) -> (r: Option<(&str, &SlotEntry)>)
        ensures
            match r {
                Some(p) => i < self@.len() && self@[i as int] == (p.0@, p.1@),
                None => i >= self@.len(),
            },
    {
        if i < self.entries.len() {
            Some((self.entries[i].0.as_str(), &self.entries[i].1))
        } else {
            None
        }
    }

    /// Declares a slot.
    pub fn insert(&mut self, host_path: String, entry: SlotEntry)
        ensures
            final(self)@ == json::put(old(self)@, host_path@, entry@),
    {
        let ghost e = self@;
        let ghost v = entry@;
        let ghost key = host_path@;
        let mut i: usize = 0;
        assert(e.skip(0) =~= e);
        assert(e.take(0) + json::put(e, key, v) =~= json::put(e, key, v));
        while i < self.entries.len()
            invariant
                i <= self.entries.len(),
                self.entries@ == old(self).entries@,
                e == rows(self.entries@),
                entry@ == v,
                host_path@ == key,
                e.take(i as int) + json::put(e.skip(i as int), key, v) == json::put(e, key, v),
            decreases self.entries.len() - i,
        {
            let ghost rest = e.skip(i as int);
            if text::str_eq(self.entries[i].0.as_str(), host_path.as_str()) {
                self.entries.set(i, (host_path, entry));
                assert(rows(self.entries@) =~= e.take(i as int) + (seq![(key, v)] + rest.skip(1)));
                return;
            }
            if text::str_lt(host_path.as_str(), self.entries[i].0.as_str()) {
                self.entries.insert(i, (host_path, entry));
                assert(rows(self.entries@) =~= e.take(i as int) + (seq![(key, v)] + rest));
                return;
            }
            assert(rest.skip(1) =~= e.skip(i + 1));
            assert(e.take(i as int) + (seq![rest[0]] + json::put(e.skip(i + 1), key, v))
                =~= e.take(i + 1) + json::put(e.skip(i + 1), key, v));
            i = i + 1;
        }
        self.entries.push((host_path, entry));
        assert(e.take(i as int) =~= e);
        assert(rows(self.entries@) =~= e + seq![(key, v)]);
    }
}

/// What a source is called.
pub open spec fn source_text(s: SlotSourceView) -> Seq<char> {
    match s {
        SlotSourceView::Input => "the orchestrator's `inputs:` block"@,
        SlotSourceView::State(name) => "state '"@ + name + "'"@,
    }
}

/// What a source is called.
pub fn describe_source(s: &SlotSource) -> (r: String)
    ensures
        r@ == source_text(s@),
{
    match s {
        SlotSource::Input => "the orchestrator's `inputs:` block".to_owned(),
        SlotSource::State(name) => text::join3("state '", name.as_str(), "'"),
    }
}

/// Whether two schemas are the same.
pub fn schemas_equal(a: &Value, b: &Value) -> (r: bool)
    ensures
        r == (a@ == b@),
{
    a.same(b)
}

/// What is said of a slot that is written with two types.
pub open spec fn conflict_message(
    host_path: Seq<char>,
    a: SlotSourceView,
    b: SlotSourceView,
) -> Seq<char> {
    "SLOT_TYPE_CONFLICT: '"@ + host_path + "' is written by "@ + source_text(a) + " and "@
        + source_text(b) + " with structurally different schemas (V14)"@
}

/// A table under construction, and what was found on the way.
pub struct TableState {
    pub table: Seq<(Seq<char>, SlotEntryView)>,
    pub errors: Seq<DiagnosticView>,
}

/// The table after one more write: the first writer of a slot stays, and a later
/// one must agree with it.
pub open spec fn after_write(s: TableState, host_path: Seq<char>, entry: SlotEntryView) -> TableState {
    match json::find(s.table, host_path) {
        Some(existing) => if existing.schema == entry.schema {
            s
        } else {
            TableState {
                errors: s.errors + diagnostic::error(
                    conflict_message(host_path, existing.source, entry.source),
                ),
                ..s
            }
        },
        None => TableState { table: json::put(s.table, host_path, entry), ..s },
    }
}

fn insert_checked(
    table: &mut SlotTable,
    errors: &mut Vec<Diagnostic>,
    host_path: String,
    entry: SlotEntry,
)
    ensures
        (TableState { table: final(table)@, errors: diagnostic::diags(final(errors)@) })
            == after_write(
            TableState { table: old(table)@, errors: diagnostic::diags(old(errors)@) },
            host_path@,
            entry@,
        ),
{
    let conflict: Option<Vec<Diagnostic>> = match table.get(host_path.as_str()) {
        Some(existing) => {
            if schemas_equal(&existing.schema, &entry.schema) {
                return;
            }
            let a = describe_source(&existing.source);
            let b = describe_source(&entry.source);
            Some(
                diagnostic::one_error(
                    text::join7(
                        "SLOT_TYPE_CONFLICT: '",
                        host_path.as_str(),
                        "' is written by ",
                        a.as_str(),
                        " and ",
                        b.as_str(),
                        " with structurally different schemas (V14)",
                    ),
                ),
            )
        },
        None => None,
    };
    match conflict {
        Some(d) => {
            diagnostic::extend(errors, d);
        },
        None => {
            table.insert(host_path, entry);
        },
    }
}

/// The table after the first `n` inputs.
pub open spec fn after_inputs(inputs: Seq<(Seq<char>, Json)>, n: int) -> Seq<
    (Seq<char>, SlotEntryView),
>
    decreases n,
{
    if n <= 0 {
        Seq::empty()
    } else {
        json::put(
            after_inputs(inputs, n - 1),
            "$.context."@ + inputs[n - 1].0,
            SlotEntryView { schema: inputs[n - 1].1, source: SlotSourceView::Input },
        )
    }
}

/// The table after the first `n` outputs that one transition binds. `snippet` holds
/// the declared outputs of the capability.
pub open spec fn after_outputs(
    outputs: Seq<(Seq<char>, Json)>,
    n: int,
    snippet: Option<Json>,
    state: Seq<char>,
    s: TableState,
) -> TableState
    decreases n,
{
    if n <= 0 {
        s
    } else {
        let before = after_outputs(outputs, n - 1, snippet, state, s);
        match outputs[n - 1].1.as_str() {
            Some(name) => after_write(
                before,
                outputs[n - 1].0,
                SlotEntryView {
                    schema: match snippet {
                        Some(v) => match v.get(name) {
                            Some(schema) => schema,
                            None => Json::Null,
                        },
                        None => Json::Null,
                    },
                    source: SlotSourceView::State(state),
                },
            ),
            None => before,
        }
    }
}

/// The outputs that a transition binds by invoking a workflow.
pub open spec fn bound_outputs(transition: Json) -> Option<Seq<(Seq<char>, Json)>> {
    match transition.get("executor"@) {
        Some(exec) => if exec.str_at("kind"@) == Some("workflow"@) {
            match exec.get("use"@) {
                Some(u) => u.object_at("outputs"@),
                None => None,
            }
        } else {
            None
        },
        None => None,
    }
}

/// The workflow that a transition invokes; empty when it names none.
pub open spec fn invoked(transition: Json) -> Seq<char> {
    match transition.get("executor"@) {
        Some(exec) => match exec.str_at("definitionId"@) {
            Some(id) => id,
            None => Seq::empty(),
        },
        None => Seq::empty(),
    }
}

/// The table after one transition.
pub open spec fn after_transition(
    transition: Json,
    caps: Json,
    state: Seq<char>,
    s: TableState,
) -> TableState {
    match bound_outputs(transition) {
        Some(outputs) => after_outputs(
            outputs,
            outputs.len() as int,
            caps.get(invoked(transition)),
            state,
            s,
        ),
        None => s,
    }
}

/// The table after the first `n` transitions of a state.
pub open spec fn after_transitions(
    transitions: Seq<(Seq<char>, Json)>,
    n: int,
    caps: Json,
    state: Seq<char>,
    s: TableState,
) -> TableState
    decreases n,
{
    if n <= 0 {
        s
    } else {
        after_transition(
            transitions[n - 1].1,
            caps,
            state,
            after_transitions(transitions, n - 1, caps, state, s),
        )
    }
}

/// The table after the first `n` states.
pub open spec fn after_states(
    states: Seq<(Seq<char>, Json)>,
    n: int,
    caps: Json,
    s: TableState,
) -> TableState
    decreases n,
{
    if n <= 0 {
        s
    } else {
        let transitions = states[n - 1].1.entries_at("transitions"@);
        after_transitions(
            transitions,
            transitions.len() as int,
            caps,
            states[n - 1].0,
            after_states(states, n - 1, caps, s),
        )
    }
}

/// The table of an orchestrator, and what was found on the way.
pub open spec fn table_of(orchestrator: Json, caps: Json) -> TableState {
    let inputs = orchestrator.entries_at("inputs"@);
    let states = orchestrator.entries_at("states"@);
    after_states(
        states,
        states.len() as int,
        caps,
        TableState { table: after_inputs(inputs, inputs.len() as int), errors: Seq::empty() },
    )
}

fn seed_inputs(inputs: &Vec<(String, Value)>) -> (r: SlotTable)
    ensures
        r@ == after_inputs(json::entries(inputs@), inputs@.len() as int),
{
    let ghost e = json::entries(inputs@);
    let mut table = SlotTable::default();
    let mut i: usize = 0;
    while i < inputs.len()
        invariant
            i <= inputs.len(),
            e == json::entries(inputs@),
            table@ == after_inputs(e, i as int),
        decreases inputs.len() - i,
    {
        assert(e[i as int] == (inputs@[i as int].0@, inputs@[i as int].1@));
        let path = text::join2("$.context.", inputs[i].0.as_str());
        table.insert(path, SlotEntry { schema: inputs[i].1.dup(), source: SlotSource::Input });
        i = i + 1;
    }
    table
}

fn add_outputs(
    outputs: &Vec<(String, Value)>,
    snippet: Option<&Value>,
    state: &str,
    table: &mut SlotTable,
    errors: &mut Vec<Diagnostic>,
)
    ensures
        (TableState { table: final(table)@, errors: diagnostic::diags(final(errors)@) })
            == after_outputs(
            json::entries(outputs@),
            outputs@.len() as int,
            json::opt_view(snippet),
            state@,
            TableState { table: old(table)@, errors: diagnostic::diags(old(errors)@) },
        ),
{
    let ghost e = json::entries(outputs@);
    let ghost s = TableState { table: table@, errors: diagnostic::diags(errors@) };
    let mut i: usize = 0;
    while i < outputs.len()
        invariant
            i <= outputs.len(),
            e == json::entries(outputs@),
            (TableState { table: table@, errors: diagnostic::diags(errors@) }) == after_outputs(
                e,
                i as int,
                json::opt_view(snippet),
                state@,
                s,
            ),
        decreases outputs.len() - i,
    {
        assert(e[i as int] == (outputs@[i as int].0@, outputs@[i as int].1@));
        if let Some(name) = outputs[i].1.as_str() {
            let schema = match snippet {
                Some(v) => match v.get(name) {
                    Some(x) => x.dup(),
                    None => Value::Null,
                },
                None => Value::Null,
            };
            insert_checked(
                table,
                errors,
                outputs[i].0.clone(),
                SlotEntry { schema, source: SlotSource::State(state.to_owned()) },
            );
        }
        i = i + 1;
    }
}

fn add_transition(
    transition: &Value,
    caps: &Value,
    state: &str,
    table: &mut SlotTable,
    errors: &mut Vec<Diagnostic>,
)
    ensures
        (TableState { table: final(table)@, errors: diagnostic::diags(final(errors)@) })
            == after_transition(
            transition@,
            caps@,
            state@,
            TableState { table: old(table)@, errors: diagnostic::diags(old(errors)@) },
        ),
{
    let exec = match transition.get("executor") {
        Some(e) => e,
        None => {
            return;
        },
    };
    if !text::opt_is(exec.str_at("kind"), "workflow") {
        return;
    }
    let outputs = match exec.get("use") {
        Some(u) => match u.object_at("outputs") {
            Some(o) => o,
            None => {
                return;
            },
        },
        None => {
            return;
        },
    };
    let target = match exec.str_at("definitionId") {
        Some(t) => t,
        None => crate::runtime_response::no_text(),
    };
    add_outputs(outputs, caps.get(target), state, table, errors);
}

fn add_transitions(
    transitions: &Vec<(String, Value)>,
    caps: &Value,
    state: &str,
    table: &mut SlotTable,
    errors: &mut Vec<Diagnostic>,
)
    ensures
        (TableState { table: final(table)@, errors: diagnostic::diags(final(errors)@) })
            == after_transitions(
            json::entries(transitions@),
            transitions@.len() as int,
            caps@,
            state@,
            TableState { table: old(table)@, errors: diagnostic::diags(old(errors)@) },
        ),
{
    let ghost e = json::entries(transitions@);
    let ghost s = TableState { table: table@, errors: diagnostic::diags(errors@) };
    let mut i: usize = 0;
    while i < transitions.len()
        invariant
            i <= transitions.len(),
            e == json::entries(transitions@),
            (TableState { table: table@, errors: diagnostic::diags(errors@) })
                == after_transitions(e, i as int, caps@, state@, s),
        decreases transitions.len() - i,
    {
        assert(e[i as int] == (transitions@[i as int].0@, transitions@[i as int].1@));
        add_transition(&transitions[i].1, caps, state, table, errors);
        i = i + 1;
    }
}

/// Builds the slot table of an orchestrator. `cap_snippet_outputs` is an object
/// that holds the declared outputs of each capability under its id. States that
/// write one slot with different types are errors.
pub fn build_slot_table(orchestrator_def: &Value, cap_snippet_outputs: &Value) -> (r: Result<
    SlotTable,
    Vec<Diagnostic>,
>)
    ensures
        match r {
            Ok(t) => {
                &&& t@ == table_of(orchestrator_def@, cap_snippet_outputs@).table
                &&& table_of(orchestrator_def@, cap_snippet_outputs@).errors.len() == 0
            },
            Err(d) => {
                &&& diagnostic::diags(d@) == table_of(
                    orchestrator_def@,
                    cap_snippet_outputs@,
                ).errors
                &&& d@.len() > 0
            },
        },
{
    let mut errors = diagnostic::none();
    let mut table = match orchestrator_def.object_at("inputs") {
        Some(inputs) => seed_inputs(inputs),
        None => SlotTable::default(),
    };
    if let Some(states) = orchestrator_def.object_at("states") {
        let ghost e = json::entries(states@);
        let ghost s = TableState { table: table@, errors: Seq::empty() };
        let mut i: usize = 0;
        while i < states.len()
            invariant
                i <= states.len(),
                e == json::entries(states@),
                (TableState { table: table@, errors: diagnostic::diags(errors@) })
                    == after_states(e, i as int, cap_snippet_outputs@, s),
            decreases states.len() - i,
        {
            assert(e[i as int] == (states@[i as int].0@, states@[i as int].1@));
            if let Some(ts) = states[i].1.object_at("transitions") {
                add_transitions(
                    ts,
                    cap_snippet_outputs,
                    states[i].0.as_str(),
                    &mut table,
                    &mut errors,
                );
            }
            i = i + 1;
        }
    }
    assert(diagnostic::diags(errors@).len() == errors@.len());
    if errors.len() == 0 {
        Ok(table)
    } else {
        Err(errors)
    }
}

/// What is said of a slot that nothing writes.
pub open spec fn unreachable_message(
    orchestrator: Seq<char>,
    state: Seq<char>,
    transition: Seq<char>,
    host_path: Seq<char>,
) -> Seq<char> {
    "UNREACHABLE_SLOT: orchestrator '"@ + orchestrator + "' state '"@ + state + "' transition '"@
        + transition + "' references '"@ + host_path
        + "' via `use:.inputs`, but no state writes that slot and it is not declared in `inputs:` (V13)"@
}

/// Checks that a slot that is read is declared or written by some state.
pub fn assert_reachable(
    table: &SlotTable,
    host_path: &str,
    orchestrator_id: &str,
    state_name: &str,
    transition_name: &str,
) -> (r: Option<Diagnostic>)
    ensures
        match r {
            None => json::find(table@, host_path@) is Some,
            Some(d) => json::find(table@, host_path@) is None && d@ == DiagnosticView::Error(
                unreachable_message(orchestrator_id@, state_name@, transition_name@, host_path@),
            ),
        },
{
    if table.get(host_path).is_some() {
        None
    } else {
        Some(
            Diagnostic::Error(
                text::join9(
                    "UNREACHABLE_SLOT: orchestrator '",
                    orchestrator_id,
                    "' state '",
                    state_name,
                    "' transition '",
                    transition_name,
                    "' references '",
                    host_path,
                    "' via `use:.inputs`, but no state writes that slot and it is not declared in `inputs:` (V13)",
                ),
            ),
        )
    }
}

/// Checks that a declared slot has the expected type; a slot that is not declared
/// is no matter of types.
pub fn assert_type_consistent(table: &SlotTable, host_path: &str, expected_schema: &Value) -> (r:
    Option<Diagnostic>)
    ensures
        match (json::find(table@, host_path@), r) {
            (None, None) => true,
            (Some(e), None) => e.schema == expected_schema@,
            (Some(e), Some(d)) => e.schema != expected_schema@ && d@ == DiagnosticView::Error(
                "SLOT_TYPE_MISMATCH: '"@ + host_path@ + "' is declared with one schema by "@
                    + source_text(e.source) + " but referenced with a different one (V14)"@,
            ),
            _ => false,
        },
{
    match table.get(host_path) {
        None => None,
        Some(entry) => {
            if schemas_equal(&entry.schema, expected_schema) {
                None
            } else {
                let s = describe_source(&entry.source);
                Some(
                    Diagnostic::Error(
                        text::join5(
                            "SLOT_TYPE_MISMATCH: '",
                            host_path,
                            "' is declared with one schema by ",
                            s.as_str(),
                            " but referenced with a different one (V14)",
                        ),
                    ),
                )
            }
        },
    }
}

/// The first writer of a slot stays: a write changes no slot that is there, and
/// declares its own where there was none.
pub proof fn law_first_writer_stays(
    s: TableState,
    host_path: Seq<char>,
    entry: SlotEntryView,
    other: Seq<char>,
)
    ensures
        json::find(s.table, other) is Some ==> json::find(
            after_write(s, host_path, entry).table,
            other,
        ) == json::find(s.table, other),
        json::find(s.table, host_path) is None ==> json::find(
            after_write(s, host_path, entry).table,
            host_path,
        ) == Some(entry),
{
    json::law_find_put(s.table, host_path, entry, other);
    json::law_find_put(s.table, host_path, entry, host_path);
}

} // verus!
