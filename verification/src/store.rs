//! Stores that live in memory: workflow instances, definitions, acknowledgments and
//! evidence. The rules of storing are the same for stores elsewhere.
use crate::audit;
use crate::audit::{AuditEvent, AuditEventView};
use crate::config_stamp;
use crate::json;
use crate::json::{Json, Value};
use crate::model;
use crate::model::{Evidence, EvidenceView, InstanceView, WorkflowInstance};
use crate::proxy_workflow;
use crate::table::Table;
use crate::text;
use crate::validate;
use vstd::prelude::*;

verus! {

// ---------------------------------------------------------------------------
// Instances
// ---------------------------------------------------------------------------

/// What is said of an instance that is not there.
pub open spec fn missing(id: Seq<char>) -> Seq<char> {
    "workflow "@ + id + " not found"@
}

/// What is said of an instance that is there already.
pub open spec fn collision(id: Seq<char>) -> Seq<char> {
    "workflow id collision: "@ + id
}

/// What is said of an instance whose stored version is another than expected.
pub open spec fn stale(stored: u64, expected: u64) -> Seq<char> {
    "stale workflow version: stored="@ + text::decimal(stored as nat) + ", expected="@
        + text::decimal(expected as nat)
}

/// What is said of an instance of which no row has the expected version.
pub open spec fn stale_row(id: Seq<char>, expected: u64) -> Seq<char> {
    "stale workflow version (expected "@ + text::decimal(expected as nat) + " for "@ + id + ")"@
}

/// What is said of an instance that is not there.
pub fn missing_text(id: &str) -> (r: String)
    ensures
        r@ == missing(id@),
{
    text::join3("workflow ", id, " not found")
}

/// What is said of an instance that is there already.
pub fn collision_text(id: &str) -> (r: String)
    ensures
        r@ == collision(id@),
{
    text::join2("workflow id collision: ", id)
}

/// What is said of an instance of which no row has the expected version.
pub fn stale_row_text(id: &str, expected: u64) -> (r: String)
    ensures
        r@ == stale_row(id@, expected),
{
    let n = text::decimal_of(expected);
    text::join5("stale workflow version (expected ", n.as_str(), " for ", id, ")")
}

/// Why an instance may not be saved, by the version that is stored of it.
pub open spec fn save_refusal(stored: Option<u64>, id: Seq<char>, expected: u64) -> Option<
    Seq<char>,
> {
    match stored {
        None => Some(missing(id)),
        Some(v) => if v != expected {
            Some(stale(v, expected))
        } else {
            None
        },
    }
}

/// Whether an instance may be saved: only on top of the version that is expected.
pub fn check_save(stored: Option<u64>, id: &str, expected: u64) -> (r: Result<(), String>)
    ensures
        match r {
            Ok(_) => save_refusal(stored, id@, expected) is None,
            Err(m) => save_refusal(stored, id@, expected) == Some(m@),
        },
{
    match stored {
        None => Err(missing_text(id)),
        Some(v) => {
            if v != expected {
                let a = text::decimal_of(v);
                let b = text::decimal_of(expected);
                Err(
                    text::join4(
                        "stale workflow version: stored=",
                        a.as_str(),
                        ", expected=",
                        b.as_str(),
                    ),
                )
            } else {
                Ok(())
            }
        },
    }
}

/// Workflow instances by id, and the instances of runs.
#[derive(Debug, PartialEq)]
pub struct InMemoryWorkflowStore {
    instances: Table<WorkflowInstance>,
    by_run_id: Table<String>,
}

/// The contents of a store of instances.
pub struct InstancesView {
    pub instances: Seq<(Seq<char>, InstanceView)>,
    pub runs: Seq<(Seq<char>, Seq<char>)>,
}

impl View for InMemoryWorkflowStore {
    type V = InstancesView;

    closed spec fn view(&self) -> InstancesView {
        InstancesView { instances: self.instances@, runs: self.by_run_id@ }
    }
}

impl InstancesView {
    /// The instance of an id.
    pub open spec fn instance(self, id: Seq<char>) -> Option<InstanceView> {
        json::find(self.instances, id)
    }

    /// The instance of a run.
    pub open spec fn run(self, run_id: Seq<char>) -> Option<Seq<char>> {
        json::find(self.runs, run_id)
    }

    /// The version that is stored of an instance.
    pub open spec fn version(self, id: Seq<char>) -> Option<u64> {
        match self.instance(id) {
            Some(i) => Some(i.version),
            None => None,
        }
    }

    /// The contents with an instance added. An instance of a run is found by the run.
    pub open spec fn created(self, i: InstanceView) -> InstancesView {
        InstancesView {
            instances: json::put(self.instances, i.id, i),
            runs: match i.run_id {
                Some(r) => json::put(self.runs, r, i.id),
                None => self.runs,
            },
        }
    }

    /// The contents with an instance replaced.
    pub open spec fn saved(self, i: InstanceView) -> InstancesView {
        InstancesView { instances: json::put(self.instances, i.id, i), runs: self.runs }
    }
}

/// The outcome of an operation that gives an instance.
pub open spec fn instance_result(r: Result<WorkflowInstance, String>) -> Result<
    InstanceView,
    Seq<char>,
> {
    match r {
        Ok(i) => Ok(i@),
        Err(m) => Err(m@),
    }
}

impl Default for InMemoryWorkflowStore {
    /// An empty store.
    fn default() -> (r: Self)
        ensures
            r@.instances == Seq::<(Seq<char>, InstanceView)>::empty(),
            r@.runs == Seq::<(Seq<char>, Seq<char>)>::empty(),
    {
        InMemoryWorkflowStore::new()
    }
}

impl InMemoryWorkflowStore {
    /// A store without instances.
    pub fn new() -> (r: Self)
        ensures
            r@.instances == Seq::<(Seq<char>, InstanceView)>::empty(),
            r@.runs == Seq::<(Seq<char>, Seq<char>)>::empty(),
    {
        InMemoryWorkflowStore { instances: Table::new(), by_run_id: Table::new() }
    }

    /// Adds an instance. No id may be used twice.
    pub fn create(&mut self, instance: WorkflowInstance) -> (r: Result<WorkflowInstance, String>)
        ensures
            match old(self)@.instance(instance@.id) {
                Some(_) => instance_result(r) == Err::<InstanceView, Seq<char>>(
                    collision(instance@.id),
                ) && final(self)@ == old(self)@,
                None => instance_result(r) == Ok::<InstanceView, Seq<char>>(instance@) && final(self)@ == old(self)@.created(instance@),
            },
    {
        if self.instances.find(instance.id.as_str()).is_some() {
            return Err(collision_text(instance.id.as_str()));
        }
        if let Some(run) = &instance.run_id {
            self.by_run_id.put(run.as_str(), instance.id.clone());
        }
        let copy = instance.dup();
        self.instances.put(instance.id.as_str(), copy);
        Ok(instance)
    }

    /// The instance of an id.
    pub fn load(&self, workflow_id: &str) -> (r: Result<WorkflowInstance, String>)
        ensures
            instance_result(r) == (match self@.instance(workflow_id@) {
                Some(i) => Ok::<InstanceView, Seq<char>>(i),
                None => Err(missing(workflow_id@)),
            }),
    {
        match self.instances.find(workflow_id) {
            Some(i) => Ok(i.dup()),
            None => Err(missing_text(workflow_id)),
        }
    }

    /// Replaces an instance, on top of the version that is expected.
    pub fn save_if_version(&mut self, instance: WorkflowInstance, expected_version: u64) -> (r: Result<
        WorkflowInstance,
        String,
    >)
        ensures
            match save_refusal(
                old(self)@.version(instance@.id),
                instance@.id,
                expected_version,
            ) {
                Some(m) => instance_result(r) == Err::<InstanceView, Seq<char>>(m) && final(self)@
                    == old(self)@,
                None => instance_result(r) == Ok::<InstanceView, Seq<char>>(instance@) && final(self)@ == old(self)@.saved(instance@),
            },
    {
        let stored = match self.instances.find(instance.id.as_str()) {
            Some(i) => Some(i.version),
            None => None,
        };
        match check_save(stored, instance.id.as_str(), expected_version) {
            Err(m) => {
                return Err(m);
            },
            Ok(_) => {},
        }
        let copy = instance.dup();
        self.instances.put(instance.id.as_str(), copy);
        Ok(instance)
    }

    /// The id of the instance of a run.
    pub fn find_by_run_id(&self, run_id: &str) -> (r: Option<String>)
        ensures
            text::opt_text(r) == self@.run(run_id@),
    {
        match self.by_run_id.find(run_id) {
            Some(id) => Some(id.clone()),
            None => None,
        }
    }
}

/// What was created is loaded, and found by its run; every other instance is as before.
pub proof fn law_created_is_loaded(s: InstancesView, i: InstanceView, other: Seq<char>)
    ensures
        s.created(i).instance(i.id) == Some(i),
        other != i.id ==> s.created(i).instance(other) == s.instance(other),
        i.run_id matches Some(r) ==> s.created(i).run(r) == Some(i.id),
{
    json::law_find_put(s.instances, i.id, i, i.id);
    json::law_find_put(s.instances, i.id, i, other);
    if let Some(r) = i.run_id {
        json::law_find_put(s.runs, r, i.id, r);
    }
}

/// What was saved is loaded; every other instance and every run is as before.
pub proof fn law_saved_is_loaded(s: InstancesView, i: InstanceView, other: Seq<char>)
    ensures
        s.saved(i).instance(i.id) == Some(i),
        other != i.id ==> s.saved(i).instance(other) == s.instance(other),
        s.saved(i).runs == s.runs,
{
    json::law_find_put(s.instances, i.id, i, i.id);
    json::law_find_put(s.instances, i.id, i, other);
}

/// Of two writers that expect the same version only one succeeds, where writing changes
/// the version: after the first has saved, the second is refused.
pub proof fn law_second_writer_is_refused(
    s: InstancesView,
    first: InstanceView,
    second: InstanceView,
    expected: u64,
)
    requires
        first.id == second.id,
        first.version != expected,
    ensures
        save_refusal(s.saved(first).version(second.id), second.id, expected) == Some(
            stale(first.version, expected),
        ),
{
    json::law_find_put(s.instances, first.id, first, first.id);
}

// ---------------------------------------------------------------------------
// Definitions
// ---------------------------------------------------------------------------

/// What is said of a definition that is not there.
pub open spec fn definition_missing(id: Seq<char>) -> Seq<char> {
    "workflow definition '"@ + id + "' not found"@
}

/// The outcome of loading a definition.
pub open spec fn definition_result(defs: Json, id: Seq<char>) -> Result<Json, Seq<char>> {
    match defs.get(id) {
        Some(d) => Ok(d),
        None => Err(definition_missing(id)),
    }
}

fn load_definition(defs: &Value, id: &str) -> (r: Result<Value, String>)
    ensures
        match r {
            Ok(v) => definition_result(defs@, id@) == Ok::<Json, Seq<char>>(v@),
            Err(m) => definition_result(defs@, id@) == Err::<Json, Seq<char>>(m@),
        },
{
    match defs.get(id) {
        Some(d) => Ok(d.dup()),
        None => Err(text::join3("workflow definition '", id, "' not found")),
    }
}

fn ids_of(defs: &Value) -> (r: Vec<String>)
    ensures
        text::texts(r@) == (match defs@ {
            Json::Object(e) => validate::keys(e),
            _ => Seq::empty(),
        }),
{
    match defs {
        Value::Object(e) => validate::keys_of(e),
        _ => {
            let v: Vec<String> = Vec::new();
            assert(text::texts(v@) =~= Seq::empty());
            v
        },
    }
}

/// The definitions of a configuration: its workflows, and the workflow of its proxy
/// exposures.
#[derive(Debug, PartialEq)]
pub struct ConfigDefinitionStore {
    defs: Value,
}

impl View for ConfigDefinitionStore {
    type V = Json;

    closed spec fn view(&self) -> Json {
        self.defs@
    }
}

/// The definitions of a configuration: its workflows, and the workflow of its proxy
/// exposures where there are any.
pub open spec fn definitions(config: Json) -> Json {
    let e = config.entries_at("workflows"@);
    let own = config_stamp::overlaid(Json::empty(), e, e.len() as int);
    match proxy_workflow::exposures_of(config) {
        Some(s) => if s.len() > 0 {
            own.with(
                proxy_workflow::DEFAULT_PROXY_WORKFLOW_ID@,
                proxy_workflow::proxy_workflow(s),
            )
        } else {
            own
        },
        None => own,
    }
}

impl Default for ConfigDefinitionStore {
    /// A store without definitions.
    fn default() -> (r: Self)
        ensures
            r@ == Json::empty(),
    {
        ConfigDefinitionStore::new(Value::object())
    }
}

impl ConfigDefinitionStore {
    /// A store of the definitions, which are given by id.
    pub fn new(defs: Value) -> (r: Self)
        ensures
            r@ == defs@,
    {
        ConfigDefinitionStore { defs }
    }

    /// A store of the definitions of a configuration.
    pub fn from_config(config: &Value) -> (r: Self)
        ensures
            r@ == definitions(config@),
    {
        let mut defs = match config.object_at("workflows") {
            Some(e) => config_stamp::overlay(Value::object(), e),
            None => Value::object(),
        };
        if let Some(s) = proxy_workflow::declared_exposures(config) {
            if s.len() > 0 {
                let w = proxy_workflow::compile_proxy_workflow_from_exposures(s);
                defs.set(proxy_workflow::DEFAULT_PROXY_WORKFLOW_ID, w);
            }
        }
        Self::new(defs)
    }

    /// The ids of the definitions.
    pub fn ids(&self) -> (r: Vec<String>)
        ensures
            text::texts(r@) == (match self@ {
                Json::Object(e) => validate::keys(e),
                _ => Seq::empty(),
            }),
    {
        ids_of(&self.defs)
    }

    /// The definition of an id.
    pub fn load(&self, definition_id: &str) -> (r: Result<Value, String>)
        ensures
            match r {
                Ok(v) => definition_result(self@, definition_id@) == Ok::<Json, Seq<char>>(v@),
                Err(m) => definition_result(self@, definition_id@) == Err::<Json, Seq<char>>(m@),
            },
    {
        load_definition(&self.defs, definition_id)
    }
}

/// Definitions that can be added to while workflows run.
#[derive(Debug, PartialEq)]
pub struct InMemoryWritableDefinitionStore {
    defs: Value,
}

impl View for InMemoryWritableDefinitionStore {
    type V = Json;

    closed spec fn view(&self) -> Json {
        self.defs@
    }
}

/// The event that a definition is published.
pub open spec fn published(id: Seq<char>, outcome: Seq<char>) -> Json {
    Json::empty().with("definitionId"@, Json::String(id)).with("outcome"@, Json::String(outcome))
}

impl Default for InMemoryWritableDefinitionStore {
    /// An empty store.
    fn default() -> (r: Self)
        ensures
            r@ == Json::empty(),
    {
        InMemoryWritableDefinitionStore::new()
    }
}

impl InMemoryWritableDefinitionStore {
    /// A store without definitions.
    pub fn new() -> (r: Self)
        ensures
            r@ == Json::empty(),
    {
        InMemoryWritableDefinitionStore { defs: Value::object() }
    }

    /// A store of the definitions, which are given by id.
    pub fn with_seed(seed: Value) -> (r: Self)
        ensures
            r@ == seed@,
    {
        InMemoryWritableDefinitionStore { defs: seed }
    }

    /// The ids of the definitions.
    pub fn known_ids(&self) -> (r: Vec<String>)
        ensures
            text::texts(r@) == (match self@ {
                Json::Object(e) => validate::keys(e),
                _ => Seq::empty(),
            }),
    {
        ids_of(&self.defs)
    }

    /// The definition of an id.
    pub fn load(&self, definition_id: &str) -> (r: Result<Value, String>)
        ensures
            match r {
                Ok(v) => definition_result(self@, definition_id@) == Ok::<Json, Seq<char>>(v@),
                Err(m) => definition_result(self@, definition_id@) == Err::<Json, Seq<char>>(m@),
            },
    {
        load_definition(&self.defs, definition_id)
    }

    /// Adds a definition once the event of its publication was recorded, or was not:
    /// `recorded` holds what came of it. Without the record nothing changes.
    pub fn register(
        &mut self,
        definition_id: &str,
        definition: Value,
        recorded: Result<(), String>,
    ) -> (r: Result<(), String>)
        ensures
            match recorded {
                Ok(_) => r is Ok && final(self)@ == old(self)@.with(definition_id@, definition@),
                Err(e) => r matches Err(m) && m@
                    == "RECORD_WRITE_FAILED: audit of definition.published for '"@ + definition_id@
                    + "' failed: "@ + e@ && final(self)@ == old(self)@,
            },
    {
        match recorded {
            Err(e) => Err(
                text::join4(
                    "RECORD_WRITE_FAILED: audit of definition.published for '",
                    definition_id,
                    "' failed: ",
                    e.as_str(),
                ),
            ),
            Ok(_) => {
                self.defs.set(definition_id, definition);
                Ok(())
            },
        }
    }
}

/// The event to record before a definition is added.
pub fn published_event(definition_id: &str) -> (r: AuditEvent)
    ensures
        r@ == (AuditEventView {
            workflow_id: None,
            trace_id: None,
            run_id: None,
            correlation_id: r@.correlation_id,
            actor: None,
            event_type: "definition.published"@,
            payload: published(definition_id@, "pending_commit"@),
        }),
        audit::is_event_id(r.id@),
        audit::is_fresh_correlation(r@.correlation_id),
{
    AuditEvent::new("definition.published").with_payload(
        Value::object().and("definitionId", Value::text(definition_id)).and(
            "outcome",
            Value::text("pending_commit"),
        ),
    )
}

/// The event to record after a definition was added.
pub fn loadable_event(definition_id: &str) -> (r: AuditEvent)
    ensures
        r@ == (AuditEventView {
            workflow_id: None,
            trace_id: None,
            run_id: None,
            correlation_id: r@.correlation_id,
            actor: None,
            event_type: "definition.loadable"@,
            payload: published(definition_id@, "loadable"@),
        }),
        audit::is_event_id(r.id@),
        audit::is_fresh_correlation(r@.correlation_id),
{
    AuditEvent::new("definition.loadable").with_payload(
        Value::object().and("definitionId", Value::text(definition_id)).and(
            "outcome",
            Value::text("loadable"),
        ),
    )
}

/// The event to record where the event after a definition was added could not be
/// recorded.
pub fn loadable_failed_event(definition_id: &str, error: &str) -> (r: AuditEvent)
    ensures
        r@ == (AuditEventView {
            workflow_id: None,
            trace_id: None,
            run_id: None,
            correlation_id: r@.correlation_id,
            actor: None,
            event_type: "audit.write_failed"@,
            payload: Json::empty().with("originalEvent"@, Json::String("definition.loadable"@)).with(
                "definitionId"@,
                Json::String(definition_id@),
            ).with("error"@, Json::String(error@)),
        }),
        audit::is_event_id(r.id@),
        audit::is_fresh_correlation(r@.correlation_id),
{
    AuditEvent::new("audit.write_failed").with_payload(
        Value::object().and("originalEvent", Value::text("definition.loadable")).and(
            "definitionId",
            Value::text(definition_id),
        ).and("error", Value::text(error)),
    )
}

/// A definition that was added is loaded; every other definition is as before.
pub proof fn law_registered_is_loaded(defs: Json, id: Seq<char>, d: Json, other: Seq<char>)
    requires
        defs is Object,
    ensures
        definition_result(defs.with(id, d), id) == Ok::<Json, Seq<char>>(d),
        other != id ==> definition_result(defs.with(id, d), other) == definition_result(
            defs,
            other,
        ),
{
    json::law_get_with(defs, id, d, id);
    json::law_get_with(defs, id, d, other);
}

// ---------------------------------------------------------------------------
// Acknowledgments
// ---------------------------------------------------------------------------

/// That a body was fetched: by which workflow, of which subject, with which hash.
#[derive(Debug, PartialEq, Eq)]
pub struct Acknowledgment {
    pub workflow_id: String,
    pub subject: String,
    pub body_hash: String,
}

/// An acknowledgment, as mathematical values.
pub struct AckView {
    pub workflow_id: Seq<char>,
    pub subject: Seq<char>,
    pub body_hash: Seq<char>,
}

impl View for Acknowledgment {
    type V = AckView;

    open spec fn view(&self) -> AckView {
        AckView {
            workflow_id: self.workflow_id@,
            subject: self.subject@,
            body_hash: self.body_hash@,
        }
    }
}

/// The acknowledgments, in order.
pub open spec fn acks(s: Seq<Acknowledgment>) -> Seq<AckView> {
    Seq::new(s.len(), |i: int| s[i]@)
}

/// Where the acknowledgment for a workflow and a subject stands, from the `i`-th on;
/// behind the last one where there is none.
pub open spec fn ack_place(
    s: Seq<AckView>,
    workflow_id: Seq<char>,
    subject: Seq<char>,
    i: int,
) -> int
    decreases s.len() - i,
{
    if i >= s.len() || (s[i].workflow_id == workflow_id && s[i].subject == subject) {
        i
    } else {
        ack_place(s, workflow_id, subject, i + 1)
    }
}

/// The hash that was last acknowledged.
pub open spec fn acknowledged(
    s: Seq<AckView>,
    workflow_id: Seq<char>,
    subject: Seq<char>,
) -> Option<Seq<char>> {
    let i = ack_place(s, workflow_id, subject, 0);
    if i < s.len() {
        Some(s[i].body_hash)
    } else {
        None
    }
}

/// The acknowledgments with one more, in the place of the earlier one for the same
/// workflow and subject.
pub open spec fn noted(s: Seq<AckView>, x: AckView) -> Seq<AckView> {
    let i = ack_place(s, x.workflow_id, x.subject, 0);
    if i < s.len() {
        s.update(i, x)
    } else {
        s.push(x)
    }
}

/// There is one acknowledgment for each workflow and subject at most.
pub open spec fn one_each(s: Seq<AckView>) -> bool {
    forall|i: int, j: int|
        #![trigger s[i], s[j]]
        0 <= i < j < s.len() ==> s[i].workflow_id != s[j].workflow_id || s[i].subject
            != s[j].subject
}

/// The place is the first that fits.
proof fn lemma_ack_place(s: Seq<AckView>, workflow_id: Seq<char>, subject: Seq<char>, i: int)
    requires
        0 <= i <= s.len(),
    ensures
        ({
            let p = ack_place(s, workflow_id, subject, i);
            &&& i <= p <= s.len()
            &&& p < s.len() ==> s[p].workflow_id == workflow_id && s[p].subject == subject
            &&& forall|k: int|
                i <= k < p ==> (#[trigger] s[k]).workflow_id != workflow_id || s[k].subject
                    != subject
        }),
    decreases s.len() - i,
{
    if i < s.len() && !(s[i].workflow_id == workflow_id && s[i].subject == subject) {
        lemma_ack_place(s, workflow_id, subject, i + 1);
    }
}

/// What was last acknowledged is what is read; what was acknowledged for another
/// workflow or subject is as before. However often it is acknowledged, one
/// acknowledgment is kept for each workflow and subject.
pub proof fn law_last_acknowledgment_counts(
    s: Seq<AckView>,
    x: AckView,
    workflow_id: Seq<char>,
    subject: Seq<char>,
)
    ensures
        acknowledged(noted(s, x), workflow_id, subject) == (if x.workflow_id == workflow_id
            && x.subject == subject {
            Some(x.body_hash)
        } else {
            acknowledged(s, workflow_id, subject)
        }),
        one_each(s) ==> one_each(noted(s, x)),
{
    let t = noted(s, x);
    let i = ack_place(s, x.workflow_id, x.subject, 0);
    lemma_ack_place(s, x.workflow_id, x.subject, 0);
    lemma_ack_place(s, workflow_id, subject, 0);
    lemma_ack_place(t, workflow_id, subject, 0);
    let p = ack_place(s, workflow_id, subject, 0);
    let q = ack_place(t, workflow_id, subject, 0);
    assert(forall|k: int| 0 <= k < s.len() && k != i ==> #[trigger] t[k] == s[k]);
    assert(t[i] == x);
    if x.workflow_id == workflow_id && x.subject == subject {
        assert(q == i) by {
            if q < i {
                assert(t[q] == s[q]);
            }
            if q > i {
                assert(t[i].workflow_id == workflow_id);
            }
        }
    } else {
        if q < t.len() {
            assert(t[q].workflow_id == workflow_id);
            assert(q != i);
            assert(t[q] == s[q]);
            if p < q {
                assert(p != i);
                assert(t[p] == s[p]);
            }
            if q < p {
                assert(s[q].workflow_id != workflow_id || s[q].subject != subject);
            }
        } else if p < s.len() {
            assert(p != i);
            assert(t[p] == s[p]);
        }
    }
}

fn find_ack(v: &Vec<Acknowledgment>, workflow_id: &str, subject: &str) -> (r: usize)
    ensures
        r == ack_place(acks(v@), workflow_id@, subject@, 0),
        r <= v.len(),
{
    let ghost s = acks(v@);
    let mut i: usize = 0;
    while i < v.len()
        invariant
            i <= v.len(),
            s == acks(v@),
            ack_place(s, workflow_id@, subject@, i as int) == ack_place(
                s,
                workflow_id@,
                subject@,
                0,
            ),
        decreases v.len() - i,
    {
        assert(s[i as int] == v@[i as int]@);
        if text::str_eq(v[i].workflow_id.as_str(), workflow_id) && text::str_eq(
            v[i].subject.as_str(),
            subject,
        ) {
            return i;
        }
        i = i + 1;
    }
    i
}

fn note_ack(v: &mut Vec<Acknowledgment>, workflow_id: &str, subject: &str, body_hash: &str)
    ensures
        acks(final(v)@) == noted(
            acks(old(v)@),
            AckView {
                workflow_id: workflow_id@,
                subject: subject@,
                body_hash: body_hash@,
            },
        ),
{
    let ghost before = v@;
    let i = find_ack(v, workflow_id, subject);
    let x = Acknowledgment {
        workflow_id: workflow_id.to_owned(),
        subject: subject.to_owned(),
        body_hash: body_hash.to_owned(),
    };
    let ghost xv = x@;
    if i < v.len() {
        v.set(i, x);
        assert(acks(v@) =~= acks(before).update(i as int, xv));
    } else {
        v.push(x);
        assert(acks(v@) =~= acks(before).push(xv));
    }
}

fn read_ack(v: &Vec<Acknowledgment>, workflow_id: &str, subject: &str) -> (r: Option<String>)
    ensures
        text::opt_text(r) == acknowledged(acks(v@), workflow_id@, subject@),
{
    let i = find_ack(v, workflow_id, subject);
    if i < v.len() {
        assert(acks(v@)[i as int] == v@[i as int]@);
        Some(v[i].body_hash.clone())
    } else {
        None
    }
}

/// Acknowledgments of guidance.
#[derive(Debug, PartialEq, Eq)]
pub struct InMemoryGuidanceAcknowledgmentStore {
    kept: Vec<Acknowledgment>,
}

impl View for InMemoryGuidanceAcknowledgmentStore {
    type V = Seq<AckView>;

    closed spec fn view(&self) -> Seq<AckView> {
        acks(self.kept@)
    }
}

impl Default for InMemoryGuidanceAcknowledgmentStore {
    /// An empty store.
    fn default() -> (r: Self)
        ensures
            r@ == Seq::<AckView>::empty(),
    {
        InMemoryGuidanceAcknowledgmentStore::new()
    }
}

impl InMemoryGuidanceAcknowledgmentStore {
    /// A store without acknowledgments.
    pub fn new() -> (r: Self)
        ensures
            r@ == Seq::<AckView>::empty(),
    {
        let s = InMemoryGuidanceAcknowledgmentStore { kept: Vec::new() };
        assert(acks(s.kept@) =~= Seq::empty());
        s
    }

    /// Notes that a body was fetched.
    pub fn record(&mut self, workflow_id: &str, subject: &str, body_hash: &str)
        ensures
            final(self)@ == noted(
                old(self)@,
                AckView {
                    workflow_id: workflow_id@,
                    subject: subject@,
                    body_hash: body_hash@,
                },
            ),
            one_each(old(self)@) ==> one_each(final(self)@),
    {
        proof {
            law_last_acknowledgment_counts(
                self@,
                AckView {
                    workflow_id: workflow_id@,
                    subject: subject@,
                    body_hash: body_hash@,
                },
                workflow_id@,
                subject@,
            );
        }
        note_ack(&mut self.kept, workflow_id, subject, body_hash);
    }

    /// The hash of the body that was last fetched.
    pub fn last_acknowledged_hash(&self, workflow_id: &str, subject: &str) -> (r: Option<String>)
        ensures
            text::opt_text(r) == acknowledged(self@, workflow_id@, subject@),
    {
        read_ack(&self.kept, workflow_id, subject)
    }
}

/// Acknowledgments of scripts, apart from those of guidance.
#[derive(Debug, PartialEq, Eq)]
pub struct InMemoryScriptAcknowledgmentStore {
    kept: Vec<Acknowledgment>,
}

impl View for InMemoryScriptAcknowledgmentStore {
    type V = Seq<AckView>;

    closed spec fn view(&self) -> Seq<AckView> {
        acks(self.kept@)
    }
}

impl Default for InMemoryScriptAcknowledgmentStore {
    /// An empty store.
    fn default() -> (r: Self)
        ensures
            r@ == Seq::<AckView>::empty(),
    {
        InMemoryScriptAcknowledgmentStore::new()
    }
}

impl InMemoryScriptAcknowledgmentStore {
    /// A store without acknowledgments.
    pub fn new() -> (r: Self)
        ensures
            r@ == Seq::<AckView>::empty(),
    {
        let s = InMemoryScriptAcknowledgmentStore { kept: Vec::new() };
        assert(acks(s.kept@) =~= Seq::empty());
        s
    }

    /// Notes that a body was fetched.
    pub fn record(&mut self, workflow_id: &str, subject: &str, body_hash: &str)
        ensures
            final(self)@ == noted(
                old(self)@,
                AckView {
                    workflow_id: workflow_id@,
                    subject: subject@,
                    body_hash: body_hash@,
                },
            ),
            one_each(old(self)@) ==> one_each(final(self)@),
    {
        proof {
            law_last_acknowledgment_counts(
                self@,
                AckView {
                    workflow_id: workflow_id@,
                    subject: subject@,
                    body_hash: body_hash@,
                },
                workflow_id@,
                subject@,
            );
        }
        note_ack(&mut self.kept, workflow_id, subject, body_hash);
    }

    /// The hash of the body that was last fetched.
    pub fn last_acknowledged_hash(&self, workflow_id: &str, subject: &str) -> (r: Option<String>)
        ensures
            text::opt_text(r) == acknowledged(self@, workflow_id@, subject@),
    {
        read_ack(&self.kept, workflow_id, subject)
    }
}

// ---------------------------------------------------------------------------
// Evidence
// ---------------------------------------------------------------------------

/// The evidence of one workflow.
#[derive(Debug, PartialEq)]
pub struct EvidenceList {
    items: Vec<Evidence>,
}

impl View for EvidenceList {
    type V = Seq<EvidenceView>;

    closed spec fn view(&self) -> Seq<EvidenceView> {
        model::evidence_views(self.items@)
    }
}

/// Evidence by workflow.
#[derive(Debug, PartialEq)]
pub struct InMemoryEvidenceStore {
    lists: Table<EvidenceList>,
}

impl View for InMemoryEvidenceStore {
    type V = Seq<(Seq<char>, Seq<EvidenceView>)>;

    closed spec fn view(&self) -> Seq<(Seq<char>, Seq<EvidenceView>)> {
        self.lists@
    }
}

/// The evidence of a workflow, in the order in which it was recorded.
pub open spec fn evidence_of(
    s: Seq<(Seq<char>, Seq<EvidenceView>)>,
    workflow_id: Seq<char>,
) -> Seq<EvidenceView> {
    match json::find(s, workflow_id) {
        Some(v) => v,
        None => Seq::empty(),
    }
}

impl Default for InMemoryEvidenceStore {
    /// An empty store.
    fn default() -> (r: Self)
        ensures
            r@ == Seq::<(Seq<char>, Seq<EvidenceView>)>::empty(),
    {
        InMemoryEvidenceStore::new()
    }
}

impl InMemoryEvidenceStore {
    /// A store without evidence.
    pub fn new() -> (r: Self)
        ensures
            r@ == Seq::<(Seq<char>, Seq<EvidenceView>)>::empty(),
    {
        InMemoryEvidenceStore { lists: Table::new() }
    }

    /// Adds evidence to that of a workflow.
    pub fn record(&mut self, workflow_id: &str, evidence: Evidence)
        ensures
            final(self)@ == json::put(
                old(self)@,
                workflow_id@,
                evidence_of(old(self)@, workflow_id@).push(evidence@),
            ),
    {
        let mut items: Vec<Evidence> = match self.lists.find(workflow_id) {
            Some(l) => model::copy_evidence(&l.items),
            None => Vec::new(),
        };
        let ghost before = items@;
        proof {
            assert(model::evidence_views(before) =~= evidence_of(self@, workflow_id@));
            assert(model::evidence_views(before.push(evidence)) =~= model::evidence_views(
                before,
            ).push(evidence@));
        }
        items.push(evidence);
        self.lists.put(workflow_id, EvidenceList { items });
    }

    /// The evidence of a workflow.
    pub fn list(&self, workflow_id: &str) -> (r: Vec<Evidence>)
        ensures
            model::evidence_views(r@) == evidence_of(self@, workflow_id@),
    {
        match self.lists.find(workflow_id) {
            Some(l) => model::copy_evidence(&l.items),
            None => {
                let v: Vec<Evidence> = Vec::new();
                assert(model::evidence_views(v@) =~= Seq::empty());
                v
            },
        }
    }
}

/// Recorded evidence is listed last; that of other workflows is as before.
pub proof fn law_evidence_is_appended(
    s: Seq<(Seq<char>, Seq<EvidenceView>)>,
    workflow_id: Seq<char>,
    e: EvidenceView,
    other: Seq<char>,
)
    ensures
        ({
            let after = json::put(s, workflow_id, evidence_of(s, workflow_id).push(e));
            evidence_of(after, workflow_id) == evidence_of(s, workflow_id).push(e) && (other
                != workflow_id ==> evidence_of(after, other) == evidence_of(s, other))
        }),
{
    json::law_find_put(s, workflow_id, evidence_of(s, workflow_id).push(e), workflow_id);
    json::law_find_put(s, workflow_id, evidence_of(s, workflow_id).push(e), other);
}

// ---------------------------------------------------------------------------
// Files
// ---------------------------------------------------------------------------

/// A character that a file name may have.
pub open spec fn file_char(c: char) -> char {
    if text::char_is_alphanumeric(c) || c == '_' || c == '-' {
        c
    } else {
        '_'
    }
}

/// The name of the file of an instance. Whatever is no letter, no number, no `_` and no
/// `-` is replaced.
pub open spec fn file_name(id: Seq<char>) -> Seq<char> {
    Seq::new(id.len(), |i: int| file_char(id[i])) + ".json"@
}

/// The name of the file of an instance.
pub fn file_name_for(id: &str) -> (r: String)
    ensures
        r@ == file_name(id@),
{
    let cs = text::chars_of(id);
    let ghost all = Seq::new(id@.len(), |i: int| file_char(id@[i]));
    let mut out: String = String::new();
    let mut i: usize = 0;
    assert(out@ =~= all.take(0));
    while i < cs.len()
        invariant
            i <= cs.len(),
            cs@ == id@,
            all == Seq::new(id@.len(), |i: int| file_char(id@[i])),
            out@ == all.take(i as int),
        decreases cs.len() - i,
    {
        let c = cs[i];
        assert(all.take(i + 1) =~= all.take(i as int).push(file_char(c)));
        if c.is_alphanumeric() || c == '_' || c == '-' {
            out.push(c);
        } else {
            out.push('_');
        }
        i = i + 1;
    }
    assert(all.take(i as int) =~= all);
    text::join2(out.as_str(), ".json")
}

} // verus!
