//! Audit events and the sinks that keep or drop them.
use crate::json::{Json, Value};
use crate::text;
use vstd::prelude::*;

verus! {

/// `n` lowercase hexadecimal digits.
pub open spec fn is_hex(s: Seq<char>, n: nat) -> bool {
    s.len() == n && forall|i: int| 0 <= i < s.len() ==> is_hex_digit(#[trigger] s[i])
}

/// A lowercase hexadecimal digit.
pub open spec fn is_hex_digit(c: char) -> bool {
    text::is_digit(c) || 'a' <= c <= 'f'
}

/// `uuid::Uuid::new_v4().simple()`: a random identifier, written as 32 lowercase
/// hexadecimal digits. Which digits they are is left to chance.
#[verifier::external_body]
pub(crate) fn fresh_uuid() -> (r: String)
    ensures
        is_hex(r@, 32),
{
    uuid::Uuid::new_v4().simple().to_string()
}

/// `chrono::Utc::now().to_rfc3339()`: the current time as text. Nothing is
/// promised of it, since it depends on the clock.
#[verifier::external_body]
pub(crate) fn now_text() -> (r: String) {
    chrono::Utc::now().to_rfc3339()
}

/// The id of an event: `evt_` and 32 hexadecimal digits.
pub open spec fn is_event_id(s: Seq<char>) -> bool {
    "evt_"@.is_prefix_of(s) && is_hex(s.skip("evt_"@.len() as int), 32)
}

/// A correlation id as it is made afresh: `cor_` and 32 hexadecimal digits.
pub open spec fn is_fresh_correlation(s: Seq<char>) -> bool {
    "cor_"@.is_prefix_of(s) && is_hex(s.skip("cor_"@.len() as int), 32)
}

/// A fresh correlation id: `cor_` and 32 hexadecimal digits.
pub fn fresh_correlation_id() -> (r: String)
    ensures
        is_fresh_correlation(r@),
{
    let id = fresh_uuid();
    let r = text::join2("cor_", id.as_str());
    proof {
        assert(r@.take("cor_"@.len() as int) =~= "cor_"@);
        assert(r@.skip("cor_"@.len() as int) =~= id@);
    }
    r
}

/// A fresh workflow id: `wf_` and 32 hexadecimal digits.
pub fn fresh_workflow_id() -> (r: String)
    ensures
        "wf_"@.is_prefix_of(r@),
        is_hex(r@.skip("wf_"@.len() as int), 32),
{
    let id = fresh_uuid();
    let r = text::join2("wf_", id.as_str());
    proof {
        assert(r@.take("wf_"@.len() as int) =~= "wf_"@);
        assert(r@.skip("wf_"@.len() as int) =~= id@);
    }
    r
}

/// One recorded fact about a workflow or about the gateway.
#[derive(Debug, PartialEq)]
pub struct AuditEvent {
    pub id: String,
    pub timestamp: String,
    pub workflow_id: Option<String>,
    pub trace_id: Option<String>,
    pub run_id: Option<String>,
    pub correlation_id: String,
    pub actor: Option<String>,
    pub event_type: String,
    pub payload: Value,
}

/// What an audit event says. The event's own id and time, which name the
/// record and not what it is about, are no part of it.
pub struct AuditEventView {
    pub workflow_id: Option<Seq<char>>,
    pub trace_id: Option<Seq<char>>,
    pub run_id: Option<Seq<char>>,
    pub correlation_id: Seq<char>,
    pub actor: Option<Seq<char>>,
    pub event_type: Seq<char>,
    pub payload: Json,
}

impl AuditEventView {
    /// An event about nothing in particular.
    pub open spec fn bare(event_type: Seq<char>, correlation_id: Seq<char>) -> AuditEventView {
        AuditEventView {
            workflow_id: None,
            trace_id: None,
            run_id: None,
            correlation_id,
            actor: None,
            event_type,
            payload: Json::empty(),
        }
    }

    /// The event in the trace of the call that emits it: the given one, or its own
    /// where the call gives none.
    pub open spec fn traced(self, trace_id: Option<Seq<char>>) -> AuditEventView {
        match trace_id {
            Some(t) => AuditEventView { trace_id: Some(t), ..self },
            None => self,
        }
    }
}

impl View for AuditEvent {
    type V = AuditEventView;

    open spec fn view(&self) -> AuditEventView {
        AuditEventView {
            workflow_id: text::opt_text(self.workflow_id),
            trace_id: text::opt_text(self.trace_id),
            run_id: text::opt_text(self.run_id),
            correlation_id: self.correlation_id@,
            actor: text::opt_text(self.actor),
            event_type: self.event_type@,
            payload: self.payload@,
        }
    }
}

impl AuditEvent {
    /// An event of the given type, with a fresh id, the current time and a fresh
    /// correlation id.
    pub fn new(event_type: &str) -> (r: AuditEvent)
        ensures
            r@ == AuditEventView::bare(event_type@, r@.correlation_id),
            is_event_id(r.id@),
            is_fresh_correlation(r@.correlation_id),
    {
        let uuid = fresh_uuid();
        let id = text::join2("evt_", uuid.as_str());
        proof {
            assert(id@.take("evt_"@.len() as int) =~= "evt_"@);
            assert(id@.skip("evt_"@.len() as int) =~= uuid@);
        }
        AuditEvent {
            id,
            timestamp: now_text(),
            workflow_id: None,
            trace_id: None,
            run_id: None,
            correlation_id: fresh_correlation_id(),
            actor: None,
            event_type: event_type.to_owned(),
            payload: Value::object(),
        }
    }

    /// The event, about the given workflow.
    pub fn with_workflow(self, workflow_id: &str) -> (r: AuditEvent)
        ensures
            r@ == (AuditEventView { workflow_id: Some(workflow_id@), ..self@ }),
            r.id == self.id,
            r.timestamp == self.timestamp,
    {
        AuditEvent { workflow_id: Some(workflow_id.to_owned()), ..self }
    }

    /// The event, correlated with the given operation.
    pub fn with_correlation(self, correlation_id: &str) -> (r: AuditEvent)
        ensures
            r@ == (AuditEventView { correlation_id: correlation_id@, ..self@ }),
            r.id == self.id,
            r.timestamp == self.timestamp,
    {
        AuditEvent { correlation_id: correlation_id.to_owned(), ..self }
    }

    /// The event, caused by the given actor.
    pub fn with_actor(self, actor: &str) -> (r: AuditEvent)
        ensures
            r@ == (AuditEventView { actor: Some(actor@), ..self@ }),
            r.id == self.id,
            r.timestamp == self.timestamp,
    {
        AuditEvent { actor: Some(actor.to_owned()), ..self }
    }

    /// The event, with the given payload.
    pub fn with_payload(self, payload: Value) -> (r: AuditEvent)
        ensures
            r@ == (AuditEventView { payload: payload@, ..self@ }),
            r.id == self.id,
            r.timestamp == self.timestamp,
    {
        AuditEvent { payload, ..self }
    }

    /// The event, as part of the given trace.
    pub fn with_trace_id(self, trace_id: &str) -> (r: AuditEvent)
        ensures
            r@ == (AuditEventView { trace_id: Some(trace_id@), ..self@ }),
            r.id == self.id,
            r.timestamp == self.timestamp,
    {
        AuditEvent { trace_id: Some(trace_id.to_owned()), ..self }
    }

    /// The event in the trace of the call that emits it: the given one, or its own
    /// where the call gives none.
    pub fn traced(self, trace_id: &Option<String>) -> (r: AuditEvent)
        ensures
            r@ == self@.traced(text::opt_text(*trace_id)),
            r.id == self.id,
            r.timestamp == self.timestamp,
    {
        match trace_id {
            Some(t) => self.with_trace_id(t.as_str()),
            None => self,
        }
    }

    /// The event, as part of the given run.
    pub fn with_run_id(self, run_id: &str) -> (r: AuditEvent)
        ensures
            r@ == (AuditEventView { run_id: Some(run_id@), ..self@ }),
            r.id == self.id,
            r.timestamp == self.timestamp,
    {
        AuditEvent { run_id: Some(run_id.to_owned()), ..self }
    }

    /// A copy of the event.
    pub fn dup(&self) -> (r: AuditEvent)
        ensures
            r@ == self@,
            r.id@ == self.id@,
            r.timestamp@ == self.timestamp@,
    {
        AuditEvent {
            id: self.id.clone(),
            timestamp: self.timestamp.clone(),
            workflow_id: text::opt_copy(&self.workflow_id),
            trace_id: text::opt_copy(&self.trace_id),
            run_id: text::opt_copy(&self.run_id),
            correlation_id: self.correlation_id.clone(),
            actor: text::opt_copy(&self.actor),
            event_type: self.event_type.clone(),
            payload: self.payload.dup(),
        }
    }
}

/// What the events say, in order.
pub open spec fn event_views(s: Seq<AuditEvent>) -> Seq<AuditEventView> {
    Seq::new(s.len(), |i: int| s[i]@)
}

/// Every event has an id of its own form.
pub open spec fn all_named(s: Seq<AuditEvent>) -> bool {
    forall|i: int| 0 <= i < s.len() ==> is_event_id((#[trigger] s[i]).id@)
}

/// The events in the trace of the call that emits them.
pub open spec fn all_traced(s: Seq<AuditEventView>, trace_id: Option<Seq<char>>) -> Seq<
    AuditEventView,
> {
    s.map_values(|e: AuditEventView| e.traced(trace_id))
}

/// The events have the same ids and times, in order.
pub open spec fn same_stamps(a: Seq<AuditEvent>, b: Seq<AuditEvent>) -> bool {
    a.len() == b.len() && forall|i: int|
        0 <= i < a.len() ==> (#[trigger] a[i]).id@ == b[i].id@ && a[i].timestamp@
            == b[i].timestamp@
}

/// What an event says that stands for one whose writing failed.
pub open spec fn write_failed_payload(event_type: Seq<char>, error: Seq<char>) -> Json {
    Json::empty().with("originalEvent"@, Json::String(event_type)).with(
        "error"@,
        Json::String(error),
    )
}

/// The event that reports that an event of the given type could not be written.
pub fn write_failed_event(event_type: &str, error: &str) -> (r: AuditEvent)
    ensures
        r@ == (AuditEventView {
            payload: write_failed_payload(event_type@, error@),
            ..AuditEventView::bare("audit.write_failed"@, r@.correlation_id)
        }),
        is_event_id(r.id@),
        is_fresh_correlation(r@.correlation_id),
{
    let payload = Value::object().and("originalEvent", Value::text(event_type)).and(
        "error",
        Value::text(error),
    );
    AuditEvent::new("audit.write_failed").with_payload(payload)
}

/// Drops every event.
#[derive(Debug, Default)]
pub struct NullAuditSink;

impl NullAuditSink {
    /// Drops an event.
    pub fn record(&self, event: AuditEvent) -> (r: Result<(), String>)
        ensures
            r is Ok,
    {
        Ok(())
    }

    /// What was recorded; nothing is kept here that could be shown.
    pub fn list_events(&self) -> (r: Option<Vec<AuditEvent>>)
        ensures
            r is None,
    {
        None
    }
}

/// The lines that are not blank, up to line `n`.
pub open spec fn nonblank(lines: Seq<Seq<char>>, n: int) -> Seq<Seq<char>>
    decreases n,
{
    if n <= 0 {
        Seq::empty()
    } else if text::trimmed(lines[n - 1]).len() > 0 {
        nonblank(lines, n - 1).push(lines[n - 1])
    } else {
        nonblank(lines, n - 1)
    }
}

/// The lines of a log of events that hold an event.
pub fn event_lines(content: &str) -> (r: Vec<String>)
    ensures
        text::texts(r@) == nonblank(
            text::split(content@, '\n'),
            text::split(content@, '\n').len() as int,
        ),
{
    let lines = text::split_on(content, '\n');
    let ghost all = text::split(content@, '\n');
    let mut out: Vec<String> = Vec::new();
    assert(text::texts(out@) =~= Seq::empty());
    let mut i: usize = 0;
    while i < lines.len()
        invariant
            i <= lines.len(),
            all == text::texts(lines@),
            text::texts(out@) == nonblank(all, i as int),
        decreases lines.len() - i,
    {
        assert(all[i as int] == lines@[i as int]@);
        let bare = text::trim(lines[i].as_str());
        if text::chars_of(bare.as_str()).len() > 0 {
            let l = lines[i].clone();
            proof {
                text::lemma_texts_push(out@, l);
            }
            out.push(l);
        }
        i = i + 1;
    }
    out
}

/// Stores events in memory, in the order in which they were recorded.
#[derive(Debug)]
pub struct MemoryAuditSink {
    pub events: Vec<AuditEvent>,
}

impl View for MemoryAuditSink {
    type V = Seq<AuditEventView>;

    open spec fn view(&self) -> Seq<AuditEventView> {
        event_views(self.events@)
    }
}

impl Default for MemoryAuditSink {
    /// A sink that has recorded nothing.
    fn default() -> (r: Self)
        ensures
            r@ == Seq::<AuditEventView>::empty(),
    {
        MemoryAuditSink::new()
    }
}

impl MemoryAuditSink {
    /// A sink without events.
    pub fn new() -> (r: MemoryAuditSink)
        ensures
            r@ == Seq::<AuditEventView>::empty(),
    {
        let r = MemoryAuditSink { events: Vec::new() };
        assert(r@ =~= Seq::empty());
        r
    }

    /// Records an event after all that were recorded before.
    pub fn record(&mut self, event: AuditEvent)
        ensures
            final(self)@ == old(self)@.push(event@),
            final(self).events@ == old(self).events@.push(event),
    {
        let ghost before = self.events@;
        self.events.push(event);
        assert(event_views(self.events@) =~= event_views(before).push(event@));
    }

    /// A copy of every recorded event, in order.
    pub fn snapshot(&self) -> (r: Vec<AuditEvent>)
        ensures
            event_views(r@) == self@,
            same_stamps(r@, self.events@),
    {
        let mut out: Vec<AuditEvent> = Vec::new();
        let mut i: usize = 0;
        while i < self.events.len()
            invariant
                i <= self.events.len(),
                event_views(out@) == self@.take(i as int),
                same_stamps(out@, self.events@.take(i as int)),
            decreases self.events.len() - i,
        {
            let e = self.events[i].dup();
            assert(event_views(out@.push(e)) =~= event_views(out@).push(e@));
            out.push(e);
            i = i + 1;
        }
        assert(self.events@.take(i as int) =~= self.events@);
        out
    }

    /// What was recorded: a copy of every event, in order.
    pub fn list_events(&self) -> (r: Option<Vec<AuditEvent>>)
        ensures
            r matches Some(v) && event_views(v@) == self@ && same_stamps(v@, self.events@),
    {
        Some(self.snapshot())
    }

    /// The types of the recorded events, in order.
    pub fn event_types(&self) -> (r: Vec<String>)
        ensures
            text::texts(r@) == Seq::new(self@.len(), |i: int| self@[i].event_type),
    {
        let mut out: Vec<String> = Vec::new();
        let mut i: usize = 0;
        while i < self.events.len()
            invariant
                i <= self.events.len(),
                text::texts(out@) == Seq::new(i as nat, |k: int| self@[k].event_type),
            decreases self.events.len() - i,
        {
            let t = self.events[i].event_type.clone();
            proof {
                text::lemma_texts_push(out@, t);
            }
            out.push(t);
            i = i + 1;
        }
        out
    }

    /// Forgets every event.
    pub fn clear(&mut self)
        ensures
            final(self)@ == Seq::<AuditEventView>::empty(),
    {
        self.events.clear();
        assert(event_views(self.events@) =~= Seq::empty());
    }
}

} // verus!
