//! Workflow instances, the requests that act on them, and what executors hand
//! back.
use crate::audit;
use crate::audit::{AuditEvent, AuditEventView};
use crate::json::{Json, Value};
use crate::text;
use vstd::prelude::*;

verus! {

pub type WorkflowId = String;

pub type WorkflowDefinitionId = String;

pub type StateName = String;

pub type TransitionName = String;

/// A running workflow.
///
/// `definition` is the snapshot that the instance was started with: every
/// operation on the instance reads the definition from here, so that a change
/// of the configuration never disturbs a running instance. The times are the
/// text in which the store keeps them.
#[derive(Debug, PartialEq)]
pub struct WorkflowInstance {
    pub id: WorkflowId,
    pub definition_id: WorkflowDefinitionId,
    pub definition_version: String,
    pub definition: Value,
    pub state: StateName,
    pub version: u64,
    pub input: Value,
    pub context: Value,
    pub started_at: String,
    pub trace_id: Option<String>,
    pub run_id: Option<String>,
    pub cancelled_at: Option<String>,
    pub cancelled_reason: Option<String>,
}

/// A workflow instance as mathematical values.
#[verifier::ext_equal]
pub struct InstanceView {
    pub id: Seq<char>,
    pub definition_id: Seq<char>,
    pub definition_version: Seq<char>,
    pub definition: Json,
    pub state: Seq<char>,
    pub version: u64,
    pub input: Json,
    pub context: Json,
    pub started_at: Seq<char>,
    pub trace_id: Option<Seq<char>>,
    pub run_id: Option<Seq<char>>,
    pub cancelled_at: Option<Seq<char>>,
    pub cancelled_reason: Option<Seq<char>>,
}

impl View for WorkflowInstance {
    type V = InstanceView;

    open spec fn view(&self) -> InstanceView {
        InstanceView {
            id: self.id@,
            definition_id: self.definition_id@,
            definition_version: self.definition_version@,
            definition: self.definition@,
            state: self.state@,
            version: self.version,
            input: self.input@,
            context: self.context@,
            started_at: self.started_at@,
            trace_id: text::opt_text(self.trace_id),
            run_id: text::opt_text(self.run_id),
            cancelled_at: text::opt_text(self.cancelled_at),
            cancelled_reason: text::opt_text(self.cancelled_reason),
        }
    }
}

impl InstanceView {
    /// An event about this instance: it carries the instance's workflow id,
    /// trace id and run id.
    pub open spec fn event(
        self,
        event_type: Seq<char>,
        correlation_id: Seq<char>,
        actor: Option<Seq<char>>,
        payload: Json,
    ) -> AuditEventView {
        AuditEventView {
            workflow_id: Some(self.id),
            trace_id: self.trace_id,
            run_id: self.run_id,
            correlation_id,
            actor,
            event_type,
            payload,
        }
    }
}

impl WorkflowInstance {
    /// An event of the given type about this instance.
    pub fn audit_event(&self, event_type: &str) -> (r: AuditEvent)
        ensures
            r@ == self@.event(event_type@, r@.correlation_id, None, Json::empty()),
            audit::is_event_id(r.id@),
            audit::is_fresh_correlation(r@.correlation_id),
    {
        let mut e = AuditEvent::new(event_type).with_workflow(self.id.as_str());
        if let Some(t) = &self.trace_id {
            e = e.with_trace_id(t.as_str());
        }
        if let Some(r) = &self.run_id {
            e = e.with_run_id(r.as_str());
        }
        e
    }

    /// An event about this instance with its correlation, actor and payload.
    pub fn event(
        &self,
        event_type: &str,
        correlation_id: &str,
        actor: Option<&str>,
        payload: Value,
    ) -> (r: AuditEvent)
        ensures
            r@ == self@.event(event_type@, correlation_id@, text::opt_str(actor), payload@),
            audit::is_event_id(r.id@),
    {
        let e = self.audit_event(event_type).with_correlation(correlation_id).with_payload(payload);
        match actor {
            Some(a) => e.with_actor(a),
            None => e,
        }
    }

    /// A copy of the instance.
    pub fn dup(&self) -> (r: WorkflowInstance)
        ensures
            r@ == self@,
    {
        WorkflowInstance {
            id: self.id.clone(),
            definition_id: self.definition_id.clone(),
            definition_version: self.definition_version.clone(),
            definition: self.definition.dup(),
            state: self.state.clone(),
            version: self.version,
            input: self.input.dup(),
            context: self.context.dup(),
            started_at: self.started_at.clone(),
            trace_id: text::opt_copy(&self.trace_id),
            run_id: text::opt_copy(&self.run_id),
            cancelled_at: text::opt_copy(&self.cancelled_at),
            cancelled_reason: text::opt_copy(&self.cancelled_reason),
        }
    }
}

/// Who acts.
#[derive(Debug)]
pub struct Principal {
    pub subject: String,
    pub roles: Vec<String>,
    pub permissions: Vec<String>,
}

/// A principal as mathematical values.
pub struct PrincipalView {
    pub subject: Seq<char>,
    pub roles: Seq<Seq<char>>,
    pub permissions: Seq<Seq<char>>,
}

impl View for Principal {
    type V = PrincipalView;

    open spec fn view(&self) -> PrincipalView {
        PrincipalView {
            subject: self.subject@,
            roles: text::texts(self.roles@),
            permissions: text::texts(self.permissions@),
        }
    }
}

impl PrincipalView {
    /// A principal is human when it has the human role.
    pub open spec fn is_human(self) -> bool {
        self.roles.contains(Principal::HUMAN_ROLE@)
    }
}

impl Principal {
    /// The role that marks a human principal.
    pub const HUMAN_ROLE: &'static str = "human";

    /// The principal that nothing is known of.
    pub fn anonymous() -> (r: Principal)
        ensures
            r@.subject == "anonymous"@,
            r@.roles == Seq::<Seq<char>>::empty(),
            r@.permissions == Seq::<Seq<char>>::empty(),
    {
        Principal {
            subject: "anonymous".to_owned(),
            roles: Vec::new(),
            permissions: Vec::new(),
        }
    }

    /// Whether the principal is human.
    pub fn is_human(&self) -> (r: bool)
        ensures
            r == self@.is_human(),
    {
        text::has_text(&self.roles, Self::HUMAN_ROLE)
    }

    /// A copy of the principal.
    pub fn dup(&self) -> (r: Principal)
        ensures
            r@ == self@,
    {
        Principal {
            subject: self.subject.clone(),
            roles: text::copy_texts(&self.roles),
            permissions: text::copy_texts(&self.permissions),
        }
    }
}

/// A request to start a workflow.
#[derive(Debug)]
pub struct StartWorkflow {
    pub definition_id: WorkflowDefinitionId,
    pub input: Value,
    pub principal: Principal,
    pub trace_id: Option<String>,
    pub run_id: Option<String>,
}

/// A request to read a workflow. The audit events of the read are in the trace
/// `trace_id`; in that of the workflow where there is none.
#[derive(Debug)]
pub struct GetWorkflow {
    pub workflow_id: WorkflowId,
    pub principal: Principal,
    pub trace_id: Option<String>,
    pub run_id: Option<String>,
}

/// A request to take a transition. The audit events of the submit are in the trace
/// `trace_id`; in that of the workflow where there is none.
#[derive(Debug)]
pub struct SubmitTransition {
    pub workflow_id: WorkflowId,
    pub expected_version: u64,
    pub transition: TransitionName,
    pub arguments: Value,
    pub principal: Principal,
    pub summary: Option<String>,
    pub trace_id: Option<String>,
    pub run_id: Option<String>,
}

/// A piece of evidence that an executor produced.
///
/// `confidence` is the IEEE 754 bit pattern of a single-precision number.
#[derive(Debug, PartialEq)]
pub struct Evidence {
    pub kind: String,
    pub id: String,
    pub uri: Option<String>,
    pub summary: Option<String>,
    pub digest: Option<String>,
    pub confidence: Option<u32>,
}

/// Evidence as mathematical values.
pub struct EvidenceView {
    pub kind: Seq<char>,
    pub id: Seq<char>,
    pub uri: Option<Seq<char>>,
    pub summary: Option<Seq<char>>,
    pub digest: Option<Seq<char>>,
    pub confidence: Option<u32>,
}

impl View for Evidence {
    type V = EvidenceView;

    open spec fn view(&self) -> EvidenceView {
        EvidenceView {
            kind: self.kind@,
            id: self.id@,
            uri: text::opt_text(self.uri),
            summary: text::opt_text(self.summary),
            digest: text::opt_text(self.digest),
            confidence: self.confidence,
        }
    }
}

/// The evidence records, in order.
pub open spec fn evidence_views(s: Seq<Evidence>) -> Seq<EvidenceView> {
    Seq::new(s.len(), |i: int| s[i]@)
}

/// The bit pattern of a single-precision number between zero and one: the
/// patterns up to that of one, which are ordered as the numbers are, and that of
/// the negative zero.
pub open spec fn in_unit_range(bits: u32) -> bool {
    bits <= 0x3f80_0000 || bits == 0x8000_0000
}

impl Evidence {
    /// Whether the confidence, where there is one, lies between zero and one;
    /// the offending value otherwise.
    pub fn validate_confidence(&self) -> (r: Result<(), u32>)
        ensures
            match r {
                Ok(_) => self.confidence matches Some(c) ==> in_unit_range(c),
                Err(bad) => self.confidence == Some(bad) && !in_unit_range(bad),
            },
    {
        match self.confidence {
            Some(c) => if c <= 0x3f80_0000 || c == 0x8000_0000 {
                Ok(())
            } else {
                Err(c)
            },
            None => Ok(()),
        }
    }

    /// A copy of the record.
    pub fn dup(&self) -> (r: Evidence)
        ensures
            r@ == self@,
    {
        Evidence {
            kind: self.kind.clone(),
            id: self.id.clone(),
            uri: text::opt_copy(&self.uri),
            summary: text::opt_copy(&self.summary),
            digest: text::opt_copy(&self.digest),
            confidence: self.confidence,
        }
    }
}

/// A copy of a list of evidence records.
pub fn copy_evidence(v: &Vec<Evidence>) -> (r: Vec<Evidence>)
    ensures
        evidence_views(r@) == evidence_views(v@),
{
    let mut out: Vec<Evidence> = Vec::new();
    append_evidence(&mut out, v);
    assert(evidence_views(out@) =~= evidence_views(v@));
    out
}

/// Appends copies of the records of `from` to `to`.
pub fn append_evidence(to: &mut Vec<Evidence>, from: &Vec<Evidence>)
    ensures
        evidence_views(final(to)@) == evidence_views(old(to)@) + evidence_views(from@),
{
    let ghost before = evidence_views(to@);
    let mut i: usize = 0;
    while i < from.len()
        invariant
            i <= from.len(),
            evidence_views(to@) == before + evidence_views(from@).take(i as int),
        decreases from.len() - i,
    {
        let e = from[i].dup();
        assert(evidence_views(to@.push(e)) =~= evidence_views(to@).push(e@));
        to.push(e);
        i = i + 1;
    }
    assert(evidence_views(from@).take(i as int) =~= evidence_views(from@));
}

/// What an executor is asked to do.
#[derive(Debug)]
pub struct ExecuteRequest {
    pub workflow: WorkflowInstance,
    pub transition: Option<String>,
    pub arguments: Value,
    pub executor_config: Value,
    pub idempotency_key: Option<String>,
    pub correlation_id: Option<String>,
}

/// What an executor hands back.
#[derive(Debug)]
pub struct ExecuteResult {
    pub output: Value,
    pub evidence: Vec<Evidence>,
    pub child_workflow_id: Option<String>,
}

impl Default for ExecuteResult {
    /// Nothing handed back.
    fn default() -> (r: Self)
        ensures
            r.output@ == Json::Null,
            r.evidence@.len() == 0,
            r.child_workflow_id is None,
    {
        ExecuteResult { output: Value::Null, evidence: Vec::new(), child_workflow_id: None }
    }
}

} // verus!
