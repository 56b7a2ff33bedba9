//! Errors of the runtime and of executors.
use crate::text;
use vstd::prelude::*;

verus! {

/// A hard stop of the runtime: the operation is aborted and the caller told.
#[derive(Debug)]
pub enum RuntimeError {
    /// The transition record could not be written, so the transition was not
    /// committed.
    RecordWriteFailed { workflow_id: String, seq: u64, source: String },
    /// A workflow with the given run id is already under way.
    RunIdAlreadyRunning { run_id: String, existing_workflow_id: String },
    /// A subject of the workflow has no definition yet.
    SubjectNeedsDefinition {
        unknown_subject: String,
        bounded_context: Option<String>,
        workflow_id_context: String,
    },
    /// The configured embedding backend failed.
    EmbeddingBackendFailed { message: String },
}

/// A hard stop of the runtime as mathematical values.
pub enum RuntimeErrorView {
    RecordWriteFailed { workflow_id: Seq<char>, seq: u64, source: Seq<char> },
    RunIdAlreadyRunning { run_id: Seq<char>, existing_workflow_id: Seq<char> },
    SubjectNeedsDefinition {
        unknown_subject: Seq<char>,
        bounded_context: Option<Seq<char>>,
        workflow_id_context: Seq<char>,
    },
    EmbeddingBackendFailed { message: Seq<char> },
}

impl View for RuntimeError {
    type V = RuntimeErrorView;

    open spec fn view(&self) -> RuntimeErrorView {
        match self {
            RuntimeError::RecordWriteFailed { workflow_id, seq, source } => {
                RuntimeErrorView::RecordWriteFailed {
                    workflow_id: workflow_id@,
                    seq: *seq,
                    source: source@,
                }
            },
            RuntimeError::RunIdAlreadyRunning { run_id, existing_workflow_id } => {
                RuntimeErrorView::RunIdAlreadyRunning {
                    run_id: run_id@,
                    existing_workflow_id: existing_workflow_id@,
                }
            },
            RuntimeError::SubjectNeedsDefinition {
                unknown_subject,
                bounded_context,
                workflow_id_context,
            } => RuntimeErrorView::SubjectNeedsDefinition {
                unknown_subject: unknown_subject@,
                bounded_context: text::opt_text(*bounded_context),
                workflow_id_context: workflow_id_context@,
            },
            RuntimeError::EmbeddingBackendFailed { message } => {
                RuntimeErrorView::EmbeddingBackendFailed { message: message@ }
            },
        }
    }
}

impl RuntimeError {
    /// The stable token of the error.
    pub open spec fn code_text(self) -> Seq<char> {
        match self {
            RuntimeError::RecordWriteFailed { .. } => "RECORD_WRITE_FAILED"@,
            RuntimeError::RunIdAlreadyRunning { .. } => "RUN_ID_ALREADY_RUNNING"@,
            RuntimeError::SubjectNeedsDefinition { .. } => "SUBJECT_NEEDS_DEFINITION"@,
            RuntimeError::EmbeddingBackendFailed { .. } => "EMBEDDING_BACKEND_FAILED"@,
        }
    }

    /// The stable token of the error.
    pub fn code(&self) -> (r: &'static str)
        ensures
            r@ == self.code_text(),
    {
        match self {
            RuntimeError::RecordWriteFailed { .. } => "RECORD_WRITE_FAILED",
            RuntimeError::RunIdAlreadyRunning { .. } => "RUN_ID_ALREADY_RUNNING",
            RuntimeError::SubjectNeedsDefinition { .. } => "SUBJECT_NEEDS_DEFINITION",
            RuntimeError::EmbeddingBackendFailed { .. } => "EMBEDDING_BACKEND_FAILED",
        }
    }

    /// What the error says to a reader.
    pub open spec fn message_text(self) -> Seq<char> {
        match self {
            RuntimeError::RecordWriteFailed { workflow_id, seq, source } => {
                "RECORD_WRITE_FAILED: failed to write transition record for workflow '"@
                    + workflow_id@ + "' at seq "@ + text::decimal(seq as nat) + ": "@ + source@
            },
            RuntimeError::RunIdAlreadyRunning { run_id, existing_workflow_id } => {
                "run_id '"@ + run_id@ + "' is already in flight (existing workflow id: "@
                    + existing_workflow_id@ + ")"@
            },
            RuntimeError::SubjectNeedsDefinition { unknown_subject, workflow_id_context, .. } => {
                "subject '"@ + unknown_subject@ + "' is unresolved in workflow '"@
                    + workflow_id_context@ + "'"@
            },
            RuntimeError::EmbeddingBackendFailed { message } => {
                "EMBEDDING_BACKEND_FAILED: "@ + message@
            },
        }
    }

    /// What the error says to a reader.
    pub fn message(&self) -> (r: String)
        ensures
            r@ == self.message_text(),
    {
        match self {
            RuntimeError::RecordWriteFailed { workflow_id, seq, source } => {
                let n = text::decimal_of(*seq);
                text::join6(
                    "RECORD_WRITE_FAILED: failed to write transition record for workflow '",
                    workflow_id.as_str(),
                    "' at seq ",
                    n.as_str(),
                    ": ",
                    source.as_str(),
                )
            },
            RuntimeError::RunIdAlreadyRunning { run_id, existing_workflow_id } => text::join5(
                "run_id '",
                run_id.as_str(),
                "' is already in flight (existing workflow id: ",
                existing_workflow_id.as_str(),
                ")",
            ),
            RuntimeError::SubjectNeedsDefinition { unknown_subject, workflow_id_context, .. } => {
                text::join5(
                    "subject '",
                    unknown_subject.as_str(),
                    "' is unresolved in workflow '",
                    workflow_id_context.as_str(),
                    "'",
                )
            },
            RuntimeError::EmbeddingBackendFailed { message } => text::join2(
                "EMBEDDING_BACKEND_FAILED: ",
                message.as_str(),
            ),
        }
    }
}

/// A classified failure of an executor.
#[derive(Debug)]
pub enum ExecutorError {
    Timeout(u64),
    RateLimited(String),
    Connection(String),
    Transient(String),
    Permanent(String),
    SchemaViolation(String),
    Other(String),
}

/// The class by which a reliability policy judges a failure.
#[derive(Debug, Clone, Copy, PartialEq, Eq, Structural)]
pub enum ErrorClass {
    Timeout,
    RateLimited,
    Connection,
    Transient,
    Permanent,
}

/// A classified failure as mathematical values: which failure it is, and what
/// it carries.
pub enum ExecutorErrorView {
    Timeout(u64),
    RateLimited(Seq<char>),
    Connection(Seq<char>),
    Transient(Seq<char>),
    Permanent(Seq<char>),
    SchemaViolation(Seq<char>),
    Other(Seq<char>),
}

impl View for ExecutorError {
    type V = ExecutorErrorView;

    open spec fn view(&self) -> ExecutorErrorView {
        match self {
            ExecutorError::Timeout(ms) => ExecutorErrorView::Timeout(*ms),
            ExecutorError::RateLimited(m) => ExecutorErrorView::RateLimited(m@),
            ExecutorError::Connection(m) => ExecutorErrorView::Connection(m@),
            ExecutorError::Transient(m) => ExecutorErrorView::Transient(m@),
            ExecutorError::Permanent(m) => ExecutorErrorView::Permanent(m@),
            ExecutorError::SchemaViolation(m) => ExecutorErrorView::SchemaViolation(m@),
            ExecutorError::Other(m) => ExecutorErrorView::Other(m@),
        }
    }
}

impl ExecutorErrorView {
    /// The class of the failure.
    pub open spec fn class_of(self) -> ErrorClass {
        match self {
            ExecutorErrorView::Timeout(_) => ErrorClass::Timeout,
            ExecutorErrorView::RateLimited(_) => ErrorClass::RateLimited,
            ExecutorErrorView::Connection(_) => ErrorClass::Connection,
            ExecutorErrorView::Transient(_) => ErrorClass::Transient,
            _ => ErrorClass::Permanent,
        }
    }

    /// What the error says to a reader.
    pub open spec fn message_text(self) -> Seq<char> {
        match self {
            ExecutorErrorView::Timeout(ms) => "timeout after "@ + text::decimal(ms as nat) + " ms"@,
            ExecutorErrorView::RateLimited(m) => "rate limited: "@ + m,
            ExecutorErrorView::Connection(m) => "connection error: "@ + m,
            ExecutorErrorView::Transient(m) => "transient error: "@ + m,
            ExecutorErrorView::Permanent(m) => "permanent error: "@ + m,
            ExecutorErrorView::SchemaViolation(m) => "schema violation: "@ + m,
            ExecutorErrorView::Other(m) => m,
        }
    }
}

impl ExecutorError {
    /// The class of the failure.
    pub fn class(&self) -> (r: ErrorClass)
        ensures
            r == self@.class_of(),
    {
        match self {
            ExecutorError::Timeout(_) => ErrorClass::Timeout,
            ExecutorError::RateLimited(_) => ErrorClass::RateLimited,
            ExecutorError::Connection(_) => ErrorClass::Connection,
            ExecutorError::Transient(_) => ErrorClass::Transient,
            ExecutorError::Permanent(_) => ErrorClass::Permanent,
            ExecutorError::SchemaViolation(_) => ErrorClass::Permanent,
            ExecutorError::Other(_) => ErrorClass::Permanent,
        }
    }

    /// What the error says to a reader.
    pub fn message(&self) -> (r: String)
        ensures
            r@ == self@.message_text(),
    {
        match self {
            ExecutorError::Timeout(ms) => {
                let n = text::decimal_of(*ms);
                text::join3("timeout after ", n.as_str(), " ms")
            },
            ExecutorError::RateLimited(m) => text::join2("rate limited: ", m.as_str()),
            ExecutorError::Connection(m) => text::join2("connection error: ", m.as_str()),
            ExecutorError::Transient(m) => text::join2("transient error: ", m.as_str()),
            ExecutorError::Permanent(m) => text::join2("permanent error: ", m.as_str()),
            ExecutorError::SchemaViolation(m) => text::join2("schema violation: ", m.as_str()),
            ExecutorError::Other(m) => m.clone(),
        }
    }

    /// A copy of the failure.
    pub fn dup(&self) -> (r: ExecutorError)
        ensures
            r@ == self@,
    {
        match self {
            ExecutorError::Timeout(ms) => ExecutorError::Timeout(*ms),
            ExecutorError::RateLimited(m) => ExecutorError::RateLimited(m.clone()),
            ExecutorError::Connection(m) => ExecutorError::Connection(m.clone()),
            ExecutorError::Transient(m) => ExecutorError::Transient(m.clone()),
            ExecutorError::Permanent(m) => ExecutorError::Permanent(m.clone()),
            ExecutorError::SchemaViolation(m) => ExecutorError::SchemaViolation(m.clone()),
            ExecutorError::Other(m) => ExecutorError::Other(m.clone()),
        }
    }
}

impl ErrorClass {
    /// The stable token of the class.
    pub open spec fn token_text(self) -> Seq<char> {
        match self {
            ErrorClass::Timeout => "timeout"@,
            ErrorClass::RateLimited => "rate_limited"@,
            ErrorClass::Connection => "connection_error"@,
            ErrorClass::Transient => "transient_error"@,
            ErrorClass::Permanent => "permanent_error"@,
        }
    }

    /// The stable token of the class.
    pub fn token(self) -> (r: &'static str)
        ensures
            r@ == self.token_text(),
    {
        match self {
            ErrorClass::Timeout => "timeout",
            ErrorClass::RateLimited => "rate_limited",
            ErrorClass::Connection => "connection_error",
            ErrorClass::Transient => "transient_error",
            ErrorClass::Permanent => "permanent_error",
        }
    }
}

} // verus!
