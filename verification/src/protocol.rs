//! Protocol values exchanged between the command line client and the daemon:
//! streamed test events, the plain records carried in responses, and how the
//! daemon serves each kind of request.

use vstd::prelude::*;
use vstd::string::*;
use crate::text::push_str_chars;

verus! {

/// Outcome of a single test execution.
#[derive(Debug, Clone, PartialEq)]
pub enum Outcome {
    /// Test passed.
    Passed,
    /// Test failed with assertion or other failure.
    Failed { message: String },
    /// Test was skipped.
    Skipped { reason: Option<String> },
    /// Test encountered an error (not a test failure).
    Error { message: String },
    /// Test was expected to fail and did fail.
    XFail { reason: Option<String> },
    /// Test was expected to fail but passed.
    XPass,
}

impl Outcome {
    /// Passed, skipped and expected failures count as success.
    pub open spec fn spec_is_success(&self) -> bool {
        self is Passed || self is Skipped || self is XFail
    }

    /// Failures and unexpected passes count as failures.
    pub open spec fn spec_is_failure(&self) -> bool {
        self is Failed || self is XPass
    }

    /// Returns true if this outcome represents a successful test.
    pub fn is_success(&self) -> (r: bool)
        ensures
            r == self.spec_is_success(),
    {
        match self {
            Outcome::Passed | Outcome::Skipped { .. } | Outcome::XFail { .. } => true,
            _ => false,
        }
    }

    /// Returns true if this outcome represents a failure that should be counted.
    pub fn is_failure(&self) -> (r: bool)
        ensures
            r == self.spec_is_failure(),
    {
        match self {
            Outcome::Failed { .. } | Outcome::XPass => true,
            _ => false,
        }
    }

    /// Returns true if this outcome represents an error.
    pub fn is_error(&self) -> (r: bool)
        ensures
            r == (self is Error),
    {
        match self {
            Outcome::Error { .. } => true,
            _ => false,
        }
    }
}

/// Every outcome is exactly one of success, failure or error.
pub proof fn lemma_outcome_classes_partition(o: Outcome)
    ensures
        o.spec_is_success() || o.spec_is_failure() || o is Error,
        !(o.spec_is_success() && o.spec_is_failure()),
        !(o.spec_is_success() && o is Error),
        !(o.spec_is_failure() && o is Error),
{
}

/// Event emitted during test execution.
#[derive(Debug, Clone, PartialEq)]
pub enum TestEvent {
    /// A test is about to start.
    TestStart { node_id: String },
    /// A test has completed.
    TestFinish {
        node_id: String,
        outcome: Outcome,
        duration_ms: u64,
        stdout: Option<String>,
        stderr: Option<String>,
    },
    /// Collection is starting.
    CollectionStart,
    /// A test file was collected.
    ItemCollected {
        node_id: String,
        file_path: String,
        line_number: Option<u32>,
        markers: Vec<String>,
    },
    /// Collection has finished.
    CollectionFinish { count: usize },
    /// Session is starting.
    SessionStart { test_count: usize },
    /// Session has finished.
    SessionFinish { exit_code: i32 },
    /// A warning was emitted.
    Warning { message: String, location: Option<String> },
}

/// Log levels matching Python's logging module.
#[derive(Debug, Clone, Copy, PartialEq, Eq, Structural)]
pub enum LogLevel {
    Debug,
    Info,
    Warning,
    Error,
    Critical,
}

/// Log event for daemon logging.
#[derive(Debug, Clone, PartialEq)]
pub struct LogEvent {
    pub level: LogLevel,
    pub message: String,
    pub module: Option<String>,
    pub timestamp_ms: u64,
}

/// Test node information returned from the daemon.
#[derive(Debug, Clone, PartialEq)]
pub struct TestNodeInfo {
    pub node_id: String,
    pub file_path: String,
    pub lineno: Option<u32>,
    pub name: String,
    pub class_name: Option<String>,
    pub markers: Vec<String>,
    pub skip: bool,
    pub xfail: bool,
}

/// Individual test result info for streaming.
#[derive(Debug, Clone, PartialEq)]
pub struct TestResultInfo {
    pub node_id: String,
    pub outcome: String,
    pub duration_ms: u64,
    pub message: Option<String>,
}

/// Error codes for categorizing failures.
#[derive(Debug, Clone, Copy, PartialEq, Eq, Structural)]
pub enum ErrorCode {
    /// Context not found or not initialized.
    ContextNotFound,
    /// Collection failed (syntax error, import error, etc.).
    CollectionFailed,
    /// Invalid request parameters.
    InvalidRequest,
    /// Internal daemon error.
    InternalError,
    /// Operation timed out.
    Timeout,
    /// Python interpreter not found or invalid.
    PythonNotFound,
}

/// The requests the daemon serves, by kind; `Other` stands for the kinds it
/// does not implement.
#[derive(Debug, Clone, Copy, PartialEq, Eq, Structural)]
pub enum RequestKind {
    InitContext,
    Collect,
    Run,
    List,
    GetInventory,
    Ping,
    Shutdown,
    GetWorkerStatus,
    ConfigureWorkers,
    RunStream,
    GetRunProgress,
    GetFlakinessReport,
    Other,
}

/// Whether the context a request names is open in the daemon.
#[derive(Debug, Clone, Copy, PartialEq, Eq, Structural)]
pub enum LookupResult {
    Found,
    Missing,
}

/// How the daemon serves a request.
#[derive(Debug, Clone, Copy, PartialEq, Eq, Structural)]
pub enum Action {
    /// Answer with the context that is already open for the repository.
    ReuseContext,
    /// Open a new context for the repository and answer with it.
    CreateContext,
    /// Serve the request with the context it names.
    ServeWithContext,
    /// Answer that the named context is not open.
    ContextNotFound,
    /// Answer `Pong`.
    Pong,
    /// Close the named context, or every context, and acknowledge.
    CloseContexts,
    /// Answer with the status of an idle worker pool.
    IdleWorkerStatus,
    /// Acknowledge a worker configuration with no workers.
    NoWorkersConfigured,
    /// Refuse: streaming runs are not implemented.
    StreamingNotImplemented,
    /// Refuse: the request type is not implemented.
    NotImplemented,
}

/// The requests that are served with the context they name.
pub open spec fn serves_with_context(kind: RequestKind) -> bool {
    ||| kind is Collect
    ||| kind is Run
    ||| kind is List
    ||| kind is GetInventory
    ||| kind is GetFlakinessReport
}

/// How a request of `kind` is served when the lookup of its context gave `lookup`.
pub open spec fn answer_spec(kind: RequestKind, lookup: LookupResult) -> Action {
    if kind is InitContext {
        if lookup is Found {
            Action::ReuseContext
        } else {
            Action::CreateContext
        }
    } else if serves_with_context(kind) {
        if lookup is Found {
            Action::ServeWithContext
        } else {
            Action::ContextNotFound
        }
    } else {
        match kind {
            RequestKind::Ping => Action::Pong,
            RequestKind::Shutdown => Action::CloseContexts,
            RequestKind::GetWorkerStatus => Action::IdleWorkerStatus,
            RequestKind::ConfigureWorkers => Action::NoWorkersConfigured,
            RequestKind::RunStream => Action::StreamingNotImplemented,
            RequestKind::GetRunProgress => Action::StreamingNotImplemented,
            _ => Action::NotImplemented,
        }
    }
}

/// Decides how a request is served: an initialization reuses the open
/// context of its repository or creates one; a request that names a context
/// is served with it, or answered that it is not found; the others do not
/// depend on the lookup.
pub fn answer(kind: RequestKind, lookup: LookupResult) -> (a: Action)
    ensures
        a == answer_spec(kind, lookup),
{
    let found = match lookup {
        LookupResult::Found => true,
        LookupResult::Missing => false,
    };
    match kind {
        RequestKind::InitContext => if found {
            Action::ReuseContext
        } else {
            Action::CreateContext
        },
        RequestKind::Collect | RequestKind::Run | RequestKind::List | RequestKind::GetInventory
        | RequestKind::GetFlakinessReport => if found {
            Action::ServeWithContext
        } else {
            Action::ContextNotFound
        },
        RequestKind::Ping => Action::Pong,
        RequestKind::Shutdown => Action::CloseContexts,
        RequestKind::GetWorkerStatus => Action::IdleWorkerStatus,
        RequestKind::ConfigureWorkers => Action::NoWorkersConfigured,
        RequestKind::RunStream | RequestKind::GetRunProgress => Action::StreamingNotImplemented,
        RequestKind::Other => Action::NotImplemented,
    }
}

/// The message of the answer to a request whose context is not open:
/// `Context not found: <id>`.
pub fn context_not_found_message(context_id: &str) -> (r: String)
    ensures
        r@ == "Context not found: "@ + context_id@,
{
    let mut r = String::from_str("Context not found: ");
    push_str_chars(&mut r, context_id);
    r
}

} // verus!
