//! Error type of the daemon's operations.

use vstd::prelude::*;

verus! {

/// Errors of the daemon. Errors that come from the outside (I/O, encoding,
/// the database, the transport) carry their message.
#[derive(Debug, Clone, PartialEq, Eq)]
pub enum DaemonError {
    Io(String),
    Serialization(String),
    Deserialization(String),
    Storage(String),
    Ipc(String),
    Nng(String),
    ContextNotFound(String),
    InvalidRequest(String),
    CollectionFailed(String),
    PythonExecution(String),
    Timeout(String),
    Json(String),
    AstParsing(String),
    Watcher(String),
    Walkdir(String),
    Other(String),
}

} // verus!
