//! The error type shared by every operation of the library.

use vstd::prelude::*;
use vstd::string::StringExecFns;

verus! {

/// What can go wrong while building or emitting output.
#[derive(Debug)]
pub enum Error {
    /// A sink could not be opened, written or flushed.
    Io(String),
    /// A colour name was not understood.
    ParseColorError(String),
    /// A value could not be encoded as JSON.
    Json(String),
    /// A worker answered with something other than what was awaited, or not at all.
    WorkerError(String),
    /// A lock on shared output state could not be taken.
    SyncError(String),
    /// A command could not be enqueued because the worker's channel is closed.
    ChannelError(String),
    /// The process-wide logger was already set.
    SetLoggerError(String),
}

/// The kinds of [`Error`], without their detail.
#[derive(Clone, Copy, Debug, PartialEq, Eq, Structural)]
pub enum ErrorKind {
    Io,
    ParseColor,
    Json,
    Worker,
    Sync,
    Channel,
    SetLogger,
}

impl Error {
    /// The kind of this error, as a specification.
    pub open spec fn spec_kind(&self) -> ErrorKind {
        match self {
            Error::Io(_) => ErrorKind::Io,
            Error::ParseColorError(_) => ErrorKind::ParseColor,
            Error::Json(_) => ErrorKind::Json,
            Error::WorkerError(_) => ErrorKind::Worker,
            Error::SyncError(_) => ErrorKind::Sync,
            Error::ChannelError(_) => ErrorKind::Channel,
            Error::SetLoggerError(_) => ErrorKind::SetLogger,
        }
    }

    /// The detail carried by this error, as a specification.
    pub open spec fn spec_detail(&self) -> Seq<char> {
        match self {
            Error::Io(d) => d@,
            Error::ParseColorError(d) => d@,
            Error::Json(d) => d@,
            Error::WorkerError(d) => d@,
            Error::SyncError(d) => d@,
            Error::ChannelError(d) => d@,
            Error::SetLoggerError(d) => d@,
        }
    }

    /// The text shown for an error of kind `kind` with detail `detail`.
    pub open spec fn spec_message(kind: ErrorKind, detail: Seq<char>) -> Seq<char> {
        match kind {
            ErrorKind::Io => "IO error: "@ + detail,
            ErrorKind::ParseColor => detail,
            ErrorKind::Json => "Json error: "@ + detail,
            ErrorKind::Worker => "Worker error: "@ + detail,
            ErrorKind::Sync => "Error syncing output"@,
            ErrorKind::Channel => "Error sending data to channel"@,
            ErrorKind::SetLogger => detail,
        }
    }

    /// An error reported by, or about, a worker.
    pub fn worker_error(x: String) -> (e: Error)
        ensures
            e == Error::WorkerError(x),
    {
        Error::WorkerError(x)
    }

    /// An error about a lock that could not be taken; `x` describes the lock's state.
    pub fn sync_error(x: String) -> (e: Error)
        ensures
            e == Error::SyncError(x),
    {
        Error::SyncError(x)
    }

    /// An error about a command that could not be enqueued.
    pub fn channel_error(x: String) -> (e: Error)
        ensures
            e == Error::ChannelError(x),
    {
        Error::ChannelError(x)
    }

    /// The kind of this error.
    pub fn kind(&self) -> (k: ErrorKind)
        ensures
            k == self.spec_kind(),
    {
        match self {
            Error::Io(_) => ErrorKind::Io,
            Error::ParseColorError(_) => ErrorKind::ParseColor,
            Error::Json(_) => ErrorKind::Json,
            Error::WorkerError(_) => ErrorKind::Worker,
            Error::SyncError(_) => ErrorKind::Sync,
            Error::ChannelError(_) => ErrorKind::Channel,
            Error::SetLoggerError(_) => ErrorKind::SetLogger,
        }
    }

    /// The text shown for this error: a fixed prefix for its kind, then its
    /// detail; lock and channel failures show a fixed sentence only.
    pub fn message(&self) -> (s: String)
        ensures
            s@ == Error::spec_message(self.spec_kind(), self.spec_detail()),
    {
        match self {
            Error::Io(d) => String::from_str("IO error: ").concat(d.as_str()),
            Error::ParseColorError(d) => d.clone(),
            Error::Json(d) => String::from_str("Json error: ").concat(d.as_str()),
            Error::WorkerError(d) => String::from_str("Worker error: ").concat(d.as_str()),
            Error::SyncError(_) => String::from_str("Error syncing output"),
            Error::ChannelError(_) => String::from_str("Error sending data to channel"),
            Error::SetLoggerError(d) => d.clone(),
        }
    }
}

} // verus!
