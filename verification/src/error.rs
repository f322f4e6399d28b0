//! The crate's error type.

use vstd::prelude::*;
use crate::bytes::data::Data;

verus! {

/// What went wrong, as a machine-readable tag.
#[derive(Clone, Copy, Debug, PartialEq, Eq, Structural)]
pub enum ErrorKind {
    /// An underlying transport or file failure.
    Io,
    /// The request header grew past the configured maximum without a terminator.
    HeaderTooLarge,
    /// The start line was not terminated by a carriage-return/line-feed pair.
    TruncatedStartLine,
    /// The start line was missing one of its two space separators.
    InvalidStartLine,
    /// A header field line was not terminated by a carriage-return/line-feed pair.
    TruncatedField,
    /// A header field line was missing its colon separator.
    InvalidField,
    /// The job queue was full when a dispatch was attempted.
    Congested,
    /// A worker spawn was refused because the configured maximum was reached.
    WorkerLimit,
    /// A field value that should name a number does not, or names one too
    /// large to hold.
    InvalidNumber,
    /// Anything else.
    Other,
}

/// Each kind's canonical description.
pub open spec fn kind_message_spec(kind: ErrorKind) -> Seq<char> {
    match kind {
        ErrorKind::Io => "An I/O error occurred"@,
        ErrorKind::HeaderTooLarge => "HTTP header is too large"@,
        ErrorKind::TruncatedStartLine => "Truncated HTTP start line"@,
        ErrorKind::InvalidStartLine => "Invalid HTTP start line"@,
        ErrorKind::TruncatedField => "Truncated HTTP header field"@,
        ErrorKind::InvalidField => "Invalid HTTP header field"@,
        ErrorKind::Congested => "Threadpool is congested"@,
        ErrorKind::WorkerLimit => "Worker limit exceeded"@,
        ErrorKind::InvalidNumber => "Value is not a valid integer"@,
        ErrorKind::Other => "Error"@,
    }
}

/// Each kind's canonical description.
pub fn kind_message(kind: ErrorKind) -> (r: &'static str)
    ensures
        r@ == kind_message_spec(kind),
{
    match kind {
        ErrorKind::Io => "An I/O error occurred",
        ErrorKind::HeaderTooLarge => "HTTP header is too large",
        ErrorKind::TruncatedStartLine => "Truncated HTTP start line",
        ErrorKind::InvalidStartLine => "Invalid HTTP start line",
        ErrorKind::TruncatedField => "Truncated HTTP header field",
        ErrorKind::InvalidField => "Invalid HTTP header field",
        ErrorKind::Congested => "Threadpool is congested",
        ErrorKind::WorkerLimit => "Worker limit exceeded",
        ErrorKind::InvalidNumber => "Value is not a valid integer",
        ErrorKind::Other => "Error",
    }
}

/// The crate's error type: a kind, a human-readable description, an optional
/// underlying cause, and the raw bytes that provoked the error, if any.
#[derive(Debug)]
pub struct Error {
    /// What went wrong.
    pub kind: ErrorKind,
    /// The error description.
    pub error: String,
    /// The underlying error's description, if there is one.
    pub source: Option<String>,
    /// The offending raw bytes, for diagnostics.
    pub detail: Data,
}

impl Error {
    /// Creates a new error with an ad-hoc description.
    pub fn new(error: String, source: Option<String>) -> (r: Self)
        ensures
            r.kind == ErrorKind::Other,
            r.error == error,
            r.source == source,
            r.detail@ == Seq::<u8>::empty(),
    {
        Self { kind: ErrorKind::Other, error, source, detail: Data::Empty }
    }

    /// Creates a new error of the given kind, carrying the offending bytes
    /// and the kind's canonical description.
    pub fn with_kind(kind: ErrorKind, detail: Data) -> (r: Self)
        ensures
            r.kind == kind,
            r.detail == detail,
            r.source is None,
            r.error@ == kind_message_spec(kind),
    {
        Self { kind, error: String::from_str(kind_message(kind)), source: None, detail }
    }

    /// Whether the error has captured a backtrace. This library's errors never
    /// capture one: backtrace collection is host-environment work that stays
    /// outside the verified core.
    pub fn has_backtrace(&self) -> (r: bool)
        ensures
            !r,
    {
        false
    }
}

} // verus!
