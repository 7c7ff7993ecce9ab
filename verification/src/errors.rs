//! Failure taxonomy: fatal ingestion errors and storage errors, with plain
//! string payloads so that every variant can be inspected and displayed by
//! callers.

use vstd::prelude::*;

verus! {

/// Errors raised by feed ingestion, time conversion, and remote-API
/// interpretation.
#[derive(Debug)]
pub enum CalendarError {
    /// A transport-level failure reaching the feed or the remote API.
    FetchError(String),
    /// A malformed feed structure, a missing mandatory field, or an
    /// unexpected API response shape.
    ParseError(String),
    /// A malformed date literal in the feed.
    TimeConversionError(String),
    /// A storage failure surfaced through a calendar-level operation.
    DatabaseError(String),
    /// A required configuration value is absent or malformed.
    EnvError(String),
    /// An input/output failure outside the network and the store.
    IoError(String),
}

impl CalendarError {
    /// The human-readable text carried by the error.
    pub fn message(&self) -> (r: &String)
        ensures
            r@ == self.spec_message(),
    {
        match self {
            CalendarError::FetchError(m) => m,
            CalendarError::ParseError(m) => m,
            CalendarError::TimeConversionError(m) => m,
            CalendarError::DatabaseError(m) => m,
            CalendarError::EnvError(m) => m,
            CalendarError::IoError(m) => m,
        }
    }

    /// The text carried by the error, at the specification level.
    pub open spec fn spec_message(&self) -> Seq<char> {
        match self {
            CalendarError::FetchError(m) => m@,
            CalendarError::ParseError(m) => m@,
            CalendarError::TimeConversionError(m) => m@,
            CalendarError::DatabaseError(m) => m@,
            CalendarError::EnvError(m) => m@,
            CalendarError::IoError(m) => m@,
        }
    }
}

/// Errors raised by the durable store.
#[derive(Debug)]
pub enum DatabaseError {
    /// The store could not hand out a connection.
    ConnectionError(String),
    /// A specific statement failed.
    QueryError(String),
    /// A required configuration value is absent or malformed.
    EnvError(String),
    /// A stored row could not be turned back into an event.
    DataConversionError(String),
}

impl DatabaseError {
    /// The human-readable text carried by the error.
    pub fn message(&self) -> (r: &String)
        ensures
            r@ == self.spec_message(),
    {
        match self {
            DatabaseError::ConnectionError(m) => m,
            DatabaseError::QueryError(m) => m,
            DatabaseError::EnvError(m) => m,
            DatabaseError::DataConversionError(m) => m,
        }
    }

    /// The text carried by the error, at the specification level.
    pub open spec fn spec_message(&self) -> Seq<char> {
        match self {
            DatabaseError::ConnectionError(m) => m@,
            DatabaseError::QueryError(m) => m@,
            DatabaseError::EnvError(m) => m@,
            DatabaseError::DataConversionError(m) => m@,
        }
    }
}

} // verus!
