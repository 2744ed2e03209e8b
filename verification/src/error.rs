//! The parse error: which sub-pattern failed, and the unconsumed input at
//! the point of failure. Every sub-parser fails fast; the first error
//! reaches the caller unchanged.

use vstd::prelude::*;

verus! {

/// A parse failure. Each variant names the sub-pattern that failed and
/// carries the remaining input at the point of failure.
#[derive(Clone, Debug)]
pub enum Error {
    /// A bracket of the timestamp is missing, its content is off-shape,
    /// or the date or time of day is impossible.
    Timestamp { remain: String },
    /// The `mod=` introducer is missing or its value is empty.
    ModuleTag { remain: String },
    /// An endpoint value without `/`, with bad address text, or with a
    /// port that is not a number up to 65535.
    Endpoint { remain: String },
    /// The subject value is neither `cli` nor `srv`.
    Subject { remain: String },
    /// A required `|name=` tag is absent, misnamed, or has an empty value.
    Tag { name: String, remain: String },
    /// A number is missing where one is required, or does not fit its width.
    Integer { remain: String },
    /// The uptime value deviates from its literal shape.
    Duration { remain: String },
}

/// The mathematical shape of an [`Error`]: the same variants over
/// character sequences.
pub enum ErrorV {
    Timestamp { remain: Seq<char> },
    ModuleTag { remain: Seq<char> },
    Endpoint { remain: Seq<char> },
    Subject { remain: Seq<char> },
    Tag { name: Seq<char>, remain: Seq<char> },
    Integer { remain: Seq<char> },
    Duration { remain: Seq<char> },
}

impl View for Error {
    type V = ErrorV;

    open spec fn view(&self) -> ErrorV {
        match self {
            Error::Timestamp { remain } => ErrorV::Timestamp { remain: remain@ },
            Error::ModuleTag { remain } => ErrorV::ModuleTag { remain: remain@ },
            Error::Endpoint { remain } => ErrorV::Endpoint { remain: remain@ },
            Error::Subject { remain } => ErrorV::Subject { remain: remain@ },
            Error::Tag { name, remain } => ErrorV::Tag { name: name@, remain: remain@ },
            Error::Integer { remain } => ErrorV::Integer { remain: remain@ },
            Error::Duration { remain } => ErrorV::Duration { remain: remain@ },
        }
    }
}

impl Error {
    /// The failed sub-pattern as a short word, for display by a caller.
    pub fn kind_name(&self) -> (r: &'static str) {
        match self {
            Error::Timestamp { .. } => "timestamp",
            Error::ModuleTag { .. } => "module tag",
            Error::Endpoint { .. } => "endpoint",
            Error::Subject { .. } => "subject",
            Error::Tag { .. } => "tag",
            Error::Integer { .. } => "integer",
            Error::Duration { .. } => "duration",
        }
    }
}

} // verus!
