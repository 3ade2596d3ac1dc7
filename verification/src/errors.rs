use vstd::prelude::*;

verus! {

/// Errors surfaced by the calculator core.
///
/// Variants mirror the failure taxonomy of the calculator: invalid
/// configuration, (de)serialization problems, non-UTF-8 text, file-reading
/// problems, failures reported by external callbacks (for example a geometry
/// backend), undersized output buffers, and broken internal invariants.
/// Payloads are plain messages; rendering and conversions from foreign error
/// types live with the unverified shell around this library.
#[derive(Debug, Clone)]
pub enum Error {
    /// Got an invalid parameter value in a function
    InvalidParameter(String),
    /// Error while serializing/deserializing data
    Json(String),
    /// Error due to strings containing non-utf8 data
    Utf8(String),
    /// Error related to reading structure files
    Chemfiles(String),
    /// Errors coming from external callbacks, typically inside the system
    /// implementation
    External { status: i32, message: String },
    /// Error used when a memory buffer is too small to fit the requested data
    BufferSize(String),
    /// Error used for failed internal consistency checks, i.e. bugs in this
    /// library
    Internal(String),
}

impl Error {
    /// True for the variant reserved to broken internal invariants.
    pub fn is_internal(&self) -> (r: bool)
        ensures
            r == (self is Internal),
    {
        match self {
            Error::Internal(_) => true,
            _ => false,
        }
    }
}

} // verus!
