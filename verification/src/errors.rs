use vstd::prelude::*;

verus! {

/// Every way an operation of this library can fail.
///
/// Storage-level failures (`QueryFailed`, `WriteFailed`) and transport
/// failures (`NetworkError`) arise only at the host boundary that performs
/// real I/O; they are carried here so the host can hand them back through
/// the same channel as the library's own errors.
#[derive(Clone, Copy, Debug, PartialEq, Eq, Structural)]
pub enum AppError {
    /// A timestamp outside the representable calendar range.
    InvalidTimestamp,
    /// The backing storage failed while reading.
    QueryFailed,
    /// The backing storage failed while writing.
    WriteFailed,
    /// An AI call was attempted with no stored credentials.
    ConfigMissing,
    /// A stored configuration document exists but does not parse.
    ConfigCorrupt,
    /// The AI endpoint was unreachable or the transport failed.
    NetworkError,
    /// The AI reply was not valid JSON.
    ResponseParseError,
    /// A prompt name that is already taken.
    DuplicateName,
}

} // verus!
