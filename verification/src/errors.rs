//! Error values for the three fatal failures of a dump run.
//!
//! Opening the file, measuring it and mapping a window are the only
//! operations that can abort a run; each failure carries the OS error code
//! it came from. Unmap and close failures during cleanup are never
//! escalated, so no value exists for them.

use vstd::prelude::*;
use vstd::string::StringExecFns;

verus! {

/// Which fatal operation failed.
#[derive(Clone, Copy, Debug, PartialEq, Eq, Structural)]
pub enum FailureKind {
    /// The file could not be opened.
    Open,
    /// The file's size could not be read.
    Metadata,
    /// A window of the file could not be mapped.
    Mapping,
}

/// A fatal dump failure: the operation that failed and the OS error code.
#[derive(Clone, Copy, Debug, PartialEq, Eq, Structural)]
pub struct DumpError {
    pub kind: FailureKind,
    pub code: i32,
}

#[verifier::external_type_specification]
#[verifier::external_body]
pub struct ExIoError(std::io::Error);

/// Relies on std::io::Error::last_os_error: reads the OS error value that
/// the calling thread's last failed operation left behind. The value
/// depends on ambient OS state, so nothing is promised of it.
#[verifier::external_body]
fn last_os_error() -> std::io::Error {
    std::io::Error::last_os_error()
}

/// Relies on std::io::Error::raw_os_error: hands out the raw OS error code
/// the value was built from, if there is one. Nothing is promised of it.
pub assume_specification[ std::io::Error::raw_os_error ](e: &std::io::Error) -> Option<i32>;

/// The code an OS error report carries, or -1 where the OS gave none.
pub fn code_or_unknown(code: Option<i32>) -> (r: i32)
    ensures
        match code {
            Some(c) => r == c,
            None => r == -1,
        },
{
    match code {
        Some(c) => c,
        None => -1,
    }
}

/// The OS error code of the calling thread's last failed operation, or -1
/// where the OS reported none.
pub fn errno() -> i32 {
    let err = last_os_error();
    code_or_unknown(err.raw_os_error())
}

/// The error value for a failure of `kind` that the OS just reported:
/// carries the thread's current OS error code.
pub fn capture_failure(kind: FailureKind) -> (r: DumpError)
    ensures
        r.kind == kind,
{
    DumpError { kind, code: errno() }
}

/// The message prefix reported for a failure kind, before the OS's own
/// description of the error code.
pub open spec fn prefix_rep(kind: FailureKind) -> Seq<char> {
    match kind {
        FailureKind::Open => "Couldn't open file: "@,
        FailureKind::Metadata => "Couldn't get file info: "@,
        FailureKind::Mapping => "Couldn't read file: "@,
    }
}

/// The human-readable prefix of the message for a failure kind.
pub fn failure_prefix(kind: FailureKind) -> (r: &'static str)
    ensures
        r@ == prefix_rep(kind),
{
    match kind {
        FailureKind::Open => "Couldn't open file: ",
        FailureKind::Metadata => "Couldn't get file info: ",
        FailureKind::Mapping => "Couldn't read file: ",
    }
}

/// The complete message reported for a failure: the kind's prefix, then
/// the OS's own description of the error code, exactly in that order.
pub fn failure_message(kind: FailureKind, detail: &str) -> (r: String)
    ensures
        r@ == prefix_rep(kind) + detail@,
{
    let mut message = String::new();
    message.append(failure_prefix(kind));
    message.append(detail);
    message
}

} // verus!
