//! Failures of system calls, as plain values.
use vstd::prelude::*;

verus! {

/// The kinds of failure that the server tells apart.
#[derive(Clone, Copy, Debug, PartialEq, Eq, Structural)]
pub enum ErrorKind {
    /// A signal interrupted the call.
    Interrupted,
    /// The call would have had to wait.
    WouldBlock,
    /// A write took no byte.
    WriteZero,
    /// The data is not what was expected.
    InvalidInput,
    /// Any other failure.
    Other,
}

/// A failed operation.
#[derive(Debug)]
pub struct IoError {
    pub kind: ErrorKind,
    /// The operating system's number for the failure, where it reported it.
    pub code: Option<i32>,
    pub message: String,
}

impl IoError {
    /// Whether this is the failure of the given kind and message that no
    /// system call reported.
    pub open spec fn is_local(&self, kind: ErrorKind, message: Seq<char>) -> bool {
        &&& self.kind == kind
        &&& self.code is None
        &&& self.message@ == message
    }

    /// A failure found by the server itself.
    pub fn new(kind: ErrorKind, message: &str) -> (error: IoError)
        ensures
            error.is_local(kind, message@),
            error.kind == kind,
            error.code is None,
            error.message@ == message@,
    {
        IoError { kind, code: None, message: message.to_owned() }
    }
}

/// Reads the return value of a system call: `-1` stands for the failure that
/// the operating system recorded last.
pub fn syscall_result(ret: i32, last_error: IoError) -> (result: Result<i32, IoError>)
    ensures
        result == (if ret == -1 {
            Err::<i32, IoError>(last_error)
        } else {
            Ok::<i32, IoError>(ret)
        }),
{
    if ret == -1 {
        Err(last_error)
    } else {
        Ok(ret)
    }
}

/// A failure that the server finds itself is told by its kind and its message, and
/// has no number of the operating system.
pub proof fn law_local_failure_is_told_by_its_parts(
    error: IoError,
    kind: ErrorKind,
    message: Seq<char>,
)
    ensures
        error.is_local(kind, message) <==> error.kind == kind && error.code is None
            && error.message@ == message,
{
}

} // verus!
