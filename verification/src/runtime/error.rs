//! Error statuses for the work runtime.
//!
//! Every error carries a short, simple, unique, static message
//! (*e.g.* `invalid-pod-id`) and a status code,
//! so that statuses reported to Kubelet can be correlated with the runtime logs.

use vstd::prelude::*;

verus! {

/// Status codes used by the runtime (a subset of the gRPC codes).
#[derive(Clone, Copy, Debug, PartialEq, Eq, Structural)]
pub enum Code {
    InvalidArgument,
    NotFound,
    FailedPrecondition,
    Internal,
}

/// An error status: a code and a short static message.
#[derive(Clone, Copy, Debug)]
pub struct Status {
    pub code: Code,
    pub message: &'static str,
}

/// A status seen as its code and the characters of its message.
pub struct StatusView {
    pub code: Code,
    pub message: Seq<char>,
}

impl View for Status {
    type V = StatusView;

    open spec fn view(&self) -> StatusView {
        StatusView { code: self.code, message: self.message@ }
    }
}

/// A status with the given code and message.
pub open spec fn status(code: Code, message: &'static str) -> StatusView {
    StatusView { code, message: message@ }
}

impl Status {
    pub fn new(code: Code, message: &'static str) -> (s: Status)
        ensures
            s@ == status(code, message),
    {
        Status { code, message }
    }

    pub fn invalid_argument(message: &'static str) -> (s: Status)
        ensures
            s@ == status(Code::InvalidArgument, message),
    {
        Status { code: Code::InvalidArgument, message }
    }

    pub fn internal(message: &'static str) -> (s: Status)
        ensures
            s@ == status(Code::Internal, message),
    {
        Status { code: Code::Internal, message }
    }

    pub fn not_found(message: &'static str) -> (s: Status)
        ensures
            s@ == status(Code::NotFound, message),
    {
        Status { code: Code::NotFound, message }
    }

    pub fn failed_precondition(message: &'static str) -> (s: Status)
        ensures
            s@ == status(Code::FailedPrecondition, message),
    {
        Status { code: Code::FailedPrecondition, message }
    }

    /// The status message.
    pub fn message(&self) -> (m: &'static str)
        ensures
            m@ == self@.message,
    {
        self.message
    }

    /// The status code.
    pub fn code(&self) -> (c: Code)
        ensures
            c == self.code,
    {
        self.code
    }
}

/// A result seen through the views of its success value and its error status.
pub open spec fn status_result<T: View>(r: Result<T, Status>) -> Result<T::V, StatusView> {
    match r {
        Ok(t) => Ok(t@),
        Err(e) => Err(e@),
    }
}

} // verus!
