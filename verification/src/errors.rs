//! Errors of the service and of the server behind it.

use vstd::prelude::*;

verus! {

/// Errors reported by an SDA service.
#[derive(Clone, Debug, PartialEq)]
pub enum SdaError {
    /// A failure described by its message.
    Msg(String),
    /// The credentials shown do not match the recorded ones.
    InvalidCredentials,
    /// The caller may not act on the resource.
    PermissionDenied,
    /// The request is malformed.
    Invalid(String),
}

pub type SdaResult<T> = Result<T, SdaError>;

/// Errors reported by the server's stores and workflow.
#[derive(Clone, Debug, PartialEq)]
pub enum SdaServerError {
    /// A failure described by its message.
    Msg(String),
}

pub type SdaServerResult<T> = Result<T, SdaServerError>;

} // verus!
