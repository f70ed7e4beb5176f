//! The error taxonomy: every failure a handler can surface, and the fixed
//! structured body a rejected request carries.

use vstd::prelude::*;

verus! {

/// The structured error body returned to a client: a numeric status code and
/// a message.
#[derive(Debug)]
pub struct AppErrorMessage {
    pub code: u16,
    pub message: String,
}

/// Every failure kind a handler can surface.
///
/// Verification failures of a credential are always collapsed to
/// `Unauthorized` before they reach a client, so that the client cannot tell
/// which check failed.
#[derive(Debug)]
pub enum AppError {
    InternalError { message: String },
    BadRequest { message: String },
    NotFound { message: String },
    Unauthorized,
}

impl AppError {
    /// The client-visible message of this error.
    pub fn name(&self) -> (r: String)
        ensures
            r@ == self.spec_name(),
    {
        match self {
            Self::NotFound { message: m } => m.clone(),
            Self::BadRequest { message: m } => m.clone(),
            Self::InternalError { message: m } => m.clone(),
            Self::Unauthorized => "Unauthorized".to_owned(),
        }
    }

    /// What `name` returns.
    pub open spec fn spec_name(&self) -> Seq<char> {
        match self {
            Self::NotFound { message: m } => m@,
            Self::BadRequest { message: m } => m@,
            Self::InternalError { message: m } => m@,
            Self::Unauthorized => "Unauthorized"@,
        }
    }

    /// The numeric HTTP status this error maps to.
    pub fn status_code(&self) -> (r: u16)
        ensures
            r == self.spec_status_code(),
    {
        match self {
            Self::InternalError { .. } => 500,
            Self::BadRequest { .. } => 400,
            Self::NotFound { .. } => 404,
            Self::Unauthorized => 401,
        }
    }

    /// What `status_code` returns.
    pub open spec fn spec_status_code(&self) -> u16 {
        match self {
            Self::InternalError { .. } => 500u16,
            Self::BadRequest { .. } => 400u16,
            Self::NotFound { .. } => 404u16,
            Self::Unauthorized => 401u16,
        }
    }

    /// The fixed structured body a rejected request is answered with.
    pub fn to_message(&self) -> (r: AppErrorMessage)
        ensures
            r.code == self.spec_status_code(),
            r.message@ == self.spec_name(),
    {
        AppErrorMessage { code: self.status_code(), message: self.name() }
    }
}

} // verus!
