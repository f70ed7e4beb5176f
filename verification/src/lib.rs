//! A user-management backend's authentication core: a token processor that
//! issues and verifies signed, time-bounded bearer credentials, the request
//! gate that enforces them on protected routes, the login flow built on top,
//! and the user records and error taxonomy around them.

use vstd::prelude::*;

pub mod b64;
pub mod claims;
pub mod clock;
pub mod crypto;
pub mod jwt;
pub mod decimal;
pub mod errors;
pub mod gate;
pub mod login;
pub mod jsontext;
pub mod store;
pub mod textutil;
pub mod user;

pub use errors::AppError;
pub use errors::AppErrorMessage;

verus! {

/// Process-wide configuration: the signing secret and the token lifetime in
/// hours, loaded once at startup and never mutated.
#[derive(Debug)]
pub struct AppState {
    pub jwt_secret_key: String,
    pub jwt_lifetime: i64,
}

impl Clone for AppState {
    /// An exact copy of the configuration.
    fn clone(&self) -> (r: AppState)
        ensures
            r == *self,
    {
        AppState {
            jwt_secret_key: self.jwt_secret_key.clone(),
            jwt_lifetime: self.jwt_lifetime,
        }
    }
}

} // verus!
