//! Credential request types and their validation rules.
//!
//! Authentication itself — password hashing, token issuance — is a consumed
//! collaborator capability outside this engine. What belongs here are the
//! request shapes a collaborator hands in and the admission rules on them:
//! a registration is accepted only with a username of 3 to 20 characters
//! and a password of at least 8.

use vstd::prelude::*;
use vstd::string::StrSliceExecFns;

verus! {

/// A request to register a new user.
pub struct RegisterRequest {
    pub username: String,
    pub password: String,
}

/// A request to log an existing user in.
pub struct LoginRequest {
    pub username: String,
    pub password: String,
}

impl RegisterRequest {
    /// The admission rule: 3 to 20 characters of username, at least 8 of
    /// password.
    pub open spec fn valid(&self) -> bool {
        &&& 3 <= self.username@.len() <= 20
        &&& self.password@.len() >= 8
    }

    /// Check the admission rule.
    pub fn validate(&self) -> (r: bool)
        ensures
            r == self.valid(),
    {
        let ulen = self.username.as_str().unicode_len();
        let plen = self.password.as_str().unicode_len();
        3 <= ulen && ulen <= 20 && plen >= 8
    }
}

} // verus!
