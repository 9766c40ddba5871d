//! Error and request shapes of the surrounding HTTP surface.
//!
//! The routing layer itself is a collaborator outside this engine; what it
//! needs from here are the error shape it serializes and the rule mapping
//! an error code to an HTTP status.

use vstd::prelude::*;

verus! {

/// An error as the HTTP surface reports it: a message and a short code.
pub struct ApiError {
    pub error: String,
    pub code: String,
}

/// The HTTP status an error code maps to: 401 for a rejected credential,
/// 404 for a missing resource, 500 for database, internal and storage
/// failures, 400 for everything else, validation failures included.
pub open spec fn spec_status_for_code(code: Seq<char>) -> u16 {
    if code == "UNAUTHORIZED"@ {
        401
    } else if code == "404"@ {
        404
    } else if code == "DB_ERROR"@ || code == "INTERNAL"@ || code == "STORAGE_FAIL"@ {
        500
    } else {
        400
    }
}

impl ApiError {
    /// The HTTP status this error is reported with.
    pub fn status(&self) -> (r: u16)
        ensures
            r == spec_status_for_code(self.code@),
    {
        let code = self.code.as_str();
        if crate::storage::str_eq(code, "UNAUTHORIZED") {
            401
        } else if crate::storage::str_eq(code, "404") {
            404
        } else if crate::storage::str_eq(code, "DB_ERROR") || crate::storage::str_eq(
            code,
            "INTERNAL",
        ) || crate::storage::str_eq(code, "STORAGE_FAIL") {
            500
        } else {
            400
        }
    }
}

/// The body of an explicit snapshot-save request: the full-state bytes to
/// append to the document's log.
pub struct SnapshotRequest {
    pub data: Vec<u8>,
}

} // verus!
