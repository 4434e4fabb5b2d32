//! The uniform error envelope of the API.

use vstd::prelude::*;

verus! {

/// What went wrong: a stable snake_case code, an English message, and
/// optional structured details.
#[derive(Debug)]
pub struct ErrorDetail {
    pub code: String,
    pub message: String,
    pub details: Option<serde_json::Value>,
}

/// The body of every error response.
#[derive(Debug)]
pub struct ErrorBody {
    pub error: ErrorDetail,
}

impl ErrorBody {
    /// An error without details.
    pub fn new(code: String, message: String) -> (b: Self)
        ensures
            b.error.code@ == code@,
            b.error.message@ == message@,
            b.error.details is None,
    {
        ErrorBody { error: ErrorDetail { code, message, details: None } }
    }

    /// The same error with `details` attached.
    pub fn with_details(self, details: serde_json::Value) -> (b: Self)
        ensures
            b.error.code@ == self.error.code@,
            b.error.message@ == self.error.message@,
            b.error.details == Some(details),
    {
        let mut b = self;
        b.error.details = Some(details);
        b
    }
}

} // verus!
