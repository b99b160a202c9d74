use vstd::prelude::*;

verus! {

/// The failures that callers of the service can observe.
#[derive(Debug, Clone, Copy, PartialEq, Eq, Structural)]
pub enum ApiError {
    /// No bearer token, or one that does not exist.
    Unauthenticated,
    /// A valid caller acting on something that is missing or not theirs.
    Unauthorized,
    /// A unique key, such as a username, is already taken.
    Conflict,
    /// A referenced entity, such as a profile name, does not exist.
    NotFound,
    /// An upload grew past the size ceiling.
    PayloadTooLarge,
    /// A storage or environment failure with no remedy for the caller.
    Internal,
}

impl ApiError {
    /// The HTTP status code that carries this error.
    pub fn status_code(&self) -> (r: u16)
        ensures
            r == self.spec_status_code(),
    {
        match self {
            ApiError::Unauthenticated => 401,
            ApiError::Unauthorized => 401,
            ApiError::Conflict => 409,
            ApiError::NotFound => 404,
            ApiError::PayloadTooLarge => 413,
            ApiError::Internal => 500,
        }
    }

    pub open spec fn spec_status_code(&self) -> u16 {
        match self {
            ApiError::Unauthenticated => 401,
            ApiError::Unauthorized => 401,
            ApiError::Conflict => 409,
            ApiError::NotFound => 404,
            ApiError::PayloadTooLarge => 413,
            ApiError::Internal => 500,
        }
    }
}

} // verus!
