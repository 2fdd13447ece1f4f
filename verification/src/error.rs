use vstd::prelude::*;
use vstd::string::*;

verus! {

/// An error answered to an HTTP client.
#[derive(Debug, Clone, PartialEq, Eq)]
pub enum AppError {
    /// The request is malformed (400).
    BadRequest(String),
    /// The object does not exist (404).
    NotFound,
    /// Authentication is missing or invalid (401).
    Unauthorized(String),
    /// The user may not do this (403).
    Forbidden(String),
    /// Any other failure, with its message (500).
    Internal(String),
}

/// The HTTP status answered for an error.
pub open spec fn status_of(e: AppError) -> u16 {
    match e {
        AppError::BadRequest(_) => 400,
        AppError::NotFound => 404,
        AppError::Unauthorized(_) => 401,
        AppError::Forbidden(_) => 403,
        AppError::Internal(_) => 500,
    }
}

impl AppError {
    /// The HTTP status code of the response for this error.
    pub fn status_code(&self) -> (s: u16)
        ensures s == status_of(*self),
    {
        match self {
            AppError::BadRequest(_) => 400,
            AppError::NotFound => 404,
            AppError::Unauthorized(_) => 401,
            AppError::Forbidden(_) => 403,
            AppError::Internal(_) => 500,
        }
    }

    /// The `detail` field of the JSON response body for this error.
    pub fn detail(&self) -> (d: String)
        ensures
            match self {
                AppError::NotFound => d@ == "not found"@,
                AppError::BadRequest(m) => d@ == m@,
                AppError::Unauthorized(m) => d@ == m@,
                AppError::Forbidden(m) => d@ == m@,
                AppError::Internal(m) => d@ == m@,
            },
    {
        match self {
            AppError::NotFound => String::from_str("not found"),
            AppError::BadRequest(m) => m.clone(),
            AppError::Unauthorized(m) => m.clone(),
            AppError::Forbidden(m) => m.clone(),
            AppError::Internal(m) => m.clone(),
        }
    }
}

} // verus!
