//! The error answered by the API, and the empty success body.
use vstd::prelude::*;

use crate::text::{chars_of, string_of};

verus! {

/// HTTP 400.
pub const BAD_REQUEST: u16 = 400;

/// HTTP 401.
pub const UNAUTHORIZED: u16 = 401;

/// HTTP 404.
pub const NOT_FOUND: u16 = 404;

/// HTTP 500.
pub const INTERNAL_SERVER_ERROR: u16 = 500;

/// HTTP 501.
pub const NOT_IMPLEMENTED: u16 = 501;

/// Empty JSON response `{}` for endpoints that have nothing to return.
pub struct EmptyOk;

/// Unified error type for API handlers: an HTTP status code and a message.
pub struct AppError {
    pub status: u16,
    pub message: String,
}

impl AppError {
    /// A `400 Bad Request` error with the given message.
    pub fn bad_request(msg: &str) -> (e: AppError)
        ensures
            e.status == BAD_REQUEST,
            e.message@ == msg@,
    {
        AppError { status: BAD_REQUEST, message: string_of(&chars_of(msg)) }
    }

    /// A `401 Unauthorized` error with the message `Unauthorized`.
    pub fn unauthorized() -> (e: AppError)
        ensures
            e.status == UNAUTHORIZED,
            e.message@ == "Unauthorized"@,
    {
        AppError { status: UNAUTHORIZED, message: string_of(&chars_of("Unauthorized")) }
    }

    /// A `404 Not Found` error with the given message.
    pub fn not_found(msg: &str) -> (e: AppError)
        ensures
            e.status == NOT_FOUND,
            e.message@ == msg@,
    {
        AppError { status: NOT_FOUND, message: string_of(&chars_of(msg)) }
    }

    /// A `500 Internal Server Error` with the given message.
    pub fn internal(msg: &str) -> (e: AppError)
        ensures
            e.status == INTERNAL_SERVER_ERROR,
            e.message@ == msg@,
    {
        AppError { status: INTERNAL_SERVER_ERROR, message: string_of(&chars_of(msg)) }
    }

    /// A `500 Internal Server Error` that hides a database failure.
    pub fn database() -> (e: AppError)
        ensures
            e.status == INTERNAL_SERVER_ERROR,
            e.message@ == "Database error"@,
    {
        AppError::internal("Database error")
    }

    /// A `500 Internal Server Error` that hides any other internal failure.
    pub fn hidden_internal() -> (e: AppError)
        ensures
            e.status == INTERNAL_SERVER_ERROR,
            e.message@ == "Internal server error"@,
    {
        AppError::internal("Internal server error")
    }
}

} // verus!
