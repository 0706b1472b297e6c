//! Application error type, its HTTP status mapping, and error counters.

use vstd::prelude::*;
use vstd::string::*;

verus! {

/// The error type shared by every component of the engine.
///
/// Admission failures surface as `NotFound` / `TooManyConnections`;
/// a tripped circuit breaker surfaces as `ServiceUnavailable`; the other
/// variants carry failures from the application boundary (auth, storage,
/// streaming transport).
#[derive(Debug, Clone, PartialEq)]
pub enum AppError {
    Unauthorized(String),
    NotFound(String),
    ResourceExhausted(String),
    TooManyConnections(String),
    StorageError(String),
    StreamingError(String),
    InternalError(String),
    JwtError(String),
    ServiceUnavailable(String),
}

/// The message carried inside an error, whatever the variant.
pub open spec fn payload_of(e: AppError) -> Seq<char> {
    match e {
        AppError::Unauthorized(m) => m@,
        AppError::NotFound(m) => m@,
        AppError::ResourceExhausted(m) => m@,
        AppError::TooManyConnections(m) => m@,
        AppError::StorageError(m) => m@,
        AppError::StreamingError(m) => m@,
        AppError::InternalError(m) => m@,
        AppError::JwtError(m) => m@,
        AppError::ServiceUnavailable(m) => m@,
    }
}

/// The text an error renders to: a variant prefix followed by its message.
pub open spec fn describe_spec(e: AppError) -> Seq<char> {
    match e {
        AppError::Unauthorized(m) => "Unauthorized: "@ + m@,
        AppError::NotFound(m) => "Not found: "@ + m@,
        AppError::ResourceExhausted(m) => "Resource exhausted: "@ + m@,
        AppError::TooManyConnections(m) => "Too many connections: "@ + m@,
        AppError::StorageError(m) => "Storage error: "@ + m@,
        AppError::StreamingError(m) => "Streaming error: "@ + m@,
        AppError::InternalError(m) => "Internal error: "@ + m@,
        AppError::JwtError(m) => "JWT error: "@ + m@,
        AppError::ServiceUnavailable(m) => "Service unavailable: "@ + m@,
    }
}

/// The HTTP status each variant maps to at the response boundary.
pub open spec fn status_code_spec(e: AppError) -> u16 {
    match e {
        AppError::Unauthorized(_) => 401,
        AppError::NotFound(_) => 404,
        AppError::ResourceExhausted(_) => 429,
        AppError::TooManyConnections(_) => 503,
        AppError::StorageError(_) => 500,
        AppError::StreamingError(_) => 500,
        AppError::InternalError(_) => 500,
        AppError::JwtError(_) => 401,
        AppError::ServiceUnavailable(_) => 503,
    }
}

impl AppError {
    /// Renders the error as human-readable text.
    pub fn describe(&self) -> (r: String)
        ensures
            r@ == describe_spec(*self),
    {
        match self {
            AppError::Unauthorized(m) => String::from_str("Unauthorized: ").concat(m.as_str()),
            AppError::NotFound(m) => String::from_str("Not found: ").concat(m.as_str()),
            AppError::ResourceExhausted(m) => String::from_str("Resource exhausted: ").concat(
                m.as_str(),
            ),
            AppError::TooManyConnections(m) => String::from_str("Too many connections: ").concat(
                m.as_str(),
            ),
            AppError::StorageError(m) => String::from_str("Storage error: ").concat(m.as_str()),
            AppError::StreamingError(m) => String::from_str("Streaming error: ").concat(m.as_str()),
            AppError::InternalError(m) => String::from_str("Internal error: ").concat(m.as_str()),
            AppError::JwtError(m) => String::from_str("JWT error: ").concat(m.as_str()),
            AppError::ServiceUnavailable(m) => String::from_str("Service unavailable: ").concat(
                m.as_str(),
            ),
        }
    }

    /// The HTTP status code for this error.
    pub fn status_code(&self) -> (r: u16)
        ensures
            r == status_code_spec(*self),
    {
        match self {
            AppError::Unauthorized(_) => 401,
            AppError::NotFound(_) => 404,
            AppError::ResourceExhausted(_) => 429,
            AppError::TooManyConnections(_) => 503,
            AppError::StorageError(_) => 500,
            AppError::StreamingError(_) => 500,
            AppError::InternalError(_) => 500,
            AppError::JwtError(_) => 401,
            AppError::ServiceUnavailable(_) => 503,
        }
    }
}

/// Counters over errors seen so far, bumped once per recorded error.
///
/// The collector is an explicit instance handed to whoever records or
/// reads; there is no ambient process-wide state.
#[derive(Debug, Clone, PartialEq)]
pub struct ErrorMetrics {
    pub total_errors: u64,
    pub streaming_errors: u64,
    pub storage_errors: u64,
}

impl ErrorMetrics {
    /// Fresh counters, all zero.
    pub fn new() -> (r: Self)
        ensures
            r.total_errors == 0,
            r.streaming_errors == 0,
            r.storage_errors == 0,
    {
        ErrorMetrics { total_errors: 0, streaming_errors: 0, storage_errors: 0 }
    }

    /// Records one error: the total always moves; the category counters
    /// move only for streaming or storage errors.
    pub fn record(&mut self, e: &AppError)
        ensures
            final(self).total_errors == crate::sat_inc64(old(self).total_errors),
            final(self).streaming_errors == if e is StreamingError {
                crate::sat_inc64(old(self).streaming_errors)
            } else {
                old(self).streaming_errors
            },
            final(self).storage_errors == if e is StorageError {
                crate::sat_inc64(old(self).storage_errors)
            } else {
                old(self).storage_errors
            },
    {
        if self.total_errors < u64::MAX {
            self.total_errors = self.total_errors + 1;
        }
        match e {
            AppError::StreamingError(_) => {
                if self.streaming_errors < u64::MAX {
                    self.streaming_errors = self.streaming_errors + 1;
                }
            },
            AppError::StorageError(_) => {
                if self.storage_errors < u64::MAX {
                    self.storage_errors = self.storage_errors + 1;
                }
            },
            _ => {},
        }
    }

    /// A point-in-time snapshot of the counters.
    pub fn get_current(&self) -> (r: Self)
        ensures
            r == *self,
    {
        ErrorMetrics {
            total_errors: self.total_errors,
            streaming_errors: self.streaming_errors,
            storage_errors: self.storage_errors,
        }
    }

    /// Clears every counter back to zero.
    pub fn reset(&mut self)
        ensures
            final(self).total_errors == 0,
            final(self).streaming_errors == 0,
            final(self).storage_errors == 0,
    {
        self.total_errors = 0;
        self.streaming_errors = 0;
        self.storage_errors = 0;
    }
}

/// Result alias used across the engine.
pub type AppResult<T> = Result<T, AppError>;

} // verus!
