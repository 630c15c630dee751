//! The service's errors, and the gRPC status each one is answered with.

use vstd::prelude::*;

verus! {

/// The body of an error answer.
#[derive(Debug, PartialEq, Eq)]
pub struct ErrorBody {
    error_message: String,
    pub error_code: String,
}

impl ErrorBody {
    pub closed spec fn message_view(&self) -> Seq<char> {
        self.error_message@
    }

    pub closed spec fn code_view(&self) -> Seq<char> {
        self.error_code@
    }

    pub fn new(error_message: String, error_code: String) -> (b: Self)
        ensures
            b.message_view() == error_message@,
            b.code_view() == error_code@,
    {
        ErrorBody { error_message, error_code }
    }

    pub fn error_message(&self) -> (m: &str)
        ensures
            m@ == self.message_view(),
    {
        self.error_message.as_str()
    }
}

#[derive(Debug, PartialEq, Eq)]
pub enum AppError {
    InternalError(String),
    InvalidRequest(String),
    DriverAppAuthFailed,
    DriverAppUnauthorized,
}

/// The gRPC status codes the service answers errors with.
#[derive(Debug, Clone, Copy, PartialEq, Eq, Structural)]
pub enum StatusCode {
    Internal,
    InvalidArgument,
    Unauthenticated,
}

/// The status code and message an error is answered with.
pub open spec fn status_of(e: AppError) -> (StatusCode, Seq<char>) {
    match e {
        AppError::InternalError(m) => (StatusCode::Internal, m@),
        AppError::InvalidRequest(m) => (StatusCode::InvalidArgument, m@),
        AppError::DriverAppAuthFailed => (StatusCode::InvalidArgument, "AUTH_FAILED"@),
        AppError::DriverAppUnauthorized => (StatusCode::Unauthenticated, "UNAUTHORIZED"@),
    }
}

impl AppError {
    /// The status code and message the error is answered with.
    pub fn into_status(self) -> (r: (StatusCode, String))
        ensures
            (r.0, r.1@) == status_of(self),
    {
        match self {
            AppError::InternalError(message) => (StatusCode::Internal, message),
            AppError::InvalidRequest(message) => (StatusCode::InvalidArgument, message),
            AppError::DriverAppAuthFailed => (StatusCode::InvalidArgument, String::from_str("AUTH_FAILED")),
            AppError::DriverAppUnauthorized => (StatusCode::Unauthenticated, String::from_str("UNAUTHORIZED")),
        }
    }
}

/// Why a message did not reach Kafka.
#[derive(Debug, PartialEq, Eq)]
pub enum KafkaError {
    SerializationError(String),
    PushFailed(String),
}

} // verus!
