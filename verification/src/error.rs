//! The error that a request is answered with.
use vstd::prelude::*;

verus! {

/// An error response: an HTTP status, a stable code and a message for people.
#[derive(Debug)]
pub struct ApiError {
    pub status: u16,
    pub code: &'static str,
    pub message: String,
}

/// What an [`ApiError`] says.
#[verifier::ext_equal]
pub struct ErrorView {
    pub status: int,
    pub code: Seq<char>,
    pub message: Seq<char>,
}

impl View for ApiError {
    type V = ErrorView;

    open spec fn view(&self) -> ErrorView {
        ErrorView { status: self.status as int, code: self.code@, message: self.message@ }
    }
}

/// An error with the given status, code and message.
pub open spec fn error_of(status: int, code: Seq<char>, message: Seq<char>) -> ErrorView {
    ErrorView { status, code, message }
}

/// What is said of a resource that does not exist.
pub open spec fn missing(resource: Seq<char>) -> ErrorView {
    error_of(404, "not_found"@, resource + " not found"@)
}

/// What a request without a valid key is answered.
pub open spec fn refused() -> ErrorView {
    error_of(401, "unauthorized"@, "authentication required"@)
}

/// What is said of a fault of the server itself.
pub open spec fn fault(message: Seq<char>) -> ErrorView {
    error_of(500, "internal_error"@, message)
}

impl ApiError {
    /// An error with the given status, code and message.
    pub fn new(status: u16, code: &'static str, message: String) -> (error: ApiError)
        ensures
            error@ == error_of(status as int, code@, message@),
    {
        ApiError { status, code, message }
    }

    /// The request itself is wrong: 400.
    pub fn bad_request(code: &'static str, message: &str) -> (error: ApiError)
        ensures
            error@ == error_of(400, code@, message@),
    {
        ApiError::new(400, code, message.to_owned())
    }

    /// The request carries no valid key: 401.
    pub fn unauthorized() -> (error: ApiError)
        ensures
            error@ == refused(),
    {
        ApiError::new(401, "unauthorized", "authentication required".to_owned())
    }

    /// The request is understood and not allowed: 403.
    pub fn forbidden(code: &'static str, message: &str) -> (error: ApiError)
        ensures
            error@ == error_of(403, code@, message@),
    {
        ApiError::new(403, code, message.to_owned())
    }

    /// The resource does not exist: 404.
    pub fn not_found(resource: &str) -> (error: ApiError)
        ensures
            error@ == missing(resource@),
    {
        ApiError::new(404, "not_found", resource.to_owned().concat(" not found"))
    }

    /// The request does not fit the present state: 409.
    pub fn conflict(code: &'static str, message: &str) -> (error: ApiError)
        ensures
            error@ == error_of(409, code@, message@),
    {
        ApiError::new(409, code, message.to_owned())
    }

    /// A tool that the request needs cannot be used: 503.
    pub fn dependency(code: &'static str, message: &str) -> (error: ApiError)
        ensures
            error@ == error_of(503, code@, message@),
    {
        ApiError::new(503, code, message.to_owned())
    }

    /// The server itself failed: 500.
    pub fn internal(message: String) -> (error: ApiError)
        ensures
            error@ == fault(message@),
    {
        ApiError::new(500, "internal_error", message)
    }
}

// ---------------------------------------------------------------------------------------------
// Laws
// ---------------------------------------------------------------------------------------------

/// Each kind of error has its own status.
pub proof fn errors_are_told_apart_by_their_status(
    code: &'static str,
    message: &str,
    said: String,
    wrong: ApiError,
    forbidden: ApiError,
    conflict: ApiError,
    dependency: ApiError,
    internal: ApiError,
)
    requires
        call_ensures(ApiError::bad_request, (code, message), wrong),
        call_ensures(ApiError::forbidden, (code, message), forbidden),
        call_ensures(ApiError::conflict, (code, message), conflict),
        call_ensures(ApiError::dependency, (code, message), dependency),
        call_ensures(ApiError::internal, (said,), internal),
    ensures
        wrong.status == 400,
        forbidden.status == 403,
        conflict.status == 409,
        dependency.status == 503,
        internal.status == 500,
        wrong.code@ == code@ && forbidden.code@ == code@ && conflict.code@ == code@
            && dependency.code@ == code@,
        wrong.message@ == message@ && forbidden.message@ == message@ && conflict.message@
            == message@ && dependency.message@ == message@,
        internal.code@ == "internal_error"@,
        internal.message@ == said@,
{
}

/// A request without a key is refused, and what does not exist is named.
pub proof fn what_does_not_exist_is_named(resource: &str, refused: ApiError, missing: ApiError)
    requires
        call_ensures(ApiError::unauthorized, (), refused),
        call_ensures(ApiError::not_found, (resource,), missing),
    ensures
        refused.status == 401,
        refused.code@ == "unauthorized"@,
        missing.status == 404,
        missing.code@ == "not_found"@,
        missing.message@ == resource@ + " not found"@,
{
}

} // verus!
