//! The application's error type and how each error is reported to clients.

use vstd::prelude::*;
use crate::decimal::{decimal_text, u64_text};
use crate::text::{contains, contains_text, starts_with, starts_with_text};

verus! {

/// Every way a request can fail.
#[derive(Debug)]
pub enum AppError {
    Unauthorized(String),
    BadRequest(String),
    GitHubError(String),
    Internal(String),
    RateLimited(u64),
    Timeout(String),
    ValidationError(String, String),
}

/// The JSON body of an error response, field by field; absent fields are
/// left out of the JSON.
pub struct ErrorBody {
    pub error: String,
    pub error_code: String,
    pub usage: Option<String>,
    pub how_to_create: Option<String>,
    pub retry_after: Option<u64>,
}

/// The machine-readable code of each error.
pub open spec fn error_code_text(e: AppError) -> Seq<char> {
    match e {
        AppError::Unauthorized(_) => "UNAUTHORIZED"@,
        AppError::BadRequest(_) => "BAD_REQUEST"@,
        AppError::GitHubError(_) => "GITHUB_ERROR"@,
        AppError::Internal(_) => "INTERNAL_ERROR"@,
        AppError::RateLimited(_) => "RATE_LIMITED"@,
        AppError::Timeout(_) => "TIMEOUT"@,
        AppError::ValidationError(_, _) => "VALIDATION_ERROR"@,
    }
}

/// The HTTP status of each error: 401 for missing credentials, 400 for bad
/// input, 429 for rate limiting, 504 for timeouts and 500 otherwise.
pub open spec fn error_status(e: AppError) -> u16 {
    match e {
        AppError::Unauthorized(_) => 401,
        AppError::BadRequest(_) => 400,
        AppError::GitHubError(_) => 500,
        AppError::Internal(_) => 500,
        AppError::RateLimited(_) => 429,
        AppError::Timeout(_) => 504,
        AppError::ValidationError(_, _) => 400,
    }
}

/// Each error is answered with the status of its kind: 500 for internal and
/// GitHub failures, 400 for bad or invalid input, 401 for missing
/// credentials, 429 for rate limiting and 504 for timeouts.
pub proof fn lemma_error_status_classes(e: AppError)
    ensures
        (e is Internal || e is GitHubError) ==> error_status(e) == 500,
        (e is BadRequest || e is ValidationError) ==> error_status(e) == 400,
        e is Unauthorized ==> error_status(e) == 401,
        e is RateLimited ==> error_status(e) == 429,
        e is Timeout ==> error_status(e) == 504,
{
}

/// Each kind of error has its own machine-readable code.
pub proof fn lemma_error_codes_distinct(a: AppError, b: AppError)
    ensures
        error_code_text(a) == error_code_text(b) <==> (
            (a is Unauthorized && b is Unauthorized) || (a is BadRequest && b is BadRequest) || (
            a is GitHubError && b is GitHubError) || (a is Internal && b is Internal) || (
            a is RateLimited && b is RateLimited) || (a is Timeout && b is Timeout) || (
            a is ValidationError && b is ValidationError)),
{
    reveal_strlit("UNAUTHORIZED");
    reveal_strlit("BAD_REQUEST");
    reveal_strlit("GITHUB_ERROR");
    reveal_strlit("INTERNAL_ERROR");
    reveal_strlit("RATE_LIMITED");
    reveal_strlit("TIMEOUT");
    reveal_strlit("VALIDATION_ERROR");
    if error_code_text(a) == error_code_text(b) {
        assert(error_code_text(a).len() == error_code_text(b).len());
        assert(error_code_text(a)[0] == error_code_text(b)[0]);
    }
}

/// The message for a missing personal access token.
pub open spec fn token_required_text() -> Seq<char> {
    "GitHub Personal Access Token required for non-whitelisted users"@
}

/// The human-readable `error` field of each error's response body.
pub open spec fn error_message(e: AppError) -> Seq<char> {
    match e {
        AppError::Unauthorized(msg) => if contains_text(msg@, "required"@) {
            token_required_text()
        } else {
            msg@
        },
        AppError::BadRequest(msg) => if contains_text(msg@, "username"@) {
            "username parameter is required"@
        } else {
            msg@
        },
        AppError::GitHubError(msg) => "GraphQL query error: "@ + msg@,
        AppError::Internal(msg) => msg@,
        AppError::RateLimited(_) => "GitHub API rate limit exceeded"@,
        AppError::Timeout(reason) => "Request timed out: "@ + reason@,
        AppError::ValidationError(field, reason) => if starts_with_text(reason@, range_reason_prefix()) {
            field@ + " parameter "@ + reason@
        } else {
            "Validation failed for field '"@ + field@ + "': "@ + reason@
        },
    }
}

/// How the reason of an out-of-range parameter begins; such a parameter is
/// reported as `"<field> parameter must be between 1 and <max>"`.
pub open spec fn range_reason_prefix() -> Seq<char> {
    "must be between "@
}

/// The `usage` hint of an error's response body, where it has one.
pub open spec fn error_usage(e: AppError) -> Option<Seq<char>> {
    match e {
        AppError::Unauthorized(msg) => if contains_text(msg@, "required"@) {
            Some("Add header: Authorization: Bearer YOUR_GITHUB_PAT"@)
        } else {
            None
        },
        AppError::BadRequest(msg) => if contains_text(msg@, "username"@) {
            Some("Add ?username=your_github_username to the URL"@)
        } else {
            None
        },
        _ => None,
    }
}

/// The `how_to_create` hint, given only with a missing token.
pub open spec fn how_to_create_text() -> Seq<char> {
    "GitHub Settings → Developer settings → Personal access tokens -> Generate new token (no special permissions needed, just for rate limiting)"@
}

/// The `how_to_create` field of an error's response body, where it has one.
pub open spec fn error_how_to_create(e: AppError) -> Option<Seq<char>> {
    match e {
        AppError::Unauthorized(msg) => if contains_text(msg@, "required"@) {
            Some(how_to_create_text())
        } else {
            None
        },
        _ => None,
    }
}

/// The `retry_after` field, given only with rate limiting.
pub open spec fn error_retry_after(e: AppError) -> Option<u64> {
    match e {
        AppError::RateLimited(secs) => Some(secs),
        _ => None,
    }
}

/// The one-line description of an error.
pub open spec fn display_text(e: AppError) -> Seq<char> {
    match e {
        AppError::Unauthorized(msg) => "Unauthorized: "@ + msg@,
        AppError::BadRequest(msg) => "Bad Request: "@ + msg@,
        AppError::GitHubError(msg) => "GitHub API Error: "@ + msg@,
        AppError::Internal(msg) => "Internal Error: "@ + msg@,
        AppError::RateLimited(secs) => "Rate Limited: retry after "@ + decimal_text(secs as nat)
            + "s"@,
        AppError::Timeout(msg) => "Timeout: "@ + msg@,
        AppError::ValidationError(field, reason) => "Validation Error ("@ + field@ + "): "@
            + reason@,
    }
}

/// `a` followed by `b`, as a new `String`.
pub fn join2(a: &str, b: &str) -> (r: String)
    ensures
        r@ == a@ + b@,
{
    let mut s = String::from_str(a);
    s.append(b);
    s
}

/// `a`, `b`, `c` and `d` in a row, as a new `String`.
pub fn join4(a: &str, b: &str, c: &str, d: &str) -> (r: String)
    ensures
        r@ == a@ + b@ + c@ + d@,
{
    let mut s = String::from_str(a);
    s.append(b);
    s.append(c);
    s.append(d);
    s
}

impl AppError {
    /// The machine-readable code of the error.
    pub fn error_code(&self) -> (r: &'static str)
        ensures
            r@ == error_code_text(*self),
    {
        match self {
            AppError::Unauthorized(_) => "UNAUTHORIZED",
            AppError::BadRequest(_) => "BAD_REQUEST",
            AppError::GitHubError(_) => "GITHUB_ERROR",
            AppError::Internal(_) => "INTERNAL_ERROR",
            AppError::RateLimited(_) => "RATE_LIMITED",
            AppError::Timeout(_) => "TIMEOUT",
            AppError::ValidationError(_, _) => "VALIDATION_ERROR",
        }
    }

    /// The HTTP status and the JSON body of the error's response.
    pub fn to_error_parts(&self) -> (r: (u16, ErrorBody))
        ensures
            r.0 == error_status(*self),
            (*self is Internal || *self is GitHubError) ==> r.0 == 500,
            (*self is BadRequest || *self is ValidationError) ==> r.0 == 400,
            *self is Unauthorized ==> r.0 == 401,
            *self is RateLimited ==> r.0 == 429,
            *self is Timeout ==> r.0 == 504,
            r.1.error@ == error_message(*self),
            r.1.error_code@ == error_code_text(*self),
            r.1.usage.deep_view() == error_usage(*self),
            r.1.how_to_create.deep_view() == error_how_to_create(*self),
            r.1.retry_after == error_retry_after(*self),
    {
        let code = String::from_str(self.error_code());
        match self {
            AppError::Unauthorized(msg) => {
                if contains(msg.as_str(), "required") {
                    (
                        401,
                        ErrorBody {
                            error: String::from_str(
                                "GitHub Personal Access Token required for non-whitelisted users",
                            ),
                            error_code: code,
                            usage: Some(
                                String::from_str(
                                    "Add header: Authorization: Bearer YOUR_GITHUB_PAT",
                                ),
                            ),
                            how_to_create: Some(
                                String::from_str(
                                    "GitHub Settings → Developer settings → Personal access tokens -> Generate new token (no special permissions needed, just for rate limiting)",
                                ),
                            ),
                            retry_after: None,
                        },
                    )
                } else {
                    (
                        401,
                        ErrorBody {
                            error: msg.clone(),
                            error_code: code,
                            usage: None,
                            how_to_create: None,
                            retry_after: None,
                        },
                    )
                }
            },
            AppError::BadRequest(msg) => {
                if contains(msg.as_str(), "username") {
                    (
                        400,
                        ErrorBody {
                            error: String::from_str("username parameter is required"),
                            error_code: code,
                            usage: Some(
                                String::from_str("Add ?username=your_github_username to the URL"),
                            ),
                            how_to_create: None,
                            retry_after: None,
                        },
                    )
                } else {
                    (
                        400,
                        ErrorBody {
                            error: msg.clone(),
                            error_code: code,
                            usage: None,
                            how_to_create: None,
                            retry_after: None,
                        },
                    )
                }
            },
            AppError::GitHubError(msg) => (
                500,
                ErrorBody {
                    error: join2("GraphQL query error: ", msg.as_str()),
                    error_code: code,
                    usage: None,
                    how_to_create: None,
                    retry_after: None,
                },
            ),
            AppError::Internal(msg) => (
                500,
                ErrorBody {
                    error: msg.clone(),
                    error_code: code,
                    usage: None,
                    how_to_create: None,
                    retry_after: None,
                },
            ),
            AppError::RateLimited(retry_after) => (
                429,
                ErrorBody {
                    error: String::from_str("GitHub API rate limit exceeded"),
                    error_code: code,
                    usage: None,
                    how_to_create: None,
                    retry_after: Some(*retry_after),
                },
            ),
            AppError::Timeout(reason) => (
                504,
                ErrorBody {
                    error: join2("Request timed out: ", reason.as_str()),
                    error_code: code,
                    usage: None,
                    how_to_create: None,
                    retry_after: None,
                },
            ),
            AppError::ValidationError(field, reason) => (
                400,
                ErrorBody {
                    error: if starts_with(reason.as_str(), "must be between ") {
                        let mut s = join2(field.as_str(), " parameter ");
                        s.append(reason.as_str());
                        s
                    } else {
                        join4(
                            "Validation failed for field '",
                            field.as_str(),
                            "': ",
                            reason.as_str(),
                        )
                    },
                    error_code: code,
                    usage: None,
                    how_to_create: None,
                    retry_after: None,
                },
            ),
        }
    }

    /// The one-line description of the error, as its `Display` gives it.
    pub fn to_display_string(&self) -> (r: String)
        ensures
            r@ == display_text(*self),
    {
        match self {
            AppError::Unauthorized(msg) => join2("Unauthorized: ", msg.as_str()),
            AppError::BadRequest(msg) => join2("Bad Request: ", msg.as_str()),
            AppError::GitHubError(msg) => join2("GitHub API Error: ", msg.as_str()),
            AppError::Internal(msg) => join2("Internal Error: ", msg.as_str()),
            AppError::RateLimited(secs) => {
                let n = u64_text(*secs);
                let mut s = join2("Rate Limited: retry after ", n.as_str());
                s.append("s");
                s
            },
            AppError::Timeout(msg) => join2("Timeout: ", msg.as_str()),
            AppError::ValidationError(field, reason) => join4(
                "Validation Error (",
                field.as_str(),
                "): ",
                reason.as_str(),
            ),
        }
    }
}

} // verus!
