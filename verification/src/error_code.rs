//! The standard error codes, and what each says about trying again.

use crate::text;
use vstd::prelude::*;

verus! {

broadcast use vstd::string::group_string_axioms;

/// A class of errors, whatever provider it comes from.
#[derive(Clone, Copy, PartialEq, Eq, Structural, Debug)]
pub enum StandardErrorCode {
    InvalidRequest,
    Authentication,
    PermissionDenied,
    NotFound,
    RequestTooLarge,
    RateLimited,
    QuotaExhausted,
    ServerError,
    Overloaded,
    Timeout,
    Conflict,
    Cancelled,
    Unknown,
}

/// The code of a class.
pub open spec fn code_of(c: StandardErrorCode) -> Seq<char> {
    match c {
        StandardErrorCode::InvalidRequest => "E1001"@,
        StandardErrorCode::Authentication => "E1002"@,
        StandardErrorCode::PermissionDenied => "E1003"@,
        StandardErrorCode::NotFound => "E1004"@,
        StandardErrorCode::RequestTooLarge => "E1005"@,
        StandardErrorCode::RateLimited => "E2001"@,
        StandardErrorCode::QuotaExhausted => "E2002"@,
        StandardErrorCode::ServerError => "E3001"@,
        StandardErrorCode::Overloaded => "E3002"@,
        StandardErrorCode::Timeout => "E3003"@,
        StandardErrorCode::Conflict => "E4001"@,
        StandardErrorCode::Cancelled => "E4002"@,
        StandardErrorCode::Unknown => "E9999"@,
    }
}

/// The name of a class.
pub open spec fn name_of(c: StandardErrorCode) -> Seq<char> {
    match c {
        StandardErrorCode::InvalidRequest => "invalid_request"@,
        StandardErrorCode::Authentication => "authentication"@,
        StandardErrorCode::PermissionDenied => "permission_denied"@,
        StandardErrorCode::NotFound => "not_found"@,
        StandardErrorCode::RequestTooLarge => "request_too_large"@,
        StandardErrorCode::RateLimited => "rate_limited"@,
        StandardErrorCode::QuotaExhausted => "quota_exhausted"@,
        StandardErrorCode::ServerError => "server_error"@,
        StandardErrorCode::Overloaded => "overloaded"@,
        StandardErrorCode::Timeout => "timeout"@,
        StandardErrorCode::Conflict => "conflict"@,
        StandardErrorCode::Cancelled => "cancelled"@,
        StandardErrorCode::Unknown => "unknown"@,
    }
}

/// The class with the given name, `Unknown` where no class has it.
pub open spec fn class_named(name: Seq<char>) -> StandardErrorCode {
    if name == "invalid_request"@ {
        StandardErrorCode::InvalidRequest
    } else if name == "authentication"@ {
        StandardErrorCode::Authentication
    } else if name == "permission_denied"@ {
        StandardErrorCode::PermissionDenied
    } else if name == "not_found"@ {
        StandardErrorCode::NotFound
    } else if name == "request_too_large"@ {
        StandardErrorCode::RequestTooLarge
    } else if name == "rate_limited"@ {
        StandardErrorCode::RateLimited
    } else if name == "quota_exhausted"@ {
        StandardErrorCode::QuotaExhausted
    } else if name == "server_error"@ {
        StandardErrorCode::ServerError
    } else if name == "overloaded"@ {
        StandardErrorCode::Overloaded
    } else if name == "timeout"@ {
        StandardErrorCode::Timeout
    } else if name == "conflict"@ {
        StandardErrorCode::Conflict
    } else if name == "cancelled"@ {
        StandardErrorCode::Cancelled
    } else {
        StandardErrorCode::Unknown
    }
}

/// The class that an HTTP status stands for.
pub open spec fn class_of_status(status: u16) -> StandardErrorCode {
    if status == 400 || status == 422 {
        StandardErrorCode::InvalidRequest
    } else if status == 401 {
        StandardErrorCode::Authentication
    } else if status == 402 {
        StandardErrorCode::QuotaExhausted
    } else if status == 403 {
        StandardErrorCode::PermissionDenied
    } else if status == 404 {
        StandardErrorCode::NotFound
    } else if status == 408 || status == 504 {
        StandardErrorCode::Timeout
    } else if status == 409 {
        StandardErrorCode::Conflict
    } else if status == 413 {
        StandardErrorCode::RequestTooLarge
    } else if status == 429 {
        StandardErrorCode::RateLimited
    } else if status == 503 || status == 529 {
        StandardErrorCode::Overloaded
    } else if 500 <= status < 600 {
        StandardErrorCode::ServerError
    } else {
        StandardErrorCode::Unknown
    }
}

/// The same request may succeed later.
pub open spec fn may_retry(c: StandardErrorCode) -> bool {
    match c {
        StandardErrorCode::RateLimited
        | StandardErrorCode::ServerError
        | StandardErrorCode::Overloaded
        | StandardErrorCode::Timeout
        | StandardErrorCode::Conflict => true,
        _ => false,
    }
}

/// Another provider may serve the request.
pub open spec fn may_fall_back(c: StandardErrorCode) -> bool {
    match c {
        StandardErrorCode::Authentication
        | StandardErrorCode::RateLimited
        | StandardErrorCode::QuotaExhausted
        | StandardErrorCode::ServerError
        | StandardErrorCode::Overloaded
        | StandardErrorCode::Timeout => true,
        _ => false,
    }
}

impl StandardErrorCode {
    /// The code of the class.
    pub fn code(&self) -> (r: &'static str)
        ensures
            r@ == code_of(*self),
    {
        match self {
            StandardErrorCode::InvalidRequest => "E1001",
            StandardErrorCode::Authentication => "E1002",
            StandardErrorCode::PermissionDenied => "E1003",
            StandardErrorCode::NotFound => "E1004",
            StandardErrorCode::RequestTooLarge => "E1005",
            StandardErrorCode::RateLimited => "E2001",
            StandardErrorCode::QuotaExhausted => "E2002",
            StandardErrorCode::ServerError => "E3001",
            StandardErrorCode::Overloaded => "E3002",
            StandardErrorCode::Timeout => "E3003",
            StandardErrorCode::Conflict => "E4001",
            StandardErrorCode::Cancelled => "E4002",
            StandardErrorCode::Unknown => "E9999",
        }
    }

    /// The name of the class.
    pub fn name(&self) -> (r: &'static str)
        ensures
            r@ == name_of(*self),
    {
        match self {
            StandardErrorCode::InvalidRequest => "invalid_request",
            StandardErrorCode::Authentication => "authentication",
            StandardErrorCode::PermissionDenied => "permission_denied",
            StandardErrorCode::NotFound => "not_found",
            StandardErrorCode::RequestTooLarge => "request_too_large",
            StandardErrorCode::RateLimited => "rate_limited",
            StandardErrorCode::QuotaExhausted => "quota_exhausted",
            StandardErrorCode::ServerError => "server_error",
            StandardErrorCode::Overloaded => "overloaded",
            StandardErrorCode::Timeout => "timeout",
            StandardErrorCode::Conflict => "conflict",
            StandardErrorCode::Cancelled => "cancelled",
            StandardErrorCode::Unknown => "unknown",
        }
    }

    /// The class with the given name, `Unknown` where no class has it.
    pub fn from_error_class(name: &str) -> (r: Self)
        ensures
            r == class_named(name@),
    {
        if text::text_eq(name, "invalid_request") {
            StandardErrorCode::InvalidRequest
        } else if text::text_eq(name, "authentication") {
            StandardErrorCode::Authentication
        } else if text::text_eq(name, "permission_denied") {
            StandardErrorCode::PermissionDenied
        } else if text::text_eq(name, "not_found") {
            StandardErrorCode::NotFound
        } else if text::text_eq(name, "request_too_large") {
            StandardErrorCode::RequestTooLarge
        } else if text::text_eq(name, "rate_limited") {
            StandardErrorCode::RateLimited
        } else if text::text_eq(name, "quota_exhausted") {
            StandardErrorCode::QuotaExhausted
        } else if text::text_eq(name, "server_error") {
            StandardErrorCode::ServerError
        } else if text::text_eq(name, "overloaded") {
            StandardErrorCode::Overloaded
        } else if text::text_eq(name, "timeout") {
            StandardErrorCode::Timeout
        } else if text::text_eq(name, "conflict") {
            StandardErrorCode::Conflict
        } else if text::text_eq(name, "cancelled") {
            StandardErrorCode::Cancelled
        } else {
            StandardErrorCode::Unknown
        }
    }

    /// The class that an HTTP status stands for.
    pub fn from_http_status(status: u16) -> (r: Self)
        ensures
            r == class_of_status(status),
    {
        if status == 400 || status == 422 {
            StandardErrorCode::InvalidRequest
        } else if status == 401 {
            StandardErrorCode::Authentication
        } else if status == 402 {
            StandardErrorCode::QuotaExhausted
        } else if status == 403 {
            StandardErrorCode::PermissionDenied
        } else if status == 404 {
            StandardErrorCode::NotFound
        } else if status == 408 || status == 504 {
            StandardErrorCode::Timeout
        } else if status == 409 {
            StandardErrorCode::Conflict
        } else if status == 413 {
            StandardErrorCode::RequestTooLarge
        } else if status == 429 {
            StandardErrorCode::RateLimited
        } else if status == 503 || status == 529 {
            StandardErrorCode::Overloaded
        } else if 500 <= status && status < 600 {
            StandardErrorCode::ServerError
        } else {
            StandardErrorCode::Unknown
        }
    }

    /// Whether the same request may succeed later.
    pub fn retryable(&self) -> (r: bool)
        ensures
            r == may_retry(*self),
    {
        match self {
            StandardErrorCode::RateLimited
            | StandardErrorCode::ServerError
            | StandardErrorCode::Overloaded
            | StandardErrorCode::Timeout
            | StandardErrorCode::Conflict => true,
            _ => false,
        }
    }

    /// Whether another provider may serve the request.
    pub fn fallbackable(&self) -> (r: bool)
        ensures
            r == may_fall_back(*self),
    {
        match self {
            StandardErrorCode::Authentication
            | StandardErrorCode::RateLimited
            | StandardErrorCode::QuotaExhausted
            | StandardErrorCode::ServerError
            | StandardErrorCode::Overloaded
            | StandardErrorCode::Timeout => true,
            _ => false,
        }
    }
}

/// Every class is found again under its own name.
pub proof fn names_lead_back(c: StandardErrorCode)
    ensures
        class_named(name_of(c)) == c,
{
    reveal_strlit("invalid_request");
    reveal_strlit("authentication");
    reveal_strlit("permission_denied");
    reveal_strlit("not_found");
    reveal_strlit("request_too_large");
    reveal_strlit("rate_limited");
    reveal_strlit("quota_exhausted");
    reveal_strlit("server_error");
    reveal_strlit("overloaded");
    reveal_strlit("timeout");
    reveal_strlit("conflict");
    reveal_strlit("cancelled");
    reveal_strlit("unknown");
    assert("invalid_request"@.len() == 15);
    assert("authentication"@.len() == 14);
    assert("permission_denied"@.len() == 17);
    assert("not_found"@.len() == 9);
    assert("request_too_large"@.len() == 17);
    assert("rate_limited"@.len() == 12);
    assert("quota_exhausted"@.len() == 15);
    assert("server_error"@.len() == 12);
    assert("overloaded"@.len() == 10);
    assert("timeout"@.len() == 7);
    assert("conflict"@.len() == 8);
    assert("cancelled"@.len() == 9);
    assert("unknown"@.len() == 7);
    // Names of one length differ in their first character.
    assert("invalid_request"@[0] != "quota_exhausted"@[0]);
    assert("rate_limited"@[0] != "server_error"@[0]);
    assert("not_found"@[0] != "cancelled"@[0]);
    assert("timeout"@[0] != "unknown"@[0]);
    assert("permission_denied"@[0] != "request_too_large"@[0]);
}

/// Trying again helps against limits, faults and conflicts, never against
/// requests that are wrong, forbidden or given up.
pub proof fn passing_faults_may_be_retried(c: StandardErrorCode)
    ensures
        may_retry(StandardErrorCode::RateLimited) && may_retry(StandardErrorCode::ServerError)
            && may_retry(StandardErrorCode::Overloaded) && may_retry(StandardErrorCode::Timeout)
            && may_retry(StandardErrorCode::Conflict),
        !may_retry(StandardErrorCode::InvalidRequest) && !may_retry(
            StandardErrorCode::Authentication,
        ) && !may_retry(StandardErrorCode::PermissionDenied) && !may_retry(
            StandardErrorCode::NotFound,
        ) && !may_retry(StandardErrorCode::RequestTooLarge) && !may_retry(
            StandardErrorCode::QuotaExhausted,
        ) && !may_retry(StandardErrorCode::Cancelled) && !may_retry(StandardErrorCode::Unknown),
        may_retry(c) && c != StandardErrorCode::Conflict ==> may_fall_back(c),
        may_fall_back(c) <==> (may_retry(c) && c != StandardErrorCode::Conflict) || c
            == StandardErrorCode::Authentication || c == StandardErrorCode::QuotaExhausted,
{
}

/// Each status that has a class of its own stands for it; other server errors
/// are server errors, and everything else is unknown.
pub proof fn statuses_stand_for_classes(status: u16)
    ensures
        class_of_status(400) == StandardErrorCode::InvalidRequest,
        class_of_status(401) == StandardErrorCode::Authentication,
        class_of_status(402) == StandardErrorCode::QuotaExhausted,
        class_of_status(403) == StandardErrorCode::PermissionDenied,
        class_of_status(404) == StandardErrorCode::NotFound,
        class_of_status(408) == StandardErrorCode::Timeout,
        class_of_status(409) == StandardErrorCode::Conflict,
        class_of_status(413) == StandardErrorCode::RequestTooLarge,
        class_of_status(422) == StandardErrorCode::InvalidRequest,
        class_of_status(429) == StandardErrorCode::RateLimited,
        class_of_status(503) == StandardErrorCode::Overloaded,
        class_of_status(504) == StandardErrorCode::Timeout,
        class_of_status(529) == StandardErrorCode::Overloaded,
        500 <= status < 600 && status != 503 && status != 504 && status != 529 ==> class_of_status(
            status,
        ) == StandardErrorCode::ServerError,
        500 <= status < 600 ==> may_retry(class_of_status(status)),
        status < 400 || status >= 600 ==> class_of_status(status) == StandardErrorCode::Unknown,
        class_of_status(status) == StandardErrorCode::Unknown ==> status < 500 || status >= 600,
{
}

/// No two classes have one code.
pub proof fn codes_differ(a: StandardErrorCode, b: StandardErrorCode)
    requires
        code_of(a) == code_of(b),
    ensures
        a == b,
{
    reveal_strlit("E1001");
    reveal_strlit("E1002");
    reveal_strlit("E1003");
    reveal_strlit("E1004");
    reveal_strlit("E1005");
    reveal_strlit("E2001");
    reveal_strlit("E2002");
    reveal_strlit("E3001");
    reveal_strlit("E3002");
    reveal_strlit("E3003");
    reveal_strlit("E4001");
    reveal_strlit("E4002");
    reveal_strlit("E9999");
    assert("E1001"@[1] == '1' && "E1001"@[4] == '1');
    assert("E1002"@[1] == '1' && "E1002"@[4] == '2');
    assert("E1003"@[1] == '1' && "E1003"@[4] == '3');
    assert("E1004"@[1] == '1' && "E1004"@[4] == '4');
    assert("E1005"@[1] == '1' && "E1005"@[4] == '5');
    assert("E2001"@[1] == '2' && "E2001"@[4] == '1');
    assert("E2002"@[1] == '2' && "E2002"@[4] == '2');
    assert("E3001"@[1] == '3' && "E3001"@[4] == '1');
    assert("E3002"@[1] == '3' && "E3002"@[4] == '2');
    assert("E3003"@[1] == '3' && "E3003"@[4] == '3');
    assert("E4001"@[1] == '4' && "E4001"@[4] == '1');
    assert("E4002"@[1] == '4' && "E4002"@[4] == '2');
    assert("E9999"@[1] == '9' && "E9999"@[4] == '9');
    assert(code_of(a)[1] == code_of(b)[1] && code_of(a)[4] == code_of(b)[4]);
}

} // verus!
