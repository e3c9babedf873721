//! Error values returned to API clients.
use vstd::prelude::*;

verus! {

/// Storage-layer failures.
#[derive(Debug)]
pub enum DbError {
    NotFound(String),
    LimitExceeded(String),
    Duplicate(String),
    Storage(String),
}

/// An API error: the JSON body sent to clients, plus a detail kept for logs.
#[derive(Debug)]
pub struct AitError {
    pub message: String,
    pub code: u16,
    /// The error category, sent to clients as `type`.
    pub error_type: String,
    /// Internal detail (e.g. upstream error body) recorded in logs only;
    /// never sent to clients.
    pub detail: Option<String>,
    /// The id of the request the error answers, once it is known.
    pub request_id: Option<String>,
}

/// The HTTP status a code maps to: the code itself when it is a valid status
/// (100 to 999), 500 otherwise.
pub open spec fn status_of(code: u16) -> u16 {
    if 100 <= code <= 999 { code } else { 500 }
}

impl AitError {
    pub fn bad_request(msg: &str) -> (r: Self)
        ensures
            r.message@ == msg@,
            r.code == 400,
            r.error_type@ == "invalid_request_error"@,
            r.detail is None,
            r.request_id is None,
    {
        AitError {
            message: msg.to_string(),
            code: 400,
            error_type: "invalid_request_error".to_string(),
            detail: None,
            request_id: None,
        }
    }

    pub fn upstream_error(status: u16, msg: &str) -> (r: Self)
        ensures
            r.message@ == msg@,
            r.code == status,
            r.error_type@ == "upstream_error"@,
            r.detail is None,
            r.request_id is None,
    {
        AitError {
            message: msg.to_string(),
            code: status,
            error_type: "upstream_error".to_string(),
            detail: None,
            request_id: None,
        }
    }

    pub fn with_detail(self, detail: &str) -> (r: Self)
        ensures
            r.message == self.message,
            r.code == self.code,
            r.error_type == self.error_type,
            r.detail matches Some(d) && d@ == detail@,
            r.request_id == self.request_id,
    {
        AitError { detail: Some(detail.to_string()), ..self }
    }

    /// The same error, stamped with the id of the request it answers.
    pub fn with_request_id(self, request_id: &str) -> (r: Self)
        ensures
            r.message == self.message,
            r.code == self.code,
            r.error_type == self.error_type,
            r.detail == self.detail,
            r.request_id matches Some(id) && id@ == request_id@,
    {
        AitError { request_id: Some(request_id.to_string()), ..self }
    }

    /// The HTTP status this error is sent with.
    pub fn status_code(&self) -> (s: u16)
        ensures
            s == status_of(self.code),
    {
        if 100 <= self.code && self.code <= 999 {
            self.code
        } else {
            500
        }
    }

    pub fn from_db_error(e: DbError) -> (r: Self)
        ensures
            r.detail is None,
            r.request_id is None,
            match e {
                DbError::NotFound(msg) => r.message == msg && r.code == 404
                    && r.error_type@ == "not_found_error"@,
                DbError::LimitExceeded(msg) => r.message == msg && r.code == 409
                    && r.error_type@ == "invalid_request_error"@,
                DbError::Duplicate(msg) => r.message == msg && r.code == 409
                    && r.error_type@ == "invalid_request_error"@,
                DbError::Storage(msg) => r.message == msg && r.code == 500
                    && r.error_type@ == "internal_error"@,
            },
    {
        match e {
            DbError::NotFound(msg) => AitError {
                message: msg,
                code: 404,
                error_type: "not_found_error".to_string(),
                detail: None,
                request_id: None,
            },
            DbError::LimitExceeded(msg) => AitError {
                message: msg,
                code: 409,
                error_type: "invalid_request_error".to_string(),
                detail: None,
                request_id: None,
            },
            DbError::Duplicate(msg) => AitError {
                message: msg,
                code: 409,
                error_type: "invalid_request_error".to_string(),
                detail: None,
                request_id: None,
            },
            DbError::Storage(msg) => AitError {
                message: msg,
                code: 500,
                error_type: "internal_error".to_string(),
                detail: None,
                request_id: None,
            },
        }
    }

    /// The status and body sent to the client.
    pub fn into_response(self) -> (r: (u16, AitError))
        ensures
            r.0 == status_of(self.code),
            r.1 == self,
    {
        let s = self.status_code();
        (s, self)
    }
}

/// A 500 with a generic message; the cause is never sent to the client.
pub fn internal_error() -> (r: (u16, AitError))
    ensures
        r.0 == 500,
        r.1.message@ == "Internal server error"@,
        r.1.code == 500,
        r.1.error_type@ == "internal_error"@,
        r.1.detail is None,
        r.1.request_id is None,
{
    (500, AitError {
        message: "Internal server error".to_string(),
        code: 500,
        error_type: "internal_error".to_string(),
        detail: None,
        request_id: None,
    })
}

/// A 404 with `msg`.
pub fn not_found(msg: &str) -> (r: (u16, AitError))
    ensures
        r.0 == 404,
        r.1.message@ == msg@,
        r.1.code == 404,
        r.1.error_type@ == "not_found_error"@,
        r.1.detail is None,
        r.1.request_id is None,
{
    (404, AitError {
        message: msg.to_string(),
        code: 404,
        error_type: "not_found_error".to_string(),
        detail: None,
        request_id: None,
    })
}

/// A 401 with `msg`.
pub fn unauthorized(msg: &str) -> (r: (u16, AitError))
    ensures
        r.0 == 401,
        r.1.message@ == msg@,
        r.1.code == 401,
        r.1.error_type@ == "auth_error"@,
        r.1.detail is None,
        r.1.request_id is None,
{
    (401, AitError {
        message: msg.to_string(),
        code: 401,
        error_type: "auth_error".to_string(),
        detail: None,
        request_id: None,
    })
}

/// A storage failure, reported to the client as a generic 500.
pub fn db_error() -> (r: (u16, AitError))
    ensures
        r.0 == 500,
        r.1.message@ == "Internal server error"@,
        r.1.code == 500,
        r.1.error_type@ == "internal_error"@,
        r.1.detail is None,
        r.1.request_id is None,
{
    internal_error()
}

} // verus!
