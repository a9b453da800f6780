use vstd::prelude::*;
use vstd::string::*;

verus! {

pub const NOT_FOUND: &'static str = "404 - Page not found";

pub const SERVER_ERROR: &'static str = "500 - Server error";

/// The statuses that a response can carry.
#[derive(Debug, Clone, Copy, PartialEq, Eq, Structural)]
pub enum HTTPStatus {
    OK,
    Accepted,
    NotFound,
    ServerError,
    MethodNotAllowed,
    BadRequest,
    Unauthorized,
    Forbidden,
    NoContent,
    PartialContent,
    RangeNotSatisfiable,
}

impl HTTPStatus {
    /// The status code.
    pub open spec fn code(self) -> u16 {
        match self {
            HTTPStatus::OK => 200u16,
            HTTPStatus::Accepted => 202u16,
            HTTPStatus::NoContent => 204u16,
            HTTPStatus::PartialContent => 206u16,
            HTTPStatus::BadRequest => 400u16,
            HTTPStatus::Unauthorized => 401u16,
            HTTPStatus::Forbidden => 403u16,
            HTTPStatus::NotFound => 404u16,
            HTTPStatus::MethodNotAllowed => 405u16,
            HTTPStatus::RangeNotSatisfiable => 416u16,
            HTTPStatus::ServerError => 500u16,
        }
    }

    /// The reason phrase.
    pub open spec fn phrase(self) -> &'static str {
        match self {
            HTTPStatus::OK => "OK",
            HTTPStatus::Accepted => "ACCEPTED",
            HTTPStatus::NoContent => "NO_CONTENT",
            HTTPStatus::PartialContent => "PARTIAL_CONTENT",
            HTTPStatus::BadRequest => "BAD_REQUEST",
            HTTPStatus::Unauthorized => "UNAUTHORIZED",
            HTTPStatus::Forbidden => "FORBIDDEN",
            HTTPStatus::NotFound => "NOT_FOUND",
            HTTPStatus::MethodNotAllowed => "METHOD_NOT_ALLOWED",
            HTTPStatus::RangeNotSatisfiable => "RANGE_NOT_SATISFIABLE",
            HTTPStatus::ServerError => "SERVER_ERROR",
        }
    }

    /// The status code and the reason phrase.
    pub fn code_and_phrase(&self) -> (r: (u16, &'static str))
        ensures
            r.0 == self.code(),
            r.1@ == self.phrase()@,
    {
        match self {
            HTTPStatus::OK => (200, "OK"),
            HTTPStatus::Accepted => (202, "ACCEPTED"),
            HTTPStatus::NoContent => (204, "NO_CONTENT"),
            HTTPStatus::PartialContent => (206, "PARTIAL_CONTENT"),
            HTTPStatus::BadRequest => (400, "BAD_REQUEST"),
            HTTPStatus::Unauthorized => (401, "UNAUTHORIZED"),
            HTTPStatus::Forbidden => (403, "FORBIDDEN"),
            HTTPStatus::NotFound => (404, "NOT_FOUND"),
            HTTPStatus::MethodNotAllowed => (405, "METHOD_NOT_ALLOWED"),
            HTTPStatus::RangeNotSatisfiable => (416, "RANGE_NOT_SATISFIABLE"),
            HTTPStatus::ServerError => (500, "SERVER_ERROR"),
        }
    }
}

/// The code and the reason phrase of a status. Every status has both.
pub fn get_phrase_from_code(status: &HTTPStatus) -> (r: Option<(u16, String)>)
    ensures
        r is Some,
        r matches Some((code, phrase)) ==> code == status.code() && phrase@ == status.phrase()@,
{
    let (code, phrase) = status.code_and_phrase();
    Some((code, phrase.to_owned()))
}

} // verus!
