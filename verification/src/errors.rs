//! The error taxonomy of the service and the generic error body it answers
//! with. Every failure is local to one request; none is fatal to the process.

use vstd::prelude::*;
use vstd::string::StringExecFns;

verus! {

/// Every request-scoped failure the core can report.
#[derive(Clone, Copy, Debug, PartialEq, Eq, Structural)]
pub enum Error {
    /// Signup for an email that is already indexed.
    EmailExists,
    /// Login with an email that is not indexed.
    NoSuchUser,
    /// Login with a password that does not verify against the stored hash.
    BadPassword,
    /// A credential names an account that does not exist.
    InvalidID,
    /// The account exists but no task document was ever written.
    NoTasks,
    /// No authorization credential was presented.
    MissingHeader,
    /// More than one authorization credential was presented.
    TooManyHeaders,
    /// The credential is not of the form `Bearer <token>`.
    MissingScheme,
    /// The token is not valid base64.
    DecodeError,
    /// The decoded bytes do not parse into the expected payload.
    MalformedPayload,
}

impl Error {
    /// The user-visible message of this error.
    pub open spec fn spec_message(self) -> Seq<char> {
        match self {
            Error::EmailExists => "email exists"@,
            Error::NoSuchUser => "no such user"@,
            Error::BadPassword => "password doesn't match"@,
            Error::InvalidID => "invalid token"@,
            Error::NoTasks => "no tasks"@,
            Error::MissingHeader => "auth: missing header"@,
            Error::TooManyHeaders => "auth: too many headers"@,
            Error::MissingScheme => "auth: missing Bearer scheme"@,
            Error::DecodeError => "auth: while base64 decoding"@,
            Error::MalformedPayload => "auth: while JSON decoding"@,
        }
    }

    /// Render the user-visible message of this error.
    pub fn message(&self) -> (r: String)
        ensures
            r@ == self.spec_message(),
    {
        match self {
            Error::EmailExists => String::from_str("email exists"),
            Error::NoSuchUser => String::from_str("no such user"),
            Error::BadPassword => String::from_str("password doesn't match"),
            Error::InvalidID => String::from_str("invalid token"),
            Error::NoTasks => String::from_str("no tasks"),
            Error::MissingHeader => String::from_str("auth: missing header"),
            Error::TooManyHeaders => String::from_str("auth: too many headers"),
            Error::MissingScheme => String::from_str("auth: missing Bearer scheme"),
            Error::DecodeError => String::from_str("auth: while base64 decoding"),
            Error::MalformedPayload => String::from_str("auth: while JSON decoding"),
        }
    }
}

/// The generic error body: `{"error": <message>}` once serialized at the edge.
pub struct ErrRes {
    pub error: String,
}

impl ErrRes {
    /// Wrap an error's message as a response body.
    pub fn of_error(e: &Error) -> (r: ErrRes)
        ensures
            r.error@ == e.spec_message(),
    {
        ErrRes { error: e.message() }
    }

    /// Wrap a fixed message as a response body.
    pub fn of_msg(msg: &str) -> (r: ErrRes)
        ensures
            r.error@ == msg@,
    {
        ErrRes { error: String::from_str(msg) }
    }
}

/// Body of the catch-all answer to a malformed request.
pub fn bad_request() -> (r: ErrRes)
    ensures
        r.error@ == "bad request"@,
{
    ErrRes::of_msg("bad request")
}

/// Body of the answer to a request that lacks credentials.
pub fn unauthorized() -> (r: ErrRes)
    ensures
        r.error@ == "requires authentication"@,
{
    ErrRes::of_msg("requires authentication")
}

/// Body of the answer to a request for a route that does not exist.
pub fn not_found() -> (r: ErrRes)
    ensures
        r.error@ == "not found"@,
{
    ErrRes::of_msg("not found")
}

/// Body of the answer to a request whose body does not parse.
pub fn unprocessable_entity() -> (r: ErrRes)
    ensures
        r.error@ == "unprocessable entity"@,
{
    ErrRes::of_msg("unprocessable entity")
}

/// Body of the answer to an uncaught fault.
pub fn internal_server_error() -> (r: ErrRes)
    ensures
        r.error@ == "internal server error"@,
{
    ErrRes::of_msg("internal server error")
}

} // verus!
