//! HTTP status codes and their reason phrases.
use vstd::prelude::*;
use crate::bytes::{decimal, push_decimal};

verus! {

/// A status code with its reason phrase, e.g. `404 Not Found`.
#[derive(Clone, Copy)]
pub struct StatusCode {
    pub code: usize,
    pub name: &'static str,
}

/// 200 OK.
pub open spec fn spec_ok() -> StatusCode {
    StatusCode { code: 200, name: "OK" }
}

/// 200 OK.
#[verifier::when_used_as_spec(spec_ok)]
pub fn ok() -> (r: StatusCode)
    ensures
        r == spec_ok(),
{
    StatusCode { code: 200, name: "OK" }
}

/// 301 Moved Permanently.
pub open spec fn spec_moved_permanently() -> StatusCode {
    StatusCode { code: 301, name: "Moved Permanently" }
}

/// 301 Moved Permanently.
#[verifier::when_used_as_spec(spec_moved_permanently)]
pub fn moved_permanently() -> (r: StatusCode)
    ensures
        r == spec_moved_permanently(),
{
    StatusCode { code: 301, name: "Moved Permanently" }
}

/// 400 Bad Request.
pub open spec fn spec_bad_request() -> StatusCode {
    StatusCode { code: 400, name: "Bad Request" }
}

/// 400 Bad Request.
#[verifier::when_used_as_spec(spec_bad_request)]
pub fn bad_request() -> (r: StatusCode)
    ensures
        r == spec_bad_request(),
{
    StatusCode { code: 400, name: "Bad Request" }
}

/// 401 Unauthorized.
pub open spec fn spec_unauthorized() -> StatusCode {
    StatusCode { code: 401, name: "Unauthorized" }
}

/// 401 Unauthorized.
#[verifier::when_used_as_spec(spec_unauthorized)]
pub fn unauthorized() -> (r: StatusCode)
    ensures
        r == spec_unauthorized(),
{
    StatusCode { code: 401, name: "Unauthorized" }
}

/// 403 Forbidden.
pub open spec fn spec_forbidden() -> StatusCode {
    StatusCode { code: 403, name: "Forbidden" }
}

/// 403 Forbidden.
#[verifier::when_used_as_spec(spec_forbidden)]
pub fn forbidden() -> (r: StatusCode)
    ensures
        r == spec_forbidden(),
{
    StatusCode { code: 403, name: "Forbidden" }
}

/// 404 Not Found.
pub open spec fn spec_not_found() -> StatusCode {
    StatusCode { code: 404, name: "Not Found" }
}

/// 404 Not Found.
#[verifier::when_used_as_spec(spec_not_found)]
pub fn not_found() -> (r: StatusCode)
    ensures
        r == spec_not_found(),
{
    StatusCode { code: 404, name: "Not Found" }
}

/// 500 Internal Server Error.
pub open spec fn spec_internal_server_error() -> StatusCode {
    StatusCode { code: 500, name: "Internal Server Error" }
}

/// 500 Internal Server Error.
#[verifier::when_used_as_spec(spec_internal_server_error)]
pub fn internal_server_error() -> (r: StatusCode)
    ensures
        r == spec_internal_server_error(),
{
    StatusCode { code: 500, name: "Internal Server Error" }
}

impl StatusCode {
    /// The text of a status code: the number, a space, the reason phrase.
    pub open spec fn text(self) -> Seq<char> {
        decimal(self.code as nat).push(' ') + self.name@
    }

    /// Renders the status code as `<code> <reason phrase>`.
    pub fn to_string(&self) -> (r: String)
        ensures
            r@ == self.text(),
    {
        let mut s = String::new();
        push_decimal(&mut s, self.code);
        s.push(' ');
        s.append(self.name);
        assert(s@ =~= self.text());
        s
    }
}

} // verus!
