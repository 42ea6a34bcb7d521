//! The error types of request parsing.
use vstd::prelude::*;

verus! {

/// A request that could not be parsed, with a description of the problem.
#[derive(Debug)]
pub struct RequestParseError {
    pub details: String,
}

impl RequestParseError {
    /// An error carrying `msg` as its description.
    pub fn new(msg: &str) -> (r: RequestParseError)
        ensures
            r.details@ == msg@,
    {
        RequestParseError { details: msg.to_owned() }
    }

    /// The description, as the error displays itself.
    pub fn to_string(&self) -> (r: String)
        ensures
            r@ == self.details@,
    {
        self.details.clone()
    }

    /// The description.
    pub fn description(&self) -> (r: &str)
        ensures
            r@ == self.details@,
    {
        self.details.as_str()
    }
}

/// A byte sequence that is not a well-formed HTTP request.
#[derive(Debug)]
pub struct InvalidRequest {
    pub details: String,
}

impl InvalidRequest {
    /// An error carrying `msg` as its description.
    pub fn new(msg: &str) -> (r: InvalidRequest)
        ensures
            r.details@ == msg@,
    {
        InvalidRequest { details: msg.to_owned() }
    }

    /// The description, as the error displays itself.
    pub fn to_string(&self) -> (r: String)
        ensures
            r@ == self.details@,
    {
        self.details.clone()
    }

    /// The description.
    pub fn description(&self) -> (r: &str)
        ensures
            r@ == self.details@,
    {
        self.details.as_str()
    }
}

/// A word that is not one of the HTTP request methods.
#[derive(Debug)]
pub struct InvalidRequestMethod {
    pub details: String,
}

impl InvalidRequestMethod {
    /// An error carrying `msg` as its description.
    pub fn new(msg: &str) -> (r: InvalidRequestMethod)
        ensures
            r.details@ == msg@,
    {
        InvalidRequestMethod { details: msg.to_owned() }
    }

    /// The description, as the error displays itself.
    pub fn to_string(&self) -> (r: String)
        ensures
            r@ == self.details@,
    {
        self.details.clone()
    }

    /// The description.
    pub fn description(&self) -> (r: &str)
        ensures
            r@ == self.details@,
    {
        self.details.as_str()
    }
}

/// A method error becomes a request error with the same description.
impl From<InvalidRequestMethod> for InvalidRequest {
    fn from(e: InvalidRequestMethod) -> (r: InvalidRequest) {
        InvalidRequest { details: e.details }
    }
}

impl vstd::std_specs::convert::FromSpecImpl<InvalidRequestMethod> for InvalidRequest {
    open spec fn obeys_from_spec() -> bool {
        true
    }

    open spec fn from_spec(e: InvalidRequestMethod) -> InvalidRequest {
        InvalidRequest { details: e.details }
    }
}

} // verus!
