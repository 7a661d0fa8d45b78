//! Errors of rule compilation and routing.
use vstd::prelude::*;

use crate::text::{chars_of, concat, string_of};

verus! {

#[derive(Debug, PartialEq)]
pub enum RouteError {
    InvalidUrl(String),
    RuleEngine(String),
}

/// The text of an error, as the error's display gives it.
pub open spec fn route_error_text(e: RouteError) -> Seq<char> {
    match e {
        RouteError::InvalidUrl(m) => "malformed url: "@ + m@,
        RouteError::RuleEngine(m) => "rule engine failure: "@ + m@,
    }
}

impl RouteError {
    /// The text of the error.
    pub fn message(&self) -> (s: String)
        ensures
            s@ == route_error_text(*self),
    {
        let (prefix, m) = match self {
            RouteError::InvalidUrl(m) => (chars_of("malformed url: "), m),
            RouteError::RuleEngine(m) => (chars_of("rule engine failure: "), m),
        };
        string_of(&concat(&prefix, &chars_of(m.as_str())))
    }
}

} // verus!
