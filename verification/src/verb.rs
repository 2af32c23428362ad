use vstd::prelude::*;
use crate::errors::{ErrorView, HttpError};
use crate::text::str_to_chars;
use crate::text::chars_eq_str;

verus! {

/// The closed set of HTTP methods this framework understands.
#[derive(PartialEq, Eq, Structural, Clone, Copy, Debug)]
pub enum Verb {
    POST,
    GET,
    PUT,
    DELETE,
    PATCH,
    OPTION,
}

/// Which verb a start-line token denotes, if any.
pub open spec fn spec_verb_of(s: Seq<char>) -> Option<Verb> {
    if s == "POST"@ {
        Some(Verb::POST)
    } else if s == "GET"@ {
        Some(Verb::GET)
    } else if s == "PUT"@ {
        Some(Verb::PUT)
    } else if s == "DELETE"@ {
        Some(Verb::DELETE)
    } else if s == "PATCH"@ {
        Some(Verb::PATCH)
    } else if s == "OPTIONS"@ {
        Some(Verb::OPTION)
    } else {
        None
    }
}

impl Verb {
    /// Exact-match parsing of a verb token; an unknown token is reported in
    /// the error detail.
    pub fn from_str(input: &str) -> (r: Result<Verb, HttpError>)
        ensures
            match r {
                Ok(v) => spec_verb_of(input@) == Some(v),
                Err(e) => spec_verb_of(input@) is None && e@ == ErrorView::BadRequest(
                    "Unknown verb: "@ + input@,
                ),
            },
    {
        let cs = str_to_chars(input);
        Verb::from_chars(cs.as_slice())
    }

    /// The same parsing, from an already split character slice.
    pub fn from_chars(cs: &[char]) -> (r: Result<Verb, HttpError>)
        ensures
            match r {
                Ok(v) => spec_verb_of(cs@) == Some(v),
                Err(e) => spec_verb_of(cs@) is None && e@ == ErrorView::BadRequest(
                    "Unknown verb: "@ + cs@,
                ),
            },
    {
        if chars_eq_str(cs, "POST") {
            Ok(Verb::POST)
        } else if chars_eq_str(cs, "GET") {
            Ok(Verb::GET)
        } else if chars_eq_str(cs, "PUT") {
            Ok(Verb::PUT)
        } else if chars_eq_str(cs, "DELETE") {
            Ok(Verb::DELETE)
        } else if chars_eq_str(cs, "PATCH") {
            Ok(Verb::PATCH)
        } else if chars_eq_str(cs, "OPTIONS") {
            Ok(Verb::OPTION)
        } else {
            let tok = crate::text::chars_to_string(&vstd::slice::slice_to_vec(cs));
            Err(HttpError::BadRequest("Unknown verb: ".to_owned().concat(tok.as_str())))
        }
    }
}

} // verus!
