use vstd::prelude::*;
use crate::errors::{ErrorView, HttpError};
use crate::text::{chars_to_string, spec_split, split_sub, str_to_chars};
use crate::verb::{spec_verb_of, Verb};

verus! {

/// First line of a request: verb, resource path and protocol version.
#[derive(PartialEq, Debug, Clone)]
pub struct StartLine {
    pub protocol: String,
    pub verb: Verb,
    pub resource: String,
}

/// What parsing a start line yields: the verb and the resource token, or
/// the error reported to the client.
pub open spec fn spec_start_line(s: Seq<char>) -> Result<(Verb, Seq<char>), ErrorView> {
    let toks = spec_split(s, seq![' ']);
    match spec_verb_of(toks[0]) {
        None => Err(ErrorView::BadRequest("Unknown verb: "@ + toks[0])),
        Some(v) => {
            if toks.len() < 2 {
                Err(ErrorView::BadRequest("No ressource"@))
            } else {
                Ok((v, toks[1]))
            }
        },
    }
}

impl Default for StartLine {
    /// The neutral start line: a GET of the root resource.
    fn default() -> (r: StartLine)
        ensures
            r.protocol@ == "HTTP/1.1"@,
            r.verb == Verb::GET,
            r.resource@ == "/"@,
    {
        StartLine {
            protocol: "HTTP/1.1".to_owned(),
            verb: Verb::GET,
            resource: "/".to_owned(),
        }
    }
}

impl StartLine {
    pub fn new(verb: Verb, resource: String) -> (r: StartLine)
        ensures
            r.verb == verb,
            r.resource@ == resource@,
            r.protocol@ == "HTTP/1.1"@,
    {
        StartLine { protocol: "HTTP/1.1".to_owned(), verb, resource }
    }

    pub fn resource(&self) -> (r: String)
        ensures
            r@ == self.resource@,
    {
        self.resource.clone()
    }

    pub fn verb(&self) -> (r: Verb)
        ensures
            r == self.verb,
    {
        self.verb
    }

    /// Splits the line on spaces and reads the verb and resource tokens;
    /// the protocol token is not inspected and the default version is kept.
    pub fn try_from(value: String) -> (r: Result<StartLine, HttpError>)
        ensures
            match r {
                Ok(sl) => spec_start_line(value@) matches Ok(p) && sl.verb == p.0 && sl.resource@
                    == p.1 && sl.protocol@ == "HTTP/1.1"@,
                Err(e) => spec_start_line(value@) matches Err(ev) && e@ == ev,
            },
    {
        let cs = str_to_chars(value.as_str());
        let sep = vec![' '];
        let toks = split_sub(cs.as_slice(), sep.as_slice());
        proof {
            assert(sep@ =~= seq![' ']);
            assert(toks.deep_view() == spec_split(value@, seq![' ']));
            assert(toks.deep_view()[0] == toks@[0]@);
        }
        let verb = match Verb::from_chars(toks[0].as_slice()) {
            Ok(v) => v,
            Err(e) => {
                return Err(e);
            },
        };
        if toks.len() < 2 {
            return Err(HttpError::BadRequest("No ressource".to_owned()));
        }
        proof {
            assert(toks.deep_view()[1] == toks@[1]@);
        }
        let resource = chars_to_string(&toks[1]);
        Ok(StartLine { protocol: "HTTP/1.1".to_owned(), verb, resource })
    }
}

} // verus!
