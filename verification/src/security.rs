use vstd::prelude::*;
use crate::errors::{ErrorView, HttpError};
use crate::request::{spec_get_header, HTTPRequest, ReqView};
use crate::router::{RequestHandler, Route};
use crate::response::HTTPResponse;
use crate::text::{chars_eq_str, chars_to_string, spec_find, spec_split, split_sub, str_to_chars};

verus! {

/// Per-route authentication policy: anonymous access, or HTTP Basic with a
/// pluggable credential validator.
pub enum SecurityProtocol<V> where V: Fn((String, String)) -> bool {
    NoAuth,
    Basic(V),
}

impl<V> SecurityProtocol<V> where V: Fn((String, String)) -> bool + Copy {
    pub fn duplicate(&self) -> (r: SecurityProtocol<V>)
        ensures
            r == *self,
    {
        match self {
            SecurityProtocol::NoAuth => SecurityProtocol::NoAuth,
            SecurityProtocol::Basic(v) => SecurityProtocol::Basic(*v),
        }
    }
}

/// What decoding the URL-safe base64 engine makes of a text: a function of
/// the characters alone.
pub uninterp spec fn url_safe_decoded(s: Seq<char>) -> Option<Seq<u8>>;

/// Relies on base64's `URL_SAFE` engine: `decode` accepts or rejects a text
/// and yields bytes depending on the input text alone.
#[verifier::external_body]
fn b64_url_decode(s: &str) -> (r: Option<Vec<u8>>)
    ensures
        match r {
            Some(v) => url_safe_decoded(s@) == Some(v@),
            None => url_safe_decoded(s@) is None,
        },
{
    base64::Engine::decode(&base64::engine::general_purpose::URL_SAFE, s).ok()
}

/// The credential pair inside a request's `Authorization` header, or the
/// refusal reported to the client: the header must exist, its scheme must be
/// exactly `Basic`, and its second token must decode as base64 into UTF-8
/// text, which is cut at its first colon.
pub open spec fn spec_auth_credentials(rv: ReqView) -> Result<(Seq<char>, Seq<char>), ErrorView> {
    match spec_get_header(rv, "Authorization"@) {
        None => Err(ErrorView::Unauthorized("Missing header"@)),
        Some(kv) => {
            let toks = spec_split(kv.1, seq![' ']);
            if toks[0] != "Basic"@ {
                Err(ErrorView::Unauthorized("wrong protocol"@))
            } else if toks.len() < 2 {
                Err(ErrorView::Unauthorized("No user password provided"@))
            } else {
                match url_safe_decoded(toks[1]) {
                    None => Err(
                        ErrorView::Unauthorized("Authentication parameter is not base64 encrypted"@),
                    ),
                    Some(bytes) => {
                        if !vstd::utf8::valid_utf8(bytes) {
                            Err(ErrorView::Unauthorized("Could not parse from utf8"@))
                        } else {
                            let d = vstd::utf8::decode_utf8(bytes);
                            match spec_find(d, seq![':']) {
                                None => Ok((Seq::empty(), Seq::empty())),
                                Some(i) => Ok((d.subrange(0, i), d.subrange(i + 1, d.len() as int))),
                            }
                        }
                    },
                }
            }
        },
    }
}

/// Marker for the validator verdict that an `apply_security` outcome rests
/// on; it gives the existential in the contract a stable trigger.
pub open spec fn verdict_used(b: bool) -> bool {
    true
}

/// The middleware's verdict as a function of the header and the validator's
/// answer: `None` stands for success.
pub open spec fn spec_basic_outcome(rv: ReqView, verdict: bool) -> Option<ErrorView> {
    match spec_auth_credentials(rv) {
        Err(ev) => Some(ev),
        Ok(_) => {
            if verdict {
                None
            } else {
                Some(ErrorView::Unauthorized("invalid credentials"@))
            }
        },
    }
}

/// The pass/fail decision of the Basic middleware depends on nothing but the
/// `Authorization` header and the validator's answer, so checking the same
/// well-formed header against the same validator twice gives the same result
/// both times.
pub proof fn lemma_security_idempotent(rv1: ReqView, rv2: ReqView, verdict: bool)
    requires
        spec_get_header(rv1, "Authorization"@) == spec_get_header(rv2, "Authorization"@),
    ensures
        spec_basic_outcome(rv1, verdict) == spec_basic_outcome(rv2, verdict),
{
}

/// Runs the Basic check on a request: extracts and decodes the credentials,
/// then asks the validator.
fn base_auth<V: Fn((String, String)) -> bool>(request: &HTTPRequest, validator: V) -> (r: Result<
    (),
    HttpError,
>)
    requires
        forall|arg: (String, String)| #[trigger] call_requires(validator, (arg,)),
    ensures
        match spec_auth_credentials(request@) {
            Err(ev) => r matches Err(e) && e@ == ev,
            Ok(c) => exists|arg: (String, String), b: bool|
                arg.0@ == c.0 && arg.1@ == c.1 && #[trigger] call_ensures(validator, (arg,), b) && (
                if b {
                    r is Ok
                } else {
                    r matches Err(e) && e@ == ErrorView::Unauthorized("invalid credentials"@)
                }),
        },
{
    let header = match request.get_header("Authorization") {
        None => {
            return Err(HttpError::UnauthorizedError("Missing header".to_owned()));
        },
        Some(p) => p,
    };
    let vcs = str_to_chars(header.1.as_str());
    let space = vec![' '];
    proof {
        assert(space@ =~= seq![' ']);
    }
    let toks = split_sub(vcs.as_slice(), space.as_slice());
    proof {
        assert(toks.deep_view()[0] =~= toks@[0]@);
    }
    if !chars_eq_str(toks[0].as_slice(), "Basic") {
        return Err(HttpError::UnauthorizedError("wrong protocol".to_owned()));
    }
    if toks.len() < 2 {
        return Err(HttpError::UnauthorizedError("No user password provided".to_owned()));
    }
    proof {
        assert(toks.deep_view()[1] =~= toks@[1]@);
    }
    let b64_text = chars_to_string(&toks[1]);
    let bytes = match b64_url_decode(b64_text.as_str()) {
        None => {
            return Err(
                HttpError::UnauthorizedError(
                    "Authentication parameter is not base64 encrypted".to_owned(),
                ),
            );
        },
        Some(v) => v,
    };
    let decoded = match crate::request::bytes_to_string(bytes.as_slice()) {
        None => {
            return Err(HttpError::UnauthorizedError("Could not parse from utf8".to_owned()));
        },
        Some(s) => s,
    };
    let dcs = str_to_chars(decoded.as_str());
    let colon = vec![':'];
    proof {
        assert(colon@ =~= seq![':']);
    }
    let username: String;
    let password: String;
    match crate::text::find_sub(dcs.as_slice(), colon.as_slice()) {
        None => {
            username = String::new();
            password = String::new();
        },
        Some(i) => {
            proof {
                crate::text::lemma_spec_find(dcs@, seq![':']);
                assert(crate::text::occurs_at(dcs@, seq![':'], i as int));
            }
            let dlen = dcs.len();
            username = chars_to_string(
                &vstd::slice::slice_to_vec(vstd::slice::slice_subrange(dcs.as_slice(), 0, i)),
            );
            password = chars_to_string(
                &vstd::slice::slice_to_vec(
                    vstd::slice::slice_subrange(dcs.as_slice(), i + 1, dlen),
                ),
            );
        },
    }
    let verdict = validator((username, password));
    if verdict {
        Ok(())
    } else {
        Err(HttpError::UnauthorizedError("invalid credentials".to_owned()))
    }
}

/// Applies the configured policy to a request before its route runs:
/// anonymous access always passes, Basic asks the validator.
pub fn apply_security<F, V>(
    request: &HTTPRequest,
    route: Route<F>,
    security: SecurityProtocol<V>,
) -> (r: Result<Route<F>, HttpError>) where
    F: Fn(&RequestHandler) -> HTTPResponse,
    V: Fn((String, String)) -> bool,

    requires
        security matches SecurityProtocol::Basic(v) ==> forall|arg: (String, String)|
            #[trigger] call_requires(v, (arg,)),
    ensures
        match security {
            SecurityProtocol::NoAuth => r matches Ok(rt) && rt == route,
            SecurityProtocol::Basic(v) => match spec_auth_credentials(request@) {
                Err(ev) => r matches Err(e) && e@ == ev,
                Ok(c) => exists|arg: (String, String), b: bool|
                    arg.0@ == c.0 && arg.1@ == c.1 && #[trigger] call_ensures(v, (arg,), b) && (
                    if b {
                        r matches Ok(rt) && rt == route
                    } else {
                        r matches Err(e) && e@ == ErrorView::Unauthorized("invalid credentials"@)
                    }),
            },
        },
        security is Basic ==> exists|b: bool|
            #[trigger] verdict_used(b) && (match spec_basic_outcome(request@, b) {
                None => r is Ok,
                Some(ev) => r matches Err(e) && e@ == ev,
            }),
{
    match security {
        SecurityProtocol::NoAuth => Ok(route),
        SecurityProtocol::Basic(validator) => {
            let rb = base_auth(request, validator);
            proof {
                match spec_auth_credentials(request@) {
                    Err(ev) => {
                        assert(verdict_used(true));
                        assert(spec_basic_outcome(request@, true) == Some(ev));
                    },
                    Ok(c) => {
                        let (arg, b) = choose|arg: (String, String), b: bool|
                            arg.0@ == c.0 && arg.1@ == c.1 && #[trigger] call_ensures(
                                validator,
                                (arg,),
                                b,
                            ) && (if b {
                                rb is Ok
                            } else {
                                rb matches Err(e) && e@ == ErrorView::Unauthorized(
                                    "invalid credentials"@,
                                )
                            });
                        assert(verdict_used(b));
                    },
                }
            }
            match rb {
                Ok(()) => Ok(route),
                Err(e) => Err(e),
            }
        },
    }
}

} // verus!
