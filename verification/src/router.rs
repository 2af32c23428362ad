use vstd::prelude::*;
use crate::errors::{ErrorView, HttpError};
use crate::map::{map_of, StringMap};
use crate::request::{HTTPRequest, ReqView};
use crate::response::{HTTPResponse, ResponseBuilder};
use crate::security::{spec_auth_credentials, SecurityProtocol};
use crate::text::{spec_split, split_sub, str_to_chars};
use crate::verb::Verb;

verus! {

/// A route table entry: a verb, a `/`-delimited template whose `{name}`
/// segments bind path parameters, the handler, and whether the security
/// middleware guards it.
#[derive(PartialEq, Eq, Debug)]
pub struct Route<F> where F: Fn(&RequestHandler) -> HTTPResponse {
    pub verb: Verb,
    pub route: String,
    pub method: F,
    pub need_security: bool,
}

/// The ordered route table; earlier entries win.
pub type Routes<F> = Vec<Route<F>>;

impl<F> Route<F> where F: Fn(&RequestHandler) -> HTTPResponse {
    pub fn new(verb: &Verb, route: &str, method: F, need_security: bool) -> (r: Route<F>)
        ensures
            r.verb == verb,
            r.route@ == route@,
            r.method == method,
            r.need_security == need_security,
    {
        Route { verb: *verb, route: route.to_owned(), method, need_security }
    }
}

impl<F> Clone for Route<F> where F: Fn(&RequestHandler) -> HTTPResponse + Copy {
    fn clone(&self) -> (r: Self)
        ensures
            r.verb == self.verb,
            r.route@ == self.route@,
            r.method == self.method,
            r.need_security == self.need_security,
    {
        Route {
            verb: self.verb,
            route: self.route.clone(),
            method: self.method,
            need_security: self.need_security,
        }
    }
}

/// A template segment that opens with `{` accepts any request segment;
/// any other template segment must equal it literally.
pub open spec fn spec_seg_match(t: Seq<char>, p: Seq<char>) -> bool {
    (t.len() > 0 && t[0] == '{') || t == p
}

/// A template matches a path exactly when they have the same number of
/// `/`-separated segments and every segment pair agrees as above.
pub open spec fn spec_template_match(template: Seq<char>, path: Seq<char>) -> bool {
    let ts = spec_split(template, seq!['/']);
    let ps = spec_split(path, seq!['/']);
    ts.len() == ps.len() && (forall|i: int| 0 <= i < ts.len() ==> spec_seg_match(
        #[trigger] ts[i],
        ps[i],
    ))
}

/// One segment comparison, as the table walk performs it.
pub fn compare(req_part: &str, ref_part: Option<&&str>) -> (r: bool)
    ensures
        r == match ref_part {
            None => false,
            Some(s) => spec_seg_match(s@, req_part@),
        },
{
    match ref_part {
        None => false,
        Some(s) => {
            let scs = str_to_chars(s);
            if scs.len() > 0 && scs[0] == '{' {
                true
            } else {
                crate::text::chars_eq_str(scs.as_slice(), req_part)
            }
        },
    }
}

/// Whether a request path satisfies a route template.
pub fn valid_against(request: String, reference: String) -> (r: bool)
    ensures
        r == spec_template_match(reference@, request@),
{
    let slash = vec!['/'];
    proof {
        assert(slash@ =~= seq!['/']);
    }
    let ts = split_sub(str_to_chars(reference.as_str()).as_slice(), slash.as_slice());
    let ps = split_sub(str_to_chars(request.as_str()).as_slice(), slash.as_slice());
    let ghost tss = spec_split(reference@, seq!['/']);
    let ghost pss = spec_split(request@, seq!['/']);
    if ts.len() != ps.len() {
        return false;
    }
    let n = ts.len();
    let mut i: usize = 0;
    while i < n
        invariant
            tss == spec_split(reference@, seq!['/']),
            pss == spec_split(request@, seq!['/']),
            ts.deep_view() == tss,
            ps.deep_view() == pss,
            n == ts@.len() == ps@.len(),
            n == tss.len() == pss.len(),
            0 <= i <= n,
            forall|j: int| 0 <= j < i ==> spec_seg_match(#[trigger] tss[j], pss[j]),
        decreases n - i,
    {
        proof {
            assert(ts.deep_view()[i as int] =~= ts@[i as int]@);
            assert(ps.deep_view()[i as int] =~= ps@[i as int]@);
        }
        let t = &ts[i];
        let p = &ps[i];
        let seg_ok: bool = if t.len() > 0 && t[0] == '{' {
            true
        } else {
            crate::text::chars_eq(t.as_slice(), p.as_slice())
        };
        if !seg_ok {
            proof {
                assert(!spec_seg_match(tss[i as int], pss[i as int]));
                if spec_template_match(reference@, request@) {
                    assert(spec_seg_match(tss[i as int], pss[i as int]));
                }
            }
            return false;
        }
        i += 1;
    }
    true
}

/// A segment of the form `{name}`.
pub open spec fn spec_is_placeholder(s: Seq<char>) -> bool {
    s.len() >= 2 && s[0] == '{' && s[s.len() - 1] == '}'
}

/// The parameter pairs bound by the first `n` template segments: each
/// `{name}` segment binds its inner name to the request segment at the same
/// position.
pub open spec fn spec_path_pairs(
    ts: Seq<Seq<char>>,
    ps: Seq<Seq<char>>,
    n: int,
) -> Seq<(Seq<char>, Seq<char>)>
    decreases n,
{
    if n <= 0 {
        Seq::empty()
    } else {
        spec_path_pairs(ts, ps, n - 1) + (if spec_is_placeholder(ts[n - 1]) {
            seq![(ts[n - 1].subrange(1, ts[n - 1].len() - 1), ps[n - 1])]
        } else {
            Seq::empty()
        })
    }
}

/// The path-parameter map a template binds against a path.
pub open spec fn spec_path_params(template: Seq<char>, path: Seq<char>) -> Map<Seq<char>, Seq<char>> {
    let ts = spec_split(template, seq!['/']);
    let ps = spec_split(path, seq!['/']);
    map_of(spec_path_pairs(ts, ps, ts.len() as int))
}

/// Zips template segments against request segments, keeping the `{name}`
/// ones stripped of their braces.
pub fn extract_path_params(request: &String, template: &String) -> (r: StringMap)
    requires
        spec_split(template@, seq!['/']).len() <= spec_split(request@, seq!['/']).len(),
    ensures
        r.wf(),
        r@ == spec_path_params(template@, request@),
{
    let slash = vec!['/'];
    proof {
        assert(slash@ =~= seq!['/']);
    }
    let ts = split_sub(str_to_chars(template.as_str()).as_slice(), slash.as_slice());
    let ps = split_sub(str_to_chars(request.as_str()).as_slice(), slash.as_slice());
    let ghost tss = spec_split(template@, seq!['/']);
    let ghost pss = spec_split(request@, seq!['/']);
    let n = ts.len();
    let mut m = StringMap::new();
    let mut i: usize = 0;
    proof {
        assert(map_of(spec_path_pairs(tss, pss, 0)) =~= Map::<Seq<char>, Seq<char>>::empty());
    }
    while i < n
        invariant
            tss == spec_split(template@, seq!['/']),
            pss == spec_split(request@, seq!['/']),
            ts.deep_view() == tss,
            ps.deep_view() == pss,
            n == ts@.len(),
            n == tss.len(),
            tss.len() <= pss.len(),
            pss.len() == ps@.len(),
            0 <= i <= n,
            m.wf(),
            m@ == map_of(spec_path_pairs(tss, pss, i as int)),
        decreases n - i,
    {
        proof {
            assert(ts.deep_view()[i as int] =~= ts@[i as int]@);
            assert(ps.deep_view()[i as int] =~= ps@[i as int]@);
        }
        let t = &ts[i];
        let tlen = t.len();
        if tlen >= 2 && t[0] == '{' && t[tlen - 1] == '}' {
            assert(spec_is_placeholder(tss[i as int]));
            let name = crate::text::chars_to_string(
                &vstd::slice::slice_to_vec(vstd::slice::slice_subrange(t.as_slice(), 1, tlen - 1)),
            );
            let value = crate::text::chars_to_string(&ps[i]);
            m.insert(name, value);
            proof {
                let pairs = spec_path_pairs(tss, pss, i + 1);
                assert(pairs =~= spec_path_pairs(tss, pss, i as int) + seq![
                    (tss[i as int].subrange(1, tss[i as int].len() - 1), pss[i as int]),
                ]);
                assert(pairs.drop_last() =~= spec_path_pairs(tss, pss, i as int));
                assert(m@ == map_of(pairs));
            }
        } else {
            proof {
                assert(!spec_is_placeholder(tss[i as int]));
                assert(spec_path_pairs(tss, pss, i + 1) =~= spec_path_pairs(tss, pss, i as int));
            }
        }
        i += 1;
    }
    m
}

/// What a handler receives: the request plus the parameters bound from the
/// path.
pub struct RequestHandler {
    request: HTTPRequest,
    path_params: StringMap,
}

impl RequestHandler {
    pub closed spec fn wf(self) -> bool {
        self.request.wf() && self.path_params.wf()
    }

    pub closed spec fn spec_request(self) -> ReqView {
        self.request@
    }

    pub closed spec fn spec_path_params(self) -> Map<Seq<char>, Seq<char>> {
        self.path_params@
    }

    /// Builds the handler argument for a request resolved to a route.
    pub fn from<F: Fn(&RequestHandler) -> HTTPResponse>(value: (&HTTPRequest, &Route<F>)) -> (r:
        RequestHandler)
        requires
            value.0.wf(),
            spec_split(value.1.route@, seq!['/']).len() <= spec_split(
                value.0.resource@,
                seq!['/'],
            ).len(),
        ensures
            r.wf(),
            r.spec_request() == value.0@,
            r.spec_path_params() == spec_path_params(value.1.route@, value.0.resource@),
    {
        RequestHandler {
            request: value.0.duplicate(),
            path_params: extract_path_params(&value.0.resource, &value.1.route),
        }
    }

    pub fn query_params(&self) -> (r: Option<StringMap>)
        requires
            self.wf(),
        ensures
            match r {
                Some(q) => self.spec_request().query_params == Some(q@) && q.wf(),
                None => self.spec_request().query_params is None,
            },
    {
        match &self.request.query_params {
            None => None,
            Some(q) => Some(q.duplicate()),
        }
    }

    pub fn path_params(&self) -> (r: StringMap)
        requires
            self.wf(),
        ensures
            r.wf(),
            r@ == self.spec_path_params(),
    {
        self.path_params.duplicate()
    }

    pub fn body(&self) -> (r: Option<String>)
        ensures
            match r {
                Some(b) => self.spec_request().body == Some(b@),
                None => self.spec_request().body is None,
            },
    {
        match &self.request.body {
            None => None,
            Some(b) => Some(b.clone()),
        }
    }
}

/// The parameters and body of a request resolved against a route, for
/// handlers that want only those.
pub struct ParamsHandler {
    pub params: StringMap,
    pub body: Option<String>,
}

impl ParamsHandler {
    pub fn try_from<F: Fn(&RequestHandler) -> HTTPResponse>(value: (&HTTPRequest, Route<F>)) -> (r:
        Result<ParamsHandler, HttpError>)
        requires
            value.0.wf(),
            spec_split(value.1.route@, seq!['/']).len() <= spec_split(
                value.0.resource@,
                seq!['/'],
            ).len(),
        ensures
            r is Ok,
            r matches Ok(p) ==> p.params.wf() && p.params@ == spec_path_params(
                value.1.route@,
                value.0.resource@,
            ) && (match (p.body, value.0@.body) {
                (Some(b), Some(bv)) => b@ == bv,
                (None, None) => true,
                _ => false,
            }),
    {
        let params = extract_path_params(&value.0.resource, &value.1.route);
        let body = match &value.0.body {
            None => None,
            Some(b) => Some(b.clone()),
        };
        Ok(ParamsHandler { params, body })
    }
}

impl<F> Route<F> where F: Fn(&RequestHandler) -> HTTPResponse {
    /// The entry accepts the request: same verb, matching template.
    pub open spec fn spec_matches(self, rv: ReqView) -> bool {
        self.verb == rv.verb && spec_template_match(self.route@, rv.resource)
    }
}

/// Index of the first table entry that accepts the request; table order is
/// the tie-break, so an earlier route always wins.
pub open spec fn spec_route_idx<F: Fn(&RequestHandler) -> HTTPResponse>(
    rv: ReqView,
    table: Seq<Route<F>>,
) -> Option<int>
    decreases table.len(),
{
    if table.len() == 0 {
        None
    } else if table[0].spec_matches(rv) {
        Some(0int)
    } else {
        match spec_route_idx(rv, table.drop_first()) {
            Some(i) => Some(i + 1),
            None => None,
        }
    }
}

pub proof fn lemma_spec_route_idx<F: Fn(&RequestHandler) -> HTTPResponse>(
    rv: ReqView,
    table: Seq<Route<F>>,
)
    ensures
        match spec_route_idx(rv, table) {
            Some(i) => 0 <= i < table.len() && table[i].spec_matches(rv) && (forall|j: int|
                0 <= j < i ==> !(#[trigger] table[j]).spec_matches(rv)),
            None => forall|j: int|
                0 <= j < table.len() ==> !(#[trigger] table[j]).spec_matches(rv),
        },
    decreases table.len(),
{
    if table.len() == 0 {
    } else if table[0].spec_matches(rv) {
    } else {
        let t = table.drop_first();
        lemma_spec_route_idx(rv, t);
        match spec_route_idx(rv, t) {
            Some(i) => {
                assert(t[i] == table[i + 1]);
                assert forall|j: int| 0 <= j < i + 1 implies !(#[trigger] table[j]).spec_matches(
                    rv,
                ) by {
                    if j > 0 {
                        assert(t[j - 1] == table[j]);
                    }
                }
            },
            None => {
                assert forall|j: int| 0 <= j < table.len() implies !(
                #[trigger] table[j]).spec_matches(rv) by {
                    if j > 0 {
                        assert(t[j - 1] == table[j]);
                    }
                }
            },
        }
    }
}

/// Walks the table in order and hands back a copy of the first route whose
/// verb and template accept the request; a miss is a not-found error.
pub fn find_route<F>(request: &HTTPRequest, handler: &Routes<F>) -> (r: Result<
    Route<F>,
    HttpError,
>) where F: Fn(&RequestHandler) -> HTTPResponse + Copy
    ensures
        match r {
            Ok(rt) => spec_route_idx(request@, handler@) matches Some(i) && rt.verb == handler@[i].verb
                && rt.route@ == handler@[i].route@ && rt.method == handler@[i].method
                && rt.need_security == handler@[i].need_security,
            Err(e) => spec_route_idx(request@, handler@) is None && e@ == ErrorView::NotFound(
                "Coult not find ressource"@,
            ),
        },
{
    proof {
        lemma_spec_route_idx(request@, handler@);
    }
    let n = handler.len();
    let mut i: usize = 0;
    while i < n
        invariant
            n == handler@.len(),
            0 <= i <= n,
            forall|j: int| 0 <= j < i ==> !(#[trigger] handler@[j]).spec_matches(request@),
        decreases n - i,
    {
        let rt = &handler[i];
        if rt.verb == request.verb && valid_against(request.resource.clone(), rt.route.clone()) {
            proof {
                assert(handler@[i as int].spec_matches(request@));
                lemma_spec_route_idx(request@, handler@);
            }
            return Ok(rt.clone());
        }
        i += 1;
    }
    proof {
        lemma_spec_route_idx(request@, handler@);
    }
    Err(HttpError::NotFoundError("Coult not find ressource".to_owned()))
}

/// The fixed response to a preflight `OPTIONS` request.
pub open spec fn spec_options_response() -> crate::response::RespView {
    crate::response::RespView {
        code: 200,
        body: None,
        headers: seq![("Access-Control-Allow-Methods"@, "POST, GET, DELETE, PATCH, OPTIONS"@)],
    }
}

/// Answers a preflight request with the supported verbs, touching neither
/// the table nor the security policy.
pub fn options() -> (r: HTTPResponse)
    ensures
        r@ == spec_options_response(),
{
    let r = ResponseBuilder::new(200, None).put_header(
        "Access-Control-Allow-Methods".to_owned(),
        "POST, GET, DELETE, PATCH, OPTIONS".to_owned(),
    ).build();
    proof {
        assert(r@.headers =~= spec_options_response().headers);
    }
    r
}

/// The response came from the route's own handler, run on this request's
/// data and path parameters.
pub open spec fn spec_handler_ran<F: Fn(&RequestHandler) -> HTTPResponse>(
    rv: ReqView,
    rt: Route<F>,
    r: HTTPResponse,
) -> bool {
    exists|h: &RequestHandler|
        h.wf() && h.spec_request() == rv && h.spec_path_params() == spec_path_params(
            rt.route@,
            rv.resource,
        ) && #[trigger] call_ensures(rt.method, (h,), r)
}

/// Invokes the route's handler on the request.
pub fn execute<F>(request: &HTTPRequest, route: Route<F>) -> (r: HTTPResponse) where
    F: Fn(&RequestHandler) -> HTTPResponse,

    requires
        request.wf(),
        spec_template_match(route.route@, request@.resource),
        forall|h: &RequestHandler|
            h.wf() && h.spec_request() == request@ ==> #[trigger] call_requires(
                route.method,
                (h,),
            ),
    ensures
        spec_handler_ran(request@, route, r),
{
    let h = RequestHandler::from((request, &route));
    let resp = (route.method)(&h);
    proof {
        let hr: &RequestHandler = &h;
        assert(hr.wf() && hr.spec_request() == request@ && hr.spec_path_params()
            == spec_path_params(route.route@, request@.resource) && call_ensures(
            route.method,
            (hr,),
            resp,
        ));
    }
    resp
}

/// The security middleware's contribution to the routed outcome: anonymous
/// access runs the handler; Basic either refuses with the middleware's error
/// or runs the handler when the validator accepted.
pub open spec fn spec_secured_outcome<F, V>(
    rv: ReqView,
    rt: Route<F>,
    security: SecurityProtocol<V>,
    r: HTTPResponse,
) -> bool where F: Fn(&RequestHandler) -> HTTPResponse, V: Fn((String, String)) -> bool {
    match security {
        SecurityProtocol::NoAuth => spec_handler_ran(rv, rt, r),
        SecurityProtocol::Basic(v) => match spec_auth_credentials(rv) {
            Err(ev) => r@ == crate::response::spec_error_response(ev),
            Ok(c) => exists|arg: (String, String), b: bool|
                arg.0@ == c.0 && arg.1@ == c.1 && #[trigger] call_ensures(v, (arg,), b) && (if b {
                    spec_handler_ran(rv, rt, r)
                } else {
                    r@ == crate::response::spec_error_response(
                        ErrorView::Unauthorized("invalid credentials"@),
                    )
                }),
        },
    }
}

/// Every routed request terminates in a response: a fixed one for OPTIONS,
/// a not-found error for a miss, and otherwise the matched route's handler
/// output, guarded by the security middleware where the route asks for it.
pub open spec fn spec_route_outcome<F, V>(
    rv: ReqView,
    table: Seq<Route<F>>,
    security: SecurityProtocol<V>,
    r: HTTPResponse,
) -> bool where F: Fn(&RequestHandler) -> HTTPResponse, V: Fn((String, String)) -> bool {
    if rv.verb == Verb::OPTION {
        r@ == spec_options_response()
    } else {
        match spec_route_idx(rv, table) {
            None => r@ == crate::response::spec_error_response(
                ErrorView::NotFound("Coult not find ressource"@),
            ),
            Some(i) => {
                if table[i].need_security {
                    spec_secured_outcome(rv, table[i], security, r)
                } else {
                    spec_handler_ran(rv, table[i], r)
                }
            },
        }
    }
}

/// Resolves a request against the table and the security policy and always
/// produces a response.
pub fn route<F, V>(
    request: &HTTPRequest,
    handler: Routes<F>,
    security: SecurityProtocol<V>,
) -> (r: HTTPResponse) where
    F: Fn(&RequestHandler) -> HTTPResponse + Copy,
    V: Fn((String, String)) -> bool,

    requires
        request.wf(),
        security matches SecurityProtocol::Basic(v) ==> forall|arg: (String, String)|
            #[trigger] call_requires(v, (arg,)),
        forall|i: int, h: &RequestHandler|
            0 <= i < handler@.len() && h.wf() && h.spec_request() == request@
                ==> #[trigger] call_requires(handler@[i].method, (h,)),
    ensures
        spec_route_outcome(request@, handler@, security, r),
{
    match request.verb {
        Verb::OPTION => options(),
        _ => {
            let rt = match find_route(request, &handler) {
                Err(e) => {
                    return HTTPResponse::from_error(&e);
                },
                Ok(rt) => rt,
            };
            proof {
                lemma_spec_route_idx(request@, handler@);
            }
            if rt.need_security {
                match crate::security::apply_security(request, rt, security) {
                    Err(e) => HTTPResponse::from_error(&e),
                    Ok(rt2) => execute(request, rt2),
                }
            } else {
                execute(request, rt)
            }
        },
    }
}

} // verus!
