use vstd::prelude::*;
use crate::configuration::Config;
use crate::request::HTTPRequest;
use crate::response::HTTPResponse;
use crate::router::{spec_route_outcome, RequestHandler, Routes};
use crate::security::SecurityProtocol;

verus! {

/// A configured server: the settings and the route table, built once and
/// then shared read-only; the host's accept loop drives it.
pub struct HttpServer<F, V> where
    F: Fn(&RequestHandler) -> HTTPResponse,
    V: Fn((String, String)) -> bool + Copy,
 {
    pub configuration: Config<V>,
    pub handler: Routes<F>,
}

impl<F, V> HttpServer<F, V> where
    F: Fn(&RequestHandler) -> HTTPResponse + Copy,
    V: Fn((String, String)) -> bool + Copy,
 {
    pub fn new(configuration: Config<V>, handler: Routes<F>) -> (r: HttpServer<F, V>)
        ensures
            r.configuration == configuration,
            r.handler == handler,
    {
        HttpServer { configuration, handler }
    }
}

/// Routes one parsed request through the table and the configured security
/// policy; every request ends in a response.
pub fn handle_request<F, V>(
    request: &HTTPRequest,
    handler: Routes<F>,
    config: Config<V>,
) -> (r: HTTPResponse) where
    F: Fn(&RequestHandler) -> HTTPResponse + Copy,
    V: Fn((String, String)) -> bool + Copy,

    requires
        request.wf(),
        config.spec_security() matches SecurityProtocol::Basic(v) ==> forall|
            arg: (String, String),
        |
            #[trigger] call_requires(v, (arg,)),
        forall|i: int, h: &RequestHandler|
            0 <= i < handler@.len() && h.wf() && h.spec_request() == request@
                ==> #[trigger] call_requires(handler@[i].method, (h,)),
    ensures
        spec_route_outcome(request@, handler@, config.spec_security(), r),
{
    let security = config.security();
    crate::router::route(request, handler, security)
}

} // verus!
