use vstd::prelude::*;
use crate::errors::{ErrorView, HttpError, InternalError};
use crate::text::{push_dec, push_dec_signed, push_str_chars, spec_dec, spec_dec_signed};

verus! {

/// An immutable wire response: status code, extra headers, optional body.
#[derive(Debug, Clone, PartialEq, Eq)]
pub struct HTTPResponse {
    code: i32,
    body: Option<String>,
    headers: Vec<(String, String)>,
}

/// Mathematical shape of a response.
pub struct RespView {
    pub code: int,
    pub body: Option<Seq<char>>,
    pub headers: Seq<(Seq<char>, Seq<char>)>,
}

impl View for HTTPResponse {
    type V = RespView;

    closed spec fn view(&self) -> RespView {
        RespView {
            code: self.code as int,
            body: match self.body {
                Some(b) => Some(b@),
                None => None,
            },
            headers: crate::request::headers_kv(self.headers@),
        }
    }
}

/// Reason phrase of the fixed status table; unmapped codes have none.
pub open spec fn spec_reason(code: int) -> Seq<char> {
    if code == 200 {
        "OK"@
    } else if code == 500 {
        "INTERNAL"@
    } else if code == 404 {
        "NOT FOUND"@
    } else if code == 400 {
        "BAD REQUEST"@
    } else {
        ""@
    }
}

/// `"HTTP/1.1 <code> <reason>"`.
pub open spec fn spec_status_line(code: int) -> Seq<char> {
    "HTTP/1.1 "@ + spec_dec_signed(code) + " "@ + spec_reason(code)
}

/// The header block text, one `key: value` line per header.
pub open spec fn spec_headers_text(hs: Seq<(Seq<char>, Seq<char>)>) -> Seq<char>
    decreases hs.len(),
{
    if hs.len() == 0 {
        Seq::empty()
    } else {
        spec_headers_text(hs.drop_last()) + hs.last().0 + ": "@ + hs.last().1 + "\r\n"@
    }
}

/// The headers added for a response that carries a body: permissive CORS,
/// a content type, and the body's byte length.
pub open spec fn spec_default_headers_text(body: Seq<char>) -> Seq<char> {
    "Access-Control-Allow-Origin: *\r\nContent-Type: application/json\r\nContent-Length: "@
        + spec_dec(vstd::utf8::encode_utf8(body).len() as int) + "\r\n"@
}

/// The full wire text of a response: status line, headers, blank line, body.
pub open spec fn spec_render(rv: RespView) -> Seq<char> {
    spec_status_line(rv.code) + "\r\n"@ + spec_headers_text(rv.headers) + (match rv.body {
        None => "\r\n"@,
        Some(b) => spec_default_headers_text(b) + "\r\n"@ + b,
    })
}

fn reason_of(code: i32) -> (r: &'static str)
    ensures
        r@ == spec_reason(code as int),
{
    match code {
        200 => "OK",
        500 => "INTERNAL",
        404 => "NOT FOUND",
        400 => "BAD REQUEST",
        _ => "",
    }
}

impl HTTPResponse {
    pub fn code(&self) -> (r: i32)
        ensures
            r == self@.code,
    {
        self.code
    }

    /// Serializes the response exactly as `spec_render` writes it.
    pub fn render(&self) -> (r: String)
        ensures
            r@ == spec_render(self@),
    {
        let mut out: Vec<char> = Vec::new();
        push_str_chars(&mut out, "HTTP/1.1 ");
        push_dec_signed(&mut out, self.code);
        push_str_chars(&mut out, " ");
        push_str_chars(&mut out, reason_of(self.code));
        push_str_chars(&mut out, "\r\n");
        proof {
            assert(out@ =~= spec_status_line(self.code as int) + "\r\n"@);
        }
        let ghost hkv = crate::request::headers_kv(self.headers@);
        let n = self.headers.len();
        let mut i: usize = 0;
        let ghost out0 = out@;
        proof {
            assert(spec_headers_text(hkv.subrange(0, 0)) =~= Seq::<char>::empty());
            assert(out@ =~= out0 + spec_headers_text(hkv.subrange(0, 0)));
        }
        while i < n
            invariant
                hkv == crate::request::headers_kv(self.headers@),
                n == self.headers@.len(),
                n == hkv.len(),
                0 <= i <= n,
                out@ == out0 + spec_headers_text(hkv.subrange(0, i as int)),
                out0 == spec_status_line(self.code as int) + "\r\n"@,
            decreases n - i,
        {
            let key = self.headers[i].0.as_str();
            let val = self.headers[i].1.as_str();
            push_str_chars(&mut out, key);
            push_str_chars(&mut out, ": ");
            push_str_chars(&mut out, val);
            push_str_chars(&mut out, "\r\n");
            proof {
                assert(hkv.subrange(0, i + 1).drop_last() =~= hkv.subrange(0, i as int));
                assert(hkv.subrange(0, i + 1).last() == hkv[i as int]);
                assert(out@ =~= out0 + spec_headers_text(hkv.subrange(0, i + 1)));
            }
            i += 1;
        }
        proof {
            assert(hkv.subrange(0, n as int) =~= hkv);
        }
        match &self.body {
            None => {
                push_str_chars(&mut out, "\r\n");
            },
            Some(b) => {
                push_str_chars(
                    &mut out,
                    "Access-Control-Allow-Origin: *\r\nContent-Type: application/json\r\nContent-Length: ",
                );
                let blen = b.as_str().as_bytes().len();
                push_dec(&mut out, blen as u64);
                push_str_chars(&mut out, "\r\n");
                push_str_chars(&mut out, "\r\n");
                push_str_chars(&mut out, b.as_str());
            },
        }
        proof {
            assert(out@ =~= spec_render(self@));
        }
        crate::text::chars_to_string(&out)
    }
}

/// The response that a pipeline error maps to, per the fixed error-to-status
/// table; only the not-found case carries a body.
pub open spec fn spec_error_response(e: ErrorView) -> RespView {
    RespView {
        code: crate::errors::spec_status_of_error(e),
        body: match e {
            ErrorView::NotFound(_) => Some("Not found"@),
            _ => None,
        },
        headers: Seq::empty(),
    }
}

impl HTTPResponse {
    /// Turns a pipeline error into its wire response.
    pub fn from_error(e: &HttpError) -> (r: HTTPResponse)
        ensures
            r@ == spec_error_response(e@),
    {
        let r = match e {
            HttpError::DefaultError => ResponseBuilder::new(0, None).build(),
            HttpError::NotFoundError(_) => ResponseBuilder::new(
                404,
                Some("Not found".to_owned()),
            ).build(),
            HttpError::UnauthorizedError(_) => ResponseBuilder::new(401, None).build(),
            HttpError::BadRequest(_) => ResponseBuilder::new(400, None).build(),
        };
        proof {
            assert(r@.headers =~= spec_error_response(e@).headers);
        }
        r
    }

    /// The catch-all response for a failure caught at the dispatch boundary.
    pub fn from_internal(_e: &InternalError) -> (r: HTTPResponse)
        ensures
            r@.code == 500,
            r@.body == Some("Internal Server Error"@),
            r@.headers == Seq::<(Seq<char>, Seq<char>)>::empty(),
    {
        let r = ResponseBuilder::new(500, Some("Internal Server Error".to_owned())).build();
        proof {
            assert(r@.headers =~= Seq::<(Seq<char>, Seq<char>)>::empty());
        }
        r
    }
}

/// Accumulates status, body and headers, then builds the immutable response.
pub struct ResponseBuilder {
    code: i32,
    body: Option<String>,
    headers: Vec<(String, String)>,
}

impl ResponseBuilder {
    pub closed spec fn spec_code(self) -> int {
        self.code as int
    }

    pub closed spec fn spec_body(self) -> Option<Seq<char>> {
        match self.body {
            Some(b) => Some(b@),
            None => None,
        }
    }

    pub closed spec fn spec_headers(self) -> Seq<(Seq<char>, Seq<char>)> {
        crate::request::headers_kv(self.headers@)
    }

    pub fn new(code: i32, body: Option<String>) -> (r: ResponseBuilder)
        ensures
            r.spec_code() == code as int,
            r.spec_body() == (match body {
                Some(b) => Some(b@),
                None => None::<Seq<char>>,
            }),
            r.spec_headers() == Seq::<(Seq<char>, Seq<char>)>::empty(),
    {
        let r = ResponseBuilder { code, body, headers: Vec::new() };
        proof {
            assert(r.spec_headers() =~= Seq::<(Seq<char>, Seq<char>)>::empty());
        }
        r
    }

    /// Adds a content-type header.
    pub fn content_type(self, content_type: String) -> (r: ResponseBuilder)
        ensures
            r.spec_code() == self.spec_code(),
            r.spec_body() == self.spec_body(),
            r.spec_headers() == self.spec_headers().push(("Content-Type"@, content_type@)),
    {
        let r = self.put_header("Content-Type".to_owned(), content_type);
        r
    }

    /// Adds one header at the end of the list.
    pub fn put_header(self, key: String, value: String) -> (r: ResponseBuilder)
        ensures
            r.spec_code() == self.spec_code(),
            r.spec_body() == self.spec_body(),
            r.spec_headers() == self.spec_headers().push((key@, value@)),
    {
        let mut hs = self.headers;
        let ghost hs0 = hs@;
        hs.push((key, value));
        let r = ResponseBuilder { code: self.code, body: self.body, headers: hs };
        proof {
            assert(r.spec_headers() =~= crate::request::headers_kv(hs0).push((key@, value@)));
        }
        r
    }

    /// Replaces the body.
    pub fn body(self, body: String) -> (r: ResponseBuilder)
        ensures
            r.spec_code() == self.spec_code(),
            r.spec_body() == Some(body@),
            r.spec_headers() == self.spec_headers(),
    {
        ResponseBuilder { code: self.code, body: Some(body), headers: self.headers }
    }

    /// Freezes what was accumulated into a response.
    pub fn build(&self) -> (r: HTTPResponse)
        ensures
            r@.code == self.spec_code(),
            r@.body == self.spec_body(),
            r@.headers == self.spec_headers(),
    {
        let body: Option<String> = match &self.body {
            None => None,
            Some(b) => Some(b.clone()),
        };
        HTTPResponse { body, code: self.code, headers: crate::request::clone_header_vec(&self.headers) }
    }
}

} // verus!
