use vstd::prelude::*;
use crate::errors::{ErrorView, HttpError};
use crate::map::{map_of, StringMap};
use crate::text::{
    all_digits, digits_val, spec_find, spec_is_blank, spec_lower, spec_split, spec_trim_nuls,
    spec_trim_ws,
};
use crate::verb::{spec_verb_of, Verb};

verus! {

/// A parsed request: the worker hands one of these to the router.
#[derive(Clone, Debug)]
pub struct HTTPRequest {
    pub protocol: String,
    pub verb: Verb,
    pub resource: String,
    pub query_params: Option<StringMap>,
    pub headers: Option<Vec<(String, String)>>,
    pub body: Option<String>,
}

/// Mathematical shape of a request.
pub struct ReqView {
    pub protocol: Seq<char>,
    pub verb: Verb,
    pub resource: Seq<char>,
    pub query_params: Option<Map<Seq<char>, Seq<char>>>,
    pub headers: Option<Seq<(Seq<char>, Seq<char>)>>,
    pub body: Option<Seq<char>>,
}

pub open spec fn headers_kv(hs: Seq<(String, String)>) -> Seq<(Seq<char>, Seq<char>)> {
    hs.map_values(|p: (String, String)| (p.0@, p.1@))
}

impl View for HTTPRequest {
    type V = ReqView;

    open spec fn view(&self) -> ReqView {
        ReqView {
            protocol: self.protocol@,
            verb: self.verb,
            resource: self.resource@,
            query_params: match self.query_params {
                Some(q) => Some(q@),
                None => None,
            },
            headers: match self.headers {
                Some(hs) => Some(headers_kv(hs@)),
                None => None,
            },
            body: match self.body {
                Some(b) => Some(b@),
                None => None,
            },
        }
    }
}

impl HTTPRequest {
    /// Internal soundness of the parameter map, needed by whoever reads it.
    pub open spec fn wf(self) -> bool {
        self.query_params matches Some(q) ==> q.wf()
    }
}

impl Default for HTTPRequest {
    /// The neutral request: a GET of the root resource with nothing else.
    fn default() -> (r: HTTPRequest)
        ensures
            r.protocol@ == Seq::<char>::empty(),
            r.verb == Verb::GET,
            r.resource@ == "/"@,
            r.query_params is None,
            r.headers is None,
            r.body is None,
            r.wf(),
    {
        HTTPRequest {
            protocol: String::new(),
            verb: Verb::GET,
            resource: "/".to_owned(),
            query_params: None,
            headers: None,
            body: None,
        }
    }
}

/// The header lines: everything up to but excluding the first blank line.
pub open spec fn take_until_blank(ls: Seq<Seq<char>>) -> Seq<Seq<char>>
    decreases ls.len(),
{
    if ls.len() == 0 || spec_is_blank(ls[0]) {
        Seq::empty()
    } else {
        seq![ls[0]] + take_until_blank(ls.drop_first())
    }
}

/// A header line is split on its first colon, the key lower-cased and both
/// sides trimmed; a line without a colon is skipped.
pub open spec fn spec_header_of_line(l: Seq<char>) -> Option<(Seq<char>, Seq<char>)> {
    match spec_find(l, seq![':']) {
        None => None,
        Some(i) => Some(
            (
                spec_lower(spec_trim_ws(l.subrange(0, i))),
                spec_trim_ws(l.subrange(i + 1, l.len() as int)),
            ),
        ),
    }
}

/// The headers a block of lines denotes, in order of appearance.
pub open spec fn headers_of(ls: Seq<Seq<char>>) -> Seq<(Seq<char>, Seq<char>)>
    decreases ls.len(),
{
    if ls.len() == 0 {
        Seq::empty()
    } else {
        match spec_header_of_line(ls[0]) {
            None => headers_of(ls.drop_first()),
            Some(kv) => seq![kv] + headers_of(ls.drop_first()),
        }
    }
}

pub open spec fn is_prefix_of(p: Seq<char>, s: Seq<char>) -> bool {
    p.len() <= s.len() && s.subrange(0, p.len() as int) == p
}

/// The first header whose key starts with the wanted key, both compared
/// lower-cased; this prefix comparison is what the lookup has always done.
pub open spec fn spec_find_header(
    hs: Seq<(Seq<char>, Seq<char>)>,
    key: Seq<char>,
) -> Option<(Seq<char>, Seq<char>)>
    decreases hs.len(),
{
    if hs.len() == 0 {
        None
    } else if is_prefix_of(spec_lower(key), spec_lower(hs[0].0)) {
        Some(hs[0])
    } else {
        spec_find_header(hs.drop_first(), key)
    }
}

/// Key/value pairs of a query chunk: `&`-separated, each pair cut at its
/// first `=`; a pair without `=` keeps an empty value.
pub open spec fn spec_query_pairs(chunk: Seq<char>) -> Seq<(Seq<char>, Seq<char>)> {
    spec_split(chunk, seq!['&']).map_values(
        |p: Seq<char>|
            match spec_find(p, seq!['=']) {
                None => (p, Seq::<char>::empty()),
                Some(i) => (p.subrange(0, i), p.subrange(i + 1, p.len() as int)),
            },
    )
}

/// The query map: empty for an empty chunk, else the pairs with duplicate
/// keys resolved last-write-wins.
pub open spec fn spec_query_map(chunk: Seq<char>) -> Map<Seq<char>, Seq<char>> {
    if chunk.len() == 0 {
        Map::empty()
    } else {
        map_of(spec_query_pairs(chunk))
    }
}

/// The text after the first blank-line separator, where a body may sit.
pub open spec fn spec_body_text(t: Seq<char>) -> Seq<char> {
    match spec_find(t, "\r\n\r\n"@) {
        None => Seq::empty(),
        Some(i) => t.subrange(i + 4, t.len() as int),
    }
}

/// The whole parse, start line to body, as one function of the buffer.
pub open spec fn spec_parse_request(s: Seq<char>) -> Result<ReqView, ErrorView> {
    let t = spec_trim_nuls(s);
    let lines = spec_split(t, "\r\n"@);
    let toks = spec_split(lines[0], seq![' ']);
    match spec_verb_of(toks[0]) {
        None => Err(ErrorView::BadRequest("Unknown verb: "@ + toks[0])),
        Some(verb) => {
            if toks.len() < 3 {
                Err(ErrorView::BadRequest("Missing protocol"@))
            } else {
                let rparts = spec_split(toks[1], seq!['?']);
                let headers = headers_of(take_until_blank(lines.drop_first()));
                let query_params = if rparts.len() >= 2 {
                    Some(spec_query_map(rparts[1]))
                } else {
                    None
                };
                match spec_find_header(headers, "Content-Length"@) {
                    None => Ok(
                        ReqView {
                            protocol: toks[2],
                            verb,
                            resource: rparts[0],
                            query_params,
                            headers: Some(headers),
                            body: None,
                        },
                    ),
                    Some(kv) => {
                        if !(kv.1.len() > 0 && all_digits(kv.1) && digits_val(kv.1)
                            <= usize::MAX) {
                            Err(ErrorView::BadRequest("Content-Length is not a valid integer"@))
                        } else {
                            let n = digits_val(kv.1);
                            let bt = spec_body_text(t);
                            if bt.len() < n {
                                Err(
                                    ErrorView::BadRequest(
                                        "Content-Length exceeds the available body"@,
                                    ),
                                )
                            } else {
                                Ok(
                                    ReqView {
                                        protocol: toks[2],
                                        verb,
                                        resource: rparts[0],
                                        query_params,
                                        headers: Some(headers),
                                        body: Some(bt.subrange(0, n)),
                                    },
                                )
                            }
                        }
                    },
                }
            }
        },
    }
}

proof fn lemma_headers_of_concat(a: Seq<Seq<char>>, b: Seq<Seq<char>>)
    ensures
        headers_of(a + b) == headers_of(a) + headers_of(b),
    decreases a.len(),
{
    if a.len() == 0 {
        assert(a + b =~= b);
        assert(headers_of(a) + headers_of(b) =~= headers_of(b));
    } else {
        assert((a + b).drop_first() =~= a.drop_first() + b);
        assert((a + b)[0] == a[0]);
        lemma_headers_of_concat(a.drop_first(), b);
        match spec_header_of_line(a[0]) {
            None => {},
            Some(kv) => {
                assert(seq![kv] + (headers_of(a.drop_first()) + headers_of(b)) =~= (seq![kv]
                    + headers_of(a.drop_first())) + headers_of(b));
            },
        }
    }
}

proof fn lemma_take_until_blank_split(ls: Seq<Seq<char>>, i: int)
    requires
        0 <= i <= ls.len(),
        forall|j: int| 0 <= j < i ==> !spec_is_blank(#[trigger] ls[j]),
    ensures
        take_until_blank(ls) == ls.subrange(0, i) + take_until_blank(
            ls.subrange(i, ls.len() as int),
        ),
    decreases i,
{
    if i == 0 {
        assert(ls.subrange(0, ls.len() as int) =~= ls);
        assert(ls.subrange(0, 0) + take_until_blank(ls) =~= take_until_blank(ls));
    } else {
        assert(!spec_is_blank(ls[0]));
        let t = ls.drop_first();
        lemma_take_until_blank_split(t, i - 1);
        assert(t.subrange(0, i - 1) =~= ls.subrange(1, i));
        assert(t.subrange(i - 1, t.len() as int) =~= ls.subrange(i, ls.len() as int));
        assert(seq![ls[0]] + (ls.subrange(1, i) + take_until_blank(
            ls.subrange(i, ls.len() as int),
        )) =~= ls.subrange(0, i) + take_until_blank(ls.subrange(i, ls.len() as int)));
    }
}

/// Reads one header line; `None` for a line without a colon.
fn parse_header_line(l: &[char]) -> (r: Option<(String, String)>)
    ensures
        match r {
            Some(p) => spec_header_of_line(l@) == Some((p.0@, p.1@)),
            None => spec_header_of_line(l@) is None,
        },
{
    let sep = vec![':'];
    proof {
        assert(sep@ =~= seq![':']);
    }
    match crate::text::find_sub(l, sep.as_slice()) {
        None => None,
        Some(i) => {
            proof {
                crate::text::lemma_spec_find(l@, seq![':']);
                assert(crate::text::occurs_at(l@, seq![':'], i as int));
            }
            let llen = l.len();
            let key_raw = vstd::slice::slice_subrange(l, 0, i);
            let val_raw = vstd::slice::slice_subrange(l, i + 1, llen);
            let key = crate::text::to_lower(crate::text::trim_ws(key_raw).as_slice());
            let val = crate::text::trim_ws(val_raw);
            Some(
                (crate::text::chars_to_string(&key), crate::text::chars_to_string(&val)),
            )
        },
    }
}

/// The headers denoted by a block of lines, stopping at the first blank one.
fn headers_from_lines(lines: &[Vec<char>]) -> (r: Vec<(String, String)>)
    ensures
        headers_kv(r@) == headers_of(take_until_blank(lines.deep_view())),
{
    let ghost ldv = lines.deep_view();
    let n = lines.len();
    let mut out: Vec<(String, String)> = Vec::new();
    let mut i: usize = 0;
    loop
        invariant_except_break
            ldv == lines.deep_view(),
            n == lines@.len(),
            n == ldv.len(),
            0 <= i <= n,
            forall|j: int| 0 <= j < i ==> !spec_is_blank(#[trigger] ldv[j]),
            headers_kv(out@) == headers_of(ldv.subrange(0, i as int)),
        ensures
            headers_kv(out@) == headers_of(take_until_blank(ldv)),
        decreases n - i,
    {
        if i >= n {
            proof {
                lemma_take_until_blank_split(ldv, n as int);
                assert(ldv.subrange(n as int, n as int) =~= Seq::<Seq<char>>::empty());
                assert(take_until_blank(ldv) =~= ldv.subrange(0, n as int));
            }
            break ;
        }
        proof {
            assert(ldv[i as int] =~= lines@[i as int]@);
        }
        if crate::text::is_blank(lines[i].as_slice()) {
            proof {
                lemma_take_until_blank_split(ldv, i as int);
                assert(take_until_blank(ldv.subrange(i as int, n as int)) =~= Seq::<
                    Seq<char>,
                >::empty());
                assert(take_until_blank(ldv) =~= ldv.subrange(0, i as int));
            }
            break ;
        }
        let ghost old_out = out@;
        match parse_header_line(lines[i].as_slice()) {
            None => {},
            Some(p) => {
                out.push(p);
            },
        }
        proof {
            assert(ldv.subrange(0, i + 1) =~= ldv.subrange(0, i as int) + seq![ldv[i as int]]);
            lemma_headers_of_concat(ldv.subrange(0, i as int), seq![ldv[i as int]]);
            assert(seq![ldv[i as int]].drop_first() =~= Seq::<Seq<char>>::empty());
            assert(headers_of(Seq::<Seq<char>>::empty()) =~= Seq::<(Seq<char>, Seq<char>)>::empty());
            match spec_header_of_line(ldv[i as int]) {
                None => {
                    assert(headers_of(seq![ldv[i as int]]) =~= Seq::<
                        (Seq<char>, Seq<char>),
                    >::empty());
                    assert(headers_kv(out@) =~= headers_of(ldv.subrange(0, i as int))
                        + headers_of(seq![ldv[i as int]]));
                },
                Some(kv) => {
                    assert(headers_of(seq![ldv[i as int]]) =~= seq![kv]);
                    assert(headers_kv(out@) =~= headers_kv(old_out) + seq![kv]);
                    assert(headers_kv(out@) =~= headers_of(ldv.subrange(0, i as int))
                        + headers_of(seq![ldv[i as int]]));
                },
            }
        }
        i += 1;
    }
    out
}

/// Splits already separated request lines into header pairs exactly as the
/// full parser does: the first line is the start line, the block up to the
/// first blank line holds the headers.
pub fn extract_headers(request: Vec<String>) -> (r: Vec<(String, String)>)
    ensures
        headers_kv(r@) == (if request@.len() == 0 {
            Seq::<(Seq<char>, Seq<char>)>::empty()
        } else {
            headers_of(take_until_blank(request.deep_view().drop_first()))
        }),
{
    let n = request.len();
    if n == 0 {
        let r: Vec<(String, String)> = Vec::new();
        proof {
            assert(headers_kv(r@) =~= Seq::<(Seq<char>, Seq<char>)>::empty());
        }
        return r;
    }
    let mut lines: Vec<Vec<char>> = Vec::new();
    let mut i: usize = 1;
    while i < n
        invariant
            1 <= i <= n,
            n == request@.len(),
            lines.deep_view() == request.deep_view().subrange(1, i as int),
        decreases n - i,
    {
        let ghost old_dv = lines.deep_view();
        let w = crate::text::str_to_chars(request[i].as_str());
        let ghost wv = w@;
        lines.push(w);
        proof {
            assert(lines.deep_view() =~~= old_dv.push(wv));
            assert(request.deep_view().subrange(1, i + 1) =~~= old_dv.push(wv));
        }
        i += 1;
    }
    proof {
        assert(lines.deep_view() =~= request.deep_view().drop_first());
    }
    headers_from_lines(lines.as_slice())
}

fn starts_with_chars(s: &[char], p: &[char]) -> (r: bool)
    ensures
        r == is_prefix_of(p@, s@),
{
    if p.len() > s.len() {
        return false;
    }
    crate::text::chars_eq(vstd::slice::slice_subrange(s, 0, p.len()), p)
}

/// Scans the header sequence for the first key with the wanted prefix.
fn find_header_vec(hs: &Vec<(String, String)>, key: &str) -> (r: Option<(String, String)>)
    ensures
        match r {
            Some(p) => spec_find_header(headers_kv(hs@), key@) == Some((p.0@, p.1@)),
            None => spec_find_header(headers_kv(hs@), key@) is None,
        },
{
    let ghost kv = headers_kv(hs@);
    let key_low = crate::text::to_lower(crate::text::str_to_chars(key).as_slice());
    let n = hs.len();
    let mut i: usize = 0;
    proof {
        assert(kv.subrange(0, n as int) =~= kv);
    }
    while i < n
        invariant
            kv == headers_kv(hs@),
            key_low@ == spec_lower(key@),
            n == hs@.len(),
            n == kv.len(),
            0 <= i <= n,
            spec_find_header(kv, key@) == spec_find_header(kv.subrange(i as int, n as int), key@),
        decreases n - i,
    {
        let h_low = crate::text::to_lower(
            crate::text::str_to_chars(hs[i].0.as_str()).as_slice(),
        );
        proof {
            assert(kv[i as int] == (hs@[i as int].0@, hs@[i as int].1@));
            assert(kv.subrange(i as int, n as int)[0] == kv[i as int]);
        }
        if starts_with_chars(h_low.as_slice(), key_low.as_slice()) {
            let p = (hs[i].0.clone(), hs[i].1.clone());
            return Some(p);
        }
        proof {
            assert(kv.subrange(i as int, n as int).drop_first() =~= kv.subrange(
                i + 1,
                n as int,
            ));
        }
        i += 1;
    }
    proof {
        assert(kv.subrange(n as int, n as int) =~= Seq::<(Seq<char>, Seq<char>)>::empty());
    }
    None
}

/// Where header lookup on a request lands: nowhere when the request carries
/// no header block at all.
pub open spec fn spec_get_header(rv: ReqView, key: Seq<char>) -> Option<(Seq<char>, Seq<char>)> {
    match rv.headers {
        None => None,
        Some(hs) => spec_find_header(hs, key),
    }
}

impl HTTPRequest {
    /// First header whose key starts with `key`, compared lower-cased.
    pub fn get_header(&self, key: &str) -> (r: Option<(String, String)>)
        ensures
            match r {
                Some(p) => spec_get_header(self@, key@) == Some((p.0@, p.1@)),
                None => spec_get_header(self@, key@) is None,
            },
    {
        match &self.headers {
            None => None,
            Some(hs) => find_header_vec(hs, key),
        }
    }
}

/// Builds the query map from the chunk after `?`: pairs are separated by
/// `&` and cut at their first `=`; duplicate keys keep the later value.
fn parse_query(chunk: &[char]) -> (r: StringMap)
    ensures
        r.wf(),
        r@ == spec_query_map(chunk@),
{
    if chunk.len() == 0 {
        return StringMap::new();
    }
    let sep = vec!['&'];
    proof {
        assert(sep@ =~= seq!['&']);
    }
    let pairs = crate::text::split_sub(chunk, sep.as_slice());
    let ghost qp = spec_query_pairs(chunk@);
    let eq_sep = vec!['='];
    proof {
        assert(eq_sep@ =~= seq!['=']);
        assert(pairs.deep_view() == spec_split(chunk@, seq!['&']));
        assert(qp.len() == pairs@.len());
    }
    let mut m = StringMap::new();
    let n = pairs.len();
    let mut i: usize = 0;
    while i < n
        invariant
            qp == spec_query_pairs(chunk@),
            pairs.deep_view() == spec_split(chunk@, seq!['&']),
            eq_sep@ == seq!['='],
            n == pairs@.len(),
            n == qp.len(),
            0 <= i <= n,
            m.wf(),
            m@ == map_of(qp.subrange(0, i as int)),
        decreases n - i,
    {
        let p = &pairs[i];
        proof {
            assert(pairs.deep_view()[i as int] =~= pairs@[i as int]@);
            assert(qp[i as int] == (match spec_find(p@, seq!['=']) {
                None => (p@, Seq::<char>::empty()),
                Some(k) => (p@.subrange(0, k), p@.subrange(k + 1, p@.len() as int)),
            }));
        }
        let key: String;
        let val: String;
        match crate::text::find_sub(p.as_slice(), eq_sep.as_slice()) {
            None => {
                key = crate::text::chars_to_string(p);
                val = String::new();
            },
            Some(k) => {
                proof {
                    crate::text::lemma_spec_find(p@, seq!['=']);
                    assert(crate::text::occurs_at(p@, seq!['='], k as int));
                }
                let plen = p.len();
                key = crate::text::chars_to_string(
                    &vstd::slice::slice_to_vec(vstd::slice::slice_subrange(p.as_slice(), 0, k)),
                );
                val = crate::text::chars_to_string(
                    &vstd::slice::slice_to_vec(
                        vstd::slice::slice_subrange(p.as_slice(), k + 1, plen),
                    ),
                );
            },
        }
        proof {
            assert((key@, val@) == qp[i as int]);
        }
        m.insert(key, val);
        proof {
            assert(qp.subrange(0, i + 1).drop_last() =~= qp.subrange(0, i as int));
            assert(qp.subrange(0, i + 1).last() == qp[i as int]);
            assert(m@ == map_of(qp.subrange(0, i + 1)));
        }
        i += 1;
    }
    proof {
        assert(qp.subrange(0, n as int) =~= qp);
    }
    m
}

impl HTTPRequest {
    /// Parses one raw request text: start line, query, headers, body.  The
    /// result is exactly what `spec_parse_request` says of the buffer.
    pub fn try_from(buffer: &str) -> (r: Result<HTTPRequest, HttpError>)
        ensures
            match r {
                Ok(req) => spec_parse_request(buffer@) matches Ok(rv) && req@ == rv && req.wf(),
                Err(e) => spec_parse_request(buffer@) matches Err(ev) && e@ == ev,
            },
    {
        let cs = crate::text::str_to_chars(buffer);
        let t = crate::text::trim_nuls(cs.as_slice());
        let ghost tv = t@;
        let crlf = vec!['\r', '\n'];
        proof {
            reveal_strlit("\r\n");
            assert(crlf@ =~= "\r\n"@);
        }
        let lines = crate::text::split_sub(t.as_slice(), crlf.as_slice());
        let ghost lines_s = spec_split(tv, "\r\n"@);
        proof {
            assert(lines.deep_view() == lines_s);
            assert(lines.deep_view()[0] =~= lines@[0]@);
        }
        let space = vec![' '];
        proof {
            assert(space@ =~= seq![' ']);
        }
        let toks = crate::text::split_sub(lines[0].as_slice(), space.as_slice());
        let ghost toks_s = spec_split(lines_s[0], seq![' ']);
        proof {
            assert(toks.deep_view() == toks_s);
            assert(toks.deep_view()[0] =~= toks@[0]@);
        }
        let verb = match Verb::from_chars(toks[0].as_slice()) {
            Ok(v) => v,
            Err(e) => {
                return Err(e);
            },
        };
        if toks.len() < 3 {
            return Err(HttpError::BadRequest("Missing protocol".to_owned()));
        }
        proof {
            assert(toks.deep_view()[1] =~= toks@[1]@);
            assert(toks.deep_view()[2] =~= toks@[2]@);
        }
        let protocol = crate::text::chars_to_string(&toks[2]);
        let qmark = vec!['?'];
        proof {
            assert(qmark@ =~= seq!['?']);
        }
        let rparts = crate::text::split_sub(toks[1].as_slice(), qmark.as_slice());
        let ghost rparts_s = spec_split(toks_s[1], seq!['?']);
        proof {
            assert(rparts.deep_view() == rparts_s);
            assert(rparts.deep_view()[0] =~= rparts@[0]@);
        }
        let resource = crate::text::chars_to_string(&rparts[0]);
        let query_params: Option<StringMap> = if rparts.len() >= 2 {
            proof {
                assert(rparts.deep_view()[1] =~= rparts@[1]@);
            }
            Some(parse_query(rparts[1].as_slice()))
        } else {
            None
        };
        let nlines = lines.len();
        let rest_lines = vstd::slice::slice_subrange(lines.as_slice(), 1, nlines);
        proof {
            assert(rest_lines.deep_view() =~~= lines.deep_view().drop_first());
        }
        let headers = headers_from_lines(rest_lines);
        let ghost headers_s = headers_of(take_until_blank(lines_s.drop_first()));
        proof {
            assert(headers_kv(headers@) == headers_s);
        }
        let body: Option<String> = match find_header_vec(&headers, "Content-Length") {
            None => None,
            Some(kv) => {
                let digits = crate::text::str_to_chars(kv.1.as_str());
                match crate::text::parse_usize(digits.as_slice()) {
                    None => {
                        return Err(
                            HttpError::BadRequest(
                                "Content-Length is not a valid integer".to_owned(),
                            ),
                        );
                    },
                    Some(nbody) => {
                        let bsep = vec!['\r', '\n', '\r', '\n'];
                        proof {
                            reveal_strlit("\r\n\r\n");
                            assert(bsep@ =~= "\r\n\r\n"@);
                        }
                        let tlen = t.len();
                        let bt: &[char] = match crate::text::find_sub(
                            t.as_slice(),
                            bsep.as_slice(),
                        ) {
                            None => vstd::slice::slice_subrange(t.as_slice(), 0, 0),
                            Some(bi) => {
                                proof {
                                    crate::text::lemma_spec_find(tv, "\r\n\r\n"@);
                                    assert(crate::text::occurs_at(tv, "\r\n\r\n"@, bi as int));
                                    assert("\r\n\r\n"@.len() == 4);
                                }
                                vstd::slice::slice_subrange(t.as_slice(), bi + 4, tlen)
                            },
                        };
                        proof {
                            assert(bt@ =~= spec_body_text(tv));
                        }
                        if bt.len() < nbody {
                            return Err(
                                HttpError::BadRequest(
                                    "Content-Length exceeds the available body".to_owned(),
                                ),
                            );
                        }
                        Some(
                            crate::text::chars_to_string(
                                &vstd::slice::slice_to_vec(
                                    vstd::slice::slice_subrange(bt, 0, nbody),
                                ),
                            ),
                        )
                    },
                }
            },
        };
        Ok(HTTPRequest { protocol, verb, resource, query_params, headers: Some(headers), body })
    }

    /// Decodes a raw buffer as UTF-8 text and parses it; a buffer that is
    /// not UTF-8 is rejected before any parsing happens.
    pub fn from_bytes(buffer: &[u8]) -> (r: Result<HTTPRequest, HttpError>)
        ensures
            match r {
                Ok(req) => vstd::utf8::valid_utf8(buffer@) && (spec_parse_request(
                    vstd::utf8::decode_utf8(buffer@),
                ) matches Ok(rv) && req@ == rv && req.wf()),
                Err(e) => (!vstd::utf8::valid_utf8(buffer@) && e@ == ErrorView::BadRequest(
                    "invalid utf-8"@,
                )) || (vstd::utf8::valid_utf8(buffer@) && (spec_parse_request(
                    vstd::utf8::decode_utf8(buffer@),
                ) matches Err(ev) && e@ == ev)),
            },
    {
        match bytes_to_string(buffer) {
            None => Err(HttpError::BadRequest("invalid utf-8".to_owned())),
            Some(s) => HTTPRequest::try_from(s.as_str()),
        }
    }
}

/// Copies a header list; spelled out so the abstraction carries over.
pub(crate) fn clone_header_vec(hs: &Vec<(String, String)>) -> (r: Vec<(String, String)>)
    ensures
        headers_kv(r@) == headers_kv(hs@),
{
    let n = hs.len();
    let mut out: Vec<(String, String)> = Vec::new();
    let mut i: usize = 0;
    while i < n
        invariant
            n == hs@.len(),
            0 <= i <= n,
            out@.len() == i,
            forall|j: int|
                0 <= j < i ==> (#[trigger] out@[j]).0@ == hs@[j].0@ && out@[j].1@ == hs@[j].1@,
        decreases n - i,
    {
        out.push((hs[i].0.clone(), hs[i].1.clone()));
        i += 1;
    }
    proof {
        assert(headers_kv(out@) =~= headers_kv(hs@));
    }
    out
}

impl HTTPRequest {
    /// A copy of the request with the same abstraction.
    pub fn duplicate(&self) -> (r: HTTPRequest)
        requires
            self.wf(),
        ensures
            r.wf(),
            r@ == self@,
    {
        let query_params = match &self.query_params {
            None => None,
            Some(q) => Some(q.duplicate()),
        };
        let headers = match &self.headers {
            None => None,
            Some(hs) => Some(clone_header_vec(hs)),
        };
        let body = match &self.body {
            None => None,
            Some(b) => Some(b.clone()),
        };
        HTTPRequest {
            protocol: self.protocol.clone(),
            verb: self.verb,
            resource: self.resource.clone(),
            query_params,
            headers,
            body,
        }
    }
}

/// Relies on `std::str::from_utf8`: it accepts exactly the valid UTF-8
/// byte strings and decodes them to their character sequence.
#[verifier::external_body]
pub(crate) fn bytes_to_string(v: &[u8]) -> (r: Option<String>)
    ensures
        match r {
            Some(s) => vstd::utf8::valid_utf8(v@) && s@ == vstd::utf8::decode_utf8(v@),
            None => !vstd::utf8::valid_utf8(v@),
        },
{
    match std::str::from_utf8(v) {
        Ok(s) => Some(s.to_string()),
        Err(_) => None,
    }
}

} // verus!