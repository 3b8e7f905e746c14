//! HTTP request/response values and the `Transport` a caller plugs in
//! (a real HTTP client, or a callback in tests).
use crate::dime::{lossy_string, utf8_lossy};
use crate::error::Result;
use crate::text::{ascii_lower, chars_eq, chars_of, lower_chars};
use vstd::prelude::*;

verus! {

#[derive(Debug, Clone, Copy, PartialEq, Eq, Structural)]
pub enum Method {
    Get,
    Post,
    Delete,
}

/// An HTTP request. `timeout_ms` bounds the whole exchange (milliseconds) when set.
#[derive(Debug, Clone)]
pub struct HttpRequest {
    pub method: Method,
    pub url: String,
    pub headers: Vec<(String, String)>,
    pub body: Vec<u8>,
    pub timeout_ms: Option<u64>,
}

/// The (name, value) texts of a header list.
pub open spec fn header_views(h: Seq<(String, String)>) -> Seq<(Seq<char>, Seq<char>)> {
    h.map_values(|p: (String, String)| (p.0@, p.1@))
}

impl HttpRequest {
    pub fn get(url: &str) -> (r: Self)
        ensures
            r.method == Method::Get,
            r.url@ == url@,
            r.headers@.len() == 0,
            r.body@.len() == 0,
            r.timeout_ms is None,
    {
        HttpRequest {
            method: Method::Get,
            url: String::from_str(url),
            headers: Vec::new(),
            body: Vec::new(),
            timeout_ms: None,
        }
    }

    /// A POST with a `Content-Type` header.
    pub fn post(url: &str, body: Vec<u8>, content_type: &str) -> (r: Self)
        ensures
            r.method == Method::Post,
            r.url@ == url@,
            header_views(r.headers@) == seq![("Content-Type"@, content_type@)],
            r.body@ == body@,
            r.timeout_ms is None,
    {
        let mut headers: Vec<(String, String)> = Vec::new();
        headers.push((String::from_str("Content-Type"), String::from_str(content_type)));
        assert(header_views(headers@) =~= seq![("Content-Type"@, content_type@)]);
        HttpRequest { method: Method::Post, url: String::from_str(url), headers, body, timeout_ms: None }
    }

    /// The same request with one more header.
    #[verifier::spinoff_prover]
    pub fn header(self, name: &str, value: &str) -> (r: Self)
        ensures
            r.method == self.method,
            r.url == self.url,
            header_views(r.headers@) == header_views(self.headers@).push((name@, value@)),
            r.body == self.body,
            r.timeout_ms == self.timeout_ms,
    {
        let mut s = self;
        let ghost before = header_views(s.headers@);
        s.headers.push((String::from_str(name), String::from_str(value)));
        assert(header_views(s.headers@) =~= before.push((name@, value@)));
        s
    }

    /// The same request with a time limit in milliseconds.
    pub fn with_timeout(self, ms: u64) -> (r: Self)
        ensures
            r.method == self.method,
            r.url == self.url,
            r.headers == self.headers,
            r.body == self.body,
            r.timeout_ms == Some(ms),
    {
        let mut s = self;
        s.timeout_ms = Some(ms);
        s
    }
}

#[derive(Debug, Clone)]
pub struct HttpResponse {
    pub status: u16,
    pub headers: Vec<(String, String)>,
    pub body: Vec<u8>,
}

/// The first header whose name matches `name` ignoring ASCII case, by index.
pub open spec fn header_index(h: Seq<(Seq<char>, Seq<char>)>, name: Seq<char>) -> Option<int> {
    if exists|i: int|
        0 <= i < h.len() && ascii_lower(#[trigger] h[i].0) == ascii_lower(name) && forall|j: int|
            0 <= j < i ==> ascii_lower(#[trigger] h[j].0) != ascii_lower(name) {
        Some(
            choose|i: int|
                0 <= i < h.len() && ascii_lower(#[trigger] h[i].0) == ascii_lower(name) && forall|
                    j: int,
                |
                    0 <= j < i ==> ascii_lower(#[trigger] h[j].0) != ascii_lower(name),
        )
    } else {
        None
    }
}

impl HttpResponse {
    /// The value of the first header named `name` (ASCII case ignored).
    pub fn header(&self, name: &str) -> (r: Option<&str>)
        ensures
            match header_index(header_views(self.headers@), name@) {
                Some(i) => r matches Some(v) && v@ == self.headers@[i].1@,
                None => r is None,
            },
    {
        let want = lower_chars(chars_of(name).as_slice());
        let ghost hv = header_views(self.headers@);
        let mut i: usize = 0;
        while i < self.headers.len()
            invariant
                hv == header_views(self.headers@),
                want@ == ascii_lower(name@),
                i <= self.headers@.len(),
                forall|j: int| 0 <= j < i ==> ascii_lower(#[trigger] hv[j].0) != ascii_lower(name@),
            decreases self.headers@.len() - i,
        {
            let k = lower_chars(chars_of(self.headers[i].0.as_str()).as_slice());
            assert(hv[i as int].0 == self.headers@[i as int].0@);
            if chars_eq(k.as_slice(), want.as_slice()) {
                proof {
                    let p = |m: int|
                        0 <= m < hv.len() && ascii_lower(hv[m].0) == ascii_lower(name@) && forall|
                            j: int,
                        |
                            0 <= j < m ==> ascii_lower(#[trigger] hv[j].0) != ascii_lower(name@);
                    assert(p(i as int));
                    let c = choose|m: int|
                        0 <= m < hv.len() && ascii_lower(#[trigger] hv[m].0) == ascii_lower(name@)
                            && forall|j: int|
                            0 <= j < m ==> ascii_lower(#[trigger] hv[j].0) != ascii_lower(name@);
                    if c < i {
                        assert(ascii_lower(hv[c].0) != ascii_lower(name@));
                    }
                    if c > i {
                        assert(ascii_lower(hv[i as int].0) != ascii_lower(name@));
                    }
                }
                return Some(self.headers[i].1.as_str());
            }
            i = i + 1;
        }
        None
    }

    /// A 2xx status.
    pub fn is_success(&self) -> (r: bool)
        ensures
            r == (200 <= self.status < 300),
    {
        200 <= self.status && self.status < 300
    }

    /// The body as text, invalid UTF-8 replaced.
    pub fn text(&self) -> (r: String)
        ensures
            r@ == utf8_lossy(self.body@),
    {
        lossy_string(self.body.as_slice())
    }
}

/// A plain `GET` of `url`: no headers, no body, no time limit.
pub open spec fn get_request(req: HttpRequest, url: Seq<char>) -> bool {
    &&& req.method == Method::Get
    &&& req.url@ == url
    &&& req.headers@.len() == 0
    &&& req.body@.len() == 0
    &&& req.timeout_ms is None
}

/// A `POST` of `body` to `url` with its content type and no time limit.
pub open spec fn post_request(req: HttpRequest, url: Seq<char>, body: Seq<u8>, content_type: Seq<char>) -> bool {
    &&& req.method == Method::Post
    &&& req.url@ == url
    &&& header_views(req.headers@) == seq![("Content-Type"@, content_type)]
    &&& req.body@ == body
    &&& req.timeout_ms is None
}

/// Carries one HTTP exchange: a real client, or a stand-in in tests.
pub trait Transport {
    /// `r` is an answer this transport can give to `req`.
    spec fn answers(&self, req: HttpRequest, r: Result<HttpResponse>) -> bool;

    fn execute(&self, req: HttpRequest) -> (r: Result<HttpResponse>)
        ensures
            self.answers(req, r),
    ;

    /// The answer to a plain `GET` of `url`.
    fn get(&self, url: &str) -> (r: Result<HttpResponse>)
        ensures
            exists|req: HttpRequest| get_request(req, url@) && #[trigger] self.answers(req, r),
    {
        let req = HttpRequest::get(url);
        let ghost g = req;
        let r = self.execute(req);
        assert(get_request(g, url@) && self.answers(g, r));
        r
    }

    /// The answer to a `POST` of `body` to `url`.
    fn post(&self, url: &str, body: &[u8], content_type: &str) -> (r: Result<HttpResponse>)
        ensures
            exists|req: HttpRequest|
                post_request(req, url@, body@, content_type@) && #[trigger] self.answers(req, r),
    {
        let mut b: Vec<u8> = Vec::new();
        b.extend_from_slice(body);
        assert(b@ =~= body@);
        let req = HttpRequest::post(url, b, content_type);
        let ghost g = req;
        let r = self.execute(req);
        assert(post_request(g, url@, body@, content_type@) && self.answers(g, r));
        r
    }
}

/// A transport that hands each request to a function; tests use it in place
/// of a listening socket. The function must accept every request.
pub struct FnTransport<F: Fn(HttpRequest) -> Result<HttpResponse>> {
    f: F,
}

impl<F: Fn(HttpRequest) -> Result<HttpResponse>> FnTransport<F> {
    #[verifier::type_invariant]
    spec fn accepts_all(self) -> bool {
        forall|req: HttpRequest| call_requires(self.f, (req,))
    }

    /// The function that answers each request.
    pub closed spec fn function(&self) -> F {
        self.f
    }

    /// A transport answering with `f`.
    pub fn new(f: F) -> (r: Self)
        requires
            forall|req: HttpRequest| call_requires(f, (req,)),
        ensures
            r.function() == f,
    {
        FnTransport { f }
    }
}

impl<F: Fn(HttpRequest) -> Result<HttpResponse>> Transport for FnTransport<F> {
    /// What the function can return for `req`.
    open spec fn answers(&self, req: HttpRequest, r: Result<HttpResponse>) -> bool {
        call_ensures(self.function(), (req,), r)
    }

    fn execute(&self, req: HttpRequest) -> (r: Result<HttpResponse>) {
        proof {
            use_type_invariant(self);
        }
        (self.f)(req)
    }
}

} // verus!
