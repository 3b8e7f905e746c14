//! Probe a host for eSCL capabilities/jobs, the HP SOAP scanner API and WSD.
use crate::error::{Error, Result};
use crate::escl;
use crate::model::{
    http_url, JobProtocol, ProbeResult, SoapCapabilities, DEFAULT_ESCL_PORT, DEFAULT_SOAP_PORT,
    DEFAULT_WSD_PORT, PRODUCT_NAME,
};
use crate::soap;
use crate::text::{
    chars_of, decimal, is_digit, is_white, lemma_decimal_digits, lemma_parse_decimal, parse_uint,
    parse_uint_chars, seq_contains, string_from_chars, trim, trim_chars,
};
use crate::xmlutil::{first_in, opt_view};
use crate::dime::utf8_lossy;
use crate::model::http_origin;
use crate::transport::{get_request, header_views, HttpRequest, HttpResponse, Method, Transport};
use vstd::utf8::encode_utf8;
use crate::wsd;
use vstd::prelude::*;

verus! {

/// `s` with every leading copy of `p` removed (`trim_start_matches`).
pub open spec fn strip_prefix_all(s: Seq<char>, p: Seq<char>) -> Seq<char>
    decreases s.len(),
{
    if p.len() > 0 && s.len() >= p.len() && s.take(p.len() as int) == p {
        strip_prefix_all(s.skip(p.len() as int), p)
    } else {
        s
    }
}

/// The part of `s` before the first `c`.
pub open spec fn before_char(s: Seq<char>, c: char) -> Seq<char>
    decreases s.len(),
{
    if s.len() == 0 {
        s
    } else if s[0] == c {
        Seq::<char>::empty()
    } else {
        seq![s[0]] + before_char(s.drop_first(), c)
    }
}

/// A host as typed (maybe a URL) reduced to `host[:port]`.
pub open spec fn spec_strip_scheme(h: Seq<char>) -> Seq<char> {
    before_char(strip_prefix_all(strip_prefix_all(trim(h), "http://"@), "https://"@), '/')
}

pub fn strip_prefix_all_exec(s: &[char], p: &str) -> (r: Vec<char>)
    ensures
        r@ == strip_prefix_all(s@, p@),
{
    let pv = chars_of(p);
    let mut i: usize = 0;
    assert(s@.skip(0) =~= s@);
    while pv.len() > 0 && i <= s.len() && pv.len() <= s.len() - i && crate::text::chars_at(
        s,
        pv.as_slice(),
        i,
    )
        invariant
            pv@ == p@,
            i <= s@.len(),
            strip_prefix_all(s@, p@) == strip_prefix_all(s@.skip(i as int), p@),
        decreases s@.len() - i,
    {
        let ghost rest = s@.skip(i as int);
        assert(rest.take(pv@.len() as int) =~= s@.subrange(i as int, i + pv@.len()));
        assert(rest.skip(pv@.len() as int) =~= s@.skip(i + pv@.len()));
        i = i + pv.len();
    }
    let ghost rest = s@.skip(i as int);
    proof {
        if pv@.len() > 0 && rest.len() >= pv@.len() && rest.take(pv@.len() as int) == pv@ {
            assert(rest.take(pv@.len() as int) =~= s@.subrange(i as int, i + pv@.len()));
        }
    }
    let mut out: Vec<char> = Vec::new();
    out.extend_from_slice(&s[i..s.len()]);
    assert(out@ =~= rest);
    out
}

pub fn before_char_exec(s: &[char], c: char) -> (r: Vec<char>)
    ensures
        r@ == before_char(s@, c),
{
    let mut out: Vec<char> = Vec::new();
    let mut i: usize = 0;
    assert(s@.skip(0) =~= s@);
    while i < s.len() && s[i] != c
        invariant
            i <= s@.len(),
            out@ == s@.take(i as int),
            before_char(s@, c) == out@ + before_char(s@.skip(i as int), c),
        decreases s@.len() - i,
    {
        let ghost rest = s@.skip(i as int);
        assert(rest.drop_first() =~= s@.skip(i + 1));
        out.push(s[i]);
        assert(out@ =~= s@.take(i + 1));
        assert(out@ + before_char(s@.skip(i + 1), c) =~= s@.take(i as int) + (seq![rest[0]]
            + before_char(rest.drop_first(), c)));
        i = i + 1;
    }
    assert(out@ + Seq::<char>::empty() =~= out@);
    out
}

fn strip_scheme_chars(host: &str) -> (r: Vec<char>)
    ensures
        r@ == spec_strip_scheme(host@),
{
    let v = chars_of(host);
    let t = trim_chars(v.as_slice());
    let a = strip_prefix_all_exec(t.as_slice(), "http://");
    let b = strip_prefix_all_exec(a.as_slice(), "https://");
    before_char_exec(b.as_slice(), '/')
}

/// `host`, `host:port` or `http://host:port/...` reduced to `host[:port]`.
pub fn strip_scheme(host: &str) -> (r: String)
    ensures
        r@ == spec_strip_scheme(host@),
{
    let c = strip_scheme_chars(host);
    string_from_chars(c.as_slice())
}

/// Index of the last `c` in `s`.
pub open spec fn last_index_of(s: Seq<char>, c: char) -> Option<int>
    decreases s.len(),
{
    if s.len() == 0 {
        None
    } else if s.last() == c {
        Some(s.len() - 1)
    } else {
        last_index_of(s.drop_last(), c)
    }
}

/// What `split_host_port` returns: the host and the port after the last
/// `:` when that parses as a port, else the whole text and the default.
pub open spec fn spec_split_host_port(input: Seq<char>, default_port: u16) -> (Seq<char>, u16) {
    let c = spec_strip_scheme(input);
    match last_index_of(c, ':') {
        Some(i) => match parse_uint(c.skip(i + 1), 0xffff) {
            Some(p) => (c.take(i), p as u16),
            None => (c, default_port),
        },
        None => (c, default_port),
    }
}

/// Split `host`, `host:port`, or `http://host:port/` into (host, optional port).
pub fn split_host_port(input: &str, default_port: u16) -> (r: (String, u16))
    ensures
        r.0@ == spec_split_host_port(input@, default_port).0,
        r.1 == spec_split_host_port(input@, default_port).1,
{
    let c = strip_scheme_chars(input);
    let mut k: usize = c.len();
    assert(c@.take(k as int) =~= c@);
    while k > 0 && c[k - 1] != ':'
        invariant
            k <= c@.len(),
            last_index_of(c@, ':') == last_index_of(c@.take(k as int), ':'),
        decreases k,
    {
        assert(c@.take(k as int).drop_last() =~= c@.take(k - 1));
        k = k - 1;
    }
    if k == 0 {
        return (string_from_chars(c.as_slice()), default_port);
    }
    let i = k - 1;
    assert(last_index_of(c@.take(k as int), ':') == Some(i as int));
    let mut tail: Vec<char> = Vec::new();
    tail.extend_from_slice(&c[k..c.len()]);
    assert(tail@ =~= c@.skip(i + 1));
    match parse_uint_chars(tail.as_slice(), 0xffff) {
        Some(p) => {
            let mut h: Vec<char> = Vec::new();
            h.extend_from_slice(&c[0..i]);
            assert(h@ =~= c@.take(i as int));
            (string_from_chars(h.as_slice()), p as u16)
        },
        None => (string_from_chars(c.as_slice()), default_port),
    }
}

/// `before_char` keeps text in which `c` does not occur.
proof fn lemma_before_char_absent(s: Seq<char>, c: char)
    requires
        forall|i: int| 0 <= i < s.len() ==> s[i] != c,
    ensures
        before_char(s, c) == s,
    decreases s.len(),
{
    if s.len() > 0 {
        lemma_before_char_absent(s.drop_first(), c);
        assert(seq![s[0]] + s.drop_first() =~= s);
    }
}

/// The last `c` of `s` is at `k` when `s[k]` is `c` and none follows it.
proof fn lemma_last_index_at(s: Seq<char>, c: char, k: int)
    requires
        0 <= k < s.len(),
        s[k] == c,
        forall|i: int| k < i < s.len() ==> s[i] != c,
    ensures
        last_index_of(s, c) == Some(k),
    decreases s.len(),
{
    if s.len() - 1 != k {
        lemma_last_index_at(s.drop_last(), c, k);
    }
}

/// Text in which no character is white space, `:` or `/`, as a host name
/// or an IPv4 address is written.
pub open spec fn plain_host(h: Seq<char>) -> bool {
    forall|i: int| 0 <= i < h.len() ==> !is_white(#[trigger] h[i]) && h[i] != ':' && h[i] != '/'
}

/// `host:port`, with the port written in decimal, splits into that host and
/// that port: the port written after the host wins over the default.
pub proof fn lemma_split_host_with_port(h: Seq<char>, port: u16, default_port: u16)
    requires
        plain_host(h),
    ensures
        spec_split_host_port(h + seq![':'] + decimal(port as nat), default_port) == (h, port),
{
    let d = decimal(port as nat);
    let s = h + seq![':'] + d;
    lemma_decimal_digits(port as nat);
    lemma_parse_decimal(port as nat, 0xffff);
    assert(d.len() > 0);
    assert forall|i: int| 0 <= i < s.len() implies !is_white(#[trigger] s[i]) && s[i] != '/' && (
    i > h.len() ==> s[i] != ':') by {
        if i > h.len() {
            assert(s[i] == d[i - h.len() - 1]);
            assert(is_digit(d[i - h.len() - 1]));
        }
    }
    lemma_plain_text_kept(s);
    assert(spec_strip_scheme(s) == s);
    lemma_last_index_at(s, ':', h.len() as int);
    assert(s.skip(h.len() + 1int) =~= d);
    assert(s.take(h.len() as int) =~= h);
}

/// `before_char` ends at the first `c`.
proof fn lemma_before_char_first(a: Seq<char>, c: char, b: Seq<char>)
    requires
        forall|i: int| 0 <= i < a.len() ==> a[i] != c,
    ensures
        before_char(a + seq![c] + b, c) == a,
    decreases a.len(),
{
    let s = a + seq![c] + b;
    if a.len() == 0 {
        assert(s[0] == c);
        assert(a =~= Seq::<char>::empty());
    } else {
        lemma_before_char_first(a.drop_first(), c, b);
        assert(s.drop_first() =~= a.drop_first() + seq![c] + b);
        assert(seq![a[0]] + a.drop_first() =~= a);
    }
}

/// Text that starts with a plain host and then `:` and a digit starts with
/// neither `http://` nor `https://`.
proof fn lemma_no_scheme(t: Seq<char>, n: int)
    requires
        0 <= n,
        n + 1 < t.len(),
        forall|i: int| 0 <= i < n ==> t[i] != ':' && t[i] != '/',
        t[n] == ':',
        is_digit(t[n + 1]),
    ensures
        strip_prefix_all(t, "http://"@) == t,
        strip_prefix_all(t, "https://"@) == t,
{
    reveal_strlit("http://");
    reveal_strlit("https://");
    if t.len() >= 7 && t.take(7) == "http://"@ {
        assert(t.take(7)[5] == '/');
        if n < 7 {
            assert(t.take(7)[n] == ':');
        }
    }
    if t.len() >= 8 && t.take(8) == "https://"@ {
        assert(t.take(8)[6] == '/');
        if n < 8 {
            assert(t.take(8)[n] == ':');
        }
    }
}

/// A URL `http://host:port/...` or `https://host:port/...` (no white space
/// in it) splits into the host and the port written in it.
pub proof fn lemma_split_url_with_port(
    https: bool,
    h: Seq<char>,
    port: u16,
    path: Seq<char>,
    default_port: u16,
)
    requires
        plain_host(h),
        forall|i: int| 0 <= i < path.len() ==> !is_white(#[trigger] path[i]),
    ensures
        spec_split_host_port(
            (if https {
                "https://"@
            } else {
                "http://"@
            }) + h + seq![':'] + decimal(port as nat) + seq!['/'] + path,
            default_port,
        ) == (h, port),
{
    let d = decimal(port as nat);
    let scheme = if https {
        "https://"@
    } else {
        "http://"@
    };
    let c = h + seq![':'] + d;
    let t = c + seq!['/'] + path;
    let s = scheme + h + seq![':'] + d + seq!['/'] + path;
    reveal_strlit("http://");
    reveal_strlit("https://");
    lemma_decimal_digits(port as nat);
    lemma_parse_decimal(port as nat, 0xffff);
    assert(s =~= scheme + t);
    assert(t[h.len() as int] == ':');
    assert(t[h.len() + 1int] == d[0]);
    assert(is_digit(d[0]));
    lemma_no_scheme(t, h.len() as int);
    assert(s.len() > 0 && s[0] == 'h');
    assert(!is_white(s.last())) by {
        if path.len() > 0 {
            assert(s.last() == path.last());
        } else {
            assert(s.last() == '/');
        }
    }
    crate::xmldoc::lemma_trim_plain(s);
    assert(s.skip(scheme.len() as int) =~= t);
    if https {
        assert(s.take(7)[4] == 's');
        assert(strip_prefix_all(s, "http://"@) == s);
        assert(s.take(8) =~= "https://"@);
        assert(strip_prefix_all(s, "https://"@) == t);
    } else {
        assert(s.take(7) =~= "http://"@);
        assert(strip_prefix_all(s, "http://"@) == t);
    }
    assert forall|i: int| 0 <= i < c.len() implies c[i] != '/' && (i > h.len() ==> c[i] != ':') by {
        if i > h.len() {
            assert(c[i] == d[i - h.len() - 1]);
            assert(is_digit(d[i - h.len() - 1]));
        }
    }
    lemma_before_char_first(c, '/', path);
    assert(spec_strip_scheme(s) == c);
    lemma_last_index_at(c, ':', h.len() as int);
    assert(c.skip(h.len() + 1int) =~= d);
    assert(c.take(h.len() as int) =~= h);
}

/// Text without a `:` is all host: the default port is used.
pub proof fn lemma_split_host_without_port(h: Seq<char>, default_port: u16)
    requires
        plain_host(h),
        h.len() > 0,
    ensures
        spec_split_host_port(h, default_port) == (h, default_port),
{
    lemma_plain_text_kept(h);
    if last_index_of(h, ':') is Some {
        lemma_last_index_in(h, ':');
    }
}

/// Where `last_index_of` finds `c`, `c` stands.
proof fn lemma_last_index_in(s: Seq<char>, c: char)
    ensures
        last_index_of(s, c) matches Some(k) ==> 0 <= k < s.len() && s[k] == c,
    decreases s.len(),
{
    if s.len() > 0 && s.last() != c {
        lemma_last_index_in(s.drop_last(), c);
    }
}

/// Non-empty text with no white space and no `/` is kept whole by
/// `spec_strip_scheme`.
proof fn lemma_plain_text_kept(s: Seq<char>)
    requires
        s.len() > 0,
        forall|i: int| 0 <= i < s.len() ==> !is_white(#[trigger] s[i]) && s[i] != '/',
    ensures
        spec_strip_scheme(s) == s,
{
    crate::xmldoc::lemma_trim_plain(s);
    reveal_strlit("http://");
    reveal_strlit("https://");
    assert(!(s.len() >= 7 && s.take(7) == "http://"@)) by {
        if s.len() >= 7 && s.take(7) == "http://"@ {
            assert(s.take(7)[5] == '/');
        }
    }
    assert(strip_prefix_all(s, "http://"@) == s);
    assert(!(s.len() >= 8 && s.take(8) == "https://"@)) by {
        if s.len() >= 8 && s.take(8) == "https://"@ {
            assert(s.take(8)[6] == '/');
        }
    }
    assert(strip_prefix_all(s, "https://"@) == s);
    lemma_before_char_absent(s, '/');
}

/// The protocol a probe prefers: native eSCL jobs, else HP SOAP, else WSD
/// (when it answered, or when only eSCL capabilities were seen), else none.
pub open spec fn spec_choose_protocol(
    escl_jobs: bool,
    soap_ok: bool,
    wsd_ok: bool,
    escl_caps: bool,
    escl_port: u16,
    soap_port: u16,
    wsd_port: u16,
) -> Option<JobProtocol> {
    if escl_jobs {
        Some(JobProtocol::Escl { port: escl_port })
    } else if soap_ok {
        Some(JobProtocol::Soap { port: soap_port })
    } else if wsd_ok || escl_caps {
        Some(JobProtocol::Wsd { port: wsd_port })
    } else {
        None
    }
}

pub fn choose_protocol(
    escl_jobs: bool,
    soap_ok: bool,
    wsd_ok: bool,
    escl_caps: bool,
    escl_port: u16,
    soap_port: u16,
    wsd_port: u16,
) -> (r: Option<JobProtocol>)
    ensures
        r == spec_choose_protocol(
            escl_jobs,
            soap_ok,
            wsd_ok,
            escl_caps,
            escl_port,
            soap_port,
            wsd_port,
        ),
{
    if escl_jobs {
        Some(JobProtocol::Escl { port: escl_port })
    } else if soap_ok {
        Some(JobProtocol::Soap { port: soap_port })
    } else if wsd_ok {
        Some(JobProtocol::Wsd { port: wsd_port })
    } else if escl_caps {
        Some(JobProtocol::Wsd { port: wsd_port })
    } else {
        None
    }
}

/// Probe eSCL capabilities/jobs and the HP SOAP scanner API on the default ports.
///
/// On the live M177fw: GET /eSCL/ScannerCapabilities is 200, POST
/// /eSCL/ScanJobs is 404, and POST GetScannerElements to :8289 succeeds.
pub fn probe_host<T: Transport>(transport: &T, host: &str) -> (r: Result<ProbeResult>)
    ensures
        r matches Ok(p) && probe_answered(transport, p, host@, DEFAULT_SOAP_PORT, DEFAULT_ESCL_PORT),
{
    probe_host_ports(transport, host, DEFAULT_SOAP_PORT, DEFAULT_ESCL_PORT)
}

/// The eSCL capabilities URL on `host:port`.
pub open spec fn caps_url(host: Seq<char>, port: u16) -> Seq<char> {
    http_origin(host, port as nat) + "/eSCL/ScannerCapabilities"@
}

/// The text of a reply that shows an eSCL capabilities document: a 2xx
/// whose body looks like capabilities.
pub open spec fn caps_hit(reply: Result<HttpResponse>) -> Option<Seq<char>> {
    match reply {
        Ok(resp) => if 200 <= resp.status < 300 && escl::spec_looks_like_capabilities(
            utf8_lossy(resp.body@),
        ) {
            Some(utf8_lossy(resp.body@))
        } else {
            None
        },
        Err(_) => None,
    }
}

/// `reply` is what `t` answers to a plain GET of the capabilities on `host:port`.
pub open spec fn caps_asked<T: Transport>(
    t: &T,
    host: Seq<char>,
    port: u16,
    reply: Result<HttpResponse>,
) -> bool {
    exists|req: HttpRequest| get_request(req, caps_url(host, port)) && #[trigger] t.answers(req, reply)
}

/// The capabilities GETs on each of `ports` in turn, each answered by `t`,
/// up to the first that shows a capabilities document: `hit` is that port
/// and the document, or `None` when no port showed one.
pub open spec fn caps_scan<T: Transport>(
    t: &T,
    host: Seq<char>,
    ports: Seq<u16>,
    hit: Option<(u16, Seq<char>)>,
) -> bool
    decreases ports.len(),
{
    if ports.len() == 0 {
        hit is None
    } else {
        exists|reply: Result<HttpResponse>|
            #[trigger] caps_asked(t, host, ports[0], reply) && match caps_hit(reply) {
                Some(x) => hit == Some((ports[0], x)),
                None => caps_scan(t, host, ports.drop_first(), hit),
            }
    }
}

/// `jobs` is what `t`'s answer to `GET /eSCL/ScanJobs` on `host:port` shows.
pub open spec fn jobs_answered<T: Transport>(t: &T, host: Seq<char>, port: u16, jobs: bool) -> bool {
    exists|req: HttpRequest, reply: Result<HttpResponse>|
        #[trigger] jobs_request(req, host, port) && #[trigger] t.answers(req, reply) && jobs
            == jobs_reply(reply)
}

/// `r` is what the SOAP probe makes of `t`'s answer to `GetScannerElements`
/// on `host:port` (4 second limit).
pub open spec fn soap_answered<T: Transport>(
    t: &T,
    host: Seq<char>,
    port: u16,
    r: Result<SoapCapabilities>,
) -> bool {
    exists|req: HttpRequest, reply: Result<HttpResponse>|
        elements_probe(req, host, port, 4000) && #[trigger] t.answers(req, reply) && soap_caps_from(
            reply,
            r,
        )
}

/// `alive` is whether `t`'s answer to a WSD `Transfer/Get` on `host:port`
/// looks like a WSD/SOAP service.
pub open spec fn wsd_answered<T: Transport>(t: &T, host: Seq<char>, port: u16, alive: bool) -> bool {
    exists|req: HttpRequest, reply: Result<HttpResponse>|
        transfer_get_probe(req, host, port) && #[trigger] t.answers(req, reply) && alive
            == alive_reply(reply)
}

/// The document of a capabilities hit.
pub open spec fn hit_text(hit: Option<(u16, Seq<char>)>) -> Option<Seq<char>> {
    match hit {
        Some(h) => Some(h.1),
        None => None,
    }
}

/// The device name a probe reports: the trimmed `MakeAndModel` of the eSCL
/// capabilities document when there is one and it is not blank, else the
/// product name.
pub open spec fn probe_name(caps: Option<Seq<char>>) -> Seq<char> {
    match caps {
        Some(x) => match first_in(x, "MakeAndModel"@) {
            Some(m) => if trim(m).len() > 0 {
                trim(m)
            } else {
                PRODUCT_NAME@
            },
            None => PRODUCT_NAME@,
        },
        None => PRODUCT_NAME@,
    }
}

/// The probe result for what the host showed: `caps` the eSCL capabilities
/// document (if any port served one), `jobs` whether `GET /eSCL/ScanJobs`
/// on that port was not 404, `soap` the SOAP probe's outcome, `ws` whether
/// WSD answered on the SOAP port and `w3` whether WSD answered on the port
/// then chosen for it (the SOAP port, else 3911).
pub open spec fn probe_fields(
    p: ProbeResult,
    host: Seq<char>,
    soap_port: u16,
    escl_port: u16,
    caps: Option<Seq<char>>,
    jobs: bool,
    soap: Result<SoapCapabilities>,
    ws: bool,
    w3: bool,
) -> bool {
    let wsd_port = if ws {
        soap_port
    } else {
        DEFAULT_WSD_PORT
    };
    &&& p.host@ == host
    &&& p.escl_caps == caps is Some
    &&& p.escl_jobs == (caps is Some && jobs)
    &&& p.name@ == probe_name(caps)
    &&& p.soap == ok_caps(soap)
    &&& p.preferred == spec_choose_protocol(
        caps is Some && jobs,
        soap is Ok,
        w3,
        caps is Some,
        escl_port,
        soap_port,
        wsd_port,
    )
}

/// What probing `host` through `t` reports: the capabilities GETs on
/// `escl_port`, 80 and 8080 up to the first document, `GET /eSCL/ScanJobs`
/// on that port, `GetScannerElements` on `soap_port`, and a WSD
/// `Transfer/Get` on `soap_port` and then on the port chosen for WSD, each
/// answered by `t`, and the result is `probe_fields` of those answers.
pub open spec fn probe_answered<T: Transport>(
    t: &T,
    p: ProbeResult,
    host: Seq<char>,
    soap_port: u16,
    escl_port: u16,
) -> bool {
    let h = spec_strip_scheme(host);
    exists|
        hit: Option<(u16, Seq<char>)>,
        jobs: bool,
        soap: Result<SoapCapabilities>,
        ws: bool,
        w3: bool,
    |
        #[trigger] probe_fields(p, h, soap_port, escl_port, hit_text(hit), jobs, soap, ws, w3)
            && caps_scan(t, h, seq![escl_port, 80u16, 8080u16], hit) && (hit matches Some(x)
            ==> jobs_answered(t, h, x.0, jobs)) && soap_answered(t, h, soap_port, soap)
            && wsd_answered(t, h, soap_port, ws) && wsd_answered(
            t,
            h,
            if ws {
                soap_port
            } else {
                DEFAULT_WSD_PORT
            },
            w3,
        )
}

/// The name a capabilities document gives, trimmed, when it is not blank.
fn caps_model_name(text: &str) -> (r: Option<String>)
    ensures
        match first_in(text@, "MakeAndModel"@) {
            Some(m) => if trim(m).len() > 0 {
                r matches Some(n) && n@ == trim(m)
            } else {
                r is None
            },
            None => r is None,
        },
{
    match crate::xmlutil::first_text(text, "MakeAndModel") {
        Some(model) => {
            let mc = chars_of(model.as_str());
            let t = trim_chars(mc.as_slice());
            if t.len() > 0 {
                Some(string_from_chars(t.as_slice()))
            } else {
                None
            }
        },
        None => None,
    }
}

/// The probe result for what the host showed (see `probe_fields`).
pub fn probe_result(
    host: String,
    soap_port: u16,
    escl_port: u16,
    caps: Option<String>,
    jobs: bool,
    soap: Result<SoapCapabilities>,
    ws: bool,
    w3: bool,
) -> (p: ProbeResult)
    ensures
        probe_fields(p, host@, soap_port, escl_port, opt_view(caps), jobs, soap, ws, w3),
{
    let wsd_port = if ws {
        soap_port
    } else {
        DEFAULT_WSD_PORT
    };
    let escl_caps = caps.is_some();
    let escl_jobs = escl_caps && jobs;
    let found = match &caps {
        Some(text) => caps_model_name(text.as_str()),
        None => None,
    };
    let name = match found {
        Some(n) => n,
        None => {
            proof {
                reveal_strlit("HP Color LaserJet Pro MFP M177fw");
            }
            String::from_str(PRODUCT_NAME)
        },
    };
    let soap_ok = soap.is_ok();
    let soap = match soap {
        Ok(c) => Some(c),
        Err(_) => None,
    };
    let preferred = choose_protocol(
        escl_jobs,
        soap_ok,
        w3,
        escl_caps,
        escl_port,
        soap_port,
        wsd_port,
    );
    ProbeResult { host, name, soap, escl_caps, escl_jobs, preferred }
}

/// A GET of the capabilities on `host:port`: the document when the reply
/// shows one.
fn caps_at<T: Transport>(transport: &T, host: &str, port: u16) -> (r: Option<String>)
    ensures
        exists|reply: Result<HttpResponse>|
            #[trigger] caps_asked(transport, host@, port, reply) && opt_view(r) == caps_hit(reply),
{
    let url = http_url(host, port, "/eSCL/ScannerCapabilities");
    let reply = transport.get(url.as_str());
    let ghost gr = reply;
    assert(caps_asked(transport, host@, port, gr));
    let r = match reply {
        Ok(resp) => {
            if resp.is_success() {
                let text = resp.text();
                if escl::looks_like_capabilities(text.as_str()) {
                    Some(text)
                } else {
                    None
                }
            } else {
                None
            }
        },
        Err(_) => None,
    };
    assert(opt_view(r) == caps_hit(gr));
    r
}

#[verifier::spinoff_prover]
#[verifier::rlimit(30)]
pub fn probe_host_ports<T: Transport>(
    transport: &T,
    host: &str,
    soap_port: u16,
    escl_port: u16,
) -> (r: Result<ProbeResult>)
    ensures
        r matches Ok(p) && probe_answered(transport, p, host@, soap_port, escl_port),
{
    let ghost host0 = host@;
    let host = strip_scheme(host);
    let ghost h = host@;
    let ghost ports = seq![escl_port, 80u16, 8080u16];
    let hit: Option<(u16, String)> = match caps_at(transport, host.as_str(), escl_port) {
        Some(x) => Some((escl_port, x)),
        None => match caps_at(transport, host.as_str(), 80) {
            Some(x) => Some((80u16, x)),
            None => match caps_at(transport, host.as_str(), 8080) {
                Some(x) => Some((8080u16, x)),
                None => None,
            },
        },
    };
    let ghost ghit: Option<(u16, Seq<char>)> = match &hit {
        Some(x) => Some((x.0, x.1@)),
        None => None,
    };
    assert(caps_scan(transport, h, ports, ghit)) by {
        reveal_with_fuel(caps_scan, 4);
        assert(ports[0] == escl_port);
        assert(ports.drop_first() =~= seq![80u16, 8080u16]);
        assert(ports.drop_first().drop_first() =~= seq![8080u16]);
        assert(ports.drop_first().drop_first().drop_first() =~= Seq::<u16>::empty());
    }
    let (jobs, caps) = match hit {
        Some(x) => {
            let j = escl_jobs_available(transport, host.as_str(), x.0);
            (j, Some(x.1))
        },
        None => (false, None),
    };
    assert(opt_view(caps) == hit_text(ghit));
    let soap = soap_caps(transport, host.as_str(), soap_port);
    let ws = wsd_alive(transport, host.as_str(), soap_port);
    let wsd_port = if ws {
        soap_port
    } else {
        DEFAULT_WSD_PORT
    };
    let w3 = wsd_alive(transport, host.as_str(), wsd_port);
    let ghost gsoap = soap;
    let p = probe_result(host, soap_port, escl_port, caps, jobs, soap, ws, w3);
    assert(probe_fields(p, h, soap_port, escl_port, hit_text(ghit), jobs, gsoap, ws, w3));
    assert(h == spec_strip_scheme(host0));
    Ok(p)
}

/// What `parse_capabilities` makes of the text `x`.
pub open spec fn caps_outcome(x: Seq<char>, r: Result<SoapCapabilities>) -> bool {
    &&& r is Ok <==> (soap::spec_soap_fault(x) is None && !soap::not_elements_response(x))
    &&& r matches Ok(c) ==> soap::spec_capabilities_fields(x, c)
    &&& r matches Err(e) ==> e matches Error::Protocol(m) && m@ == match soap::spec_soap_fault(x) {
        Some(f) => f,
        None => "SOAP body is not a GetScannerElements response"@,
    }
}

/// The `GetScannerElements` POST to `http://host:port/` with a time limit.
pub open spec fn elements_probe(req: HttpRequest, host: Seq<char>, port: u16, timeout_ms: u64) -> bool {
    &&& req.method == Method::Post
    &&& req.url@ == http_origin(host, port as nat) + "/"@
    &&& req.body@ == encode_utf8(soap::spec_get_scanner_elements())
    &&& header_views(req.headers@) == seq![("Content-Type"@, soap::SOAP_CONTENT_TYPE@)]
    &&& req.timeout_ms == Some(timeout_ms)
}

/// The capabilities of a successful SOAP probe.
pub open spec fn ok_caps(r: Result<SoapCapabilities>) -> Option<SoapCapabilities> {
    match r {
        Ok(c) => Some(c),
        Err(_) => None,
    }
}

/// What the SOAP probe makes of a reply: the capabilities in its body (or in
/// the body of an HTTP error status), else the transport's error.
pub open spec fn soap_caps_from(reply: Result<HttpResponse>, r: Result<SoapCapabilities>) -> bool {
    match reply {
        Ok(resp) => caps_outcome(utf8_lossy(resp.body@), r),
        Err(Error::Http { detail, .. }) => caps_outcome(detail@, r),
        Err(e) => r == Err::<SoapCapabilities, Error>(e),
    }
}

/// HP SOAP `GetScannerElements` on `host:port` (4 second limit). An HTTP
/// error status still carries a parsable body (gSOAP answers 202/500 with XML).
fn soap_caps<T: Transport>(transport: &T, host: &str, port: u16) -> (r: Result<SoapCapabilities>)
    ensures
        soap_answered(transport, host@, port, r),
{
    let req = soap::elements_request(host, port, 4000);
    let ghost g = req;
    let reply = transport.execute(req);
    let ghost gr = reply;
    assert(elements_probe(g, host@, port, 4000) && transport.answers(g, gr));
    let resp = match reply {
        Ok(r) => r,
        Err(Error::Http { detail, .. }) => {
            return soap::parse_capabilities(detail.as_str());
        },
        Err(e) => {
            return Err(e);
        },
    };
    let text = resp.text();
    soap::parse_capabilities(text.as_str())
}

/// The WSD `Transfer/Get` POST to `http://host:port/scanner` (4 second
/// limit), with a fresh message id.
pub open spec fn transfer_get_probe(req: HttpRequest, host: Seq<char>, port: u16) -> bool {
    let url = http_origin(host, port as nat) + "/scanner"@;
    &&& req.method == Method::Post
    &&& req.url@ == url
    &&& header_views(req.headers@) == seq![
        ("Content-Type"@, wsd::spec_content_type(wsd::ACTION_TRANSFER_GET@)),
        ("User-Agent"@, "WSDAPI"@),
    ]
    &&& exists|x: Seq<char>|
        wsd::fresh_envelope(x, url, wsd::ACTION_TRANSFER_GET@, Seq::empty()) && req.body@
            == encode_utf8(x)
    &&& req.timeout_ms == Some(4000u64)
}

/// A reply, or the body of an HTTP error status, that shows a WSD/SOAP
/// service answered.
pub open spec fn alive_reply(reply: Result<HttpResponse>) -> bool {
    match reply {
        Ok(resp) => wsd::spec_looks_alive(resp.body@),
        Err(Error::Http { detail, .. }) => wsd::spec_looks_alive(encode_utf8(detail@)),
        Err(_) => false,
    }
}

/// A WSD `Transfer/Get` to `host:port` answered like a WSD/SOAP service.
fn wsd_alive<T: Transport>(transport: &T, host: &str, port: u16) -> (r: bool)
    ensures
        wsd_answered(transport, host@, port, r),
{
    let url = wsd::scanner_url(host, port);
    let xml = wsd::transfer_get_xml(url.as_str());
    let ghost x = xml@;
    let req = wsd::request(url.as_str(), wsd::ACTION_TRANSFER_GET, xml, 4000);
    let ghost g = req;
    let reply = transport.execute(req);
    let ghost gr = reply;
    assert(transfer_get_probe(g, host@, port) && transport.answers(g, gr));
    let r = match reply {
        Ok(r) => wsd::looks_alive(r.body.as_slice()),
        Err(Error::Http { detail, .. }) => wsd::looks_alive(detail.as_str().as_bytes()),
        Err(_) => false,
    };
    assert(r == alive_reply(gr));
    r
}

/// A plain `GET` of `http://host:port/eSCL/ScanJobs`.
pub open spec fn jobs_request(req: HttpRequest, host: Seq<char>, port: u16) -> bool {
    get_request(req, http_origin(host, port as nat) + "/eSCL/ScanJobs"@)
}

/// Whether a reply to `GET /eSCL/ScanJobs` shows the resource: any status
/// but 404.
pub open spec fn jobs_reply(reply: Result<HttpResponse>) -> bool {
    match reply {
        Ok(resp) => resp.status != 404,
        Err(Error::Http { status, .. }) => status != 404,
        Err(_) => false,
    }
}

/// We must not POST a real ScanJobs during probe (that would start a scan).
/// Treat jobs as available only when GET /eSCL/ScanJobs is not 404. The
/// live M177fw returns 404 here.
fn escl_jobs_available<T: Transport>(transport: &T, host: &str, port: u16) -> (r: bool)
    ensures
        jobs_answered(transport, host@, port, r),
{
    let url = http_url(host, port, "/eSCL/ScanJobs");
    let reply = transport.get(url.as_str());
    let ghost gr = reply;
    let ghost gq = choose|req: HttpRequest| get_request(req, url@) && transport.answers(req, gr);
    assert(jobs_request(gq, host@, port) && transport.answers(gq, gr));
    let r = match reply {
        Ok(r) => r.status != 404,
        Err(Error::Http { status, .. }) => status != 404,
        Err(_) => false,
    };
    assert(r == jobs_reply(gr));
    r
}

} // verus!
