//! The local eSCL (AirScan) surface's rules. Image Capture / Preview talk to
//! this process; ScanJobs become scans on the same backend the CLI
//! uses. The HTTP listener, its threads and the background scan are the
//! caller's part; this module routes requests and keeps the job table.
use crate::error::{error_text, Error, Result};
use crate::escl;
use crate::imagefmt;
use crate::model::{DeviceRecord, JobProtocol, OutputFormat, ScanOutput, ScanRequest, DEFAULT_SOAP_PORT, PRODUCT_NAME};
use crate::probe::before_char;
use crate::soap;
use crate::text::{chars_of, seq_contains, split, split_chars, str_contains, str_eq, string_from_chars, views};
use crate::transport::{Method, Transport};
use vstd::prelude::*;

verus! {

/// A ScanJobs job the facade accepted.
#[derive(Debug, Clone)]
pub struct FacadeJob {
    pub body: Vec<u8>,
    pub mime: String,
    pub consumed: bool,
    pub ready: bool,
    pub error: Option<String>,
}

/// An HTTP answer: status, content type, body and extra headers.
#[derive(Debug, Clone)]
pub struct Reply {
    pub status: u16,
    pub content_type: String,
    pub body: Vec<u8>,
    pub headers: Vec<(String, String)>,
}

/// The facade's state: its jobs by id, the saved device, and whether paper
/// was last seen in the feeder.
pub struct FacadeState {
    pub jobs: Vec<(String, FacadeJob)>,
    pub device: Option<DeviceRecord>,
    pub adf_loaded: bool,
}

/// What a request asks for.
#[derive(Debug, Clone, Copy, PartialEq, Eq, Structural)]
pub enum Route {
    Capabilities,
    Status,
    CreateJob,
    NextDocument,
    DeleteJob,
    NotFound,
}

/// The path of a request URL (the part before `?`).
pub open spec fn spec_request_path(url: Seq<char>) -> Seq<char> {
    before_char(url, '?')
}

pub fn request_path(url: &str) -> (r: String)
    ensures
        r@ == spec_request_path(url@),
{
    let c = chars_of(url);
    let p = crate::probe::before_char_exec(c.as_slice(), '?');
    string_from_chars(p.as_slice())
}

/// How a method and path are routed.
pub open spec fn spec_route(method: Option<Method>, path: Seq<char>) -> Route {
    if method == Some(Method::Get) && (path == "/eSCL/ScannerCapabilities"@ || path
        == "/ScannerCapabilities"@) {
        Route::Capabilities
    } else if method == Some(Method::Get) && (path == "/eSCL/ScannerStatus"@ || path
        == "/ScannerStatus"@) {
        Route::Status
    } else if method == Some(Method::Post) && (path == "/eSCL/ScanJobs"@ || path == "/ScanJobs"@) {
        Route::CreateJob
    } else if method == Some(Method::Get) && seq_contains(path, "/NextDocument"@) {
        Route::NextDocument
    } else if method == Some(Method::Delete) && seq_contains(path, "/ScanJobs/"@) {
        Route::DeleteJob
    } else {
        Route::NotFound
    }
}

pub fn route(method: Option<Method>, path: &str) -> (r: Route)
    ensures
        r == spec_route(method, path@),
{
    let get = method == Some(Method::Get);
    if get && (str_eq(path, "/eSCL/ScannerCapabilities") || str_eq(path, "/ScannerCapabilities")) {
        Route::Capabilities
    } else if get && (str_eq(path, "/eSCL/ScannerStatus") || str_eq(path, "/ScannerStatus")) {
        Route::Status
    } else if method == Some(Method::Post) && (str_eq(path, "/eSCL/ScanJobs") || str_eq(
        path,
        "/ScanJobs",
    )) {
        Route::CreateJob
    } else if get && str_contains(path, "/NextDocument") {
        Route::NextDocument
    } else if method == Some(Method::Delete) && str_contains(path, "/ScanJobs/") {
        Route::DeleteJob
    } else {
        Route::NotFound
    }
}

/// The non-empty segments of a path.
pub open spec fn segments(path: Seq<char>) -> Seq<Seq<char>> {
    nonempty(split(path, '/'))
}

/// The non-empty pieces, in order.
pub open spec fn nonempty(p: Seq<Seq<char>>) -> Seq<Seq<char>>
    decreases p.len(),
{
    if p.len() == 0 {
        p
    } else if p.last().len() == 0 {
        nonempty(p.drop_last())
    } else {
        nonempty(p.drop_last()).push(p.last())
    }
}

/// The first index of `x` in `s`.
pub open spec fn first_index(s: Seq<Seq<char>>, x: Seq<char>) -> Option<int>
    decreases s.len(),
{
    if s.len() == 0 {
        None
    } else if s[0] == x {
        Some(0)
    } else {
        match first_index(s.drop_first(), x) {
            Some(i) => Some(i + 1),
            None => None,
        }
    }
}

/// The job id in `/eSCL/ScanJobs/{id}[/NextDocument]`: the segment after
/// the first `ScanJobs`.
pub open spec fn spec_job_id(path: Seq<char>) -> Option<Seq<char>> {
    let parts = segments(path);
    match first_index(parts, "ScanJobs"@) {
        Some(i) => if i + 1 < parts.len() {
            Some(parts[i + 1])
        } else {
            None
        },
        None => None,
    }
}

#[verifier::spinoff_prover]
pub fn job_id_from(path: &str) -> (r: Option<String>)
    ensures
        crate::xmlutil::opt_view(r) == spec_job_id(path@),
{
    let c = chars_of(path);
    let pieces = split_chars(c.as_slice(), '/');
    let ghost pv = views(pieces@);
    let mut parts: Vec<Vec<char>> = Vec::new();
    let mut k: usize = 0;
    while k < pieces.len()
        invariant
            pv == views(pieces@),
            k <= pieces@.len(),
            views(parts@) == nonempty(pv.take(k as int)),
        decreases pieces@.len() - k,
    {
        assert(pv.take(k + 1).drop_last() =~= pv.take(k as int));
        assert(pv.take(k + 1).last() == pieces@[k as int]@);
        if pieces[k].len() > 0 {
            let mut p: Vec<char> = Vec::new();
            p.extend_from_slice(pieces[k].as_slice());
            let ghost before = views(parts@);
            let ghost v = p@;
            parts.push(p);
            assert(views(parts@) =~= before.push(v));
            assert(v == pieces@[k as int]@);
            assert(pv.take(k + 1).last().len() > 0);
            assert(views(parts@) == nonempty(pv.take(k + 1)));
        } else {
            assert(pv.take(k + 1).last().len() == 0);
            assert(views(parts@) == nonempty(pv.take(k + 1)));
        }
        k = k + 1;
    }
    assert(pv.take(pv.len() as int) =~= pv);
    let ghost sv = views(parts@);
    assert(c@ == path@);
    assert(sv == segments(path@));
    let mut i: usize = 0;
    assert(sv.skip(0) =~= sv);
    while i < parts.len()
        invariant
            sv == views(parts@),
            sv == segments(path@),
            i <= parts@.len(),
            first_index(sv, "ScanJobs"@) == match first_index(sv.skip(i as int), "ScanJobs"@) {
                Some(j) => Some(j + i),
                None => None,
            },
        decreases parts@.len() - i,
    {
        let ghost rest = sv.skip(i as int);
        assert(rest[0] == parts@[i as int]@);
        assert(rest.drop_first() =~= sv.skip(i + 1));
        if crate::text::chars_eq_str(parts[i].as_slice(), "ScanJobs") {
            assert(first_index(rest, "ScanJobs"@) == Some(0int));
            assert(first_index(sv, "ScanJobs"@) == Some(i as int));
            assert(sv == segments(path@));
            if i + 1 < parts.len() {
                assert(sv[i + 1] == parts@[i + 1]@);
                return Some(string_from_chars(parts[i + 1].as_slice()));
            }
            return None;
        }
        i = i + 1;
    }
    None
}

/// SOAP ports to ask about paper in the ADF: the saved job port, then 8289.
pub open spec fn spec_soap_probe_ports(job: JobProtocol) -> Seq<u16> {
    let p = match job {
        JobProtocol::Soap { port } => port,
        JobProtocol::Escl { port } => port,
        JobProtocol::Wsd { port } => port,
    };
    if p != DEFAULT_SOAP_PORT {
        seq![p, DEFAULT_SOAP_PORT]
    } else {
        seq![p]
    }
}

pub fn soap_probe_ports(device: &DeviceRecord) -> (r: Vec<u16>)
    ensures
        r@ == spec_soap_probe_ports(device.job),
{
    let job_port = match device.job {
        JobProtocol::Soap { port } => port,
        JobProtocol::Escl { port } => port,
        JobProtocol::Wsd { port } => port,
    };
    let mut ports: Vec<u16> = Vec::new();
    ports.push(job_port);
    if job_port != DEFAULT_SOAP_PORT {
        ports.push(DEFAULT_SOAP_PORT);
    }
    assert(ports@ =~= spec_soap_probe_ports(device.job));
    ports
}

/// Whether a capabilities document names platen, ADF, color and gray, JPEG and PDF.
pub open spec fn spec_mentions_required(x: Seq<char>) -> bool {
    seq_contains(x, "Platen"@) && seq_contains(x, "Adf"@) && seq_contains(x, "RGB24"@)
        && seq_contains(x, "Grayscale8"@) && seq_contains(x, "image/jpeg"@) && seq_contains(
        x,
        "application/pdf"@,
    )
}

/// `w` occurs in itself.
proof fn lemma_in_self(w: Seq<char>)
    ensures
        seq_contains(w, w),
{
    assert(w.subrange(0, w.len() as int) =~= w);
    assert(crate::text::occurs_at(w, w, 0));
}

/// Text found in `a` is found in `a + b`.
proof fn lemma_in_left(a: Seq<char>, b: Seq<char>, w: Seq<char>)
    requires
        seq_contains(a, w),
    ensures
        seq_contains(a + b, w),
{
    let i = choose|i: int| crate::text::occurs_at(a, w, i);
    assert((a + b).subrange(i, i + w.len()) =~= a.subrange(i, i + w.len()));
    assert(crate::text::occurs_at(a + b, w, i));
}

/// Text found in `b` is found in `a + b`.
proof fn lemma_in_right(a: Seq<char>, b: Seq<char>, w: Seq<char>)
    requires
        seq_contains(b, w),
    ensures
        seq_contains(a + b, w),
{
    let i = choose|i: int| crate::text::occurs_at(b, w, i);
    assert((a + b).subrange(a.len() + i, a.len() + i + w.len()) =~= b.subrange(i, i + w.len()));
    assert(crate::text::occurs_at(a + b, w, a.len() + i));
}

/// Every capabilities document the facade serves names the platen, the ADF,
/// color and gray, JPEG and PDF, whatever its UUID and model.
pub proof fn lemma_capabilities_mention_required(uuid: Seq<char>, model: Seq<char>)
    ensures
        spec_mentions_required(escl::spec_capabilities(uuid, model)),
{
    // c[k] and x[k]: the first k + 1 pieces of one input source's
    // capabilities and of the whole document, joined.
    let c0 = escl::INPUT_CAPS_HEAD@;
    let c1 = c0 + "RGB24"@;
    let c2 = c1 + escl::INPUT_CAPS_AFTER_COLOR@;
    let c3 = c2 + "Grayscale8"@;
    let c4 = c3 + escl::INPUT_CAPS_AFTER_GRAY@;
    let c5 = c4 + "image/jpeg"@;
    let c6 = c5 + escl::INPUT_CAPS_AFTER_JPEG@;
    let c7 = c6 + "application/pdf"@;
    let c8 = c7 + escl::INPUT_CAPS_TAIL@;
    let caps = escl::input_caps();
    assert(c8 == caps);
    let x0 = escl::CAPS_HEAD@;
    let x1 = x0 + crate::text::xml_escaped(model, false);
    let x2 = x1 + escl::CAPS_AFTER_MODEL@;
    let x3 = x2 + crate::text::xml_escaped(uuid, false);
    let x4 = x3 + escl::CAPS_AFTER_UUID@;
    let x5 = x4 + "Platen"@;
    let x6 = x5 + escl::CAPS_PLATEN_OPEN@;
    let x7 = x6 + caps;
    let x8 = x7 + escl::CAPS_PLATEN_TO_ADF@;
    let x9 = x8 + "Adf"@;
    let x10 = x9 + escl::CAPS_ADF_OPEN@;
    let x11 = x10 + caps;
    let x12 = x11 + escl::CAPS_TAIL@;
    assert(x12 == escl::spec_capabilities(uuid, model));
    lemma_in_self("Platen"@);
    lemma_in_right(x4, "Platen"@, "Platen"@);
    lemma_in_left(x5, escl::CAPS_PLATEN_OPEN@, "Platen"@);
    lemma_in_left(x6, caps, "Platen"@);
    lemma_in_left(x7, escl::CAPS_PLATEN_TO_ADF@, "Platen"@);
    lemma_in_left(x8, "Adf"@, "Platen"@);
    lemma_in_left(x9, escl::CAPS_ADF_OPEN@, "Platen"@);
    lemma_in_left(x10, caps, "Platen"@);
    lemma_in_left(x11, escl::CAPS_TAIL@, "Platen"@);
    lemma_in_self("Adf"@);
    lemma_in_right(x8, "Adf"@, "Adf"@);
    lemma_in_left(x9, escl::CAPS_ADF_OPEN@, "Adf"@);
    lemma_in_left(x10, caps, "Adf"@);
    lemma_in_left(x11, escl::CAPS_TAIL@, "Adf"@);
    lemma_in_self("RGB24"@);
    lemma_in_right(c0, "RGB24"@, "RGB24"@);
    lemma_in_left(c1, escl::INPUT_CAPS_AFTER_COLOR@, "RGB24"@);
    lemma_in_left(c2, "Grayscale8"@, "RGB24"@);
    lemma_in_left(c3, escl::INPUT_CAPS_AFTER_GRAY@, "RGB24"@);
    lemma_in_left(c4, "image/jpeg"@, "RGB24"@);
    lemma_in_left(c5, escl::INPUT_CAPS_AFTER_JPEG@, "RGB24"@);
    lemma_in_left(c6, "application/pdf"@, "RGB24"@);
    lemma_in_left(c7, escl::INPUT_CAPS_TAIL@, "RGB24"@);
    lemma_in_right(x6, caps, "RGB24"@);
    lemma_in_left(x7, escl::CAPS_PLATEN_TO_ADF@, "RGB24"@);
    lemma_in_left(x8, "Adf"@, "RGB24"@);
    lemma_in_left(x9, escl::CAPS_ADF_OPEN@, "RGB24"@);
    lemma_in_left(x10, caps, "RGB24"@);
    lemma_in_left(x11, escl::CAPS_TAIL@, "RGB24"@);
    lemma_in_self("Grayscale8"@);
    lemma_in_right(c2, "Grayscale8"@, "Grayscale8"@);
    lemma_in_left(c3, escl::INPUT_CAPS_AFTER_GRAY@, "Grayscale8"@);
    lemma_in_left(c4, "image/jpeg"@, "Grayscale8"@);
    lemma_in_left(c5, escl::INPUT_CAPS_AFTER_JPEG@, "Grayscale8"@);
    lemma_in_left(c6, "application/pdf"@, "Grayscale8"@);
    lemma_in_left(c7, escl::INPUT_CAPS_TAIL@, "Grayscale8"@);
    lemma_in_right(x6, caps, "Grayscale8"@);
    lemma_in_left(x7, escl::CAPS_PLATEN_TO_ADF@, "Grayscale8"@);
    lemma_in_left(x8, "Adf"@, "Grayscale8"@);
    lemma_in_left(x9, escl::CAPS_ADF_OPEN@, "Grayscale8"@);
    lemma_in_left(x10, caps, "Grayscale8"@);
    lemma_in_left(x11, escl::CAPS_TAIL@, "Grayscale8"@);
    lemma_in_self("image/jpeg"@);
    lemma_in_right(c4, "image/jpeg"@, "image/jpeg"@);
    lemma_in_left(c5, escl::INPUT_CAPS_AFTER_JPEG@, "image/jpeg"@);
    lemma_in_left(c6, "application/pdf"@, "image/jpeg"@);
    lemma_in_left(c7, escl::INPUT_CAPS_TAIL@, "image/jpeg"@);
    lemma_in_right(x6, caps, "image/jpeg"@);
    lemma_in_left(x7, escl::CAPS_PLATEN_TO_ADF@, "image/jpeg"@);
    lemma_in_left(x8, "Adf"@, "image/jpeg"@);
    lemma_in_left(x9, escl::CAPS_ADF_OPEN@, "image/jpeg"@);
    lemma_in_left(x10, caps, "image/jpeg"@);
    lemma_in_left(x11, escl::CAPS_TAIL@, "image/jpeg"@);
    lemma_in_self("application/pdf"@);
    lemma_in_right(c6, "application/pdf"@, "application/pdf"@);
    lemma_in_left(c7, escl::INPUT_CAPS_TAIL@, "application/pdf"@);
    lemma_in_right(x6, caps, "application/pdf"@);
    lemma_in_left(x7, escl::CAPS_PLATEN_TO_ADF@, "application/pdf"@);
    lemma_in_left(x8, "Adf"@, "application/pdf"@);
    lemma_in_left(x9, escl::CAPS_ADF_OPEN@, "application/pdf"@);
    lemma_in_left(x10, caps, "application/pdf"@);
    lemma_in_left(x11, escl::CAPS_TAIL@, "application/pdf"@);
}

pub fn capabilities_mention_required_features(xml: &str) -> (r: bool)
    ensures
        r == spec_mentions_required(xml@),
{
    str_contains(xml, "Platen") && str_contains(xml, "Adf") && str_contains(xml, "RGB24")
        && str_contains(xml, "Grayscale8") && str_contains(xml, "image/jpeg") && str_contains(
        xml,
        "application/pdf",
    )
}

/// The text of a reply body, or of an HTTP error's detail.
pub open spec fn reply_body(reply: Result<crate::transport::HttpResponse>) -> Option<Seq<char>> {
    match reply {
        Ok(resp) => Some(crate::dime::utf8_lossy(resp.body@)),
        Err(Error::Http { detail, .. }) => Some(detail@),
        Err(_) => None,
    }
}

/// What a `GetScannerElements` reply says about paper in the ADF.
pub open spec fn spec_paper_in_adf(reply: Result<crate::transport::HttpResponse>) -> Option<bool> {
    match reply_body(reply) {
        None => None,
        Some(b) => if soap::spec_soap_fault(b) is None && !soap::not_elements_response(b) {
            Some(soap::first_flag(b, "PaperInADF"@, false))
        } else {
            None
        },
    }
}

/// What `GetScannerElements` says about paper in the ADF: `None` when the
/// request failed (not an HTTP status) or the body is not a capabilities reply.
pub fn paper_in_adf_from(reply: Result<crate::transport::HttpResponse>) -> (r: Option<bool>)
    ensures
        r == spec_paper_in_adf(reply),
{
    let body = match crate::scan::reply_text(reply) {
        Ok(b) => b,
        Err(_) => {
            return None;
        },
    };
    match soap::parse_capabilities(body.as_str()) {
        Ok(c) => Some(c.paper_in_adf),
        Err(_) => None,
    }
}

/// Ask the SOAP service on `host:port` whether paper is in the feeder
/// (2 second limit): what `paper_in_adf_from` makes of the reply.
pub fn probe_paper_in_adf<T: Transport>(transport: &T, host: &str, port: u16) -> (r: Option<bool>)
    ensures
        exists|req: crate::transport::HttpRequest, reply: Result<crate::transport::HttpResponse>|
            crate::probe::elements_probe(req, host@, port, 2000) && #[trigger] transport.answers(
                req,
                reply,
            ) && r == spec_paper_in_adf(reply),
{
    let req = soap::elements_request(host, port, 2000);
    let ghost gq = req;
    let reply = transport.execute(req);
    let ghost g = reply;
    let r = paper_in_adf_from(reply);
    assert(crate::probe::elements_probe(gq, host@, port, 2000) && transport.answers(gq, g));
    assert(r == spec_paper_in_adf(g));
    r
}

fn text_reply(status: u16, content_type: &str, text: &str) -> (r: Reply)
    ensures
        r.status == status,
        r.content_type@ == content_type@,
        r.body@ == vstd::utf8::encode_utf8(text@),
        r.headers@.len() == 0,
{
    let mut body: Vec<u8> = Vec::new();
    body.extend_from_slice(text.as_bytes());
    Reply { status, content_type: String::from_str(content_type), body, headers: Vec::new() }
}

/// The first job with id `id`.
pub open spec fn job_index(jobs: Seq<(String, FacadeJob)>, id: Seq<char>) -> Option<int>
    decreases jobs.len(),
{
    if jobs.len() == 0 {
        None
    } else if jobs[0].0@ == id {
        Some(0)
    } else {
        match job_index(jobs.drop_first(), id) {
            Some(i) => Some(i + 1),
            None => None,
        }
    }
}

/// No two jobs share an id (the job table is a map from id to job).
pub open spec fn ids_distinct(jobs: Seq<(String, FacadeJob)>) -> bool {
    forall|i: int, j: int| 0 <= i < j < jobs.len() ==> #[trigger] jobs[i].0@ != #[trigger] jobs[j].0@
}

/// Where a job with id `id` goes: over the entry that has that id, else at the end.
pub open spec fn job_slot(jobs: Seq<(String, FacadeJob)>, id: Seq<char>) -> int {
    match job_index(jobs, id) {
        Some(k) => k,
        None => jobs.len() as int,
    }
}

/// Entry `k` of `jobs` is a new job `id`: no image yet, not ready, no error.
pub open spec fn fresh_job(jobs: Seq<(String, FacadeJob)>, k: int, id: Seq<char>) -> bool {
    &&& 0 <= k < jobs.len()
    &&& jobs[k].0@ == id
    &&& jobs[k].1.body@.len() == 0
    &&& jobs[k].1.mime@ == "image/jpeg"@
    &&& !jobs[k].1.consumed
    &&& !jobs[k].1.ready
    &&& jobs[k].1.error is None
}

/// With no job `id` in the table, no entry has that id.
proof fn lemma_job_index_none(jobs: Seq<(String, FacadeJob)>, id: Seq<char>)
    ensures
        job_index(jobs, id) is None ==> forall|i: int| 0 <= i < jobs.len() ==> #[trigger] jobs[i].0@
            != id,
    decreases jobs.len(),
{
    if jobs.len() > 0 && jobs[0].0@ != id {
        lemma_job_index_none(jobs.drop_first(), id);
        assert forall|i: int| 0 <= i < jobs.len() && job_index(jobs, id) is None implies #[trigger] jobs[i].0@ != id by {
            if i > 0 {
                assert(jobs.drop_first()[i - 1] == jobs[i]);
            }
        }
    }
}

proof fn lemma_job_index_bounds(jobs: Seq<(String, FacadeJob)>, id: Seq<char>)
    ensures
        job_index(jobs, id) matches Some(i) ==> 0 <= i < jobs.len() && jobs[i].0@ == id,
    decreases jobs.len(),
{
    if jobs.len() > 0 && jobs[0].0@ != id {
        lemma_job_index_bounds(jobs.drop_first(), id);
    }
}

fn find_job(jobs: &Vec<(String, FacadeJob)>, id: &str) -> (r: Option<usize>)
    ensures
        r matches Some(k) ==> job_index(jobs@, id@) == Some(k as int) && k < jobs@.len(),
        r is None ==> job_index(jobs@, id@) is None,
{
    let mut i: usize = 0;
    assert(jobs@.skip(0) =~= jobs@);
    while i < jobs.len()
        invariant
            i <= jobs@.len(),
            job_index(jobs@, id@) == match job_index(jobs@.skip(i as int), id@) {
                Some(j) => Some(j + i),
                None => None,
            },
        decreases jobs@.len() - i,
    {
        let ghost rest = jobs@.skip(i as int);
        assert(rest[0] == jobs@[i as int]);
        assert(rest.drop_first() =~= jobs@.skip(i + 1));
        if str_eq(jobs[i].0.as_str(), id) {
            return Some(i);
        }
        i = i + 1;
    }
    None
}

/// The eSCL JobState of a job.
pub open spec fn job_state(j: FacadeJob) -> Seq<char> {
    if j.error is Some {
        "Aborted"@
    } else if j.consumed {
        "Completed"@
    } else {
        "Processing"@
    }
}

/// A job after its scan ended with `result`.
pub open spec fn finished_as(j: FacadeJob, before: FacadeJob, result: Result<ScanOutput>) -> bool {
    &&& j.ready
    &&& j.consumed == before.consumed
    &&& match result {
        Ok(out) => j.body@ == out.bytes@ && j.error == before.error && j.mime@ == (if out.format
            == OutputFormat::Pdf || imagefmt::spec_is_pdf(out.bytes@) {
            "application/pdf"@
        } else {
            "image/jpeg"@
        }),
        Err(e) => j.body == before.body && (j.error matches Some(t) && t@ == error_text(e)),
    }
}

/// A job entry after its image was handed out.
pub open spec fn consumed_job(e: (String, FacadeJob)) -> (String, FacadeJob) {
    (
        e.0,
        FacadeJob { body: e.1.body, mime: e.1.mime, consumed: true, ready: e.1.ready, error: e.1.error },
    )
}

/// What `next_document` answers for a job (`None`: unknown job).
pub open spec fn document_status(j: Option<FacadeJob>) -> u16 {
    match j {
        None => 404,
        Some(j) => if !j.ready {
            503
        } else if j.error is Some {
            503
        } else if !j.consumed {
            200
        } else {
            404
        },
    }
}

/// The `JobInfo` elements of the facade's jobs, in order.
pub open spec fn facade_job_entries(jobs: Seq<(String, FacadeJob)>) -> Seq<char>
    decreases jobs.len(),
{
    if jobs.len() == 0 {
        Seq::<char>::empty()
    } else {
        facade_job_entries(jobs.drop_last()) + escl::job_entry(jobs.last().0@, job_state(jobs.last().1))
    }
}

impl FacadeState {
    /// No jobs, the feeder not yet seen loaded.
    pub fn new(device: Option<DeviceRecord>) -> (r: Self)
        ensures
            r.jobs@.len() == 0,
            ids_distinct(r.jobs@),
            r.device == device,
            !r.adf_loaded,
    {
        FacadeState { jobs: Vec::new(), device, adf_loaded: false }
    }

    /// ScannerCapabilities for the saved device's UUID and name (defaults
    /// without a device).
    pub fn capabilities_reply(&self) -> (r: Reply)
        ensures
            r.status == 200,
            r.body@ == vstd::utf8::encode_utf8(
                match self.device {
                    Some(d) => escl::spec_capabilities(
                        match d.uuid {
                            Some(u) => u@,
                            None => escl::DEFAULT_UUID@,
                        },
                        d.name@,
                    ),
                    None => escl::spec_capabilities(escl::DEFAULT_UUID@, PRODUCT_NAME@),
                },
            ),
    {
        let xml = match &self.device {
            Some(d) => {
                let uuid = match &d.uuid {
                    Some(u) => u.clone(),
                    None => String::from_str(escl::DEFAULT_UUID),
                };
                escl::capabilities_xml(uuid.as_str(), d.name.as_str())
            },
            None => escl::capabilities_xml(escl::DEFAULT_UUID, PRODUCT_NAME),
        };
        text_reply(200, "text/xml; charset=utf-8", xml.as_str())
    }

    /// ScannerStatus: idle, the feeder state and every job with its state.
    pub fn status_reply(&self) -> (r: Reply)
        ensures
            r.status == 200,
            r.content_type@ == "text/xml; charset=utf-8"@,
            r.body@ == vstd::utf8::encode_utf8(
                escl::STATUS_HEAD@ + escl::adf_state(!self.adf_loaded) + escl::STATUS_AFTER_ADF@
                    + facade_job_entries(self.jobs@) + escl::STATUS_TAIL@,
            ),
    {
        let mut jobs: Vec<(String, &str)> = Vec::new();
        for k in 0..self.jobs.len()
            invariant
                jobs@.len() == k,
                escl::job_entries(jobs@) == facade_job_entries(self.jobs@.take(k as int)),
        {
            let j = &self.jobs[k].1;
            let state = if j.error.is_some() {
                "Aborted"
            } else if j.consumed {
                "Completed"
            } else {
                "Processing"
            };
            proof {
                reveal_strlit("Aborted");
                reveal_strlit("Completed");
                reveal_strlit("Processing");
            }
            let ghost before = jobs@;
            jobs.push((self.jobs[k].0.clone(), state));
            assert(self.jobs@.take(k + 1).drop_last() =~= self.jobs@.take(k as int));
            assert(jobs@.drop_last() =~= before);
        }
        assert(self.jobs@.take(self.jobs@.len() as int) =~= self.jobs@);
        let xml = escl::status_xml(!self.adf_loaded, jobs.as_slice());
        text_reply(200, "text/xml; charset=utf-8", xml.as_str())
    }

    /// Accept a ScanJobs POST: 503 without a saved device, else a new
    /// processing job under a fresh id, 201 with its `Location`, and the scan
    /// for the caller to run.
    #[verifier::spinoff_prover]
    pub fn create_job(&mut self, body: &[u8]) -> (r: (Reply, Option<(String, DeviceRecord, ScanRequest)>))
        ensures
            final(self).device == old(self).device,
            final(self).adf_loaded == old(self).adf_loaded,
            old(self).device is None ==> r.0.status == 503 && r.1 is None && final(self).jobs@
                == old(self).jobs@ && r.0.body@ == vstd::utf8::encode_utf8(
                "no scanner configured; run hp-m177 add"@,
            ),
            old(self).device matches Some(dev) ==> {
                &&& r.1 matches Some((id, d, req))
                &&& d == dev
                &&& req == escl::spec_parse_scan_settings(crate::dime::utf8_lossy(body@))
                &&& crate::wsd::uuid_text(id@)
                &&& r.0.status == 201
                &&& r.0.body@ == vstd::utf8::encode_utf8(
                    "<scan:JobUri>"@ + "/eSCL/ScanJobs/"@ + id@ + "</scan:JobUri>"@,
                )
                &&& r.0.headers@.len() == 1 && r.0.headers@[0].0@ == "Location"@
                    && r.0.headers@[0].1@ == "/eSCL/ScanJobs/"@ + id@
                &&& final(self).jobs@.len() == old(self).jobs@.len() + (if job_index(
                    old(self).jobs@,
                    id@,
                ) is Some {
                    0int
                } else {
                    1int
                })
                &&& forall|i: int|
                    0 <= i < old(self).jobs@.len() && i != job_slot(old(self).jobs@, id@)
                        ==> #[trigger] final(self).jobs@[i] == old(self).jobs@[i]
                &&& fresh_job(final(self).jobs@, job_slot(old(self).jobs@, id@), id@)
            },
            ids_distinct(old(self).jobs@) ==> ids_distinct(final(self).jobs@),
    {
        let text = crate::dime::lossy_string(body);
        let req = match escl::parse_scan_settings(text.as_str()) {
            Ok(r) => r,
            Err(e) => {
                let mut s = String::from_str("bad ScanSettings: ");
                let d = e.describe();
                s.append(d.as_str());
                return (text_reply(400, "text/plain", s.as_str()), None);
            },
        };
        let device = match &self.device {
            Some(d) => crate::store::copy_device(d),
            None => {
                return (text_reply(503, "text/plain", "no scanner configured; run hp-m177 add"), None);
            },
        };
        let id = crate::wsd::new_uuid_v4();
        let ghost before = self.jobs@;
        proof {
            lemma_job_index_bounds(before, id@);
            lemma_job_index_none(before, id@);
        }
        let job = FacadeJob {
            body: Vec::new(),
            mime: String::from_str("image/jpeg"),
            consumed: false,
            ready: false,
            error: None,
        };
        match find_job(&self.jobs, id.as_str()) {
            Some(k) => {
                self.jobs.set(k, (id.clone(), job));
                assert(self.jobs@ =~= before.update(k as int, self.jobs@[k as int]));
            },
            None => {
                self.jobs.push((id.clone(), job));
                assert(self.jobs@.drop_last() =~= before);
            },
        }
        assert(ids_distinct(before) ==> ids_distinct(self.jobs@));
        let mut location = String::from_str("/eSCL/ScanJobs/");
        location.append(id.as_str());
        let mut xml = String::from_str("<scan:JobUri>");
        xml.append(location.as_str());
        xml.append("</scan:JobUri>");
        assert(xml@ =~= "<scan:JobUri>"@ + "/eSCL/ScanJobs/"@ + id@ + "</scan:JobUri>"@);
        let mut reply = text_reply(201, "text/xml; charset=utf-8", xml.as_str());
        reply.headers.push((String::from_str("Location"), location));
        (reply, Some((id, device, req)))
    }

    /// Record the outcome of job `id`'s scan: the image (PDF or JPEG) or the
    /// error text; the job becomes ready either way. Other jobs are untouched.
    #[verifier::spinoff_prover]
    pub fn job_finished(&mut self, id: &str, result: Result<ScanOutput>)
        ensures
            ids_distinct(old(self).jobs@) ==> ids_distinct(final(self).jobs@),
            final(self).device == old(self).device,
            final(self).adf_loaded == old(self).adf_loaded,
            match job_index(old(self).jobs@, id@) {
                Some(i) => {
                    &&& final(self).jobs@.len() == old(self).jobs@.len()
                    &&& forall|k: int|
                        0 <= k < old(self).jobs@.len() && k != i ==> #[trigger] final(self).jobs@[k]
                            == old(self).jobs@[k]
                    &&& final(self).jobs@[i].0 == old(self).jobs@[i].0
                    &&& finished_as(final(self).jobs@[i].1, old(self).jobs@[i].1, result)
                },
                None => final(self).jobs@ == old(self).jobs@,
            },
    {
        proof {
            lemma_job_index_bounds(self.jobs@, id@);
        }
        let i = match find_job(&self.jobs, id) {
            Some(i) => i,
            None => {
                return;
            },
        };
        let ghost before = self.jobs@;
        let (jid, old_job) = self.jobs.remove(i);
        let job = match result {
            Ok(out) => {
                let pdf = out.format == OutputFormat::Pdf || imagefmt::is_pdf(out.bytes.as_slice());
                FacadeJob {
                    body: out.bytes,
                    mime: if pdf {
                        String::from_str("application/pdf")
                    } else {
                        String::from_str("image/jpeg")
                    },
                    consumed: old_job.consumed,
                    ready: true,
                    error: old_job.error,
                }
            },
            Err(e) => FacadeJob {
                body: old_job.body,
                mime: old_job.mime,
                consumed: old_job.consumed,
                ready: true,
                error: Some(e.describe()),
            },
        };
        let ghost newjob = job;
        self.jobs.insert(i, (jid, job));
        assert(self.jobs@ =~= before.update(i as int, self.jobs@[i as int]));
        assert(self.jobs@[i as int].1 == newjob);
        assert(finished_as(newjob, before[i as int].1, result));
        assert(job_index(before, id@) == Some(i as int));
    }

    /// NextDocument: 503 while the scan runs or after it failed, the image
    /// once (200), then 404; 404 for an unknown job.
    #[verifier::spinoff_prover]
    pub fn next_document(&mut self, path: &str) -> (r: Reply)
        ensures
            ids_distinct(old(self).jobs@) ==> ids_distinct(final(self).jobs@),
            final(self).device == old(self).device,
            final(self).adf_loaded == old(self).adf_loaded,
            final(self).jobs@.len() == old(self).jobs@.len(),
            match spec_job_id(path@) {
                None => r.status == 404 && final(self).jobs@ == old(self).jobs@,
                Some(id) => match job_index(old(self).jobs@, id) {
                    None => r.status == 404 && final(self).jobs@ == old(self).jobs@,
                    Some(i) => {
                        &&& r.status == document_status(Some(old(self).jobs@[i].1))
                        &&& r.status == 200 ==> r.body@ == old(self).jobs@[i].1.body@
                            && r.content_type@ == old(self).jobs@[i].1.mime@
                            && final(self).jobs@ == old(self).jobs@.update(i, consumed_job(old(self).jobs@[i]))
                            && document_status(Some(final(self).jobs@[i].1)) == 404
                        &&& r.status != 200 ==> final(self).jobs@ == old(self).jobs@
                    },
                },
            },
    {
        let id = match job_id_from(path) {
            Some(id) => id,
            None => {
                return text_reply(404, "text/plain", "no job");
            },
        };
        proof {
            lemma_job_index_bounds(self.jobs@, id@);
        }
        let i = match find_job(&self.jobs, id.as_str()) {
            Some(i) => i,
            None => {
                return text_reply(404, "text/plain", "unknown job");
            },
        };
        let ready = self.jobs[i].1.ready;
        let failed = self.jobs[i].1.error.is_some();
        let consumed = self.jobs[i].1.consumed;
        assert(spec_job_id(path@) == Some(id@));
        assert(job_index(self.jobs@, id@) == Some(i as int));
        if !ready {
            return text_reply(503, "text/plain", "processing");
        }
        if failed {
            let msg = match &self.jobs[i].1.error {
                Some(t) => t.clone(),
                None => String::new(),
            };
            return text_reply(503, "text/plain", msg.as_str());
        }
        if consumed {
            return text_reply(404, "text/plain", "no more documents");
        }
        let ghost before = self.jobs@;
        let (jid, job) = self.jobs.remove(i);
        let reply = Reply {
            status: 200,
            content_type: job.mime.clone(),
            body: job.body.clone(),
            headers: Vec::new(),
        };
        self.jobs.insert(
            i,
            (jid, FacadeJob { body: job.body, mime: job.mime, consumed: true, ready: job.ready, error: job.error }),
        );
        assert(self.jobs@ =~= before.update(i as int, self.jobs@[i as int]));
        reply
    }

    /// DELETE a job (if the path names one); always 200 `ok`.
    pub fn delete_job(&mut self, path: &str) -> (r: Reply)
        ensures
            ids_distinct(old(self).jobs@) ==> ids_distinct(final(self).jobs@),
            r.status == 200,
            r.body@ == vstd::utf8::encode_utf8("ok"@),
            final(self).device == old(self).device,
            final(self).adf_loaded == old(self).adf_loaded,
            final(self).jobs@ == match spec_job_id(path@) {
                Some(id) => match job_index(old(self).jobs@, id) {
                    Some(i) => old(self).jobs@.remove(i),
                    None => old(self).jobs@,
                },
                None => old(self).jobs@,
            },
    {
        if let Some(id) = job_id_from(path) {
            proof {
                lemma_job_index_bounds(self.jobs@, id@);
            }
            if let Some(i) = find_job(&self.jobs, id.as_str()) {
                let _ = self.jobs.remove(i);
            }
        }
        text_reply(200, "text/plain", "ok")
    }
}

/// 404 `not found <path>`.
pub fn not_found(path: &str) -> (r: Reply)
    ensures
        r.status == 404,
        r.content_type@ == "text/plain"@,
        r.body@ == vstd::utf8::encode_utf8("not found "@ + path@),
{
    let mut s = String::from_str("not found ");
    s.append(path);
    text_reply(404, "text/plain", s.as_str())
}

} // verus!
