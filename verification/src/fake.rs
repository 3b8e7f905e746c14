//! Protocol-accurate fake M177fw: SOAP on one port (GetScannerElements,
//! CreateScanJob, GetJobInfo, RetrieveImage + DIME) and optional eSCL
//! capabilities that 404 ScanJobs, matching the live firmware. This module
//! answers requests; the listener around it is the caller's.
use crate::dime;
use crate::facade::Reply;
use crate::imagefmt;
use crate::model::{spec_color_soap_name, spec_source_soap_name, ColorMode, ScanRequest, ScanSource};
use crate::soap;
use crate::text::{chars_of, decimal, decimal_string, replace_all, replace_chars, seq_contains, str_contains, string_from_chars};
use crate::transport::Method;
use crate::wsd;
use crate::xmlutil::{first_in, first_text};
use vstd::utf8::encode_utf8;
use vstd::string::StringSliceAdditionalSpecFns;
use vstd::prelude::*;

verus! {

pub const CREATE_FAULT: &'static str = "<?xml version=\"1.0\"?><SOAP-ENV:Envelope xmlns:SOAP-ENV=\"http://www.w3.org/2003/05/soap-envelope\"><SOAP-ENV:Body><SOAP-ENV:Fault><SOAP-ENV:Code><SOAP-ENV:Value>SOAP-ENV:Sender</SOAP-ENV:Value></SOAP-ENV:Code><SOAP-ENV:Reason><SOAP-ENV:Text>Error 4</SOAP-ENV:Text></SOAP-ENV:Reason></SOAP-ENV:Fault></SOAP-ENV:Body></SOAP-ENV:Envelope>";

pub const JOB_INFO_FAULT: &'static str = "<?xml version=\"1.0\"?><SOAP-ENV:Envelope xmlns:SOAP-ENV=\"http://www.w3.org/2003/05/soap-envelope\"><SOAP-ENV:Body><SOAP-ENV:Fault><SOAP-ENV:Code><SOAP-ENV:Value>SOAP-ENV:Sender</SOAP-ENV:Value></SOAP-ENV:Code><SOAP-ENV:Reason><SOAP-ENV:Text>GetJobInfo fault</SOAP-ENV:Text></SOAP-ENV:Reason></SOAP-ENV:Fault></SOAP-ENV:Body></SOAP-ENV:Envelope>";

pub const NO_IMAGES_FAULT: &'static str = "<?xml version=\"1.0\" encoding=\"UTF-8\"?>\n<SOAP-ENV:Envelope xmlns:SOAP-ENV=\"http://www.w3.org/2003/05/soap-envelope\">\n<SOAP-ENV:Body><SOAP-ENV:Fault><SOAP-ENV:Code><SOAP-ENV:Value>SOAP-ENV:Sender</SOAP-ENV:Value>\n<SOAP-ENV:Subcode><SOAP-ENV:Value>wscn:ClientErrorNoImagesAvailable</SOAP-ENV:Value></SOAP-ENV:Subcode>\n</SOAP-ENV:Code><SOAP-ENV:Reason><SOAP-ENV:Text>no images</SOAP-ENV:Text></SOAP-ENV:Reason>\n</SOAP-ENV:Fault></SOAP-ENV:Body></SOAP-ENV:Envelope>";

pub const CREATED_HEAD: &'static str = "<?xml version=\"1.0\" encoding=\"UTF-8\"?>\n<SOAP-ENV:Envelope xmlns:SOAP-ENV=\"http://www.w3.org/2003/05/soap-envelope\" xmlns:wscn=\"http://tempuri.org/wscn.xsd\">\n<SOAP-ENV:Body><wscn:CreateScanJobResponseType>\n<JobId>";

pub const CREATED_AFTER_ID: &'static str = "</JobId><JobToken>tok-";

pub const CREATED_AFTER_TOKEN: &'static str = "</JobToken>\n<DocumentFinalParameters>\n<Format>jfif</Format>\n<InputSource>";

pub const CREATED_AFTER_SOURCE: &'static str = "</InputSource>\n<MediaSides><MediaFront>\n<ColorProcessing>";

pub const CREATED_AFTER_COLOR: &'static str = "</ColorProcessing>\n<Resolution><Width>";

pub const CREATED_AFTER_DPI_W: &'static str = "</Width><Height>";

pub const CREATED_TAIL: &'static str = "</Height></Resolution>\n</MediaFront></MediaSides>\n</DocumentFinalParameters>\n</wscn:CreateScanJobResponseType></SOAP-ENV:Body></SOAP-ENV:Envelope>";

pub const INFO_HEAD: &'static str = "<?xml version=\"1.0\" encoding=\"UTF-8\"?>\n<SOAP-ENV:Envelope xmlns:SOAP-ENV=\"http://www.w3.org/2003/05/soap-envelope\">\n<SOAP-ENV:Body><JobSummaryType>\n<JobId>";

pub const INFO_TAIL: &'static str = "</JobId><JobState>Processing</JobState><ScansCompleted>1</ScansCompleted>\n</JobSummaryType></SOAP-ENV:Body></SOAP-ENV:Envelope>";

pub const WSD_CREATED_HEAD: &'static str = "<?xml version=\"1.0\"?><SOAP-ENV:Envelope xmlns:SOAP-ENV=\"http://www.w3.org/2003/05/soap-envelope\" xmlns:wscn=\"http://schemas.microsoft.com/windows/2006/08/wdp/scan\"><SOAP-ENV:Body><wscn:CreateScanJobResponse><wscn:JobId>";

pub const WSD_CREATED_MID: &'static str = "</wscn:JobId><wscn:JobToken>tok-";

pub const WSD_CREATED_TAIL: &'static str = "</wscn:JobToken></wscn:CreateScanJobResponse></SOAP-ENV:Body></SOAP-ENV:Envelope>";

pub const WSD_ALIVE: &'static str = "<?xml version=\"1.0\"?><s:Envelope xmlns:s=\"http://www.w3.org/2003/05/soap-envelope\" xmlns:wsa=\"http://schemas.xmlsoap.org/ws/2004/08/addressing\"><s:Header><wsa:Action>http://schemas.xmlsoap.org/ws/2004/08/addressing/role/anonymous</wsa:Action></s:Header><s:Body><Envelope/></s:Body></s:Envelope>";

/// The fake's switches; the default is a live-like M177fw with one page in
/// the feeder, eSCL capabilities served and eSCL ScanJobs answering 404.
#[derive(Debug, Clone)]
pub struct FakeOptions {
    pub paper_in_adf: bool,
    pub adf_pages: u32,
    pub escl_caps: bool,
    pub escl_jobs: bool,
    /// SOAP CreateScanJob returns Error 4; WSD /scanner still works.
    pub soap_create_fault: bool,
    /// GetJobInfo returns a SOAP fault (must not spin).
    pub get_job_info_fault: bool,
    /// SOAP RetrieveImage has no image bytes.
    pub retrieve_empty: bool,
    /// SOAP RetrieveImage returns HTTP 500 (must fall through to WSD).
    pub retrieve_http_error: bool,
    /// GetScannerElements does not answer (probe falls through to WSD).
    pub soap_dead: bool,
}

impl Default for FakeOptions {
    fn default() -> (r: Self)
        ensures
            r.paper_in_adf && r.adf_pages == 1 && r.escl_caps && !r.escl_jobs
                && !r.soap_create_fault && !r.get_job_info_fault && !r.retrieve_empty
                && !r.retrieve_http_error && !r.soap_dead,
    {
        FakeOptions {
            paper_in_adf: true,
            adf_pages: 1,
            escl_caps: true,
            escl_jobs: false,
            soap_create_fault: false,
            get_job_info_fault: false,
            retrieve_empty: false,
            retrieve_http_error: false,
            soap_dead: false,
        }
    }
}

/// The recorded documents the fake serves as they are.
#[derive(Debug, Clone)]
pub struct FakeFixtures {
    pub escl_capabilities: String,
    pub escl_status: String,
    pub soap_elements: String,
}

/// What the fake saw and how many ADF pages it still has.
#[derive(Debug, Clone)]
pub struct FakeState {
    pub create_job_bodies: Vec<String>,
    pub last_create_job_xml: String,
    pub last_wsd_create_xml: String,
    pub last_retrieve_xml: String,
    pub requests: Vec<String>,
    pub job_counter: u32,
    pub adf_pages_remaining: u32,
    pub paper_in_adf: bool,
}

impl Default for FakeState {
    fn default() -> (r: Self)
        ensures
            r.create_job_bodies@.len() == 0 && r.requests@.len() == 0 && r.job_counter == 0
                && r.adf_pages_remaining == 0 && !r.paper_in_adf && r.last_create_job_xml@.len()
                == 0,
    {
        FakeState {
            create_job_bodies: Vec::new(),
            last_create_job_xml: String::new(),
            last_wsd_create_xml: String::new(),
            last_retrieve_xml: String::new(),
            requests: Vec::new(),
            job_counter: 0,
            adf_pages_remaining: 0,
            paper_in_adf: false,
        }
    }
}

fn reply(status: u16, content_type: &str, text: &str) -> (r: Reply)
    ensures
        text_reply(r, status, content_type@, text@),
{
    let mut body: Vec<u8> = Vec::new();
    body.extend_from_slice(text.as_bytes());
    assert(body@ =~= encode_utf8(text@));
    Reply { status, content_type: String::from_str(content_type), body, headers: Vec::new() }
}

fn bytes_reply(status: u16, content_type: &str, body: Vec<u8>) -> (r: Reply)
    ensures
        r.status == status,
        r.content_type@ == content_type@,
        r.body == body,
        r.headers@.len() == 0,
{
    Reply { status, content_type: String::from_str(content_type), body, headers: Vec::new() }
}

pub const SOAP_XML: &'static str = "application/soap+xml; charset=utf-8";

/// The 8×8 RGB test image for a color mode (red, gray, or a black/white
/// checker for line art).
pub open spec fn test_pixel(color: ColorMode, i: nat) -> Seq<u8> {
    match color {
        ColorMode::Color => seq![200u8, 40u8, 40u8],
        ColorMode::Gray => seq![160u8, 160u8, 160u8],
        ColorMode::Lineart => if i % 2 == 0 {
            seq![0u8, 0u8, 0u8]
        } else {
            seq![255u8, 255u8, 255u8]
        },
    }
}

/// The first `n` pixels of the test image.
pub open spec fn test_pixels(color: ColorMode, n: nat) -> Seq<u8>
    decreases n,
{
    if n == 0 {
        Seq::<u8>::empty()
    } else {
        test_pixels(color, (n - 1) as nat) + test_pixel(color, (n - 1) as nat)
    }
}

proof fn lemma_test_pixels_len(color: ColorMode, n: nat)
    ensures
        test_pixels(color, n).len() == 3 * n,
    decreases n,
{
    if n > 0 {
        lemma_test_pixels_len(color, (n - 1) as nat);
    }
}

pub fn test_image(color: ColorMode) -> (r: Vec<u8>)
    ensures
        r@ == test_pixels(color, 64),
{
    let mut rgb: Vec<u8> = Vec::new();
    let mut i: usize = 0;
    while i < 64
        invariant
            i <= 64,
            rgb@ == test_pixels(color, i as nat),
        decreases 64 - i,
    {
        let (r, g, b): (u8, u8, u8) = match color {
            ColorMode::Color => (200, 40, 40),
            ColorMode::Gray => (160, 160, 160),
            ColorMode::Lineart => if i % 2 == 0 {
                (0, 0, 0)
            } else {
                (255, 255, 255)
            },
        };
        rgb.push(r);
        rgb.push(g);
        rgb.push(b);
        i = i + 1;
        assert(rgb@ =~= test_pixels(color, i as nat));
    }
    rgb
}

/// A request the fake answers as the WSD service.
pub open spec fn is_wsd_request(url: Seq<char>, body: Seq<char>) -> bool {
    seq_contains(url, "/scanner"@) || seq_contains(body, "wdp/scan"@)
}

/// `url` starts with `p`.
pub open spec fn starts_with(url: Seq<char>, p: Seq<char>) -> bool {
    url.len() >= p.len() && url.take(p.len() as int) == p
}

fn starts_with_exec(url: &str, p: &str) -> (r: bool)
    ensures
        r == starts_with(url@, p@),
{
    let u = chars_of(url);
    let pc = chars_of(p);
    let r = crate::text::chars_at(u.as_slice(), pc.as_slice(), 0);
    proof {
        if u@.len() >= pc@.len() {
            assert(u@.subrange(0, pc@.len() as int) =~= u@.take(pc@.len() as int));
        }
    }
    r
}

/// Which part of the fake answers a request, in the order it looks.
pub enum FakeRoute {
    Wsd,
    EsclJobs,
    EsclCaps,
    EsclStatus,
    LastJob,
    Elements,
    CreateJob,
    JobInfo,
    Retrieve,
    Cancel,
    Unknown,
}

/// The route of a request: WSD first, then the eSCL paths, then the SOAP
/// operation named in the body.
pub open spec fn fake_route(method: Option<Method>, url: Seq<char>, body: Seq<char>) -> FakeRoute {
    let get = method == Some(Method::Get);
    if is_wsd_request(url, body) {
        FakeRoute::Wsd
    } else if starts_with(url, "/eSCL/ScanJobs"@) {
        FakeRoute::EsclJobs
    } else if starts_with(url, "/eSCL/ScannerCapabilities"@) && get {
        FakeRoute::EsclCaps
    } else if starts_with(url, "/eSCL/ScannerStatus"@) && get {
        FakeRoute::EsclStatus
    } else if starts_with(url, "/debug/last-job"@) {
        FakeRoute::LastJob
    } else if seq_contains(body, "GetScannerElements"@) {
        FakeRoute::Elements
    } else if seq_contains(body, "CreateScanJob"@) {
        FakeRoute::CreateJob
    } else if seq_contains(body, "GetJobInfo"@) {
        FakeRoute::JobInfo
    } else if seq_contains(body, "RetrieveImage"@) {
        FakeRoute::Retrieve
    } else if seq_contains(body, "CancelJob"@) {
        FakeRoute::Cancel
    } else {
        FakeRoute::Unknown
    }
}

/// A reply with this status, content type and text body, and no headers.
pub open spec fn text_reply(r: Reply, status: u16, content_type: Seq<char>, text: Seq<char>) -> bool {
    &&& r.status == status
    &&& r.content_type@ == content_type
    &&& r.body@ == encode_utf8(text)
    &&& r.headers@.len() == 0
}

/// The recorded `GetScannerElements` answer with `PaperInADF` set to
/// whether paper is in the feeder.
pub open spec fn spec_elements_reply(recorded: Seq<char>, paper: bool) -> Seq<char> {
    replace_all(
        recorded,
        "<PaperInADF>false</PaperInADF>"@,
        if paper {
            "<PaperInADF>true</PaperInADF>"@
        } else {
            "<PaperInADF>false</PaperInADF>"@
        },
    )
}

/// The SOAP `CreateScanJob` answer for job `id`, echoing the ticket's
/// source, color and resolution (platen, RGB24, 300 when the ticket does
/// not parse).
pub open spec fn spec_created_reply(id: u32, ticket: Option<ScanRequest>) -> Seq<char> {
    let (src, color, dpi) = match ticket {
        Some(t) => (spec_source_soap_name(t.source), spec_color_soap_name(t.color), t.dpi),
        None => ("Platen"@, "RGB24"@, 300u32),
    };
    CREATED_HEAD@ + decimal(id as nat) + CREATED_AFTER_ID@ + decimal(id as nat)
        + CREATED_AFTER_TOKEN@ + src + CREATED_AFTER_SOURCE@ + color + CREATED_AFTER_COLOR@
        + decimal(dpi as nat) + CREATED_AFTER_DPI_W@ + decimal(dpi as nat) + CREATED_TAIL@
}

/// Pages the feeder holds after a SOAP `CreateScanJob` with `ticket`: the
/// configured count (at least one) for an ADF job with paper, none without
/// paper, one for the platen; unchanged when the ticket does not parse.
pub open spec fn pages_after_create(
    before: u32,
    ticket: Option<ScanRequest>,
    paper: bool,
    adf_pages: u32,
) -> u32 {
    match ticket {
        Some(t) => if t.source == ScanSource::Adf {
            if paper {
                if adf_pages > 1 {
                    adf_pages
                } else {
                    1
                }
            } else {
                0
            }
        } else {
            1
        },
        None => before,
    }
}

/// The job id a `GetJobInfo` names (`JobId`, else `jobId`, else 1).
pub open spec fn job_info_id(body: Seq<char>) -> Seq<char> {
    match first_in(body, "JobId"@) {
        Some(t) => t,
        None => match first_in(body, "jobId"@) {
            Some(t) => t,
            None => "1"@,
        },
    }
}

/// The DIME `RetrieveImage` answer: the SOAP stub, then the image.
pub open spec fn dime_page(jpeg: Seq<u8>) -> Seq<u8> {
    dime::spec_encode(
        seq![
            dime::media_view("text/xml".spec_bytes(), encode_utf8(soap::RETRIEVE_STUB@)),
            dime::media_view("image/jpeg".spec_bytes(), jpeg),
        ],
    )
}

/// The color of the last SOAP ticket (color when it does not parse).
pub open spec fn ticket_color(ticket_xml: Seq<char>) -> ColorMode {
    match soap::spec_parse_job_ticket(ticket_xml) {
        Some(t) => t.color,
        None => ColorMode::Color,
    }
}

/// The 8×8 test image of a color mode as a quality-80 JPEG.
pub open spec fn test_jpeg(color: ColorMode) -> Seq<u8> {
    imagefmt::jpeg_encoding(test_pixels(color, 64), 8, 8, 80, false)
}

/// The WSD stand-in's answer: `CreateScanJob` records the body as the next
/// job and returns its id and token; `RetrieveImage` returns a 2×2 red BMP
/// as MTOM; anything else gets an alive envelope.
pub open spec fn wsd_answer(old: FakeState, new: FakeState, body: Seq<char>, r: Reply) -> bool {
    if seq_contains(body, "CreateScanJob"@) {
        &&& recorded_create(
            old,
            new,
            body,
            match soap::spec_parse_job_ticket(body) {
                Some(t) => if t.source == ScanSource::Adf {
                    if old.paper_in_adf {
                        1u32
                    } else {
                        0u32
                    }
                } else {
                    1u32
                },
                None => 1u32,
            },
        )
        &&& new.last_wsd_create_xml@ == body
        &&& text_reply(
            r,
            200,
            SOAP_XML@,
            WSD_CREATED_HEAD@ + decimal(new.job_counter as nat) + WSD_CREATED_MID@ + decimal(
                new.job_counter as nat,
            ) + WSD_CREATED_TAIL@,
        )
    } else if seq_contains(body, "RetrieveImage"@) {
        &&& new == old
        &&& r.status == 200
        &&& r.content_type@ == "multipart/related; type=\"application/xop+xml\""@
        &&& r.body@ == wsd::spec_wrap_bmp_mtom(imagefmt::spec_solid_bmp(2, 2, 0, 0, 255))
    } else {
        new == old && text_reply(r, 200, SOAP_XML@, WSD_ALIVE@)
    }
}

/// The state after recording a `CreateScanJob` body as job `old.job_counter + 1`.
pub open spec fn recorded_create(old: FakeState, new: FakeState, body: Seq<char>, pages: u32) -> bool {
    &&& new.job_counter == old.job_counter + 1
    &&& new.last_create_job_xml@ == body
    &&& new.create_job_bodies@.len() == old.create_job_bodies@.len() + 1
    &&& new.create_job_bodies@.take(old.create_job_bodies@.len() as int) == old.create_job_bodies@
    &&& new.create_job_bodies@.last()@ == body
    &&& new.adf_pages_remaining == pages
    &&& new.requests == old.requests
    &&& new.paper_in_adf == old.paper_in_adf
    &&& new.last_retrieve_xml == old.last_retrieve_xml
}

impl FakeState {
    /// The state a fake starts with.
    pub fn new(opts: &FakeOptions) -> (r: Self)
        ensures
            r.paper_in_adf == opts.paper_in_adf,
            r.adf_pages_remaining == (if opts.paper_in_adf {
                opts.adf_pages
            } else {
                0
            }),
            r.job_counter == 0,
            r.create_job_bodies@.len() == 0,
    {
        let mut st = FakeState::default();
        st.paper_in_adf = opts.paper_in_adf;
        st.adf_pages_remaining = if opts.paper_in_adf {
            opts.adf_pages
        } else {
            0
        };
        st
    }

    /// Answer one request like the M177fw: SOAP on every path, WSD under
    /// `/scanner`, eSCL capabilities/status, and ScanJobs 404 unless enabled.
    #[verifier::spinoff_prover]
    pub fn handle(
        &mut self,
        method: Option<Method>,
        url: &str,
        body: &str,
        opts: &FakeOptions,
        fixtures: &FakeFixtures,
    ) -> (r: Reply)
        requires
            old(self).job_counter < u32::MAX,
        ensures
            final(self).paper_in_adf == old(self).paper_in_adf,
            final(self).job_counter <= old(self).job_counter + 1,
            match fake_route(method, url@, body@) {
                FakeRoute::Wsd => wsd_answer(*old(self), *final(self), body@, r),
                FakeRoute::EsclJobs => *final(self) == *old(self) && r.status == (if opts.escl_jobs
                    && method == Some(Method::Post) {
                    201u16
                } else {
                    404u16
                }),
                FakeRoute::EsclCaps => *final(self) == *old(self) && if opts.escl_caps {
                    text_reply(r, 200, "text/xml; charset=utf-8"@, fixtures.escl_capabilities@)
                } else {
                    text_reply(r, 404, "text/plain"@, "no"@)
                },
                FakeRoute::EsclStatus => *final(self) == *old(self) && text_reply(
                    r,
                    200,
                    "text/xml; charset=utf-8"@,
                    fixtures.escl_status@,
                ),
                FakeRoute::LastJob => *final(self) == *old(self) && text_reply(
                    r,
                    200,
                    "text/xml; charset=utf-8"@,
                    old(self).last_create_job_xml@,
                ),
                FakeRoute::Elements => *final(self) == *old(self) && if opts.soap_dead {
                    text_reply(r, 500, "text/plain"@, "soap wedged"@)
                } else {
                    text_reply(
                        r,
                        202,
                        SOAP_XML@,
                        spec_elements_reply(fixtures.soap_elements@, old(self).paper_in_adf),
                    )
                },
                FakeRoute::CreateJob => if opts.soap_create_fault {
                    *final(self) == *old(self) && text_reply(r, 500, SOAP_XML@, CREATE_FAULT@)
                } else {
                    &&& recorded_create(
                        *old(self),
                        *final(self),
                        body@,
                        pages_after_create(
                            old(self).adf_pages_remaining,
                            soap::spec_parse_job_ticket(body@),
                            old(self).paper_in_adf,
                            opts.adf_pages,
                        ),
                    )
                    &&& final(self).last_wsd_create_xml == old(self).last_wsd_create_xml
                    &&& text_reply(
                        r,
                        200,
                        SOAP_XML@,
                        spec_created_reply(
                            final(self).job_counter,
                            soap::spec_parse_job_ticket(body@),
                        ),
                    )
                },
                FakeRoute::JobInfo => *final(self) == *old(self) && if opts.get_job_info_fault {
                    text_reply(r, 200, SOAP_XML@, JOB_INFO_FAULT@)
                } else {
                    text_reply(r, 200, SOAP_XML@, INFO_HEAD@ + job_info_id(body@) + INFO_TAIL@)
                },
                FakeRoute::Retrieve => if opts.retrieve_http_error {
                    *final(self) == *old(self) && text_reply(r, 500, "text/plain"@, "retrieve failed"@)
                } else {
                    &&& final(self).last_retrieve_xml@ == body@
                    &&& final(self).job_counter == old(self).job_counter
                    &&& final(self).create_job_bodies == old(self).create_job_bodies
                    &&& final(self).last_create_job_xml == old(self).last_create_job_xml
                    &&& final(self).last_wsd_create_xml == old(self).last_wsd_create_xml
                    &&& final(self).requests == old(self).requests
                    &&& if old(self).adf_pages_remaining == 0 {
                        final(self).adf_pages_remaining == 0 && text_reply(
                            r,
                            400,
                            SOAP_XML@,
                            NO_IMAGES_FAULT@,
                        )
                    } else {
                        &&& final(self).adf_pages_remaining == old(self).adf_pages_remaining - 1
                        &&& r.status == 200
                        &&& r.content_type@ == "application/dime"@
                        &&& r.body@ == dime_page(if opts.retrieve_empty {
                            Seq::<u8>::empty()
                        } else {
                            test_jpeg(ticket_color(old(self).last_create_job_xml@))
                        })
                    }
                },
                FakeRoute::Cancel => *final(self) == *old(self) && text_reply(r, 200, SOAP_XML@, "<ok/>"@),
                FakeRoute::Unknown => *final(self) == *old(self) && text_reply(
                    r,
                    404,
                    "text/plain"@,
                    "unknown fake request "@ + url@,
                ),
            },
    {
        if str_contains(url, "/scanner") || str_contains(body, "wdp/scan") {
            return self.handle_wsd(body);
        }
        let get = method == Some(Method::Get);
        if starts_with_exec(url, "/eSCL/ScanJobs") {
            if opts.escl_jobs && method == Some(Method::Post) {
                return reply(201, "text/xml", "<ok/>");
            }
            return bytes_reply(404, "text/plain", Vec::new());
        }
        if starts_with_exec(url, "/eSCL/ScannerCapabilities") && get {
            if opts.escl_caps {
                return reply(200, "text/xml; charset=utf-8", fixtures.escl_capabilities.as_str());
            }
            return reply(404, "text/plain", "no");
        }
        if starts_with_exec(url, "/eSCL/ScannerStatus") && get {
            return reply(200, "text/xml; charset=utf-8", fixtures.escl_status.as_str());
        }
        if starts_with_exec(url, "/debug/last-job") {
            return reply(200, "text/xml; charset=utf-8", self.last_create_job_xml.as_str());
        }
        // SOAP: the live device accepts every method as POST /
        if str_contains(body, "GetScannerElements") {
            if opts.soap_dead {
                return reply(500, "text/plain", "soap wedged");
            }
            let paper = if self.paper_in_adf {
                "<PaperInADF>true</PaperInADF>"
            } else {
                "<PaperInADF>false</PaperInADF>"
            };
            let c = chars_of(fixtures.soap_elements.as_str());
            let x = replace_chars(
                c.as_slice(),
                chars_of("<PaperInADF>false</PaperInADF>").as_slice(),
                chars_of(paper).as_slice(),
            );
            let xml = string_from_chars(x.as_slice());
            return reply(202, SOAP_XML, xml.as_str());
        }
        if str_contains(body, "CreateScanJob") {
            if opts.soap_create_fault {
                return reply(500, SOAP_XML, CREATE_FAULT);
            }
            let ticket = soap::parse_job_ticket(body);
            self.last_create_job_xml = String::from_str(body);
            let ghost before = self.create_job_bodies@;
            self.create_job_bodies.push(String::from_str(body));
            assert(self.create_job_bodies@.take(before.len() as int) =~= before);
            self.job_counter = self.job_counter + 1;
            let id = self.job_counter;
            if let Some(t) = &ticket {
                if t.source == ScanSource::Adf {
                    self.adf_pages_remaining = if self.paper_in_adf {
                        if opts.adf_pages > 1 {
                            opts.adf_pages
                        } else {
                            1
                        }
                    } else {
                        0
                    };
                } else {
                    self.adf_pages_remaining = 1;
                }
            }
            let (src, color, dpi) = match &ticket {
                Some(t) => (t.source.soap_name(), t.color.soap_name(), t.dpi),
                None => ("Platen", "RGB24", 300u32),
            };
            let ids = decimal_string(id as u64);
            let dpis = decimal_string(dpi as u64);
            let mut s = String::from_str(CREATED_HEAD);
            s.append(ids.as_str());
            s.append(CREATED_AFTER_ID);
            s.append(ids.as_str());
            s.append(CREATED_AFTER_TOKEN);
            s.append(src);
            s.append(CREATED_AFTER_SOURCE);
            s.append(color);
            s.append(CREATED_AFTER_COLOR);
            s.append(dpis.as_str());
            s.append(CREATED_AFTER_DPI_W);
            s.append(dpis.as_str());
            s.append(CREATED_TAIL);
            assert(s@ =~= spec_created_reply(id, soap::spec_parse_job_ticket(body@)));
            return reply(200, SOAP_XML, s.as_str());
        }
        if str_contains(body, "GetJobInfo") {
            if opts.get_job_info_fault {
                return reply(200, SOAP_XML, JOB_INFO_FAULT);
            }
            let id = match first_text(body, "JobId") {
                Some(t) => t,
                None => match first_text(body, "jobId") {
                    Some(t) => t,
                    None => String::from_str("1"),
                },
            };
            let mut s = String::from_str(INFO_HEAD);
            s.append(id.as_str());
            s.append(INFO_TAIL);
            return reply(200, SOAP_XML, s.as_str());
        }
        if str_contains(body, "RetrieveImage") {
            if opts.retrieve_http_error {
                return reply(500, "text/plain", "retrieve failed");
            }
            self.last_retrieve_xml = String::from_str(body);
            if self.adf_pages_remaining == 0 {
                return reply(400, SOAP_XML, NO_IMAGES_FAULT);
            }
            self.adf_pages_remaining = self.adf_pages_remaining - 1;
            let stub = soap::retrieve_image_soap_stub();
            if opts.retrieve_empty {
                let empty: [u8; 0] = [];
                assert(empty@ =~= Seq::<u8>::empty());
                return bytes_reply(200, "application/dime", dime::wrap_soap_and_jpeg(stub, empty.as_slice()));
            }
            let ticket = match soap::parse_job_ticket(self.last_create_job_xml.as_str()) {
                Some(t) => t,
                None => ScanRequest::default(),
            };
            let rgb = test_image(ticket.color);
            proof {
                lemma_test_pixels_len(ticket.color, 64);
                assert(rgb@.take(192) =~= rgb@);
            }
            let jpeg = match imagefmt::rgb_to_jpeg(rgb.as_slice(), 8, 8, 80) {
                Ok(j) => j,
                Err(_) => {
                    let mut c = String::from_str("source=");
                    c.append(ticket.source.label());
                    c.append(" color=");
                    c.append(ticket.color.label());
                    c.append(" dpi=");
                    let d = decimal_string(ticket.dpi as u64);
                    c.append(d.as_str());
                    imagefmt::synthetic_jpeg(c.as_str(), ticket.color)
                },
            };
            return bytes_reply(200, "application/dime", dime::wrap_soap_and_jpeg(stub, jpeg.as_slice()));
        }
        if str_contains(body, "CancelJob") {
            return reply(200, SOAP_XML, "<ok/>");
        }
        let mut s = String::from_str("unknown fake request ");
        s.append(url);
        reply(404, "text/plain", s.as_str())
    }

    /// The WSD Scan service: CreateScanJob, RetrieveImage (a 2×2 red BMP as
    /// MTOM), and a SOAP answer to anything else.
    fn handle_wsd(&mut self, body: &str) -> (r: Reply)
        requires
            old(self).job_counter < u32::MAX,
        ensures
            final(self).paper_in_adf == old(self).paper_in_adf,
            final(self).job_counter <= old(self).job_counter + 1,
            wsd_answer(*old(self), *final(self), body@, r),
    {
        if str_contains(body, "CreateScanJob") {
            let ticket = soap::parse_job_ticket(body);
            self.last_wsd_create_xml = String::from_str(body);
            self.last_create_job_xml = String::from_str(body);
            let ghost before = self.create_job_bodies@;
            self.create_job_bodies.push(String::from_str(body));
            assert(self.create_job_bodies@.take(before.len() as int) =~= before);
            self.job_counter = self.job_counter + 1;
            let id = self.job_counter;
            self.adf_pages_remaining = match &ticket {
                Some(t) => if t.source == ScanSource::Adf {
                    if self.paper_in_adf {
                        1
                    } else {
                        0
                    }
                } else {
                    1
                },
                None => 1,
            };
            let ids = decimal_string(id as u64);
            let mut s = String::from_str(WSD_CREATED_HEAD);
            s.append(ids.as_str());
            s.append(WSD_CREATED_MID);
            s.append(ids.as_str());
            s.append(WSD_CREATED_TAIL);
            assert(s@ =~= WSD_CREATED_HEAD@ + decimal(id as nat) + WSD_CREATED_MID@ + decimal(
                id as nat,
            ) + WSD_CREATED_TAIL@);
            return reply(200, SOAP_XML, s.as_str());
        }
        if str_contains(body, "RetrieveImage") {
            let bmp = imagefmt::solid_bmp_bgra(2, 2, 0, 0, 255);
            let mtom = wsd::wrap_bmp_mtom(bmp.as_slice());
            return bytes_reply(200, "multipart/related; type=\"application/xop+xml\"", mtom);
        }
        reply(200, SOAP_XML, WSD_ALIVE)
    }
}

} // verus!
