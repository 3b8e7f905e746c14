//! The scan job cycle shared by the CLI, the GUI and the eSCL facade.
//!
//! `ScanMachine` holds every decision of a scan: which request to send
//! next, how long to pause, when to fall back from eSCL to HP SOAP and from
//! SOAP to WSD, and what the final image is. The caller performs each
//! action (an HTTP exchange through a `Transport`, or a pause) and feeds the
//! outcome back with the milliseconds elapsed since the scan started.
use crate::dime;
use crate::error::{error_text, Error, Result};
use crate::imagefmt::{
    self, spec_is_bmp, spec_is_dib, spec_is_jpeg, spec_is_pdf, spec_is_tiff, spec_pdf,
};
use crate::model::{
    http_url, ColorMode, DeviceRecord, JobProtocol, OutputFormat, ScanOutput, ScanRequest,
    ScanSource, DEFAULT_SOAP_PORT, DEFAULT_WSD_PORT,
};
use crate::soap::{self, CreatedJob};
use crate::text::{
    ascii_lower, chars_eq_str, chars_of, decimal_string, lower_chars, lower_contains,
    seq_contains, str_contains,
};
use crate::model::http_origin;
use crate::transport::{header_views, HttpRequest, HttpResponse, Method};
use vstd::utf8::encode_utf8;
use crate::wsd;
use vstd::prelude::*;

verus! {

/// Time limit of a SOAP CreateScanJob and of each idle probe (ms).
pub const SOAP_FAST_TIMEOUT_MS: u64 = 8000;

/// Time limit of each GetJobInfo (ms).
pub const SOAP_JOBINFO_TIMEOUT_MS: u64 = 4000;

/// How long GetJobInfo is polled before the job counts as timed out (ms).
pub const SOAP_JOBINFO_DEADLINE_MS: u64 = 20000;

/// Time limit of each SOAP RetrieveImage (ms).
pub const SOAP_RETRIEVE_TIMEOUT_MS: u64 = 20000;

/// Time limit of the WSD CreateScanJob (ms).
pub const WSD_CREATE_TIMEOUT_MS: u64 = 8000;

/// Time limit of each WSD RetrieveImage (ms).
pub const WSD_RETRIEVE_TIMEOUT_MS: u64 = 90000;

/// CreateScanJob attempts while the device reports itself busy.
pub const SOAP_BUSY_RETRIES: u32 = 3;

/// Pause between busy CreateScanJob attempts (ms).
pub const SOAP_BUSY_WAIT_MS: u64 = 800;

/// How long the client waits for the scanner to report `Idle` (ms).
pub const SOAP_IDLE_WAIT_MS: u64 = 6000;

/// Most ADF pages taken from one SOAP job.
pub const MAX_ADF_PAGES: usize = 50;

/// NextDocument polls of a native eSCL job.
pub const ESCL_POLLS: u32 = 40;

/// Whether an error from the SOAP path justifies trying WSD.
pub open spec fn spec_fallback_to_wsd(e: Error) -> bool {
    match e {
        Error::AdfEmpty => false,
        Error::InvalidRequest(_) => false,
        Error::Transport { .. } => true,
        Error::Timeout(_) => true,
        Error::Http { .. } => true,
        Error::Protocol(m) => {
            let n = ascii_lower(m@);
            seq_contains(n, "error 4"@) || seq_contains(n, "error 13"@) || seq_contains(
                n,
                "error "@,
            ) || seq_contains(n, "tag_mismatch"@) || seq_contains(n, "tag mismatch"@)
                || seq_contains(n, "documentformatnotsupported"@) || seq_contains(
                n,
                "no image"@,
            ) || seq_contains(n, "retrieveimage"@) || seq_contains(n, "fault"@) || seq_contains(
                n,
                "http "@,
            ) || seq_contains(n, "404"@) || seq_contains(n, "scanjobs"@)
        },
        _ => false,
    }
}

pub fn should_fallback_to_wsd(e: &Error) -> (r: bool)
    ensures
        r == spec_fallback_to_wsd(*e),
{
    match e {
        Error::AdfEmpty => false,
        Error::InvalidRequest(_) => false,
        Error::Transport { .. } => true,
        Error::Timeout(_) => true,
        Error::Http { .. } => true,
        Error::Protocol(msg) => {
            let n = chars_of(msg.as_str());
            let l = lower_chars(n.as_slice());
            let c = l.as_slice();
            crate::text::contains_str(c, "error 4") || crate::text::contains_str(c, "error 13")
                || crate::text::contains_str(c, "error ") || crate::text::contains_str(
                c,
                "tag_mismatch",
            ) || crate::text::contains_str(c, "tag mismatch") || crate::text::contains_str(
                c,
                "documentformatnotsupported",
            ) || crate::text::contains_str(c, "no image") || crate::text::contains_str(
                c,
                "retrieveimage",
            ) || crate::text::contains_str(c, "fault") || crate::text::contains_str(c, "http ")
                || crate::text::contains_str(c, "404") || crate::text::contains_str(c, "scanjobs")
        },
        _ => false,
    }
}

/// Whether an error from native eSCL justifies trying SOAP/WSD.
pub open spec fn spec_fallback_from_escl(e: Error) -> bool {
    spec_fallback_to_wsd(e) || {
        let n = ascii_lower(error_text(e));
        seq_contains(n, "escl"@) || seq_contains(n, "404"@) || seq_contains(n, "scanjobs"@)
    }
}

pub fn should_fallback_from_escl(e: &Error) -> (r: bool)
    ensures
        r == spec_fallback_from_escl(*e),
{
    if should_fallback_to_wsd(e) {
        return true;
    }
    let d = e.describe();
    let c = chars_of(d.as_str());
    lower_contains(c.as_slice(), "escl") || lower_contains(c.as_slice(), "404") || lower_contains(
        c.as_slice(),
        "scanjobs",
    )
}

/// The device said it is busy (retry CreateScanJob after a pause).
pub open spec fn spec_device_busy(e: Error) -> bool {
    let n = ascii_lower(error_text(e));
    seq_contains(n, "error 13"@) || seq_contains(n, "busy"@) || seq_contains(n, "in use"@)
        || seq_contains(n, "job already"@) || seq_contains(n, "device not ready"@)
}

pub fn is_device_busy(e: &Error) -> (r: bool)
    ensures
        r == spec_device_busy(*e),
{
    let d = e.describe();
    let c = chars_of(d.as_str());
    let s = c.as_slice();
    lower_contains(s, "error 13") || lower_contains(s, "busy") || lower_contains(s, "in use")
        || lower_contains(s, "job already") || lower_contains(s, "device not ready")
}

/// The text of `or_context`'s message.
pub open spec fn context_text(e: Error, extra: Seq<char>) -> Seq<char> {
    error_text(e) + "; last body: "@ + extra
}

pub fn or_context(e: Error, extra: &str) -> (r: Error)
    ensures
        extra@.len() == 0 ==> r == e,
        extra@.len() > 0 ==> (r matches Error::Message(m) && m@ == context_text(e, extra@)),
{
    let c = chars_of(extra);
    if c.len() == 0 {
        return e;
    }
    let mut s = e.describe();
    s.append("; last body: ");
    s.append(extra);
    Error::Message(s)
}

/// Starts with the JPEG SOI marker.
pub open spec fn starts_soi(b: Seq<u8>) -> bool {
    b.len() >= 2 && b[0] == 0xff && b[1] == 0xd8
}

/// What `normalize_image` turns a retrieved payload into. `None` for a
/// line-art JPEG, whose thresholded pixels come from the JPEG decoder.
pub open spec fn spec_normalize(b: Seq<u8>, color: ColorMode) -> Option<
    core::result::Result<Seq<u8>, Seq<char>>,
> {
    if spec_is_pdf(b) && !(spec_is_jpeg(b) || starts_soi(b)) {
        Some(Ok(b))
    } else if !(spec_is_jpeg(b) || starts_soi(b) || spec_is_bmp(b) || spec_is_dib(b)) {
        Some(Err("retrieved payload is neither JPEG, PDF, nor BMP"@))
    } else {
        let jpeg = if spec_is_jpeg(b) || starts_soi(b) {
            Ok(b)
        } else {
            imagefmt::spec_raster_to_jpeg(b)
        };
        match jpeg {
            Err(t) => Some(Err(t)),
            Ok(j) => if color == ColorMode::Lineart && spec_is_jpeg(j) {
                None
            } else {
                Some(Ok(j))
            },
        }
    }
}

/// The JPEG a line-art payload is thresholded from: the payload itself, or
/// the JPEG made of a BMP/DIB.
pub open spec fn lineart_source(b: Seq<u8>) -> Seq<u8> {
    if spec_is_jpeg(b) || starts_soi(b) {
        b
    } else {
        match imagefmt::spec_raster_to_jpeg(b) {
            Ok(j) => j,
            Err(_) => b,
        }
    }
}

/// A line-art page made from the JPEG `j` decoded as `d`: the thresholded
/// re-encoding, or `j` itself when that fails.
pub open spec fn lineart_kept(
    j: Seq<u8>,
    d: core::result::Result<Option<(u16, u16, u8, Vec<u8>)>, String>,
    v: Seq<u8>,
) -> bool {
    match imagefmt::spec_decoded_lineart(d) {
        Ok(bw) => v == bw,
        Err(_) => v == j,
    }
}

/// What a line-art payload `b` becomes: a JPEG that is the black-and-white
/// rendering of the decoder's outcome for its JPEG, or that JPEG unchanged
/// when it cannot be rendered.
pub open spec fn lineart_normalized(b: Seq<u8>, v: Seq<u8>) -> bool {
    &&& spec_is_jpeg(v)
    &&& exists|d|
        imagefmt::decoded_from(lineart_source(b), d) && #[trigger] lineart_kept(
            lineart_source(b),
            d,
            v,
        )
}

/// Bring a retrieved payload to JPEG (or keep a PDF); line art is
/// thresholded when the JPEG can be decoded.
pub fn normalize_image(bytes: Vec<u8>, color: ColorMode) -> (r: Result<Vec<u8>>)
    ensures
        match spec_normalize(bytes@, color) {
            Some(s) => imagefmt::bytes_match(r, s),
            None => r matches Ok(v) && lineart_normalized(bytes@, v@),
        },
{
    let ghost b0 = bytes@;
    let soi = bytes.len() >= 2 && bytes[0] == 0xff && bytes[1] == 0xd8;
    let jpeg = if imagefmt::is_jpeg(bytes.as_slice()) || soi {
        bytes
    } else if imagefmt::is_pdf(bytes.as_slice()) {
        return Ok(bytes);
    } else if imagefmt::is_bmp(bytes.as_slice()) || imagefmt::is_dib(bytes.as_slice()) {
        match imagefmt::raster_to_jpeg(bytes.as_slice()) {
            Ok(j) => j,
            Err(e) => {
                return Err(e);
            },
        }
    } else {
        return Err(Error::Protocol(String::from_str("retrieved payload is neither JPEG, PDF, nor BMP")));
    };
    if color == ColorMode::Lineart && imagefmt::is_jpeg(jpeg.as_slice()) {
        assert(jpeg@ == lineart_source(b0));
        let ghost jg = jpeg@;
        let bw = imagefmt::apply_lineart_jpeg(jpeg.as_slice());
        let ghost bwg = bw;
        let out = match bw {
            Ok(v) => v,
            Err(_) => jpeg,
        };
        proof {
            let d = choose|d|
                imagefmt::decoded_from(jg, d) && imagefmt::bytes_match(
                    bwg,
                    #[trigger] imagefmt::spec_decoded_lineart(d),
                );
            assert(lineart_kept(jg, d, out@));
        }
        Ok(out)
    } else {
        Ok(jpeg)
    }
}

/// The scan output carries the request's format, source, color and resolution.
pub open spec fn output_matches(out: ScanOutput, req: ScanRequest) -> bool {
    out.format == req.format && out.source == req.source && out.color == req.color && out.dpi
        == req.dpi
}

/// What `finalize` makes of the first page: the page itself when it is
/// already in the requested format, a PDF wrapper of a JPEG, or an error
/// text. `None` where the result comes from the JPEG decoder (JPEG to TIFF).
pub open spec fn spec_finalize_bytes(first: Seq<u8>, req: ScanRequest) -> Option<
    core::result::Result<Seq<u8>, Seq<char>>,
> {
    match req.format {
        OutputFormat::Jpeg => if spec_is_jpeg(first) {
            Some(Ok(first))
        } else {
            Some(Err("device did not return a JPEG"@))
        },
        OutputFormat::Pdf => if spec_is_pdf(first) {
            Some(Ok(first))
        } else if spec_is_jpeg(first) {
            Some(Ok(spec_pdf(first)))
        } else {
            Some(Err("cannot wrap non-JPEG bytes as PDF"@))
        },
        OutputFormat::Tiff => if spec_is_tiff(first) {
            Some(Ok(first))
        } else if spec_is_jpeg(first) {
            None
        } else if spec_is_bmp(first) || spec_is_dib(first) {
            match imagefmt::spec_decode_raster(first) {
                imagefmt::DibOutcome::Image(w, h, rgb) => Some(
                    imagefmt::spec_rgb_to_tiff(rgb, w, h, req.dpi as nat),
                ),
                o => Some(Err(imagefmt::dib_error_text(o))),
            }
        } else {
            Some(Err("cannot build TIFF from scan payload"@))
        },
    }
}

/// A scan output against the bytes `finalize` promises.
pub open spec fn output_bytes_match(r: Result<ScanOutput>, s: core::result::Result<Seq<u8>, Seq<char>>) -> bool {
    match s {
        Ok(b) => r matches Ok(out) && out.bytes@ == b,
        Err(t) => r matches Err(e) && e matches Error::Protocol(m) && m@ == t,
    }
}

/// The output of a scan: only the first retrieved page is kept (a PDF is a
/// one-page wrapper), converted to the requested format.
#[verifier::spinoff_prover]
pub fn finalize(pages: Vec<Vec<u8>>, req: &ScanRequest) -> (r: Result<ScanOutput>)
    requires
        pages@.len() > 0,
    ensures
        r matches Ok(out) ==> output_matches(out, *req),
        match spec_finalize_bytes(pages@[0]@, *req) {
            Some(s) => output_bytes_match(r, s),
            None => exists|d|
                imagefmt::decoded_from(pages@[0]@, d) && #[trigger] output_bytes_match(
                    r,
                    imagefmt::spec_decoded_tiff(d, req.dpi),
                ),
        },
{
    let mut pages = pages;
    let first = pages.remove(0);
    let bytes = match req.format {
        OutputFormat::Jpeg => {
            if imagefmt::is_jpeg(first.as_slice()) {
                first
            } else {
                return Err(Error::Protocol(String::from_str("device did not return a JPEG")));
            }
        },
        OutputFormat::Pdf => {
            if imagefmt::is_pdf(first.as_slice()) {
                first
            } else {
                match imagefmt::jpeg_to_pdf(first.as_slice()) {
                    Ok(p) => p,
                    Err(e) => {
                        return Err(e);
                    },
                }
            }
        },
        OutputFormat::Tiff => {
            if imagefmt::is_tiff(first.as_slice()) {
                first
            } else if imagefmt::is_jpeg(first.as_slice()) {
                let t = imagefmt::jpeg_to_tiff(first.as_slice(), req.dpi);
                let ghost tg = t;
                let ghost d = choose|d|
                    imagefmt::decoded_from(first@, d) && imagefmt::bytes_match(
                        tg,
                        #[trigger] imagefmt::spec_decoded_tiff(d, req.dpi),
                    );
                match t {
                    Ok(t) => {
                        let out = ScanOutput {
                            bytes: t,
                            format: req.format,
                            source: req.source,
                            color: req.color,
                            dpi: req.dpi,
                        };
                        assert(output_bytes_match(
                            Ok(out),
                            imagefmt::spec_decoded_tiff(d, req.dpi),
                        ));
                        return Ok(out);
                    },
                    Err(e) => {
                        assert(output_bytes_match(
                            Err(e),
                            imagefmt::spec_decoded_tiff(d, req.dpi),
                        ));
                        return Err(e);
                    },
                }
            } else if imagefmt::is_bmp(first.as_slice()) || imagefmt::is_dib(first.as_slice()) {
                let (w, h, rgb) = match imagefmt::decode_bmp_or_dib(first.as_slice()) {
                    Ok(t) => t,
                    Err(e) => {
                        return Err(e);
                    },
                };
                match imagefmt::rgb_to_tiff(rgb.as_slice(), w, h, req.dpi) {
                    Ok(t) => t,
                    Err(e) => {
                        return Err(e);
                    },
                }
            } else {
                return Err(Error::Protocol(String::from_str("cannot build TIFF from scan payload")));
            }
        },
    };
    Ok(ScanOutput { bytes, format: req.format, source: req.source, color: req.color, dpi: req.dpi })
}

/// The DIME content type, or a first byte with DIME version 1.
pub open spec fn spec_looks_like_dime(resp: HttpResponse) -> bool {
    (match crate::transport::header_index(
        crate::transport::header_views(resp.headers@),
        "Content-Type"@,
    ) {
        Some(i) => seq_contains(ascii_lower(resp.headers@[i].1@), "dime"@),
        None => false,
    }) || (resp.body@.len() >= 12 && resp.body@[0] / 8 == 1)
}

pub fn looks_like_dime(resp: &HttpResponse) -> (r: bool)
    ensures
        r == spec_looks_like_dime(*resp),
{
    let ct = match resp.header("Content-Type") {
        Some(c) => lower_contains(chars_of(c).as_slice(), "dime"),
        None => false,
    };
    ct || (resp.body.len() >= 12 && resp.body[0] / 8 == 1)
}

/// The image in a SOAP RetrieveImage reply: a bare PDF or JPEG, the image
/// part of a DIME message, JPEG bytes after a SOAP prefix, or the fault.
pub fn retrieved_payload(resp: HttpResponse) -> (r: Result<Vec<u8>>)
    ensures
        resp.body@.len() >= 4 && resp.body@.take(4) == imagefmt::pdf_magic() ==> r == Ok::<Vec<u8>, Error>(resp.body),
        spec_is_jpeg(resp.body@) ==> r == Ok::<Vec<u8>, Error>(resp.body),
{
    let b = resp.body.as_slice();
    let pdf = b.len() >= 4 && b[0] == 37 && b[1] == 80 && b[2] == 68 && b[3] == 70;
    proof {
        if resp.body@.len() >= 4 && resp.body@.take(4) == imagefmt::pdf_magic() {
            assert(resp.body@.take(4)[0] == 37u8);
            assert(resp.body@.take(4)[1] == 80u8);
            assert(resp.body@.take(4)[2] == 68u8);
            assert(resp.body@.take(4)[3] == 70u8);
        }
    }
    if pdf || imagefmt::is_jpeg(b) {
        return Ok(resp.body);
    }
    if looks_like_dime(&resp) {
        return dime::extract_image(b);
    }
    let soi: [u8; 2] = [0xff, 0xd8];
    if let Some(i) = crate::text::find_bytes(b, soi.as_slice(), 0) {
        let mut v: Vec<u8> = Vec::new();
        v.extend_from_slice(&b[i..b.len()]);
        return Ok(v);
    }
    if let Some(text) = crate::text::utf8_text(b) {
        if let Some(fault) = soap::soap_fault(text.as_str()) {
            return Err(Error::Protocol(fault));
        }
    }
    dime::extract_image(b)
}

/// What a POST answered: the body text (an HTTP error status still carries
/// one), or the transport error.
pub fn reply_text(reply: Result<HttpResponse>) -> (r: Result<String>)
    ensures
        reply matches Ok(resp) ==> r matches Ok(t) && t@ == dime::utf8_lossy(resp.body@),
        reply matches Err(Error::Http { detail, .. }) ==> r matches Ok(t) && t@ == detail@,
        (reply matches Err(e) && !(e is Http)) ==> r is Err,
{
    match reply {
        Ok(r) => Ok(r.text()),
        Err(Error::Http { detail, .. }) => Ok(detail),
        Err(e) => Err(e),
    }
}

/// The NextDocument URL for an eSCL job `Location`.
pub open spec fn spec_doc_url(location: Seq<char>) -> Seq<char> {
    if seq_contains(location, "NextDocument"@) {
        location
    } else {
        crate::xmlutil::trim_end_slashes(location) + "/NextDocument"@
    }
}

pub fn doc_url_for(location: &str) -> (r: String)
    ensures
        r@ == spec_doc_url(location@),
{
    if str_contains(location, "NextDocument") {
        return String::from_str(location);
    }
    let c = chars_of(location);
    let mut k: usize = c.len();
    assert(c@.take(k as int) =~= c@);
    while k > 0 && c[k - 1] == '/'
        invariant
            k <= c@.len(),
            crate::xmlutil::trim_end_slashes(c@) == crate::xmlutil::trim_end_slashes(
                c@.take(k as int),
            ),
        decreases k,
    {
        assert(c@.take(k as int).drop_last() =~= c@.take(k - 1));
        k = k - 1;
    }
    let mut t: Vec<char> = Vec::new();
    t.extend_from_slice(&c[0..k]);
    assert(t@ =~= c@.take(k as int));
    let mut s = crate::text::string_from_chars(t.as_slice());
    s.append("/NextDocument");
    s
}

/// The error reported when both WSD attempts after a SOAP failure failed:
/// an empty ADF when SOAP already said there was no image, else all three errors.
fn compose_wsd_after_soap(
    source: ScanSource,
    soap_port: u16,
    soap_err: &Error,
    w: &Error,
    w2: &Error,
) -> (r: Error)
    ensures
        source == ScanSource::Adf && (seq_contains(ascii_lower(error_text(*soap_err)), "no image"@)
            || seq_contains(ascii_lower(error_text(*soap_err)), "retrieveimage"@)) ==> r
            == Error::AdfEmpty,
        !(source == ScanSource::Adf && (seq_contains(
            ascii_lower(error_text(*soap_err)),
            "no image"@,
        ) || seq_contains(ascii_lower(error_text(*soap_err)), "retrieveimage"@))) ==> (r matches Error::Message(m) && m@
            == "SOAP on :"@ + crate::text::decimal(soap_port as nat) + " failed ("@ + error_text(
            *soap_err,
        ) + "); WSD failed ("@ + error_text(*w) + "; "@ + error_text(*w2) + ")"@),
{
    let soap_s = soap_err.describe();
    let c = chars_of(soap_s.as_str());
    if source == ScanSource::Adf && (lower_contains(c.as_slice(), "no image") || lower_contains(
        c.as_slice(),
        "retrieveimage",
    )) {
        return Error::AdfEmpty;
    }
    let mut s = String::from_str("SOAP on :");
    let p = decimal_string(soap_port as u64);
    s.append(p.as_str());
    s.append(" failed (");
    s.append(soap_s.as_str());
    s.append("); WSD failed (");
    let ws = w.describe();
    s.append(ws.as_str());
    s.append("; ");
    let ws2 = w2.describe();
    s.append(ws2.as_str());
    s.append(")");
    Error::Message(s)
}

/// `eSCL ScanJobs failed (<eSCL error>); <what> failed (<error>)`.
fn escl_chain_error(escl_err: &Error, what: &str, e: &Error) -> (r: Error)
    ensures
        r matches Error::Message(m) && m@ == "eSCL ScanJobs failed ("@ + error_text(*escl_err)
            + "); "@ + what@ + " failed ("@ + error_text(*e) + ")"@,
{
    let mut s = String::from_str("eSCL ScanJobs failed (");
    let a = escl_err.describe();
    s.append(a.as_str());
    s.append("); ");
    s.append(what);
    s.append(" failed (");
    let b = e.describe();
    s.append(b.as_str());
    s.append(")");
    Error::Message(s)
}

/// What the caller does next.
pub enum ScanAction {
    /// Perform this HTTP exchange and report its outcome.
    Send(HttpRequest),
    /// Pause this many milliseconds, then report that.
    Sleep(u64),
    /// The scan is over.
    Done(Result<ScanOutput>),
}

/// What happened since the last action.
pub enum ScanEvent {
    /// The scan is starting.
    Start,
    /// The outcome of the requested HTTP exchange.
    Reply(Result<HttpResponse>),
    /// The requested pause is over.
    Woke,
}

/// Where a job run (SOAP, WSD or eSCL) stands: what the machine waits for.
pub enum Stage {
    NotStarted,
    SoapAdfCaps,
    SoapIdle,
    SoapIdleSleep,
    SoapCreateFull,
    SoapCreateShortAfterParse { first: Error },
    SoapCreateShortAfterHttp,
    SoapCreateSleep,
    SoapJobInfo,
    SoapJobInfoSleep,
    SoapRetrieve,
    SoapCancel,
    WsdCreate,
    WsdRetrieve,
    WsdRetrieveSleep,
    EsclPost,
    EsclPoll,
    EsclPollSleep,
    Finished,
}

/// Where a WSD-after-SOAP attempt was started from.
pub enum Ctx {
    Top,
    Escl1 { escl_port: u16, escl_err: Error },
    Escl2 { escl_err: Error },
}

/// What to do when the current job run ends.
pub enum Plan {
    SoapPrimary,
    WsdPrimary,
    EsclPrimary,
    AfterSoapWsd1 { soap_port: u16, soap_err: Error, ctx: Ctx },
    AfterSoapWsd2 { soap_port: u16, soap_err: Error, w: Error, ctx: Ctx },
    EsclSoap1 { escl_port: u16, escl_err: Error },
    EsclSoap2 { escl_err: Error },
    EsclWsdLast { escl_err: Error },
}

/// A job run's step: an action for the caller, or the run's result.
enum RunStep {
    Act(ScanAction),
    Finished(Result<ScanOutput>),
}

/// The decisions of one scan.
pub struct ScanMachine {
    host: String,
    req: ScanRequest,
    job_protocol: JobProtocol,
    stage: Stage,
    plan: Plan,
    port: u16,
    url: String,
    deadline: u64,
    attempt: u32,
    scan_id: String,
    job: Option<CreatedJob>,
    last_body: String,
    pages: Vec<Vec<u8>>,
    retrieve_xml: String,
    wsd_last: Option<String>,
    doc_url: String,
    polls: u32,
    escl_last: Option<String>,
}

/// A bounded wait: a request with a time limit of at most
/// `WSD_RETRIEVE_TIMEOUT_MS`, or a pause of at most `SOAP_BUSY_WAIT_MS`.
pub open spec fn bounded_wait(a: ScanAction) -> bool {
    match a {
        ScanAction::Send(h) => h.timeout_ms matches Some(t) && t <= WSD_RETRIEVE_TIMEOUT_MS,
        ScanAction::Sleep(ms) => ms <= SOAP_BUSY_WAIT_MS,
        ScanAction::Done(_) => true,
    }
}

/// A bounded `Send`/`Sleep` action, or a finished run whose image matches
/// the request.
spec fn run_ok(r: RunStep, req: ScanRequest) -> bool {
    match r {
        RunStep::Act(a) => !(a is Done) && bounded_wait(a),
        RunStep::Finished(res) => res matches Ok(out) ==> output_matches(out, req),
    }
}

/// A bounded wait, or an end whose image, if any, matches the request.
pub open spec fn action_ok(a: ScanAction, req: ScanRequest) -> bool {
    &&& bounded_wait(a)
    &&& a matches ScanAction::Done(Ok(out)) ==> output_matches(out, req)
}

/// A SOAP POST of `xml` to `url` with a time limit.
pub open spec fn soap_post_of(h: HttpRequest, url: Seq<char>, xml: Seq<char>, timeout_ms: u64) -> bool {
    &&& h.method == Method::Post
    &&& h.url@ == url
    &&& header_views(h.headers@) == seq![("Content-Type"@, soap::SOAP_CONTENT_TYPE@)]
    &&& h.body@ == encode_utf8(xml)
    &&& h.timeout_ms == Some(timeout_ms)
}

/// The first request of a run on `job`'s API at `host`. A SOAP run first
/// asks for the scanner's state (with the idle-wait as time limit from the
/// platen, when the clock leaves room for it); an eSCL run posts the scan
/// settings; a WSD run posts a `CreateScanJob` envelope with a fresh id.
pub open spec fn spec_first_request(
    h: HttpRequest,
    host: Seq<char>,
    job: JobProtocol,
    req: ScanRequest,
    now_ms: u64,
) -> bool {
    match job {
        JobProtocol::Soap { port } => (req.source == ScanSource::Adf || now_ms <= u64::MAX
            - SOAP_IDLE_WAIT_MS) ==> soap_post_of(
            h,
            http_origin(host, port as nat) + "/"@,
            soap::spec_get_scanner_elements(),
            if req.source == ScanSource::Adf {
                SOAP_FAST_TIMEOUT_MS
            } else {
                SOAP_IDLE_WAIT_MS
            },
        ),
        JobProtocol::Escl { port } => {
            &&& h.method == Method::Post
            &&& h.url@ == http_origin(host, port as nat) + "/eSCL/ScanJobs"@
            &&& header_views(h.headers@) == seq![("Content-Type"@, "text/xml"@)]
            &&& h.body@ == encode_utf8(crate::escl::spec_scan_settings(req))
            &&& h.timeout_ms == Some(SOAP_FAST_TIMEOUT_MS)
        },
        JobProtocol::Wsd { port } => {
            let url = http_origin(host, port as nat) + "/scanner"@;
            &&& h.method == Method::Post
            &&& h.url@ == url
            &&& header_views(h.headers@) == seq![
                ("Content-Type"@, wsd::spec_content_type(wsd::ACTION_CREATE@)),
                ("User-Agent"@, "WSDAPI"@),
            ]
            &&& exists|x: Seq<char>|
                wsd::fresh_envelope(x, url, wsd::ACTION_CREATE@, wsd::spec_wsd_job_body(req))
                    && h.body@ == encode_utf8(x)
            &&& h.timeout_ms == Some(WSD_CREATE_TIMEOUT_MS)
        },
    }
}

fn soap_post(url: &str, xml: String, timeout_ms: u64) -> (r: HttpRequest)
    ensures
        soap_post_of(r, url@, xml@, timeout_ms),
{
    let mut body: Vec<u8> = Vec::new();
    body.extend_from_slice(xml.as_str().as_bytes());
    assert(body@ =~= encode_utf8(xml@));
    HttpRequest::post(url, body, soap::SOAP_CONTENT_TYPE).with_timeout(timeout_ms)
}

fn one_page(p: Vec<u8>) -> (r: Vec<Vec<u8>>)
    ensures
        r@.len() == 1,
        r@[0] == p,
{
    let mut v: Vec<Vec<u8>> = Vec::new();
    v.push(p);
    v
}

/// What a request sent from a stage is: a SOAP `CreateScanJob` of the
/// request to the run's endpoint with the 8 second limit, or the WSD
/// `CreateScanJob` of a WSD run.
pub open spec fn sends(m: ScanMachine, h: HttpRequest) -> bool {
    match m.stage() {
        Stage::SoapCreateFull => exists|id: Seq<char>|
            #[trigger] soap_post_of(
                h,
                m.url(),
                soap::spec_create_scan_job(m.request(), id),
                SOAP_FAST_TIMEOUT_MS,
            ),
        Stage::WsdCreate => spec_first_request(
            h,
            m.host(),
            JobProtocol::Wsd { port: m.port() },
            m.request(),
            0,
        ),
        _ => true,
    }
}

/// A WSD run started on `port`: its `CreateScanJob` is the action.
pub open spec fn wsd_started(m0: ScanMachine, m1: ScanMachine, a: ScanAction, port: u16) -> bool {
    &&& a matches ScanAction::Send(h) && spec_first_request(
        h,
        m0.host(),
        JobProtocol::Wsd { port },
        m0.request(),
        0,
    )
    &&& m1.stage() is WsdCreate
    &&& m1.port() == port
}

/// What follows when a run fails with `e`: a failed SOAP scan falls back to
/// WSD on the same port when the error calls for it (else the scan ends with
/// `e`); a failed first WSD attempt tries WSD on 3911; a WSD scan ends.
pub open spec fn after_failure(m0: ScanMachine, m1: ScanMachine, a: ScanAction, e: Error) -> bool {
    match m0.plan() {
        Plan::SoapPrimary => if spec_fallback_to_wsd(e) {
            &&& wsd_started(m0, m1, a, m0.port())
            &&& m1.plan() == Plan::AfterSoapWsd1 { soap_port: m0.port(), soap_err: e, ctx: Ctx::Top }
        } else {
            a == ScanAction::Done(Err(e)) && m1.finished()
        },
        Plan::WsdPrimary => a == ScanAction::Done(Err(e)) && m1.finished(),
        Plan::AfterSoapWsd1 { soap_port, soap_err, ctx } => {
            &&& wsd_started(m0, m1, a, DEFAULT_WSD_PORT)
            &&& m1.plan() == Plan::AfterSoapWsd2 { soap_port, soap_err, w: e, ctx }
        },
        Plan::AfterSoapWsd2 { soap_port, soap_err, w, ctx: Ctx::Top } => {
            &&& a matches ScanAction::Done(Err(err)) && wsd_after_soap_error(
                m0.request().source,
                soap_port,
                soap_err,
                w,
                e,
                err,
            )
            &&& m1.finished()
        },
        Plan::EsclPrimary => if spec_fallback_from_escl(e) {
            &&& a matches ScanAction::Send(_)
            &&& m1.plan() == Plan::EsclSoap1 { escl_port: m0.port(), escl_err: e }
            &&& m1.port() == m0.port()
        } else {
            a == ScanAction::Done(Err(e)) && m1.finished()
        },
        _ => true,
    }
}

/// The error of a SOAP scan whose two WSD fallbacks failed too: an empty
/// feeder when the ADF SOAP run found no image, else all three errors.
pub open spec fn wsd_after_soap_error(
    source: ScanSource,
    soap_port: u16,
    soap_err: Error,
    w: Error,
    w2: Error,
    err: Error,
) -> bool {
    let n = ascii_lower(error_text(soap_err));
    if source == ScanSource::Adf && (seq_contains(n, "no image"@) || seq_contains(
        n,
        "retrieveimage"@,
    )) {
        err == Error::AdfEmpty
    } else {
        err matches Error::Message(m) && m@ == "SOAP on :"@ + crate::text::decimal(soap_port as nat)
            + " failed ("@ + error_text(soap_err) + "); WSD failed ("@ + error_text(w) + "; "@
            + error_text(w2) + ")"@
    }
}

/// What follows when a run ends with `res`: the scan's output, or
/// `after_failure`.
pub open spec fn after_run(m0: ScanMachine, m1: ScanMachine, a: ScanAction, res: Result<ScanOutput>) -> bool {
    match res {
        Ok(out) => a == ScanAction::Done(Ok(out)) && m1.finished(),
        Err(e) => after_failure(m0, m1, a, e),
    }
}

/// A failed CreateScanJob attempt with `e`: while the device is busy and
/// attempts are left, pause `SOAP_BUSY_WAIT_MS` and try again; else the run
/// fails with `e`.
pub open spec fn create_failed_step(m0: ScanMachine, m1: ScanMachine, a: ScanAction, e: Error) -> bool {
    if spec_device_busy(e) && m0.attempt() + 1 < SOAP_BUSY_RETRIES {
        &&& a == ScanAction::Sleep(SOAP_BUSY_WAIT_MS)
        &&& m1.stage() is SoapCreateSleep
        &&& m1.attempt() == m0.attempt() + 1
    } else {
        after_failure(m0, m1, a, e)
    }
}

/// Whether a CreateScanJob reply (its body, or the body of an HTTP error)
/// carries a job.
pub open spec fn create_parses(reply: Result<HttpResponse>) -> bool {
    match reply {
        Ok(resp) => soap::spec_parse_create_job(dime::utf8_lossy(resp.body@)) is Ok,
        Err(Error::Http { detail, .. }) => soap::spec_parse_create_job(detail@) is Ok,
        Err(_) => false,
    }
}

/// A RetrieveImage error that says the feeder has no (more) images.
pub open spec fn no_images_error(e: Error) -> bool {
    match e {
        Error::Protocol(m) => soap::spec_no_images_fault(m@),
        Error::Http { detail, .. } => soap::spec_no_images_fault(detail@),
        _ => false,
    }
}

/// What `finalize` may return for a scan whose first page is `first`.
pub open spec fn finalized(first: Seq<u8>, req: ScanRequest, res: Result<ScanOutput>) -> bool {
    &&& res matches Ok(out) ==> output_matches(out, req)
    &&& match spec_finalize_bytes(first, req) {
        Some(s) => output_bytes_match(res, s),
        None => exists|d|
            imagefmt::decoded_from(first, d) && #[trigger] output_bytes_match(
                res,
                imagefmt::spec_decoded_tiff(d, req.dpi),
            ),
    }
}

/// An HTTP 400 or 500 error (a SOAP fault in the error body).
pub open spec fn http_400_or_500(e: Error) -> bool {
    match e {
        Error::Http { status, .. } => status == 400 || status == 500,
        _ => false,
    }
}

/// What a scan makes of a WSD RetrieveImage reply body: its image part
/// (a BMP is converted to JPEG) as the output's only page.
pub open spec fn wsd_page_result(body: Seq<u8>, req: ScanRequest, res: Result<ScanOutput>) -> bool {
    match wsd::spec_extract_image(body) {
        Err(t) => res matches Err(e) && e matches Error::Protocol(m) && m@ == t,
        Ok(raw) => match spec_normalize(raw, req.color) {
            Some(Err(t)) => res matches Err(e) && e matches Error::Protocol(m) && m@ == t,
            Some(Ok(j)) => finalized(j, req, res),
            None => exists|j: Seq<u8>| lineart_normalized(raw, j) && #[trigger] finalized(j, req, res),
        },
    }
}

/// The CreateScanJob reply `resp` carried no job: the short form of the
/// request is sent next (8 second limit), remembering the parse error.
spec fn create_refused(resp: HttpResponse, r: RunStep, stage: Stage) -> bool {
    match soap::spec_parse_create_job(dime::utf8_lossy(resp.body@)) {
        Err(m) => {
            &&& r matches RunStep::Act(ScanAction::Send(h)) && h.timeout_ms == Some(SOAP_FAST_TIMEOUT_MS)
            &&& stage matches Stage::SoapCreateShortAfterParse { first } && first matches Error::Protocol(fm)
                && fm@ == m
        },
        Ok(_) => true,
    }
}

/// A RetrieveImage error before any page: the run fails, reporting no image
/// data when the device said it has no images.
spec fn retrieve_failed(e: Error, r: RunStep) -> bool {
    r matches RunStep::Finished(Err(e2)) && if no_images_error(e) {
        e2 matches Error::Protocol(m) && m@ == "RetrieveImage returned no image data"@
    } else {
        e2 == e
    }
}

/// A JPEG page was kept: it is appended to the pages, and the next request
/// is the next RetrieveImage (an ADF job with room for more pages) or the
/// CancelJob that ends retrieval.
spec fn page_kept(
    before: Seq<Vec<u8>>,
    after: Seq<Vec<u8>>,
    page: Seq<u8>,
    req: ScanRequest,
    r: RunStep,
    stage: Stage,
) -> bool {
    &&& after.len() == before.len() + 1
    &&& after.take(before.len() as int) == before
    &&& after.last()@ == page
    &&& r matches RunStep::Act(ScanAction::Send(_))
    &&& if req.source == ScanSource::Platen || before.len() + 1 >= MAX_ADF_PAGES {
        stage is SoapCancel
    } else {
        stage is SoapRetrieve
    }
}

/// The CreateScanJob reply `resp` carried no job: the short form of the
/// request is sent next (8 second limit), remembering the parse error.
pub open spec fn create_retried_short(m0: ScanMachine, m1: ScanMachine, resp: HttpResponse, a: ScanAction) -> bool {
    match soap::spec_parse_create_job(dime::utf8_lossy(resp.body@)) {
        Err(m) => {
            &&& a matches ScanAction::Send(h) && h.timeout_ms == Some(SOAP_FAST_TIMEOUT_MS)
            &&& m1.stage() matches Stage::SoapCreateShortAfterParse { first } && first matches Error::Protocol(fm)
                && fm@ == m
            &&& m1.attempt() == m0.attempt()
        },
        Ok(_) => true,
    }
}

/// A RetrieveImage error `e` before any page ends the SOAP run: with "no
/// image data" when the device said it has no images, else with `e`.
pub open spec fn retrieve_ended(m0: ScanMachine, m1: ScanMachine, a: ScanAction, e: Error) -> bool {
    exists|e2: Error|
        #[trigger] after_failure(m0, m1, a, e2) && if no_images_error(e) {
            e2 matches Error::Protocol(m) && m@ == "RetrieveImage returned no image data"@
        } else {
            e2 == e
        }
}

/// A retrieved JPEG page is appended; the next request is the next
/// RetrieveImage (an ADF job with room for more pages) or the CancelJob
/// that ends retrieval.
pub open spec fn page_taken(m0: ScanMachine, m1: ScanMachine, page: Seq<u8>, a: ScanAction) -> bool {
    &&& m1.pages() == m0.pages().push(page)
    &&& a matches ScanAction::Send(_)
    &&& if m0.request().source == ScanSource::Platen || m0.pages().len() + 1 >= MAX_ADF_PAGES {
        m1.stage() is SoapCancel
    } else {
        m1.stage() is SoapRetrieve
    }
}

/// Fields that a run's handlers never change.
spec fn frame(m0: ScanMachine, m1: ScanMachine) -> bool {
    &&& m1.req == m0.req
    &&& m1.plan == m0.plan
    &&& m1.port == m0.port
    &&& m1.host == m0.host
    &&& m1.url == m0.url
    &&& m1.job_protocol == m0.job_protocol
}

/// A run step's `Send` is what `sends` says for the machine after it.
spec fn run_sends(r: RunStep, m: ScanMachine) -> bool {
    r matches RunStep::Act(ScanAction::Send(h)) ==> sends(m, h)
}

/// `create_failed_step` for a run step (before the plan is consulted).
spec fn create_failed_run(m0: ScanMachine, m1: ScanMachine, r: RunStep, e: Error) -> bool {
    if spec_device_busy(e) && m0.attempt + 1 < SOAP_BUSY_RETRIES {
        &&& r == RunStep::Act(ScanAction::Sleep(SOAP_BUSY_WAIT_MS))
        &&& m1.stage is SoapCreateSleep
        &&& m1.attempt == m0.attempt + 1
    } else {
        r == RunStep::Finished(Err(e))
    }
}

/// `after_failure` for a run step (before the scan is marked finished).
spec fn after_failure_run(m0: ScanMachine, m1: ScanMachine, r: RunStep, e: Error) -> bool {
    match m0.plan {
        Plan::SoapPrimary => if spec_fallback_to_wsd(e) {
            &&& r matches RunStep::Act(a) && wsd_started(m0, m1, a, m0.port)
            &&& m1.plan == Plan::AfterSoapWsd1 { soap_port: m0.port, soap_err: e, ctx: Ctx::Top }
        } else {
            r == RunStep::Finished(Err(e))
        },
        Plan::WsdPrimary => r == RunStep::Finished(Err(e)),
        Plan::AfterSoapWsd1 { soap_port, soap_err, ctx } => {
            &&& r matches RunStep::Act(a) && wsd_started(m0, m1, a, DEFAULT_WSD_PORT)
            &&& m1.plan == Plan::AfterSoapWsd2 { soap_port, soap_err, w: e, ctx }
        },
        Plan::AfterSoapWsd2 { soap_port, soap_err, w, ctx: Ctx::Top } => r matches RunStep::Finished(
            Err(err),
        ) && wsd_after_soap_error(m0.req.source, soap_port, soap_err, w, e, err),
        Plan::EsclPrimary => if spec_fallback_from_escl(e) {
            &&& r matches RunStep::Act(ScanAction::Send(_))
            &&& m1.plan == Plan::EsclSoap1 { escl_port: m0.port, escl_err: e }
            &&& m1.port == m0.port
        } else {
            r == RunStep::Finished(Err(e))
        },
        _ => true,
    }
}

impl ScanMachine {
    /// The request being scanned.
    pub closed spec fn request(&self) -> ScanRequest {
        self.req
    }

    /// The scan has not started yet.
    pub closed spec fn fresh(&self) -> bool {
        self.stage is NotStarted
    }

    /// The scan is over.
    pub closed spec fn finished(&self) -> bool {
        self.stage is Finished
    }

    /// The host of the device being scanned.
    pub closed spec fn host(&self) -> Seq<char> {
        self.host@
    }

    /// The job API saved for the device.
    pub closed spec fn protocol(&self) -> JobProtocol {
        self.job_protocol
    }

    /// What the current run waits for.
    pub closed spec fn stage(&self) -> Stage {
        self.stage
    }

    /// What happens when the current run ends.
    pub closed spec fn plan(&self) -> Plan {
        self.plan
    }

    /// CreateScanJob attempts made after the first, while the device is busy.
    pub closed spec fn attempt(&self) -> u32 {
        self.attempt
    }

    /// The port of the current run.
    pub closed spec fn port(&self) -> u16 {
        self.port
    }

    /// The SOAP or WSD endpoint of the current run.
    pub closed spec fn url(&self) -> Seq<char> {
        self.url@
    }

    /// The pages retrieved so far in the current SOAP run, as JPEG or PDF.
    pub closed spec fn pages(&self) -> Seq<Seq<u8>> {
        self.pages@.map_values(|p: Vec<u8>| p@)
    }

    /// A scan of `req` on `device`.
    pub fn new(device: &DeviceRecord, req: ScanRequest) -> (r: Self)
        ensures
            r.request() == req,
            r.fresh(),
            r.host() == device.host@,
            r.protocol() == device.job,
            !r.finished(),
    {
        ScanMachine {
            host: device.host.clone(),
            req,
            job_protocol: device.job,
            stage: Stage::NotStarted,
            plan: Plan::SoapPrimary,
            port: 0,
            url: String::new(),
            deadline: 0,
            attempt: 0,
            scan_id: String::new(),
            job: None,
            last_body: String::new(),
            pages: Vec::new(),
            retrieve_xml: String::new(),
            wsd_last: None,
            doc_url: String::new(),
            polls: 0,
            escl_last: None,
        }
    }

    /// Decide the next action from what happened; `now_ms` is the time since
    /// the scan started. An invalid request ends the scan at once; every
    /// request has a time limit and every pause is short; a finished scan's
    /// image always has the requested format, source, color and resolution;
    /// once the scan is over it stays over. A SOAP CreateScanJob is sent
    /// with an 8 second limit and retried after a pause while the device is
    /// busy; a failed SOAP run falls back to WSD (same port, then 3911);
    /// retrieved pages are collected until the feeder is empty and the
    /// output is made from the first.
    #[verifier::spinoff_prover]
    #[verifier::rlimit(40)]
    pub fn step(&mut self, event: ScanEvent, now_ms: u64) -> (a: ScanAction)
        ensures
            a matches ScanAction::Send(h) ==> sends(*final(self), h),
            old(self).stage() is SoapCreateSleep ==> (a matches ScanAction::Send(_)
                && final(self).stage() is SoapCreateFull && final(self).attempt() == old(
                self,
            ).attempt()),
            match (old(self).stage(), event) {
                (Stage::SoapCreateShortAfterParse { first }, ScanEvent::Reply(reply)) => !create_parses(
                    reply,
                ) ==> create_failed_step(*old(self), *final(self), a, first),
                (Stage::SoapCreateFull, ScanEvent::Reply(Err(e))) => !http_400_or_500(e)
                    ==> create_failed_step(*old(self), *final(self), a, e),
                (Stage::SoapCreateFull, ScanEvent::Reply(Ok(resp))) => create_retried_short(
                    *old(self),
                    *final(self),
                    resp,
                    a,
                ),
                (Stage::SoapRetrieve, ScanEvent::Reply(Err(e))) => if old(self).pages().len() > 0 {
                    &&& a matches ScanAction::Send(_)
                    &&& final(self).stage() is SoapCancel
                    &&& final(self).pages() == old(self).pages()
                } else {
                    retrieve_ended(*old(self), *final(self), a, e)
                },
                (Stage::SoapRetrieve, ScanEvent::Reply(Ok(resp))) => spec_is_jpeg(resp.body@)
                    && old(self).request().color != ColorMode::Lineart ==> page_taken(
                    *old(self),
                    *final(self),
                    resp.body@,
                    a,
                ),
                (Stage::WsdCreate, ScanEvent::Reply(reply)) => if create_parses(reply) {
                    &&& a matches ScanAction::Send(h) && h.timeout_ms == Some(WSD_RETRIEVE_TIMEOUT_MS)
                    &&& final(self).stage() is WsdRetrieve
                } else {
                    exists|e: Error| #[trigger] after_failure(*old(self), *final(self), a, e)
                },
                (Stage::WsdRetrieve, ScanEvent::Reply(Ok(resp))) => exists|res: Result<ScanOutput>|
                    #[trigger] wsd_page_result(resp.body@, old(self).request(), res) && after_run(
                        *old(self),
                        *final(self),
                        a,
                        res,
                    ),
                (Stage::SoapCancel, _) => old(self).pages().len() > 0 ==> exists|
                    res: Result<ScanOutput>,
                |
                    #[trigger] finalized(old(self).pages()[0], old(self).request(), res) && after_run(
                        *old(self),
                        *final(self),
                        a,
                        res,
                    ),
                _ => true,
            },
            final(self).request() == old(self).request(),
            action_ok(a, old(self).request()),
            a is Done ==> final(self).finished(),
            old(self).finished() ==> (a matches ScanAction::Done(Err(_)) && final(self).finished()),
            old(self).fresh() && !crate::model::dpi_in_range(old(self).request().dpi)
                ==> (a matches ScanAction::Done(Err(e)) && e is InvalidRequest),
            old(self).fresh() && crate::model::dpi_in_range(old(self).request().dpi)
                ==> (a matches ScanAction::Send(h) && spec_first_request(
                h,
                old(self).host(),
                old(self).protocol(),
                old(self).request(),
                now_ms,
            )),
    {
        if let Stage::Finished = self.stage {
            return ScanAction::Done(Err(Error::Message(String::from_str("scan already finished"))));
        }
        if let Stage::NotStarted = self.stage {
            if let Err(e) = self.req.validate() {
                self.stage = Stage::Finished;
                return ScanAction::Done(Err(e));
            }
            let r = match self.job_protocol {
                JobProtocol::Soap { port } => {
                    self.plan = Plan::SoapPrimary;
                    self.start_soap(port, now_ms)
                },
                JobProtocol::Escl { port } => {
                    self.plan = Plan::EsclPrimary;
                    self.start_escl(port)
                },
                JobProtocol::Wsd { port } => {
                    self.plan = Plan::WsdPrimary;
                    self.start_wsd(port)
                },
            };
            return self.settle(r, now_ms);
        }
        let ghost m0 = *self;
        let ghost ev = event;
        let r = self.run_step(event, now_ms);
        let ghost m1 = *self;
        let ghost r0 = r;
        let a = self.settle(r, now_ms);
        proof {
            if let ScanEvent::Reply(Ok(resp)) = ev {
                if m0.stage is SoapRetrieve && spec_is_jpeg(resp.body@) && m0.req.color
                    != ColorMode::Lineart {
                    assert(m1.pages@.take(m0.pages@.len() as int) == m0.pages@);
                    assert(m1.pages() =~= m0.pages().push(resp.body@)) by {
                        assert forall|i: int| 0 <= i < m0.pages@.len() implies m1.pages@[i]
                            == m0.pages@[i] by {
                            assert(m1.pages@.take(m0.pages@.len() as int)[i] == m1.pages@[i]);
                        }
                    }
                }
            }
            if let ScanEvent::Reply(Err(e)) = ev {
                if m0.stage is SoapRetrieve && m0.pages@.len() == 0 {
                    if let RunStep::Finished(Err(e2)) = r0 {
                        assert(after_failure(m1, *self, a, e2));
                        assert(after_failure(m0, *self, a, e2));
                    }
                }
            }
            if m0.stage is WsdCreate && ev is Reply {
                if let RunStep::Finished(Err(e)) = r0 {
                    assert(after_failure(m1, *self, a, e));
                    assert(after_failure(m0, *self, a, e));
                }
            }
            if let ScanEvent::Reply(Ok(resp)) = ev {
                if m0.stage is WsdRetrieve {
                    if let RunStep::Finished(res) = r0 {
                        assert(wsd_page_result(resp.body@, m0.request(), res));
                    }
                }
            }
            if m0.stage is SoapCancel && m0.pages@.len() > 0 {
                assert(m0.pages()[0] == m0.pages@[0]@);
                if let RunStep::Finished(res) = r0 {
                    assert(finalized(m0.pages()[0], m0.request(), res));
                }
            }
        }
        a
    }

    /// Turn a run step into an action, moving along the plan when a run ends.
    fn settle(&mut self, r: RunStep, now_ms: u64) -> (a: ScanAction)
        requires
            run_ok(r, old(self).req),
        ensures
            final(self).req == old(self).req,
            action_ok(a, old(self).req),
            r matches RunStep::Act(a0) ==> a == a0,
            a is Done ==> final(self).finished(),
            r matches RunStep::Act(a0) ==> *final(self) == *old(self),
            r matches RunStep::Finished(res) ==> after_run(*old(self), *final(self), a, res),
            run_sends(r, *old(self)) ==> (a matches ScanAction::Send(h) ==> sends(*final(self), h)),
    {
        match r {
            RunStep::Act(a) => a,
            RunStep::Finished(res) => {
                let next = self.on_finished(res, now_ms);
                match next {
                    RunStep::Act(a) => a,
                    RunStep::Finished(res2) => {
                        self.stage = Stage::Finished;
                        ScanAction::Done(res2)
                    },
                }
            },
        }
    }

    /// A run ended with `res`: finish the scan or start the next fallback run.
    /// Every run starts with a request, so this never ends in another
    /// finished run that needs a decision.
    #[verifier::spinoff_prover]
    fn on_finished(&mut self, res: Result<ScanOutput>, now_ms: u64) -> (r: RunStep)
        requires
            res matches Ok(out) ==> output_matches(out, old(self).req),
        ensures
            final(self).req == old(self).req,
            run_ok(r, old(self).req),
            run_sends(r, *final(self)),
            final(self).host == old(self).host,
            final(self).job_protocol == old(self).job_protocol,
            match res {
                Ok(out) => r == RunStep::Finished(Ok(out)),
                Err(e) => after_failure_run(*old(self), *final(self), r, e),
            },
    {
        let out = match res {
            Ok(out) => {
                return RunStep::Finished(Ok(out));
            },
            Err(e) => e,
        };
        let mut plan = Plan::WsdPrimary;
        core::mem::swap(&mut plan, &mut self.plan);
        match plan {
            Plan::SoapPrimary => {
                if should_fallback_to_wsd(&out) {
                    let port = self.port;
                    self.plan = Plan::AfterSoapWsd1 { soap_port: port, soap_err: out, ctx: Ctx::Top };
                    self.start_wsd(port)
                } else {
                    RunStep::Finished(Err(out))
                }
            },
            Plan::WsdPrimary => RunStep::Finished(Err(out)),
            Plan::EsclPrimary => {
                if should_fallback_from_escl(&out) {
                    let port = self.port;
                    self.plan = Plan::EsclSoap1 { escl_port: port, escl_err: out };
                    self.start_soap(port, now_ms)
                } else {
                    RunStep::Finished(Err(out))
                }
            },
            Plan::AfterSoapWsd1 { soap_port, soap_err, ctx } => {
                self.plan = Plan::AfterSoapWsd2 { soap_port, soap_err, w: out, ctx };
                self.start_wsd(DEFAULT_WSD_PORT)
            },
            Plan::AfterSoapWsd2 { soap_port, soap_err, w, ctx } => {
                let err = compose_wsd_after_soap(self.req.source, soap_port, &soap_err, &w, &out);
                match ctx {
                    Ctx::Top => RunStep::Finished(Err(err)),
                    Ctx::Escl1 { escl_port, escl_err } => self.escl_second(escl_port, escl_err, now_ms),
                    Ctx::Escl2 { escl_err } => RunStep::Finished(
                        Err(escl_chain_error(&escl_err, "SOAP/WSD", &err)),
                    ),
                }
            },
            Plan::EsclSoap1 { escl_port, escl_err } => {
                if should_fallback_to_wsd(&out) {
                    self.plan = Plan::AfterSoapWsd1 {
                        soap_port: escl_port,
                        soap_err: out,
                        ctx: Ctx::Escl1 { escl_port, escl_err },
                    };
                    self.start_wsd(escl_port)
                } else {
                    self.escl_second(escl_port, escl_err, now_ms)
                }
            },
            Plan::EsclSoap2 { escl_err } => {
                if should_fallback_to_wsd(&out) {
                    self.plan = Plan::AfterSoapWsd1 {
                        soap_port: DEFAULT_SOAP_PORT,
                        soap_err: out,
                        ctx: Ctx::Escl2 { escl_err },
                    };
                    self.start_wsd(DEFAULT_SOAP_PORT)
                } else {
                    RunStep::Finished(Err(escl_chain_error(&escl_err, "SOAP", &out)))
                }
            },
            Plan::EsclWsdLast { escl_err } => RunStep::Finished(
                Err(escl_chain_error(&escl_err, "SOAP/WSD", &out)),
            ),
        }
    }

    /// After the first SOAP/WSD fallback of an eSCL scan failed: SOAP on the
    /// default port (when eSCL was elsewhere), else WSD on the default port.
    fn escl_second(&mut self, escl_port: u16, escl_err: Error, now_ms: u64) -> (r: RunStep)
        ensures
            final(self).req == old(self).req,
            run_ok(r, old(self).req),
            run_sends(r, *final(self)),
            final(self).host == old(self).host,
            final(self).job_protocol == old(self).job_protocol,
    {
        if escl_port != DEFAULT_SOAP_PORT {
            self.plan = Plan::EsclSoap2 { escl_err };
            self.start_soap(DEFAULT_SOAP_PORT, now_ms)
        } else {
            self.plan = Plan::EsclWsdLast { escl_err };
            self.start_wsd(DEFAULT_WSD_PORT)
        }
    }

    /// Dispatch an event to the current run.
    #[verifier::spinoff_prover]
    fn run_step(&mut self, event: ScanEvent, now_ms: u64) -> (r: RunStep)
        ensures
            final(self).req == old(self).req,
            run_ok(r, old(self).req),
            frame(*old(self), *final(self)),
            run_sends(r, *final(self)),
            match (old(self).stage, event) {
                (Stage::WsdCreate, ScanEvent::Reply(reply)) => if create_parses(reply) {
                    r matches RunStep::Act(ScanAction::Send(h)) && h.timeout_ms == Some(
                        WSD_RETRIEVE_TIMEOUT_MS,
                    ) && final(self).stage is WsdRetrieve
                } else {
                    r matches RunStep::Finished(Err(_))
                },
                (Stage::WsdRetrieve, ScanEvent::Reply(Ok(resp))) => r matches RunStep::Finished(res)
                    && wsd_page_result(resp.body@, old(self).req, res),
                _ => true,
            },
            old(self).stage is SoapCreateSleep ==> (r matches RunStep::Act(ScanAction::Send(_))
                && final(self).stage is SoapCreateFull && final(self).attempt == old(self).attempt),
            match (old(self).stage, event) {
                (Stage::SoapCreateShortAfterParse { first }, ScanEvent::Reply(reply)) => !create_parses(
                    reply,
                ) ==> create_failed_run(*old(self), *final(self), r, first),
                (Stage::SoapCreateFull, ScanEvent::Reply(Err(e))) => !http_400_or_500(e)
                    ==> create_failed_run(*old(self), *final(self), r, e),
                (Stage::SoapCreateFull, ScanEvent::Reply(Ok(resp))) => create_refused(
                    resp,
                    r,
                    final(self).stage,
                ) && final(self).attempt == old(self).attempt,
                (Stage::SoapRetrieve, ScanEvent::Reply(Err(e))) => if old(self).pages@.len() > 0 {
                    &&& r matches RunStep::Act(ScanAction::Send(_))
                    &&& final(self).stage is SoapCancel
                    &&& final(self).pages == old(self).pages
                } else {
                    retrieve_failed(e, r)
                },
                (Stage::SoapRetrieve, ScanEvent::Reply(Ok(resp))) => spec_is_jpeg(resp.body@)
                    && old(self).req.color != ColorMode::Lineart ==> page_kept(
                    old(self).pages@,
                    final(self).pages@,
                    resp.body@,
                    old(self).req,
                    r,
                    final(self).stage,
                ),
                (Stage::SoapCancel, _) => old(self).pages@.len() > 0 ==> (r matches RunStep::Finished(
                    res,
                ) && finalized(old(self).pages@[0]@, old(self).req, res)),
                _ => true,
            },
    {
        let mut stage = Stage::Finished;
        core::mem::swap(&mut stage, &mut self.stage);
        match stage {
            Stage::NotStarted => RunStep::Finished(Err(Error::Message(String::from_str("scan not started")))),
            Stage::Finished => RunStep::Finished(Err(Error::Message(String::from_str("scan already finished")))),
            Stage::SoapIdleSleep => self.idle_probe(now_ms),
            Stage::SoapCreateSleep => self.create_attempt(),
            Stage::SoapJobInfoSleep => self.job_info_probe(now_ms),
            Stage::WsdRetrieveSleep => self.wsd_retry(),
            Stage::EsclPollSleep => self.escl_repoll(),
            Stage::SoapAdfCaps => self.begin_idle(now_ms),
            Stage::SoapCancel => {
                let mut pages: Vec<Vec<u8>> = Vec::new();
                core::mem::swap(&mut pages, &mut self.pages);
                if pages.len() == 0 {
                    RunStep::Finished(Err(Error::Protocol(String::from_str("RetrieveImage returned no image data"))))
                } else {
                    RunStep::Finished(finalize(pages, &self.req))
                }
            },
            _ => {
                let reply = match event {
                    ScanEvent::Reply(r) => r,
                    _ => Err(Error::Message(String::from_str("no reply to the last request"))),
                };
                match stage {
                    Stage::SoapIdle => self.on_idle_reply(reply, now_ms),
                    Stage::SoapCreateFull => self.on_create_full(reply, now_ms),
                    Stage::SoapCreateShortAfterParse { first } => self.on_create_short_after_parse(
                        reply,
                        first,
                        now_ms,
                    ),
                    Stage::SoapCreateShortAfterHttp => self.on_create_short_after_http(reply, now_ms),
                    Stage::SoapJobInfo => self.on_job_info(reply, now_ms),
                    Stage::SoapRetrieve => self.on_retrieve(reply),
                    Stage::WsdCreate => self.on_wsd_create(reply),
                    Stage::WsdRetrieve => self.on_wsd_retrieve(reply),
                    Stage::EsclPost => self.on_escl_post(reply),
                    _ => self.on_escl_poll(reply),
                }
            },
        }
    }

    // ---- HP SOAP ----
    fn start_soap(&mut self, port: u16, now_ms: u64) -> (r: RunStep)
        ensures
            final(self).req == old(self).req,
            run_ok(r, old(self).req),
            run_sends(r, *final(self)),
            final(self).host == old(self).host,
            final(self).job_protocol == old(self).job_protocol,
            final(self).port == port,
            final(self).plan == old(self).plan,
            r matches RunStep::Act(ScanAction::Send(h)) && spec_first_request(
                h,
                old(self).host@,
                JobProtocol::Soap { port },
                old(self).req,
                now_ms,
            ),
    {
        self.port = port;
        self.url = http_url(self.host.as_str(), port, "/");
        self.pages = Vec::new();
        self.job = None;
        if self.req.source == ScanSource::Adf {
            // Best-effort look at the feeder; the retrieve fault decides.
            self.stage = Stage::SoapAdfCaps;
            let xml = soap::get_scanner_elements_xml();
            return RunStep::Act(ScanAction::Send(soap_post(self.url.as_str(), xml, SOAP_FAST_TIMEOUT_MS)));
        }
        self.begin_idle(now_ms)
    }

    fn begin_idle(&mut self, now_ms: u64) -> (r: RunStep)
        ensures
            final(self).req == old(self).req,
            run_ok(r, old(self).req),
            frame(*old(self), *final(self)),
            run_sends(r, *final(self)),
            now_ms <= u64::MAX - SOAP_IDLE_WAIT_MS ==> (r matches RunStep::Act(ScanAction::Send(h))
                && soap_post_of(
                h,
                old(self).url@,
                soap::spec_get_scanner_elements(),
                SOAP_IDLE_WAIT_MS,
            )),
            r matches RunStep::Act(ScanAction::Send(h)) && h.url@ == old(self).url@
                && h.method == Method::Post
                && header_views(h.headers@) == seq![("Content-Type"@, soap::SOAP_CONTENT_TYPE@)],
    {
        self.deadline = now_ms.saturating_add(SOAP_IDLE_WAIT_MS);
        self.idle_probe(now_ms)
    }

    fn idle_probe(&mut self, now_ms: u64) -> (r: RunStep)
        ensures
            final(self).req == old(self).req,
            run_ok(r, old(self).req),
            frame(*old(self), *final(self)),
            run_sends(r, *final(self)),
            old(self).deadline > now_ms ==> (r matches RunStep::Act(ScanAction::Send(h))
                && soap_post_of(
                h,
                old(self).url@,
                soap::spec_get_scanner_elements(),
                if old(self).deadline - now_ms < SOAP_FAST_TIMEOUT_MS {
                    (old(self).deadline - now_ms) as u64
                } else {
                    SOAP_FAST_TIMEOUT_MS
                },
            )),
            r matches RunStep::Act(ScanAction::Send(h)) && h.url@ == old(self).url@
                && h.method == Method::Post
                && header_views(h.headers@) == seq![("Content-Type"@, soap::SOAP_CONTENT_TYPE@)],
    {
        let remain = self.deadline.saturating_sub(now_ms);
        if remain == 0 {
            return self.begin_create();
        }
        let t = if remain < SOAP_FAST_TIMEOUT_MS {
            remain
        } else {
            SOAP_FAST_TIMEOUT_MS
        };
        self.stage = Stage::SoapIdle;
        let xml = soap::get_scanner_elements_xml();
        RunStep::Act(ScanAction::Send(soap_post(self.url.as_str(), xml, t)))
    }

    fn on_idle_reply(&mut self, reply: Result<HttpResponse>, now_ms: u64) -> (r: RunStep)
        ensures
            final(self).req == old(self).req,
            run_ok(r, old(self).req),
            frame(*old(self), *final(self)),
            run_sends(r, *final(self)),
    {
        let done = match reply_text(reply) {
            Ok(body) => match soap::parse_capabilities(body.as_str()) {
                Ok(caps) => {
                    let l = lower_chars(chars_of(caps.state.as_str()).as_slice());
                    chars_eq_str(l.as_slice(), "idle")
                },
                Err(_) => false,
            },
            Err(Error::Transport { .. }) => true,
            Err(Error::Timeout(_)) => true,
            Err(_) => false,
        };
        if done || now_ms >= self.deadline {
            return self.begin_create();
        }
        self.stage = Stage::SoapIdleSleep;
        RunStep::Act(ScanAction::Sleep(250))
    }

    fn begin_create(&mut self) -> (r: RunStep)
        ensures
            final(self).req == old(self).req,
            run_ok(r, old(self).req),
            frame(*old(self), *final(self)),
            run_sends(r, *final(self)),
            r matches RunStep::Act(ScanAction::Send(h)) && h.url@ == old(self).url@
                && h.method == Method::Post
                && header_views(h.headers@) == seq![("Content-Type"@, soap::SOAP_CONTENT_TYPE@)],
    {
        self.attempt = 0;
        self.create_attempt()
    }

    fn create_attempt(&mut self) -> (r: RunStep)
        ensures
            final(self).req == old(self).req,
            run_ok(r, old(self).req),
            frame(*old(self), *final(self)),
            run_sends(r, *final(self)),
            final(self).stage is SoapCreateFull,
            final(self).attempt == old(self).attempt,
            final(self).pages == old(self).pages,
            r matches RunStep::Act(ScanAction::Send(h)) && h.url@ == old(self).url@
                && h.method == Method::Post
                && header_views(h.headers@) == seq![("Content-Type"@, soap::SOAP_CONTENT_TYPE@)],
    {
        self.scan_id = wsd::new_uuid_v4();
        self.stage = Stage::SoapCreateFull;
        let xml = soap::create_scan_job_xml(&self.req, self.scan_id.as_str());
        let h = soap_post(self.url.as_str(), xml, SOAP_FAST_TIMEOUT_MS);
        assert(soap_post_of(
            h,
            self.url(),
            soap::spec_create_scan_job(self.request(), self.scan_id@),
            SOAP_FAST_TIMEOUT_MS,
        ));
        assert(self.stage() is SoapCreateFull);
        assert(sends(*self, h));
        RunStep::Act(ScanAction::Send(h))
    }

    fn send_short_create(&mut self) -> (r: RunStep)
        requires
            old(self).stage is SoapCreateShortAfterParse || old(self).stage is SoapCreateShortAfterHttp,
        ensures
            *final(self) == *old(self),
            r matches RunStep::Act(ScanAction::Send(h)) && h.timeout_ms == Some(SOAP_FAST_TIMEOUT_MS),
            final(self).req == old(self).req,
            run_ok(r, old(self).req),
            frame(*old(self), *final(self)),
            run_sends(r, *final(self)),
    {
        let xml = soap::create_scan_job_short_xml(&self.req, self.scan_id.as_str());
        RunStep::Act(ScanAction::Send(soap_post(self.url.as_str(), xml, SOAP_FAST_TIMEOUT_MS)))
    }

    fn on_create_full(&mut self, reply: Result<HttpResponse>, now_ms: u64) -> (r: RunStep)
        ensures
            final(self).req == old(self).req,
            run_ok(r, old(self).req),
            frame(*old(self), *final(self)),
            run_sends(r, *final(self)),
            match reply {
                Err(e) => !http_400_or_500(e) ==> create_failed_run(*old(self), *final(self), r, e),
                Ok(resp) => create_refused(resp, r, final(self).stage) && final(self).attempt
                    == old(self).attempt,
            },
    {
        match reply {
            Ok(resp) => {
                let text = resp.text();
                match soap::parse_create_job(text.as_str()) {
                    Ok(job) => self.created(job, now_ms),
                    Err(first) => {
                        self.stage = Stage::SoapCreateShortAfterParse { first };
                        self.send_short_create()
                    },
                }
            },
            Err(Error::Http { status, url, detail }) => {
                if status == 400 || status == 500 {
                    match soap::parse_create_job(detail.as_str()) {
                        Ok(job) => self.created(job, now_ms),
                        Err(_) => {
                            self.stage = Stage::SoapCreateShortAfterHttp;
                            self.send_short_create()
                        },
                    }
                } else {
                    self.create_failed(Error::Http { status, url, detail })
                }
            },
            Err(e) => self.create_failed(e),
        }
    }

    fn on_create_short_after_parse(&mut self, reply: Result<HttpResponse>, first: Error, now_ms: u64) -> (r: RunStep)
        ensures
            final(self).req == old(self).req,
            run_ok(r, old(self).req),
            frame(*old(self), *final(self)),
            run_sends(r, *final(self)),
            !create_parses(reply) ==> create_failed_run(*old(self), *final(self), r, first),
    {
        let parsed = match reply {
            Ok(resp) => {
                let text = resp.text();
                soap::parse_create_job(text.as_str())
            },
            Err(Error::Http { detail, .. }) => soap::parse_create_job(detail.as_str()),
            Err(_) => Err(Error::Message(String::new())),
        };
        match parsed {
            Ok(job) => self.created(job, now_ms),
            Err(_) => self.create_failed(first),
        }
    }

    fn on_create_short_after_http(&mut self, reply: Result<HttpResponse>, now_ms: u64) -> (r: RunStep)
        ensures
            final(self).req == old(self).req,
            run_ok(r, old(self).req),
            frame(*old(self), *final(self)),
            run_sends(r, *final(self)),
    {
        let parsed = match reply {
            Ok(resp) => {
                let text = resp.text();
                soap::parse_create_job(text.as_str())
            },
            Err(Error::Http { detail, .. }) => soap::parse_create_job(detail.as_str()),
            Err(e) => Err(e),
        };
        match parsed {
            Ok(job) => self.created(job, now_ms),
            Err(e) => self.create_failed(e),
        }
    }

    fn create_failed(&mut self, e: Error) -> (r: RunStep)
        ensures
            final(self).req == old(self).req,
            run_ok(r, old(self).req),
            frame(*old(self), *final(self)),
            run_sends(r, *final(self)),
            create_failed_run(*old(self), *final(self), r, e),
    {
        if is_device_busy(&e) && self.attempt < SOAP_BUSY_RETRIES - 1 {
            self.attempt = self.attempt + 1;
            self.stage = Stage::SoapCreateSleep;
            return RunStep::Act(ScanAction::Sleep(SOAP_BUSY_WAIT_MS));
        }
        RunStep::Finished(Err(e))
    }

    fn created(&mut self, job: CreatedJob, now_ms: u64) -> (r: RunStep)
        ensures
            final(self).req == old(self).req,
            run_ok(r, old(self).req),
            frame(*old(self), *final(self)),
            run_sends(r, *final(self)),
            final(self).attempt == old(self).attempt,
    {
        self.job = Some(job);
        self.deadline = now_ms.saturating_add(SOAP_JOBINFO_DEADLINE_MS);
        self.last_body = String::new();
        self.job_info_probe(now_ms)
    }

    fn job_info_probe(&mut self, now_ms: u64) -> (r: RunStep)
        ensures
            final(self).req == old(self).req,
            run_ok(r, old(self).req),
            frame(*old(self), *final(self)),
            run_sends(r, *final(self)),
            final(self).attempt == old(self).attempt,
    {
        if now_ms >= self.deadline {
            let e = or_context(Error::Timeout(SOAP_JOBINFO_DEADLINE_MS / 1000), self.last_body.as_str());
            return RunStep::Finished(Err(e));
        }
        let xml = match &self.job {
            Some(job) => soap::get_job_info_xml(job.job_id.as_str()),
            None => soap::get_job_info_xml(""),
        };
        self.stage = Stage::SoapJobInfo;
        RunStep::Act(ScanAction::Send(soap_post(self.url.as_str(), xml, SOAP_JOBINFO_TIMEOUT_MS)))
    }

    fn on_job_info(&mut self, reply: Result<HttpResponse>, now_ms: u64) -> (r: RunStep)
        ensures
            final(self).req == old(self).req,
            run_ok(r, old(self).req),
            frame(*old(self), *final(self)),
            run_sends(r, *final(self)),
    {
        match reply_text(reply) {
            Ok(body) => {
                if let Some(fault) = soap::soap_fault(body.as_str()) {
                    return RunStep::Finished(Err(Error::Protocol(fault)));
                }
                let go = match soap::parse_job_info(body.as_str()) {
                    Ok(info) => info.image_ready() || info.finished(),
                    Err(_) => true,
                };
                self.last_body = body;
                if go {
                    return self.retrieve_send();
                }
                self.stage = Stage::SoapJobInfoSleep;
                RunStep::Act(ScanAction::Sleep(50))
            },
            Err(e) => RunStep::Finished(Err(e)),
        }
    }

    fn retrieve_send(&mut self) -> (r: RunStep)
        ensures
            final(self).req == old(self).req,
            run_ok(r, old(self).req),
            frame(*old(self), *final(self)),
            run_sends(r, *final(self)),
            final(self).stage is SoapRetrieve,
            final(self).pages == old(self).pages,
            r matches RunStep::Act(ScanAction::Send(_)),
    {
        let xml = match &self.job {
            Some(job) => soap::retrieve_image_xml(job.job_id.as_str(), job.job_token.as_str()),
            None => soap::retrieve_image_xml("", ""),
        };
        self.stage = Stage::SoapRetrieve;
        RunStep::Act(ScanAction::Send(soap_post(self.url.as_str(), xml, SOAP_RETRIEVE_TIMEOUT_MS)))
    }

    #[verifier::spinoff_prover]
    fn on_retrieve(&mut self, reply: Result<HttpResponse>) -> (r: RunStep)
        ensures
            final(self).req == old(self).req,
            run_ok(r, old(self).req),
            frame(*old(self), *final(self)),
            run_sends(r, *final(self)),
            match reply {
                Err(e) => if old(self).pages@.len() > 0 {
                    &&& r matches RunStep::Act(ScanAction::Send(_))
                    &&& final(self).stage is SoapCancel
                    &&& final(self).pages == old(self).pages
                } else {
                    retrieve_failed(e, r)
                },
                Ok(resp) => spec_is_jpeg(resp.body@) && old(self).req.color != ColorMode::Lineart
                    ==> page_kept(old(self).pages@, final(self).pages@, resp.body@, old(self).req, r, final(self).stage),
            },
    {
        let got = match reply {
            Ok(resp) => retrieved_payload(resp),
            Err(e) => Err(e),
        };
        match got {
            Ok(bytes) => {
                match normalize_image(bytes, self.req.color) {
                    Ok(page) => {
                        let ghost before = self.pages@;
                        self.pages.push(page);
                        assert(self.pages@.take(before.len() as int) =~= before);
                    },
                    Err(e) => {
                        return RunStep::Finished(Err(e));
                    },
                }
                if self.req.source == ScanSource::Platen || self.pages.len() >= MAX_ADF_PAGES {
                    return self.end_retrieve();
                }
                self.retrieve_send()
            },
            Err(Error::Protocol(msg)) => {
                if soap::is_no_images_fault(msg.as_str()) || self.pages.len() > 0 {
                    self.end_retrieve()
                } else {
                    RunStep::Finished(Err(Error::Protocol(msg)))
                }
            },
            Err(Error::Http { status, url, detail }) => {
                if soap::is_no_images_fault(detail.as_str()) || self.pages.len() > 0 {
                    self.end_retrieve()
                } else {
                    RunStep::Finished(Err(Error::Http { status, url, detail }))
                }
            },
            Err(e) => {
                if self.pages.len() > 0 {
                    self.end_retrieve()
                } else {
                    RunStep::Finished(Err(e))
                }
            },
        }
    }

    fn end_retrieve(&mut self) -> (r: RunStep)
        ensures
            final(self).req == old(self).req,
            run_ok(r, old(self).req),
            frame(*old(self), *final(self)),
            run_sends(r, *final(self)),
            old(self).pages@.len() > 0 ==> (r matches RunStep::Act(ScanAction::Send(_))
                && final(self).stage is SoapCancel && final(self).pages == old(self).pages),
            old(self).pages@.len() == 0 ==> (r matches RunStep::Finished(Err(e)) && e matches Error::Protocol(m)
                && m@ == "RetrieveImage returned no image data"@),
    {
        if self.pages.len() == 0 {
            // Eligible for the WSD fallback (ADF included); an empty feeder
            // is only reported after WSD also produced no pixels.
            return RunStep::Finished(Err(Error::Protocol(String::from_str("RetrieveImage returned no image data"))));
        }
        let xml = match &self.job {
            Some(job) => soap::cancel_job_xml(job.job_id.as_str()),
            None => soap::cancel_job_xml(""),
        };
        self.stage = Stage::SoapCancel;
        RunStep::Act(ScanAction::Send(soap_post(self.url.as_str(), xml, 3000)))
    }

    // ---- WSD ----
    fn start_wsd(&mut self, port: u16) -> (r: RunStep)
        ensures
            final(self).req == old(self).req,
            run_ok(r, old(self).req),
            run_sends(r, *final(self)),
            final(self).host == old(self).host,
            final(self).job_protocol == old(self).job_protocol,
            final(self).stage is WsdCreate,
            final(self).port == port,
            final(self).plan == old(self).plan,
            final(self).req == old(self).req,
            r matches RunStep::Act(ScanAction::Send(h)) && spec_first_request(
                h,
                old(self).host@,
                JobProtocol::Wsd { port },
                old(self).req,
                0,
            ),
    {
        self.port = port;
        self.url = wsd::scanner_url(self.host.as_str(), port);
        let xml = wsd::create_scan_job_xml(self.url.as_str(), &self.req);
        self.stage = Stage::WsdCreate;
        RunStep::Act(ScanAction::Send(wsd::request(self.url.as_str(), wsd::ACTION_CREATE, xml, WSD_CREATE_TIMEOUT_MS)))
    }

    fn send_wsd_retrieve(&mut self) -> (r: RunStep)
        ensures
            final(self).req == old(self).req,
            run_ok(r, old(self).req),
            frame(*old(self), *final(self)),
            run_sends(r, *final(self)),
            r matches RunStep::Act(ScanAction::Send(h)) && h.timeout_ms == Some(
                WSD_RETRIEVE_TIMEOUT_MS,
            ),
            final(self).stage is WsdRetrieve,
    {
        self.stage = Stage::WsdRetrieve;
        let xml = self.retrieve_xml.clone();
        RunStep::Act(ScanAction::Send(wsd::request(self.url.as_str(), wsd::ACTION_RETRIEVE, xml, WSD_RETRIEVE_TIMEOUT_MS)))
    }

    fn on_wsd_create(&mut self, reply: Result<HttpResponse>) -> (r: RunStep)
        ensures
            final(self).req == old(self).req,
            run_ok(r, old(self).req),
            frame(*old(self), *final(self)),
            run_sends(r, *final(self)),
            create_parses(reply) ==> (r matches RunStep::Act(ScanAction::Send(h)) && h.timeout_ms
                == Some(WSD_RETRIEVE_TIMEOUT_MS) && final(self).stage is WsdRetrieve),
            !create_parses(reply) ==> r matches RunStep::Finished(Err(_)),
    {
        let created = match reply {
            Ok(resp) => {
                let text = resp.text();
                soap::parse_create_job(text.as_str())
            },
            Err(Error::Http { detail, .. }) => soap::parse_create_job(detail.as_str()),
            Err(e) => Err(e),
        };
        let job = match created {
            Ok(j) => j,
            Err(e) => {
                return RunStep::Finished(Err(e));
            },
        };
        self.retrieve_xml = wsd::retrieve_image_xml(self.url.as_str(), job.job_id.as_str(), job.job_token.as_str());
        self.attempt = 0;
        self.wsd_last = None;
        self.send_wsd_retrieve()
    }

    fn on_wsd_retrieve(&mut self, reply: Result<HttpResponse>) -> (r: RunStep)
        ensures
            final(self).req == old(self).req,
            run_ok(r, old(self).req),
            frame(*old(self), *final(self)),
            run_sends(r, *final(self)),
            reply matches Ok(resp) ==> (r matches RunStep::Finished(res) && wsd_page_result(
                resp.body@,
                old(self).req,
                res,
            )),
    {
        match reply {
            Ok(resp) => {
                let raw = match wsd::extract_image(resp.body.as_slice()) {
                    Ok(b) => b,
                    Err(e) => {
                        return RunStep::Finished(Err(e));
                    },
                };
                let ghost rawg = raw@;
                let jpeg = match normalize_image(raw, self.req.color) {
                    Ok(j) => j,
                    Err(e) => {
                        return RunStep::Finished(Err(e));
                    },
                };
                let ghost jg = jpeg@;
                assert(spec_normalize(rawg, self.req.color) is None ==> lineart_normalized(rawg, jg));
                let out = finalize(one_page(jpeg), &self.req);
                assert(finalized(jg, self.req, out));
                RunStep::Finished(out)
            },
            Err(Error::Http { detail, .. }) => {
                if soap::is_no_images_fault(detail.as_str()) && self.req.source == ScanSource::Adf {
                    return RunStep::Finished(Err(Error::AdfEmpty));
                }
                self.wsd_last = Some(detail);
                self.stage = Stage::WsdRetrieveSleep;
                RunStep::Act(ScanAction::Sleep(50))
            },
            Err(e) => RunStep::Finished(Err(e)),
        }
    }

    fn wsd_retry(&mut self) -> (r: RunStep)
        ensures
            final(self).req == old(self).req,
            run_ok(r, old(self).req),
            frame(*old(self), *final(self)),
            run_sends(r, *final(self)),
    {
        if self.attempt < 1 {
            self.attempt = self.attempt + 1;
            return self.send_wsd_retrieve();
        }
        let mut s = String::from_str("WSD RetrieveImage failed: ");
        match &self.wsd_last {
            Some(d) => s.append(d.as_str()),
            None => {},
        }
        RunStep::Finished(Err(Error::Protocol(s)))
    }

    // ---- native eSCL ----
    fn start_escl(&mut self, port: u16) -> (r: RunStep)
        ensures
            final(self).req == old(self).req,
            run_ok(r, old(self).req),
            run_sends(r, *final(self)),
            final(self).host == old(self).host,
            final(self).job_protocol == old(self).job_protocol,
            r matches RunStep::Act(ScanAction::Send(h)) && spec_first_request(
                h,
                old(self).host@,
                JobProtocol::Escl { port },
                old(self).req,
                0,
            ),
    {
        self.port = port;
        let url = http_url(self.host.as_str(), port, "/eSCL/ScanJobs");
        let xml = crate::escl::scan_settings_xml(&self.req);
        let mut body: Vec<u8> = Vec::new();
        body.extend_from_slice(xml.as_str().as_bytes());
        assert(body@ =~= encode_utf8(xml@));
        self.stage = Stage::EsclPost;
        RunStep::Act(ScanAction::Send(HttpRequest::post(url.as_str(), body, "text/xml").with_timeout(SOAP_FAST_TIMEOUT_MS)))
    }

    fn send_poll(&mut self) -> (r: RunStep)
        ensures
            final(self).req == old(self).req,
            run_ok(r, old(self).req),
            frame(*old(self), *final(self)),
            run_sends(r, *final(self)),
    {
        self.stage = Stage::EsclPoll;
        RunStep::Act(ScanAction::Send(HttpRequest::get(self.doc_url.as_str()).with_timeout(SOAP_FAST_TIMEOUT_MS)))
    }

    fn on_escl_post(&mut self, reply: Result<HttpResponse>) -> (r: RunStep)
        ensures
            final(self).req == old(self).req,
            run_ok(r, old(self).req),
            frame(*old(self), *final(self)),
            run_sends(r, *final(self)),
    {
        let resp = match reply {
            Ok(r) => r,
            Err(Error::Http { status, detail, .. }) => {
                let mut s = String::from_str("eSCL ScanJobs failed (");
                let n = decimal_string(status as u64);
                s.append(n.as_str());
                s.append("): ");
                s.append(detail.as_str());
                return RunStep::Finished(Err(Error::Protocol(s)));
            },
            Err(e) => {
                return RunStep::Finished(Err(e));
            },
        };
        let location = match resp.header("Location") {
            Some(l) => String::from_str(l),
            None => {
                return RunStep::Finished(Err(Error::Protocol(String::from_str("eSCL ScanJobs response missing Location"))));
            },
        };
        self.doc_url = doc_url_for(location.as_str());
        self.polls = 0;
        self.escl_last = None;
        self.send_poll()
    }

    fn on_escl_poll(&mut self, reply: Result<HttpResponse>) -> (r: RunStep)
        ensures
            final(self).req == old(self).req,
            run_ok(r, old(self).req),
            frame(*old(self), *final(self)),
            run_sends(r, *final(self)),
    {
        match reply {
            Ok(r) => {
                if r.is_success() && r.body.len() > 0 {
                    return RunStep::Finished(finalize(one_page(r.body), &self.req));
                }
                let mut s = String::from_str("HTTP ");
                let n = decimal_string(r.status as u64);
                s.append(n.as_str());
                self.escl_last = Some(s);
            },
            Err(e) => {
                self.escl_last = Some(e.describe());
            },
        }
        self.stage = Stage::EsclPollSleep;
        RunStep::Act(ScanAction::Sleep(200))
    }

    fn escl_repoll(&mut self) -> (r: RunStep)
        ensures
            final(self).req == old(self).req,
            run_ok(r, old(self).req),
            frame(*old(self), *final(self)),
            run_sends(r, *final(self)),
    {
        if self.polls < ESCL_POLLS - 1 {
            self.polls = self.polls + 1;
            return self.send_poll();
        }
        let mut s = String::from_str("eSCL NextDocument failed: ");
        match &self.escl_last {
            Some(d) => s.append(d.as_str()),
            None => s.append("no body"),
        }
        RunStep::Finished(Err(Error::Protocol(s)))
    }
}

} // verus!
