//! HP SOAP / WSD-like scan API used on TCP 8289 (`http://tempuri.org/wscn.xsd`).
//!
//! Live M177fw `GetScannerElements` succeeds and advertises JFIF + hpraw,
//! platen + ADF, RGB24 and GrayScale8. Job execution is CreateScanJobRequest
//! → GetJobInfo → RetrieveImageRequest (DIME).
use crate::error::{Error, Result};
use crate::model::{
    spec_color_soap_name, spec_region_or_full, spec_media_size, spec_scan_source,
    spec_source_soap_name, string_views, ColorMode, OutputFormat, ScanRegion, ScanRequest,
    ScanSource,
};
use crate::text::{
    ascii_lower, chars_eq_str, chars_of, decimal, decimal_string, lower_chars, lower_contains,
    parse_u32, parse_uint, replace_all, replace_chars, seq_contains, str_contains,
    string_from_chars, trim, trimmed_lower, xml_escape, xml_escaped,
};
use crate::xmldoc::{
    add_close, add_leaf, add_open, all_ascii, ascii, attrs_ok, blank, is_name, lacks,
    lemma_decimal_text, lemma_decimal_trim, lemma_name, lemma_not_contains, lemma_pieces_concat,
    lemma_pieces_picks_none, lemma_pieces_picks_one, lemma_plain_text, lemma_raw_doc_texts,
    lemma_trim_plain, name_char, piece_ok, piece_picks, pieces_chars, pieces_ok, pieces_picks,
    push_decl, push_text_elem, raw_doc_chars, raw_ok, Piece, TextElem,
};
use crate::xmlutil::{first_in, first_text, opt_view, texts_in, texts_named};
use vstd::prelude::*;

verus! {

pub const SOAP_CONTENT_TYPE: &'static str = "text/xml; charset=utf-8";

pub const WSCN_NS: &'static str = "http://tempuri.org/wscn.xsd";

/// The XML declaration of every request.
pub const ENVELOPE_DECL: &'static str = "xml version=\"1.0\" encoding=\"utf-8\"";

/// The namespace attributes of every request's `SOAP-ENV:Envelope`.
pub const ENVELOPE_ATTRS: &'static str = " xmlns:xsd=\"http://www.w3.org/2001/XMLSchema\" xmlns:xsi=\"http://www.w3.org/2001/XMLSchema-instance\" xmlns:SOAP-ENC=\"http://www.w3.org/2003/05/soap-encoding\" SOAP-ENV:encodingStyle=\"http://www.w3.org/2003/05/soap-encoding\" xmlns:SOAP-ENV=\"http://www.w3.org/2003/05/soap-envelope\" xmlns:wscn=\"http://tempuri.org/wscn.xsd\"";

/// The start of a typed element's attributes, up to the type name.
pub const XSI_TYPE: &'static str = " xsi:type=\"";

/// The start of a typed element's attributes in the `wscn` namespace, up to
/// the type name.
pub const WSCN_TYPE: &'static str = " xmlns=\"http://tempuri.org/wscn.xsd\" xsi:type=\"";

pub const GET_ELEMENTS_BODY: &'static str = "<GetScannerElements xmlns=\"http://tempuri.org/wscn.xsd\"/>";

pub const INFO_OPEN: &'static str = "<wscn:GetJobInfo>\n<JobId xsi:type=\"xsd:int\">";

pub const INFO_CLOSE: &'static str = "</JobId>\n</wscn:GetJobInfo>";

pub const RETRIEVE_OPEN: &'static str = "<wscn:RetrieveImageRequest>\n<JobId xsi:type=\"xsd:int\">";

pub const RETRIEVE_AFTER_ID: &'static str = "</JobId>\n<JobToken xsi:type=\"xsd:string\">";

pub const RETRIEVE_CLOSE: &'static str = "</JobToken>\n</wscn:RetrieveImageRequest>";

pub const CANCEL_OPEN: &'static str = "<wscn:CancelJobRequest>\n<JobId xsi:type=\"xsd:int\">";

pub const CANCEL_CLOSE: &'static str = "</JobId>\n</wscn:CancelJobRequest>";

/// SOAP XML record placed in front of the JPEG inside a DIME body.
pub const RETRIEVE_STUB: &'static str = "<?xml version=\"1.0\" encoding=\"UTF-8\"?>\n<SOAP-ENV:Envelope xmlns:SOAP-ENV=\"http://www.w3.org/2003/05/soap-envelope\">\n<SOAP-ENV:Body><RetrieveImageRequestResponse><Response href=\"cid:image\"/></RetrieveImageRequestResponse></SOAP-ENV:Body>\n</SOAP-ENV:Envelope>";

/// The `GetScannerElements` request.
pub open spec fn spec_get_scanner_elements() -> Seq<char> {
    envelope_open() + GET_ELEMENTS_BODY@ + envelope_close()
}

pub fn get_scanner_elements_xml() -> (r: String)
    ensures
        r@ == spec_get_scanner_elements(),
{
    let mut s = String::new();
    push_envelope_open(&mut s);
    s.append(GET_ELEMENTS_BODY);
    push_envelope_close(&mut s);
    s
}

/// The `GetScannerElements` POST to `http://host:port/`, with a time limit.
pub fn elements_request(host: &str, port: u16, timeout_ms: u64) -> (r: crate::transport::HttpRequest)
    ensures
        r.method == crate::transport::Method::Post,
        r.url@ == crate::model::http_origin(host@, port as nat) + "/"@,
        r.body@ == vstd::utf8::encode_utf8(spec_get_scanner_elements()),
        crate::transport::header_views(r.headers@) == seq![("Content-Type"@, SOAP_CONTENT_TYPE@)],
        r.timeout_ms == Some(timeout_ms),
{
    let url = crate::model::http_url(host, port, "/");
    let xml = get_scanner_elements_xml();
    let mut body: Vec<u8> = Vec::new();
    body.extend_from_slice(xml.as_str().as_bytes());
    crate::transport::HttpRequest::post(url.as_str(), body, SOAP_CONTENT_TYPE).with_timeout(timeout_ms)
}

/// `ImagesToTransfer`: one page from the platen, "until empty" (0) from the ADF.
pub open spec fn images_to_transfer(source: ScanSource) -> nat {
    match source {
        ScanSource::Platen => 1,
        ScanSource::Adf => 0,
    }
}

/// A line break, the white space before each element of a ticket.
pub open spec fn nl() -> Seq<char> {
    seq!['\n']
}

/// Attributes `head` followed by the type name `t` and a closing quote.
pub open spec fn typed(head: Seq<char>, t: Seq<char>) -> Seq<char> {
    head + t + seq!['"']
}

/// The envelope's opening tags: `SOAP-ENV:Envelope` on a new line, then
/// `SOAP-ENV:Body`.
pub open spec fn envelope_pieces() -> Seq<Piece> {
    seq![
        Piece::Open { ws: nl(), prefix: "SOAP-ENV"@, local: "Envelope"@, attrs: ENVELOPE_ATTRS@ },
        Piece::Open { ws: Seq::empty(), prefix: "SOAP-ENV"@, local: "Body"@, attrs: Seq::empty() },
    ]
}

/// The envelope's closing tags.
pub open spec fn envelope_closes() -> Seq<Piece> {
    seq![
        Piece::Close { ws: Seq::empty(), prefix: "SOAP-ENV"@, local: "Body"@ },
        Piece::Close { ws: Seq::empty(), prefix: "SOAP-ENV"@, local: "Envelope"@ },
    ]
}

/// Opening of every request envelope, up to and including `<SOAP-ENV:Body>`.
pub open spec fn envelope_open() -> Seq<char> {
    (seq!['<', '?'] + ENVELOPE_DECL@ + seq!['?', '>']) + pieces_chars(envelope_pieces())
}

/// Closing of every request envelope.
pub open spec fn envelope_close() -> Seq<char> {
    pieces_chars(envelope_closes())
}

/// An opening tag in the `wscn` namespace, typed `t`, on a new line.
pub open spec fn wscn_open(l: Seq<char>, t: Seq<char>) -> Piece {
    Piece::Open { ws: nl(), prefix: Seq::empty(), local: l, attrs: typed(WSCN_TYPE@, t) }
}

/// A closing tag on a new line.
pub open spec fn line_close(l: Seq<char>) -> Piece {
    Piece::Close { ws: nl(), prefix: Seq::empty(), local: l }
}

/// An element typed `t` holding `text`, on a new line.
pub open spec fn typed_leaf(l: Seq<char>, t: Seq<char>, text: Seq<char>) -> Piece {
    Piece::Leaf(
        TextElem { ws: nl(), prefix: Seq::empty(), local: l, attrs: typed(XSI_TYPE@, t), text },
    )
}

/// The ticket's opening: the envelope, then `wscn:CreateScanJobRequest`.
pub open spec fn ticket_pre() -> Seq<Piece> {
    envelope_pieces().push(
        Piece::Open {
            ws: Seq::empty(),
            prefix: "wscn"@,
            local: "CreateScanJobRequest"@,
            attrs: Seq::empty(),
        },
    )
}

/// The `ScanIdentifier` element: the client's id, escaped.
pub open spec fn scan_id_elem(scan_id: Seq<char>) -> TextElem {
    TextElem {
        ws: nl(),
        prefix: Seq::empty(),
        local: "ScanIdentifier"@,
        attrs: typed(XSI_TYPE@, "xsd:string"@),
        text: xml_escaped(scan_id, true),
    }
}

/// The job description and the document parameters up to the input source.
pub open spec fn ticket_head(req: ScanRequest) -> Seq<Piece> {
    seq![
        wscn_open("ScanTicket"@, "ScanTicketType"@),
        wscn_open("JobDescription"@, "JobDescriptionType"@),
        typed_leaf("JobOriginatingUserName"@, "xsd:string"@, "hp-m177"@),
        typed_leaf("JobName"@, "xsd:string"@, "hp-m177-scan"@),
        line_close("JobDescription"@),
        wscn_open("DocumentParameters"@, "DocumentParametersType"@),
        Piece::Leaf(
            TextElem {
                ws: nl(),
                prefix: Seq::empty(),
                local: "Format"@,
                attrs: typed(WSCN_TYPE@, "ScanDocumentFormat"@),
                text: "jfif"@,
            },
        ),
        typed_leaf("ImagesToTransfer"@, "xsd:int"@, decimal(images_to_transfer(req.source))),
        wscn_open("Exposure"@, "ScanExposureType"@),
        typed_leaf("AutoExposure"@, "xsd:boolean"@, "true"@),
        wscn_open("ExposureSettings"@, "ExposureSettingsOverrideType"@),
        typed_leaf("Contrast"@, "xsd:int"@, "0"@),
        line_close("ExposureSettings"@),
        line_close("Exposure"@),
        typed_leaf("ContentType"@, "ContentType"@, "Auto"@),
        typed_leaf("CompressionQualityFactor"@, "xsd:int"@, "0"@),
        typed_leaf("InputSource"@, "ScanInputSource"@, spec_source_soap_name(req.source)),
    ]
}

/// The input media size, in 1/1000 inch.
pub open spec fn ticket_media(req: ScanRequest) -> Seq<Piece> {
    let media = spec_media_size(req.source);
    seq![
        wscn_open("InputSize"@, "DocumentInputSizeType"@),
        wscn_open("InputMediaSize"@, "DimensionsType"@),
        typed_leaf("Width"@, "xsd:int"@, decimal(media.0 as nat)),
        typed_leaf("Height"@, "xsd:int"@, decimal(media.1 as nat)),
        line_close("InputMediaSize"@),
        line_close("InputSize"@),
    ]
}

/// Resolution, region (1/1000 inch), color, and the closing tags.
pub open spec fn ticket_tail(req: ScanRequest) -> Seq<Piece> {
    let region = spec_region_or_full(req);
    seq![
        wscn_open("MediaSides"@, "MediaSideOverrideType"@),
        wscn_open("MediaFront"@, "MediaSideOverrideType"@),
        wscn_open("Resolution"@, "MediaSideOverrideType"@),
        typed_leaf("Width"@, "xsd:int"@, decimal(req.dpi as nat)),
        typed_leaf("Height"@, "xsd:int"@, decimal(req.dpi as nat)),
        line_close("Resolution"@),
        wscn_open("ScanRegion"@, "ScanRegionType"@),
        typed_leaf("ScanRegionXOffset"@, "xsd:int"@, decimal(region.x as nat)),
        typed_leaf("ScanRegionYOffset"@, "xsd:int"@, decimal(region.y as nat)),
        typed_leaf("ScanRegionHeight"@, "xsd:int"@, decimal(region.height as nat)),
        typed_leaf("ScanRegionWidth"@, "xsd:int"@, decimal(region.width as nat)),
        line_close("ScanRegion"@),
        typed_leaf("ColorProcessing"@, "ColorEntryType"@, spec_color_soap_name(req.color)),
        line_close("MediaFront"@),
        line_close("MediaSides"@),
        line_close("DocumentParameters"@),
        typed_leaf("RetrieveImageTimeout"@, "xsd:int"@, "1800"@),
        line_close("ScanTicket"@),
        Piece::Close { ws: nl(), prefix: "wscn"@, local: "CreateScanJobRequest"@ },
    ]
}

/// Everything after the `ScanIdentifier`.
pub open spec fn ticket_post(req: ScanRequest) -> Seq<Piece> {
    ticket_head(req) + ticket_media(req) + ticket_tail(req) + envelope_closes()
}

/// The `CreateScanJobRequest` envelope for `req`, with the escaped `scan_id`.
/// Media size and region are in 1/1000 inch.
pub open spec fn spec_create_scan_job(req: ScanRequest, scan_id: Seq<char>) -> Seq<char> {
    raw_doc_chars(ENVELOPE_DECL@, ticket_pre(), scan_id_elem(scan_id), ticket_post(req))
}

fn push_envelope_open(s: &mut String)
    ensures
        final(s)@ == old(s)@ + envelope_open(),
{
    push_decl(s, ENVELOPE_DECL);
    let mut t = String::new();
    let g = add_open(&mut t, Ghost(Seq::empty()), "\n", "SOAP-ENV", "Envelope", ENVELOPE_ATTRS);
    let g = add_open(&mut t, g, "", "SOAP-ENV", "Body", "");
    proof {
        reveal_strlit("\n");
        reveal_strlit("");
        assert("\n"@ =~= nl());
        assert(""@ =~= Seq::<char>::empty());
    }
    assert(g@ =~= envelope_pieces());
    s.append(t.as_str());
    assert(final(s)@ =~= old(s)@ + envelope_open());
}

fn push_envelope_close(s: &mut String)
    ensures
        final(s)@ == old(s)@ + envelope_close(),
{
    let mut t = String::new();
    let g = add_close(&mut t, Ghost(Seq::empty()), "", "SOAP-ENV", "Body");
    let g = add_close(&mut t, g, "", "SOAP-ENV", "Envelope");
    proof {
        reveal_strlit("");
        assert(""@ =~= Seq::<char>::empty());
    }
    assert(g@ =~= envelope_closes());
    s.append(t.as_str());
}

fn typed_attrs(head: &str, t: &str) -> (r: String)
    ensures
        r@ == typed(head@, t@),
{
    let mut s = String::new();
    s.append(head);
    s.append(t);
    s.append("\"");
    proof {
        reveal_strlit("\"");
    }
    assert(s@ =~= typed(head@, t@));
    s
}

fn add_wscn_open(s: &mut String, g: Ghost<Seq<Piece>>, l: &str, t: &str) -> (r: Ghost<Seq<Piece>>)
    requires
        old(s)@ == pieces_chars(g@),
    ensures
        r@ == g@.push(wscn_open(l@, t@)),
        final(s)@ == pieces_chars(r@),
{
    let a = typed_attrs(WSCN_TYPE, t);
    proof {
        reveal_strlit("\n");
        reveal_strlit("");
        assert("\n"@ =~= nl());
        assert(""@ =~= Seq::<char>::empty());
    }
    add_open(s, g, "\n", "", l, a.as_str())
}

fn add_line_close(s: &mut String, g: Ghost<Seq<Piece>>, l: &str) -> (r: Ghost<Seq<Piece>>)
    requires
        old(s)@ == pieces_chars(g@),
    ensures
        r@ == g@.push(line_close(l@)),
        final(s)@ == pieces_chars(r@),
{
    proof {
        reveal_strlit("\n");
        reveal_strlit("");
        assert("\n"@ =~= nl());
        assert(""@ =~= Seq::<char>::empty());
    }
    add_close(s, g, "\n", "", l)
}

fn add_typed_leaf(s: &mut String, g: Ghost<Seq<Piece>>, l: &str, t: &str, text: &str) -> (r: Ghost<
    Seq<Piece>,
>)
    requires
        old(s)@ == pieces_chars(g@),
    ensures
        r@ == g@.push(typed_leaf(l@, t@, text@)),
        final(s)@ == pieces_chars(r@),
{
    let a = typed_attrs(XSI_TYPE, t);
    proof {
        reveal_strlit("\n");
        reveal_strlit("");
        assert("\n"@ =~= nl());
        assert(""@ =~= Seq::<char>::empty());
    }
    add_leaf(s, g, "\n", "", l, a.as_str(), text)
}

#[verifier::spinoff_prover]
pub fn create_scan_job_xml(req: &ScanRequest, scan_id: &str) -> (r: String)
    ensures
        r@ == spec_create_scan_job(*req, scan_id@),
{
    let source = req.source.soap_name();
    let color = req.color.soap_name();
    let (media_w, media_h) = req.media_size();
    let region = req.region_or_full();
    let images: u64 = match req.source {
        ScanSource::Platen => 1,
        ScanSource::Adf => 0,
    };
    let images_s = decimal_string(images);
    let mw = decimal_string(media_w as u64);
    let mh = decimal_string(media_h as u64);
    let dpi = decimal_string(req.dpi as u64);
    let rx = decimal_string(region.x as u64);
    let ry = decimal_string(region.y as u64);
    let rh = decimal_string(region.height as u64);
    let rw = decimal_string(region.width as u64);
    let id = xml_escape(scan_id, true);
    let mut pre = String::new();
    let g0 = add_open(&mut pre, Ghost(Seq::empty()), "\n", "SOAP-ENV", "Envelope", ENVELOPE_ATTRS);
    let g0 = add_open(&mut pre, g0, "", "SOAP-ENV", "Body", "");
    let g0 = add_open(&mut pre, g0, "", "wscn", "CreateScanJobRequest", "");
    let mut b = String::new();
    let g = Ghost(Seq::empty());
    let g = add_wscn_open(&mut b, g, "ScanTicket", "ScanTicketType");
    let g = add_wscn_open(&mut b, g, "JobDescription", "JobDescriptionType");
    let g = add_typed_leaf(&mut b, g, "JobOriginatingUserName", "xsd:string", "hp-m177");
    let g = add_typed_leaf(&mut b, g, "JobName", "xsd:string", "hp-m177-scan");
    let g = add_line_close(&mut b, g, "JobDescription");
    let g = add_wscn_open(&mut b, g, "DocumentParameters", "DocumentParametersType");
    let fa = typed_attrs(WSCN_TYPE, "ScanDocumentFormat");
    let g = add_leaf(&mut b, g, "\n", "", "Format", fa.as_str(), "jfif");
    let g = add_typed_leaf(&mut b, g, "ImagesToTransfer", "xsd:int", images_s.as_str());
    let g = add_wscn_open(&mut b, g, "Exposure", "ScanExposureType");
    let g = add_typed_leaf(&mut b, g, "AutoExposure", "xsd:boolean", "true");
    let g = add_wscn_open(&mut b, g, "ExposureSettings", "ExposureSettingsOverrideType");
    let g = add_typed_leaf(&mut b, g, "Contrast", "xsd:int", "0");
    let g = add_line_close(&mut b, g, "ExposureSettings");
    let g = add_line_close(&mut b, g, "Exposure");
    let g = add_typed_leaf(&mut b, g, "ContentType", "ContentType", "Auto");
    let g = add_typed_leaf(&mut b, g, "CompressionQualityFactor", "xsd:int", "0");
    let g = add_typed_leaf(&mut b, g, "InputSource", "ScanInputSource", source);
    let g = add_wscn_open(&mut b, g, "InputSize", "DocumentInputSizeType");
    let g = add_wscn_open(&mut b, g, "InputMediaSize", "DimensionsType");
    let g = add_typed_leaf(&mut b, g, "Width", "xsd:int", mw.as_str());
    let g = add_typed_leaf(&mut b, g, "Height", "xsd:int", mh.as_str());
    let g = add_line_close(&mut b, g, "InputMediaSize");
    let g = add_line_close(&mut b, g, "InputSize");
    let g = add_wscn_open(&mut b, g, "MediaSides", "MediaSideOverrideType");
    let g = add_wscn_open(&mut b, g, "MediaFront", "MediaSideOverrideType");
    let g = add_wscn_open(&mut b, g, "Resolution", "MediaSideOverrideType");
    let g = add_typed_leaf(&mut b, g, "Width", "xsd:int", dpi.as_str());
    let g = add_typed_leaf(&mut b, g, "Height", "xsd:int", dpi.as_str());
    let g = add_line_close(&mut b, g, "Resolution");
    let g = add_wscn_open(&mut b, g, "ScanRegion", "ScanRegionType");
    let g = add_typed_leaf(&mut b, g, "ScanRegionXOffset", "xsd:int", rx.as_str());
    let g = add_typed_leaf(&mut b, g, "ScanRegionYOffset", "xsd:int", ry.as_str());
    let g = add_typed_leaf(&mut b, g, "ScanRegionHeight", "xsd:int", rh.as_str());
    let g = add_typed_leaf(&mut b, g, "ScanRegionWidth", "xsd:int", rw.as_str());
    let g = add_line_close(&mut b, g, "ScanRegion");
    let g = add_typed_leaf(&mut b, g, "ColorProcessing", "ColorEntryType", color);
    let g = add_line_close(&mut b, g, "MediaFront");
    let g = add_line_close(&mut b, g, "MediaSides");
    let g = add_line_close(&mut b, g, "DocumentParameters");
    let g = add_typed_leaf(&mut b, g, "RetrieveImageTimeout", "xsd:int", "1800");
    let g = add_line_close(&mut b, g, "ScanTicket");
    let g = add_close(&mut b, g, "\n", "wscn", "CreateScanJobRequest");
    let g = add_close(&mut b, g, "", "SOAP-ENV", "Body");
    let g = add_close(&mut b, g, "", "SOAP-ENV", "Envelope");
    let sid = typed_attrs(XSI_TYPE, "xsd:string");
    let mut s = String::new();
    push_decl(&mut s, ENVELOPE_DECL);
    s.append(pre.as_str());
    push_text_elem(&mut s, "\n", "", "ScanIdentifier", sid.as_str(), id.as_str());
    s.append(b.as_str());
    proof {
        reveal_strlit("\n");
        reveal_strlit("");
        assert("\n"@ =~= nl());
        assert(""@ =~= Seq::<char>::empty());
        assert(g0@ =~= ticket_pre());
        assert(g@ =~= ticket_post(*req));
    }
    assert(s@ =~= spec_create_scan_job(*req, scan_id@));
    s
}

/// Same ticket, operation name without the WSD `Request` suffix. Some gSOAP
/// bindings (this firmware's GetScannerElements) use the short name.
pub fn create_scan_job_short_xml(req: &ScanRequest, scan_id: &str) -> (r: String)
    ensures
        r@ == replace_all(
            spec_create_scan_job(*req, scan_id@),
            "CreateScanJobRequest"@,
            "CreateScanJob"@,
        ),
{
    let full = create_scan_job_xml(req, scan_id);
    let c = chars_of(full.as_str());
    let pat = chars_of("CreateScanJobRequest");
    let rep = chars_of("CreateScanJob");
    let out = replace_chars(c.as_slice(), pat.as_slice(), rep.as_slice());
    string_from_chars(out.as_slice())
}

pub open spec fn spec_get_job_info(job_id: Seq<char>) -> Seq<char> {
    envelope_open() + INFO_OPEN@ + xml_escaped(job_id, true) + INFO_CLOSE@ + envelope_close()
}

pub fn get_job_info_xml(job_id: &str) -> (r: String)
    ensures
        r@ == spec_get_job_info(job_id@),
{
    let id = xml_escape(job_id, true);
    let mut s = String::new();
    push_envelope_open(&mut s);
    s.append(INFO_OPEN);
    s.append(id.as_str());
    s.append(INFO_CLOSE);
    push_envelope_close(&mut s);
    s
}

pub open spec fn spec_retrieve_image(job_id: Seq<char>, job_token: Seq<char>) -> Seq<char> {
    envelope_open() + RETRIEVE_OPEN@ + xml_escaped(job_id, true) + RETRIEVE_AFTER_ID@
        + xml_escaped(job_token, true) + RETRIEVE_CLOSE@ + envelope_close()
}

pub fn retrieve_image_xml(job_id: &str, job_token: &str) -> (r: String)
    ensures
        r@ == spec_retrieve_image(job_id@, job_token@),
{
    let id = xml_escape(job_id, true);
    let token = xml_escape(job_token, true);
    let mut s = String::new();
    push_envelope_open(&mut s);
    s.append(RETRIEVE_OPEN);
    s.append(id.as_str());
    s.append(RETRIEVE_AFTER_ID);
    s.append(token.as_str());
    s.append(RETRIEVE_CLOSE);
    push_envelope_close(&mut s);
    s
}

pub open spec fn spec_cancel_job(job_id: Seq<char>) -> Seq<char> {
    envelope_open() + CANCEL_OPEN@ + xml_escaped(job_id, true) + CANCEL_CLOSE@ + envelope_close()
}

pub fn cancel_job_xml(job_id: &str) -> (r: String)
    ensures
        r@ == spec_cancel_job(job_id@),
{
    let id = xml_escape(job_id, true);
    let mut s = String::new();
    push_envelope_open(&mut s);
    s.append(CANCEL_OPEN);
    s.append(id.as_str());
    s.append(CANCEL_CLOSE);
    push_envelope_close(&mut s);
    s
}

#[derive(Debug, Clone, PartialEq, Eq)]
pub struct CreatedJob {
    pub job_id: String,
    pub job_token: String,
}

/// The text of `first_in`, or `default` when there is none.
pub open spec fn first_or(x: Seq<char>, name: Seq<char>, default: Seq<char>) -> Seq<char> {
    match first_in(x, name) {
        Some(t) => t,
        None => default,
    }
}

/// One of the fault sub-codes that are worth reporting.
pub open spec fn telling_code(v: Seq<char>) -> bool {
    seq_contains(v, "Error"@) || seq_contains(v, "Client"@) || seq_contains(v, "Server"@)
}

/// The human-readable reason of a fault: `Text`, else `Reason`, else `faultstring`.
pub open spec fn fault_reason(x: Seq<char>) -> Option<Seq<char>> {
    match first_in(x, "Text"@) {
        Some(t) => Some(t),
        None => match first_in(x, "Reason"@) {
            Some(t) => Some(t),
            None => first_in(x, "faultstring"@),
        },
    }
}

/// The first `Value`, when it is a telling sub-code.
pub open spec fn fault_code(x: Seq<char>) -> Option<Seq<char>> {
    match first_in(x, "Value"@) {
        Some(v) => if telling_code(v) {
            Some(v)
        } else {
            None
        },
        None => None,
    }
}

/// The fault text of a SOAP response: `code: reason`, either alone, or none.
pub open spec fn spec_soap_fault(x: Seq<char>) -> Option<Seq<char>> {
    if !seq_contains(x, "Fault"@) {
        None
    } else {
        match (fault_code(x), fault_reason(x)) {
            (Some(s), Some(r)) => Some(s + ": "@ + r),
            (Some(s), None) => Some(s),
            (None, Some(r)) => Some(r),
            (None, None) => None,
        }
    }
}

pub fn soap_fault(xml: &str) -> (r: Option<String>)
    ensures
        opt_view(r) == spec_soap_fault(xml@),
{
    if !str_contains(xml, "Fault") {
        return None;
    }
    let reason = match first_text(xml, "Text") {
        Some(t) => Some(t),
        None => match first_text(xml, "Reason") {
            Some(t) => Some(t),
            None => first_text(xml, "faultstring"),
        },
    };
    let sub = match first_text(xml, "Value") {
        Some(v) => {
            let vs = v.as_str();
            if str_contains(vs, "Error") || str_contains(vs, "Client") || str_contains(
                vs,
                "Server",
            ) {
                Some(v)
            } else {
                None
            }
        },
        None => None,
    };
    match (sub, reason) {
        (Some(s), Some(r)) => {
            let mut out = String::new();
            out.append(s.as_str());
            out.append(": ");
            out.append(r.as_str());
            Some(out)
        },
        (Some(s), None) => Some(s),
        (None, Some(r)) => Some(r),
        (None, None) => None,
    }
}

/// What `parse_create_job` reports: the fault, a missing id, or (id, token).
pub open spec fn spec_parse_create_job(x: Seq<char>) -> core::result::Result<
    (Seq<char>, Seq<char>),
    Seq<char>,
> {
    match spec_soap_fault(x) {
        Some(f) => Err(f),
        None => match first_in(x, "JobId"@) {
            None => Err("CreateScanJob response missing JobId"@),
            Some(id) => Ok((id, first_or(x, "JobToken"@, Seq::<char>::empty()))),
        },
    }
}

pub fn parse_create_job(xml: &str) -> (r: Result<CreatedJob>)
    ensures
        r matches Ok(j) ==> spec_parse_create_job(xml@) == Ok::<(Seq<char>, Seq<char>), Seq<char>>((j.job_id@, j.job_token@)),
        r matches Err(e) ==> e matches Error::Protocol(m) && spec_parse_create_job(xml@) == Err::<(Seq<char>, Seq<char>), Seq<char>>(m@),
{
    if let Some(fault) = soap_fault(xml) {
        return Err(Error::protocol(fault));
    }
    let job_id = match first_text(xml, "JobId") {
        Some(t) => t,
        None => {
            return Err(Error::protocol(String::from_str("CreateScanJob response missing JobId")));
        },
    };
    let job_token = match first_text(xml, "JobToken") {
        Some(t) => t,
        None => String::new(),
    };
    Ok(CreatedJob { job_id, job_token })
}

#[derive(Debug, Clone, PartialEq, Eq)]
pub struct JobInfo {
    pub job_id: String,
    pub state: String,
    pub scans_completed: u32,
}

/// A state from which an image can be fetched.
pub open spec fn spec_image_ready(state: Seq<char>, scans_completed: u32) -> bool {
    let s = ascii_lower(state);
    s == "processing"@ || s == "completed"@ || scans_completed > 0
}

/// A terminal job state.
pub open spec fn spec_finished(state: Seq<char>) -> bool {
    let s = ascii_lower(state);
    s == "completed"@ || s == "canceled"@ || s == "cancelled"@ || s == "aborted"@ || s
        == "terminated"@
}

impl JobInfo {
    pub fn image_ready(&self) -> (r: bool)
        ensures
            r == spec_image_ready(self.state@, self.scans_completed),
    {
        let c = chars_of(self.state.as_str());
        let s = lower_chars(c.as_slice());
        chars_eq_str(s.as_slice(), "processing") || chars_eq_str(s.as_slice(), "completed")
            || self.scans_completed > 0
    }

    pub fn finished(&self) -> (r: bool)
        ensures
            r == spec_finished(self.state@),
    {
        let c = chars_of(self.state.as_str());
        let s = lower_chars(c.as_slice());
        chars_eq_str(s.as_slice(), "completed") || chars_eq_str(s.as_slice(), "canceled")
            || chars_eq_str(s.as_slice(), "cancelled") || chars_eq_str(s.as_slice(), "aborted")
            || chars_eq_str(s.as_slice(), "terminated")
    }
}

/// `u32::MAX` as a number.
pub open spec fn u32_max() -> nat {
    0xffff_ffff
}

/// The `u32` written in the first `name`, if it parses.
pub open spec fn first_u32(x: Seq<char>, name: Seq<char>) -> Option<nat> {
    match first_in(x, name) {
        Some(t) => parse_uint(t, u32_max()),
        None => None,
    }
}

fn first_u32_exec(xml: &str, name: &str) -> (r: Option<u32>)
    ensures
        r matches Some(v) ==> first_u32(xml@, name@) == Some(v as nat),
        r is None ==> first_u32(xml@, name@) is None,
{
    match first_text(xml, name) {
        Some(t) => parse_u32(t.as_str()),
        None => None,
    }
}

pub fn parse_job_info(xml: &str) -> (r: Result<JobInfo>)
    ensures
        r is Ok <==> spec_soap_fault(xml@) is None,
        r matches Ok(j) ==> j.job_id@ == first_or(xml@, "JobId"@, Seq::<char>::empty())
            && j.state@ == first_or(xml@, "JobState"@, "Unknown"@) && j.scans_completed as nat
            == match first_u32(xml@, "ScansCompleted"@) {
            Some(v) => v,
            None => 0,
        },
        r matches Err(e) ==> e matches Error::Protocol(m) && spec_soap_fault(xml@) == Some(m@),
{
    if let Some(fault) = soap_fault(xml) {
        return Err(Error::protocol(fault));
    }
    let job_id = match first_text(xml, "JobId") {
        Some(t) => t,
        None => String::new(),
    };
    let state = match first_text(xml, "JobState") {
        Some(t) => t,
        None => String::from_str("Unknown"),
    };
    let scans_completed = match first_u32_exec(xml, "ScansCompleted") {
        Some(v) => v,
        None => 0,
    };
    Ok(JobInfo { job_id, state, scans_completed })
}

/// `true`, `1` or `yes`, ignoring case and surrounding white space.
pub open spec fn spec_is_true(s: Seq<char>) -> bool {
    let n = ascii_lower(trim(s));
    n == "true"@ || n == "1"@ || n == "yes"@
}

fn is_true(s: &str) -> (r: bool)
    ensures
        r == spec_is_true(s@),
{
    let n = trimmed_lower(s);
    chars_eq_str(n.as_slice(), "true") || chars_eq_str(n.as_slice(), "1") || chars_eq_str(
        n.as_slice(),
        "yes",
    )
}

/// A boolean element: its `spec_is_true` value, or `default` when absent.
pub open spec fn first_flag(x: Seq<char>, name: Seq<char>, default: bool) -> bool {
    match first_in(x, name) {
        Some(t) => spec_is_true(t),
        None => default,
    }
}

fn first_flag_exec(xml: &str, name: &str, default: bool) -> (r: bool)
    ensures
        r == first_flag(xml@, name@, default),
{
    match first_text(xml, name) {
        Some(t) => is_true(t.as_str()),
        None => default,
    }
}

/// A document format name the client can use.
pub open spec fn is_format_item(s: Seq<char>) -> bool {
    let n = ascii_lower(s);
    n == "jfif"@ || n == "hpraw"@ || n == "jpeg"@ || n == "pdf"@ || n == "exif"@
}

/// A color processing name.
pub open spec fn is_color_item(s: Seq<char>) -> bool {
    let n = ascii_lower(s);
    seq_contains(n, "rgb"@) || seq_contains(n, "gray"@) || seq_contains(n, "black"@)
        || seq_contains(n, "bw"@)
}

/// A format name (`colors == false`) or a color name (`colors == true`).
pub open spec fn item_wanted(s: Seq<char>, colors: bool) -> bool {
    if colors {
        is_color_item(s)
    } else {
        is_format_item(s)
    }
}

/// The items of `s` that `item_wanted` keeps, in order.
pub open spec fn select(s: Seq<Seq<char>>, colors: bool) -> Seq<Seq<char>>
    decreases s.len(),
{
    if s.len() == 0 {
        s
    } else if item_wanted(s.last(), colors) {
        select(s.drop_last(), colors).push(s.last())
    } else {
        select(s.drop_last(), colors)
    }
}

fn is_format_item_exec(s: &String) -> (r: bool)
    ensures
        r == is_format_item(s@),
{
    let c = chars_of(s.as_str());
    let n = lower_chars(c.as_slice());
    chars_eq_str(n.as_slice(), "jfif") || chars_eq_str(n.as_slice(), "hpraw") || chars_eq_str(
        n.as_slice(),
        "jpeg",
    ) || chars_eq_str(n.as_slice(), "pdf") || chars_eq_str(n.as_slice(), "exif")
}

fn is_color_item_exec(s: &String) -> (r: bool)
    ensures
        r == is_color_item(s@),
{
    let c = chars_of(s.as_str());
    lower_contains(c.as_slice(), "rgb") || lower_contains(c.as_slice(), "gray")
        || lower_contains(c.as_slice(), "black") || lower_contains(c.as_slice(), "bw")
}

/// The items that are format names (`colors == false`) or color names.
fn keep_items(items: &Vec<String>, colors: bool) -> (r: Vec<String>)
    ensures
        string_views(r@) == select(string_views(items@), colors),
{
    let mut out: Vec<String> = Vec::new();
    for k in 0..items.len()
        invariant
            string_views(out@) == select(string_views(items@).take(k as int), colors),
    {
        let ghost sv = string_views(items@);
        assert(sv.take(k + 1).drop_last() =~= sv.take(k as int));
        assert(sv.take(k + 1).last() == items@[k as int]@);
        let keep = if colors {
            is_color_item_exec(&items[k])
        } else {
            is_format_item_exec(&items[k])
        };
        if keep {
            let ghost before = string_views(out@);
            out.push(items[k].clone());
            assert(string_views(out@) =~= before.push(items@[k as int]@));
        }
    }
    assert(string_views(items@).take(items@.len() as int) =~= string_views(items@));
    out
}

/// The texts that parse as `u32`, in order.
pub open spec fn parsed_u32s(s: Seq<Seq<char>>) -> Seq<nat>
    decreases s.len(),
{
    if s.len() == 0 {
        Seq::<nat>::empty()
    } else {
        match parse_uint(s.last(), u32_max()) {
            Some(v) => parsed_u32s(s.drop_last()).push(v),
            None => parsed_u32s(s.drop_last()),
        }
    }
}

/// The views of a sequence of `u32`.
pub open spec fn nats_of(v: Seq<u32>) -> Seq<nat> {
    v.map_values(|x: u32| x as nat)
}

fn parse_all_u32(items: &Vec<String>) -> (r: Vec<u32>)
    ensures
        nats_of(r@) == parsed_u32s(string_views(items@)),
{
    let mut out: Vec<u32> = Vec::new();
    for k in 0..items.len()
        invariant
            nats_of(out@) == parsed_u32s(string_views(items@).take(k as int)),
    {
        let ghost sv = string_views(items@);
        assert(sv.take(k + 1).drop_last() =~= sv.take(k as int));
        assert(sv.take(k + 1).last() == items@[k as int]@);
        match parse_u32(items[k].as_str()) {
            Some(v) => {
                let ghost before = nats_of(out@);
                out.push(v);
                assert(nats_of(out@) =~= before.push(v as nat));
            },
            None => {},
        }
    }
    assert(string_views(items@).take(items@.len() as int) =~= string_views(items@));
    out
}

/// Element `i` of `v`, or `default`.
pub open spec fn nth_or(v: Seq<nat>, i: int, default: nat) -> nat {
    if 0 <= i < v.len() {
        v[i]
    } else {
        default
    }
}

/// `GetScannerElements` reduced to the capabilities the client needs.
/// Widths/heights come in the order platen min, platen max, optical, ADF
/// min, ADF max, optical.
pub open spec fn spec_capabilities_fields(x: Seq<char>, c: crate::model::SoapCapabilities) -> bool {
    let items = texts_in(x, "item"@);
    let widths = parsed_u32s(texts_in(x, "Width"@));
    let heights = parsed_u32s(texts_in(x, "Height"@));
    &&& string_views(c.formats@) == select(items, false)
    &&& string_views(c.colors@) == select(items, true)
    &&& c.platen == first_flag(x, "FlatbedSupported"@, true)
    &&& c.adf == first_flag(x, "ADFSupported"@, false)
    &&& c.adf_duplex == first_flag(x, "ADFSupportsDuplex"@, false)
    &&& c.state@ == first_or(x, "ScannerState"@, "Unknown"@)
    &&& c.paper_in_adf == first_flag(x, "PaperInADF"@, false)
    &&& c.platen_max.0 as nat == nth_or(widths, 1, 8500)
    &&& c.platen_max.1 as nat == nth_or(heights, 1, 11690)
    &&& c.adf_max.0 as nat == nth_or(widths, 4, nth_or(widths, 1, 8500))
    &&& c.adf_max.1 as nat == nth_or(heights, 4, nth_or(heights, 1, 14000))
    &&& c.platen_optical_dpi as nat == nth_or(widths, 2, 1200)
    &&& c.adf_optical_dpi as nat == nth_or(widths, 5, 300)
}

/// A document that is neither a `GetScannerElements` nor a configuration response.
pub open spec fn not_elements_response(x: Seq<char>) -> bool {
    !seq_contains(x, "ScanElements"@) && !seq_contains(x, "ScannerConfiguration"@)
}

fn nth_or_exec(v: &Vec<u32>, i: usize, default: u32) -> (r: u32)
    ensures
        r as nat == nth_or(nats_of(v@), i as int, default as nat),
{
    if i < v.len() {
        v[i]
    } else {
        default
    }
}

#[verifier::spinoff_prover]
pub fn parse_capabilities(xml: &str) -> (r: Result<crate::model::SoapCapabilities>)
    ensures
        r is Ok <==> spec_soap_fault(xml@) is None && !not_elements_response(xml@),
        r matches Ok(c) ==> spec_capabilities_fields(xml@, c),
        r matches Err(e) ==> e matches Error::Protocol(m) && m@ == match spec_soap_fault(xml@) {
            Some(f) => f,
            None => "SOAP body is not a GetScannerElements response"@,
        },
{
    if let Some(fault) = soap_fault(xml) {
        return Err(Error::protocol(fault));
    }
    if !str_contains(xml, "ScanElements") && !str_contains(xml, "ScannerConfiguration") {
        return Err(
            Error::protocol(String::from_str("SOAP body is not a GetScannerElements response")),
        );
    }
    let items = texts_named(xml, "item");
    let formats = keep_items(&items, false);
    let colors = keep_items(&items, true);
    let platen = first_flag_exec(xml, "FlatbedSupported", true);
    let adf = first_flag_exec(xml, "ADFSupported", false);
    let adf_duplex = first_flag_exec(xml, "ADFSupportsDuplex", false);
    let state = match first_text(xml, "ScannerState") {
        Some(t) => t,
        None => String::from_str("Unknown"),
    };
    let paper_in_adf = first_flag_exec(xml, "PaperInADF", false);
    let wt = texts_named(xml, "Width");
    let ht = texts_named(xml, "Height");
    let widths = parse_all_u32(&wt);
    let heights = parse_all_u32(&ht);
    let platen_max = (nth_or_exec(&widths, 1, 8500), nth_or_exec(&heights, 1, 11690));
    let w1 = nth_or_exec(&widths, 1, 8500);
    let h1 = nth_or_exec(&heights, 1, 14000);
    let adf_max = (nth_or_exec(&widths, 4, w1), nth_or_exec(&heights, 4, h1));
    let platen_optical_dpi = nth_or_exec(&widths, 2, 1200);
    let adf_optical_dpi = nth_or_exec(&widths, 5, 300);
    Ok(
        crate::model::SoapCapabilities {
            formats,
            colors,
            platen,
            adf,
            adf_duplex,
            state,
            paper_in_adf,
            platen_max,
            adf_max,
            platen_optical_dpi,
            adf_optical_dpi,
        },
    )
}

/// A fault that says the job has no (more) pages.
pub open spec fn spec_no_images_fault(err: Seq<char>) -> bool {
    let n = ascii_lower(err);
    seq_contains(n, "noimagesavailable"@) || seq_contains(n, "no images"@)
}

pub fn is_no_images_fault(err: &str) -> (r: bool)
    ensures
        r == spec_no_images_fault(err@),
{
    let c = chars_of(err);
    lower_contains(c.as_slice(), "noimagesavailable") || lower_contains(c.as_slice(), "no images")
}

/// A color name read as a color mode: gray, else black/bw/lineart, else color.
pub open spec fn color_from_name(raw: Seq<char>) -> ColorMode {
    let n = ascii_lower(raw);
    if seq_contains(n, "gray"@) {
        ColorMode::Gray
    } else if seq_contains(n, "black"@) || seq_contains(n, "bw"@) || seq_contains(
        n,
        "lineart"@,
    ) {
        ColorMode::Lineart
    } else {
        ColorMode::Color
    }
}

pub fn color_from_name_exec(raw: &str) -> (r: ColorMode)
    ensures
        r == color_from_name(raw@),
{
    let c = chars_of(raw);
    if lower_contains(c.as_slice(), "gray") {
        ColorMode::Gray
    } else if lower_contains(c.as_slice(), "black") || lower_contains(c.as_slice(), "bw")
        || lower_contains(c.as_slice(), "lineart") {
        ColorMode::Lineart
    } else {
        ColorMode::Color
    }
}

/// A resolution the ticket reader accepts.
pub open spec fn ticket_dpi_ok(d: nat) -> bool {
    50 <= d <= 1200
}

/// The last text that parses as `u32`.
pub open spec fn last_u32(s: Seq<Seq<char>>) -> Option<nat>
    decreases s.len(),
{
    if s.len() == 0 {
        None
    } else {
        match parse_uint(s.last(), u32_max()) {
            Some(v) => Some(v),
            None => last_u32(s.drop_last()),
        }
    }
}

/// The first text that parses as a `u32` in the accepted resolution range.
pub open spec fn first_u32_dpi(s: Seq<Seq<char>>) -> Option<nat>
    decreases s.len(),
{
    if s.len() == 0 {
        None
    } else {
        match parse_uint(s[0], u32_max()) {
            Some(v) => if ticket_dpi_ok(v) {
                Some(v)
            } else {
                first_u32_dpi(s.drop_first())
            },
            None => first_u32_dpi(s.drop_first()),
        }
    }
}

/// The resolution of a ticket: the last parsable `Width` (media comes
/// first, resolution later) when in range, else the first in-range
/// `Height`, else 300.
pub open spec fn ticket_dpi(x: Seq<char>) -> nat {
    match last_u32(texts_in(x, "Width"@)) {
        Some(v) if ticket_dpi_ok(v) => v,
        _ => match first_u32_dpi(texts_in(x, "Height"@)) {
            Some(v) => v,
            None => 300,
        },
    }
}

fn last_u32_exec(items: &Vec<String>) -> (r: Option<u32>)
    ensures
        r matches Some(v) ==> last_u32(string_views(items@)) == Some(v as nat),
        r is None ==> last_u32(string_views(items@)) is None,
{
    let mut k: usize = items.len();
    assert(string_views(items@).take(k as int) =~= string_views(items@));
    while k > 0
        invariant
            k <= items@.len(),
            last_u32(string_views(items@)) == last_u32(string_views(items@).take(k as int)),
        decreases k,
    {
        let ghost sv = string_views(items@);
        assert(sv.take(k as int).drop_last() =~= sv.take(k - 1));
        assert(sv.take(k as int).last() == items@[k - 1]@);
        match parse_u32(items[k - 1].as_str()) {
            Some(v) => {
                return Some(v);
            },
            None => {},
        }
        k = k - 1;
    }
    None
}

fn first_u32_dpi_exec(items: &Vec<String>) -> (r: Option<u32>)
    ensures
        r matches Some(v) ==> first_u32_dpi(string_views(items@)) == Some(v as nat),
        r is None ==> first_u32_dpi(string_views(items@)) is None,
{
    let mut k: usize = 0;
    assert(string_views(items@).skip(0) =~= string_views(items@));
    while k < items.len()
        invariant
            k <= items@.len(),
            first_u32_dpi(string_views(items@)) == first_u32_dpi(
                string_views(items@).skip(k as int),
            ),
        decreases items@.len() - k,
    {
        let ghost sv = string_views(items@);
        assert(sv.skip(k as int).drop_first() =~= sv.skip(k + 1));
        assert(sv.skip(k as int)[0] == items@[k as int]@);
        match parse_u32(items[k].as_str()) {
            Some(v) => {
                if 50 <= v && v <= 1200 {
                    return Some(v);
                }
            },
            None => {},
        }
        k = k + 1;
    }
    None
}

/// A region read from four offsets/sizes when all parse and the size is not empty.
pub open spec fn region_from(
    x: Option<nat>,
    y: Option<nat>,
    w: Option<nat>,
    h: Option<nat>,
) -> Option<ScanRegion> {
    match (x, y, w, h) {
        (Some(x), Some(y), Some(w), Some(h)) => if w > 0 && h > 0 {
            Some(ScanRegion { x: x as u32, y: y as u32, width: w as u32, height: h as u32 })
        } else {
            None
        },
        _ => None,
    }
}

/// The SOAP `ScanRegion` of a ticket, in 1/1000 inch.
pub open spec fn ticket_region(x: Seq<char>) -> Option<ScanRegion> {
    region_from(
        first_u32(x, "ScanRegionXOffset"@),
        first_u32(x, "ScanRegionYOffset"@),
        first_u32(x, "ScanRegionWidth"@),
        first_u32(x, "ScanRegionHeight"@),
    )
}

pub fn soap_region(xml: &str) -> (r: Option<ScanRegion>)
    ensures
        r == ticket_region(xml@),
{
    let x = first_u32_exec(xml, "ScanRegionXOffset");
    let y = first_u32_exec(xml, "ScanRegionYOffset");
    let w = first_u32_exec(xml, "ScanRegionWidth");
    let h = first_u32_exec(xml, "ScanRegionHeight");
    match (x, y, w, h) {
        (Some(x), Some(y), Some(width), Some(height)) => {
            if width > 0 && height > 0 {
                Some(ScanRegion { x, y, width, height })
            } else {
                None
            }
        },
        _ => None,
    }
}

/// What the device reads from a `CreateScanJobRequest` ticket; `None`
/// without an `InputSource`.
pub open spec fn spec_parse_job_ticket(x: Seq<char>) -> Option<ScanRequest> {
    match first_in(x, "InputSource"@) {
        None => None,
        Some(source) => Some(
            ScanRequest {
                source: match spec_scan_source(source) {
                    Some(s) => s,
                    None => ScanSource::Platen,
                },
                color: color_from_name(first_or(x, "ColorProcessing"@, "RGB24"@)),
                dpi: ticket_dpi(x) as u32,
                format: OutputFormat::Jpeg,
                output: None,
                region: ticket_region(x),
            },
        ),
    }
}

pub fn parse_job_ticket(xml: &str) -> (r: Option<ScanRequest>)
    ensures
        r == spec_parse_job_ticket(xml@),
{
    let source = match first_text(xml, "InputSource") {
        Some(s) => s,
        None => {
            return None;
        },
    };
    let color_raw = match first_text(xml, "ColorProcessing") {
        Some(c) => c,
        None => String::from_str("RGB24"),
    };
    let widths = texts_named(xml, "Width");
    let dpi: u32 = match last_u32_exec(&widths) {
        Some(v) if 50 <= v && v <= 1200 => v,
        _ => {
            let heights = texts_named(xml, "Height");
            match first_u32_dpi_exec(&heights) {
                Some(v) => v,
                None => 300,
            }
        },
    };
    let src = match ScanSource::parse(source.as_str()) {
        Ok(s) => s,
        Err(_) => ScanSource::Platen,
    };
    let color = color_from_name_exec(color_raw.as_str());
    let region = soap_region(xml);
    Some(ScanRequest { source: src, color, dpi, format: OutputFormat::Jpeg, output: None, region })
}

/// The SOAP record placed in front of the JPEG inside a DIME body.
pub fn retrieve_image_soap_stub() -> (r: &'static [u8])
    ensures
        r@ == vstd::utf8::encode_utf8(RETRIEVE_STUB@),
{
    RETRIEVE_STUB.as_bytes()
}


proof fn lemma_attr_text(s: Seq<char>)
    requires
        forall|i: int| 0 <= i < s.len() ==> (' ' <= #[trigger] s[i] <= '~') && s[i] != '>',
    ensures
        all_ascii(s),
        lacks(s, '>'),
{
}

proof fn lemma_typed_ok(head: Seq<char>, t: Seq<char>)
    requires
        head.len() > 0,
        head[0] == ' ',
        all_ascii(head),
        lacks(head, '>'),
        all_ascii(t),
        lacks(t, '>'),
    ensures
        attrs_ok(typed(head, t)),
{
    let a = typed(head, t);
    assert(a[0] == head[0]);
    assert(a.last() == '"');
    assert forall|k: int| 0 <= k < a.len() implies ascii(#[trigger] a[k]) && a[k] != '>' by {
        if k < head.len() {
            assert(a[k] == head[k]);
        } else if k < head.len() + t.len() {
            assert(a[k] == t[k - head.len()]);
        } else {
            assert(a[k] == '"');
        }
    }
}

/// The attribute heads and type names of a ticket are attribute text.
#[verifier::spinoff_prover]
proof fn lemma_ticket_types()
    ensures
        attrs_ok(typed(XSI_TYPE@, "xsd:string"@)),
        attrs_ok(typed(XSI_TYPE@, "xsd:int"@)),
        attrs_ok(typed(XSI_TYPE@, "xsd:boolean"@)),
        attrs_ok(typed(XSI_TYPE@, "ContentType"@)),
        attrs_ok(typed(XSI_TYPE@, "ScanInputSource"@)),
        attrs_ok(typed(XSI_TYPE@, "ColorEntryType"@)),
        attrs_ok(typed(WSCN_TYPE@, "ScanDocumentFormat"@)),
        attrs_ok(typed(WSCN_TYPE@, "ScanTicketType"@)),
        attrs_ok(typed(WSCN_TYPE@, "JobDescriptionType"@)),
        attrs_ok(typed(WSCN_TYPE@, "DocumentParametersType"@)),
        attrs_ok(typed(WSCN_TYPE@, "ScanExposureType"@)),
        attrs_ok(typed(WSCN_TYPE@, "ExposureSettingsOverrideType"@)),
        attrs_ok(typed(WSCN_TYPE@, "DocumentInputSizeType"@)),
        attrs_ok(typed(WSCN_TYPE@, "DimensionsType"@)),
        attrs_ok(typed(WSCN_TYPE@, "MediaSideOverrideType"@)),
        attrs_ok(typed(WSCN_TYPE@, "ScanRegionType"@)),
{
    reveal_strlit(" xsi:type=\"");
    reveal_strlit(" xmlns=\"http://tempuri.org/wscn.xsd\" xsi:type=\"");
    reveal_strlit("xsd:string");
    reveal_strlit("xsd:int");
    reveal_strlit("xsd:boolean");
    reveal_strlit("ContentType");
    reveal_strlit("ScanInputSource");
    reveal_strlit("ColorEntryType");
    reveal_strlit("ScanDocumentFormat");
    reveal_strlit("ScanTicketType");
    reveal_strlit("JobDescriptionType");
    reveal_strlit("DocumentParametersType");
    reveal_strlit("ScanExposureType");
    reveal_strlit("ExposureSettingsOverrideType");
    reveal_strlit("DocumentInputSizeType");
    reveal_strlit("DimensionsType");
    reveal_strlit("MediaSideOverrideType");
    reveal_strlit("ScanRegionType");
    lemma_attr_text(XSI_TYPE@);
    lemma_attr_text(WSCN_TYPE@);
    lemma_attr_text("xsd:string"@);
    lemma_attr_text("xsd:int"@);
    lemma_attr_text("xsd:boolean"@);
    lemma_attr_text("ContentType"@);
    lemma_attr_text("ScanInputSource"@);
    lemma_attr_text("ColorEntryType"@);
    lemma_attr_text("ScanDocumentFormat"@);
    lemma_attr_text("ScanTicketType"@);
    lemma_attr_text("JobDescriptionType"@);
    lemma_attr_text("DocumentParametersType"@);
    lemma_attr_text("ScanExposureType"@);
    lemma_attr_text("ExposureSettingsOverrideType"@);
    lemma_attr_text("DocumentInputSizeType"@);
    lemma_attr_text("DimensionsType"@);
    lemma_attr_text("MediaSideOverrideType"@);
    lemma_attr_text("ScanRegionType"@);
    lemma_typed_ok(XSI_TYPE@, "xsd:string"@);
    lemma_typed_ok(XSI_TYPE@, "xsd:int"@);
    lemma_typed_ok(XSI_TYPE@, "xsd:boolean"@);
    lemma_typed_ok(XSI_TYPE@, "ContentType"@);
    lemma_typed_ok(XSI_TYPE@, "ScanInputSource"@);
    lemma_typed_ok(XSI_TYPE@, "ColorEntryType"@);
    lemma_typed_ok(WSCN_TYPE@, "ScanDocumentFormat"@);
    lemma_typed_ok(WSCN_TYPE@, "ScanTicketType"@);
    lemma_typed_ok(WSCN_TYPE@, "JobDescriptionType"@);
    lemma_typed_ok(WSCN_TYPE@, "DocumentParametersType"@);
    lemma_typed_ok(WSCN_TYPE@, "ScanExposureType"@);
    lemma_typed_ok(WSCN_TYPE@, "ExposureSettingsOverrideType"@);
    lemma_typed_ok(WSCN_TYPE@, "DocumentInputSizeType"@);
    lemma_typed_ok(WSCN_TYPE@, "DimensionsType"@);
    lemma_typed_ok(WSCN_TYPE@, "MediaSideOverrideType"@);
    lemma_typed_ok(WSCN_TYPE@, "ScanRegionType"@);
}

/// The envelope's tags are well formed, and so is its declaration.
#[verifier::spinoff_prover]
proof fn lemma_envelope_ok()
    ensures
        all_ascii(ENVELOPE_DECL@),
        lacks(ENVELOPE_DECL@, '>'),
        lacks(ENVELOPE_DECL@, '?'),
        pieces_ok(ticket_pre()),
        pieces_ok(envelope_closes()),
{
    reveal_strlit("xml version=\"1.0\" encoding=\"utf-8\"");
    reveal_strlit(" xmlns:xsd=\"http://www.w3.org/2001/XMLSchema\" xmlns:xsi=\"http://www.w3.org/2001/XMLSchema-instance\" xmlns:SOAP-ENC=\"http://www.w3.org/2003/05/soap-encoding\" SOAP-ENV:encodingStyle=\"http://www.w3.org/2003/05/soap-encoding\" xmlns:SOAP-ENV=\"http://www.w3.org/2003/05/soap-envelope\" xmlns:wscn=\"http://tempuri.org/wscn.xsd\"");
    reveal_strlit("SOAP-ENV");
    reveal_strlit("Envelope");
    reveal_strlit("Body");
    reveal_strlit("wscn");
    reveal_strlit("CreateScanJobRequest");
    assert forall|i: int| 0 <= i < ENVELOPE_DECL@.len() implies ascii(#[trigger] ENVELOPE_DECL@[i])
        && ENVELOPE_DECL@[i] != '>' && ENVELOPE_DECL@[i] != '?' by {}
    lemma_attr_text(ENVELOPE_ATTRS@);
    assert(attrs_ok(ENVELOPE_ATTRS@));
    assert(is_name("SOAP-ENV"@)) by {
        assert forall|i: int| 0 <= i < 8 implies name_char(#[trigger] "SOAP-ENV"@[i]) by {}
    }
    lemma_name("Envelope"@);
    lemma_name("Body"@);
    lemma_name("wscn"@);
    lemma_name("CreateScanJobRequest"@);
    assert(blank(nl()));
    assert(blank(Seq::<char>::empty()));
    assert(attrs_ok(Seq::<char>::empty()));
    let pre = ticket_pre();
    assert forall|k: int| 0 <= k < pre.len() implies piece_ok(#[trigger] pre[k]) by {}
    let cl = envelope_closes();
    assert forall|k: int| 0 <= k < cl.len() implies piece_ok(#[trigger] cl[k]) by {}
}


/// Escaped text holds no `<`.
proof fn lemma_escaped_no_lt(t: Seq<char>)
    ensures
        lacks(xml_escaped(t, true), '<'),
    decreases t.len(),
{
    if t.len() > 0 {
        lemma_escaped_no_lt(t.drop_last());
        let a = xml_escaped(t.drop_last(), true);
        let e = crate::text::escape_char(t.last(), true);
        assert forall|i: int| 0 <= i < (a + e).len() implies #[trigger] (a + e)[i] != '<' by {
            if i < a.len() {
                assert((a + e)[i] == a[i]);
            } else {
                assert((a + e)[i] == e[i - a.len()]);
            }
        }
    }
}

/// The `ScanIdentifier` element holds no `<`, whatever the id.
proof fn lemma_scan_id_ok(scan_id: Seq<char>)
    ensures
        raw_ok(scan_id_elem(scan_id)),
{
    reveal_strlit("ScanIdentifier");
    lemma_name("ScanIdentifier"@);
    lemma_ticket_types();
    lemma_escaped_no_lt(scan_id);
    assert(blank(nl()));
}

#[verifier::spinoff_prover]
#[verifier::rlimit(40)]
proof fn lemma_head_ok(req: ScanRequest)
    ensures
        pieces_ok(ticket_head(req)),
{
    reveal_strlit("ScanTicket");
    reveal_strlit("JobDescription");
    reveal_strlit("JobOriginatingUserName");
    reveal_strlit("JobName");
    reveal_strlit("DocumentParameters");
    reveal_strlit("Format");
    reveal_strlit("ImagesToTransfer");
    reveal_strlit("Exposure");
    reveal_strlit("AutoExposure");
    reveal_strlit("ExposureSettings");
    reveal_strlit("Contrast");
    reveal_strlit("ContentType");
    reveal_strlit("CompressionQualityFactor");
    reveal_strlit("InputSource");
    reveal_strlit("hp-m177");
    reveal_strlit("hp-m177-scan");
    reveal_strlit("jfif");
    reveal_strlit("true");
    reveal_strlit("0");
    reveal_strlit("Auto");
    reveal_strlit("Platen");
    reveal_strlit("ADF");
    lemma_name("ScanTicket"@);
    lemma_name("JobDescription"@);
    lemma_name("JobOriginatingUserName"@);
    lemma_name("JobName"@);
    lemma_name("DocumentParameters"@);
    lemma_name("Format"@);
    lemma_name("ImagesToTransfer"@);
    lemma_name("Exposure"@);
    lemma_name("AutoExposure"@);
    lemma_name("ExposureSettings"@);
    lemma_name("Contrast"@);
    lemma_name("ContentType"@);
    lemma_name("CompressionQualityFactor"@);
    lemma_name("InputSource"@);
    lemma_plain_text("hp-m177"@);
    lemma_plain_text("hp-m177-scan"@);
    lemma_plain_text("jfif"@);
    lemma_plain_text("true"@);
    lemma_plain_text("0"@);
    lemma_plain_text("Auto"@);
    lemma_plain_text(spec_source_soap_name(req.source));
    lemma_decimal_text(images_to_transfer(req.source));
    lemma_ticket_types();
    assert(blank(nl()));
    let g = ticket_head(req);
    assert forall|k: int| 0 <= k < g.len() implies piece_ok(#[trigger] g[k]) by {}
}

#[verifier::spinoff_prover]
proof fn lemma_media_ok(req: ScanRequest)
    ensures
        pieces_ok(ticket_media(req)),
{
    reveal_strlit("InputSize");
    reveal_strlit("InputMediaSize");
    reveal_strlit("Width");
    reveal_strlit("Height");
    lemma_name("InputSize"@);
    lemma_name("InputMediaSize"@);
    lemma_name("Width"@);
    lemma_name("Height"@);
    let media = spec_media_size(req.source);
    lemma_decimal_text(media.0 as nat);
    lemma_decimal_text(media.1 as nat);
    lemma_ticket_types();
    assert(blank(nl()));
    let g = ticket_media(req);
    assert forall|k: int| 0 <= k < g.len() implies piece_ok(#[trigger] g[k]) by {}
}

#[verifier::spinoff_prover]
#[verifier::rlimit(40)]
proof fn lemma_tail_ok(req: ScanRequest)
    ensures
        pieces_ok(ticket_tail(req)),
{
    reveal_strlit("MediaSides");
    reveal_strlit("MediaFront");
    reveal_strlit("Resolution");
    reveal_strlit("Width");
    reveal_strlit("Height");
    reveal_strlit("ScanRegion");
    reveal_strlit("ScanRegionXOffset");
    reveal_strlit("ScanRegionYOffset");
    reveal_strlit("ScanRegionHeight");
    reveal_strlit("ScanRegionWidth");
    reveal_strlit("ColorProcessing");
    reveal_strlit("DocumentParameters");
    reveal_strlit("RetrieveImageTimeout");
    reveal_strlit("ScanTicket");
    reveal_strlit("wscn");
    reveal_strlit("CreateScanJobRequest");
    reveal_strlit("1800");
    reveal_strlit("RGB24");
    reveal_strlit("GrayScale8");
    reveal_strlit("BlackandWhite1");
    lemma_name("MediaSides"@);
    lemma_name("MediaFront"@);
    lemma_name("Resolution"@);
    lemma_name("Width"@);
    lemma_name("Height"@);
    lemma_name("ScanRegion"@);
    lemma_name("ScanRegionXOffset"@);
    lemma_name("ScanRegionYOffset"@);
    lemma_name("ScanRegionHeight"@);
    lemma_name("ScanRegionWidth"@);
    lemma_name("ColorProcessing"@);
    lemma_name("DocumentParameters"@);
    lemma_name("RetrieveImageTimeout"@);
    lemma_name("ScanTicket"@);
    lemma_name("wscn"@);
    lemma_name("CreateScanJobRequest"@);
    lemma_plain_text("1800"@);
    lemma_plain_text(spec_color_soap_name(req.color));
    let region = spec_region_or_full(req);
    lemma_decimal_text(req.dpi as nat);
    lemma_decimal_text(region.x as nat);
    lemma_decimal_text(region.y as nat);
    lemma_decimal_text(region.height as nat);
    lemma_decimal_text(region.width as nat);
    lemma_ticket_types();
    assert(blank(nl()));
    let g = ticket_tail(req);
    assert forall|k: int| 0 <= k < g.len() implies piece_ok(#[trigger] g[k]) by {}
}


/// The element names the device reads from a ticket.
pub open spec fn read_name(n: Seq<char>) -> bool {
    ||| n == "InputSource"@
    ||| n == "ColorProcessing"@
    ||| n == "Width"@
    ||| n == "Height"@
    ||| n == "ScanRegionXOffset"@
    ||| n == "ScanRegionYOffset"@
    ||| n == "ScanRegionHeight"@
    ||| n == "ScanRegionWidth"@
}

pub(crate) proof fn lemma_reveal_read_names()
    ensures
        "InputSource"@ == seq!['I', 'n', 'p', 'u', 't', 'S', 'o', 'u', 'r', 'c', 'e'],
        "ColorProcessing"@.len() == 15,
        "ColorProcessing"@[0] == 'C',
        "Width"@ == seq!['W', 'i', 'd', 't', 'h'],
        "Height"@ == seq!['H', 'e', 'i', 'g', 'h', 't'],
        "ScanRegionXOffset"@.len() == 17,
        "ScanRegionXOffset"@[10] == 'X',
        "ScanRegionYOffset"@.len() == 17,
        "ScanRegionYOffset"@[10] == 'Y',
        "ScanRegionHeight"@.len() == 16,
        "ScanRegionHeight"@[10] == 'H',
        "ScanRegionWidth"@.len() == 15,
        "ScanRegionWidth"@[10] == 'W',
        "ScanRegionWidth"@[0] == 'S',
        "ScanRegionHeight"@[0] == 'S',
{
    reveal_strlit("InputSource");
    reveal_strlit("ColorProcessing");
    reveal_strlit("Width");
    reveal_strlit("Height");
    reveal_strlit("ScanRegionXOffset");
    reveal_strlit("ScanRegionYOffset");
    reveal_strlit("ScanRegionHeight");
    reveal_strlit("ScanRegionWidth");
    assert("InputSource"@ =~= seq!['I', 'n', 'p', 'u', 't', 'S', 'o', 'u', 'r', 'c', 'e']);
    assert("Width"@ =~= seq!['W', 'i', 'd', 't', 'h']);
    assert("Height"@ =~= seq!['H', 'e', 'i', 'g', 'h', 't']);
}

/// Of the names the device reads, only `InputSource` is in the ticket's
/// head, once.
#[verifier::spinoff_prover]
#[verifier::rlimit(60)]
proof fn lemma_head_picks(req: ScanRequest, n: Seq<char>)
    requires
        read_name(n),
    ensures
        pieces_picks(ticket_head(req), n) == if n == "InputSource"@ {
            seq![spec_source_soap_name(req.source)]
        } else {
            Seq::<Seq<char>>::empty()
        },
{
    lemma_reveal_read_names();
    reveal_strlit("JobOriginatingUserName");
    reveal_strlit("JobName");
    reveal_strlit("Format");
    reveal_strlit("ImagesToTransfer");
    reveal_strlit("AutoExposure");
    reveal_strlit("Contrast");
    reveal_strlit("ContentType");
    reveal_strlit("CompressionQualityFactor");
    reveal_strlit("Platen");
    reveal_strlit("ADF");
    let g = ticket_head(req);
    if n == "InputSource"@ {
        let src = spec_source_soap_name(req.source);
        lemma_trim_plain(src);
        assert(piece_picks(g[16], n) == seq![src]);
        assert forall|j: int| 0 <= j < g.len() && j != 16 implies #[trigger] piece_picks(g[j], n).len()
            == 0 by {}
        lemma_pieces_picks_one(g, n, 16, src);
    } else {
        assert forall|j: int| 0 <= j < g.len() implies #[trigger] piece_picks(g[j], n).len() == 0 by {}
        lemma_pieces_picks_none(g, n);
    }
}

/// The media size is read under `Width` and `Height`.
#[verifier::spinoff_prover]
proof fn lemma_media_picks(req: ScanRequest, n: Seq<char>)
    requires
        read_name(n),
    ensures
        pieces_picks(ticket_media(req), n) == if n == "Width"@ {
            seq![decimal(spec_media_size(req.source).0 as nat)]
        } else if n == "Height"@ {
            seq![decimal(spec_media_size(req.source).1 as nat)]
        } else {
            Seq::<Seq<char>>::empty()
        },
{
    lemma_reveal_read_names();
    let g = ticket_media(req);
    let media = spec_media_size(req.source);
    lemma_decimal_trim(media.0 as nat);
    lemma_decimal_trim(media.1 as nat);
    if n == "Width"@ {
        assert forall|j: int| 0 <= j < g.len() && j != 2 implies #[trigger] piece_picks(g[j], n).len()
            == 0 by {}
        lemma_pieces_picks_one(g, n, 2, decimal(media.0 as nat));
    } else if n == "Height"@ {
        assert forall|j: int| 0 <= j < g.len() && j != 3 implies #[trigger] piece_picks(g[j], n).len()
            == 0 by {}
        lemma_pieces_picks_one(g, n, 3, decimal(media.1 as nat));
    } else {
        assert forall|j: int| 0 <= j < g.len() implies #[trigger] piece_picks(g[j], n).len() == 0 by {}
        lemma_pieces_picks_none(g, n);
    }
}

/// What the ticket's tail gives under each name the device reads.
pub open spec fn tail_reads(req: ScanRequest, n: Seq<char>) -> Seq<Seq<char>> {
    let region = spec_region_or_full(req);
    if n == "Width"@ || n == "Height"@ {
        seq![decimal(req.dpi as nat)]
    } else if n == "ScanRegionXOffset"@ {
        seq![decimal(region.x as nat)]
    } else if n == "ScanRegionYOffset"@ {
        seq![decimal(region.y as nat)]
    } else if n == "ScanRegionHeight"@ {
        seq![decimal(region.height as nat)]
    } else if n == "ScanRegionWidth"@ {
        seq![decimal(region.width as nat)]
    } else if n == "ColorProcessing"@ {
        seq![spec_color_soap_name(req.color)]
    } else {
        Seq::empty()
    }
}

#[verifier::spinoff_prover]
#[verifier::rlimit(80)]
proof fn lemma_tail_picks(req: ScanRequest, n: Seq<char>)
    requires
        read_name(n),
    ensures
        pieces_picks(ticket_tail(req), n) == tail_reads(req, n),
{
    lemma_reveal_read_names();
    reveal_strlit("RetrieveImageTimeout");
    reveal_strlit("RGB24");
    reveal_strlit("GrayScale8");
    reveal_strlit("BlackandWhite1");
    let g = ticket_tail(req);
    let region = spec_region_or_full(req);
    lemma_decimal_trim(req.dpi as nat);
    lemma_decimal_trim(region.x as nat);
    lemma_decimal_trim(region.y as nat);
    lemma_decimal_trim(region.height as nat);
    lemma_decimal_trim(region.width as nat);
    let k: int = if n == "Width"@ {
        3
    } else if n == "Height"@ {
        4
    } else if n == "ScanRegionXOffset"@ {
        7
    } else if n == "ScanRegionYOffset"@ {
        8
    } else if n == "ScanRegionHeight"@ {
        9
    } else if n == "ScanRegionWidth"@ {
        10
    } else if n == "ColorProcessing"@ {
        12
    } else {
        -1
    };
    if k >= 0 {
        let c = spec_color_soap_name(req.color);
        lemma_trim_plain(c);
        let t = tail_reads(req, n)[0];
        assert(tail_reads(req, n) == seq![t]);
        assert(piece_picks(g[k], n) == seq![t]);
        assert forall|j: int| 0 <= j < g.len() && j != k implies #[trigger] piece_picks(g[j], n).len()
            == 0 by {}
        lemma_pieces_picks_one(g, n, k, t);
    } else {
        assert forall|j: int| 0 <= j < g.len() implies #[trigger] piece_picks(g[j], n).len() == 0 by {}
        lemma_pieces_picks_none(g, n);
    }
}


/// What the scanner reports under a name the device reads: the head's,
/// the media size's and the tail's texts, in order.
#[verifier::spinoff_prover]
#[verifier::rlimit(40)]
proof fn lemma_ticket_reads(req: ScanRequest, scan_id: Seq<char>, n: Seq<char>)
    requires
        read_name(n),
    ensures
        texts_in(spec_create_scan_job(req, scan_id), n) == pieces_picks(ticket_head(req), n)
            + pieces_picks(ticket_media(req), n) + tail_reads(req, n),
{
    lemma_reveal_read_names();
    reveal_strlit("ScanIdentifier");
    lemma_envelope_ok();
    lemma_scan_id_ok(scan_id);
    lemma_head_ok(req);
    lemma_media_ok(req);
    lemma_tail_ok(req);
    let h = ticket_head(req);
    let m = ticket_media(req);
    let t = ticket_tail(req);
    let c = envelope_closes();
    lemma_pieces_concat(h, m, n);
    lemma_pieces_concat(h + m, t, n);
    lemma_pieces_concat(h + m + t, c, n);
    assert(n != scan_id_elem(scan_id).local);
    lemma_raw_doc_texts(ENVELOPE_DECL@, ticket_pre(), scan_id_elem(scan_id), ticket_post(req), n);
    let pre = ticket_pre();
    assert forall|j: int| 0 <= j < pre.len() implies #[trigger] piece_picks(pre[j], n).len() == 0 by {}
    lemma_pieces_picks_none(pre, n);
    assert forall|j: int| 0 <= j < c.len() implies #[trigger] piece_picks(c[j], n).len() == 0 by {}
    lemma_pieces_picks_none(c, n);
    lemma_tail_picks(req, n);
    assert(Seq::<Seq<char>>::empty() + (pieces_picks(h, n) + pieces_picks(m, n) + tail_reads(req, n)
        + Seq::<Seq<char>>::empty()) =~= pieces_picks(h, n) + pieces_picks(m, n) + tail_reads(req, n));
}

/// The device reads back the source it was sent.
pub(crate) proof fn lemma_soap_source_back(s: ScanSource)
    ensures
        spec_scan_source(spec_source_soap_name(s)) == Some(s),
{
    reveal_strlit("Platen");
    reveal_strlit("ADF");
    reveal_strlit("platen");
    reveal_strlit("flatbed");
    reveal_strlit("glass");
    reveal_strlit("adf");
    let n = spec_source_soap_name(s);
    lemma_trim_plain(n);
    match s {
        ScanSource::Platen => {
            assert(ascii_lower(n) =~= "platen"@);
        },
        ScanSource::Adf => {
            assert(ascii_lower(n) =~= "adf"@);
        },
    }
}

/// The device reads back the color mode it was sent.
pub(crate) proof fn lemma_soap_color_back(c: ColorMode)
    ensures
        color_from_name(spec_color_soap_name(c)) == c,
{
    reveal_strlit("RGB24");
    reveal_strlit("GrayScale8");
    reveal_strlit("BlackandWhite1");
    reveal_strlit("gray");
    reveal_strlit("black");
    reveal_strlit("bw");
    reveal_strlit("lineart");
    let l = ascii_lower(spec_color_soap_name(c));
    match c {
        ColorMode::Color => {
            assert(l =~= seq!['r', 'g', 'b', '2', '4']);
            lemma_not_contains(l, "gray"@);
            lemma_not_contains(l, "black"@);
            lemma_not_contains(l, "bw"@);
            lemma_not_contains(l, "lineart"@);
        },
        ColorMode::Gray => {
            assert(crate::text::occurs_at(l, "gray"@, 0)) by {
                assert(l.subrange(0, 4) =~= "gray"@);
            }
        },
        ColorMode::Lineart => {
            lemma_not_contains(l, "gray"@);
            assert(crate::text::occurs_at(l, "black"@, 0)) by {
                assert(l.subrange(0, 5) =~= "black"@);
            }
        },
    }
}

/// The region a ticket carries, as the device reads it back: the one sent
/// when it is not empty.
pub open spec fn sent_region(r: ScanRegion) -> Option<ScanRegion> {
    if r.width > 0 && r.height > 0 {
        Some(r)
    } else {
        None
    }
}

/// A `CreateScanJobRequest` written for `req` reads back, on the device's
/// side, as `req`: its source, its color mode, its resolution (in the
/// 50–1200 dpi range that the reader accepts) and the region it sends
/// (the whole media when `req` names none, and nothing when it is empty),
/// whatever the scan id.
#[verifier::spinoff_prover]
#[verifier::rlimit(40)]
pub proof fn lemma_job_ticket_roundtrip(req: ScanRequest, scan_id: Seq<char>)
    requires
        50 <= req.dpi <= 1200,
    ensures
        spec_parse_job_ticket(spec_create_scan_job(req, scan_id)) == Some(
            ScanRequest {
                source: req.source,
                color: req.color,
                dpi: req.dpi,
                format: OutputFormat::Jpeg,
                output: None,
                region: sent_region(spec_region_or_full(req)),
            },
        ),
{
    let x = spec_create_scan_job(req, scan_id);
    let media = spec_media_size(req.source);
    let region = spec_region_or_full(req);
    lemma_reveal_read_names();
    let e = Seq::<Seq<char>>::empty();
    lemma_ticket_reads(req, scan_id, "InputSource"@);
    lemma_head_picks(req, "InputSource"@);
    lemma_media_picks(req, "InputSource"@);
    assert(texts_in(x, "InputSource"@) =~= seq![spec_source_soap_name(req.source)]);
    lemma_soap_source_back(req.source);
    lemma_ticket_reads(req, scan_id, "ColorProcessing"@);
    lemma_head_picks(req, "ColorProcessing"@);
    lemma_media_picks(req, "ColorProcessing"@);
    assert(texts_in(x, "ColorProcessing"@) =~= seq![spec_color_soap_name(req.color)]);
    lemma_soap_color_back(req.color);
    lemma_ticket_reads(req, scan_id, "Width"@);
    lemma_head_picks(req, "Width"@);
    lemma_media_picks(req, "Width"@);
    let widths = texts_in(x, "Width"@);
    assert(widths =~= seq![decimal(media.0 as nat), decimal(req.dpi as nat)]);
    crate::text::lemma_parse_decimal(req.dpi as nat, u32_max());
    assert(widths.last() == decimal(req.dpi as nat));
    assert(last_u32(widths) == Some(req.dpi as nat));
    assert(ticket_dpi(x) == req.dpi as nat);
    lemma_ticket_reads(req, scan_id, "ScanRegionXOffset"@);
    lemma_head_picks(req, "ScanRegionXOffset"@);
    lemma_media_picks(req, "ScanRegionXOffset"@);
    assert(texts_in(x, "ScanRegionXOffset"@) =~= seq![decimal(region.x as nat)]);
    crate::text::lemma_parse_decimal(region.x as nat, u32_max());
    lemma_ticket_reads(req, scan_id, "ScanRegionYOffset"@);
    lemma_head_picks(req, "ScanRegionYOffset"@);
    lemma_media_picks(req, "ScanRegionYOffset"@);
    assert(texts_in(x, "ScanRegionYOffset"@) =~= seq![decimal(region.y as nat)]);
    crate::text::lemma_parse_decimal(region.y as nat, u32_max());
    lemma_ticket_reads(req, scan_id, "ScanRegionWidth"@);
    lemma_head_picks(req, "ScanRegionWidth"@);
    lemma_media_picks(req, "ScanRegionWidth"@);
    assert(texts_in(x, "ScanRegionWidth"@) =~= seq![decimal(region.width as nat)]);
    crate::text::lemma_parse_decimal(region.width as nat, u32_max());
    lemma_ticket_reads(req, scan_id, "ScanRegionHeight"@);
    lemma_head_picks(req, "ScanRegionHeight"@);
    lemma_media_picks(req, "ScanRegionHeight"@);
    assert(texts_in(x, "ScanRegionHeight"@) =~= seq![decimal(region.height as nat)]);
    crate::text::lemma_parse_decimal(region.height as nat, u32_max());
    assert(ticket_region(x) == sent_region(region));
}

} // verus!
