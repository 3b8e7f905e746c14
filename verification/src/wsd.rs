//! Microsoft WSD Scan Service on TCP 3911.
//!
//! Live M177fw: `POST http://<host>:3911/scanner` with WS-Addressing.
//! Document format is `dib` only. RetrieveImage is MTOM/XOP with `image/bmp`.
use crate::dime::{lossy_string, utf8_lossy};
use crate::error::{Error, Result};
use crate::imagefmt::{
    bytes_match, is_bmp, is_dib, is_jpeg, le32_at, spec_is_bmp, spec_is_dib, spec_is_jpeg,
};
use crate::model::{
    http_origin, http_url, spec_color_soap_name, spec_media_size, spec_region_or_full,
    spec_source_soap_name, OutputFormat, ScanRequest, ScanSource,
};
use crate::soap::images_to_transfer;
use crate::text::{
    chars_of, contains_str, none_before, occurs_at, decimal, decimal_string, find_bytes, find_from, lemma_find_from,
    seq_contains, xml_escape, xml_escaped,
};
use crate::soap::{
    last_u32, lemma_reveal_read_names, lemma_soap_color_back, lemma_soap_source_back, nl,
    read_name, sent_region, spec_parse_job_ticket, tail_reads, ticket_dpi, ticket_region,
    u32_max,
};
use crate::transport::{header_views, HttpRequest, Method};
use crate::xmldoc::{
    add_close, add_leaf, add_open, all_ascii, ascii, attrs_ok, blank, lacks, lemma_decimal_text,
    lemma_decimal_trim, lemma_name, lemma_pieces_concat, lemma_pieces_picks_none,
    lemma_pieces_picks_one, lemma_plain_text, lemma_raw_doc_texts, lemma_trim_plain, piece_ok,
    piece_picks, pieces_chars, pieces_ok, pieces_picks, push_decl, push_text_elem, raw_doc_chars,
    raw_ok, Piece, TextElem,
};
use crate::xmlutil::texts_in;
use crate::text::lemma_parse_decimal;
use vstd::prelude::*;
use vstd::string::StringSliceAdditionalSpecFns;

verus! {

pub const WSD_SCAN_NS: &'static str = "http://schemas.microsoft.com/windows/2006/08/wdp/scan";

pub const WSA_NS: &'static str = "http://schemas.xmlsoap.org/ws/2004/08/addressing";

pub const ACTION_CREATE: &'static str = "http://schemas.microsoft.com/windows/2006/08/wdp/scan/CreateScanJob";

pub const ACTION_RETRIEVE: &'static str = "http://schemas.microsoft.com/windows/2006/08/wdp/scan/RetrieveImage";

pub const ACTION_TRANSFER_GET: &'static str = "http://schemas.xmlsoap.org/ws/2004/09/transfer/Get";

/// The XML declaration of every WSD request.
pub const WSD_DECL: &'static str = "xml version=\"1.0\" encoding=\"UTF-8\"";

/// The namespace attributes of every WSD request's `s:Envelope`.
pub const WSD_ENVELOPE_ATTRS: &'static str = " xmlns:s=\"http://www.w3.org/2003/05/soap-envelope\" xmlns:a=\"http://schemas.xmlsoap.org/ws/2004/08/addressing\" xmlns:sca=\"http://schemas.microsoft.com/windows/2006/08/wdp/scan\"";

/// The attribute that marks an addressing header as required.
pub const MUST_UNDERSTAND: &'static str = " s:mustUnderstand=\"1\"";

/// The anonymous reply address.
pub const ANONYMOUS: &'static str = "http://schemas.xmlsoap.org/ws/2004/08/addressing/role/anonymous";

pub const RETRIEVE_HEAD: &'static str = "<sca:RetrieveImageRequest>\n<sca:DocumentDescription><sca:DocumentName>IMAGE000.BMP</sca:DocumentName></sca:DocumentDescription>\n<sca:JobId>";

pub const RETRIEVE_AFTER_ID: &'static str = "</sca:JobId>\n<sca:JobToken>";

pub const RETRIEVE_TAIL: &'static str = "</sca:JobToken>\n</sca:RetrieveImageRequest>";

pub fn scanner_url(host: &str, port: u16) -> (r: String)
    ensures
        r@ == http_origin(host@, port as nat) + "/scanner"@,
{
    http_url(host, port, "/scanner")
}

/// The text of a random (version 4) UUID: 36 characters, lower-case hex
/// digits with `-` at 8, 13, 18 and 23, version digit `4` at 14.
pub open spec fn uuid_text(s: Seq<char>) -> bool {
    &&& s.len() == 36
    &&& forall|i: int|
        0 <= i < 36 ==> if i == 8 || i == 13 || i == 18 || i == 23 {
            #[trigger] s[i] == '-'
        } else {
            ('0' <= s[i] && s[i] <= '9') || ('a' <= s[i] && s[i] <= 'f')
        }
    &&& s[14] == '4'
}

/// `uuid::Uuid::new_v4()` written with `Display` (hyphenated, lower case).
/// The value is random; only its shape is stated.
#[verifier::external_body]
pub(crate) fn new_uuid_v4() -> (r: String)
    ensures
        uuid_text(r@),
{
    uuid::Uuid::new_v4().to_string()
}

/// An element in the `a` (addressing) or `s` (envelope) namespace.
pub open spec fn ns_elem(ws: Seq<char>, p: Seq<char>, l: Seq<char>, attrs: Seq<char>, text: Seq<char>) -> TextElem {
    TextElem { ws, prefix: p, local: l, attrs, text }
}

/// The envelope's opening: `s:Envelope`, `s:Header`, the action and the
/// message id, each on a new line.
pub open spec fn envelope_pre(action: Seq<char>, msgid: Seq<char>) -> Seq<Piece> {
    seq![
        Piece::Open { ws: nl(), prefix: "s"@, local: "Envelope"@, attrs: WSD_ENVELOPE_ATTRS@ },
        Piece::Open { ws: nl(), prefix: "s"@, local: "Header"@, attrs: Seq::empty() },
        Piece::Leaf(ns_elem(nl(), "a"@, "Action"@, MUST_UNDERSTAND@, action)),
        Piece::Leaf(ns_elem(nl(), "a"@, "MessageID"@, Seq::empty(), msgid)),
    ]
}

/// The `a:To` header holding the address as given.
pub open spec fn to_elem(to: Seq<char>) -> TextElem {
    ns_elem(nl(), "a"@, "To"@, MUST_UNDERSTAND@, to)
}

/// The anonymous reply address, the end of the header, `s:Body`.
pub open spec fn envelope_mid() -> Seq<Piece> {
    seq![
        Piece::Open { ws: nl(), prefix: "a"@, local: "ReplyTo"@, attrs: Seq::empty() },
        Piece::Leaf(ns_elem(Seq::empty(), "a"@, "Address"@, Seq::empty(), ANONYMOUS@)),
        Piece::Close { ws: Seq::empty(), prefix: "a"@, local: "ReplyTo"@ },
        Piece::Close { ws: nl(), prefix: "s"@, local: "Header"@ },
        Piece::Open { ws: nl(), prefix: "s"@, local: "Body"@, attrs: Seq::empty() },
    ]
}

/// The envelope's closing tags.
pub open spec fn envelope_end() -> Seq<Piece> {
    seq![
        Piece::Close { ws: Seq::empty(), prefix: "s"@, local: "Body"@ },
        Piece::Close { ws: nl(), prefix: "s"@, local: "Envelope"@ },
    ]
}

/// A WS-Addressing SOAP 1.2 envelope.
pub open spec fn spec_envelope(to: Seq<char>, action: Seq<char>, body: Seq<char>, msgid: Seq<char>) -> Seq<char> {
    raw_doc_chars(WSD_DECL@, envelope_pre(action, msgid), to_elem(to), envelope_mid()) + body
        + pieces_chars(envelope_end())
}

/// The envelope with a given message id.
pub fn envelope_with_id(to: &str, action: &str, body: &str, msgid: &str) -> (r: String)
    ensures
        r@ == spec_envelope(to@, action@, body@, msgid@),
{
    let mut pre = String::new();
    let g = add_open(&mut pre, Ghost(Seq::empty()), "\n", "s", "Envelope", WSD_ENVELOPE_ATTRS);
    let g = add_open(&mut pre, g, "\n", "s", "Header", "");
    let g = add_leaf(&mut pre, g, "\n", "a", "Action", MUST_UNDERSTAND, action);
    let g = add_leaf(&mut pre, g, "\n", "a", "MessageID", "", msgid);
    let mut mid = String::new();
    let h = add_open(&mut mid, Ghost(Seq::empty()), "\n", "a", "ReplyTo", "");
    let h = add_leaf(&mut mid, h, "", "a", "Address", "", ANONYMOUS);
    let h = add_close(&mut mid, h, "", "a", "ReplyTo");
    let h = add_close(&mut mid, h, "\n", "s", "Header");
    let h = add_open(&mut mid, h, "\n", "s", "Body", "");
    let mut end = String::new();
    let k = add_close(&mut end, Ghost(Seq::empty()), "", "s", "Body");
    let k = add_close(&mut end, k, "\n", "s", "Envelope");
    let mut s = String::new();
    push_decl(&mut s, WSD_DECL);
    s.append(pre.as_str());
    push_text_elem(&mut s, "\n", "a", "To", MUST_UNDERSTAND, to);
    s.append(mid.as_str());
    s.append(body);
    s.append(end.as_str());
    proof {
        reveal_strlit("\n");
        reveal_strlit("");
        assert("\n"@ =~= nl());
        assert(""@ =~= Seq::<char>::empty());
        assert(g@ =~= envelope_pre(action@, msgid@));
        assert(h@ =~= envelope_mid());
        assert(k@ =~= envelope_end());
    }
    assert(s@ =~= spec_envelope(to@, action@, body@, msgid@));
    s
}

/// An envelope as `envelope` makes it: some fresh `urn:uuid:` message id.
pub open spec fn fresh_envelope(r: Seq<char>, to: Seq<char>, action: Seq<char>, body: Seq<char>) -> bool {
    exists|id: Seq<char>|
        #[trigger] uuid_text(id) && r == spec_envelope(to, action, body, "urn:uuid:"@ + id)
}

/// The envelope with a fresh random `urn:uuid:` message id.
pub fn envelope(to: &str, action: &str, body: &str) -> (r: String)
    ensures
        fresh_envelope(r@, to@, action@, body@),
{
    let id = new_uuid_v4();
    let mut msgid = String::from_str("urn:uuid:");
    msgid.append(id.as_str());
    let r = envelope_with_id(to, action, body, msgid.as_str());
    assert(uuid_text(id@));
    r
}

pub fn transfer_get_xml(to: &str) -> (r: String)
    ensures
        fresh_envelope(r@, to@, ACTION_TRANSFER_GET@, Seq::<char>::empty()),
{
    let r = envelope(to, ACTION_TRANSFER_GET, "");
    proof {
        reveal_strlit("");
    }
    r
}

/// An opening tag in the `sca` namespace.
pub open spec fn sca_open(ws: Seq<char>, l: Seq<char>) -> Piece {
    Piece::Open { ws, prefix: "sca"@, local: l, attrs: Seq::empty() }
}

/// A closing tag in the `sca` namespace.
pub open spec fn sca_close(ws: Seq<char>, l: Seq<char>) -> Piece {
    Piece::Close { ws, prefix: "sca"@, local: l }
}

/// An element in the `sca` namespace holding `text`.
pub open spec fn sca_leaf(ws: Seq<char>, l: Seq<char>, text: Seq<char>) -> Piece {
    Piece::Leaf(TextElem { ws, prefix: "sca"@, local: l, attrs: Seq::empty(), text })
}

/// The ticket up to the input source: job description, `dib`, the media
/// size (1/1000 inch).
pub open spec fn wsd_job_head(req: ScanRequest) -> Seq<Piece> {
    let media = spec_media_size(req.source);
    let e = Seq::<char>::empty();
    seq![
        sca_open(e, "CreateScanJobRequest"@),
        sca_open(e, "ScanTicket"@),
        sca_open(nl(), "JobDescription"@),
        sca_leaf(nl(), "JobName"@, "hp-m177"@),
        sca_leaf(nl(), "JobOriginatingUserName"@, "hp-m177"@),
        sca_leaf(nl(), "JobInformation"@, "hp-m177"@),
        sca_close(nl(), "JobDescription"@),
        sca_open(nl(), "DocumentParameters"@),
        sca_leaf(nl(), "Format"@, "dib"@),
        sca_leaf(nl(), "ImagesToTransfer"@, decimal(images_to_transfer(req.source))),
        sca_leaf(nl(), "ContentType"@, "Photo"@),
        sca_open(nl(), "InputSize"@),
        sca_open(e, "InputMediaSize"@),
        sca_leaf(e, "Width"@, decimal(media.0 as nat)),
        sca_leaf(e, "Height"@, decimal(media.1 as nat)),
        sca_close(e, "InputMediaSize"@),
        sca_close(e, "InputSize"@),
        sca_leaf(nl(), "InputSource"@, spec_source_soap_name(req.source)),
    ]
}

/// The rest of the ticket: color, resolution, region (1/1000 inch).
pub open spec fn wsd_job_tail(req: ScanRequest) -> Seq<Piece> {
    let region = spec_region_or_full(req);
    let e = Seq::<char>::empty();
    seq![
        sca_open(nl(), "MediaSides"@),
        sca_open(e, "MediaFront"@),
        sca_leaf(nl(), "ColorProcessing"@, spec_color_soap_name(req.color)),
        sca_open(nl(), "Resolution"@),
        sca_leaf(e, "Width"@, decimal(req.dpi as nat)),
        sca_leaf(e, "Height"@, decimal(req.dpi as nat)),
        sca_close(e, "Resolution"@),
        sca_open(nl(), "ScanRegion"@),
        sca_leaf(nl(), "ScanRegionXOffset"@, decimal(region.x as nat)),
        sca_leaf(nl(), "ScanRegionYOffset"@, decimal(region.y as nat)),
        sca_leaf(nl(), "ScanRegionWidth"@, decimal(region.width as nat)),
        sca_leaf(nl(), "ScanRegionHeight"@, decimal(region.height as nat)),
        sca_close(nl(), "ScanRegion"@),
        sca_close(nl(), "MediaFront"@),
        sca_close(e, "MediaSides"@),
        sca_close(nl(), "DocumentParameters"@),
        sca_close(nl(), "ScanTicket"@),
        sca_close(e, "CreateScanJobRequest"@),
    ]
}

/// The WSD `CreateScanJobRequest` body: `dib`, sizes and region in 1/1000 inch.
pub open spec fn spec_wsd_job_body(req: ScanRequest) -> Seq<char> {
    pieces_chars(wsd_job_head(req) + wsd_job_tail(req))
}

fn add_sca_open(s: &mut String, g: Ghost<Seq<Piece>>, ws: &str, l: &str) -> (r: Ghost<Seq<Piece>>)
    requires
        old(s)@ == pieces_chars(g@),
    ensures
        r@ == g@.push(sca_open(ws@, l@)),
        final(s)@ == pieces_chars(r@),
{
    proof {
        reveal_strlit("sca");
        reveal_strlit("");
        assert(""@ =~= Seq::<char>::empty());
    }
    add_open(s, g, ws, "sca", l, "")
}

fn add_sca_close(s: &mut String, g: Ghost<Seq<Piece>>, ws: &str, l: &str) -> (r: Ghost<Seq<Piece>>)
    requires
        old(s)@ == pieces_chars(g@),
    ensures
        r@ == g@.push(sca_close(ws@, l@)),
        final(s)@ == pieces_chars(r@),
{
    proof {
        reveal_strlit("sca");
    }
    add_close(s, g, ws, "sca", l)
}

fn add_sca_leaf(s: &mut String, g: Ghost<Seq<Piece>>, ws: &str, l: &str, text: &str) -> (r: Ghost<
    Seq<Piece>,
>)
    requires
        old(s)@ == pieces_chars(g@),
    ensures
        r@ == g@.push(sca_leaf(ws@, l@, text@)),
        final(s)@ == pieces_chars(r@),
{
    proof {
        reveal_strlit("sca");
        reveal_strlit("");
        assert(""@ =~= Seq::<char>::empty());
    }
    add_leaf(s, g, ws, "sca", l, "", text)
}

pub fn job_body_xml(req: &ScanRequest) -> (r: String)
    ensures
        r@ == spec_wsd_job_body(*req),
{
    let (media_w, media_h) = req.media_size();
    let region = req.region_or_full();
    let images: u64 = match req.source {
        ScanSource::Platen => 1,
        ScanSource::Adf => 0,
    };
    let images_s = decimal_string(images);
    let mw = decimal_string(media_w as u64);
    let mh = decimal_string(media_h as u64);
    let dpi = decimal_string(req.dpi as u64);
    let rx = decimal_string(region.x as u64);
    let ry = decimal_string(region.y as u64);
    let rw = decimal_string(region.width as u64);
    let rh = decimal_string(region.height as u64);
    let mut s = String::new();
    let g = Ghost(Seq::empty());
    let g = add_sca_open(&mut s, g, "", "CreateScanJobRequest");
    let g = add_sca_open(&mut s, g, "", "ScanTicket");
    let g = add_sca_open(&mut s, g, "\n", "JobDescription");
    let g = add_sca_leaf(&mut s, g, "\n", "JobName", "hp-m177");
    let g = add_sca_leaf(&mut s, g, "\n", "JobOriginatingUserName", "hp-m177");
    let g = add_sca_leaf(&mut s, g, "\n", "JobInformation", "hp-m177");
    let g = add_sca_close(&mut s, g, "\n", "JobDescription");
    let g = add_sca_open(&mut s, g, "\n", "DocumentParameters");
    let g = add_sca_leaf(&mut s, g, "\n", "Format", "dib");
    let g = add_sca_leaf(&mut s, g, "\n", "ImagesToTransfer", images_s.as_str());
    let g = add_sca_leaf(&mut s, g, "\n", "ContentType", "Photo");
    let g = add_sca_open(&mut s, g, "\n", "InputSize");
    let g = add_sca_open(&mut s, g, "", "InputMediaSize");
    let g = add_sca_leaf(&mut s, g, "", "Width", mw.as_str());
    let g = add_sca_leaf(&mut s, g, "", "Height", mh.as_str());
    let g = add_sca_close(&mut s, g, "", "InputMediaSize");
    let g = add_sca_close(&mut s, g, "", "InputSize");
    let g = add_sca_leaf(&mut s, g, "\n", "InputSource", req.source.soap_name());
    let g = add_sca_open(&mut s, g, "\n", "MediaSides");
    let g = add_sca_open(&mut s, g, "", "MediaFront");
    let g = add_sca_leaf(&mut s, g, "\n", "ColorProcessing", req.color.soap_name());
    let g = add_sca_open(&mut s, g, "\n", "Resolution");
    let g = add_sca_leaf(&mut s, g, "", "Width", dpi.as_str());
    let g = add_sca_leaf(&mut s, g, "", "Height", dpi.as_str());
    let g = add_sca_close(&mut s, g, "", "Resolution");
    let g = add_sca_open(&mut s, g, "\n", "ScanRegion");
    let g = add_sca_leaf(&mut s, g, "\n", "ScanRegionXOffset", rx.as_str());
    let g = add_sca_leaf(&mut s, g, "\n", "ScanRegionYOffset", ry.as_str());
    let g = add_sca_leaf(&mut s, g, "\n", "ScanRegionWidth", rw.as_str());
    let g = add_sca_leaf(&mut s, g, "\n", "ScanRegionHeight", rh.as_str());
    let g = add_sca_close(&mut s, g, "\n", "ScanRegion");
    let g = add_sca_close(&mut s, g, "\n", "MediaFront");
    let g = add_sca_close(&mut s, g, "", "MediaSides");
    let g = add_sca_close(&mut s, g, "\n", "DocumentParameters");
    let g = add_sca_close(&mut s, g, "\n", "ScanTicket");
    let g = add_sca_close(&mut s, g, "", "CreateScanJobRequest");
    proof {
        reveal_strlit("\n");
        reveal_strlit("");
        assert("\n"@ =~= nl());
        assert(""@ =~= Seq::<char>::empty());
        assert(g@ =~= wsd_job_head(*req) + wsd_job_tail(*req));
    }
    s
}

pub fn create_scan_job_xml(to: &str, req: &ScanRequest) -> (r: String)
    ensures
        fresh_envelope(r@, to@, ACTION_CREATE@, spec_wsd_job_body(*req)),
{
    let inner = job_body_xml(req);
    envelope(to, ACTION_CREATE, inner.as_str())
}

/// The WSD `RetrieveImageRequest` body for a job.
pub open spec fn spec_wsd_retrieve_body(job_id: Seq<char>, token: Seq<char>) -> Seq<char> {
    RETRIEVE_HEAD@ + xml_escaped(job_id, true) + RETRIEVE_AFTER_ID@ + xml_escaped(token, true)
        + RETRIEVE_TAIL@
}

pub fn retrieve_image_xml(to: &str, job_id: &str, token: &str) -> (r: String)
    ensures
        fresh_envelope(r@, to@, ACTION_RETRIEVE@, spec_wsd_retrieve_body(job_id@, token@)),
{
    let id = xml_escape(job_id, true);
    let tok = xml_escape(token, true);
    let mut inner = String::new();
    inner.append(RETRIEVE_HEAD);
    inner.append(id.as_str());
    inner.append(RETRIEVE_AFTER_ID);
    inner.append(tok.as_str());
    inner.append(RETRIEVE_TAIL);
    envelope(to, ACTION_RETRIEVE, inner.as_str())
}

/// `application/soap+xml; charset=utf-8; action="<action>"`.
pub open spec fn spec_content_type(action: Seq<char>) -> Seq<char> {
    "application/soap+xml; charset=utf-8; action=\""@ + action + "\""@
}

pub fn content_type(action: &str) -> (r: String)
    ensures
        r@ == spec_content_type(action@),
{
    let mut s = String::from_str("application/soap+xml; charset=utf-8; action=\"");
    s.append(action);
    s.append("\"");
    s
}

/// A WSD POST: SOAP 1.2 content type with the action, `User-Agent: WSDAPI`,
/// and a time limit in milliseconds.
pub fn request(url: &str, action: &str, xml: String, timeout_ms: u64) -> (r: HttpRequest)
    ensures
        r.method == Method::Post,
        r.url@ == url@,
        header_views(r.headers@) == seq![
            ("Content-Type"@, spec_content_type(action@)),
            ("User-Agent"@, "WSDAPI"@),
        ],
        r.body@ == vstd::utf8::encode_utf8(xml@),
        r.timeout_ms == Some(timeout_ms),
{
    let mut body: Vec<u8> = Vec::new();
    body.extend_from_slice(xml.as_str().as_bytes());
    let ct = content_type(action);
    let r = HttpRequest::post(url, body, ct.as_str()).header("User-Agent", "WSDAPI").with_timeout(
        timeout_ms,
    );
    assert(seq![("Content-Type"@, spec_content_type(action@))].push(("User-Agent"@, "WSDAPI"@))
        =~= seq![("Content-Type"@, spec_content_type(action@)), ("User-Agent"@, "WSDAPI"@)]);
    r
}

/// A reply that shows a WSD/SOAP service answered.
pub open spec fn spec_looks_alive(body: Seq<u8>) -> bool {
    let t = utf8_lossy(body);
    seq_contains(t, "Envelope"@) || seq_contains(t, "wsa:"@) || seq_contains(t, "Fault"@)
        || seq_contains(t, "wscn:"@)
}

pub fn looks_alive(body: &[u8]) -> (r: bool)
    ensures
        r == spec_looks_alive(body@),
{
    let t = lossy_string(body);
    let c = chars_of(t.as_str());
    contains_str(c.as_slice(), "Envelope") || contains_str(c.as_slice(), "wsa:") || contains_str(
        c.as_slice(),
        "Fault",
    ) || contains_str(c.as_slice(), "wscn:")
}

/// `\r\n\r\n`.
pub open spec fn blank_line() -> Seq<u8> {
    seq![13u8, 10u8, 13u8, 10u8]
}

/// `\r\n--`.
pub open spec fn boundary_start() -> Seq<u8> {
    seq![13u8, 10u8, 45u8, 45u8]
}

/// The body of the MIME part whose headers mention `content_type`: from the
/// blank line after it to the next boundary (or the end).
pub open spec fn spec_mime_part(body: Seq<u8>, content_type: Seq<u8>) -> Option<Seq<u8>> {
    match find_from(body, content_type, 0) {
        None => None,
        Some(pos) => match find_from(body.skip(pos), blank_line(), 0) {
            None => None,
            Some(rel) => {
                let rest = body.skip(pos + rel + 4);
                match find_from(rest, boundary_start(), 0) {
                    Some(end) => Some(rest.take(end)),
                    None => Some(rest),
                }
            },
        },
    }
}

fn find_in(hay: &[u8], needle: &[u8], from: usize) -> (r: Option<usize>)
    ensures
        match find_from(hay@, needle@, from as int) {
            Some(i) => r == Some(i as usize) && from <= i && i + needle@.len() <= hay@.len(),
            None => r is None,
        },
{
    let r = find_bytes(hay, needle, from);
    proof {
        let g: Option<int> = match r {
            Some(i) => Some(i as int),
            None => None,
        };
        lemma_find_from(hay@, needle@, from as int, g);
    }
    r
}

fn mime_part(body: &[u8], content_type: &[u8]) -> (r: Option<Vec<u8>>)
    ensures
        match spec_mime_part(body@, content_type@) {
            Some(p) => r matches Some(v) && v@ == p,
            None => r is None,
        },
{
    let pos = match find_in(body, content_type, 0) {
        Some(p) => p,
        None => {
            return None;
        },
    };
    let after = &body[pos..body.len()];
    assert(after@ =~= body@.skip(pos as int));
    let bl: [u8; 4] = [13, 10, 13, 10];
    assert(bl@ =~= blank_line());
    let rel = match find_in(after, bl.as_slice(), 0) {
        Some(r) => r,
        None => {
            return None;
        },
    };
    let start = pos + rel + 4;
    let rest = &body[start..body.len()];
    assert(rest@ =~= body@.skip(start as int));
    let bs: [u8; 4] = [13, 10, 45, 45];
    assert(bs@ =~= boundary_start());
    let end = match find_in(rest, bs.as_slice(), 0) {
        Some(e) => e,
        None => rest.len(),
    };
    let mut out: Vec<u8> = Vec::new();
    out.extend_from_slice(&rest[0..end]);
    proof {
        if find_from(rest@, boundary_start(), 0) is None {
            assert(out@ =~= rest@);
        } else {
            assert(out@ =~= rest@.take(end as int));
        }
    }
    Some(out)
}

/// `BM`.
pub open spec fn bm() -> Seq<u8> {
    seq![66u8, 77u8]
}

/// What `clip_bmp` does: keep a bare DIB, cut a BMP to its declared file
/// size when that is plausible, else keep it whole if it holds the headers.
pub open spec fn spec_clip_bmp(b: Seq<u8>) -> core::result::Result<Seq<u8>, Seq<char>> {
    if spec_is_dib(b) && !spec_is_bmp(b) {
        Ok(b)
    } else if b.len() < 6 || b[0] != 66 || b[1] != 77 {
        Err("truncated BMP"@)
    } else {
        let size = le32_at(b, 2);
        if size >= 54 && size <= b.len() {
            Ok(b.take(size as int))
        } else if b.len() >= 54 {
            Ok(b)
        } else {
            Err("truncated BMP"@)
        }
    }
}

fn protocol_error(text: &str) -> (e: Error)
    ensures
        e matches Error::Protocol(m) && m@ == text@,
{
    Error::Protocol(String::from_str(text))
}

fn to_vec(b: &[u8]) -> (r: Vec<u8>)
    ensures
        r@ == b@,
{
    let mut v: Vec<u8> = Vec::new();
    v.extend_from_slice(b);
    v
}

fn clip_bmp(bytes: &[u8]) -> (r: Result<Vec<u8>>)
    ensures
        bytes_match(r, spec_clip_bmp(bytes@)),
{
    if is_dib(bytes) && !is_bmp(bytes) {
        return Ok(to_vec(bytes));
    }
    if bytes.len() < 6 || bytes[0] != 66 || bytes[1] != 77 {
        return Err(protocol_error("truncated BMP"));
    }
    let size = (bytes[2] as u64) + 256 * ((bytes[3] as u64) + 256 * ((bytes[4] as u64) + 256
        * (bytes[5] as u64)));
    assert(size as nat == le32_at(bytes@, 2));
    if size >= 54 && size <= bytes.len() as u64 {
        let v = to_vec(&bytes[0..size as usize]);
        assert(v@ =~= bytes@.take(size as int));
        Ok(v)
    } else if bytes.len() >= 54 {
        Ok(to_vec(bytes))
    } else {
        Err(protocol_error("truncated BMP"))
    }
}

/// `image/bmp`, `image/jpeg`, `image/dib` as bytes.
pub open spec fn ct_bmp() -> Seq<u8> {
    seq![105u8, 109u8, 97u8, 103u8, 101u8, 47u8, 98u8, 109u8, 112u8]
}

pub open spec fn ct_jpeg() -> Seq<u8> {
    seq![105u8, 109u8, 97u8, 103u8, 101u8, 47u8, 106u8, 112u8, 101u8, 103u8]
}

pub open spec fn ct_dib() -> Seq<u8> {
    seq![105u8, 109u8, 97u8, 103u8, 101u8, 47u8, 100u8, 105u8, 98u8]
}

/// The first MIME part typed `image/bmp`, else `image/jpeg`, else `image/dib`.
pub open spec fn image_part(b: Seq<u8>) -> Option<Seq<u8>> {
    match spec_mime_part(b, ct_bmp()) {
        Some(p) => Some(p),
        None => match spec_mime_part(b, ct_jpeg()) {
            Some(p) => Some(p),
            None => spec_mime_part(b, ct_dib()),
        },
    }
}

/// Starts with the JPEG SOI marker.
pub open spec fn starts_soi(b: Seq<u8>) -> bool {
    b.len() >= 2 && b[0] == 0xff && b[1] == 0xd8
}

/// After the typed-part attempt: a bare `BM`, else a bare SOI, else nothing.
pub open spec fn scan_for_image(b: Seq<u8>) -> core::result::Result<Seq<u8>, Seq<char>> {
    match find_from(b, bm(), 0) {
        Some(i) => spec_clip_bmp(b.skip(i)),
        None => match find_from(b, seq![0xffu8, 0xd8u8], 0) {
            Some(i) => Ok(b.skip(i)),
            None => Err("WSD RetrieveImage had no BMP or JPEG part"@),
        },
    }
}

/// Pull a BMP or JPEG out of a WSD RetrieveImage body (raw or MTOM/XOP).
pub open spec fn spec_extract_image(b: Seq<u8>) -> core::result::Result<Seq<u8>, Seq<char>> {
    if spec_is_jpeg(b) {
        Ok(b)
    } else if spec_is_bmp(b) {
        spec_clip_bmp(b)
    } else {
        match image_part(b) {
            Some(part) => if spec_is_jpeg(part) || starts_soi(part) {
                Ok(part)
            } else if spec_is_bmp(part) || spec_is_dib(part) {
                spec_clip_bmp(part)
            } else {
                scan_for_image(b)
            },
            None => scan_for_image(b),
        }
    }
}

fn scan_for_image_exec(body: &[u8]) -> (r: Result<Vec<u8>>)
    ensures
        bytes_match(r, scan_for_image(body@)),
{
    let m: [u8; 2] = [66, 77];
    assert(m@ =~= bm());
    if let Some(i) = find_in(body, m.as_slice(), 0) {
        let rest = &body[i..body.len()];
        assert(rest@ =~= body@.skip(i as int));
        return clip_bmp(rest);
    }
    let soi: [u8; 2] = [0xff, 0xd8];
    assert(soi@ =~= seq![0xffu8, 0xd8u8]);
    if let Some(i) = find_in(body, soi.as_slice(), 0) {
        let v = to_vec(&body[i..body.len()]);
        assert(v@ =~= body@.skip(i as int));
        return Ok(v);
    }
    Err(protocol_error("WSD RetrieveImage had no BMP or JPEG part"))
}

pub fn extract_image(body: &[u8]) -> (r: Result<Vec<u8>>)
    ensures
        bytes_match(r, spec_extract_image(body@)),
{
    if is_jpeg(body) {
        return Ok(to_vec(body));
    }
    if is_bmp(body) {
        return clip_bmp(body);
    }
    let cb: [u8; 9] = [105, 109, 97, 103, 101, 47, 98, 109, 112];
    let cj: [u8; 10] = [105, 109, 97, 103, 101, 47, 106, 112, 101, 103];
    let cd: [u8; 9] = [105, 109, 97, 103, 101, 47, 100, 105, 98];
    assert(cb@ =~= ct_bmp());
    assert(cj@ =~= ct_jpeg());
    assert(cd@ =~= ct_dib());
    let part = match mime_part(body, cb.as_slice()) {
        Some(p) => Some(p),
        None => match mime_part(body, cj.as_slice()) {
            Some(p) => Some(p),
            None => mime_part(body, cd.as_slice()),
        },
    };
    if let Some(part) = part {
        if is_jpeg(part.as_slice()) || (part.len() >= 2 && part[0] == 0xff && part[1] == 0xd8) {
            return Ok(part);
        }
        if is_bmp(part.as_slice()) || is_dib(part.as_slice()) {
            return clip_bmp(part.as_slice());
        }
    }
    scan_for_image_exec(body)
}

/// The MTOM/XOP reply up to the image: the SOAP part, then the headers of
/// the `image/bmp` part (boundary `==hp-m177-wsd`).
pub const MTOM_HEAD: &'static str = "--==hp-m177-wsd\r\nContent-Type: application/xop+xml\r\n\r\n<?xml version=\"1.0\"?><SOAP-ENV:Envelope xmlns:SOAP-ENV=\"http://www.w3.org/2003/05/soap-envelope\"><SOAP-ENV:Body><RetrieveImageResponse/></SOAP-ENV:Body></SOAP-ENV:Envelope>\r\n--==hp-m177-wsd\r\nContent-Type: image/bmp\r\n\r\n";

/// The closing boundary of the MTOM/XOP reply.
pub const MTOM_TAIL: &'static str = "\r\n--==hp-m177-wsd--\r\n";

/// The MTOM/XOP body the live M177fw returns for RetrieveImage, around `bmp`.
pub open spec fn spec_wrap_bmp_mtom(bmp: Seq<u8>) -> Seq<u8> {
    MTOM_HEAD.spec_bytes() + bmp + MTOM_TAIL.spec_bytes()
}

fn push_str(out: &mut Vec<u8>, s: &str)
    ensures
        final(out)@ == old(out)@ + s.spec_bytes(),
{
    out.extend_from_slice(s.as_bytes());
}

pub fn wrap_bmp_mtom(bmp: &[u8]) -> (r: Vec<u8>)
    ensures
        r@ == spec_wrap_bmp_mtom(bmp@),
{
    let mut out: Vec<u8> = Vec::new();
    push_str(&mut out, MTOM_HEAD);
    out.extend_from_slice(bmp);
    push_str(&mut out, MTOM_TAIL);
    assert(Seq::<u8>::empty() + MTOM_HEAD.spec_bytes() =~= MTOM_HEAD.spec_bytes());
    out
}

proof fn lemma_ascii_lit_bytes(s: &str)
    requires
        forall|k: int| 0 <= k < s@.len() ==> '\0' <= #[trigger] s@[k] <= '\u{7f}',
    ensures
        s.spec_bytes().len() == s@.len(),
        forall|k: int| 0 <= k < s@.len() ==> s.spec_bytes()[k] == #[trigger] s@[k] as u8,
{
    vstd::utf8::is_ascii_chars_encode_utf8(s@);
}

/// The bytes of the MTOM head that the proofs below use.
#[verifier::spinoff_prover]
#[verifier::rlimit(60)]
proof fn lemma_mtom_head()
    ensures
        MTOM_HEAD.spec_bytes().len() == 272,
        MTOM_HEAD.spec_bytes()[0] == 45u8,
        MTOM_HEAD.spec_bytes().subrange(259, 268) == ct_bmp(),
        MTOM_HEAD.spec_bytes().subrange(268, 272) == blank_line(),
        forall|k: int| 0 <= k < 259 ==> !(#[trigger] MTOM_HEAD.spec_bytes()[k] == 105u8
            && MTOM_HEAD.spec_bytes()[k + 1] == 109u8),
        forall|k: int| 259 <= k < 268 ==> #[trigger] MTOM_HEAD.spec_bytes()[k] != 13u8,
        MTOM_TAIL.spec_bytes().len() >= 4,
        MTOM_TAIL.spec_bytes().subrange(0, 4) == boundary_start(),
{
    reveal_strlit("--==hp-m177-wsd\r\nContent-Type: application/xop+xml\r\n\r\n<?xml version=\"1.0\"?><SOAP-ENV:Envelope xmlns:SOAP-ENV=\"http://www.w3.org/2003/05/soap-envelope\"><SOAP-ENV:Body><RetrieveImageResponse/></SOAP-ENV:Body></SOAP-ENV:Envelope>\r\n--==hp-m177-wsd\r\nContent-Type: image/bmp\r\n\r\n");
    reveal_strlit("\r\n--==hp-m177-wsd--\r\n");
    lemma_ascii_lit_bytes(MTOM_HEAD);
    lemma_ascii_lit_bytes(MTOM_TAIL);
    let h = MTOM_HEAD.spec_bytes();
    let hc = MTOM_HEAD@;
    assert forall|k: int| 0 <= k < 259 implies !(#[trigger] h[k] == 105u8 && h[k + 1] == 109u8) by {
        assert(!(hc[k] == 'i' && hc[k + 1] == 'm'));
        assert(h[k] == hc[k] as u8);
        assert(h[k + 1] == hc[k + 1] as u8);
    }
    assert forall|j: int| 0 <= j < 13 implies #[trigger] h[259 + j] == hc[259 + j] as u8 by {}
    assert(hc[259] == 'i' && hc[260] == 'm' && hc[261] == 'a' && hc[262] == 'g');
    assert(hc[263] == 'e' && hc[264] == '/' && hc[265] == 'b' && hc[266] == 'm');
    assert(hc[267] == 'p' && hc[268] == '\r' && hc[269] == '\n' && hc[270] == '\r');
    assert(hc[271] == '\n');
    assert(h[259] == 105u8 && h[260] == 109u8 && h[261] == 97u8 && h[262] == 103u8);
    assert(h[263] == 101u8 && h[264] == 47u8 && h[265] == 98u8 && h[266] == 109u8);
    assert(h[267] == 112u8 && h[268] == 13u8 && h[269] == 10u8 && h[270] == 13u8);
    assert(h[271] == 10u8);
    assert(h.subrange(259, 268) =~= ct_bmp());
    assert(h.subrange(268, 272) =~= blank_line());
    let t = MTOM_TAIL.spec_bytes();
    let tc = MTOM_TAIL@;
    assert(t[0] == tc[0] as u8 && t[1] == tc[1] as u8 && t[2] == tc[2] as u8 && t[3] == tc[3] as u8);
    assert(t.subrange(0, 4) =~= boundary_start());
}

/// What the fake device sends back is what `extract_image` takes out: a
/// BMP whose header gives its own length, and which holds no CRLF followed
/// by `--`, comes back unchanged.
pub proof fn lemma_extract_wrapped_bmp(bmp: Seq<u8>)
    requires
        spec_is_bmp(bmp),
        le32_at(bmp, 2) == bmp.len(),
        !seq_contains(bmp, boundary_start()),
    ensures
        spec_extract_image(spec_wrap_bmp_mtom(bmp)) == Ok::<Seq<u8>, Seq<char>>(bmp),
{
    lemma_mtom_head();
    let h = MTOM_HEAD.spec_bytes();
    let t = MTOM_TAIL.spec_bytes();
    let w = spec_wrap_bmp_mtom(bmp);
    assert forall|k: int| 0 <= k < 272 implies w[k] == #[trigger] h[k] by {}
    assert(w[0] == 45u8);
    assert(!spec_is_jpeg(w) && !spec_is_bmp(w));
    lemma_find_ct_bmp(bmp);
    lemma_find_boundary(bmp);
    assert(spec_mime_part(w, ct_bmp()) == Some(bmp));
    assert(bmp.take(bmp.len() as int) =~= bmp);
}

#[verifier::spinoff_prover]
#[verifier::rlimit(40)]
proof fn lemma_find_ct_bmp(bmp: Seq<u8>)
    ensures
        find_from(spec_wrap_bmp_mtom(bmp), ct_bmp(), 0) == Some(259int),
        find_from(spec_wrap_bmp_mtom(bmp).skip(259), blank_line(), 0) == Some(9int),
{
    lemma_mtom_head();
    let h = MTOM_HEAD.spec_bytes();
    let w = spec_wrap_bmp_mtom(bmp);
    assert(w.subrange(259, 268) =~= h.subrange(259, 268));
    assert(none_before(w, ct_bmp(), 0, 259)) by {
        assert forall|k: int| 0 <= k < 259 implies !occurs_at(w, ct_bmp(), k) by {
            assert(w[k] == h[k] && w[k + 1] == h[k + 1]);
            if occurs_at(w, ct_bmp(), k) {
                assert(w.subrange(k, k + 9)[0] == w[k]);
                assert(w.subrange(k, k + 9)[1] == w[k + 1]);
            }
        }
    }
    lemma_find_from(w, ct_bmp(), 0, Some(259));
    let u = w.skip(259);
    assert(u.subrange(9, 13) =~= h.subrange(268, 272));
    assert(none_before(u, blank_line(), 0, 9)) by {
        assert forall|k: int| 0 <= k < 9 implies !occurs_at(u, blank_line(), k) by {
            assert(u[k] == h[259 + k]);
            if occurs_at(u, blank_line(), k) {
                assert(u.subrange(k, k + 4)[0] == u[k]);
            }
        }
    }
    lemma_find_from(u, blank_line(), 0, Some(9));
}

#[verifier::spinoff_prover]
#[verifier::rlimit(40)]
proof fn lemma_find_boundary(bmp: Seq<u8>)
    requires
        !seq_contains(bmp, boundary_start()),
    ensures
        spec_wrap_bmp_mtom(bmp).skip(272) == bmp + MTOM_TAIL.spec_bytes(),
        find_from(bmp + MTOM_TAIL.spec_bytes(), boundary_start(), 0) == Some(bmp.len() as int),
        (bmp + MTOM_TAIL.spec_bytes()).take(bmp.len() as int) == bmp,
{
    lemma_mtom_head();
    let t = MTOM_TAIL.spec_bytes();
    let rest = bmp + t;
    assert(spec_wrap_bmp_mtom(bmp).skip(272) =~= rest);
    let n = bmp.len() as int;
    assert(rest.subrange(n, n + 4) =~= t.subrange(0, 4));
    assert(none_before(rest, boundary_start(), 0, n)) by {
        assert forall|k: int| 0 <= k < n implies !occurs_at(rest, boundary_start(), k) by {
            if occurs_at(rest, boundary_start(), k) {
                if k + 4 <= n {
                    assert(bmp.subrange(k, k + 4) =~= rest.subrange(k, k + 4));
                    assert(occurs_at(bmp, boundary_start(), k));
                } else {
                    assert(rest[n] == t[0]);
                    assert(t[0] == 13u8);
                    assert(rest.subrange(k, k + 4)[n - k] == rest[n]);
                }
            }
        }
    }
    lemma_find_from(rest, boundary_start(), 0, Some(n));
    assert(rest.take(n) =~= bmp);
}


/// The envelope's parts around a body are well formed when the action and
/// message id are plain text and the address holds no `<`.
#[verifier::spinoff_prover]
#[verifier::rlimit(40)]
proof fn lemma_envelope_ok(to: Seq<char>, action: Seq<char>, msgid: Seq<char>)
    requires
        all_ascii(action),
        lacks(action, '<'),
        all_ascii(msgid),
        lacks(msgid, '<'),
        lacks(to, '<'),
    ensures
        all_ascii(WSD_DECL@),
        lacks(WSD_DECL@, '>'),
        lacks(WSD_DECL@, '?'),
        pieces_ok(envelope_pre(action, msgid)),
        raw_ok(to_elem(to)),
        pieces_ok(envelope_mid()),
        pieces_ok(envelope_end()),
{
    reveal_strlit("xml version=\"1.0\" encoding=\"UTF-8\"");
    reveal_strlit(" xmlns:s=\"http://www.w3.org/2003/05/soap-envelope\" xmlns:a=\"http://schemas.xmlsoap.org/ws/2004/08/addressing\" xmlns:sca=\"http://schemas.microsoft.com/windows/2006/08/wdp/scan\"");
    reveal_strlit(" s:mustUnderstand=\"1\"");
    reveal_strlit("http://schemas.xmlsoap.org/ws/2004/08/addressing/role/anonymous");
    reveal_strlit("s");
    reveal_strlit("a");
    reveal_strlit("Envelope");
    reveal_strlit("Header");
    reveal_strlit("Action");
    reveal_strlit("MessageID");
    reveal_strlit("To");
    reveal_strlit("ReplyTo");
    reveal_strlit("Address");
    reveal_strlit("Body");
    assert forall|i: int| 0 <= i < WSD_DECL@.len() implies ascii(#[trigger] WSD_DECL@[i])
        && WSD_DECL@[i] != '>' && WSD_DECL@[i] != '?' by {}
    assert(attrs_ok(WSD_ENVELOPE_ATTRS@)) by {
        assert forall|i: int| 0 <= i < WSD_ENVELOPE_ATTRS@.len() implies ascii(
            #[trigger] WSD_ENVELOPE_ATTRS@[i],
        ) && WSD_ENVELOPE_ATTRS@[i] != '>' by {}
    }
    assert(attrs_ok(MUST_UNDERSTAND@)) by {
        assert forall|i: int| 0 <= i < MUST_UNDERSTAND@.len() implies ascii(
            #[trigger] MUST_UNDERSTAND@[i],
        ) && MUST_UNDERSTAND@[i] != '>' by {}
    }
    lemma_plain_text(ANONYMOUS@);
    lemma_name("s"@);
    lemma_name("a"@);
    lemma_name("Envelope"@);
    lemma_name("Header"@);
    lemma_name("Action"@);
    lemma_name("MessageID"@);
    lemma_name("To"@);
    lemma_name("ReplyTo"@);
    lemma_name("Address"@);
    lemma_name("Body"@);
    assert(blank(nl()));
    assert(blank(Seq::<char>::empty()));
    assert(attrs_ok(Seq::<char>::empty()));
    let pre = envelope_pre(action, msgid);
    assert forall|k: int| 0 <= k < pre.len() implies piece_ok(#[trigger] pre[k]) by {}
    let mid = envelope_mid();
    assert forall|k: int| 0 <= k < mid.len() implies piece_ok(#[trigger] mid[k]) by {}
    let end = envelope_end();
    assert forall|k: int| 0 <= k < end.len() implies piece_ok(#[trigger] end[k]) by {}
}

#[verifier::spinoff_prover]
#[verifier::rlimit(60)]
proof fn lemma_wsd_job_ok(req: ScanRequest)
    ensures
        pieces_ok(wsd_job_head(req)),
        pieces_ok(wsd_job_tail(req)),
{
    reveal_strlit("sca");
    reveal_strlit("CreateScanJobRequest");
    reveal_strlit("ScanTicket");
    reveal_strlit("JobDescription");
    reveal_strlit("JobName");
    reveal_strlit("JobOriginatingUserName");
    reveal_strlit("JobInformation");
    reveal_strlit("DocumentParameters");
    reveal_strlit("Format");
    reveal_strlit("ImagesToTransfer");
    reveal_strlit("ContentType");
    reveal_strlit("InputSize");
    reveal_strlit("InputMediaSize");
    reveal_strlit("Width");
    reveal_strlit("Height");
    reveal_strlit("InputSource");
    reveal_strlit("MediaSides");
    reveal_strlit("MediaFront");
    reveal_strlit("ColorProcessing");
    reveal_strlit("Resolution");
    reveal_strlit("ScanRegion");
    reveal_strlit("ScanRegionXOffset");
    reveal_strlit("ScanRegionYOffset");
    reveal_strlit("ScanRegionWidth");
    reveal_strlit("ScanRegionHeight");
    reveal_strlit("hp-m177");
    reveal_strlit("dib");
    reveal_strlit("Photo");
    reveal_strlit("Platen");
    reveal_strlit("ADF");
    reveal_strlit("RGB24");
    reveal_strlit("GrayScale8");
    reveal_strlit("BlackandWhite1");
    lemma_name("sca"@);
    lemma_name("CreateScanJobRequest"@);
    lemma_name("ScanTicket"@);
    lemma_name("JobDescription"@);
    lemma_name("JobName"@);
    lemma_name("JobOriginatingUserName"@);
    lemma_name("JobInformation"@);
    lemma_name("DocumentParameters"@);
    lemma_name("Format"@);
    lemma_name("ImagesToTransfer"@);
    lemma_name("ContentType"@);
    lemma_name("InputSize"@);
    lemma_name("InputMediaSize"@);
    lemma_name("Width"@);
    lemma_name("Height"@);
    lemma_name("InputSource"@);
    lemma_name("MediaSides"@);
    lemma_name("MediaFront"@);
    lemma_name("ColorProcessing"@);
    lemma_name("Resolution"@);
    lemma_name("ScanRegion"@);
    lemma_name("ScanRegionXOffset"@);
    lemma_name("ScanRegionYOffset"@);
    lemma_name("ScanRegionWidth"@);
    lemma_name("ScanRegionHeight"@);
    lemma_plain_text("hp-m177"@);
    lemma_plain_text("dib"@);
    lemma_plain_text("Photo"@);
    lemma_plain_text(spec_source_soap_name(req.source));
    lemma_plain_text(spec_color_soap_name(req.color));
    let media = spec_media_size(req.source);
    let region = spec_region_or_full(req);
    lemma_decimal_text(images_to_transfer(req.source));
    lemma_decimal_text(media.0 as nat);
    lemma_decimal_text(media.1 as nat);
    lemma_decimal_text(req.dpi as nat);
    lemma_decimal_text(region.x as nat);
    lemma_decimal_text(region.y as nat);
    lemma_decimal_text(region.width as nat);
    lemma_decimal_text(region.height as nat);
    assert(blank(nl()));
    assert(blank(Seq::<char>::empty()));
    assert(attrs_ok(Seq::<char>::empty()));
    let h = wsd_job_head(req);
    assert forall|k: int| 0 <= k < h.len() implies piece_ok(#[trigger] h[k]) by {}
    let t = wsd_job_tail(req);
    assert forall|k: int| 0 <= k < t.len() implies piece_ok(#[trigger] t[k]) by {}
}

/// What the ticket's head gives under each name the device reads.
pub open spec fn wsd_head_reads(req: ScanRequest, n: Seq<char>) -> Seq<Seq<char>> {
    let media = spec_media_size(req.source);
    if n == "InputSource"@ {
        seq![spec_source_soap_name(req.source)]
    } else if n == "Width"@ {
        seq![decimal(media.0 as nat)]
    } else if n == "Height"@ {
        seq![decimal(media.1 as nat)]
    } else {
        Seq::empty()
    }
}

#[verifier::spinoff_prover]
#[verifier::rlimit(80)]
proof fn lemma_wsd_head_picks(req: ScanRequest, n: Seq<char>)
    requires
        read_name(n),
    ensures
        pieces_picks(wsd_job_head(req), n) == wsd_head_reads(req, n),
{
    lemma_reveal_read_names();
    reveal_strlit("JobName");
    reveal_strlit("JobOriginatingUserName");
    reveal_strlit("JobInformation");
    reveal_strlit("Format");
    reveal_strlit("ImagesToTransfer");
    reveal_strlit("ContentType");
    reveal_strlit("Platen");
    reveal_strlit("ADF");
    let g = wsd_job_head(req);
    let media = spec_media_size(req.source);
    lemma_decimal_trim(media.0 as nat);
    lemma_decimal_trim(media.1 as nat);
    lemma_trim_plain(spec_source_soap_name(req.source));
    let k: int = if n == "InputSource"@ {
        17
    } else if n == "Width"@ {
        13
    } else if n == "Height"@ {
        14
    } else {
        -1
    };
    if k >= 0 {
        let t = wsd_head_reads(req, n)[0];
        assert(wsd_head_reads(req, n) == seq![t]);
        assert(piece_picks(g[k], n) == seq![t]);
        assert forall|j: int| 0 <= j < g.len() && j != k implies #[trigger] piece_picks(g[j], n).len()
            == 0 by {}
        lemma_pieces_picks_one(g, n, k, t);
    } else {
        assert forall|j: int| 0 <= j < g.len() implies #[trigger] piece_picks(g[j], n).len() == 0 by {}
        lemma_pieces_picks_none(g, n);
    }
}

#[verifier::spinoff_prover]
#[verifier::rlimit(80)]
proof fn lemma_wsd_tail_picks(req: ScanRequest, n: Seq<char>)
    requires
        read_name(n),
    ensures
        pieces_picks(wsd_job_tail(req), n) == tail_reads(req, n),
{
    lemma_reveal_read_names();
    reveal_strlit("RGB24");
    reveal_strlit("GrayScale8");
    reveal_strlit("BlackandWhite1");
    let g = wsd_job_tail(req);
    let region = spec_region_or_full(req);
    lemma_decimal_trim(req.dpi as nat);
    lemma_decimal_trim(region.x as nat);
    lemma_decimal_trim(region.y as nat);
    lemma_decimal_trim(region.height as nat);
    lemma_decimal_trim(region.width as nat);
    lemma_trim_plain(spec_color_soap_name(req.color));
    let k: int = if n == "Width"@ {
        4
    } else if n == "Height"@ {
        5
    } else if n == "ScanRegionXOffset"@ {
        8
    } else if n == "ScanRegionYOffset"@ {
        9
    } else if n == "ScanRegionWidth"@ {
        10
    } else if n == "ScanRegionHeight"@ {
        11
    } else if n == "ColorProcessing"@ {
        2
    } else {
        -1
    };
    if k >= 0 {
        let t = tail_reads(req, n)[0];
        assert(tail_reads(req, n) == seq![t]);
        assert(piece_picks(g[k], n) == seq![t]);
        assert forall|j: int| 0 <= j < g.len() && j != k implies #[trigger] piece_picks(g[j], n).len()
            == 0 by {}
        lemma_pieces_picks_one(g, n, k, t);
    } else {
        assert forall|j: int| 0 <= j < g.len() implies #[trigger] piece_picks(g[j], n).len() == 0 by {}
        lemma_pieces_picks_none(g, n);
    }
}

/// What the scanner reports under a name the device reads in a WSD
/// `CreateScanJob` envelope: the ticket head's texts, then the tail's.
#[verifier::spinoff_prover]
#[verifier::rlimit(60)]
proof fn lemma_wsd_ticket_reads(req: ScanRequest, to: Seq<char>, msgid: Seq<char>, n: Seq<char>)
    requires
        read_name(n),
        lacks(to, '<'),
        all_ascii(msgid),
        lacks(msgid, '<'),
    ensures
        texts_in(spec_envelope(to, ACTION_CREATE@, spec_wsd_job_body(req), msgid), n)
            == wsd_head_reads(req, n) + tail_reads(req, n),
{
    lemma_reveal_read_names();
    reveal_strlit("To");
    reveal_strlit("Action");
    reveal_strlit("MessageID");
    reveal_strlit("Address");
    reveal_strlit("http://schemas.microsoft.com/windows/2006/08/wdp/scan/CreateScanJob");
    lemma_plain_text(ACTION_CREATE@);
    lemma_envelope_ok(to, ACTION_CREATE@, msgid);
    lemma_wsd_job_ok(req);
    let pre = envelope_pre(ACTION_CREATE@, msgid);
    let mid = envelope_mid();
    let h = wsd_job_head(req);
    let t = wsd_job_tail(req);
    let end = envelope_end();
    lemma_pieces_concat(h, t, n);
    lemma_pieces_concat(mid, h + t, n);
    lemma_pieces_concat(mid + (h + t), end, n);
    let post = mid + (h + t) + end;
    assert(spec_envelope(to, ACTION_CREATE@, spec_wsd_job_body(req), msgid) =~= raw_doc_chars(
        WSD_DECL@,
        pre,
        to_elem(to),
        post,
    ));
    lemma_raw_doc_texts(WSD_DECL@, pre, to_elem(to), post, n);
    assert forall|j: int| 0 <= j < pre.len() implies #[trigger] piece_picks(pre[j], n).len() == 0 by {}
    lemma_pieces_picks_none(pre, n);
    assert forall|j: int| 0 <= j < mid.len() implies #[trigger] piece_picks(mid[j], n).len() == 0 by {}
    lemma_pieces_picks_none(mid, n);
    assert forall|j: int| 0 <= j < end.len() implies #[trigger] piece_picks(end[j], n).len() == 0 by {}
    lemma_pieces_picks_none(end, n);
    lemma_wsd_head_picks(req, n);
    lemma_wsd_tail_picks(req, n);
    let e = Seq::<Seq<char>>::empty();
    assert(e + (e + (wsd_head_reads(req, n) + tail_reads(req, n)) + e) =~= wsd_head_reads(req, n)
        + tail_reads(req, n));
}

/// A WSD `CreateScanJobRequest` written for `req` reads back, on the
/// device's side, as the SOAP ticket does: source, color mode, resolution
/// (in the 50–1200 dpi range the reader accepts) and the region sent, for
/// any address without `<` and any plain message id.
#[verifier::spinoff_prover]
#[verifier::rlimit(40)]
pub proof fn lemma_wsd_ticket_roundtrip(req: ScanRequest, to: Seq<char>, msgid: Seq<char>)
    requires
        50 <= req.dpi <= 1200,
        lacks(to, '<'),
        all_ascii(msgid),
        lacks(msgid, '<'),
    ensures
        spec_parse_job_ticket(spec_envelope(to, ACTION_CREATE@, spec_wsd_job_body(req), msgid))
            == Some(
            ScanRequest {
                source: req.source,
                color: req.color,
                dpi: req.dpi,
                format: OutputFormat::Jpeg,
                output: None,
                region: sent_region(spec_region_or_full(req)),
            },
        ),
{
    let x = spec_envelope(to, ACTION_CREATE@, spec_wsd_job_body(req), msgid);
    let media = spec_media_size(req.source);
    let region = spec_region_or_full(req);
    lemma_reveal_read_names();
    lemma_wsd_ticket_reads(req, to, msgid, "InputSource"@);
    assert(texts_in(x, "InputSource"@) =~= seq![spec_source_soap_name(req.source)]);
    lemma_soap_source_back(req.source);
    lemma_wsd_ticket_reads(req, to, msgid, "ColorProcessing"@);
    assert(texts_in(x, "ColorProcessing"@) =~= seq![spec_color_soap_name(req.color)]);
    lemma_soap_color_back(req.color);
    lemma_wsd_ticket_reads(req, to, msgid, "Width"@);
    let widths = texts_in(x, "Width"@);
    assert(widths =~= seq![decimal(media.0 as nat), decimal(req.dpi as nat)]);
    lemma_parse_decimal(req.dpi as nat, u32_max());
    assert(widths.last() == decimal(req.dpi as nat));
    assert(last_u32(widths) == Some(req.dpi as nat));
    assert(ticket_dpi(x) == req.dpi as nat);
    lemma_wsd_ticket_reads(req, to, msgid, "ScanRegionXOffset"@);
    assert(texts_in(x, "ScanRegionXOffset"@) =~= seq![decimal(region.x as nat)]);
    lemma_parse_decimal(region.x as nat, u32_max());
    lemma_wsd_ticket_reads(req, to, msgid, "ScanRegionYOffset"@);
    assert(texts_in(x, "ScanRegionYOffset"@) =~= seq![decimal(region.y as nat)]);
    lemma_parse_decimal(region.y as nat, u32_max());
    lemma_wsd_ticket_reads(req, to, msgid, "ScanRegionWidth"@);
    assert(texts_in(x, "ScanRegionWidth"@) =~= seq![decimal(region.width as nat)]);
    lemma_parse_decimal(region.width as nat, u32_max());
    lemma_wsd_ticket_reads(req, to, msgid, "ScanRegionHeight"@);
    assert(texts_in(x, "ScanRegionHeight"@) =~= seq![decimal(region.height as nat)]);
    lemma_parse_decimal(region.height as nat, u32_max());
    assert(ticket_region(x) == sent_region(region));
}


/// Every WSD `CreateScanJobRequest` that `create_scan_job_xml` writes, with
/// whatever fresh message id, reads back as its request.
pub proof fn lemma_wsd_create_reads_back(req: ScanRequest, to: Seq<char>, x: Seq<char>)
    requires
        50 <= req.dpi <= 1200,
        lacks(to, '<'),
        fresh_envelope(x, to, ACTION_CREATE@, spec_wsd_job_body(req)),
    ensures
        spec_parse_job_ticket(x) == Some(
            ScanRequest {
                source: req.source,
                color: req.color,
                dpi: req.dpi,
                format: OutputFormat::Jpeg,
                output: None,
                region: sent_region(spec_region_or_full(req)),
            },
        ),
{
    let id = choose|id: Seq<char>|
        #[trigger] uuid_text(id) && x == spec_envelope(
            to,
            ACTION_CREATE@,
            spec_wsd_job_body(req),
            "urn:uuid:"@ + id,
        );
    reveal_strlit("urn:uuid:");
    let m = "urn:uuid:"@ + id;
    assert forall|k: int| 0 <= k < m.len() implies ascii(#[trigger] m[k]) && m[k] != '<' by {
        if k >= 9 {
            assert(m[k] == id[k - 9]);
            assert(0 <= k - 9 < 36);
        }
    }
    lemma_wsd_ticket_roundtrip(req, to, m);
}

} // verus!
