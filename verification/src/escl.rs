//! eSCL (AirScan) XML used by the local Mac-facing facade and, if a device
//! actually implements ScanJobs, by the device client.
//!
//! The live M177fw serves ScannerCapabilities / ScannerStatus (old 2011/02/08
//! schema) but POST /eSCL/ScanJobs returns 404. The facade therefore speaks
//! modern eSCL (2011/05/03) toward the Mac and drives HP SOAP toward the MFP.
use crate::error::{Error, Result};
use crate::model::{
    spec_color_escl_name, spec_mime, spec_source_escl_name, ColorMode, OutputFormat,
    ScanRegion, ScanRequest, ScanSource, PRODUCT_NAME,
};
use crate::soap::{
    color_from_name, color_from_name_exec, first_or, first_u32, region_from, soap_region,
    ticket_region, u32_max,
};
use crate::text::{
    trim, ascii_lower, chars_eq_str, chars_of, decimal, decimal_string, lower_chars, lower_contains,
    parse_u32, seq_contains, str_contains, xml_escape, xml_escaped,
};
use crate::xmldoc::{
    all_ascii, attrs_ok, blank, doc_ok, doc_picks, elem_ok, elems_ok, lacks,
    lemma_decimal_text, lemma_decimal_trim, lemma_differ_at, lemma_elem_ok, lemma_name,
    lemma_not_contains, lemma_plain_text,
    lemma_doc_texts, lemma_picks_first, lemma_picks_none, lemma_trim_plain, pick, picks, doc_chars, elems_chars, inner_chars, lemma_elems_chars_push, push_close, push_decl,
    push_elem, push_open, text_elem, ElemGroup, SimpleDoc, TextElem,
};
use crate::xmlutil::{first_in, first_text};
use vstd::prelude::*;

verus! {

pub const ESCL_NS: &'static str = "http://schemas.hp.com/imaging/escl/2011/05/03";

pub const PWG_NS: &'static str = "http://www.pwg.org/schemas/2010/12/sm";

/// Default AirPrint UUID used when the saved device has none (live M177fw).
pub const DEFAULT_UUID: &'static str = "8adb6a9a-f28e-31fc-15de-50e0c4efdd92";

pub const CAPS_HEAD: &'static str = "<?xml version=\"1.0\" encoding=\"UTF-8\"?>\n<scan:ScannerCapabilities xmlns:scan=\"http://schemas.hp.com/imaging/escl/2011/05/03\" xmlns:pwg=\"http://www.pwg.org/schemas/2010/12/sm\">\n  <pwg:Version>2.63</pwg:Version>\n  <pwg:MakeAndModel>";

pub const CAPS_AFTER_MODEL: &'static str = "</pwg:MakeAndModel>\n  <pwg:SerialNumber>M177FW</pwg:SerialNumber>\n  <scan:UUID>";

pub const CAPS_AFTER_UUID: &'static str = "</scan:UUID>\n  <scan:";

pub const CAPS_PLATEN_OPEN: &'static str = ">\n    <scan:PlatenInputCaps>\n      ";

pub const CAPS_PLATEN_TO_ADF: &'static str = "\n      <scan:MaxOpticalXResolution>1200</scan:MaxOpticalXResolution>\n      <scan:MaxOpticalYResolution>1200</scan:MaxOpticalYResolution>\n    </scan:PlatenInputCaps>\n  </scan:Platen>\n  <scan:";

pub const CAPS_ADF_OPEN: &'static str = ">\n    <scan:AdfSimplexInputCaps>\n      ";

pub const CAPS_TAIL: &'static str = "\n      <scan:MaxOpticalXResolution>300</scan:MaxOpticalXResolution>\n      <scan:MaxOpticalYResolution>300</scan:MaxOpticalYResolution>\n    </scan:AdfSimplexInputCaps>\n    <scan:FeederCapacity>35</scan:FeederCapacity>\n    <scan:AdfOptions>\n      <scan:AdfOption>DetectPaperLoaded</scan:AdfOption>\n    </scan:AdfOptions>\n  </scan:Adf>\n</scan:ScannerCapabilities>\n";

/// One input source's capabilities, in pieces around the color modes and
/// document formats it names.
pub const INPUT_CAPS_HEAD: &'static str = "<scan:MinWidth>300</scan:MinWidth>\n      <scan:MaxWidth>2550</scan:MaxWidth>\n      <scan:MinHeight>300</scan:MinHeight>\n      <scan:MaxHeight>3508</scan:MaxHeight>\n      <scan:MaxScanRegions>1</scan:MaxScanRegions>\n      <scan:SettingProfiles>\n        <scan:SettingProfile>\n          <scan:ColorModes>\n            <scan:ColorMode>";

pub const INPUT_CAPS_AFTER_COLOR: &'static str = "</scan:ColorMode>\n            <scan:ColorMode>";

pub const INPUT_CAPS_AFTER_GRAY: &'static str = "</scan:ColorMode>\n            <scan:ColorMode>BlackAndWhite1</scan:ColorMode>\n          </scan:ColorModes>\n          <scan:DocumentFormats>\n            <pwg:DocumentFormat>";

pub const INPUT_CAPS_AFTER_JPEG: &'static str = "</pwg:DocumentFormat>\n            <pwg:DocumentFormat>";

pub const INPUT_CAPS_TAIL: &'static str = "</pwg:DocumentFormat>\n            <scan:DocumentFormatExt>image/jpeg</scan:DocumentFormatExt>\n            <scan:DocumentFormatExt>application/pdf</scan:DocumentFormatExt>\n          </scan:DocumentFormats>\n          <scan:SupportedResolutions>\n            <scan:DiscreteResolutions>\n              <scan:DiscreteResolution>\n                <scan:XResolution>100</scan:XResolution>\n                <scan:YResolution>100</scan:YResolution>\n              </scan:DiscreteResolution>\n              <scan:DiscreteResolution>\n                <scan:XResolution>300</scan:XResolution>\n                <scan:YResolution>300</scan:YResolution>\n              </scan:DiscreteResolution>\n              <scan:DiscreteResolution>\n                <scan:XResolution>600</scan:XResolution>\n                <scan:YResolution>600</scan:YResolution>\n              </scan:DiscreteResolution>\n            </scan:DiscreteResolutions>\n          </scan:SupportedResolutions>\n          <scan:ColorSpaces>\n            <scan:ColorSpace>sRGB</scan:ColorSpace>\n          </scan:ColorSpaces>\n        </scan:SettingProfile>\n      </scan:SettingProfiles>\n      <scan:SupportedIntents>\n        <scan:Intent>Document</scan:Intent>\n        <scan:Intent>Photo</scan:Intent>\n        <scan:Intent>Preview</scan:Intent>\n      </scan:SupportedIntents>";

pub const STATUS_HEAD: &'static str = "<?xml version=\"1.0\" encoding=\"UTF-8\"?>\n<scan:ScannerStatus xmlns:scan=\"http://schemas.hp.com/imaging/escl/2011/05/03\" xmlns:pwg=\"http://www.pwg.org/schemas/2010/12/sm\">\n  <pwg:Version>2.63</pwg:Version>\n  <pwg:State>Idle</pwg:State>\n  <scan:AdfState>";

pub const STATUS_AFTER_ADF: &'static str = "</scan:AdfState>\n  <scan:Jobs>";

pub const STATUS_TAIL: &'static str = "</scan:Jobs>\n</scan:ScannerStatus>\n";

pub const JOB_URI_OPEN: &'static str = "<scan:JobInfo><pwg:JobUri>/eSCL/ScanJobs/";

pub const JOB_URI_TO_UUID: &'static str = "</pwg:JobUri><pwg:JobUuid>";

pub const JOB_UUID_TO_STATE: &'static str = "</pwg:JobUuid><scan:Age>1</scan:Age><pwg:ImagesCompleted>0</pwg:ImagesCompleted><pwg:ImagesToTransfer>1</pwg:ImagesToTransfer><scan:JobState>";

pub const JOB_INFO_CLOSE: &'static str = "</scan:JobState></scan:JobInfo>";

/// The declaration of a ScanSettings document.
pub const SETTINGS_DECL: &'static str = "xml version=\"1.0\" encoding=\"UTF-8\"";

/// The namespace attributes of a ScanSettings root element.
pub const SETTINGS_ROOT_ATTRS: &'static str = " xmlns:scan=\"http://schemas.hp.com/imaging/escl/2011/05/03\" xmlns:pwg=\"http://www.pwg.org/schemas/2010/12/sm\"";

/// The capabilities document the facade serves, for a UUID and model name
/// (both escaped).
pub open spec fn spec_capabilities(uuid: Seq<char>, make_and_model: Seq<char>) -> Seq<char> {
    CAPS_HEAD@ + xml_escaped(make_and_model, false) + CAPS_AFTER_MODEL@ + xml_escaped(
        uuid,
        false,
    ) + CAPS_AFTER_UUID@ + "Platen"@ + CAPS_PLATEN_OPEN@ + input_caps() + CAPS_PLATEN_TO_ADF@
        + "Adf"@ + CAPS_ADF_OPEN@ + input_caps() + CAPS_TAIL@
}

/// The capabilities of one input source (platen or ADF).
pub open spec fn input_caps() -> Seq<char> {
    INPUT_CAPS_HEAD@ + "RGB24"@ + INPUT_CAPS_AFTER_COLOR@ + "Grayscale8"@ + INPUT_CAPS_AFTER_GRAY@
        + "image/jpeg"@ + INPUT_CAPS_AFTER_JPEG@ + "application/pdf"@ + INPUT_CAPS_TAIL@
}

fn push_input_caps(s: &mut String)
    ensures
        final(s)@ == old(s)@ + input_caps(),
{
    let ghost before = s@;
    s.append(INPUT_CAPS_HEAD);
    s.append("RGB24");
    s.append(INPUT_CAPS_AFTER_COLOR);
    s.append("Grayscale8");
    s.append(INPUT_CAPS_AFTER_GRAY);
    s.append("image/jpeg");
    s.append(INPUT_CAPS_AFTER_JPEG);
    s.append("application/pdf");
    s.append(INPUT_CAPS_TAIL);
    assert(s@ =~= before + input_caps());
}

pub fn capabilities_xml(uuid: &str, make_and_model: &str) -> (r: String)
    ensures
        r@ == spec_capabilities(uuid@, make_and_model@),
{
    let model = xml_escape(make_and_model, false);
    let id = xml_escape(uuid, false);
    let mut s = String::new();
    s.append(CAPS_HEAD);
    s.append(model.as_str());
    s.append(CAPS_AFTER_MODEL);
    s.append(id.as_str());
    s.append(CAPS_AFTER_UUID);
    s.append("Platen");
    s.append(CAPS_PLATEN_OPEN);
    push_input_caps(&mut s);
    s.append(CAPS_PLATEN_TO_ADF);
    s.append("Adf");
    s.append(CAPS_ADF_OPEN);
    push_input_caps(&mut s);
    s.append(CAPS_TAIL);
    assert(s@ =~= spec_capabilities(uuid@, make_and_model@));
    s
}

/// One `JobInfo` element of the status document.
pub open spec fn job_entry(id: Seq<char>, state: Seq<char>) -> Seq<char> {
    JOB_URI_OPEN@ + id + JOB_URI_TO_UUID@ + id + JOB_UUID_TO_STATE@ + state + JOB_INFO_CLOSE@
}

/// The `JobInfo` elements of `jobs`, in order.
pub open spec fn job_entries<'a>(jobs: Seq<(String, &'a str)>) -> Seq<char>
    decreases jobs.len(),
{
    if jobs.len() == 0 {
        Seq::<char>::empty()
    } else {
        job_entries(jobs.drop_last()) + job_entry(jobs.last().0@, jobs.last().1@)
    }
}

/// The `AdfState` value.
pub open spec fn adf_state(adf_empty: bool) -> Seq<char> {
    if adf_empty {
        "ScannerAdfEmpty"@
    } else {
        "ScannerAdfLoaded"@
    }
}

/// The status document: always idle, with the ADF state and the known jobs.
pub open spec fn spec_status<'a>(adf_empty: bool, jobs: Seq<(String, &'a str)>) -> Seq<char> {
    STATUS_HEAD@ + adf_state(adf_empty) + STATUS_AFTER_ADF@ + job_entries(jobs) + STATUS_TAIL@
}

pub fn status_xml(adf_empty: bool, jobs: &[(String, &str)]) -> (r: String)
    ensures
        r@ == spec_status(adf_empty, jobs@),
{
    let adf = if adf_empty {
        "ScannerAdfEmpty"
    } else {
        "ScannerAdfLoaded"
    };
    let mut jobs_xml = String::new();
    for k in 0..jobs.len()
        invariant
            jobs_xml@ == job_entries(jobs@.take(k as int)),
    {
        let (id, state) = &jobs[k];
        jobs_xml.append(JOB_URI_OPEN);
        jobs_xml.append(id.as_str());
        jobs_xml.append(JOB_URI_TO_UUID);
        jobs_xml.append(id.as_str());
        jobs_xml.append(JOB_UUID_TO_STATE);
        jobs_xml.append(state);
        jobs_xml.append(JOB_INFO_CLOSE);
        assert(jobs@.take(k + 1).drop_last() =~= jobs@.take(k as int));
        assert(jobs_xml@ =~= job_entries(jobs@.take(k + 1)));
    }
    assert(jobs@.take(jobs@.len() as int) =~= jobs@);
    let mut s = String::new();
    s.append(STATUS_HEAD);
    s.append(adf);
    s.append(STATUS_AFTER_ADF);
    s.append(jobs_xml.as_str());
    s.append(STATUS_TAIL);
    s
}

/// PWG eSCL region units are 1/300 inch; SOAP tickets use 1/1000 inch
/// (`v * 10 / 3`, the product saturating at `u32::MAX`).
pub open spec fn spec_pwg_to_thousandths(v: nat) -> nat {
    if v * 10 > u32_max() {
        u32_max() / 3
    } else {
        v * 10 / 3
    }
}

pub fn pwg_300ths_to_thousandths(v: u32) -> (r: u32)
    ensures
        r as nat == spec_pwg_to_thousandths(v as nat),
{
    match v.checked_mul(10) {
        Some(p) => p / 3,
        None => u32::MAX / 3,
    }
}

/// A region given in PWG 1/300 inch, in 1/1000 inch.
pub open spec fn region_to_thousandths(r: Option<ScanRegion>) -> Option<ScanRegion> {
    match r {
        Some(r) => Some(
            ScanRegion {
                x: spec_pwg_to_thousandths(r.x as nat) as u32,
                y: spec_pwg_to_thousandths(r.y as nat) as u32,
                width: spec_pwg_to_thousandths(r.width as nat) as u32,
                height: spec_pwg_to_thousandths(r.height as nat) as u32,
            },
        ),
        None => None,
    }
}

/// The region of a ScanSettings document: a SOAP-style `ScanRegion*` in
/// 1/1000 inch, else the PWG `XOffset`/`YOffset`/`Width`/`Height` in 1/300
/// inch, converted.
pub open spec fn settings_region(x: Seq<char>) -> Option<ScanRegion> {
    match ticket_region(x) {
        Some(r) => Some(r),
        None => region_to_thousandths(
            region_from(
                first_u32(x, "XOffset"@),
                first_u32(x, "YOffset"@),
                first_u32(x, "Width"@),
                first_u32(x, "Height"@),
            ),
        ),
    }
}

fn first_u32_of(xml: &str, name: &str) -> (r: Option<u32>)
    ensures
        r matches Some(v) ==> first_u32(xml@, name@) == Some(v as nat),
        r is None ==> first_u32(xml@, name@) is None,
{
    match first_text(xml, name) {
        Some(t) => parse_u32(t.as_str()),
        None => None,
    }
}

fn parse_region(xml: &str) -> (r: Option<ScanRegion>)
    ensures
        r == settings_region(xml@),
{
    if let Some(r) = soap_region(xml) {
        return Some(r);
    }
    let x = first_u32_of(xml, "XOffset");
    let y = first_u32_of(xml, "YOffset");
    let w = first_u32_of(xml, "Width");
    let h = first_u32_of(xml, "Height");
    match (x, y, w, h) {
        (Some(x), Some(y), Some(width), Some(height)) => {
            if width > 0 && height > 0 {
                Some(
                    ScanRegion {
                        x: pwg_300ths_to_thousandths(x),
                        y: pwg_300ths_to_thousandths(y),
                        width: pwg_300ths_to_thousandths(width),
                        height: pwg_300ths_to_thousandths(height),
                    },
                )
            } else {
                None
            }
        },
        _ => None,
    }
}

/// A ScanSettings document without a SOAP-style `ScanRegionXOffset` but
/// with PWG `XOffset`, `YOffset`, `Width` and `Height` (width and height
/// positive) asks for the region whose four fields are those values in
/// 1/300 inch, each times 10/3 (rounded down) in 1/1000 inch; each value
/// is taken small enough that ten times it fits a `u32`.
pub proof fn lemma_pwg_region_in_thousandths(x: Seq<char>, xo: u32, yo: u32, w: u32, h: u32)
    requires
        first_u32(x, "ScanRegionXOffset"@) is None,
        first_u32(x, "XOffset"@) == Some(xo as nat),
        first_u32(x, "YOffset"@) == Some(yo as nat),
        first_u32(x, "Width"@) == Some(w as nat),
        first_u32(x, "Height"@) == Some(h as nat),
        w > 0,
        h > 0,
        10 * xo <= u32::MAX,
        10 * yo <= u32::MAX,
        10 * w <= u32::MAX,
        10 * h <= u32::MAX,
    ensures
        spec_parse_scan_settings(x).region matches Some(r) && 3 * r.x <= 10 * xo < 3 * r.x + 3
            && 3 * r.y <= 10 * yo < 3 * r.y + 3 && 3 * r.width <= 10 * w < 3 * r.width + 3 && 3
            * r.height <= 10 * h < 3 * r.height + 3,
{
}

/// A SOAP-style region (`ScanRegionXOffset`, `ScanRegionYOffset`,
/// `ScanRegionWidth`, `ScanRegionHeight`, width and height positive) is
/// already in 1/1000 inch: it is the region asked for, as written.
pub proof fn lemma_ticket_region_as_written(x: Seq<char>, xo: u32, yo: u32, w: u32, h: u32)
    requires
        first_u32(x, "ScanRegionXOffset"@) == Some(xo as nat),
        first_u32(x, "ScanRegionYOffset"@) == Some(yo as nat),
        first_u32(x, "ScanRegionWidth"@) == Some(w as nat),
        first_u32(x, "ScanRegionHeight"@) == Some(h as nat),
        w > 0,
        h > 0,
    ensures
        spec_parse_scan_settings(x).region == Some((ScanRegion { x: xo, y: yo, width: w, height: h })),
{
}

/// `Feeder` or `ADF` (any case) is the ADF; anything else the platen.
pub open spec fn settings_source(raw: Seq<char>) -> ScanSource {
    let n = ascii_lower(raw);
    if n == "feeder"@ || n == "adf"@ {
        ScanSource::Adf
    } else {
        ScanSource::Platen
    }
}

/// A document format name read as an output format.
pub open spec fn format_from_name(raw: Seq<char>) -> OutputFormat {
    let n = ascii_lower(raw);
    if seq_contains(n, "pdf"@) {
        OutputFormat::Pdf
    } else if seq_contains(n, "tif"@) {
        OutputFormat::Tiff
    } else {
        OutputFormat::Jpeg
    }
}

/// What a client's ScanSettings document asks for; absent fields default to
/// platen, RGB24, 300 dpi and JPEG.
pub open spec fn spec_parse_scan_settings(x: Seq<char>) -> ScanRequest {
    ScanRequest {
        source: settings_source(first_or(x, "InputSource"@, "Platen"@)),
        color: color_from_name(first_or(x, "ColorMode"@, "RGB24"@)),
        dpi: match first_u32(x, "XResolution"@) {
            Some(v) => v as u32,
            None => match first_u32(x, "YResolution"@) {
                Some(v) => v as u32,
                None => 300,
            },
        },
        format: format_from_name(
            match first_in(x, "DocumentFormat"@) {
                Some(t) => t,
                None => first_or(x, "DocumentFormatExt"@, "image/jpeg"@),
            },
        ),
        output: None,
        region: settings_region(x),
    }
}

#[verifier::spinoff_prover]
pub fn parse_scan_settings(xml: &str) -> (r: Result<ScanRequest>)
    ensures
        r == Ok::<ScanRequest, Error>(spec_parse_scan_settings(xml@)),
{
    let source_raw = match first_text(xml, "InputSource") {
        Some(t) => t,
        None => String::from_str("Platen"),
    };
    let sr = chars_of(source_raw.as_str());
    let sl = lower_chars(sr.as_slice());
    let source = if chars_eq_str(sl.as_slice(), "feeder") || chars_eq_str(sl.as_slice(), "adf") {
        ScanSource::Adf
    } else {
        ScanSource::Platen
    };
    proof {
        reveal_strlit("feeder");
        reveal_strlit("adf");
        assert(ascii_lower("feeder"@) =~= "feeder"@);
        assert(ascii_lower("adf"@) =~= "adf"@);
    }
    let color_raw = match first_text(xml, "ColorMode") {
        Some(t) => t,
        None => String::from_str("RGB24"),
    };
    let color = color_from_name_exec(color_raw.as_str());
    let dpi: u32 = match first_u32_of(xml, "XResolution") {
        Some(v) => v,
        None => match first_u32_of(xml, "YResolution") {
            Some(v) => v,
            None => 300,
        },
    };
    let fmt_raw = match first_text(xml, "DocumentFormat") {
        Some(t) => t,
        None => match first_text(xml, "DocumentFormatExt") {
            Some(t) => t,
            None => String::from_str("image/jpeg"),
        },
    };
    let fc = chars_of(fmt_raw.as_str());
    let format = if lower_contains(fc.as_slice(), "pdf") {
        OutputFormat::Pdf
    } else if lower_contains(fc.as_slice(), "tif") {
        OutputFormat::Tiff
    } else {
        OutputFormat::Jpeg
    };
    let region = parse_region(xml);
    Ok(ScanRequest { source, color, dpi, format, output: None, region })
}

/// The text elements of a ScanSettings document, in order.
pub open spec fn settings_elems(req: ScanRequest) -> Seq<TextElem> {
    seq![
        text_elem("\n  "@, "pwg"@, "Version"@, "2.63"@),
        text_elem("\n  "@, "scan"@, "Intent"@, "Document"@),
        text_elem("\n  "@, "pwg"@, "InputSource"@, spec_source_escl_name(req.source)),
        text_elem("\n  "@, "scan"@, "ColorMode"@, spec_color_escl_name(req.color)),
        text_elem("\n  "@, "scan"@, "XResolution"@, decimal(req.dpi as nat)),
        text_elem("\n  "@, "scan"@, "YResolution"@, decimal(req.dpi as nat)),
        text_elem("\n  "@, "pwg"@, "DocumentFormat"@, spec_mime(req.format)),
        text_elem("\n  "@, "scan"@, "DocumentFormatExt"@, spec_mime(req.format)),
    ]
}

/// The elements of a ScanSettings `ScanRegion`, in 1/1000 inch.
pub open spec fn region_elems(r: ScanRegion) -> Seq<TextElem> {
    seq![
        text_elem("\n    "@, "scan"@, "ScanRegionXOffset"@, decimal(r.x as nat)),
        text_elem("\n    "@, "scan"@, "ScanRegionYOffset"@, decimal(r.y as nat)),
        text_elem("\n    "@, "scan"@, "ScanRegionWidth"@, decimal(r.width as nat)),
        text_elem("\n    "@, "scan"@, "ScanRegionHeight"@, decimal(r.height as nat)),
    ]
}

/// The ScanSettings document a client posts for `req`, as parts.
pub open spec fn settings_doc(req: ScanRequest) -> SimpleDoc {
    SimpleDoc {
        decl: SETTINGS_DECL@,
        ws0: "\n"@,
        root: TextElem {
            ws: Seq::empty(),
            prefix: "scan"@,
            local: "ScanSettings"@,
            attrs: SETTINGS_ROOT_ATTRS@,
            text: Seq::empty(),
        },
        elems: settings_elems(req),
        inner: match req.region {
            Some(r) => Some(
                ElemGroup {
                    ws: "\n  "@,
                    prefix: "scan"@,
                    local: "ScanRegion"@,
                    attrs: Seq::empty(),
                    elems: region_elems(r),
                    ws_close: "\n  "@,
                },
            ),
            None => None,
        },
        ws_close: "\n"@,
        ws_end: "\n"@,
    }
}

/// The ScanSettings document a client posts for `req`.
pub open spec fn spec_scan_settings(req: ScanRequest) -> Seq<char> {
    doc_chars(settings_doc(req))
}

/// Append one element to text that holds `es`.
fn add_elem(s: &mut String, Ghost(es): Ghost<Seq<TextElem>>, ws: &str, p: &str, l: &str, text: &str) -> (r: Ghost<Seq<TextElem>>)
    requires
        old(s)@ == elems_chars(es),
        p@.len() > 0,
    ensures
        r@ == es.push(text_elem(ws@, p@, l@, text@)),
        final(s)@ == elems_chars(r@),
{
    push_elem(s, ws, p, l, text);
    proof {
        lemma_elems_chars_push(es, text_elem(ws@, p@, l@, text@));
    }
    Ghost(es.push(text_elem(ws@, p@, l@, text@)))
}

#[verifier::spinoff_prover]
#[verifier::rlimit(40)]
pub fn scan_settings_xml(req: &ScanRequest) -> (r: String)
    ensures
        r@ == spec_scan_settings(*req),
{
    proof {
        reveal_strlit("pwg");
        reveal_strlit("scan");
    }
    let mut head = String::new();
    push_decl(&mut head, SETTINGS_DECL);
    head.append("\n");
    push_open(&mut head, "scan", "ScanSettings", SETTINGS_ROOT_ATTRS);
    let dpi = decimal_string(req.dpi as u64);
    let mut body = String::new();
    assert(body@ == elems_chars(Seq::<TextElem>::empty()));
    let g = add_elem(&mut body, Ghost(Seq::empty()), "\n  ", "pwg", "Version", "2.63");
    let g = add_elem(&mut body, g, "\n  ", "scan", "Intent", "Document");
    let g = add_elem(&mut body, g, "\n  ", "pwg", "InputSource", req.source.escl_name());
    let g = add_elem(&mut body, g, "\n  ", "scan", "ColorMode", req.color.escl_name());
    let g = add_elem(&mut body, g, "\n  ", "scan", "XResolution", dpi.as_str());
    let g = add_elem(&mut body, g, "\n  ", "scan", "YResolution", dpi.as_str());
    let g = add_elem(&mut body, g, "\n  ", "pwg", "DocumentFormat", req.format.mime());
    let g = add_elem(&mut body, g, "\n  ", "scan", "DocumentFormatExt", req.format.mime());
    assert(g@ =~= settings_elems(*req));
    let mut inner = String::new();
    match req.region {
        Some(r) => {
            inner.append("\n  ");
            push_open(&mut inner, "scan", "ScanRegion", "");
            let x = decimal_string(r.x as u64);
            let y = decimal_string(r.y as u64);
            let w = decimal_string(r.width as u64);
            let h = decimal_string(r.height as u64);
            let mut rb = String::new();
            assert(rb@ == elems_chars(Seq::<TextElem>::empty()));
            let q = add_elem(&mut rb, Ghost(Seq::empty()), "\n    ", "scan", "ScanRegionXOffset", x.as_str());
            let q = add_elem(&mut rb, q, "\n    ", "scan", "ScanRegionYOffset", y.as_str());
            let q = add_elem(&mut rb, q, "\n    ", "scan", "ScanRegionWidth", w.as_str());
            let q = add_elem(&mut rb, q, "\n    ", "scan", "ScanRegionHeight", h.as_str());
            assert(q@ =~= region_elems(r));
            inner.append(rb.as_str());
            inner.append("\n  ");
            push_close(&mut inner, "scan", "ScanRegion");
            proof {
                reveal_strlit("");
            }
            assert(inner@ =~= inner_chars(settings_doc(*req).inner));
        },
        None => {
            assert(inner@ =~= inner_chars(settings_doc(*req).inner));
        },
    }
    let mut s = head;
    s.append(body.as_str());
    s.append(inner.as_str());
    s.append("\n");
    push_close(&mut s, "scan", "ScanSettings");
    s.append("\n");
    assert(s@ =~= spec_scan_settings(*req));
    s
}

/// True if the XML looks like eSCL ScannerCapabilities and lists both a platen
/// and an ADF.
pub open spec fn spec_looks_like_capabilities(x: Seq<char>) -> bool {
    &&& seq_contains(x, "ScannerCapabilities"@)
    &&& seq_contains(x, "Platen"@) || seq_contains(x, "platen"@)
    &&& seq_contains(x, "Adf"@) || seq_contains(x, "ADF"@) || seq_contains(x, "adf"@)
}

pub fn looks_like_capabilities(xml: &str) -> (r: bool)
    ensures
        r == spec_looks_like_capabilities(xml@),
{
    str_contains(xml, "ScannerCapabilities") && (str_contains(xml, "Platen") || str_contains(
        xml,
        "platen",
    )) && (str_contains(xml, "Adf") || str_contains(xml, "ADF") || str_contains(xml, "adf"))
}

/// (platen, ADF, jobs mentioned) as a capabilities document shows them.
pub open spec fn spec_caps_summary(x: Seq<char>) -> (bool, bool, bool) {
    (
        seq_contains(x, "Platen"@),
        seq_contains(x, "<scc:Adf"@) || seq_contains(x, "<scan:Adf"@) || seq_contains(
            x,
            "<Adf"@,
        ) || seq_contains(x, "AdfSimplex"@),
        seq_contains(x, "ScanJobs"@) || seq_contains(x, "DocumentFormat"@),
    )
}

pub fn parse_device_caps_summary(xml: &str) -> (r: (bool, bool, bool))
    ensures
        r == spec_caps_summary(xml@),
{
    let platen = str_contains(xml, "Platen");
    let adf = str_contains(xml, "<scc:Adf") || str_contains(xml, "<scan:Adf") || str_contains(
        xml,
        "<Adf",
    ) || str_contains(xml, "AdfSimplex");
    let jobs_mentioned = str_contains(xml, "ScanJobs") || str_contains(xml, "DocumentFormat");
    (platen, adf, jobs_mentioned)
}

pub fn default_capabilities_xml() -> (r: String)
    ensures
        r@ == spec_capabilities(DEFAULT_UUID@, PRODUCT_NAME@),
{
    capabilities_xml(DEFAULT_UUID, PRODUCT_NAME)
}

proof fn lemma_settings_doc_ok(req: ScanRequest)
    ensures
        doc_ok(settings_doc(req)),
{
    reveal_strlit("xml version=\"1.0\" encoding=\"UTF-8\"");
    reveal_strlit(" xmlns:scan=\"http://schemas.hp.com/imaging/escl/2011/05/03\" xmlns:pwg=\"http://www.pwg.org/schemas/2010/12/sm\"");
    reveal_strlit("\n");
    reveal_strlit("\n  ");
    reveal_strlit("\n    ");
    reveal_strlit("scan");
    reveal_strlit("pwg");
    reveal_strlit("ScanSettings");
    let d = settings_doc(req);
    assert(all_ascii(d.decl) && lacks(d.decl, '>') && lacks(d.decl, '?'));
    assert(attrs_ok(d.root.attrs));
    lemma_name("scan"@);
    lemma_name("pwg"@);
    lemma_name("ScanSettings"@);
    assert(blank("\n"@) && blank("\n  "@) && blank("\n    "@));
    lemma_settings_elems_ok(req);
    match req.region {
        Some(r) => {
            lemma_region_elems_ok(r);
            reveal_strlit("ScanRegion");
            lemma_name("ScanRegion"@);
            assert(attrs_ok(Seq::<char>::empty()));
        },
        None => {},
    }
}

#[verifier::spinoff_prover]
proof fn lemma_settings_elems_ok(req: ScanRequest)
    ensures
        elems_ok(settings_elems(req)),
{
    reveal_strlit("\n  ");
    reveal_strlit("pwg");
    reveal_strlit("scan");
    reveal_strlit("Version");
    reveal_strlit("Intent");
    reveal_strlit("InputSource");
    reveal_strlit("ColorMode");
    reveal_strlit("XResolution");
    reveal_strlit("YResolution");
    reveal_strlit("DocumentFormat");
    reveal_strlit("DocumentFormatExt");
    reveal_strlit("2.63");
    reveal_strlit("Document");
    reveal_strlit("Platen");
    reveal_strlit("Feeder");
    reveal_strlit("RGB24");
    reveal_strlit("Grayscale8");
    reveal_strlit("BlackAndWhite1");
    reveal_strlit("image/jpeg");
    reveal_strlit("application/pdf");
    reveal_strlit("image/tiff");
    lemma_name("pwg"@);
    lemma_name("scan"@);
    lemma_name("Version"@);
    lemma_name("Intent"@);
    lemma_name("InputSource"@);
    lemma_name("ColorMode"@);
    lemma_name("XResolution"@);
    lemma_name("YResolution"@);
    lemma_name("DocumentFormat"@);
    lemma_name("DocumentFormatExt"@);
    assert(blank("\n  "@));
    lemma_plain_text("2.63"@);
    lemma_plain_text("Document"@);
    lemma_plain_text(spec_source_escl_name(req.source));
    lemma_plain_text(spec_color_escl_name(req.color));
    lemma_plain_text(spec_mime(req.format));
    lemma_decimal_text(req.dpi as nat);
    let es = settings_elems(req);
    assert forall|k: int| 0 <= k < es.len() implies elem_ok(#[trigger] es[k]) by {
        if k == 0 {
            lemma_elem_ok("\n  "@, "pwg"@, "Version"@, "2.63"@);
        } else if k == 1 {
            lemma_elem_ok("\n  "@, "scan"@, "Intent"@, "Document"@);
        } else if k == 2 {
            lemma_elem_ok("\n  "@, "pwg"@, "InputSource"@, spec_source_escl_name(req.source));
        } else if k == 3 {
            lemma_elem_ok("\n  "@, "scan"@, "ColorMode"@, spec_color_escl_name(req.color));
        } else if k == 4 {
            lemma_elem_ok("\n  "@, "scan"@, "XResolution"@, decimal(req.dpi as nat));
        } else if k == 5 {
            lemma_elem_ok("\n  "@, "scan"@, "YResolution"@, decimal(req.dpi as nat));
        } else if k == 6 {
            lemma_elem_ok("\n  "@, "pwg"@, "DocumentFormat"@, spec_mime(req.format));
        } else {
            lemma_elem_ok("\n  "@, "scan"@, "DocumentFormatExt"@, spec_mime(req.format));
        }
    }
}

proof fn lemma_region_elems_ok(r: ScanRegion)
    ensures
        elems_ok(region_elems(r)),
{
    reveal_strlit("\n    ");
    reveal_strlit("scan");
    reveal_strlit("ScanRegionXOffset");
    reveal_strlit("ScanRegionYOffset");
    reveal_strlit("ScanRegionWidth");
    reveal_strlit("ScanRegionHeight");
    lemma_name("scan"@);
    lemma_name("ScanRegionXOffset"@);
    lemma_name("ScanRegionYOffset"@);
    lemma_name("ScanRegionWidth"@);
    lemma_name("ScanRegionHeight"@);
    assert(blank("\n    "@));
    lemma_decimal_text(r.x as nat);
    lemma_decimal_text(r.y as nat);
    lemma_decimal_text(r.width as nat);
    lemma_decimal_text(r.height as nat);
    let es = region_elems(r);
    assert forall|k: int| 0 <= k < es.len() implies elem_ok(#[trigger] es[k]) by {
        if k == 0 {
            lemma_elem_ok("\n    "@, "scan"@, "ScanRegionXOffset"@, decimal(r.x as nat));
        } else if k == 1 {
            lemma_elem_ok("\n    "@, "scan"@, "ScanRegionYOffset"@, decimal(r.y as nat));
        } else if k == 2 {
            lemma_elem_ok("\n    "@, "scan"@, "ScanRegionWidth"@, decimal(r.width as nat));
        } else {
            lemma_elem_ok("\n    "@, "scan"@, "ScanRegionHeight"@, decimal(r.height as nat));
        }
    }
}

/// The first text the scanner finds under `n` in a settings document is the
/// `k`-th element's when that is the first element named `n`.
proof fn lemma_settings_first(req: ScanRequest, n: Seq<char>, k: int)
    requires
        0 <= k < 8,
        settings_elems(req)[k].local == n,
        forall|j: int| 0 <= j < k ==> (#[trigger] settings_elems(req)[j]).local != n,
        settings_elems(req)[k].text.len() > 0,
        trim(settings_elems(req)[k].text) == settings_elems(req)[k].text,
    ensures
        first_in(spec_scan_settings(req), n) == Some(settings_elems(req)[k].text),
{
    let d = settings_doc(req);
    let es = settings_elems(req);
    lemma_settings_doc_ok(req);
    lemma_doc_texts(d, n);
    assert forall|j: int| 0 <= j < k implies #[trigger] pick(es[j], n).len() == 0 by {
        assert(es[j].local != n);
    }
    lemma_picks_first(es, n, k);
    assert(doc_picks(d, n)[0] == picks(es, n)[0]);
}

/// A name no element of a settings document has is not found.
proof fn lemma_settings_absent(req: ScanRequest, n: Seq<char>)
    requires
        forall|j: int| 0 <= j < 8 ==> (#[trigger] settings_elems(req)[j]).local != n,
        req.region matches Some(r) ==> forall|j: int| 0 <= j < 4 ==> (#[trigger] region_elems(r)[j]).local != n,
    ensures
        first_in(spec_scan_settings(req), n) is None,
{
    let d = settings_doc(req);
    let es = settings_elems(req);
    lemma_settings_doc_ok(req);
    lemma_doc_texts(d, n);
    assert forall|j: int| 0 <= j < es.len() implies #[trigger] pick(es[j], n).len() == 0 by {
        assert(es[j].local != n);
    }
    lemma_picks_none(es, n);
    match req.region {
        Some(r) => {
            let rs = region_elems(r);
            assert forall|j: int| 0 <= j < rs.len() implies #[trigger] pick(rs[j], n).len() == 0 by {
                assert(rs[j].local != n);
            }
            lemma_picks_none(rs, n);
        },
        None => {},
    }
}

/// In a settings document with a region, the `k`-th region element is the
/// first named `n` when no other element is.
proof fn lemma_settings_region_first(req: ScanRequest, r: ScanRegion, n: Seq<char>, k: int)
    requires
        req.region == Some(r),
        0 <= k < 4,
        forall|j: int| 0 <= j < 8 ==> (#[trigger] settings_elems(req)[j]).local != n,
        region_elems(r)[k].local == n,
        forall|j: int| 0 <= j < k ==> (#[trigger] region_elems(r)[j]).local != n,
        region_elems(r)[k].text.len() > 0,
        trim(region_elems(r)[k].text) == region_elems(r)[k].text,
    ensures
        first_in(spec_scan_settings(req), n) == Some(region_elems(r)[k].text),
{
    let d = settings_doc(req);
    let es = settings_elems(req);
    let rs = region_elems(r);
    lemma_settings_doc_ok(req);
    lemma_doc_texts(d, n);
    assert forall|j: int| 0 <= j < es.len() implies #[trigger] pick(es[j], n).len() == 0 by {
        assert(es[j].local != n);
    }
    lemma_picks_none(es, n);
    assert forall|j: int| 0 <= j < k implies #[trigger] pick(rs[j], n).len() == 0 by {
        assert(rs[j].local != n);
    }
    lemma_picks_first(rs, n, k);
    assert(doc_picks(d, n) =~= picks(es, n) + picks(rs, n));
    assert(doc_picks(d, n)[0] == picks(rs, n)[0]);
}

proof fn lemma_source_name_back(s: ScanSource)
    ensures
        settings_source(spec_source_escl_name(s)) == s,
        spec_source_escl_name(s).len() > 0,
        trim(spec_source_escl_name(s)) == spec_source_escl_name(s),
{
    reveal_strlit("Platen");
    reveal_strlit("Feeder");
    reveal_strlit("feeder");
    reveal_strlit("adf");
    reveal_strlit("platen");
    let n = spec_source_escl_name(s);
    lemma_trim_plain(n);
    match s {
        ScanSource::Adf => {
            assert(ascii_lower(n) =~= "feeder"@);
        },
        ScanSource::Platen => {
            assert(ascii_lower(n) =~= "platen"@);
            lemma_differ_at("platen"@, "feeder"@, 0);
        },
    }
}

proof fn lemma_color_name_back(c: ColorMode)
    ensures
        color_from_name(spec_color_escl_name(c)) == c,
        spec_color_escl_name(c).len() > 0,
        trim(spec_color_escl_name(c)) == spec_color_escl_name(c),
{
    reveal_strlit("RGB24");
    reveal_strlit("Grayscale8");
    reveal_strlit("BlackAndWhite1");
    reveal_strlit("rgb24");
    reveal_strlit("grayscale8");
    reveal_strlit("blackandwhite1");
    reveal_strlit("gray");
    reveal_strlit("black");
    reveal_strlit("bw");
    reveal_strlit("lineart");
    let n = spec_color_escl_name(c);
    lemma_trim_plain(n);
    match c {
        ColorMode::Color => {
            let l = ascii_lower(n);
            assert(l =~= "rgb24"@);
            lemma_not_contains(l, "gray"@);
            lemma_not_contains(l, "black"@);
            lemma_not_contains(l, "bw"@);
            lemma_not_contains(l, "lineart"@);
        },
        ColorMode::Gray => {
            let l = ascii_lower(n);
            assert(l =~= "grayscale8"@);
            assert(crate::text::occurs_at(l, "gray"@, 0)) by {
                assert(l.subrange(0, 4) =~= "gray"@);
            }
        },
        ColorMode::Lineart => {
            let l = ascii_lower(n);
            assert(l =~= "blackandwhite1"@);
            lemma_not_contains(l, "gray"@);
            assert(crate::text::occurs_at(l, "black"@, 0)) by {
                assert(l.subrange(0, 5) =~= "black"@);
            }
        },
    }
}

proof fn lemma_format_name_back(f: OutputFormat)
    ensures
        format_from_name(spec_mime(f)) == f,
        spec_mime(f).len() > 0,
        trim(spec_mime(f)) == spec_mime(f),
{
    reveal_strlit("image/jpeg");
    reveal_strlit("application/pdf");
    reveal_strlit("image/tiff");
    reveal_strlit("pdf");
    reveal_strlit("tif");
    let n = spec_mime(f);
    lemma_trim_plain(n);
    let l = ascii_lower(n);
    assert(l =~= n);
    match f {
        OutputFormat::Jpeg => {
            lemma_not_contains(l, "pdf"@);
            lemma_not_contains(l, "tif"@);
        },
        OutputFormat::Pdf => {
            assert(crate::text::occurs_at(l, "pdf"@, 12)) by {
                assert(l.subrange(12, 15) =~= "pdf"@);
            }
        },
        OutputFormat::Tiff => {
            lemma_not_contains(l, "pdf"@);
            assert(crate::text::occurs_at(l, "tif"@, 6)) by {
                assert(l.subrange(6, 9) =~= "tif"@);
            }
        },
    }
}

/// Reading back the ScanSettings document written for a request gives the
/// request's source, color mode, resolution, format and region (for a
/// region of positive width and height); the output path is not part of
/// the document.
#[verifier::spinoff_prover]
pub proof fn lemma_scan_settings_roundtrip(req: ScanRequest)
    requires
        req.region matches Some(r) ==> r.width > 0 && r.height > 0,
    ensures
        spec_parse_scan_settings(spec_scan_settings(req)) == (ScanRequest {
            source: req.source,
            color: req.color,
            dpi: req.dpi,
            format: req.format,
            output: None,
            region: req.region,
        }),
{
    let x = spec_scan_settings(req);
    let es = settings_elems(req);
    reveal_strlit("Version");
    reveal_strlit("Intent");
    reveal_strlit("InputSource");
    reveal_strlit("ColorMode");
    reveal_strlit("XResolution");
    reveal_strlit("YResolution");
    reveal_strlit("DocumentFormat");
    reveal_strlit("DocumentFormatExt");
    reveal_strlit("ScanRegionXOffset");
    reveal_strlit("ScanRegionYOffset");
    reveal_strlit("ScanRegionWidth");
    reveal_strlit("ScanRegionHeight");
    reveal_strlit("XOffset");
    lemma_source_name_back(req.source);
    lemma_color_name_back(req.color);
    lemma_format_name_back(req.format);
    lemma_decimal_trim(req.dpi as nat);
    assert(es[0].local == "Version"@ && es[1].local == "Intent"@ && es[2].local == "InputSource"@
        && es[3].local == "ColorMode"@ && es[4].local == "XResolution"@ && es[5].local
        == "YResolution"@);
    assert forall|j: int| 0 <= j < 2 implies (#[trigger] es[j]).local != "InputSource"@ by {
        if j == 0 {
            assert(es[j].local.len() != "InputSource"@.len());
        } else {
            assert(es[j].local.len() != "InputSource"@.len());
        }
    }
    lemma_settings_first(req, "InputSource"@, 2);
    assert forall|j: int| 0 <= j < 3 implies (#[trigger] es[j]).local != "ColorMode"@ by {
        assert(es[j].local.len() != "ColorMode"@.len());
    }
    lemma_settings_first(req, "ColorMode"@, 3);
    lemma_differ_at("InputSource"@, "XResolution"@, 0);
    assert forall|j: int| 0 <= j < 4 implies (#[trigger] es[j]).local != "XResolution"@ by {
        if j != 2 {
            assert(es[j].local.len() != "XResolution"@.len());
        }
    }
    lemma_settings_first(req, "XResolution"@, 4);
    assert forall|j: int| 0 <= j < 6 implies (#[trigger] es[j]).local != "DocumentFormat"@ by {
        assert(es[j].local.len() != "DocumentFormat"@.len());
    }
    lemma_settings_first(req, "DocumentFormat"@, 6);
    crate::text::lemma_parse_decimal(req.dpi as nat, u32_max());
    match req.region {
        Some(r) => {
            let rs = region_elems(r);
            lemma_differ_at("DocumentFormatExt"@, "ScanRegionXOffset"@, 0);
            lemma_differ_at("DocumentFormatExt"@, "ScanRegionYOffset"@, 0);
            lemma_differ_at("ScanRegionXOffset"@, "ScanRegionYOffset"@, 10);
            lemma_decimal_trim(r.x as nat);
            lemma_decimal_trim(r.y as nat);
            lemma_decimal_trim(r.width as nat);
            lemma_decimal_trim(r.height as nat);
            lemma_settings_region_first(req, r, "ScanRegionXOffset"@, 0);
            lemma_settings_region_first(req, r, "ScanRegionYOffset"@, 1);
            assert(es[6].local == "DocumentFormat"@ && es[7].local == "DocumentFormatExt"@);
            assert(rs[0].local == "ScanRegionXOffset"@ && rs[1].local == "ScanRegionYOffset"@);
            assert forall|j: int| 0 <= j < 8 implies (#[trigger] es[j]).local != "ScanRegionWidth"@ by {
                assert(es[j].local.len() != "ScanRegionWidth"@.len());
            }
            assert forall|j: int| 0 <= j < 2 implies (#[trigger] rs[j]).local != "ScanRegionWidth"@ by {
                assert(rs[j].local.len() != "ScanRegionWidth"@.len());
            }
            lemma_settings_region_first(req, r, "ScanRegionWidth"@, 2);
            assert(rs[2].local == "ScanRegionWidth"@);
            assert forall|j: int| 0 <= j < 8 implies (#[trigger] es[j]).local != "ScanRegionHeight"@ by {
                assert(es[j].local.len() != "ScanRegionHeight"@.len());
            }
            assert forall|j: int| 0 <= j < 3 implies (#[trigger] rs[j]).local != "ScanRegionHeight"@ by {
                assert(rs[j].local.len() != "ScanRegionHeight"@.len());
            }
            lemma_settings_region_first(req, r, "ScanRegionHeight"@, 3);
            crate::text::lemma_parse_decimal(r.x as nat, u32_max());
            crate::text::lemma_parse_decimal(r.y as nat, u32_max());
            crate::text::lemma_parse_decimal(r.width as nat, u32_max());
            crate::text::lemma_parse_decimal(r.height as nat, u32_max());
            assert(ticket_region(x) == Some(r));
        },
        None => {
            lemma_differ_at("DocumentFormatExt"@, "ScanRegionXOffset"@, 0);
            lemma_differ_at("Version"@, "XOffset"@, 0);
            lemma_settings_absent(req, "ScanRegionXOffset"@);
            lemma_settings_absent(req, "XOffset"@);
            assert(ticket_region(x) is None);
        },
    }
}

} // verus!
