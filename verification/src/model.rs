//! Data model: scan options, saved devices, probe results and the way each
//! option is spelled on the wire.
use crate::error::{Error, Result};
use crate::xmldoc::lemma_decimal_trim;
use crate::text::{
    is_digit, lemma_decimal_digits, lemma_parse_decimal, lemma_split_absent, lemma_split_first,
    ascii_lower, chars_eq_str, chars_of, contains_str, decimal, decimal_string, lower_chars,
    parse_uint, parse_uint_chars, seq_contains, split, split_chars, string_from_chars, trim,
    trim_chars, trimmed_lower, views,
};
use vstd::prelude::*;

verus! {

/// Model this product is written against.
pub const PRODUCT_NAME: &'static str = "HP Color LaserJet Pro MFP M177fw";

pub const PRODUCT_SHORT: &'static str = "M177fw";

/// Name the app and its AirScan instance carry on macOS.
pub const APP_DISPLAY_NAME: &'static str = "HP Color LaserJet Pro MFP M177fw Scanner";

pub const DEFAULT_SOAP_PORT: u16 = 8289;

pub const DEFAULT_ESCL_PORT: u16 = 80;

pub const DEFAULT_WSD_PORT: u16 = 3911;

pub const DEFAULT_IPP_PORT: u16 = 631;

pub const DEFAULT_BRIDGE_PORT: u16 = 8087;

/// `std::path::PathBuf`, carried through scan requests unchanged.
#[verifier::external_type_specification]
#[verifier::external_body]
pub struct ExPathBuf(std::path::PathBuf);

/// Where the paper is placed.
#[derive(Debug, Clone, Copy, PartialEq, Eq, Structural)]
pub enum ScanSource {
    Platen,
    Adf,
}

/// Error text for an unknown option value.
pub open spec fn unknown_text(what: Seq<char>, other: Seq<char>, hint: Seq<char>) -> Seq<char> {
    "unknown "@ + what + " '"@ + other + "' (use "@ + hint + ")"@
}

/// The `InvalidRequest` error for an unknown option value.
fn unknown_option(what: &str, other: &[char], hint: &str) -> (r: Error)
    ensures
        r matches Error::InvalidRequest(m) && m@ == unknown_text(what@, other@, hint@),
{
    let mut s = String::new();
    s.append("unknown ");
    s.append(what);
    s.append(" '");
    let o = string_from_chars(other);
    s.append(o.as_str());
    s.append("' (use ");
    s.append(hint);
    s.append(")");
    Error::InvalidRequest(s)
}

/// What `ScanSource::parse` accepts: trimmed, case-folded names.
pub open spec fn spec_scan_source(raw: Seq<char>) -> Option<ScanSource> {
    let k = ascii_lower(trim(raw));
    if k == "platen"@ || k == "flatbed"@ || k == "glass"@ {
        Some(ScanSource::Platen)
    } else if k == "adf"@ || k == "feeder"@ {
        Some(ScanSource::Adf)
    } else {
        None
    }
}

pub open spec fn spec_source_soap_name(s: ScanSource) -> Seq<char> {
    match s {
        ScanSource::Platen => "Platen"@,
        ScanSource::Adf => "ADF"@,
    }
}

pub open spec fn spec_source_escl_name(s: ScanSource) -> Seq<char> {
    match s {
        ScanSource::Platen => "Platen"@,
        ScanSource::Adf => "Feeder"@,
    }
}

pub open spec fn spec_source_label(s: ScanSource) -> Seq<char> {
    match s {
        ScanSource::Platen => "platen"@,
        ScanSource::Adf => "adf"@,
    }
}

impl ScanSource {
    /// `platen`/`flatbed`/`glass` or `adf`/`feeder`, any case, surrounding
    /// white space ignored.
    pub fn parse(raw: &str) -> (r: Result<Self>)
        ensures
            r matches Ok(s) ==> spec_scan_source(raw@) == Some(s),
            r is Err ==> spec_scan_source(raw@) is None,
            r matches Err(e) ==> e matches Error::InvalidRequest(m) && m@ == unknown_text(
                "source"@,
                ascii_lower(trim(raw@)),
                "platen or adf"@,
            ),
    {
        let k = trimmed_lower(raw);
        if chars_eq_str(k.as_slice(), "platen") || chars_eq_str(k.as_slice(), "flatbed")
            || chars_eq_str(k.as_slice(), "glass") {
            Ok(ScanSource::Platen)
        } else if chars_eq_str(k.as_slice(), "adf") || chars_eq_str(k.as_slice(), "feeder") {
            Ok(ScanSource::Adf)
        } else {
            Err(unknown_option("source", k.as_slice(), "platen or adf"))
        }
    }

    /// Value used in the HP SOAP `InputSource` element.
    pub fn soap_name(self) -> (r: &'static str)
        ensures
            r@ == spec_source_soap_name(self),
    {
        match self {
            ScanSource::Platen => "Platen",
            ScanSource::Adf => "ADF",
        }
    }

    /// Value used in eSCL / PWG `InputSource`.
    pub fn escl_name(self) -> (r: &'static str)
        ensures
            r@ == spec_source_escl_name(self),
    {
        match self {
            ScanSource::Platen => "Platen",
            ScanSource::Adf => "Feeder",
        }
    }

    /// The user-facing name (`platen`, `adf`).
    pub fn label(self) -> (r: &'static str)
        ensures
            r@ == spec_source_label(self),
    {
        match self {
            ScanSource::Platen => "platen",
            ScanSource::Adf => "adf",
        }
    }
}

/// Color processing requested of the device.
#[derive(Debug, Clone, Copy, PartialEq, Eq, Structural)]
pub enum ColorMode {
    Color,
    Gray,
    Lineart,
}

/// What `ColorMode::parse` accepts.
pub open spec fn spec_color_mode(raw: Seq<char>) -> Option<ColorMode> {
    let k = ascii_lower(trim(raw));
    if k == "color"@ || k == "rgb"@ || k == "rgb24"@ || k == "colour"@ {
        Some(ColorMode::Color)
    } else if k == "gray"@ || k == "grey"@ || k == "grayscale"@ || k == "greyscale"@ || k
        == "grayscale8"@ {
        Some(ColorMode::Gray)
    } else if k == "lineart"@ || k == "bw"@ || k == "b/w"@ || k == "black"@ || k == "binary"@
        || k == "blackandwhite1"@ || k == "blackandwhite"@ {
        Some(ColorMode::Lineart)
    } else {
        None
    }
}

pub open spec fn spec_color_soap_name(c: ColorMode) -> Seq<char> {
    match c {
        ColorMode::Color => "RGB24"@,
        ColorMode::Gray => "GrayScale8"@,
        ColorMode::Lineart => "BlackandWhite1"@,
    }
}

pub open spec fn spec_color_escl_name(c: ColorMode) -> Seq<char> {
    match c {
        ColorMode::Color => "RGB24"@,
        ColorMode::Gray => "Grayscale8"@,
        ColorMode::Lineart => "BlackAndWhite1"@,
    }
}

pub open spec fn spec_color_label(c: ColorMode) -> Seq<char> {
    match c {
        ColorMode::Color => "color"@,
        ColorMode::Gray => "gray"@,
        ColorMode::Lineart => "lineart"@,
    }
}

/// Text with no white space at either end, padded with one space on each
/// side, trims back to itself.
proof fn lemma_trim_spaced(u: Seq<char>)
    requires
        u.len() > 0,
        !crate::text::is_white(u[0]),
        !crate::text::is_white(u.last()),
    ensures
        trim(" "@ + u + " "@) == u,
{
    reveal_strlit(" ");
    let t = " "@ + u + " "@;
    assert(crate::text::is_white(t[0]));
    assert(t.drop_first() =~= u + " "@);
    assert(crate::text::trim_start(u + " "@) == u + " "@);
    assert(crate::text::trim_start(t) == u + " "@);
    assert((u + " "@).drop_last() =~= u);
    assert(crate::text::trim_end(u) == u);
}

/// A text that lower-cases to a word of letters has no white space at its ends.
proof fn lemma_lowers_to_word(u: Seq<char>, w: Seq<char>)
    requires
        ascii_lower(u) == w,
        w.len() > 0,
        'a' <= w[0] <= 'z',
        'a' <= w.last() <= 'z',
    ensures
        u.len() > 0,
        !crate::text::is_white(u[0]),
        !crate::text::is_white(u.last()),
{
    assert(ascii_lower(u)[0] == crate::text::lower_char(u[0]));
    assert(ascii_lower(u)[u.len() - 1] == crate::text::lower_char(u.last()));
}

/// A color mode parses from its SOAP name, its eSCL name, and its label in
/// any letter case with a space on each side; an unknown name does not.
pub proof fn lemma_color_names_parse(c: ColorMode, u: Seq<char>)
    requires
        ascii_lower(u) == spec_color_label(c),
    ensures
        spec_color_mode(spec_color_soap_name(c)) == Some(c),
        spec_color_mode(spec_color_escl_name(c)) == Some(c),
        spec_color_mode(spec_color_label(c)) == Some(c),
        spec_color_mode(" "@ + u + " "@) == Some(c),
        spec_color_mode("sepia"@) is None,
{
    reveal_strlit("color");
    reveal_strlit("gray");
    reveal_strlit("lineart");
    reveal_strlit("rgb");
    reveal_strlit("rgb24");
    reveal_strlit("colour");
    reveal_strlit("grey");
    reveal_strlit("grayscale");
    reveal_strlit("greyscale");
    reveal_strlit("grayscale8");
    reveal_strlit("bw");
    reveal_strlit("b/w");
    reveal_strlit("black");
    reveal_strlit("binary");
    reveal_strlit("blackandwhite1");
    reveal_strlit("blackandwhite");
    reveal_strlit("RGB24");
    reveal_strlit("GrayScale8");
    reveal_strlit("Grayscale8");
    reveal_strlit("BlackandWhite1");
    reveal_strlit("BlackAndWhite1");
    reveal_strlit("sepia");
    let l = spec_color_label(c);
    lemma_lowers_to_word(u, l);
    lemma_trim_spaced(u);
    assert(ascii_lower(l) =~= l);
    lemma_lowers_to_word(l, l);
    assert(ascii_lower(trim(l)) =~= l) by {
        assert(crate::text::trim_start(l) == l);
        assert(crate::text::trim_end(l) == l);
    }
    let sn = spec_color_soap_name(c);
    let en = spec_color_escl_name(c);
    assert(crate::text::trim_start(sn) == sn && crate::text::trim_end(sn) == sn);
    assert(crate::text::trim_start(en) == en && crate::text::trim_end(en) == en);
    assert(crate::text::trim_start("sepia"@) == "sepia"@ && crate::text::trim_end("sepia"@)
        == "sepia"@);
    assert(ascii_lower("sepia"@) =~= "sepia"@);
    match c {
        ColorMode::Color => {
            assert(ascii_lower(sn) =~= "rgb24"@);
        },
        ColorMode::Gray => {
            assert(ascii_lower(sn) =~= "grayscale8"@);
            assert(ascii_lower(en) =~= "grayscale8"@);
        },
        ColorMode::Lineart => {
            assert(ascii_lower(sn) =~= "blackandwhite1"@);
            assert(ascii_lower(en) =~= "blackandwhite1"@);
        },
    }
}

impl ColorMode {
    /// Color, gray or line-art names, any case, white space ignored.
    pub fn parse(raw: &str) -> (r: Result<Self>)
        ensures
            r matches Ok(c) ==> spec_color_mode(raw@) == Some(c),
            r is Err ==> spec_color_mode(raw@) is None,
            r matches Err(e) ==> e matches Error::InvalidRequest(m) && m@ == unknown_text(
                "color mode"@,
                ascii_lower(trim(raw@)),
                "color, gray, or lineart"@,
            ),
    {
        let k = trimmed_lower(raw);
        let s = k.as_slice();
        if chars_eq_str(s, "color") || chars_eq_str(s, "rgb") || chars_eq_str(s, "rgb24")
            || chars_eq_str(s, "colour") {
            Ok(ColorMode::Color)
        } else if chars_eq_str(s, "gray") || chars_eq_str(s, "grey") || chars_eq_str(
            s,
            "grayscale",
        ) || chars_eq_str(s, "greyscale") || chars_eq_str(s, "grayscale8") {
            Ok(ColorMode::Gray)
        } else if chars_eq_str(s, "lineart") || chars_eq_str(s, "bw") || chars_eq_str(s, "b/w")
            || chars_eq_str(s, "black") || chars_eq_str(s, "binary") || chars_eq_str(
            s,
            "blackandwhite1",
        ) || chars_eq_str(s, "blackandwhite") {
            Ok(ColorMode::Lineart)
        } else {
            Err(unknown_option("color mode", s, "color, gray, or lineart"))
        }
    }

    /// HP SOAP / WSD `ColorProcessing` value as returned by this firmware.
    pub fn soap_name(self) -> (r: &'static str)
        ensures
            r@ == spec_color_soap_name(self),
    {
        match self {
            ColorMode::Color => "RGB24",
            ColorMode::Gray => "GrayScale8",
            ColorMode::Lineart => "BlackandWhite1",
        }
    }

    /// eSCL `ColorMode` value.
    pub fn escl_name(self) -> (r: &'static str)
        ensures
            r@ == spec_color_escl_name(self),
    {
        match self {
            ColorMode::Color => "RGB24",
            ColorMode::Gray => "Grayscale8",
            ColorMode::Lineart => "BlackAndWhite1",
        }
    }

    /// The user-facing name (`color`, `gray`, `lineart`).
    pub fn label(self) -> (r: &'static str)
        ensures
            r@ == spec_color_label(self),
    {
        match self {
            ColorMode::Color => "color",
            ColorMode::Gray => "gray",
            ColorMode::Lineart => "lineart",
        }
    }
}

/// File the user asked to receive. Device jobs return JPEG or BMP/`dib`;
/// PDF and TIFF are produced locally from that raster.
#[derive(Debug, Clone, Copy, PartialEq, Eq, Structural)]
pub enum OutputFormat {
    Jpeg,
    Pdf,
    Tiff,
}

/// What `OutputFormat::parse` accepts.
pub open spec fn spec_output_format(raw: Seq<char>) -> Option<OutputFormat> {
    let k = ascii_lower(trim(raw));
    if k == "jpg"@ || k == "jpeg"@ || k == "jfif"@ || k == "image/jpeg"@ {
        Some(OutputFormat::Jpeg)
    } else if k == "pdf"@ || k == "application/pdf"@ {
        Some(OutputFormat::Pdf)
    } else if k == "tif"@ || k == "tiff"@ || k == "image/tiff"@ {
        Some(OutputFormat::Tiff)
    } else {
        None
    }
}

pub open spec fn spec_extension(f: OutputFormat) -> Seq<char> {
    match f {
        OutputFormat::Jpeg => "jpg"@,
        OutputFormat::Pdf => "pdf"@,
        OutputFormat::Tiff => "tiff"@,
    }
}

pub open spec fn spec_mime(f: OutputFormat) -> Seq<char> {
    match f {
        OutputFormat::Jpeg => "image/jpeg"@,
        OutputFormat::Pdf => "application/pdf"@,
        OutputFormat::Tiff => "image/tiff"@,
    }
}

pub open spec fn spec_format_label(f: OutputFormat) -> Seq<char> {
    match f {
        OutputFormat::Jpeg => "jpeg"@,
        OutputFormat::Pdf => "pdf"@,
        OutputFormat::Tiff => "tiff"@,
    }
}

/// A format parses from its extension, its MIME type, and its label in
/// any letter case with a space on each side; an unknown name does not.
pub proof fn lemma_format_names_parse(f: OutputFormat, u: Seq<char>)
    requires
        ascii_lower(u) == spec_format_label(f),
    ensures
        spec_output_format(spec_extension(f)) == Some(f),
        spec_output_format(spec_mime(f)) == Some(f),
        spec_output_format(spec_format_label(f)) == Some(f),
        spec_output_format(" "@ + u + " "@) == Some(f),
        spec_output_format("png"@) is None,
{
    reveal_strlit("jpeg");
    reveal_strlit("pdf");
    reveal_strlit("tiff");
    reveal_strlit("jpg");
    reveal_strlit("jfif");
    reveal_strlit("tif");
    reveal_strlit("image/jpeg");
    reveal_strlit("application/pdf");
    reveal_strlit("image/tiff");
    reveal_strlit("png");
    let l = spec_format_label(f);
    lemma_lowers_to_word(u, l);
    lemma_trim_spaced(u);
    assert(ascii_lower(l) =~= l);
    lemma_lowers_to_word(l, l);
    assert(crate::text::trim_start(l) == l && crate::text::trim_end(l) == l);
    let e = spec_extension(f);
    let m = spec_mime(f);
    assert(crate::text::trim_start(e) == e && crate::text::trim_end(e) == e);
    assert(crate::text::trim_start(m) == m && crate::text::trim_end(m) == m);
    assert(ascii_lower(e) =~= e);
    assert(ascii_lower(m) =~= m);
    assert(ascii_lower(l) =~= l);
    assert(crate::text::trim_start("png"@) == "png"@ && crate::text::trim_end("png"@) == "png"@);
    assert(ascii_lower("png"@) =~= "png"@);
}

/// Parsing a source's label gives the source back.
pub proof fn lemma_source_label_parses(s: ScanSource)
    ensures
        spec_scan_source(spec_source_label(s)) == Some(s),
{
    reveal_strlit("platen");
    reveal_strlit("adf");
    reveal_strlit("flatbed");
    reveal_strlit("glass");
    let l = spec_source_label(s);
    assert(ascii_lower(l) =~= l);
    lemma_lowers_to_word(l, l);
    assert(crate::text::trim_start(l) == l && crate::text::trim_end(l) == l);
    assert(ascii_lower(trim(l)) =~= l);
    match s {
        ScanSource::Platen => {},
        ScanSource::Adf => {
            assert(l[0] != "platen"@[0] && l[0] != "flatbed"@[0] && l[0] != "glass"@[0]);
        },
    }
}

impl OutputFormat {
    /// JPEG, PDF or TIFF names and MIME types, any case.
    pub fn parse(raw: &str) -> (r: Result<Self>)
        ensures
            r matches Ok(f) ==> spec_output_format(raw@) == Some(f),
            r is Err ==> spec_output_format(raw@) is None,
            r matches Err(e) ==> e matches Error::InvalidRequest(m) && m@ == unknown_text(
                "format"@,
                ascii_lower(trim(raw@)),
                "jpeg, pdf, or tiff"@,
            ),
    {
        let k = trimmed_lower(raw);
        let s = k.as_slice();
        if chars_eq_str(s, "jpg") || chars_eq_str(s, "jpeg") || chars_eq_str(s, "jfif")
            || chars_eq_str(s, "image/jpeg") {
            Ok(OutputFormat::Jpeg)
        } else if chars_eq_str(s, "pdf") || chars_eq_str(s, "application/pdf") {
            Ok(OutputFormat::Pdf)
        } else if chars_eq_str(s, "tif") || chars_eq_str(s, "tiff") || chars_eq_str(
            s,
            "image/tiff",
        ) {
            Ok(OutputFormat::Tiff)
        } else {
            Err(unknown_option("format", s, "jpeg, pdf, or tiff"))
        }
    }

    /// File name extension.
    pub fn extension(self) -> (r: &'static str)
        ensures
            r@ == spec_extension(self),
    {
        match self {
            OutputFormat::Jpeg => "jpg",
            OutputFormat::Pdf => "pdf",
            OutputFormat::Tiff => "tiff",
        }
    }

    /// MIME type.
    pub fn mime(self) -> (r: &'static str)
        ensures
            r@ == spec_mime(self),
    {
        match self {
            OutputFormat::Jpeg => "image/jpeg",
            OutputFormat::Pdf => "application/pdf",
            OutputFormat::Tiff => "image/tiff",
        }
    }

    /// The user-facing name (`jpeg`, `pdf`, `tiff`).
    pub fn label(self) -> (r: &'static str)
        ensures
            r@ == spec_format_label(self),
    {
        match self {
            OutputFormat::Jpeg => "jpeg",
            OutputFormat::Pdf => "pdf",
            OutputFormat::Tiff => "tiff",
        }
    }
}


/// Scan window in the firmware's 1/1000 inch units.
#[derive(Debug, Clone, Copy, PartialEq, Eq, Structural)]
pub struct ScanRegion {
    pub x: u32,
    pub y: u32,
    pub width: u32,
    pub height: u32,
}

/// What `ScanRegion::parse` gives for `raw`: the region, or the error text.
pub open spec fn spec_scan_region(raw: Seq<char>) -> core::result::Result<ScanRegion, Seq<char>> {
    let parts = split(raw, ',');
    if parts.len() != 4 {
        Err("region must be x,y,width,height in 1/1000 inch"@)
    } else {
        let n0 = parse_uint(trim(parts[0]), u32::MAX as nat);
        let n1 = parse_uint(trim(parts[1]), u32::MAX as nat);
        let n2 = parse_uint(trim(parts[2]), u32::MAX as nat);
        let n3 = parse_uint(trim(parts[3]), u32::MAX as nat);
        if n0 is None || n1 is None || n2 is None || n3 is None {
            Err("region values must be integers"@)
        } else if n2->0 == 0 || n3->0 == 0 {
            Err("region width and height must be > 0"@)
        } else {
            Ok(
                ScanRegion {
                    x: n0->0 as u32,
                    y: n1->0 as u32,
                    width: n2->0 as u32,
                    height: n3->0 as u32,
                },
            )
        }
    }
}

fn invalid_request(text: &str) -> (r: Error)
    ensures
        r matches Error::InvalidRequest(m) && m@ == text@,
{
    Error::InvalidRequest(String::from_str(text))
}

impl ScanRegion {
    /// `x,y,width,height` in 1/1000 inch; width and height must be positive.
    pub fn parse(raw: &str) -> (r: Result<Self>)
        ensures
            r matches Ok(g) ==> spec_scan_region(raw@) == Ok::<ScanRegion, Seq<char>>(g),
            r matches Err(e) ==> e matches Error::InvalidRequest(m) && spec_scan_region(raw@)
                == Err::<ScanRegion, Seq<char>>(m@),
    {
        let v = chars_of(raw);
        let parts = split_chars(v.as_slice(), ',');
        if parts.len() != 4 {
            return Err(invalid_request("region must be x,y,width,height in 1/1000 inch"));
        }
        let ghost ps = split(raw@, ',');
        assert(parts@[0]@ == ps[0] && parts@[1]@ == ps[1] && parts@[2]@ == ps[2] && parts@[3]@
            == ps[3]);
        let t0 = trim_chars(parts[0].as_slice());
        let t1 = trim_chars(parts[1].as_slice());
        let t2 = trim_chars(parts[2].as_slice());
        let t3 = trim_chars(parts[3].as_slice());
        let n0 = parse_uint_chars(t0.as_slice(), 0xffff_ffff);
        let n1 = parse_uint_chars(t1.as_slice(), 0xffff_ffff);
        let n2 = parse_uint_chars(t2.as_slice(), 0xffff_ffff);
        let n3 = parse_uint_chars(t3.as_slice(), 0xffff_ffff);
        match (n0, n1, n2, n3) {
            (Some(x), Some(y), Some(w), Some(h)) => {
                if w == 0 || h == 0 {
                    Err(invalid_request("region width and height must be > 0"))
                } else {
                    Ok(ScanRegion { x: x as u32, y: y as u32, width: w as u32, height: h as u32 })
                }
            },
            _ => Err(invalid_request("region values must be integers")),
        }
    }
}

/// Four numbers written as `x,y,width,height` (width and height positive)
/// parse back to the region with those fields, in the written order.
pub proof fn lemma_region_text_parses(x: u32, y: u32, width: u32, height: u32)
    requires
        width > 0,
        height > 0,
    ensures
        spec_scan_region(
            decimal(x as nat) + seq![','] + decimal(y as nat) + seq![','] + decimal(width as nat)
                + seq![','] + decimal(height as nat),
        ) == Ok::<ScanRegion, Seq<char>>((ScanRegion { x, y, width, height })),
{
    lemma_region_text_split(x as nat, y as nat, width as nat, height as nat);
    lemma_decimal_trim(x as nat);
    lemma_decimal_trim(y as nat);
    lemma_decimal_trim(width as nat);
    lemma_decimal_trim(height as nat);
    lemma_parse_decimal(x as nat, u32::MAX as nat);
    lemma_parse_decimal(y as nat, u32::MAX as nat);
    lemma_parse_decimal(width as nat, u32::MAX as nat);
    lemma_parse_decimal(height as nat, u32::MAX as nat);
}

/// A region written with a zero width or a zero height is refused.
pub proof fn lemma_region_empty_refused(x: u32, y: u32, width: u32, height: u32)
    requires
        width == 0 || height == 0,
    ensures
        spec_scan_region(
            decimal(x as nat) + seq![','] + decimal(y as nat) + seq![','] + decimal(width as nat)
                + seq![','] + decimal(height as nat),
        ) is Err,
{
    lemma_region_text_split(x as nat, y as nat, width as nat, height as nat);
    lemma_decimal_trim(width as nat);
    lemma_decimal_trim(height as nat);
    lemma_parse_decimal(width as nat, u32::MAX as nat);
    lemma_parse_decimal(height as nat, u32::MAX as nat);
}

/// Four numbers joined by `,` split back into their decimal notations.
proof fn lemma_region_text_split(a: nat, b: nat, c: nat, d: nat)
    ensures
        split(decimal(a) + seq![','] + decimal(b) + seq![','] + decimal(c) + seq![','] + decimal(d), ',')
            == seq![decimal(a), decimal(b), decimal(c), decimal(d)],
{
    let d0 = decimal(a);
    let d1 = decimal(b);
    let d2 = decimal(c);
    let d3 = decimal(d);
    let raw = d0 + seq![','] + d1 + seq![','] + d2 + seq![','] + d3;
    lemma_no_comma(a);
    lemma_no_comma(b);
    lemma_no_comma(c);
    lemma_no_comma(d);
    lemma_split_absent(d3, ',');
    lemma_split_first(d2, ',', d3);
    lemma_split_first(d1, ',', d2 + seq![','] + d3);
    lemma_split_first(d0, ',', d1 + seq![','] + (d2 + seq![','] + d3));
    assert(raw =~= d0 + seq![','] + (d1 + seq![','] + (d2 + seq![','] + d3)));
    assert(split(raw, ',') =~= seq![d0, d1, d2, d3]);
}

/// Decimal notation holds no `,`.
proof fn lemma_no_comma(n: nat)
    ensures
        forall|i: int| 0 <= i < decimal(n).len() ==> decimal(n)[i] != ',',
{
    lemma_decimal_digits(n);
    assert forall|i: int| 0 <= i < decimal(n).len() implies decimal(n)[i] != ',' by {
        assert(is_digit(decimal(n)[i]));
    }
}

/// Which job API actually produces images on this host.
#[derive(Debug, Clone, Copy, PartialEq, Eq, Structural)]
pub enum JobProtocol {
    /// HP SOAP/DIME cycle on port 8289 (`http://tempuri.org/wscn.xsd`).
    Soap { port: u16 },
    /// Native eSCL ScanJobs (present on some firmware; this M177fw returns 404).
    Escl { port: u16 },
    /// Microsoft WSD Scan on port 3911 (`/scanner`, document format `dib`).
    Wsd { port: u16 },
}

impl JobProtocol {
    pub fn soap(port: u16) -> (r: Self)
        ensures
            r == (JobProtocol::Soap { port }),
    {
        JobProtocol::Soap { port }
    }
}

/// A persisted scanner the user added.
#[derive(Debug, Clone, PartialEq, Eq)]
pub struct DeviceRecord {
    pub id: String,
    pub name: String,
    pub host: String,
    pub job: JobProtocol,
    pub has_escl_caps: bool,
    pub has_platen: bool,
    pub has_adf: bool,
    pub uuid: Option<String>,
}

/// `http://{host}:{port}`
pub open spec fn http_origin(host: Seq<char>, port: nat) -> Seq<char> {
    "http://"@ + host + ":"@ + decimal(port)
}

/// Build `http://{host}:{port}` followed by `path`.
pub fn http_url(host: &str, port: u16, path: &str) -> (r: String)
    ensures
        r@ == http_origin(host@, port as nat) + path@,
{
    let mut s = String::new();
    s.append("http://");
    s.append(host);
    s.append(":");
    let p = decimal_string(port as u64);
    s.append(p.as_str());
    s.append(path);
    s
}

/// The SOAP endpoint of a device, when its job protocol is SOAP.
pub open spec fn spec_soap_url(d: DeviceRecord) -> Option<Seq<char>> {
    match d.job {
        JobProtocol::Soap { port } => Some(http_origin(d.host@, port as nat) + "/"@),
        _ => None,
    }
}

/// The eSCL base URL of a device: its eSCL job port, or port 80 when the
/// device serves eSCL capabilities beside another job protocol.
pub open spec fn spec_escl_base(d: DeviceRecord) -> Option<Seq<char>> {
    match d.job {
        JobProtocol::Escl { port } => Some(http_origin(d.host@, port as nat) + "/eSCL"@),
        _ => if d.has_escl_caps {
            Some(http_origin(d.host@, DEFAULT_ESCL_PORT as nat) + "/eSCL"@)
        } else {
            None
        },
    }
}

impl DeviceRecord {
    pub fn soap_url(&self) -> (r: Option<String>)
        ensures
            r matches Some(u) ==> spec_soap_url(*self) == Some(u@),
            r is None ==> spec_soap_url(*self) is None,
    {
        match self.job {
            JobProtocol::Soap { port } => Some(http_url(self.host.as_str(), port, "/")),
            _ => None,
        }
    }

    pub fn escl_base(&self) -> (r: Option<String>)
        ensures
            r matches Some(u) ==> spec_escl_base(*self) == Some(u@),
            r is None ==> spec_escl_base(*self) is None,
    {
        match self.job {
            JobProtocol::Escl { port } => Some(http_url(self.host.as_str(), port, "/eSCL")),
            _ => {
                if self.has_escl_caps {
                    Some(http_url(self.host.as_str(), DEFAULT_ESCL_PORT, "/eSCL"))
                } else {
                    None
                }
            },
        }
    }
}

/// Parameters for one scan job.
#[derive(Debug, Clone, PartialEq, Eq)]
pub struct ScanRequest {
    pub source: ScanSource,
    pub color: ColorMode,
    pub dpi: u32,
    pub format: OutputFormat,
    pub output: Option<std::path::PathBuf>,
    pub region: Option<ScanRegion>,
}

impl Default for ScanRequest {
    fn default() -> (r: Self)
        ensures
            r.source == ScanSource::Platen,
            r.color == ColorMode::Color,
            r.dpi == 300,
            r.format == OutputFormat::Jpeg,
            r.output is None,
            r.region is None,
    {
        ScanRequest {
            source: ScanSource::Platen,
            color: ColorMode::Color,
            dpi: 300,
            format: OutputFormat::Jpeg,
            output: None,
            region: None,
        }
    }
}

/// Firmware media box in 1/1000 inch (Letter / A4-class).
pub open spec fn spec_media_size(source: ScanSource) -> (u32, u32) {
    match source {
        ScanSource::Platen => (8500, 11690),
        ScanSource::Adf => (8500, 14000),
    }
}

/// The requested region, or the whole media box.
pub open spec fn spec_region_or_full(req: ScanRequest) -> ScanRegion {
    match req.region {
        Some(r) => r,
        None => ScanRegion {
            x: 0,
            y: 0,
            width: spec_media_size(req.source).0,
            height: spec_media_size(req.source).1,
        },
    }
}

/// A resolution the device accepts.
pub open spec fn dpi_in_range(dpi: u32) -> bool {
    1 <= dpi && dpi <= 1200
}

impl ScanRequest {
    /// Resolution must be 1–1200 dpi.
    pub fn validate(&self) -> (r: Result<()>)
        ensures
            r is Ok <==> dpi_in_range(self.dpi),
            r matches Err(e) ==> e matches Error::InvalidRequest(m) && m@ == "resolution "@
                + decimal(self.dpi as nat) + " dpi is out of range (1–1200)"@,
    {
        if self.dpi == 0 || self.dpi > 1200 {
            let mut s = String::new();
            s.append("resolution ");
            let d = decimal_string(self.dpi as u64);
            s.append(d.as_str());
            s.append(" dpi is out of range (1–1200)");
            return Err(Error::InvalidRequest(s));
        }
        Ok(())
    }

    /// Firmware media box in 1/1000 inch (Letter / A4-class).
    pub fn media_size(&self) -> (r: (u32, u32))
        ensures
            r == spec_media_size(self.source),
    {
        match self.source {
            ScanSource::Platen => (8500, 11690),
            ScanSource::Adf => (8500, 14000),
        }
    }

    /// The requested region, or the whole media box.
    pub fn region_or_full(&self) -> (r: ScanRegion)
        ensures
            r == spec_region_or_full(*self),
    {
        let (width, height) = self.media_size();
        match self.region {
            Some(r) => r,
            None => ScanRegion { x: 0, y: 0, width, height },
        }
    }
}

/// `scan-{ts}.{ext}`
pub open spec fn spec_scan_file_name(ts: nat, format: OutputFormat) -> Seq<char> {
    "scan-"@ + decimal(ts) + "."@ + spec_extension(format)
}

/// `dir` joined with `scan-{ts}.{ext}` (one `/` between them).
pub open spec fn spec_default_scan_path(dir: Seq<char>, ts: nat, format: OutputFormat) -> Seq<
    char,
> {
    if dir.len() == 0 {
        spec_scan_file_name(ts, format)
    } else if dir.last() == '/' {
        dir + spec_scan_file_name(ts, format)
    } else {
        dir + "/"@ + spec_scan_file_name(ts, format)
    }
}

/// `<dir>/scan-<unix-seconds>.<ext>`; the caller supplies the Documents
/// folder and the clock.
pub fn default_scan_path(dir: &str, ts: u64, format: OutputFormat) -> (r: String)
    ensures
        r@ == spec_default_scan_path(dir@, ts as nat, format),
{
    let d = chars_of(dir);
    let mut s = String::new();
    s.append(dir);
    if d.len() > 0 && d[d.len() - 1] != '/' {
        s.append("/");
    }
    s.append("scan-");
    let n = decimal_string(ts);
    s.append(n.as_str());
    s.append(".");
    s.append(format.extension());
    s
}

/// Bytes returned by a completed job.
#[derive(Debug, Clone, PartialEq, Eq)]
pub struct ScanOutput {
    pub bytes: Vec<u8>,
    pub format: OutputFormat,
    pub source: ScanSource,
    pub color: ColorMode,
    pub dpi: u32,
}

/// Subset of SOAP `GetScannerElements` we care about.
#[derive(Debug, PartialEq, Eq)]
pub struct SoapCapabilities {
    pub formats: Vec<String>,
    pub colors: Vec<String>,
    pub platen: bool,
    pub adf: bool,
    pub adf_duplex: bool,
    pub state: String,
    pub paper_in_adf: bool,
    pub platen_max: (u32, u32),
    pub adf_max: (u32, u32),
    pub platen_optical_dpi: u32,
    pub adf_optical_dpi: u32,
}

impl Clone for SoapCapabilities {
    fn clone(&self) -> (r: Self)
        ensures
            r.formats@ == self.formats@,
            r.colors@ == self.colors@,
            r.platen == self.platen,
            r.adf == self.adf,
            r.adf_duplex == self.adf_duplex,
            r.state@ == self.state@,
            r.paper_in_adf == self.paper_in_adf,
            r.platen_max == self.platen_max,
            r.adf_max == self.adf_max,
            r.platen_optical_dpi == self.platen_optical_dpi,
            r.adf_optical_dpi == self.adf_optical_dpi,
    {
        SoapCapabilities {
            formats: self.formats.clone(),
            colors: self.colors.clone(),
            platen: self.platen,
            adf: self.adf,
            adf_duplex: self.adf_duplex,
            state: self.state.clone(),
            paper_in_adf: self.paper_in_adf,
            platen_max: self.platen_max,
            adf_max: self.adf_max,
            platen_optical_dpi: self.platen_optical_dpi,
            adf_optical_dpi: self.adf_optical_dpi,
        }
    }
}

/// `s` without any `-`.
pub open spec fn without_dashes(s: Seq<char>) -> Seq<char>
    decreases s.len(),
{
    if s.len() == 0 {
        s
    } else if s.last() == '-' {
        without_dashes(s.drop_last())
    } else {
        without_dashes(s.drop_last()).push(s.last())
    }
}

/// A reported color name that names `mode`.
pub open spec fn color_item_matches(item: Seq<char>, mode: ColorMode) -> bool {
    let n = ascii_lower(item);
    without_dashes(n) == ascii_lower(spec_color_soap_name(mode)) || match mode {
        ColorMode::Color => seq_contains(n, "rgb24"@),
        ColorMode::Gray => seq_contains(n, "gray"@),
        ColorMode::Lineart => seq_contains(n, "black"@) || seq_contains(n, "bw"@),
    }
}

/// The views of a sequence of strings.
pub open spec fn string_views(v: Seq<String>) -> Seq<Seq<char>> {
    v.map_values(|x: String| x@)
}

fn remove_dashes(v: &[char]) -> (r: Vec<char>)
    ensures
        r@ == without_dashes(v@),
{
    let mut r: Vec<char> = Vec::new();
    for i in 0..v.len()
        invariant
            r@ == without_dashes(v@.take(i as int)),
    {
        assert(v@.take(i + 1).drop_last() =~= v@.take(i as int));
        if v[i] != '-' {
            r.push(v[i]);
        }
    }
    assert(v@.take(v@.len() as int) =~= v@);
    r
}

fn color_item_matches_exec(item: &String, mode: ColorMode) -> (r: bool)
    ensures
        r == color_item_matches(item@, mode),
{
    let c = chars_of(item.as_str());
    let n = lower_chars(c.as_slice());
    let plain = remove_dashes(n.as_slice());
    let sn = chars_of(mode.soap_name());
    let needle = lower_chars(sn.as_slice());
    let same = crate::text::chars_eq(plain.as_slice(), needle.as_slice());
    same || match mode {
        ColorMode::Color => contains_str(n.as_slice(), "rgb24"),
        ColorMode::Gray => contains_str(n.as_slice(), "gray"),
        ColorMode::Lineart => contains_str(n.as_slice(), "black") || contains_str(
            n.as_slice(),
            "bw",
        ),
    }
}

impl SoapCapabilities {
    /// Some reported color names `mode`, exactly (ignoring case and `-`) or
    /// by a telling fragment.
    pub fn supports_color(&self, mode: ColorMode) -> (r: bool)
        ensures
            r == exists|i: int|
                0 <= i < self.colors@.len() && #[trigger] color_item_matches(
                    self.colors@[i]@,
                    mode,
                ),
    {
        let mut i: usize = 0;
        while i < self.colors.len()
            invariant
                i <= self.colors@.len(),
                forall|k: int| 0 <= k < i ==> !#[trigger] color_item_matches(self.colors@[k]@, mode),
            decreases self.colors@.len() - i,
        {
            if color_item_matches_exec(&self.colors[i], mode) {
                return true;
            }
            i = i + 1;
        }
        false
    }
}

/// Result of probing a host for scan endpoints.
#[derive(Debug, Clone, PartialEq, Eq)]
pub struct ProbeResult {
    pub host: String,
    pub name: String,
    pub soap: Option<SoapCapabilities>,
    pub escl_caps: bool,
    pub escl_jobs: bool,
    pub preferred: Option<JobProtocol>,
}

/// Characters kept in a device id.
pub open spec fn slug_keeps(c: char) -> bool {
    ('a' <= c && c <= 'z') || ('A' <= c && c <= 'Z') || ('0' <= c && c <= '9') || c == '-' || c
        == '.'
}

/// A host name turned into a device id: letters, digits, `-` and `.` kept
/// (lower case), everything else `-`; `scanner` when nothing is left.
pub open spec fn spec_slug_id(host: Seq<char>) -> Seq<char> {
    if host.len() == 0 {
        "scanner"@
    } else {
        host.map_values(
            |c: char|
                if slug_keeps(c) {
                    crate::text::lower_char(c)
                } else {
                    '-'
                },
        )
    }
}

pub fn slug_id(host: &str) -> (r: String)
    ensures
        r@ == spec_slug_id(host@),
{
    let v = chars_of(host);
    if v.len() == 0 {
        return String::from_str("scanner");
    }
    let mut out: Vec<char> = Vec::new();
    for i in 0..v.len()
        invariant
            v@ == host@,
            out@ == v@.take(i as int).map_values(
                |c: char|
                    if slug_keeps(c) {
                        crate::text::lower_char(c)
                    } else {
                        '-'
                    },
            ),
    {
        let c = v[i];
        let keep = ('a' <= c && c <= 'z') || ('A' <= c && c <= 'Z') || ('0' <= c && c <= '9')
            || c == '-' || c == '.';
        let m = if keep {
            crate::text::lower_char_exec(c)
        } else {
            '-'
        };
        out.push(m);
        assert(v@.take(i + 1) =~= v@.take(i as int).push(c));
    }
    assert(v@.take(v@.len() as int) =~= v@);
    string_from_chars(out.as_slice())
}

/// The device record `into_device` makes of a successful probe.
pub open spec fn spec_into_device_fields(p: ProbeResult, d: DeviceRecord) -> bool {
    &&& p.preferred == Some(d.job)
    &&& d.id@ == spec_slug_id(p.host@)
    &&& d.name == p.name
    &&& d.host == p.host
    &&& d.has_escl_caps == p.escl_caps
    &&& d.has_platen == (match p.soap {
        Some(c) => c.platen,
        None => true,
    })
    &&& d.has_adf == (match p.soap {
        Some(c) => c.adf,
        None => true,
    })
    &&& d.uuid is None
}

impl ProbeResult {
    /// A device record, when the probe found a job protocol.
    pub fn into_device(self) -> (r: Result<DeviceRecord>)
        ensures
            r is Ok <==> self.preferred is Some,
            r matches Ok(d) ==> spec_into_device_fields(self, d),
            r matches Err(e) ==> e matches Error::NoScanProtocol { host, soap_port } && host
                == self.host && soap_port == DEFAULT_SOAP_PORT,
    {
        let job = match self.preferred {
            Some(j) => j,
            None => {
                return Err(Error::NoScanProtocol { host: self.host, soap_port: DEFAULT_SOAP_PORT });
            },
        };
        let (has_platen, has_adf) = match &self.soap {
            Some(c) => (c.platen, c.adf),
            None => (true, true),
        };
        let id = slug_id(self.host.as_str());
        Ok(
            DeviceRecord {
                id,
                name: self.name,
                host: self.host,
                job,
                has_escl_caps: self.escl_caps,
                has_platen,
                has_adf,
                uuid: None,
            },
        )
    }
}

/// A device seen on the LAN (mDNS) before it is probed.
#[derive(Debug, Clone, PartialEq, Eq)]
pub struct DiscoveredDevice {
    pub name: String,
    pub host: String,
    pub service: String,
    pub port: u16,
}

/// Outcome of the optional AirPrint add-printer helper.
#[derive(Debug, Clone, PartialEq, Eq)]
pub enum PrintAddOutcome {
    LeftExisting { queue: String },
    Added { queue: String, uri: String },
    Skipped { reason: String },
}

} // verus!
