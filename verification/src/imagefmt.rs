//! JPEG validation / generation, a one-page PDF wrapper, BMP/DIB decoding and
//! an uncompressed TIFF writer.
use crate::dime::{be16, be16_at, lossy_string, utf8_lossy};
use crate::error::{Error, Result};
use crate::model::ColorMode;
use crate::text::{contains_bytes, decimal, decimal_chars, seq_contains};
use vstd::prelude::*;
use vstd::string::StringSliceAdditionalSpecFns;

verus! {

/// The bytes `FF D9` (end of image).
pub open spec fn eoi() -> Seq<u8> {
    seq![0xffu8, 0xd9u8]
}

/// Starts with SOI and has an EOI marker somewhere, at least four bytes.
pub open spec fn spec_is_jpeg(b: Seq<u8>) -> bool {
    b.len() >= 4 && b[0] == 0xff && b[1] == 0xd8 && seq_contains(b, eoi())
}

pub fn is_jpeg(bytes: &[u8]) -> (r: bool)
    ensures
        r == spec_is_jpeg(bytes@),
{
    if bytes.len() < 4 || bytes[0] != 0xff || bytes[1] != 0xd8 {
        return false;
    }
    let e: [u8; 2] = [0xff, 0xd9];
    assert(e@ =~= eoi());
    contains_bytes(bytes, e.as_slice())
}

/// `%PDF`.
pub open spec fn pdf_magic() -> Seq<u8> {
    seq![37u8, 80u8, 68u8, 70u8]
}

/// `%%EOF`.
pub open spec fn pdf_eof() -> Seq<u8> {
    seq![37u8, 37u8, 69u8, 79u8, 70u8]
}

/// Starts with `%PDF` and contains `%%EOF`.
pub open spec fn spec_is_pdf(b: Seq<u8>) -> bool {
    b.len() >= 4 && b.take(4) == pdf_magic() && seq_contains(b, pdf_eof())
}

pub fn is_pdf(bytes: &[u8]) -> (r: bool)
    ensures
        r == spec_is_pdf(bytes@),
{
    if bytes.len() < 4 || bytes[0] != 37 || bytes[1] != 80 || bytes[2] != 68 || bytes[3] != 70 {
        proof {
            if bytes@.len() >= 4 && bytes@.take(4) == pdf_magic() {
                assert(bytes@.take(4)[0] == 37u8);
                assert(bytes@.take(4)[3] == 70u8);
            }
        }
        return false;
    }
    assert(bytes@.take(4) =~= pdf_magic());
    let e: [u8; 5] = [37, 37, 69, 79, 70];
    assert(e@ =~= pdf_eof());
    contains_bytes(bytes, e.as_slice())
}

/// SOF0, SOF1 or SOF2.
pub open spec fn is_sof(m: u8) -> bool {
    m == 0xc0 || m == 0xc1 || m == 0xc2
}

/// A marker without a length field: SOI, EOI or RSTn.
pub open spec fn standalone(m: u8) -> bool {
    m == 0xd8 || m == 0xd9 || (0xd0 <= m && m <= 0xd7)
}

/// Walk the markers from `i` to the first SOF and read (width, height).
pub open spec fn dims_from(b: Seq<u8>, i: int) -> Option<(u32, u32)>
    decreases b.len() - i,
{
    if i < 0 || i + 4 >= b.len() {
        None
    } else if b[i] != 0xff {
        dims_from(b, i + 1)
    } else if standalone(b[i + 1]) {
        dims_from(b, i + 2)
    } else if is_sof(b[i + 1]) && i + 9 < b.len() {
        Some((be16_at(b, i + 7) as u32, be16_at(b, i + 5) as u32))
    } else if i + 2 + be16_at(b, i + 2) >= b.len() {
        None
    } else {
        dims_from(b, i + 2 + be16_at(b, i + 2))
    }
}

/// Width and height from the first SOF0/SOF1/SOF2 segment.
pub open spec fn spec_jpeg_dimensions(b: Seq<u8>) -> Option<(u32, u32)> {
    dims_from(b, 2)
}

fn be16_exec(b: &[u8], i: usize) -> (r: usize)
    requires
        i + 1 < b@.len(),
    ensures
        r as nat == be16_at(b@, i as int),
        r < 0x10000,
{
    (b[i] as usize) * 256 + (b[i + 1] as usize)
}

/// Read width/height from SOF0/SOF1/SOF2.
pub fn jpeg_dimensions(bytes: &[u8]) -> (r: Option<(u32, u32)>)
    ensures
        r == spec_jpeg_dimensions(bytes@),
{
    if bytes.len() <= 6 {
        return None;
    }
    let mut i: usize = 2;
    while i < bytes.len() - 4
        invariant
            bytes@.len() > 6,
            2 <= i <= bytes@.len(),
            dims_from(bytes@, i as int) == dims_from(bytes@, 2),
        decreases bytes@.len() - i,
    {
        if bytes[i] != 0xff {
            i = i + 1;
            continue;
        }
        let marker = bytes[i + 1];
        if marker == 0xd8 || marker == 0xd9 || (0xd0 <= marker && marker <= 0xd7) {
            i = i + 2;
            continue;
        }
        let len = be16_exec(bytes, i + 2);
        if (marker == 0xc0 || marker == 0xc1 || marker == 0xc2) && bytes.len() - i > 9 {
            let h = be16_exec(bytes, i + 5) as u32;
            let w = be16_exec(bytes, i + 7) as u32;
            return Some((w, h));
        }
        if len >= bytes.len() - (i + 2) {
            return None;
        }
        i = i + 2 + len;
    }
    None
}

/// The COM segment's length field for a comment of `n` bytes (truncated to 16 bits).
pub open spec fn com_len(n: nat) -> nat {
    (n + 2) % 0x10000
}

/// The SOF0 segment of the 8×8 synthetic image with `nf` components.
pub open spec fn sof_segment(nf: nat) -> Seq<u8> {
    seq![0xffu8, 0xc0u8] + be16(8 + 3 * nf) + seq![8u8] + be16(8) + be16(8) + seq![nf as u8]
        + components(nf)
}

/// Component specifications 1..=nf, each sampled 1×1 with table 0.
pub open spec fn components(nf: nat) -> Seq<u8>
    decreases nf,
{
    if nf == 0 {
        Seq::<u8>::empty()
    } else {
        components((nf - 1) as nat) + seq![nf as u8, 0x11u8, 0u8]
    }
}

/// The fixed SOS segment of the synthetic image.
pub open spec fn sos_segment() -> Seq<u8> {
    seq![0xffu8, 0xdau8, 0x00u8, 0x08u8, 0x01u8, 0x01u8, 0x00u8, 0x00u8, 0x3fu8, 0x00u8, 0x00u8]
}

/// Components of the synthetic image: three for color, one otherwise.
pub open spec fn synthetic_components(color: ColorMode) -> nat {
    if color == ColorMode::Color {
        3
    } else {
        1
    }
}

/// SOI, a COM segment carrying `comment`, SOF0 (8×8), SOS and EOI.
pub open spec fn spec_synthetic_jpeg(comment: Seq<u8>, color: ColorMode) -> Seq<u8> {
    seq![0xffu8, 0xd8u8] + (seq![0xffu8, 0xfeu8] + be16(com_len(comment.len())) + comment)
        + sof_segment(synthetic_components(color)) + sos_segment() + eoi()
}

fn push_be16(out: &mut Vec<u8>, n: usize)
    requires
        n < 0x10000,
    ensures
        final(out)@ == old(out)@ + be16(n as nat),
{
    out.push((n / 256) as u8);
    out.push((n % 256) as u8);
    assert(final(out)@ =~= old(out)@ + be16(n as nat));
}

proof fn lemma_com_len(n: nat)
    ensures
        (n % 0x10000 + 2) % 0x10000 == com_len(n),
{
    assert((n % 0x10000 + 2) % 0x10000 == (n + 2) % 0x10000) by (nonlinear_arith);
}

fn push_sof(out: &mut Vec<u8>, nf: u8)
    requires
        1 <= nf <= 3,
    ensures
        final(out)@ == old(out)@ + sof_segment(nf as nat),
{
    let ghost before = out@;
    out.push(0xff);
    out.push(0xc0);
    push_be16(out, 8 + 3 * (nf as usize));
    out.push(8);
    push_be16(out, 8);
    push_be16(out, 8);
    out.push(nf);
    let ghost head = out@;
    let mut c: u8 = 1;
    assert(components(0) =~= Seq::<u8>::empty());
    assert(out@ =~= head + components(0));
    while c <= nf
        invariant
            1 <= c <= nf + 1,
            nf <= 3,
            out@ == head + components((c - 1) as nat),
        decreases nf + 1 - c,
    {
        out.push(c);
        out.push(0x11);
        out.push(0);
        assert(out@ =~= head + components(c as nat));
        c = c + 1;
    }
    assert(out@ =~= before + sof_segment(nf as nat));
}

fn push_sos_eoi(out: &mut Vec<u8>)
    ensures
        final(out)@ == old(out)@ + sos_segment() + eoi(),
{
    let ghost before = out@;
    out.push(0xff);
    out.push(0xda);
    out.push(0x00);
    out.push(0x08);
    out.push(0x01);
    out.push(0x01);
    out.push(0x00);
    out.push(0x00);
    out.push(0x3f);
    out.push(0x00);
    out.push(0x00);
    out.push(0xff);
    out.push(0xd9);
    assert(out@ =~= before + sos_segment() + eoi());
}

/// Tiny but structurally valid JPEG used by the fake device. A COM marker
/// carries the job parameters so tests can inspect the payload without
/// depending on pixel dumps.
pub fn synthetic_jpeg(comment: &str, color: ColorMode) -> (r: Vec<u8>)
    ensures
        r@ == spec_synthetic_jpeg(comment.spec_bytes(), color),
{
    let payload = comment.as_bytes();
    let mut out: Vec<u8> = Vec::new();
    out.push(0xff);
    out.push(0xd8);
    out.push(0xff);
    out.push(0xfe);
    let n = payload.len();
    let field = (n % 0x10000 + 2) % 0x10000;
    assert(field as nat == com_len(n as nat)) by {
        lemma_com_len(n as nat);
    }
    push_be16(&mut out, field);
    out.extend_from_slice(payload);
    let nf: u8 = if color == ColorMode::Color {
        3
    } else {
        1
    };
    let ghost com = out@;
    push_sof(&mut out, nf);
    let ghost with_sof = out@;
    push_sos_eoi(&mut out);
    let ghost head = seq![0xffu8, 0xd8u8] + (seq![0xffu8, 0xfeu8] + be16(com_len(payload@.len())) + payload@);
    assert(com =~= head);
    assert(nf as nat == synthetic_components(color));
    assert(out@ =~= head + sof_segment(synthetic_components(color)) + sos_segment() + eoi());
    out
}

/// Walk the markers from `i` to the first well-formed COM segment and take
/// its payload.
pub open spec fn comment_from(b: Seq<u8>, i: int) -> Option<Seq<u8>>
    decreases b.len() - i,
{
    if i < 0 || i + 4 >= b.len() {
        None
    } else if b[i] != 0xff {
        comment_from(b, i + 1)
    } else if b[i + 1] == 0xfe && i + 2 + be16_at(b, i + 2) <= b.len() && be16_at(b, i + 2)
        >= 2 {
        Some(b.subrange(i + 4, i + 2 + be16_at(b, i + 2)))
    } else if b[i + 1] == 0xd8 || b[i + 1] == 0xd9 {
        comment_from(b, i + 2)
    } else if i + 2 + be16_at(b, i + 2) >= b.len() {
        None
    } else {
        comment_from(b, i + 2 + be16_at(b, i + 2))
    }
}

/// The first COM segment's text: its UTF-8 decoded, invalid sequences
/// replaced as `String::from_utf8_lossy` does.
pub open spec fn spec_jpeg_comment(b: Seq<u8>) -> Option<Seq<char>> {
    match comment_from(b, 2) {
        Some(c) => Some(
            if vstd::utf8::valid_utf8(c) {
                vstd::utf8::decode_utf8(c)
            } else {
                utf8_lossy(c)
            },
        ),
        None => None,
    }
}

/// The comment written into a synthetic JPEG reads back unchanged, when it
/// fits one COM segment (at most 65533 bytes of UTF-8).
pub proof fn lemma_synthetic_comment_roundtrip(comment: Seq<char>, color: ColorMode)
    requires
        vstd::utf8::encode_utf8(comment).len() + 2 < 0x10000,
    ensures
        spec_jpeg_comment(spec_synthetic_jpeg(vstd::utf8::encode_utf8(comment), color)) == Some(
            comment,
        ),
{
    let p = vstd::utf8::encode_utf8(comment);
    let b = spec_synthetic_jpeg(p, color);
    vstd::utf8::encode_utf8_valid_utf8(comment);
    vstd::utf8::encode_utf8_decode_utf8(comment);
    let n = p.len() + 2;
    assert(com_len(p.len()) == n);
    assert(b[2] == 0xffu8 && b[3] == 0xfeu8);
    assert(b[4] == ((n / 256) % 256) as u8 && b[5] == (n % 256) as u8);
    assert(be16_at(b, 4) == n);
    assert(b.subrange(6, 4 + n as int) =~= p);
    assert(comment_from(b, 2) == Some(p));
}

pub fn jpeg_comment(bytes: &[u8]) -> (r: Option<String>)
    ensures
        crate::xmlutil::opt_view(r) == spec_jpeg_comment(bytes@),
{
    if bytes.len() <= 6 {
        return None;
    }
    let mut i: usize = 2;
    while i < bytes.len() - 4
        invariant
            bytes@.len() > 6,
            2 <= i <= bytes@.len(),
            comment_from(bytes@, i as int) == comment_from(bytes@, 2),
        decreases bytes@.len() - i,
    {
        if bytes[i] != 0xff {
            i = i + 1;
            continue;
        }
        let marker = bytes[i + 1];
        let len = be16_exec(bytes, i + 2);
        if marker == 0xfe {
            if len <= bytes.len() - (i + 2) && len >= 2 {
                let mut body: Vec<u8> = Vec::new();
                body.extend_from_slice(&bytes[i + 4..i + 2 + len]);
                assert(body@ =~= bytes@.subrange(i + 4, i + 2 + len));
                return Some(lossy_string(body.as_slice()));
            }
        }
        if marker == 0xd8 || marker == 0xd9 {
            i = i + 2;
            continue;
        }
        if len >= bytes.len() - (i + 2) {
            return None;
        }
        i = i + 2 + len;
    }
    None
}

/// Walk the markers from `i` to the first SOF: is it a one-component image?
pub open spec fn gray_from(b: Seq<u8>, i: int) -> bool
    decreases b.len() - i,
{
    if i < 0 || i + 9 >= b.len() {
        false
    } else if b[i] != 0xff {
        gray_from(b, i + 1)
    } else if is_sof(b[i + 1]) {
        b[i + 9] == 1
    } else if i + 2 + be16_at(b, i + 2) >= b.len() {
        false
    } else {
        gray_from(b, i + 2 + be16_at(b, i + 2))
    }
}

fn jpeg_is_gray(bytes: &[u8]) -> (r: bool)
    ensures
        r == gray_from(bytes@, 2),
{
    if bytes.len() <= 11 {
        return false;
    }
    let mut i: usize = 2;
    while i < bytes.len() - 9
        invariant
            bytes@.len() > 11,
            2 <= i <= bytes@.len(),
            gray_from(bytes@, i as int) == gray_from(bytes@, 2),
        decreases bytes@.len() - i,
    {
        if bytes[i] != 0xff {
            i = i + 1;
            continue;
        }
        let marker = bytes[i + 1];
        if marker == 0xc0 || marker == 0xc1 || marker == 0xc2 {
            return bytes[i + 9] == 1;
        }
        let len = be16_exec(bytes, i + 2);
        if len >= bytes.len() - (i + 2) {
            return false;
        }
        i = i + 2 + len;
    }
    false
}

/// `BM` and at least a file and info header.
pub open spec fn spec_is_bmp(b: Seq<u8>) -> bool {
    b.len() >= 54 && b[0] == 66 && b[1] == 77
}

pub fn is_bmp(bytes: &[u8]) -> (r: bool)
    ensures
        r == spec_is_bmp(bytes@),
{
    bytes.len() >= 54 && bytes[0] == 66 && bytes[1] == 77
}

/// Little-endian 32-bit value at `i`.
pub open spec fn le32_at(b: Seq<u8>, i: int) -> nat {
    b[i] as nat + 256 * (b[i + 1] as nat + 256 * (b[i + 2] as nat + 256 * b[i + 3] as nat))
}

/// Little-endian 16-bit value at `i`.
pub open spec fn le16_at(b: Seq<u8>, i: int) -> nat {
    b[i] as nat + 256 * b[i + 1] as nat
}

fn le32_exec(b: &[u8], i: usize) -> (r: u32)
    requires
        i + 3 < b@.len(),
    ensures
        r as nat == le32_at(b@, i as int),
{
    (b[i] as u32) + 256 * ((b[i + 1] as u32) + 256 * ((b[i + 2] as u32) + 256 * (b[i + 3] as u32)))
}

fn le16_exec(b: &[u8], i: usize) -> (r: u16)
    requires
        i + 1 < b@.len(),
    ensures
        r as nat == le16_at(b@, i as int),
{
    (b[i] as u16) + 256 * (b[i + 1] as u16)
}

/// A bare DIB: at least 40 bytes starting with a known info-header size.
pub open spec fn spec_is_dib(b: Seq<u8>) -> bool {
    b.len() >= 40 && (le32_at(b, 0) == 40 || le32_at(b, 0) == 108 || le32_at(b, 0) == 124)
}

pub fn is_dib(bytes: &[u8]) -> (r: bool)
    ensures
        r == spec_is_dib(bytes@),
{
    if bytes.len() < 40 {
        return false;
    }
    let header = le32_exec(bytes, 0);
    header == 40 || header == 108 || header == 124
}

/// `II*\0` or `MM\0*`.
pub open spec fn spec_is_tiff(b: Seq<u8>) -> bool {
    b.len() >= 4 && ((b[0] == 73 && b[1] == 73 && b[2] == 42 && b[3] == 0) || (b[0] == 77 && b[1]
        == 77 && b[2] == 0 && b[3] == 42))
}

pub fn is_tiff(bytes: &[u8]) -> (r: bool)
    ensures
        r == spec_is_tiff(bytes@),
{
    bytes.len() >= 4 && ((bytes[0] == 73 && bytes[1] == 73 && bytes[2] == 42 && bytes[3] == 0)
        || (bytes[0] == 77 && bytes[1] == 77 && bytes[2] == 0 && bytes[3] == 42))
}


/// Little-endian 32-bit field (the value taken modulo 2^32).
pub open spec fn le32(n: nat) -> Seq<u8> {
    seq![
        (n % 256) as u8,
        ((n / 256) % 256) as u8,
        ((n / 0x10000) % 256) as u8,
        ((n / 0x1000000) % 256) as u8,
    ]
}

/// Little-endian 16-bit field.
pub open spec fn le16(n: nat) -> Seq<u8> {
    seq![(n % 256) as u8, ((n / 256) % 256) as u8]
}

fn push_le32(out: &mut Vec<u8>, v: u32)
    ensures
        final(out)@ == old(out)@ + le32(v as nat),
{
    out.push((v % 256) as u8);
    out.push(((v / 256) % 256) as u8);
    out.push(((v / 0x10000) % 256) as u8);
    out.push(((v / 0x1000000) % 256) as u8);
    assert(final(out)@ =~= old(out)@ + le32(v as nat));
}

fn push_le16(out: &mut Vec<u8>, v: u16)
    ensures
        final(out)@ == old(out)@ + le16(v as nat),
{
    out.push((v % 256) as u8);
    out.push(((v / 256) % 256) as u8);
    assert(final(out)@ =~= old(out)@ + le16(v as nat));
}

/// `n` copies of `px`.
pub open spec fn repeat(px: Seq<u8>, n: nat) -> Seq<u8>
    decreases n,
{
    if n == 0 {
        Seq::<u8>::empty()
    } else {
        repeat(px, (n - 1) as nat) + px
    }
}

/// The 14-byte file header and 40-byte info header of a 32-bit top-down BMP.
pub open spec fn bmp_headers(width: nat, height: nat) -> Seq<u8> {
    let pixel_bytes = width * height * 4;
    seq![66u8, 77u8] + le32((54 + pixel_bytes) % 0x1_0000_0000) + seq![0u8, 0u8, 0u8, 0u8]
        + le32(54) + le32(40) + le32(width) + le32(
        ((0x1_0000_0000 - height) % 0x1_0000_0000) as nat,
    ) + le16(1) + le16(32) + le32(0) + le32(pixel_bytes % 0x1_0000_0000) + le32(11811) + le32(
        11811,
    ) + le32(0) + le32(0)
}

/// A `width`×`height` 32-bit top-down BMP of one BGRA color (alpha 0).
pub open spec fn spec_solid_bmp(width: nat, height: nat, b: u8, g: u8, r: u8) -> Seq<u8> {
    bmp_headers(width, height) + repeat(seq![b, g, r, 0u8], width * height)
}

/// The BMP headers with the computed field values.
pub open spec fn bmp_header_fields(width: nat, file_size: nat, pixel_bytes: nat, neg_h: nat) -> Seq<u8> {
    seq![66u8, 77u8] + le32(file_size) + seq![0u8, 0u8, 0u8, 0u8] + le32(54) + le32(40) + le32(
        width,
    ) + le32(neg_h) + le16(1) + le16(32) + le32(0) + le32(pixel_bytes) + le32(11811) + le32(11811)
        + le32(0) + le32(0)
}

proof fn lemma_bmp_fields(width: nat, height: nat, pixel_bytes: nat, file_size: nat, pb32: nat, neg_h: nat)
    requires
        pixel_bytes == width * height * 4,
        file_size == (54 + pixel_bytes) % 0x1_0000_0000,
        pb32 == pixel_bytes % 0x1_0000_0000,
        neg_h == (if height == 0 { 0 } else { 0x1_0000_0000 - height }),
        height < 0x1_0000_0000,
    ensures
        bmp_header_fields(width, file_size, pb32, neg_h) == bmp_headers(width, height),
{
    assert(neg_h == ((0x1_0000_0000 - height) % 0x1_0000_0000) as nat);
}

fn bmp_header_vec(width: u32, height: u32, file_size: u32, pb32: u32, neg_h: u32) -> (out: Vec<u8>)
    ensures
        out@ == bmp_header_fields(width as nat, file_size as nat, pb32 as nat, neg_h as nat),
{
    let mut out: Vec<u8> = Vec::new();
    out.push(66);
    out.push(77);
    push_le32(&mut out, file_size);
    out.push(0);
    out.push(0);
    out.push(0);
    out.push(0);
    push_le32(&mut out, 54);
    push_le32(&mut out, 40);
    push_le32(&mut out, width);
    push_le32(&mut out, neg_h);
    push_le16(&mut out, 1);
    push_le16(&mut out, 32);
    push_le32(&mut out, 0);
    push_le32(&mut out, pb32);
    push_le32(&mut out, 11811);
    push_le32(&mut out, 11811);
    push_le32(&mut out, 0);
    push_le32(&mut out, 0);
    assert(out@ =~= bmp_header_fields(width as nat, file_size as nat, pb32 as nat, neg_h as nat));
    out
}

/// 32-bit top-down BGRA BMP used by tests and the WSD stand-in.
pub fn solid_bmp_bgra(width: u32, height: u32, b: u8, g: u8, r: u8) -> (out: Vec<u8>)
    requires
        width as nat * height as nat * 4 + 54 <= usize::MAX,
        height != 0x8000_0000,
    ensures
        out@ == spec_solid_bmp(width as nat, height as nat, b, g, r),
{
    let count: usize = width as usize * height as usize;
    assert(count * 4 + 54 <= usize::MAX) by (nonlinear_arith)
        requires
            count == width as nat * height as nat,
            width as nat * height as nat * 4 + 54 <= usize::MAX,
    ;
    let pixel_bytes: usize = count * 4;
    let file_size: u32 = ((14 + 40 + pixel_bytes) as u64 % 0x1_0000_0000) as u32;
    let pb32: u32 = (pixel_bytes as u64 % 0x1_0000_0000) as u32;
    let neg_h: u32 = if height == 0 {
        0
    } else {
        (0x1_0000_0000u64 - height as u64) as u32
    };
    let mut out = bmp_header_vec(width, height, file_size, pb32, neg_h);
    proof {
        lemma_bmp_fields(width as nat, height as nat, pixel_bytes as nat, file_size as nat, pb32 as nat, neg_h as nat);
    }
    assert(pixel_bytes as nat == width as nat * height as nat * 4);
    assert(out@ =~= bmp_headers(width as nat, height as nat));
    let ghost head = out@;
    let mut k: usize = 0;
    assert(out@ =~= head + repeat(seq![b, g, r, 0u8], 0));
    while k < count
        invariant
            k <= count,
            out@ == head + repeat(seq![b, g, r, 0u8], k as nat),
        decreases count - k,
    {
        out.push(b);
        out.push(g);
        out.push(r);
        out.push(0);
        k = k + 1;
        assert(out@ =~= head + repeat(seq![b, g, r, 0u8], k as nat));
    }
    out
}

/// The headers of a 32-bit top-down `BI_BITFIELDS` BMP: the 14-byte file
/// header, the 40-byte info header (compression 3) and the plain BGRA masks.
pub open spec fn bitfields_headers(width: nat, height: nat) -> Seq<u8> {
    let pixel_bytes = width * height * 4;
    seq![66u8, 77u8] + le32((66 + pixel_bytes) % 0x1_0000_0000) + seq![0u8, 0u8, 0u8, 0u8]
        + le32(66) + le32(40) + le32(width) + le32(
        ((0x1_0000_0000 - height) % 0x1_0000_0000) as nat,
    ) + le16(1) + le16(32) + le32(3) + le32(pixel_bytes % 0x1_0000_0000) + le32(11811) + le32(
        11811,
    ) + le32(0) + le32(0) + le32(0x00FF_0000) + le32(0x0000_FF00) + le32(0x0000_00FF)
}

/// A `width`×`height` 32-bit top-down `BI_BITFIELDS` BMP of one BGRA color
/// (alpha 0).
pub open spec fn spec_bitfields_bmp(width: nat, height: nat, b: u8, g: u8, r: u8) -> Seq<u8> {
    bitfields_headers(width, height) + repeat(seq![b, g, r, 0u8], width * height)
}

/// 32-bit top-down BGRA BMP with explicit bit-field masks, as some drivers
/// send.
#[verifier::spinoff_prover]
#[verifier::rlimit(40)]
pub fn bitfields_bgra_bmp(width: u32, height: u32, b: u8, g: u8, r: u8) -> (out: Vec<u8>)
    requires
        width as nat * height as nat * 4 + 66 <= usize::MAX,
        height != 0x8000_0000,
    ensures
        out@ == spec_bitfields_bmp(width as nat, height as nat, b, g, r),
{
    let count: usize = width as usize * height as usize;
    assert(count * 4 + 66 <= usize::MAX) by (nonlinear_arith)
        requires
            count == width as nat * height as nat,
            width as nat * height as nat * 4 + 66 <= usize::MAX,
    ;
    let pixel_bytes: usize = count * 4;
    let file_size: u32 = ((66 + pixel_bytes) as u64 % 0x1_0000_0000) as u32;
    let pb32: u32 = (pixel_bytes as u64 % 0x1_0000_0000) as u32;
    let neg_h: u32 = if height == 0 {
        0
    } else {
        (0x1_0000_0000u64 - height as u64) as u32
    };
    assert(neg_h as nat == ((0x1_0000_0000 - height) % 0x1_0000_0000) as nat);
    assert(pixel_bytes as nat == width as nat * height as nat * 4);
    let mut out: Vec<u8> = Vec::new();
    out.push(66);
    out.push(77);
    push_le32(&mut out, file_size);
    out.push(0);
    out.push(0);
    out.push(0);
    out.push(0);
    push_le32(&mut out, 66);
    push_le32(&mut out, 40);
    push_le32(&mut out, width);
    push_le32(&mut out, neg_h);
    push_le16(&mut out, 1);
    push_le16(&mut out, 32);
    push_le32(&mut out, 3);
    push_le32(&mut out, pb32);
    push_le32(&mut out, 11811);
    push_le32(&mut out, 11811);
    push_le32(&mut out, 0);
    push_le32(&mut out, 0);
    push_le32(&mut out, 0x00FF_0000);
    push_le32(&mut out, 0x0000_FF00);
    push_le32(&mut out, 0x0000_00FF);
    assert(out@ =~= bitfields_headers(width as nat, height as nat));
    let ghost head = out@;
    let mut k: usize = 0;
    assert(out@ =~= head + repeat(seq![b, g, r, 0u8], 0));
    while k < count
        invariant
            k <= count,
            out@ == head + repeat(seq![b, g, r, 0u8], k as nat),
        decreases count - k,
    {
        out.push(b);
        out.push(g);
        out.push(r);
        out.push(0);
        k = k + 1;
        assert(out@ =~= head + repeat(seq![b, g, r, 0u8], k as nat));
    }
    out
}

/// Three copies of `v`.
pub open spec fn gray3(v: u8) -> Seq<u8> {
    seq![v, v, v]
}

/// The RGB of pixel `x` of a BMP row with `bits` per pixel (32 and 24 are
/// BGR(A), 8 is gray).
pub open spec fn bmp_pixel(row: Seq<u8>, bits: nat, x: int) -> Seq<u8> {
    if bits == 32 {
        seq![row[4 * x + 2], row[4 * x + 1], row[4 * x]]
    } else if bits == 24 {
        seq![row[3 * x + 2], row[3 * x + 1], row[3 * x]]
    } else {
        gray3(row[x])
    }
}

/// The RGB of the first `n` pixels of a row.
pub open spec fn bmp_row(row: Seq<u8>, bits: nat, n: nat) -> Seq<u8>
    decreases n,
{
    if n == 0 {
        Seq::<u8>::empty()
    } else {
        bmp_row(row, bits, (n - 1) as nat) + bmp_pixel(row, bits, n - 1)
    }
}

/// Where a DIB's geometry puts its pixels.
pub struct DibLayout {
    pub width: nat,
    pub height: nat,
    pub bits: nat,
    pub row_bytes: nat,
    pub top_down: bool,
}

/// The stored row that becomes output row `y`.
pub open spec fn source_row(l: DibLayout, y: nat) -> nat {
    if l.top_down {
        y
    } else {
        (l.height - 1 - y) as nat
    }
}

/// The bytes of output row `y`.
pub open spec fn row_bytes_at(pixels: Seq<u8>, l: DibLayout, y: nat) -> Seq<u8> {
    let s = source_row(l, y) * l.row_bytes;
    pixels.subrange(s as int, (s + l.row_bytes) as int)
}

/// The RGB of the first `n` output rows, top row first.
pub open spec fn dib_rows(pixels: Seq<u8>, l: DibLayout, n: nat) -> Seq<u8>
    decreases n,
{
    if n == 0 {
        Seq::<u8>::empty()
    } else {
        dib_rows(pixels, l, (n - 1) as nat) + bmp_row(
            row_bytes_at(pixels, l, (n - 1) as nat),
            l.bits,
            l.width,
        )
    }
}

/// A signed little-endian 32-bit value at `i`.
pub open spec fn le_i32_at(b: Seq<u8>, i: int) -> int {
    let u = le32_at(b, i);
    if u >= 0x8000_0000 {
        u - 0x1_0000_0000
    } else {
        u as int
    }
}

/// Bytes per stored row: pixels × bits rounded up to 32-bit words.
pub open spec fn dib_row_bytes(width: nat, bits: nat) -> nat {
    ((width * bits + 31) / 32) * 4
}

/// How `parse_dib` fails, or the image it reads.
pub enum DibOutcome {
    TruncatedHeader,
    Geometry,
    Compressed,
    OffsetPastEnd,
    RowPastEnd,
    BitDepth(nat),
    NotRaster,
    Image(nat, nat, Seq<u8>),
}

/// A 32-bit `BI_BITFIELDS` header whose masks (after the 40 header bytes)
/// are the plain BGRA layout: red 0x00FF0000, green 0x0000FF00, blue
/// 0x000000FF. Its pixels read like uncompressed 32-bit ones.
pub open spec fn standard_bitfields(info: Seq<u8>) -> bool {
    &&& info.len() >= 52
    &&& le32_at(info, 16) == 3
    &&& le16_at(info, 14) == 32
    &&& le32_at(info, 40) == 0x00FF_0000
    &&& le32_at(info, 44) == 0x0000_FF00
    &&& le32_at(info, 48) == 0x0000_00FF
}

/// Read a DIB info header `info` whose pixels start at `off` in `file`;
/// uncompressed, or with the plain BGRA bit fields.
pub open spec fn spec_parse_dib(info: Seq<u8>, file: Seq<u8>, off: nat) -> DibOutcome {
    if info.len() < 40 {
        DibOutcome::TruncatedHeader
    } else {
        let width = le_i32_at(info, 4);
        let height_raw = le_i32_at(info, 8);
        let planes = le16_at(info, 12);
        let bits = le16_at(info, 14);
        let compression = le32_at(info, 16);
        if width <= 0 || planes != 1 {
            DibOutcome::Geometry
        } else if compression != 0 && !standard_bitfields(info) {
            DibOutcome::Compressed
        } else if off > file.len() {
            DibOutcome::OffsetPastEnd
        } else {
            let height = if height_raw < 0 {
                -height_raw
            } else {
                height_raw
            };
            let l = DibLayout {
                width: width as nat,
                height: height as nat,
                bits,
                row_bytes: dib_row_bytes(width as nat, bits),
                top_down: height_raw < 0,
            };
            let pixels = file.skip(off as int);
            if l.height == 0 {
                DibOutcome::Image(l.width, 0, Seq::<u8>::empty())
            } else if (source_row(l, 0) + 1) * l.row_bytes > pixels.len() {
                DibOutcome::RowPastEnd
            } else if bits != 32 && bits != 24 && bits != 8 {
                DibOutcome::BitDepth(bits)
            } else if l.height * l.row_bytes > pixels.len() {
                DibOutcome::RowPastEnd
            } else {
                DibOutcome::Image(l.width, l.height, dib_rows(pixels, l, l.height))
            }
        }
    }
}

/// The text of a `parse_dib` failure.
pub open spec fn dib_error_text(o: DibOutcome) -> Seq<char> {
    match o {
        DibOutcome::TruncatedHeader => "truncated DIB header"@,
        DibOutcome::Geometry => "unsupported BMP geometry"@,
        DibOutcome::Compressed => "compressed BMP is not supported"@,
        DibOutcome::OffsetPastEnd => "BMP pixel offset past end of buffer"@,
        DibOutcome::RowPastEnd => "BMP row past end of buffer"@,
        DibOutcome::BitDepth(b) => "unsupported BMP bit depth "@ + decimal(b),
        DibOutcome::NotRaster => "not a BMP/DIB image"@,
        DibOutcome::Image(_, _, _) => Seq::<char>::empty(),
    }
}

/// A decoded image against what the spec says it is.
pub open spec fn decoded_matches(r: Result<(u32, u32, Vec<u8>)>, o: DibOutcome) -> bool {
    match o {
        DibOutcome::Image(w, h, rgb) => r matches Ok((rw, rh, v)) && rw as nat == w && rh as nat
            == h && v@ == rgb,
        _ => r matches Err(e) && e matches Error::Protocol(m) && m@ == dib_error_text(o),
    }
}

proof fn lemma_row_bytes(width: nat, bits: nat)
    ensures
        dib_row_bytes(width, bits) * 8 >= width * bits,
{
    let a = width * bits;
    assert(((a + 31) / 32) * 32 >= a) by (nonlinear_arith);
}

proof fn lemma_row_in_range(y: nat, h: nat, rb: nat)
    requires
        y < h,
    ensures
        (y + 1) * rb <= h * rb,
        y * rb + rb == (y + 1) * rb,
{
    assert((y + 1) * rb <= h * rb) by (nonlinear_arith)
        requires
            y + 1 <= h,
    ;
    assert(y * rb + rb == (y + 1) * rb) by (nonlinear_arith);
}

fn protocol_error(text: &str) -> (e: Error)
    ensures
        e matches Error::Protocol(m) && m@ == text@,
{
    Error::Protocol(String::from_str(text))
}

#[verifier::spinoff_prover]
fn decode_row(row: &[u8], bits: u16, width: usize, out: &mut Vec<u8>)
    requires
        bits == 32 || bits == 24 || bits == 8,
        width * (bits as nat) <= row@.len() * 8,
    ensures
        final(out)@ == old(out)@ + bmp_row(row@, bits as nat, width as nat),
{
    let ghost before = out@;
    let rl = row.len();
    let mut x: usize = 0;
    while x < width
        invariant
            rl == row@.len(),
            x <= width,
            bits == 32 || bits == 24 || bits == 8,
            width * (bits as nat) <= row@.len() * 8,
            out@ == before + bmp_row(row@, bits as nat, x as nat),
        decreases width - x,
    {
        assert((x + 1) * (bits as nat) <= width * (bits as nat)) by (nonlinear_arith)
            requires
                x < width,
        ;
        if bits == 32 {
            assert(4 * x + 3 < row@.len()) by (nonlinear_arith)
                requires
                    bits == 32,
                    (x + 1) * (bits as nat) <= width * (bits as nat),
                    width * (bits as nat) <= row@.len() * 8,
            ;
            out.push(row[4 * x + 2]);
            out.push(row[4 * x + 1]);
            out.push(row[4 * x]);
        } else if bits == 24 {
            assert(3 * x + 2 < row@.len()) by (nonlinear_arith)
                requires
                    bits == 24,
                    (x + 1) * (bits as nat) <= width * (bits as nat),
                    width * (bits as nat) <= row@.len() * 8,
            ;
            out.push(row[3 * x + 2]);
            out.push(row[3 * x + 1]);
            out.push(row[3 * x]);
        } else {
            assert(x < row@.len()) by (nonlinear_arith)
                requires
                    bits == 8,
                    (x + 1) * (bits as nat) <= width * (bits as nat),
                    width * (bits as nat) <= row@.len() * 8,
            ;
            let v = row[x];
            out.push(v);
            out.push(v);
            out.push(v);
        }
        x = x + 1;
        assert(out@ =~= before + bmp_row(row@, bits as nat, x as nat));
    }
}

#[verifier::spinoff_prover]
fn parse_dib(info: &[u8], file: &[u8], pixel_off: usize) -> (r: Result<(u32, u32, Vec<u8>)>)
    ensures
        decoded_matches(r, spec_parse_dib(info@, file@, pixel_off as nat)),
{
    if info.len() < 40 {
        return Err(protocol_error("truncated DIB header"));
    }
    let wu = le32_exec(info, 4);
    let hu = le32_exec(info, 8);
    let planes = le16_exec(info, 12);
    let bits = le16_exec(info, 14);
    let compression = le32_exec(info, 16);
    if wu == 0 || wu >= 0x8000_0000 || planes != 1 {
        return Err(protocol_error("unsupported BMP geometry"));
    }
    if compression != 0 && !(compression == 3 && bits == 32 && info.len() >= 52 && le32_exec(
        info,
        40,
    ) == 0x00FF_0000 && le32_exec(info, 44) == 0x0000_FF00 && le32_exec(info, 48) == 0x0000_00FF) {
        return Err(protocol_error("compressed BMP is not supported"));
    }
    if pixel_off > file.len() {
        return Err(protocol_error("BMP pixel offset past end of buffer"));
    }
    let top_down = hu >= 0x8000_0000;
    let h: u64 = if top_down {
        0x1_0000_0000u64 - hu as u64
    } else {
        hu as u64
    };
    let w: u64 = wu as u64;
    let ghost l = DibLayout {
        width: w as nat,
        height: h as nat,
        bits: bits as nat,
        row_bytes: dib_row_bytes(w as nat, bits as nat),
        top_down,
    };
    let pixels = &file[pixel_off..file.len()];
    assert(pixels@ =~= file@.skip(pixel_off as int));
    if h == 0 {
        return Ok((wu, 0, Vec::new()));
    }
    assert(w * (bits as u64) < 0x8000_0000_0000) by (nonlinear_arith)
        requires
            w < 0x8000_0000,
            bits < 0x10000,
    ;
    let row_bytes: u64 = ((w * (bits as u64) + 31) / 32) * 4;
    assert(row_bytes as nat == l.row_bytes);
    let plen = pixels.len() as u64;
    let first: u64 = if top_down {
        0
    } else {
        h - 1
    };
    assert(first as nat == source_row(l, 0));
    assert((first as nat) * (row_bytes as nat) < 0x1_0000_0000_0000_0000_0000) by (nonlinear_arith)
        requires
            first < 0x1_0000_0000,
            row_bytes < 0x1_0000_0000_0000,
    ;
    let first_end: u128 = (first as u128) * (row_bytes as u128) + (row_bytes as u128);
    assert(first_end == (first as nat + 1) * row_bytes as nat) by (nonlinear_arith)
        requires
            first_end == (first as u128) * (row_bytes as u128) + (row_bytes as u128),
    ;
    if first_end > plen as u128 {
        return Err(protocol_error("BMP row past end of buffer"));
    }
    if bits != 32 && bits != 24 && bits != 8 {
        let mut s = String::from_str("unsupported BMP bit depth ");
        let d = crate::text::decimal_string(bits as u64);
        s.append(d.as_str());
        return Err(Error::Protocol(s));
    }
    assert((h as nat) * (row_bytes as nat) < 0x1_0000_0000_0000_0000_0000) by (nonlinear_arith)
        requires
            h <= 0x1_0000_0000,
            row_bytes < 0x1_0000_0000_0000,
    ;
    let all_end: u128 = (h as u128) * (row_bytes as u128);
    if all_end > plen as u128 {
        return Err(protocol_error("BMP row past end of buffer"));
    }
    proof {
        lemma_row_bytes(w as nat, bits as nat);
    }
    let mut rgb: Vec<u8> = Vec::new();
    let mut y: u64 = 0;
    while y < h
        invariant
            y <= h,
            h as nat == l.height,
            w as nat == l.width,
            l.row_bytes == row_bytes as nat,
            l.bits == bits as nat,
            l.top_down == top_down,
            h as nat * row_bytes as nat <= pixels@.len(),
            pixels@.len() == plen,
            plen <= usize::MAX,
            row_bytes as nat * 8 >= w as nat * bits as nat,
            w < 0x8000_0000,
            bits == 32 || bits == 24 || bits == 8,
            rgb@ == dib_rows(pixels@, l, y as nat),
        decreases h - y,
    {
        let src_y: u64 = if top_down {
            y
        } else {
            h - 1 - y
        };
        assert(src_y as nat == source_row(l, y as nat));
        proof {
            lemma_row_in_range(src_y as nat, h as nat, row_bytes as nat);
        }
        assert(src_y as nat * row_bytes as nat + row_bytes as nat <= pixels@.len());
        let start: usize = (src_y * row_bytes) as usize;
        let end: usize = start + row_bytes as usize;
        let row = &pixels[start..end];
        assert(row@ =~= row_bytes_at(pixels@, l, y as nat));
        decode_row(row, bits, w as usize, &mut rgb);
        y = y + 1;
    }
    assert(le_i32_at(info@, 4) == w as int);
    Ok((wu, h as u32, rgb))
}


proof fn lemma_repeat_len(x: Seq<u8>, n: nat)
    ensures
        repeat(x, n).len() == n * x.len(),
    decreases n,
{
    if n > 0 {
        let m = (n - 1) as nat;
        lemma_repeat_len(x, m);
        assert(repeat(x, n) == repeat(x, m) + x);
        assert(m * x.len() + x.len() == n * x.len()) by (nonlinear_arith)
            requires
                m + 1 == n,
        ;
    } else {
        assert(n * x.len() == 0) by (nonlinear_arith)
            requires
                n == 0,
        ;
    }
}

proof fn lemma_repeat_add(x: Seq<u8>, m: nat, n: nat)
    ensures
        repeat(x, m + n) == repeat(x, m) + repeat(x, n),
    decreases n,
{
    if n == 0 {
        assert(repeat(x, m) + repeat(x, 0) =~= repeat(x, m));
    } else {
        lemma_repeat_add(x, m, (n - 1) as nat);
        assert(repeat(x, m + n) =~= repeat(x, m) + repeat(x, n));
    }
}

/// `w·h` copies of `x` are `h` copies of `w` copies.
proof fn lemma_repeat_mul(x: Seq<u8>, w: nat, h: nat)
    ensures
        repeat(x, w * h) == repeat(repeat(x, w), h),
    decreases h,
{
    if h > 0 {
        let hm = (h - 1) as nat;
        lemma_repeat_mul(x, w, hm);
        assert(w * h == w * hm + w) by (nonlinear_arith)
            requires
                hm + 1 == h,
        ;
        lemma_repeat_add(x, w * hm, w);
        assert(repeat(repeat(x, w), h) == repeat(repeat(x, w), hm) + repeat(x, w));
    } else {
        assert(w * h == 0) by (nonlinear_arith)
            requires
                h == 0,
        ;
    }
}

/// Block `y` of `n` copies of `x` is `x`.
proof fn lemma_repeat_block(x: Seq<u8>, n: nat, y: nat)
    requires
        y < n,
    ensures
        repeat(x, n).subrange((y * x.len()) as int, ((y + 1) * x.len()) as int) == x,
    decreases n,
{
    lemma_repeat_len(x, (n - 1) as nat);
    assert((y + 1) * x.len() == y * x.len() + x.len()) by (nonlinear_arith);
    if y == n - 1 {
        assert(repeat(x, n).subrange((y * x.len()) as int, ((y + 1) * x.len()) as int) =~= x);
    } else {
        lemma_repeat_block(x, (n - 1) as nat, y);
        assert(y * x.len() + x.len() <= (n - 1) * x.len()) by (nonlinear_arith)
            requires
                y < n - 1,
        ;
        assert(repeat(x, n).subrange((y * x.len()) as int, ((y + 1) * x.len()) as int) =~= repeat(
            x,
            (n - 1) as nat,
        ).subrange((y * x.len()) as int, ((y + 1) * x.len()) as int));
    }
}

/// Byte `j` of copy `k` of `x`.
proof fn lemma_repeat_at(x: Seq<u8>, n: nat, k: nat, j: int)
    requires
        k < n,
        0 <= j < x.len(),
    ensures
        k * x.len() + j < repeat(x, n).len(),
        repeat(x, n)[k * x.len() + j] == x[j],
{
    lemma_repeat_len(x, n);
    lemma_repeat_block(x, n, k);
    assert((k + 1) * x.len() == k * x.len() + x.len()) by (nonlinear_arith);
    assert(k * x.len() + x.len() <= n * x.len()) by (nonlinear_arith)
        requires
            k < n,
    ;
    assert(repeat(x, n).subrange((k * x.len()) as int, ((k + 1) * x.len()) as int)[j] == repeat(x, n)[k * x.len() + j]);
}

/// A row of `w` BGRA pixels of one color reads as `w` RGB pixels.
proof fn lemma_bmp_row_solid(b: u8, g: u8, r: u8, w: nat, n: nat)
    requires
        n <= w,
    ensures
        bmp_row(repeat(seq![b, g, r, 0u8], w), 32, n) == repeat(seq![r, g, b], n),
    decreases n,
{
    if n > 0 {
        let x = seq![b, g, r, 0u8];
        lemma_bmp_row_solid(b, g, r, w, (n - 1) as nat);
        lemma_repeat_at(x, w, (n - 1) as nat, 0);
        lemma_repeat_at(x, w, (n - 1) as nat, 1);
        lemma_repeat_at(x, w, (n - 1) as nat, 2);
        assert(bmp_pixel(repeat(x, w), 32, n - 1) =~= seq![r, g, b]);
    }
}

/// The first `n` rows of an `h`-row top-down bitmap of one color.
proof fn lemma_dib_rows_solid(b: u8, g: u8, r: u8, w: nat, h: nat, l: DibLayout, n: nat)
    requires
        n <= h,
        l.width == w,
        l.height == h,
        l.bits == 32,
        l.row_bytes == 4 * w,
        l.top_down,
    ensures
        dib_rows(repeat(repeat(seq![b, g, r, 0u8], w), h), l, n) == repeat(seq![r, g, b], (w * n) as nat),
    decreases n,
{
    let row = repeat(seq![b, g, r, 0u8], w);
    if n == 0 {
        assert(w * 0 == 0);
    } else {
        let m = (n - 1) as nat;
        lemma_dib_rows_solid(b, g, r, w, h, l, m);
        let px = seq![b, g, r, 0u8];
        lemma_repeat_len(px, w);
        assert(px.len() == 4);
        assert(w * px.len() == 4 * w) by (nonlinear_arith)
            requires
                px.len() == 4,
        ;
        assert(row.len() == 4 * w);
        lemma_repeat_block(row, h, m);
        assert((m + 1) * row.len() == m * row.len() + row.len()) by (nonlinear_arith);
        assert(source_row(l, m) == m);
        assert(row_bytes_at(repeat(row, h), l, m) == row);
        lemma_bmp_row_solid(b, g, r, w, w);
        assert(w * n == w * m + w) by (nonlinear_arith)
            requires
                m + 1 == n,
        ;
        lemma_repeat_add(seq![r, g, b], w * m, w);
        assert(dib_rows(repeat(row, h), l, n) == dib_rows(repeat(row, h), l, m) + bmp_row(
            row_bytes_at(repeat(row, h), l, m),
            32,
            w,
        ));
    }
}

/// A `w`×`h` 32-bit top-down bitmap of one color, uncompressed or with the
/// plain BGRA bit fields, decodes to `w`×`h` pixels of that color (for any
/// size whose file length fits the header's 32-bit size field).
pub proof fn lemma_solid_bmp_reads_back(w: nat, h: nat, b: u8, g: u8, r: u8)
    requires
        1 <= w < 0x8000_0000,
        1 <= h < 0x8000_0000,
        w * h * 4 + 66 < 0x1_0000_0000,
    ensures
        spec_decode_raster(spec_solid_bmp(w, h, b, g, r)) == DibOutcome::Image(
            w,
            h,
            repeat(seq![r, g, b], w * h),
        ),
        spec_decode_raster(spec_bitfields_bmp(w, h, b, g, r)) == DibOutcome::Image(
            w,
            h,
            repeat(seq![r, g, b], w * h),
        ),
{
    lemma_bitmap_reads_back(w, h, b, g, r, false);
    lemma_bitmap_reads_back(w, h, b, g, r, true);
}

#[verifier::spinoff_prover]
#[verifier::rlimit(60)]
proof fn lemma_bitmap_reads_back(w: nat, h: nat, b: u8, g: u8, r: u8, bitfields: bool)
    requires
        1 <= w < 0x8000_0000,
        1 <= h < 0x8000_0000,
        w * h * 4 + 66 < 0x1_0000_0000,
    ensures
        spec_decode_raster(
            if bitfields {
                spec_bitfields_bmp(w, h, b, g, r)
            } else {
                spec_solid_bmp(w, h, b, g, r)
            },
        ) == DibOutcome::Image(w, h, repeat(seq![r, g, b], w * h)),
{
    let px = seq![b, g, r, 0u8];
    let pixels = repeat(px, w * h);
    lemma_repeat_len(px, w * h);
    lemma_repeat_mul(px, w, h);
    let l = DibLayout { width: w, height: h, bits: 32, row_bytes: 4 * w, top_down: true };
    assert(dib_row_bytes(w, 32) == 4 * w) by {
        assert((w * 32 + 31) / 32 == w) by (nonlinear_arith);
    }
    assert(4 * w <= pixels.len() && h * (4 * w) <= pixels.len()) by (nonlinear_arith)
        requires
            pixels.len() == w * h * 4,
            h >= 1,
    ;
    lemma_dib_rows_solid(b, g, r, w, h, l, h);
    lemma_bmp_header_fields(w, h, bitfields);
    let hd = if bitfields {
        bitfields_headers(w, h)
    } else {
        bmp_headers(w, h)
    };
    let f = hd + pixels;
    assert(f == (if bitfields {
        spec_bitfields_bmp(w, h, b, g, r)
    } else {
        spec_solid_bmp(w, h, b, g, r)
    }));
    let info = f.skip(14);
    let hi = hd.skip(14);
    assert forall|i: int| 0 <= i < hi.len() implies #[trigger] info[i] == hi[i] by {}
    assert(f[0] == hd[0] && f[1] == hd[1]);
    assert(le32_at(f, 10) == le32_at(hd, 10));
    assert(le_i32_at(info, 4) == le_i32_at(hi, 4));
    assert(le_i32_at(info, 8) == le_i32_at(hi, 8));
    assert(le16_at(info, 12) == le16_at(hi, 12));
    assert(le16_at(info, 14) == le16_at(hi, 14));
    assert(le32_at(info, 16) == le32_at(hi, 16));
    if bitfields {
        assert(le32_at(info, 40) == le32_at(hi, 40));
        assert(le32_at(info, 44) == le32_at(hi, 44));
        assert(le32_at(info, 48) == le32_at(hi, 48));
        assert(standard_bitfields(info));
    }
    assert(f.skip(hd.len() as int) =~= pixels);
    assert(spec_is_bmp(f));
}

/// What `decode_bmp_or_dib` makes of `b`: a BMP file, a bare DIB, or neither.
pub open spec fn spec_decode_raster(b: Seq<u8>) -> DibOutcome {
    if spec_is_bmp(b) {
        spec_parse_dib(b.skip(14), b, le32_at(b, 10))
    } else if spec_is_dib(b) {
        spec_parse_dib(b, b, le32_at(b, 0))
    } else {
        DibOutcome::NotRaster
    }
}

proof fn lemma_le32(n: nat)
    requires
        n < 0x1_0000_0000,
    ensures
        le32_at(le32(n), 0) == n,
{
}

proof fn lemma_le16(n: nat)
    requires
        n < 0x10000,
    ensures
        le16_at(le16(n), 0) == n,
{
}

/// The info header fields of the test bitmaps: width `w`, top-down height
/// `h`, one plane, 32 bits per pixel, `compression`, and (with bit fields)
/// the plain BGRA masks after it.
proof fn lemma_bmp_header_fields(w: nat, h: nat, bitfields: bool)
    requires
        1 <= w < 0x8000_0000,
        1 <= h < 0x8000_0000,
        w * h * 4 + 66 < 0x1_0000_0000,
    ensures
        ({
            let hd = if bitfields {
                bitfields_headers(w, h)
            } else {
                bmp_headers(w, h)
            };
            let f = hd;
            let info = f.skip(14);
            &&& hd.len() == (if bitfields {
                66int
            } else {
                54int
            })
            &&& info.len() >= 40
            &&& f[0] == 66 && f[1] == 77
            &&& le32_at(f, 10) == hd.len()
            &&& le_i32_at(info, 4) == w
            &&& le_i32_at(info, 8) == -h
            &&& le16_at(info, 12) == 1
            &&& le16_at(info, 14) == 32
            &&& le32_at(info, 16) == (if bitfields {
                3nat
            } else {
                0nat
            })
            &&& bitfields ==> standard_bitfields(info)
        }),
{
    let hd = if bitfields {
        bitfields_headers(w, h)
    } else {
        bmp_headers(w, h)
    };
    let f = hd;
    let info = f.skip(14);
    let neg = ((0x1_0000_0000 - h) % 0x1_0000_0000) as nat;
    assert(neg == 0x1_0000_0000 - h);
    lemma_le32(w);
    lemma_le32(neg);
    lemma_le32(54);
    lemma_le32(66);
    lemma_le32(0);
    assert(w * h * 4 >= 4) by (nonlinear_arith)
        requires
            w >= 1,
            h >= 1,
    ;
    lemma_le32(3);
    lemma_le16(1);
    lemma_le16(32);
    lemma_le32(0x00FF_0000);
    lemma_le32(0x0000_FF00);
    lemma_le32(0x0000_00FF);
    assert forall|k: int| 0 <= k < 4 implies f[10 + k] == le32(hd.len() as nat)[k] && info[4 + k]
        == le32(w)[k] && info[8 + k] == le32(neg)[k] && info[16 + k] == le32(
        if bitfields {
            3nat
        } else {
            0nat
        },
    )[k] by {}
    assert forall|k: int| 0 <= k < 2 implies info[12 + k] == le16(1)[k] && info[14 + k] == le16(
        32,
    )[k] by {}
    if bitfields {
        assert forall|k: int| 0 <= k < 4 implies info[40 + k] == le32(0x00FF_0000)[k] && info[44
            + k] == le32(0x0000_FF00)[k] && info[48 + k] == le32(0x0000_00FF)[k] by {}
    }
}

pub fn decode_bmp_or_dib(bytes: &[u8]) -> (r: Result<(u32, u32, Vec<u8>)>)
    ensures
        decoded_matches(r, spec_decode_raster(bytes@)),
{
    if is_bmp(bytes) {
        let pixel_off = le32_exec(bytes, 10) as usize;
        let info = &bytes[14..bytes.len()];
        assert(info@ =~= bytes@.skip(14));
        parse_dib(info, bytes, pixel_off)
    } else if is_dib(bytes) {
        let header = le32_exec(bytes, 0) as usize;
        parse_dib(bytes, bytes, header)
    } else {
        Err(protocol_error("not a BMP/DIB image"))
    }
}

/// The black-or-white value of an RGB pixel (luma below 128 is black).
pub open spec fn threshold_value(r: u8, g: u8, b: u8) -> u8 {
    if (r as nat * 30 + g as nat * 59 + b as nat * 11) / 100 < 128 {
        0
    } else {
        255
    }
}

/// Every complete RGB triple of the first `n` replaced by its threshold
/// value (a trailing partial triple is dropped).
pub open spec fn threshold_pixels(rgb: Seq<u8>, n: nat) -> Seq<u8>
    decreases n,
{
    if n == 0 {
        Seq::<u8>::empty()
    } else {
        let i = 3 * (n - 1);
        threshold_pixels(rgb, (n - 1) as nat) + gray3(threshold_value(rgb[i], rgb[i + 1], rgb[i + 2]))
    }
}

pub open spec fn spec_threshold(rgb: Seq<u8>) -> Seq<u8> {
    threshold_pixels(rgb, rgb.len() / 3)
}

fn threshold_rgb(rgb: &[u8]) -> (r: Vec<u8>)
    ensures
        r@ == spec_threshold(rgb@),
{
    let n = rgb.len() / 3;
    let mut out: Vec<u8> = Vec::new();
    let mut k: usize = 0;
    while k < n
        invariant
            n == rgb@.len() / 3,
            rgb@.len() <= usize::MAX,
            k <= n,
            out@ == threshold_pixels(rgb@, k as nat),
        decreases n - k,
    {
        let i = 3 * k;
        let y: u16 = ((rgb[i] as u16) * 30 + (rgb[i + 1] as u16) * 59 + (rgb[i + 2] as u16) * 11)
            / 100;
        let v: u8 = if y < 128 {
            0
        } else {
            255
        };
        out.push(v);
        out.push(v);
        out.push(v);
        k = k + 1;
        assert(out@ =~= threshold_pixels(rgb@, k as nat));
    }
    out
}

/// The first `n` thresholded pixels take three bytes each, and pixel `j`
/// is its threshold value three times.
proof fn lemma_threshold_pixel(rgb: Seq<u8>, n: nat, j: int)
    requires
        0 <= j < n,
        3 * n <= rgb.len(),
    ensures
        threshold_pixels(rgb, n).len() == 3 * n,
        threshold_pixels(rgb, n)[3 * j] == threshold_value(rgb[3 * j], rgb[3 * j + 1], rgb[3 * j + 2]),
        threshold_pixels(rgb, n)[3 * j + 1] == threshold_pixels(rgb, n)[3 * j],
        threshold_pixels(rgb, n)[3 * j + 2] == threshold_pixels(rgb, n)[3 * j],
    decreases n,
{
    let m = (n - 1) as nat;
    let prev = threshold_pixels(rgb, m);
    let k: int = 3 * m as int;
    let g = gray3(threshold_value(rgb[k], rgb[k + 1], rgb[k + 2]));
    assert(threshold_pixels(rgb, n) == prev + g);
    if m > 0 {
        lemma_threshold_pixel(rgb, m, 0);
        if j < m {
            lemma_threshold_pixel(rgb, m, j);
        }
    } else {
        assert(prev.len() == 0);
    }
    assert(prev.len() == 3 * m);
}

/// Line-art thresholding keeps one output pixel per complete input pixel
/// and makes each pure black or pure white: black (0,0,0) exactly when its
/// luma (30R + 59G + 11B) / 100 is below 128, white (255,255,255) otherwise.
pub proof fn lemma_threshold_black_white(rgb: Seq<u8>, i: int)
    requires
        0 <= i < rgb.len() / 3,
    ensures
        spec_threshold(rgb).len() == 3 * (rgb.len() / 3),
        ({
            let o = spec_threshold(rgb);
            let sum = 30 * rgb[3 * i] + 59 * rgb[3 * i + 1] + 11 * rgb[3 * i + 2];
            &&& sum < 12800 ==> o[3 * i] == 0 && o[3 * i + 1] == 0 && o[3 * i + 2] == 0
            &&& sum >= 12800 ==> o[3 * i] == 255 && o[3 * i + 1] == 255 && o[3 * i + 2] == 255
        }),
{
    lemma_threshold_pixel(rgb, rgb.len() / 3, i);
}

/// Reading an IFD: the value of the first of `count` 12-byte entries from
/// `at` whose tag is `tag`.
pub open spec fn ifd_value(f: Seq<u8>, at: int, count: nat, tag: nat) -> Option<nat>
    decreases count,
{
    if count == 0 {
        None
    } else if le16_at(f, at) == tag {
        Some(le32_at(f, at + 8))
    } else {
        ifd_value(f, at + 12, (count - 1) as nat, tag)
    }
}

/// A little-endian TIFF reader's value of `tag`: the first IFD's offset at
/// byte 4, its entry count there, the entries after the count.
pub open spec fn tiff_tag(f: Seq<u8>, tag: nat) -> Option<nat> {
    let ifd = le32_at(f, 4) as int;
    ifd_value(f, ifd + 2, le16_at(f, ifd), tag)
}

/// The tags of the IFD entries, in the order written.
pub open spec fn written_tags() -> Seq<nat> {
    seq![256nat, 257, 258, 259, 262, 273, 277, 278, 279, 282, 283, 296]
}

/// The entry that `tiff_entries` writes at position `i`.
pub open spec fn written_entry(width: nat, height: nat, strip_len: nat, gray: bool, i: int) -> Seq<u8> {
    if i == 0 {
        tiff_entry(256, 4, 1, width)
    } else if i == 1 {
        tiff_entry(257, 4, 1, height)
    } else if i == 2 {
        if gray {
            tiff_entry(258, 3, 1, 8)
        } else {
            tiff_entry(258, 3, 3, 158)
        }
    } else if i == 3 {
        tiff_entry(259, 3, 1, 1)
    } else if i == 4 {
        tiff_entry(262, 3, 1, if gray { 1 } else { 2 })
    } else if i == 5 {
        tiff_entry(273, 4, 1, 180)
    } else if i == 6 {
        tiff_entry(277, 3, 1, if gray { 1 } else { 3 })
    } else if i == 7 {
        tiff_entry(278, 4, 1, height)
    } else if i == 8 {
        tiff_entry(279, 4, 1, strip_len % 0x1_0000_0000)
    } else if i == 9 {
        tiff_entry(282, 5, 1, 164)
    } else if i == 10 {
        tiff_entry(283, 5, 1, 172)
    } else {
        tiff_entry(296, 3, 1, 2)
    }
}

/// A TIFF this library writes starts `II*\0`, and a reader of its IFD
/// finds ImageWidth (256) equal to the width, ImageLength (257) and
/// RowsPerStrip (278) equal to the height, PhotometricInterpretation (262)
/// BlackIsZero with one sample per pixel (277) for gray and RGB with three
/// for colour, StripByteCounts (279) equal to the strip's length, and at
/// StripOffsets (273) the strip itself, up to the end of the file.
pub proof fn lemma_tiff_dimensions(strip: Seq<u8>, width: nat, height: nat, dpi: nat, gray: bool)
    requires
        width < 0x1_0000_0000,
        height < 0x1_0000_0000,
        strip.len() < 0x1_0000_0000,
    ensures
        ({
            let f = spec_tiff(strip, width, height, dpi, gray);
            &&& f.len() > 4 && f[0] == 73 && f[1] == 73 && f[2] == 42 && f[3] == 0
            &&& tiff_tag(f, 256) == Some(width)
            &&& tiff_tag(f, 257) == Some(height)
            &&& tiff_tag(f, 262) == Some(if gray { 1nat } else { 2nat })
            &&& tiff_tag(f, 277) == Some(if gray { 1nat } else { 3nat })
            &&& tiff_tag(f, 278) == Some(height)
            &&& tiff_tag(f, 279) == Some(strip.len())
            &&& tiff_tag(f, 273) matches Some(o) && o <= f.len() && f.subrange(o as int, f.len() as int) == strip
        }),
{
    let f = spec_tiff(strip, width, height, dpi, gray);
    lemma_tiff_layout(strip, width, height, dpi, gray);
    lemma_ifd_reads(f, width, height, strip.len(), gray);
}

/// The IFD as a reader finds it in bytes laid out as `spec_tiff` lays them.
#[verifier::spinoff_prover]
#[verifier::rlimit(100)]
proof fn lemma_ifd_reads(f: Seq<u8>, width: nat, height: nat, strip_len: nat, gray: bool)
    requires
        width < 0x1_0000_0000,
        height < 0x1_0000_0000,
        strip_len < 0x1_0000_0000,
        f.len() >= 154,
        f.subrange(4, 8) == le32(8),
        f.subrange(8, 10) == le16(12),
        f.subrange(10, 154) == tiff_entries(width, height, strip_len, gray),
    ensures
        tiff_tag(f, 256) == Some(width),
        tiff_tag(f, 257) == Some(height),
        tiff_tag(f, 262) == Some(if gray { 1nat } else { 2nat }),
        tiff_tag(f, 273) == Some(180nat),
        tiff_tag(f, 277) == Some(if gray { 1nat } else { 3nat }),
        tiff_tag(f, 278) == Some(height),
        tiff_tag(f, 279) == Some(strip_len),
{
    let e = tiff_entries(width, height, strip_len, gray);
    let tags = written_tags();
    let vals = seq![
        width,
        height,
        if gray { 8nat } else { 158nat },
        1,
        if gray { 1nat } else { 2nat },
        180,
        if gray { 1nat } else { 3nat },
        height,
        strip_len,
        164,
        172,
        2,
    ];
    lemma_tiff_entries_at(width, height, strip_len, gray);
    lemma_le32(8);
    lemma_le16(12);
    assert forall|k: int| 0 <= k < 4 implies f[4 + k] == le32(8)[k] by {
        assert(f.subrange(4, 8)[k] == f[4 + k]);
    }
    assert forall|k: int| 0 <= k < 2 implies f[8 + k] == le16(12)[k] by {
        assert(f.subrange(8, 10)[k] == f[8 + k]);
    }
    assert(le32_at(f, 4) == 8);
    assert(le16_at(f, 8) == 12);
    assert forall|i: int| 0 <= i < 12 implies le16_at(f, 10 + 12 * i) == tags[i] && le32_at(
        f,
        10 + 12 * i + 8,
    ) == vals[i] by {
        let w = written_entry(width, height, strip_len, gray, i);
        assert forall|k: int| 0 <= k < 12 implies f[10 + 12 * i + k] == w[k] by {
            assert(f.subrange(10, 154)[12 * i + k] == f[10 + 12 * i + k]);
            assert(e.subrange(12 * i, 12 * i + 12)[k] == e[12 * i + k]);
        }
        lemma_entry_read(f, 10 + 12 * i, width, height, strip_len, gray, i);
    }
    lemma_ifd_find(f, 10, tags, vals, 0);
    lemma_ifd_find(f, 10, tags, vals, 1);
    lemma_ifd_find(f, 10, tags, vals, 4);
    lemma_ifd_find(f, 10, tags, vals, 5);
    lemma_ifd_find(f, 10, tags, vals, 6);
    lemma_ifd_find(f, 10, tags, vals, 7);
    lemma_ifd_find(f, 10, tags, vals, 8);
}

/// The tag and the value of IFD entry `i`, written at `at`.
proof fn lemma_entry_read(f: Seq<u8>, at: int, width: nat, height: nat, strip_len: nat, gray: bool, i: int)
    requires
        0 <= i < 12,
        0 <= at,
        at + 12 <= f.len(),
        width < 0x1_0000_0000,
        height < 0x1_0000_0000,
        strip_len < 0x1_0000_0000,
        forall|k: int| 0 <= k < 12 ==> f[at + k] == written_entry(width, height, strip_len, gray, i)[k],
    ensures
        le16_at(f, at) == written_tags()[i],
        le32_at(f, at + 8) == (seq![
            width,
            height,
            if gray { 8nat } else { 158nat },
            1,
            if gray { 1nat } else { 2nat },
            180,
            if gray { 1nat } else { 3nat },
            height,
            strip_len,
            164,
            172,
            2,
        ])[i],
{
    let w = written_entry(width, height, strip_len, gray, i);
    let tag = written_tags()[i];
    let v = (seq![
        width,
        height,
        if gray { 8nat } else { 158nat },
        1,
        if gray { 1nat } else { 2nat },
        180,
        if gray { 1nat } else { 3nat },
        height,
        strip_len,
        164,
        172,
        2,
    ])[i];
    assert(tag < 0x10000 && v < 0x1_0000_0000) by {
        assert(i == 0 || i == 1 || i == 2 || i == 3 || i == 4 || i == 5 || i == 6 || i == 7 || i
            == 8 || i == 9 || i == 10 || i == 11);
    }
    assert(w.subrange(0, 2) == le16(tag) && w.subrange(8, 12) == le32(v)) by {
        assert(i == 0 || i == 1 || i == 2 || i == 3 || i == 4 || i == 5 || i == 6 || i == 7 || i
            == 8 || i == 9 || i == 10 || i == 11);
        assert(strip_len % 0x1_0000_0000 == strip_len);
        assert(w.subrange(0, 2) =~= le16(tag));
        assert(w.subrange(8, 12) =~= le32(v));
    }
    lemma_le16(tag);
    lemma_le32(v);
    assert forall|k: int| 0 <= k < 2 implies f[at + k] == le16(tag)[k] by {
        assert(w.subrange(0, 2)[k] == w[k]);
    }
    assert forall|k: int| 0 <= k < 4 implies f[at + 8 + k] == le32(v)[k] by {
        assert(w.subrange(8, 12)[k] == w[8 + k]);
    }
}

/// Looking up the tag of entry `j`, when no earlier entry has that tag,
/// finds entry `j`'s value.
proof fn lemma_ifd_find(f: Seq<u8>, at: int, tags: Seq<nat>, vals: Seq<nat>, j: int)
    requires
        0 <= j < tags.len(),
        vals.len() == tags.len(),
        forall|i: int| 0 <= i < tags.len() ==> le16_at(f, at + 12 * i) == tags[i] && le32_at(
            f,
            at + 12 * i + 8,
        ) == vals[i],
        forall|i: int| 0 <= i < j ==> tags[i] != tags[j],
    ensures
        ifd_value(f, at, tags.len(), tags[j]) == Some(vals[j]),
    decreases j,
{
    assert(le16_at(f, at + 12 * 0) == tags[0]);
    assert(le32_at(f, at + 12 * 0 + 8) == vals[0]);
    if j > 0 {
        let t = tags.drop_first();
        let v = vals.drop_first();
        assert forall|i: int| 0 <= i < t.len() implies le16_at(f, (at + 12) + 12 * i) == t[i]
            && le32_at(f, (at + 12) + 12 * i + 8) == v[i] by {
            assert(le16_at(f, at + 12 * (i + 1)) == tags[i + 1]);
            assert(le32_at(f, at + 12 * (i + 1) + 8) == vals[i + 1]);
            assert(at + 12 * (i + 1) == (at + 12) + 12 * i);
        }
        lemma_ifd_find(f, at + 12, t, v, j - 1);
    }
}

/// What begins `b` begins anything that `b` begins.
proof fn lemma_begins_trans(a: Seq<u8>, b: Seq<u8>, c: Seq<u8>)
    requires
        begins(a, b),
        begins(b, c),
    ensures
        begins(a, c),
{
    assert forall|k: int| 0 <= k < a.len() implies c.take(a.len() as int)[k] == a[k] by {
        assert(c.take(b.len() as int)[k] == b[k]);
        assert(b.take(a.len() as int)[k] == a[k]);
    }
    assert(c.take(a.len() as int) =~= a);
}

/// Each IFD entry stands at its place among the entries.
proof fn lemma_tiff_entries_at(width: nat, height: nat, strip_len: nat, gray: bool)
    ensures
        tiff_entries(width, height, strip_len, gray).len() == 144,
        forall|i: int|
            0 <= i < 12 ==> tiff_entries(width, height, strip_len, gray).subrange(12 * i, 12 * i + 12)
                == #[trigger] written_entry(width, height, strip_len, gray, i),
{
    let e = tiff_entries(width, height, strip_len, gray);
    let w0 = written_entry(width, height, strip_len, gray, 0);
    let w1 = written_entry(width, height, strip_len, gray, 1);
    let w2 = written_entry(width, height, strip_len, gray, 2);
    let w3 = written_entry(width, height, strip_len, gray, 3);
    let w4 = written_entry(width, height, strip_len, gray, 4);
    let w5 = written_entry(width, height, strip_len, gray, 5);
    let w6 = written_entry(width, height, strip_len, gray, 6);
    let w7 = written_entry(width, height, strip_len, gray, 7);
    let w8 = written_entry(width, height, strip_len, gray, 8);
    let w9 = written_entry(width, height, strip_len, gray, 9);
    let w10 = written_entry(width, height, strip_len, gray, 10);
    let w11 = written_entry(width, height, strip_len, gray, 11);
    let a1 = w0 + w1;
    let a2 = a1 + w2;
    let a3 = a2 + w3;
    let a4 = a3 + w4;
    let a5 = a4 + w5;
    let a6 = a5 + w6;
    let a7 = a6 + w7;
    let a8 = a7 + w8;
    let a9 = a8 + w9;
    let a10 = a9 + w10;
    assert(e == a10 + w11);
    lemma_prefix_grows(a10, a10, w11);
    lemma_prefix_grows(a9, a9, w10);
    lemma_begins_trans(a9, a10, e);
    lemma_prefix_grows(a8, a8, w9);
    lemma_begins_trans(a8, a9, e);
    lemma_prefix_grows(a7, a7, w8);
    lemma_begins_trans(a7, a8, e);
    lemma_prefix_grows(a6, a6, w7);
    lemma_begins_trans(a6, a7, e);
    lemma_prefix_grows(a5, a5, w6);
    lemma_begins_trans(a5, a6, e);
    lemma_prefix_grows(a4, a4, w5);
    lemma_begins_trans(a4, a5, e);
    lemma_prefix_grows(a3, a3, w4);
    lemma_begins_trans(a3, a4, e);
    lemma_prefix_grows(a2, a2, w3);
    lemma_begins_trans(a2, a3, e);
    lemma_prefix_grows(a1, a1, w2);
    lemma_begins_trans(a1, a2, e);
    assert(a1.subrange(12, 24) =~= w1);
    lemma_entry_in(e, a1, 1);
    assert(a2.subrange(24, 36) =~= w2);
    lemma_entry_in(e, a2, 2);
    assert(a3.subrange(36, 48) =~= w3);
    lemma_entry_in(e, a3, 3);
    assert(a4.subrange(48, 60) =~= w4);
    lemma_entry_in(e, a4, 4);
    assert(a5.subrange(60, 72) =~= w5);
    lemma_entry_in(e, a5, 5);
    assert(a6.subrange(72, 84) =~= w6);
    lemma_entry_in(e, a6, 6);
    assert(a7.subrange(84, 96) =~= w7);
    lemma_entry_in(e, a7, 7);
    assert(a8.subrange(96, 108) =~= w8);
    lemma_entry_in(e, a8, 8);
    assert(a9.subrange(108, 120) =~= w9);
    lemma_entry_in(e, a9, 9);
    assert(a10.subrange(120, 132) =~= w10);
    lemma_entry_in(e, a10, 10);
    assert(e.subrange(132, 144) =~= w11);
    lemma_entry_in(e, e, 11);
    assert(a1.subrange(0, 12) =~= w0);
    assert forall|k: int| 0 <= k < 12 implies e.subrange(0, 12)[k] == a1.subrange(0, 12)[k] by {
        assert(e.take(24)[k] == e[k]);
    }
    assert(e.subrange(0, 12) =~= w0);
    assert forall|i: int| 0 <= i < 12 implies e.subrange(12 * i, 12 * i + 12)
        == #[trigger] written_entry(width, height, strip_len, gray, i) by {
        assert(i == 0 || i == 1 || i == 2 || i == 3 || i == 4 || i == 5 || i == 6 || i == 7 || i
            == 8 || i == 9 || i == 10 || i == 11);
    }
}

/// The last 12 bytes of `a`, which begins `e`, stand in `e` at entry `i`.
proof fn lemma_entry_in(e: Seq<u8>, a: Seq<u8>, i: int)
    requires
        0 <= i,
        a == e || begins(a, e),
        a.len() == 12 * i + 12,
    ensures
        e.subrange(12 * i, 12 * i + 12) == a.subrange(12 * i, 12 * i + 12),
{
    assert forall|k: int| 0 <= k < 12 implies #[trigger] e[12 * i + k] == a[12 * i + k] by {
        if a != e {
            assert(e.take(a.len() as int)[12 * i + k] == e[12 * i + k]);
        }
    }
    assert(e.subrange(12 * i, 12 * i + 12) =~= a.subrange(12 * i, 12 * i + 12));
}

/// The TIFF file: its 4 magic bytes, the IFD offset, the entry count, then
/// the entries.
proof fn lemma_tiff_layout(strip: Seq<u8>, width: nat, height: nat, dpi: nat, gray: bool)
    ensures
        ({
            let f = spec_tiff(strip, width, height, dpi, gray);
            let e = tiff_entries(width, height, strip.len(), gray);
            &&& f.len() >= 154
            &&& f[0] == 73 && f[1] == 73 && f[2] == 42 && f[3] == 0
            &&& f.subrange(4, 8) == le32(8)
            &&& f.subrange(8, 10) == le16(12)
            &&& f.subrange(10, 154) == e
            &&& f.len() == 180 + strip.len()
            &&& f.subrange(180, f.len() as int) == strip
        }),
{
    let f = spec_tiff(strip, width, height, dpi, gray);
    let e = tiff_entries(width, height, strip.len(), gray);
    let d = if dpi == 0 {
        1
    } else {
        dpi
    };
    let p = seq![73u8, 73u8, 42u8, 0u8] + le32(8) + le16(12) + e;
    lemma_tiff_entries_at(width, height, strip.len(), gray);
    let f1 = p + le32(0);
    let f2 = f1 + le16(8);
    let f3 = f2 + le16(8);
    let f4 = f3 + le16(8);
    let f5 = f4 + le32(d);
    let f6 = f5 + le32(1);
    let f7 = f6 + le32(d);
    let f8 = f7 + le32(1);
    assert(f == f8 + strip);
    lemma_prefix_grows(p, p, le32(0));
    lemma_prefix_grows(p, f1, le16(8));
    lemma_prefix_grows(p, f2, le16(8));
    lemma_prefix_grows(p, f3, le16(8));
    lemma_prefix_grows(p, f4, le32(d));
    lemma_prefix_grows(p, f5, le32(1));
    lemma_prefix_grows(p, f6, le32(d));
    lemma_prefix_grows(p, f7, le32(1));
    lemma_prefix_grows(p, f8, strip);
    assert(p.len() == 154);
    assert forall|k: int| 0 <= k < 154 implies f[k] == p[k] by {
        assert(f.take(154)[k] == f[k]);
    }
    assert(f.subrange(4, 8) =~= le32(8));
    assert(f.subrange(8, 10) =~= le16(12));
    assert(f.subrange(10, 154) =~= e);
    lemma_strip_at_end(f8, strip);
}

/// What follows a first part of 180 bytes.
proof fn lemma_strip_at_end(a: Seq<u8>, strip: Seq<u8>)
    requires
        a.len() == 180,
    ensures
        (a + strip).subrange(180, (a + strip).len() as int) == strip,
{
    assert((a + strip).subrange(180, (a + strip).len() as int) =~= strip);
}

/// `a` begins `s`.
pub open spec fn begins(a: Seq<u8>, s: Seq<u8>) -> bool {
    a.len() <= s.len() && s.take(a.len() as int) == a
}

/// What begins `s` begins `s` with more bytes after it.
proof fn lemma_prefix_grows(a: Seq<u8>, s: Seq<u8>, b: Seq<u8>)
    requires
        a == s || begins(a, s),
    ensures
        begins(a, s + b),
{
    if a == s {
        assert((s + b).take(a.len() as int) =~= a);
    } else {
        assert((s + b).take(a.len() as int) =~= s.take(a.len() as int));
    }
}

/// Little-endian TIFF entry: tag, type, count, value.
pub open spec fn tiff_entry(tag: nat, ty: nat, count: nat, value: nat) -> Seq<u8> {
    le16(tag) + le16(ty) + le32(count) + le32(value)
}

/// The 12 IFD entries of the TIFF; the strip is `strip_len` bytes of RGB,
/// or of gray samples when `gray`.
pub open spec fn tiff_entries(width: nat, height: nat, strip_len: nat, gray: bool) -> Seq<u8> {
    tiff_entry(256, 4, 1, width) + tiff_entry(257, 4, 1, height) + (if gray {
        tiff_entry(258, 3, 1, 8)
    } else {
        tiff_entry(258, 3, 3, 158)
    }) + tiff_entry(259, 3, 1, 1) + tiff_entry(262, 3, 1, if gray {
        1
    } else {
        2
    }) + tiff_entry(273, 4, 1, 180) + tiff_entry(277, 3, 1, if gray {
        1
    } else {
        3
    }) + tiff_entry(278, 4, 1, height) + tiff_entry(279, 4, 1, strip_len % 0x1_0000_0000)
        + tiff_entry(282, 5, 1, 164) + tiff_entry(283, 5, 1, 172) + tiff_entry(296, 3, 1, 2)
}

/// Little-endian TIFF: one uncompressed strip (RGB, or gray samples when
/// `gray`, BlackIsZero), 12 IFD entries, 8 bits per sample and `dpi` (at
/// least 1) per inch in both directions.
pub open spec fn spec_tiff(strip: Seq<u8>, width: nat, height: nat, dpi: nat, gray: bool) -> Seq<u8> {
    let d = if dpi == 0 {
        1
    } else {
        dpi
    };
    seq![73u8, 73u8, 42u8, 0u8] + le32(8) + le16(12) + tiff_entries(width, height, strip.len(), gray)
        + le32(0) + le16(8) + le16(8) + le16(8) + le32(d) + le32(1) + le32(d) + le32(1) + strip
}

fn push_tiff_entry(out: &mut Vec<u8>, tag: u16, ty: u16, count: u32, value: u32)
    ensures
        final(out)@ == old(out)@ + tiff_entry(tag as nat, ty as nat, count as nat, value as nat),
{
    let ghost before = out@;
    push_le16(out, tag);
    push_le16(out, ty);
    push_le32(out, count);
    push_le32(out, value);
    assert(out@ =~= before + tiff_entry(tag as nat, ty as nat, count as nat, value as nat));
}

#[verifier::spinoff_prover]
#[verifier::rlimit(40)]
fn tiff_header(width: u32, height: u32, strip_len: u32, gray: bool) -> (out: Vec<u8>)
    ensures
        out@ == seq![73u8, 73u8, 42u8, 0u8] + le32(8) + le16(12) + tiff_entries(
            width as nat,
            height as nat,
            strip_len as nat,
            gray,
        ),
{
    let mut t: Vec<u8> = Vec::new();
    t.push(73);
    t.push(73);
    t.push(42);
    t.push(0);
    push_le32(&mut t, 8);
    push_le16(&mut t, 12);
    let ghost head = t@;
    push_tiff_entry(&mut t, 256, 4, 1, width);
    push_tiff_entry(&mut t, 257, 4, 1, height);
    if gray {
        push_tiff_entry(&mut t, 258, 3, 1, 8);
    } else {
        push_tiff_entry(&mut t, 258, 3, 3, 158);
    }
    push_tiff_entry(&mut t, 259, 3, 1, 1);
    push_tiff_entry(&mut t, 262, 3, 1, if gray { 1 } else { 2 });
    push_tiff_entry(&mut t, 273, 4, 1, 180);
    push_tiff_entry(&mut t, 277, 3, 1, if gray { 1 } else { 3 });
    push_tiff_entry(&mut t, 278, 4, 1, height);
    push_tiff_entry(&mut t, 279, 4, 1, strip_len);
    push_tiff_entry(&mut t, 282, 5, 1, 164);
    push_tiff_entry(&mut t, 283, 5, 1, 172);
    push_tiff_entry(&mut t, 296, 3, 1, 2);
    assert(t@ =~= head + tiff_entries(width as nat, height as nat, strip_len as nat, gray));
    t
}

/// Samples in a `width`×`height` image: one per pixel when `gray`, else three.
pub open spec fn sample_count(width: nat, height: nat, gray: bool) -> nat {
    if gray {
        width * height
    } else {
        width * height * 3
    }
}

/// What a TIFF of the given samples (gray, or RGB) becomes: an error text
/// or the file.
pub open spec fn spec_samples_to_tiff(px: Seq<u8>, width: nat, height: nat, dpi: nat, gray: bool) -> core::result::Result<
    Seq<u8>,
    Seq<char>,
> {
    if width == 0 || height == 0 {
        Err("TIFF dimensions out of range"@)
    } else if px.len() < sample_count(width, height, gray) {
        Err(if gray {
            "gray buffer shorter than width×height"@
        } else {
            "RGB buffer shorter than width×height"@
        })
    } else {
        Ok(spec_tiff(px.take(sample_count(width, height, gray) as int), width, height, dpi, gray))
    }
}

/// What `rgb_to_tiff` returns: an error text or the file.
pub open spec fn spec_rgb_to_tiff(rgb: Seq<u8>, width: nat, height: nat, dpi: nat) -> core::result::Result<
    Seq<u8>,
    Seq<char>,
> {
    spec_samples_to_tiff(rgb, width, height, dpi, false)
}

/// A byte result against a spec result with a text error.
pub open spec fn bytes_match(r: Result<Vec<u8>>, s: core::result::Result<Seq<u8>, Seq<char>>) -> bool {
    match s {
        Ok(v) => r matches Ok(b) && b@ == v,
        Err(t) => r matches Err(e) && e matches Error::Protocol(m) && m@ == t,
    }
}

fn push_tiff_tail(t: &mut Vec<u8>, d: u32)
    ensures
        final(t)@ == old(t)@ + le32(0) + le16(8) + le16(8) + le16(8) + le32(d as nat) + le32(1)
            + le32(d as nat) + le32(1),
{
    let ghost before = t@;
    push_le32(t, 0);
    push_le16(t, 8);
    push_le16(t, 8);
    push_le16(t, 8);
    push_le32(t, d);
    push_le32(t, 1);
    push_le32(t, d);
    push_le32(t, 1);
    assert(t@ =~= before + le32(0) + le16(8) + le16(8) + le16(8) + le32(d as nat) + le32(1)
        + le32(d as nat) + le32(1));
}

#[verifier::spinoff_prover]
#[verifier::rlimit(40)]
fn tiff_of_strip(strip: &[u8], width: u32, height: u32, dpi: u32, gray: bool) -> (t: Vec<u8>)
    requires
        strip@.len() < 0x1_0000_0000_0000_0000,
    ensures
        t@ == spec_tiff(strip@, width as nat, height as nat, dpi as nat, gray),
        spec_is_tiff(t@),
{
    let strip_len: u32 = ((strip.len() as u128 % 0x1_0000_0000) as u64) as u32;
    let mut t = tiff_header(width, height, strip_len, gray);
    let ghost head = t@;
    assert(head[0] == 73u8 && head[1] == 73u8 && head[2] == 42u8 && head[3] == 0u8);
    let d: u32 = if dpi == 0 {
        1
    } else {
        dpi
    };
    push_tiff_tail(&mut t, d);
    assert(tiff_entries(width as nat, height as nat, strip_len as nat, gray) == tiff_entries(
        width as nat,
        height as nat,
        strip@.len(),
        gray,
    ));
    t.extend_from_slice(strip);
    assert(t@ == spec_tiff(strip@, width as nat, height as nat, dpi as nat, gray));
    assert(t@.take(4) == head.take(4));
    t
}

#[verifier::spinoff_prover]
fn samples_to_tiff(px: &[u8], width: u32, height: u32, dpi: u32, gray: bool) -> (r: Result<Vec<u8>>)
    ensures
        bytes_match(r, spec_samples_to_tiff(px@, width as nat, height as nat, dpi as nat, gray)),
        r matches Ok(v) ==> spec_is_tiff(v@),
{
    if width == 0 || height == 0 {
        return Err(protocol_error("TIFF dimensions out of range"));
    }
    assert((width as nat) * (height as nat) < 0x1_0000_0000_0000_0000) by (nonlinear_arith)
        requires
            width < 0x1_0000_0000,
            height < 0x1_0000_0000,
    ;
    let pixels: u128 = (width as u128) * (height as u128);
    let expected: u128 = if gray {
        pixels
    } else {
        pixels * 3
    };
    assert(expected == sample_count(width as nat, height as nat, gray));
    if (px.len() as u128) < expected {
        if gray {
            return Err(protocol_error("gray buffer shorter than width×height"));
        }
        return Err(protocol_error("RGB buffer shorter than width×height"));
    }
    let strip = &px[0..expected as usize];
    assert(strip@ =~= px@.take(sample_count(width as nat, height as nat, gray) as int));
    Ok(tiff_of_strip(strip, width, height, dpi, gray))
}

pub fn rgb_to_tiff(rgb: &[u8], width: u32, height: u32, dpi: u32) -> (r: Result<Vec<u8>>)
    ensures
        bytes_match(r, spec_rgb_to_tiff(rgb@, width as nat, height as nat, dpi as nat)),
        r matches Ok(v) ==> spec_is_tiff(v@),
{
    samples_to_tiff(rgb, width, height, dpi, false)
}

/// What `jpeg_encoder` produces for a buffer of the given size and
/// quality, gray (one byte per pixel) or RGB (three); the encoding
/// algorithm itself is the outside crate's.
pub uninterp spec fn jpeg_encoding(px: Seq<u8>, width: u16, height: u16, quality: u8, gray: bool) -> Seq<u8>;

/// `jpeg_encoder::Encoder::new(&mut out, quality).encode(px, width, height,
/// ColorType::Luma)` when `gray`, else with `ColorType::Rgb`, into an empty
/// `Vec`. The crate refuses zero dimensions and a buffer shorter than
/// width×height bytes per pixel (1 for Luma, 3 for Rgb); writing to a `Vec`
/// cannot fail otherwise. It writes the SOI marker first and EOI last. Which
/// bytes the entropy coder emits is left to the name `jpeg_encoding`.
#[verifier::external_body]
fn encode_jpeg(px: &[u8], width: u16, height: u16, quality: u8, gray: bool) -> (r: Option<Vec<u8>>)
    ensures
        r is Some <==> (width > 0 && height > 0 && px@.len() >= width as nat * height as nat * (
        if gray {
            1nat
        } else {
            3nat
        })),
        r matches Some(v) ==> v@ == jpeg_encoding(px@, width, height, quality, gray) && v@.len()
            >= 4 && v@[0] == 0xff && v@[1] == 0xd8 && v@.subrange(v@.len() - 2, v@.len() as int)
            == eoi(),
{
    let mut out: Vec<u8> = Vec::new();
    let encoder = jpeg_encoder::Encoder::new(&mut out, quality);
    let color = if gray {
        jpeg_encoder::ColorType::Luma
    } else {
        jpeg_encoder::ColorType::Rgb
    };
    match encoder.encode(px, width, height, color) {
        Ok(()) => Some(out),
        Err(_) => None,
    }
}

/// What encoding `width`×`height` pixels (gray, or RGB) at `quality`
/// returns: an error text or the encoding of the first width×height pixels.
pub open spec fn spec_samples_to_jpeg(px: Seq<u8>, width: nat, height: nat, quality: u8, gray: bool) -> core::result::Result<
    Seq<u8>,
    Seq<char>,
> {
    if width == 0 || height == 0 || width > 0xffff || height > 0xffff {
        Err("JPEG dimensions out of range"@)
    } else if px.len() < sample_count(width, height, gray) {
        Err(if gray {
            "gray buffer shorter than width×height"@
        } else {
            "RGB buffer shorter than width×height"@
        })
    } else {
        Ok(
            jpeg_encoding(
                px.take(sample_count(width, height, gray) as int),
                width as u16,
                height as u16,
                quality,
                gray,
            ),
        )
    }
}

/// What `rgb_to_jpeg` returns.
pub open spec fn spec_rgb_to_jpeg(rgb: Seq<u8>, width: nat, height: nat, quality: u8) -> core::result::Result<
    Seq<u8>,
    Seq<char>,
> {
    spec_samples_to_jpeg(rgb, width, height, quality, false)
}

#[verifier::spinoff_prover]
fn samples_to_jpeg(px: &[u8], width: u32, height: u32, quality: u8, gray: bool) -> (r: Result<Vec<u8>>)
    ensures
        bytes_match(r, spec_samples_to_jpeg(px@, width as nat, height as nat, quality, gray)),
        r matches Ok(v) ==> spec_is_jpeg(v@),
{
    if width == 0 || height == 0 || width > 0xffff || height > 0xffff {
        return Err(protocol_error("JPEG dimensions out of range"));
    }
    assert((width as nat) * (height as nat) <= 0xffff * 0xffff) by (nonlinear_arith)
        requires
            width <= 0xffff,
            height <= 0xffff,
    ;
    let pixels: u64 = (width as u64) * (height as u64);
    let expected: u64 = if gray {
        pixels
    } else {
        pixels * 3
    };
    assert(expected == sample_count(width as nat, height as nat, gray));
    if (px.len() as u64) < expected {
        if gray {
            return Err(protocol_error("gray buffer shorter than width×height"));
        }
        return Err(protocol_error("RGB buffer shorter than width×height"));
    }
    let data = &px[0..expected as usize];
    assert(data@ =~= px@.take(sample_count(width as nat, height as nat, gray) as int));
    match encode_jpeg(data, width as u16, height as u16, quality, gray) {
        Some(v) => {
            assert(crate::text::occurs_at(v@, eoi(), v@.len() - 2));
            Ok(v)
        },
        None => Err(protocol_error("jpeg encode failed")),
    }
}

/// An RGB buffer (three bytes per pixel) as a JPEG at `quality`.
pub fn rgb_to_jpeg(rgb: &[u8], width: u32, height: u32, quality: u8) -> (r: Result<Vec<u8>>)
    ensures
        bytes_match(r, spec_rgb_to_jpeg(rgb@, width as nat, height as nat, quality)),
        r matches Ok(v) ==> spec_is_jpeg(v@),
{
    samples_to_jpeg(rgb, width, height, quality, false)
}

/// A gray buffer (one byte per pixel) as a one-component JPEG at `quality`.
pub fn gray_to_jpeg(gray: &[u8], width: u32, height: u32, quality: u8) -> (r: Result<Vec<u8>>)
    ensures
        bytes_match(r, spec_samples_to_jpeg(gray@, width as nat, height as nat, quality, true)),
        r matches Ok(v) ==> spec_is_jpeg(v@),
{
    samples_to_jpeg(gray, width, height, quality, true)
}

/// What `raster_to_jpeg` returns for a BMP/DIB: the decoder's error, or the
/// JPEG (quality 80) of its pixels.
pub open spec fn spec_raster_to_jpeg(b: Seq<u8>) -> core::result::Result<Seq<u8>, Seq<char>> {
    match spec_decode_raster(b) {
        DibOutcome::Image(w, h, rgb) => spec_rgb_to_jpeg(rgb, w, h, 80),
        o => Err(dib_error_text(o)),
    }
}

pub fn raster_to_jpeg(bytes: &[u8]) -> (r: Result<Vec<u8>>)
    ensures
        bytes_match(r, spec_raster_to_jpeg(bytes@)),
        r matches Ok(v) ==> spec_is_jpeg(v@),
{
    let (w, h, rgb) = match decode_bmp_or_dib(bytes) {
        Ok(t) => t,
        Err(e) => {
            return Err(e);
        },
    };
    rgb_to_jpeg(rgb.as_slice(), w, h, 80)
}

/// What `jpeg_decoder` makes of a JPEG's frame: its width, height and pixel
/// format (L8 = 0, L16 = 1, RGB24 = 2, CMYK32 = 3) when decoding succeeds,
/// `None` when the decoder refuses the data. These follow from the bytes
/// alone; only the sample values can vary with the machine.
pub uninterp spec fn jpeg_frame(data: Seq<u8>) -> Option<(u16, u16, u8)>;

/// `jpeg_decoder::Decoder::decode` followed by `Decoder::info` on a JPEG in
/// memory: the decoder's error text, no header, or (width, height, pixel
/// format, pixels) with the format numbered as in `jpeg_frame`. Decoding
/// succeeds exactly when `jpeg_frame` names a frame, and then reports that
/// frame. The pixel values depend on the machine (the crate picks SIMD code
/// at run time) and the error text is the crate's, so nothing is claimed of
/// them.
#[verifier::external_body]
fn jpeg_decode(data: &[u8]) -> (r: core::result::Result<Option<(u16, u16, u8, Vec<u8>)>, String>)
    ensures
        decoder_outcome(r),
        (r matches Ok(Some(_))) == (jpeg_frame(data@) is Some),
        r matches Ok(Some((w, h, f, _))) ==> jpeg_frame(data@) == Some((w, h, f)),
{
    let mut decoder = jpeg_decoder::Decoder::new(std::io::Cursor::new(data));
    let pixels = match decoder.decode() {
        Ok(p) => p,
        Err(e) => return Err(e.to_string()),
    };
    let Some(info) = decoder.info() else { return Ok(None) };
    let f: u8 = match info.pixel_format {
        jpeg_decoder::PixelFormat::L8 => 0,
        jpeg_decoder::PixelFormat::L16 => 1,
        jpeg_decoder::PixelFormat::RGB24 => 2,
        jpeg_decoder::PixelFormat::CMYK32 => 3,
    };
    Ok(Some((info.width, info.height, f, pixels)))
}

/// Each gray sample written three times.
pub open spec fn expand_gray(px: Seq<u8>) -> Seq<u8>
    decreases px.len(),
{
    if px.len() == 0 {
        Seq::<u8>::empty()
    } else {
        expand_gray(px.drop_last()) + gray3(px.last())
    }
}

/// What a decoder outcome becomes: RGB pixels, gray expanded to RGB, or
/// an error text.
pub open spec fn spec_decoded_rgb(d: core::result::Result<Option<(u16, u16, u8, Vec<u8>)>, String>) -> core::result::Result<
    (nat, nat, Seq<u8>),
    Seq<char>,
> {
    match d {
        Err(t) => Err("jpeg decode: "@ + t@),
        Ok(None) => Err("jpeg decode produced no header"@),
        Ok(Some((w, h, f, px))) => if f == 2 {
            Ok((w as nat, h as nat, px@))
        } else if f == 0 {
            Ok((w as nat, h as nat, expand_gray(px@)))
        } else if f == 3 {
            Err("CMYK JPEG is not supported"@)
        } else {
            Err("unsupported JPEG pixel format L16"@)
        },
    }
}

/// An RGB result against a spec result with a text error.
pub open spec fn rgb_match(r: Result<(u32, u32, Vec<u8>)>, s: core::result::Result<(nat, nat, Seq<u8>), Seq<char>>) -> bool {
    match s {
        Ok((w, h, px)) => r matches Ok((rw, rh, v)) && rw as nat == w && rh as nat == h && v@ == px,
        Err(t) => r matches Err(e) && e matches Error::Protocol(m) && m@ == t,
    }
}

/// Turn a JPEG decoder outcome into RGB pixels.
pub fn decoded_to_rgb(d: core::result::Result<Option<(u16, u16, u8, Vec<u8>)>, String>) -> (r: Result<(u32, u32, Vec<u8>)>)
    ensures
        rgb_match(r, spec_decoded_rgb(d)),
{
    match d {
        Err(t) => {
            let mut s = String::from_str("jpeg decode: ");
            s.append(t.as_str());
            Err(Error::Protocol(s))
        },
        Ok(None) => Err(protocol_error("jpeg decode produced no header")),
        Ok(Some((w, h, f, px))) => {
            if f == 2 {
                Ok((w as u32, h as u32, px))
            } else if f == 0 {
                let mut out: Vec<u8> = Vec::new();
                for k in 0..px.len()
                    invariant
                        out@ == expand_gray(px@.take(k as int)),
                {
                    let v = px[k];
                    out.push(v);
                    out.push(v);
                    out.push(v);
                    assert(px@.take(k + 1).drop_last() =~= px@.take(k as int));
                    assert(out@ =~= expand_gray(px@.take(k + 1)));
                }
                assert(px@.take(px@.len() as int) =~= px@);
                Ok((w as u32, h as u32, out))
            } else if f == 3 {
                Err(protocol_error("CMYK JPEG is not supported"))
            } else {
                Err(protocol_error("unsupported JPEG pixel format L16"))
            }
        },
    }
}

/// A decoder outcome that `jpeg_decode` can return.
pub open spec fn decoder_outcome(d: core::result::Result<Option<(u16, u16, u8, Vec<u8>)>, String>) -> bool {
    d matches Ok(Some(t)) ==> t.2 < 4
}

/// A decoder outcome for the JPEG `data`: it decodes exactly when
/// `jpeg_frame` names a frame, with that width, height and pixel format.
pub open spec fn decoded_from(
    data: Seq<u8>,
    d: core::result::Result<Option<(u16, u16, u8, Vec<u8>)>, String>,
) -> bool {
    &&& decoder_outcome(d)
    &&& (d matches Ok(Some(_))) == (jpeg_frame(data) is Some)
    &&& d matches Ok(Some(t)) ==> jpeg_frame(data) == Some((t.0, t.1, t.2))
}

/// Decode a JPEG to RGB pixels (gray images are expanded): what
/// `decoded_to_rgb` makes of the decoder's outcome.
pub fn jpeg_to_rgb(jpeg: &[u8]) -> (r: Result<(u32, u32, Vec<u8>)>)
    ensures
        exists|d| decoded_from(jpeg@, d) && rgb_match(r, #[trigger] spec_decoded_rgb(d)),
        r matches Ok((w, h, _)) ==> w <= 0xffff && h <= 0xffff,
{
    let d = jpeg_decode(jpeg);
    let ghost dg = d;
    let r = decoded_to_rgb(d);
    assert(decoded_from(jpeg@, dg) && rgb_match(r, spec_decoded_rgb(dg)));
    r
}

/// A decoder outcome as an uncompressed TIFF: gray images stay one-sample
/// gray, RGB images are RGB.
pub open spec fn spec_decoded_tiff(
    d: core::result::Result<Option<(u16, u16, u8, Vec<u8>)>, String>,
    dpi: u32,
) -> core::result::Result<Seq<u8>, Seq<char>> {
    match d {
        Ok(Some((w, h, f, px))) => if f == 0 {
            spec_samples_to_tiff(px@, w as nat, h as nat, dpi as nat, true)
        } else {
            match spec_decoded_rgb(d) {
                Ok((w, h, px)) => spec_rgb_to_tiff(px, w, h, dpi as nat),
                Err(t) => Err(t),
            }
        },
        _ => match spec_decoded_rgb(d) {
            Ok((w, h, px)) => spec_rgb_to_tiff(px, w, h, dpi as nat),
            Err(t) => Err(t),
        },
    }
}

/// Turn a JPEG decoder outcome into a TIFF at `dpi`.
pub fn decoded_to_tiff(d: core::result::Result<Option<(u16, u16, u8, Vec<u8>)>, String>, dpi: u32) -> (r: Result<Vec<u8>>)
    ensures
        bytes_match(r, spec_decoded_tiff(d, dpi)),
        r matches Ok(v) ==> spec_is_tiff(v@),
{
    if let Ok(Some((w, h, f, px))) = &d {
        if *f == 0 {
            return samples_to_tiff(px.as_slice(), *w as u32, *h as u32, dpi, true);
        }
    }
    let (w, h, rgb) = match decoded_to_rgb(d) {
        Ok(t) => t,
        Err(e) => {
            return Err(e);
        },
    };
    rgb_to_tiff(rgb.as_slice(), w, h, dpi)
}

/// A JPEG as an uncompressed TIFF at `dpi`: what `decoded_to_tiff` makes of
/// the decoder's outcome.
pub fn jpeg_to_tiff(jpeg: &[u8], dpi: u32) -> (r: Result<Vec<u8>>)
    ensures
        exists|d| decoded_from(jpeg@, d) && bytes_match(r, #[trigger] spec_decoded_tiff(d, dpi)),
        r matches Ok(v) ==> spec_is_tiff(v@),
{
    let d = jpeg_decode(jpeg);
    let ghost dg = d;
    let r = decoded_to_tiff(d, dpi);
    assert(decoded_from(jpeg@, dg) && bytes_match(r, spec_decoded_tiff(dg, dpi)));
    r
}

/// A decoder outcome thresholded to black and white and encoded at quality 80.
pub open spec fn spec_decoded_lineart(d: core::result::Result<Option<(u16, u16, u8, Vec<u8>)>, String>) -> core::result::Result<
    Seq<u8>,
    Seq<char>,
> {
    match spec_decoded_rgb(d) {
        Ok((w, h, px)) => spec_rgb_to_jpeg(spec_threshold(px), w, h, 80),
        Err(t) => Err(t),
    }
}

/// Black-and-white rendering of a decoder outcome.
pub fn decoded_to_lineart(d: core::result::Result<Option<(u16, u16, u8, Vec<u8>)>, String>) -> (r: Result<Vec<u8>>)
    ensures
        bytes_match(r, spec_decoded_lineart(d)),
        r matches Ok(v) ==> spec_is_jpeg(v@),
{
    let (w, h, rgb) = match decoded_to_rgb(d) {
        Ok(t) => t,
        Err(e) => {
            return Err(e);
        },
    };
    let bw = threshold_rgb(rgb.as_slice());
    rgb_to_jpeg(bw.as_slice(), w, h, 80)
}

/// Black-and-white rendering of a JPEG: decode, threshold, re-encode at
/// quality 80 (`decoded_to_lineart` of the decoder's outcome).
pub fn apply_lineart_jpeg(jpeg: &[u8]) -> (r: Result<Vec<u8>>)
    ensures
        exists|d| decoded_from(jpeg@, d) && bytes_match(r, #[trigger] spec_decoded_lineart(d)),
        r matches Ok(v) ==> spec_is_jpeg(v@),
{
    let d = jpeg_decode(jpeg);
    let ghost dg = d;
    let r = decoded_to_lineart(d);
    assert(decoded_from(jpeg@, dg) && bytes_match(r, spec_decoded_lineart(dg)));
    r
}


pub const PDF_CATALOG: &'static str = "1 0 obj\n<< /Type /Catalog /Pages 2 0 R >>\nendobj\n";

pub const PDF_PAGES: &'static str = "2 0 obj\n<< /Type /Pages /Kids [3 0 R] /Count 1 >>\nendobj\n";

pub const PDF_PAGE_HEAD: &'static str = "3 0 obj\n<< /Type /Page /Parent 2 0 R /MediaBox [0 0 ";

pub const PDF_PAGE_TAIL: &'static str = "] /Resources << /XObject << /Im0 4 0 R >> >> /Contents 5 0 R >>\nendobj\n";

pub const PDF_IMAGE_HEAD: &'static str = "4 0 obj\n<< /Type /XObject /Subtype /Image /Width ";

pub const PDF_IMAGE_HEIGHT: &'static str = " /Height ";

pub const PDF_IMAGE_COLORSPACE: &'static str = " /ColorSpace ";

pub const PDF_IMAGE_LENGTH: &'static str = " /BitsPerComponent 8 /Filter /DCTDecode /Length ";

pub const PDF_STREAM_OPEN: &'static str = " >>\nstream\n";

pub const PDF_IMAGE_END: &'static str = "\nendstream\nendobj\n";

pub const PDF_CONTENTS_HEAD: &'static str = "5 0 obj\n<< /Length ";

pub const PDF_CONTENTS_END: &'static str = "endstream\nendobj\n";

pub const PDF_DRAW_HEAD: &'static str = "q ";

pub const PDF_DRAW_MID: &'static str = " 0 0 ";

pub const PDF_DRAW_TAIL: &'static str = " 0 0 cm /Im0 Do Q\n";

pub const PDF_XREF_HEAD: &'static str = "xref\n0 6\n0000000000 65535 f \n";

pub const PDF_XREF_ENTRY: &'static str = " 00000 n \n";

pub const PDF_TRAILER: &'static str = "trailer\n<< /Size 6 /Root 1 0 R >>\nstartxref\n";

pub const PDF_EOF: &'static str = "\n%%EOF\n";

/// The ASCII bytes of a decimal number.
pub open spec fn num(n: nat) -> Seq<u8> {
    crate::dime::ascii_bytes(decimal(n))
}

/// A whole number written with two decimals (`{:.2}` of its float).
pub open spec fn num2(n: nat) -> Seq<u8> {
    num(n) + seq![46u8, 48u8, 48u8]
}

/// A number zero-padded to at least ten digits (`{:010}`).
pub open spec fn pad10(n: nat) -> Seq<u8> {
    let d = num(n);
    if d.len() < 10 {
        Seq::new((10 - d.len()) as nat, |_i: int| 48u8) + d
    } else {
        d
    }
}

/// `%PDF-1.4`, then a comment line of four high bytes marking the file binary.
pub open spec fn pdf_head() -> Seq<u8> {
    seq![37u8, 80u8, 68u8, 70u8, 45u8, 49u8, 46u8, 52u8, 10u8, 37u8, 0xe2u8, 0xe3u8, 0xcfu8, 0xd3u8, 10u8]
}

/// A count of hundredths written with two decimals (`{:.2}`).
pub open spec fn hundredths(c: nat) -> Seq<u8> {
    num(c / 100) + seq![46u8, (48 + (c % 100) / 10) as u8, (48 + c % 10) as u8]
}

/// The page's content stream: draw the image over a box whose width and
/// height are written `bw` and `bh` (in points).
pub open spec fn pdf_draw(bw: Seq<u8>, bh: Seq<u8>) -> Seq<u8> {
    PDF_DRAW_HEAD.spec_bytes() + bw + PDF_DRAW_MID.spec_bytes() + bh + PDF_DRAW_TAIL.spec_bytes()
}

/// Object 3: the page with a `bw`×`bh` media box.
pub open spec fn pdf_page(bw: Seq<u8>, bh: Seq<u8>) -> Seq<u8> {
    PDF_PAGE_HEAD.spec_bytes() + bw + seq![32u8] + bh + PDF_PAGE_TAIL.spec_bytes()
}

/// Object 4 up to its stream data: a DCT-encoded w×h image of `len` bytes.
pub open spec fn pdf_image_head(w: nat, h: nat, gray: bool, len: nat) -> Seq<u8> {
    PDF_IMAGE_HEAD.spec_bytes() + num(w) + PDF_IMAGE_HEIGHT.spec_bytes() + num(h)
        + PDF_IMAGE_COLORSPACE.spec_bytes() + (if gray {
        "/DeviceGray".spec_bytes()
    } else {
        "/DeviceRGB".spec_bytes()
    }) + PDF_IMAGE_LENGTH.spec_bytes() + num(len) + PDF_STREAM_OPEN.spec_bytes()
}

/// Object 5: the content stream.
pub open spec fn pdf_contents(bw: Seq<u8>, bh: Seq<u8>) -> Seq<u8> {
    PDF_CONTENTS_HEAD.spec_bytes() + num(pdf_draw(bw, bh).len()) + PDF_STREAM_OPEN.spec_bytes()
        + pdf_draw(bw, bh) + PDF_CONTENTS_END.spec_bytes()
}

/// The image's size in pixels, or 8×8 when no SOF is found.
pub open spec fn pdf_size(jpeg: Seq<u8>) -> (nat, nat) {
    match spec_jpeg_dimensions(jpeg) {
        Some((w, h)) => (w as nat, h as nat),
        None => (8, 8),
    }
}

/// A one-page PDF whose page is the JPEG drawn over a `bw`×`bh` box, with
/// an exact cross-reference table.
pub open spec fn spec_pdf_box(jpeg: Seq<u8>, bw: Seq<u8>, bh: Seq<u8>) -> Seq<u8> {
    let (w, h) = pdf_size(jpeg);
    let p0 = pdf_head();
    let p1 = p0 + PDF_CATALOG.spec_bytes();
    let p2 = p1 + PDF_PAGES.spec_bytes();
    let p3 = p2 + pdf_page(bw, bh);
    let p4 = p3 + pdf_image_head(w, h, gray_from(jpeg, 2), jpeg.len()) + jpeg
        + PDF_IMAGE_END.spec_bytes();
    let p5 = p4 + pdf_contents(bw, bh);
    p5 + pdf_xref(p0.len(), p1.len(), p2.len(), p3.len(), p4.len(), p5.len())
}

/// A one-page PDF whose page is the JPEG, drawn at its pixel size.
pub open spec fn spec_pdf(jpeg: Seq<u8>) -> Seq<u8> {
    let (w, h) = pdf_size(jpeg);
    spec_pdf_box(jpeg, num2(w), num2(h))
}

/// The JPEG's width and height in points at `dpi` (at least 1), in
/// hundredths rounded to nearest.
pub open spec fn points_at(px: nat, dpi: nat) -> nat {
    let d = if dpi == 0 {
        1
    } else {
        dpi
    };
    (px * 7200 + d / 2) / d
}

/// A one-page PDF whose page is the JPEG at its physical size for `dpi`.
pub open spec fn spec_pdf_at_dpi(jpeg: Seq<u8>, dpi: nat) -> Seq<u8> {
    let (w, h) = pdf_size(jpeg);
    spec_pdf_box(jpeg, hundredths(points_at(w, dpi)), hundredths(points_at(h, dpi)))
}

/// Rounded to nearest (halves up), `points_at` is the size in hundredths
/// of a point of `px` pixels at `dpi` (a `dpi` of 0 counting as 1).
proof fn lemma_points_at_rounds(px: nat, dpi: nat)
    ensures
        ({
            let d = if dpi == 0 {
                1
            } else {
                dpi
            };
            points_at(px, dpi) * d <= 7200 * px + d / 2 < points_at(px, dpi) * d + d
        }),
{
    let d: nat = if dpi == 0 {
        1
    } else {
        dpi
    };
    let x: int = 7200 * px + (d / 2) as int;
    vstd::arithmetic::div_mod::lemma_fundamental_div_mod(x, d as int);
    assert(0 <= x % (d as int) < d);
    assert(points_at(px, dpi) == x / (d as int));
    assert(d * (x / d as int) == (x / d as int) * d) by (nonlinear_arith);
}

/// The PDF made at `dpi` holds the page object whose MediaBox is the
/// JPEG's pixel width by its pixel height at `dpi` (a `dpi` of 0 counting
/// as 1): 72 points per inch, written in hundredths of a point rounded to
/// nearest.
pub proof fn lemma_pdf_media_box(jpeg: Seq<u8>, dpi: nat, w: u32, h: u32)
    requires
        spec_jpeg_dimensions(jpeg) == Some((w, h)),
    ensures
        ({
            let d = if dpi == 0 {
                1
            } else {
                dpi
            };
            exists|off: int, pw: nat, ph: nat|
                pw * d <= 7200 * w + d / 2 < pw * d + d && ph * d <= 7200 * h + d / 2 < ph * d + d
                    && #[trigger] crate::text::occurs_at(
                    spec_pdf_at_dpi(jpeg, dpi),
                    pdf_page(hundredths(pw), hundredths(ph)),
                    off,
                )
        }),
{
    let f = spec_pdf_at_dpi(jpeg, dpi);
    let pw = points_at(w as nat, dpi);
    let ph = points_at(h as nat, dpi);
    lemma_points_at_rounds(w as nat, dpi);
    lemma_points_at_rounds(h as nat, dpi);
    let bw = hundredths(pw);
    let bh = hundredths(ph);
    let page = pdf_page(bw, bh);
    let p0 = pdf_head();
    let p1 = p0 + PDF_CATALOG.spec_bytes();
    let p2 = p1 + PDF_PAGES.spec_bytes();
    let p3 = p2 + page;
    let ih = pdf_image_head(w as nat, h as nat, gray_from(jpeg, 2), jpeg.len());
    let q1 = p3 + ih;
    let q2 = q1 + jpeg;
    let p4 = q2 + PDF_IMAGE_END.spec_bytes();
    let p5 = p4 + pdf_contents(bw, bh);
    let x = pdf_xref(p0.len(), p1.len(), p2.len(), p3.len(), p4.len(), p5.len());
    assert(f == p5 + x);
    lemma_prefix_grows(p3, p3, ih);
    lemma_prefix_grows(p3, q1, jpeg);
    lemma_prefix_grows(p3, q2, PDF_IMAGE_END.spec_bytes());
    lemma_prefix_grows(p3, p4, pdf_contents(bw, bh));
    lemma_prefix_grows(p3, p5, x);
    let off = p2.len() as int;
    assert forall|k: int| 0 <= k < page.len() implies f.subrange(off, off + page.len())[k] == page[k] by {
        assert(f.take(p3.len() as int)[off + k] == f[off + k]);
        assert(p3[off + k] == page[k]);
    }
    assert(f.subrange(off, off + page.len()) =~= page);
    assert(crate::text::occurs_at(f, page, off));
}

/// The cross-reference table for the five objects at `o1`..`o5` and the
/// trailer pointing at the table, which starts at `at`.
pub open spec fn pdf_xref(o1: nat, o2: nat, o3: nat, o4: nat, o5: nat, at: nat) -> Seq<u8> {
    let e = PDF_XREF_ENTRY.spec_bytes();
    PDF_XREF_HEAD.spec_bytes() + pad10(o1) + e + pad10(o2) + e + pad10(o3) + e + pad10(o4) + e
        + pad10(o5) + e + PDF_TRAILER.spec_bytes() + num(at) + PDF_EOF.spec_bytes()
}

fn push_str(out: &mut Vec<u8>, s: &str)
    ensures
        final(out)@ == old(out)@ + s.spec_bytes(),
{
    out.extend_from_slice(s.as_bytes());
}

fn push_num(out: &mut Vec<u8>, n: u64)
    ensures
        final(out)@ == old(out)@ + num(n as nat),
{
    let d = decimal_chars(n);
    let ghost before = out@;
    proof {
        crate::text::lemma_decimal_digits(n as nat);
    }
    for k in 0..d.len()
        invariant
            d@ == decimal(n as nat),
            forall|i: int| 0 <= i < d@.len() ==> (#[trigger] d@[i] as u32) < 128,
            out@ == before + crate::dime::ascii_bytes(d@.take(k as int)),
    {
        assert((d@[k as int] as u32) < 128);
        out.push(d[k] as u8);
        assert(crate::dime::ascii_bytes(d@.take(k + 1)) =~= crate::dime::ascii_bytes(
            d@.take(k as int),
        ).push(d@[k as int] as u8));
    }
    assert(d@.take(d@.len() as int) =~= d@);
}

fn push_num2(out: &mut Vec<u8>, n: u64)
    ensures
        final(out)@ == old(out)@ + num2(n as nat),
{
    let ghost before = out@;
    push_num(out, n);
    out.push(46);
    out.push(48);
    out.push(48);
    assert(out@ =~= before + num2(n as nat));
}

fn push_pad10(out: &mut Vec<u8>, n: u64)
    ensures
        final(out)@ == old(out)@ + pad10(n as nat),
{
    let mut digits: Vec<u8> = Vec::new();
    push_num(&mut digits, n);
    let ghost before = out@;
    if digits.len() < 10 {
        let pad = 10 - digits.len();
        let mut k: usize = 0;
        while k < pad
            invariant
                k <= pad,
                out@ == before + Seq::new(k as nat, |_i: int| 48u8),
            decreases pad - k,
        {
            out.push(48);
            k = k + 1;
            assert(out@ =~= before + Seq::new(k as nat, |_i: int| 48u8));
        }
        let ghost mid = out@;
        out.extend_from_slice(digits.as_slice());
        assert(out@ =~= before + (Seq::new(pad as nat, |_i: int| 48u8) + digits@));
    } else {
        out.extend_from_slice(digits.as_slice());
    }
}

fn pdf_draw_bytes(bw: &[u8], bh: &[u8]) -> (r: Vec<u8>)
    ensures
        r@ == pdf_draw(bw@, bh@),
{
    let mut c: Vec<u8> = Vec::new();
    push_str(&mut c, PDF_DRAW_HEAD);
    c.extend_from_slice(bw);
    push_str(&mut c, PDF_DRAW_MID);
    c.extend_from_slice(bh);
    push_str(&mut c, PDF_DRAW_TAIL);
    assert(c@ =~= pdf_draw(bw@, bh@));
    c
}

fn push_hundredths(out: &mut Vec<u8>, c: u64)
    ensures
        final(out)@ == old(out)@ + hundredths(c as nat),
{
    let ghost before = out@;
    push_num(out, c / 100);
    out.push(46);
    out.push((48 + (c % 100) / 10) as u8);
    out.push((48 + c % 10) as u8);
    assert(out@ =~= before + hundredths(c as nat));
}

fn push_image_head(out: &mut Vec<u8>, w: u32, h: u32, gray: bool, len: usize)
    ensures
        final(out)@ == old(out)@ + pdf_image_head(w as nat, h as nat, gray, len as nat),
{
    let ghost before = out@;
    push_str(out, PDF_IMAGE_HEAD);
    push_num(out, w as u64);
    push_str(out, PDF_IMAGE_HEIGHT);
    push_num(out, h as u64);
    push_str(out, PDF_IMAGE_COLORSPACE);
    if gray {
        push_str(out, "/DeviceGray");
    } else {
        push_str(out, "/DeviceRGB");
    }
    push_str(out, PDF_IMAGE_LENGTH);
    push_num(out, len as u64);
    push_str(out, PDF_STREAM_OPEN);
    assert(out@ =~= before + pdf_image_head(w as nat, h as nat, gray, len as nat));
}

fn push_contents(out: &mut Vec<u8>, bw: &[u8], bh: &[u8])
    ensures
        final(out)@ == old(out)@ + pdf_contents(bw@, bh@),
{
    let ghost before = out@;
    let draw = pdf_draw_bytes(bw, bh);
    push_str(out, PDF_CONTENTS_HEAD);
    push_num(out, draw.len() as u64);
    push_str(out, PDF_STREAM_OPEN);
    out.extend_from_slice(draw.as_slice());
    push_str(out, PDF_CONTENTS_END);
    assert(out@ =~= before + pdf_contents(bw@, bh@));
}

fn push_xref(out: &mut Vec<u8>, o1: usize, o2: usize, o3: usize, o4: usize, o5: usize, at: usize)
    ensures
        final(out)@ == old(out)@ + pdf_xref(
            o1 as nat,
            o2 as nat,
            o3 as nat,
            o4 as nat,
            o5 as nat,
            at as nat,
        ),
{
    let mut t: Vec<u8> = Vec::new();
    push_str(&mut t, PDF_XREF_HEAD);
    push_pad10(&mut t, o1 as u64);
    push_str(&mut t, PDF_XREF_ENTRY);
    push_pad10(&mut t, o2 as u64);
    push_str(&mut t, PDF_XREF_ENTRY);
    push_pad10(&mut t, o3 as u64);
    push_str(&mut t, PDF_XREF_ENTRY);
    push_pad10(&mut t, o4 as u64);
    push_str(&mut t, PDF_XREF_ENTRY);
    push_pad10(&mut t, o5 as u64);
    push_str(&mut t, PDF_XREF_ENTRY);
    push_str(&mut t, PDF_TRAILER);
    push_num(&mut t, at as u64);
    push_str(&mut t, PDF_EOF);
    assert(Seq::<u8>::empty() + PDF_XREF_HEAD.spec_bytes() =~= PDF_XREF_HEAD.spec_bytes());
    assert(t@ == pdf_xref(o1 as nat, o2 as nat, o3 as nat, o4 as nat, o5 as nat, at as nat));
    out.extend_from_slice(t.as_slice());
}

fn pdf_prefix(bw: &[u8], bh: &[u8]) -> (r: (Vec<u8>, usize, usize, usize))
    ensures
        r.0@ == pdf_head() + PDF_CATALOG.spec_bytes() + PDF_PAGES.spec_bytes() + pdf_page(bw@, bh@),
        r.1 as nat == pdf_head().len(),
        r.2 as nat == (pdf_head() + PDF_CATALOG.spec_bytes()).len(),
        r.3 as nat == (pdf_head() + PDF_CATALOG.spec_bytes() + PDF_PAGES.spec_bytes()).len(),
{
    let mut pdf: Vec<u8> = Vec::new();
    pdf.push(37);
    pdf.push(80);
    pdf.push(68);
    pdf.push(70);
    pdf.push(45);
    pdf.push(49);
    pdf.push(46);
    pdf.push(52);
    pdf.push(10);
    pdf.push(37);
    pdf.push(0xe2);
    pdf.push(0xe3);
    pdf.push(0xcf);
    pdf.push(0xd3);
    pdf.push(10);
    assert(pdf@ =~= pdf_head());
    let off1 = pdf.len();
    push_str(&mut pdf, PDF_CATALOG);
    let off2 = pdf.len();
    push_str(&mut pdf, PDF_PAGES);
    let off3 = pdf.len();
    let ghost p2 = pdf@;
    push_str(&mut pdf, PDF_PAGE_HEAD);
    pdf.extend_from_slice(bw);
    pdf.push(32);
    pdf.extend_from_slice(bh);
    push_str(&mut pdf, PDF_PAGE_TAIL);
    assert(pdf@ =~= p2 + pdf_page(bw@, bh@));
    (pdf, off1, off2, off3)
}

/// A one-page PDF of a JPEG over a `bw`×`bh` box.
#[verifier::spinoff_prover]
fn pdf_with_box(jpeg: &[u8], bw: &[u8], bh: &[u8]) -> (r: Vec<u8>)
    requires
        spec_is_jpeg(jpeg@),
    ensures
        r@ == spec_pdf_box(jpeg@, bw@, bh@),
{
    let (w, h): (u32, u32) = match jpeg_dimensions(jpeg) {
        Some(d) => d,
        None => (8, 8),
    };
    let gray = jpeg_is_gray(jpeg);
    let (mut pdf, off1, off2, off3) = pdf_prefix(bw, bh);
    let off4 = pdf.len();
    push_image_head(&mut pdf, w, h, gray, jpeg.len());
    pdf.extend_from_slice(jpeg);
    push_str(&mut pdf, PDF_IMAGE_END);
    let off5 = pdf.len();
    push_contents(&mut pdf, bw, bh);
    let xref_at = pdf.len();
    push_xref(&mut pdf, off1, off2, off3, off4, off5, xref_at);
    proof {
        let (sw, sh) = pdf_size(jpeg@);
        assert(sw == w as nat && sh == h as nat);
    }
    assert(pdf@ =~= spec_pdf_box(jpeg@, bw@, bh@));
    pdf
}

/// Wrap a JPEG in a one-page PDF using `/Filter /DCTDecode`, its page the
/// image's size in pixels.
pub fn jpeg_to_pdf(jpeg: &[u8]) -> (r: Result<Vec<u8>>)
    ensures
        r is Err <==> !spec_is_jpeg(jpeg@),
        r matches Err(e) ==> e matches Error::Protocol(m) && m@ == "cannot wrap non-JPEG bytes as PDF"@,
        r matches Ok(v) ==> v@ == spec_pdf(jpeg@),
{
    if !is_jpeg(jpeg) {
        return Err(protocol_error("cannot wrap non-JPEG bytes as PDF"));
    }
    let (w, h): (u32, u32) = match jpeg_dimensions(jpeg) {
        Some(d) => d,
        None => (8, 8),
    };
    let mut bw: Vec<u8> = Vec::new();
    push_num2(&mut bw, w as u64);
    let mut bh: Vec<u8> = Vec::new();
    push_num2(&mut bh, h as u64);
    assert(bw@ =~= num2(w as nat) && bh@ =~= num2(h as nat));
    Ok(pdf_with_box(jpeg, bw.as_slice(), bh.as_slice()))
}

/// Wrap a JPEG in a one-page PDF whose page has the image's physical size
/// at `dpi` (72 points per inch; a `dpi` of 0 counts as 1).
pub fn jpeg_to_pdf_at_dpi(jpeg: &[u8], dpi: u32) -> (r: Result<Vec<u8>>)
    ensures
        r is Err <==> !spec_is_jpeg(jpeg@),
        r matches Err(e) ==> e matches Error::Protocol(m) && m@ == "cannot wrap non-JPEG bytes as PDF"@,
        r matches Ok(v) ==> v@ == spec_pdf_at_dpi(jpeg@, dpi as nat),
{
    if !is_jpeg(jpeg) {
        return Err(protocol_error("cannot wrap non-JPEG bytes as PDF"));
    }
    let (w, h): (u32, u32) = match jpeg_dimensions(jpeg) {
        Some(d) => d,
        None => (8, 8),
    };
    let d: u64 = if dpi == 0 {
        1
    } else {
        dpi as u64
    };
    assert(w as u64 * 7200 + d / 2 < 0x1_0000_0000_0000_0000) by (nonlinear_arith)
        requires
            w < 0x1_0000_0000,
            d < 0x1_0000_0000,
    ;
    assert(h as u64 * 7200 + d / 2 < 0x1_0000_0000_0000_0000) by (nonlinear_arith)
        requires
            h < 0x1_0000_0000,
            d < 0x1_0000_0000,
    ;
    let pw: u64 = (w as u64 * 7200 + d / 2) / d;
    let ph: u64 = (h as u64 * 7200 + d / 2) / d;
    let mut bw: Vec<u8> = Vec::new();
    push_hundredths(&mut bw, pw);
    let mut bh: Vec<u8> = Vec::new();
    push_hundredths(&mut bh, ph);
    proof {
        let (sw, sh) = pdf_size(jpeg@);
        assert(sw == w as nat && sh == h as nat);
        assert(bw@ =~= hundredths(points_at(w as nat, dpi as nat)));
        assert(bh@ =~= hundredths(points_at(h as nat, dpi as nat)));
    }
    Ok(pdf_with_box(jpeg, bw.as_slice(), bh.as_slice()))
}

} // verus!
