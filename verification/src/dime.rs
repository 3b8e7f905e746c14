//! Direct Internet Message Encapsulation (draft-nielsen-dime-02).
//!
//! HP's SOAP `RetrieveImage` response on this MFP is `Content-Type:
//! application/dime`: a SOAP XML record followed by one or more image
//! records (often chunked).
use crate::error::{Error, Result};
use crate::text::{decimal, decimal_string};
use vstd::prelude::*;
use vstd::string::StringSliceAdditionalSpecFns;

verus! {

/// TYPE_T value for a MIME media type.
pub const TYPE_MEDIA: u8 = 1;

/// One DIME record.
#[derive(Debug, Clone, PartialEq, Eq)]
pub struct DimeRecord {
    pub first: bool,
    pub last: bool,
    pub chunked: bool,
    pub type_format: u8,
    pub id: Vec<u8>,
    pub typ: Vec<u8>,
    pub data: Vec<u8>,
}

/// A DIME record as a mathematical value.
pub struct DimeRecordView {
    pub first: bool,
    pub last: bool,
    pub chunked: bool,
    pub type_format: u8,
    pub id: Seq<u8>,
    pub typ: Seq<u8>,
    pub data: Seq<u8>,
}

impl View for DimeRecord {
    type V = DimeRecordView;

    open spec fn view(&self) -> DimeRecordView {
        DimeRecordView {
            first: self.first,
            last: self.last,
            chunked: self.chunked,
            type_format: self.type_format,
            id: self.id@,
            typ: self.typ@,
            data: self.data@,
        }
    }
}

/// The views of a sequence of records.
pub open spec fn record_views(v: Seq<DimeRecord>) -> Seq<DimeRecordView> {
    v.map_values(|r: DimeRecord| r@)
}

/// The bytes of an ASCII text.
pub open spec fn ascii_bytes(s: Seq<char>) -> Seq<u8> {
    s.map_values(|c: char| c as u8)
}

/// `text` is plain ASCII.
pub open spec fn is_ascii_text(s: Seq<char>) -> bool {
    forall|i: int| 0 <= i < s.len() ==> (#[trigger] s[i] as u32) < 128
}

/// The UTF-8 bytes of an ASCII string.
pub fn ascii_str_bytes(s: &str) -> (r: Vec<u8>)
    requires
        is_ascii_text(s@),
    ensures
        r@ == ascii_bytes(s@),
{
    let v = crate::text::chars_of(s);
    let mut r: Vec<u8> = Vec::new();
    for i in 0..v.len()
        invariant
            v@ == s@,
            is_ascii_text(s@),
            r@ == ascii_bytes(v@.take(i as int)),
    {
        assert((v@[i as int] as u32) < 128);
        r.push(v[i] as u8);
        assert(ascii_bytes(v@.take(i + 1)) =~= ascii_bytes(v@.take(i as int)).push(
            v@[i as int] as u8,
        ));
    }
    assert(v@.take(v@.len() as int) =~= v@);
    r
}

/// What `String::from_utf8_lossy` makes of `bytes`.
pub uninterp spec fn utf8_lossy(bytes: Seq<u8>) -> Seq<char>;

/// All bytes below 0x80.
pub open spec fn ascii_only(b: Seq<u8>) -> bool {
    forall|i: int| 0 <= i < b.len() ==> #[trigger] b[i] < 128
}

/// `String::from_utf8_lossy(..).into_owned()`: the text of `bytes`, each
/// invalid UTF-8 sequence replaced by U+FFFD. Valid UTF-8 is decoded as it
/// stands (ASCII bytes map to the characters of the same code); how invalid
/// sequences are replaced is left to the name `utf8_lossy`.
#[verifier::external_body]
pub(crate) fn lossy_string(bytes: &[u8]) -> (r: String)
    ensures
        r@ == utf8_lossy(bytes@),
        ascii_only(bytes@) ==> r@ == bytes@.map_values(|b: u8| b as char),
        vstd::utf8::valid_utf8(bytes@) ==> r@ == vstd::utf8::decode_utf8(bytes@),
{
    String::from_utf8_lossy(bytes).into_owned()
}

impl DimeRecord {
    /// A media-typed record with no id.
    pub fn media(typ: &str, data: Vec<u8>) -> (r: Self)
        ensures
            r@ == (DimeRecordView {
                first: false,
                last: false,
                chunked: false,
                type_format: TYPE_MEDIA,
                id: Seq::empty(),
                typ: typ.spec_bytes(),
                data: data@,
            }),
    {
        let b = typ.as_bytes();
        let mut t: Vec<u8> = Vec::new();
        t.extend_from_slice(b);
        assert(t@ =~= typ.spec_bytes());
        DimeRecord {
            first: false,
            last: false,
            chunked: false,
            type_format: TYPE_MEDIA,
            id: Vec::new(),
            typ: t,
            data,
        }
    }

    /// The TYPE field as text.
    pub fn type_str(&self) -> (r: String)
        ensures
            r@ == utf8_lossy(self.typ@),
            ascii_only(self.typ@) ==> r@ == self.typ@.map_values(|b: u8| b as char),
    {
        lossy_string(self.typ.as_slice())
    }
}

/// Padding that brings `n` up to a multiple of four.
pub open spec fn spec_pad4(n: nat) -> nat {
    ((4 - (n % 4) as int) % 4) as nat
}

pub fn pad4(n: usize) -> (r: usize)
    ensures
        r as nat == spec_pad4(n as nat),
        r < 4,
{
    (4 - (n % 4)) % 4
}

/// `n` zero bytes.
pub open spec fn zeros(n: nat) -> Seq<u8> {
    Seq::new(n, |_i: int| 0u8)
}

/// Big-endian 16-bit field.
pub open spec fn be16(n: nat) -> Seq<u8> {
    seq![((n / 256) % 256) as u8, (n % 256) as u8]
}

/// Big-endian 32-bit field.
pub open spec fn be32(n: nat) -> Seq<u8> {
    seq![
        ((n / 0x1000000) % 256) as u8,
        ((n / 0x10000) % 256) as u8,
        ((n / 256) % 256) as u8,
        (n % 256) as u8,
    ]
}

/// First header byte: version 1, then the MB, ME and CF flags.
pub open spec fn flags_byte(first: bool, last: bool, chunked: bool) -> u8 {
    (8 + (if first {
        4int
    } else {
        0
    }) + (if last {
        2int
    } else {
        0
    }) + (if chunked {
        1int
    } else {
        0
    })) as u8
}

/// A payload followed by its padding.
pub open spec fn padded(f: Seq<u8>) -> Seq<u8> {
    f + zeros(spec_pad4(f.len()))
}

/// The wire form of one record with the given MB and ME flags. Lengths
/// that do not fit their fields are truncated to them.
#[verifier::opaque]
pub open spec fn spec_encode_record(r: DimeRecordView, first: bool, last: bool) -> Seq<u8> {
    header_bytes(r, first, last) + padded(r.id) + padded(r.typ) + padded(r.data)
}

/// The 12 header bytes of an encoded record: flags, type format, then the
/// options, id, type and data lengths, big-endian.
pub open spec fn header_bytes(r: DimeRecordView, first: bool, last: bool) -> Seq<u8> {
    seq![flags_byte(first, last, r.chunked), ((r.type_format as nat * 16) % 256) as u8] + be16(0)
        + be16(r.id.len() % 0x10000) + be16(r.typ.len() % 0x10000) + be32(
        r.data.len() % 0x1_0000_0000,
    )
}

/// MB flag `encode` gives record `i` of `n`.
pub open spec fn mb_flag(recs: Seq<DimeRecordView>, i: int) -> bool {
    i == 0 || recs[i].first
}

/// ME flag `encode` gives record `i` of `n`.
pub open spec fn me_flag(recs: Seq<DimeRecordView>, i: int) -> bool {
    i + 1 == recs.len() || recs[i].last
}

/// Wire form of the records from index `i` on.
pub open spec fn encode_from(recs: Seq<DimeRecordView>, i: int) -> Seq<u8>
    decreases recs.len() - i,
{
    if i < 0 || i >= recs.len() {
        Seq::empty()
    } else {
        spec_encode_record(recs[i], mb_flag(recs, i), me_flag(recs, i)) + encode_from(recs, i + 1)
    }
}

/// Wire form of a whole message: MB on the first record, ME on the last.
pub open spec fn spec_encode(recs: Seq<DimeRecordView>) -> Seq<u8> {
    encode_from(recs, 0)
}

fn push_be16(out: &mut Vec<u8>, n: usize)
    ensures
        final(out)@ == old(out)@ + be16(n as nat % 0x10000),
{
    let v = n % 0x10000;
    out.push((v / 256) as u8);
    out.push((v % 256) as u8);
    assert(final(out)@ =~= old(out)@ + be16(n as nat % 0x10000));
}

fn push_be32(out: &mut Vec<u8>, n: usize)
    ensures
        final(out)@ == old(out)@ + be32(n as nat % 0x1_0000_0000),
{
    let v: u64 = (n as u64) % 0x1_0000_0000;
    out.push(((v / 0x1000000) % 256) as u8);
    out.push(((v / 0x10000) % 256) as u8);
    out.push(((v / 256) % 256) as u8);
    out.push((v % 256) as u8);
    assert(final(out)@ =~= old(out)@ + be32(n as nat % 0x1_0000_0000));
}

fn push_padded(out: &mut Vec<u8>, f: &[u8])
    ensures
        final(out)@ == old(out)@ + padded(f@),
{
    out.extend_from_slice(f);
    let p = pad4(f.len());
    let mut k: usize = 0;
    while k < p
        invariant
            k <= p < 4,
            out@ == old(out)@ + f@ + zeros(k as nat),
        decreases p - k,
    {
        out.push(0u8);
        k = k + 1;
        assert(out@ =~= old(out)@ + f@ + zeros(k as nat));
    }
    assert(final(out)@ =~= old(out)@ + padded(f@));
}

/// The wire form of one record with the given MB and ME flags.
pub fn encode_record(rec: &DimeRecord, first: bool, last: bool) -> (r: Vec<u8>)
    ensures
        r@ == spec_encode_record(rec@, first, last),
{
    let mut out: Vec<u8> = Vec::new();
    let b0: u8 = 8 + (if first {
        4u8
    } else {
        0
    }) + (if last {
        2u8
    } else {
        0
    }) + (if rec.chunked {
        1u8
    } else {
        0
    });
    let b1: u8 = ((rec.type_format as u16 * 16) % 256) as u8;
    out.push(b0);
    out.push(b1);
    push_be16(&mut out, 0);
    push_be16(&mut out, rec.id.len());
    push_be16(&mut out, rec.typ.len());
    push_be32(&mut out, rec.data.len());
    push_padded(&mut out, rec.id.as_slice());
    push_padded(&mut out, rec.typ.as_slice());
    push_padded(&mut out, rec.data.as_slice());
    assert(out@ =~= spec_encode_record(rec@, first, last)) by {
        reveal(spec_encode_record);
    }
    out
}

/// Encode a complete DIME message. Sets MB on the first record and ME on the last.
pub fn encode(records: &[DimeRecord]) -> (r: Vec<u8>)
    ensures
        r@ == spec_encode(record_views(records@)),
{
    let ghost recs = record_views(records@);
    let mut out: Vec<u8> = Vec::new();
    let n = records.len();
    let mut i: usize = 0;
    assert(out@ + encode_from(recs, 0) =~= spec_encode(recs));
    while i < n
        invariant
            n == records@.len() == recs.len(),
            recs == record_views(records@),
            i <= n,
            out@ + encode_from(recs, i as int) =~= spec_encode(recs),
        decreases n - i,
    {
        let rec = &records[i];
        let first = i == 0 || rec.first;
        let last = i + 1 == n || rec.last;
        let e = encode_record(rec, first, last);
        let ghost before = out@;
        out.extend_from_slice(e.as_slice());
        assert(before + encode_from(recs, i as int) =~= out@ + encode_from(recs, i + 1));
        i = i + 1;
    }
    assert(encode_from(recs, n as int) =~= Seq::<u8>::empty());
    out
}

/// Why a DIME message could not be decoded.
#[derive(Debug, Clone, Copy, PartialEq, Eq, Structural)]
pub enum DimeFault {
    /// Fewer than 12 bytes where a header should start.
    TruncatedHeader(usize),
    /// A header whose version is not 1.
    Version(u8),
    TruncatedPayload,
    TruncatedPadding,
    /// The message holds no record at all.
    Empty,
}

/// The text a `DimeFault` is reported with.
pub open spec fn dime_fault_text(f: DimeFault) -> Seq<char> {
    match f {
        DimeFault::TruncatedHeader(n) => "truncated DIME header ("@ + decimal(n as nat)
            + " leftover bytes)"@,
        DimeFault::Version(v) => "unsupported DIME version "@ + decimal(v as nat),
        DimeFault::TruncatedPayload => "truncated DIME record payload"@,
        DimeFault::TruncatedPadding => "truncated DIME padding"@,
        DimeFault::Empty => "DIME message contained no records"@,
    }
}

fn fault_error(f: DimeFault) -> (e: Error)
    ensures
        e matches Error::Protocol(m) && m@ == dime_fault_text(f),
{
    let mut s = String::new();
    match f {
        DimeFault::TruncatedHeader(n) => {
            s.append("truncated DIME header (");
            let d = decimal_string(n as u64);
            s.append(d.as_str());
            s.append(" leftover bytes)");
        },
        DimeFault::Version(v) => {
            s.append("unsupported DIME version ");
            let d = decimal_string(v as u64);
            s.append(d.as_str());
        },
        DimeFault::TruncatedPayload => {
            s.append("truncated DIME record payload");
        },
        DimeFault::TruncatedPadding => {
            s.append("truncated DIME padding");
        },
        DimeFault::Empty => {
            s.append("DIME message contained no records");
        },
    }
    Error::Protocol(s)
}

/// Big-endian 16-bit value at `i`.
pub open spec fn be16_at(b: Seq<u8>, i: int) -> nat {
    b[i] as nat * 256 + b[i + 1] as nat
}

/// Big-endian 32-bit value at `i`.
pub open spec fn be32_at(b: Seq<u8>, i: int) -> nat {
    ((b[i] as nat * 256 + b[i + 1] as nat) * 256 + b[i + 2] as nat) * 256 + b[i + 3] as nat
}

/// Read a field of `n` bytes and its padding at `off`: the field and the
/// offset after the padding.
pub open spec fn spec_take(b: Seq<u8>, off: nat, n: nat) -> core::result::Result<
    (Seq<u8>, nat),
    DimeFault,
> {
    if off + n > b.len() {
        Err(DimeFault::TruncatedPayload)
    } else if off + n + spec_pad4(n) > b.len() {
        Err(DimeFault::TruncatedPadding)
    } else {
        Ok((b.subrange(off as int, (off + n) as int), off + n + spec_pad4(n)))
    }
}

/// The record at the start of `b` and the number of bytes it takes.
#[verifier::opaque]
pub open spec fn spec_record_at(b: Seq<u8>) -> core::result::Result<(DimeRecordView, nat), DimeFault> {
    if b.len() < 12 {
        Err(DimeFault::TruncatedHeader(b.len() as usize))
    } else if b[0] / 8 != 1 {
        Err(DimeFault::Version(b[0] / 8))
    } else {
        match spec_take(b, 12, be16_at(b, 2)) {
            Err(e) => Err(e),
            Ok((_opts, o1)) => match spec_take(b, o1, be16_at(b, 4)) {
                Err(e) => Err(e),
                Ok((id, o2)) => match spec_take(b, o2, be16_at(b, 6)) {
                    Err(e) => Err(e),
                    Ok((typ, o3)) => match spec_take(b, o3, be32_at(b, 8)) {
                        Err(e) => Err(e),
                        Ok((data, o4)) => Ok(
                            (
                                DimeRecordView {
                                    first: (b[0] / 4) % 2 == 1,
                                    last: (b[0] / 2) % 2 == 1,
                                    chunked: b[0] % 2 == 1,
                                    type_format: b[1] / 16,
                                    id,
                                    typ,
                                    data,
                                },
                                o4,
                            ),
                        ),
                    },
                },
            },
        }
    }
}

pub proof fn lemma_record_at_len(b: Seq<u8>)
    ensures
        spec_record_at(b) matches Ok((_r, off)) ==> 12 <= off <= b.len(),
{
    reveal(spec_record_at);
}

/// Records decoded from `b`, stopping after a record with ME set.
pub open spec fn spec_decode_from(b: Seq<u8>) -> core::result::Result<Seq<DimeRecordView>, DimeFault>
    decreases b.len(),
{
    if b.len() == 0 {
        Ok(Seq::empty())
    } else {
        match spec_record_at(b) {
            Err(e) => Err(e),
            Ok((r, off)) => {
                if r.last {
                    Ok(seq![r])
                } else {
                    proof {
                        lemma_record_at_len(b);
                    }
                    match spec_decode_from(b.skip(off as int)) {
                        Ok(rs) => Ok(seq![r] + rs),
                        Err(e) => Err(e),
                    }
                }
            },
        }
    }
}

/// Every DIME record in `b`; a message without records is refused.
pub open spec fn spec_decode(b: Seq<u8>) -> core::result::Result<Seq<DimeRecordView>, DimeFault> {
    if b.len() == 0 {
        Err(DimeFault::Empty)
    } else {
        spec_decode_from(b)
    }
}


fn take_field(b: &[u8], off: usize, n: usize) -> (r: core::result::Result<(Vec<u8>, usize), DimeFault>)
    requires
        off <= b@.len(),
    ensures
        r matches Ok((v, o)) ==> spec_take(b@, off as nat, n as nat) == Ok::<_, DimeFault>(
            (v@, o as nat),
        ),
        r matches Err(e) ==> spec_take(b@, off as nat, n as nat) == Err::<(Seq<u8>, nat), _>(e),
{
    if n > b.len() - off {
        return Err(DimeFault::TruncatedPayload);
    }
    let end = off + n;
    let mut v: Vec<u8> = Vec::new();
    v.extend_from_slice(&b[off..end]);
    assert(v@ =~= b@.subrange(off as int, end as int));
    let p = pad4(n);
    if p > b.len() - end {
        return Err(DimeFault::TruncatedPadding);
    }
    Ok((v, end + p))
}

fn record_at(b: &[u8]) -> (r: core::result::Result<(DimeRecord, usize), DimeFault>)
    ensures
        r matches Ok((rec, o)) ==> spec_record_at(b@) == Ok::<_, DimeFault>((rec@, o as nat)),
        r matches Err(e) ==> spec_record_at(b@) == Err::<(DimeRecordView, nat), _>(e),
{
    reveal(spec_record_at);
    if b.len() < 12 {
        return Err(DimeFault::TruncatedHeader(b.len()));
    }
    let b0 = b[0];
    let version = b0 / 8;
    if version != 1 {
        return Err(DimeFault::Version(version));
    }
    let first = (b0 / 4) % 2 == 1;
    let last = (b0 / 2) % 2 == 1;
    let chunked = b0 % 2 == 1;
    let type_format = b[1] / 16;
    let opt_len = (b[2] as usize) * 256 + (b[3] as usize);
    let id_len = (b[4] as usize) * 256 + (b[5] as usize);
    let typ_len = (b[6] as usize) * 256 + (b[7] as usize);
    let data_len_64: u64 = (((b[8] as u64) * 256 + (b[9] as u64)) * 256 + (b[10] as u64)) * 256
        + (b[11] as u64);
    let (_opts, o1) = take_field_wide(b, 12, opt_len as u64)?;
    let (id, o2) = take_field_wide(b, o1, id_len as u64)?;
    let (typ, o3) = take_field_wide(b, o2, typ_len as u64)?;
    let (data, o4) = take_field_wide(b, o3, data_len_64)?;
    Ok((DimeRecord { first, last, chunked, type_format, id, typ, data }, o4))
}

fn take_field_wide(b: &[u8], off: usize, n: u64) -> (r: core::result::Result<
    (Vec<u8>, usize),
    DimeFault,
>)
    requires
        off <= b@.len(),
    ensures
        r matches Ok((v, o)) ==> o <= b@.len() && spec_take(b@, off as nat, n as nat) == Ok::<
            _,
            DimeFault,
        >((v@, o as nat)),
        r matches Err(e) ==> spec_take(b@, off as nat, n as nat) == Err::<(Seq<u8>, nat), _>(e),
{
    if n > (b.len() - off) as u64 {
        return Err(DimeFault::TruncatedPayload);
    }
    take_field(b, off, n as usize)
}

/// Decode every DIME record in `bytes`.
#[verifier::spinoff_prover]
pub fn decode(bytes: &[u8]) -> (r: Result<Vec<DimeRecord>>)
    ensures
        r matches Ok(v) ==> spec_decode(bytes@) == Ok::<_, DimeFault>(record_views(v@)),
        r is Err <==> spec_decode(bytes@) is Err,
        r matches Err(e) ==> e matches Error::Protocol(m) && m@ == dime_fault_text(
            spec_decode(bytes@)->Err_0,
        ),
{
    let ghost whole = bytes@;
    if bytes.len() == 0 {
        return Err(fault_error(DimeFault::Empty));
    }
    let mut recs: Vec<DimeRecord> = Vec::new();
    let mut pos: usize = 0;
    assert(whole.skip(0) =~= whole);
    while pos < bytes.len()
        invariant
            pos <= bytes@.len(),
            whole == bytes@,
            whole.len() > 0,
            recs@.len() > 0 || pos == 0,
            match spec_decode_from(whole.skip(pos as int)) {
                Ok(rest) => spec_decode_from(whole) == Ok::<_, DimeFault>(
                    record_views(recs@) + rest,
                ),
                Err(e) => spec_decode_from(whole) == Err::<Seq<DimeRecordView>, _>(e),
            },
        decreases bytes@.len() - pos,
    {
        let ghost rest = whole.skip(pos as int);
        let sub = &bytes[pos..bytes.len()];
        assert(sub@ =~= rest);
        match record_at(sub) {
            Err(f) => {
                return Err(fault_error(f));
            },
            Ok((rec, used)) => {
                proof {
                    lemma_record_at_len(rest);
                }
                let is_last = rec.last;
                let ghost rv = rec@;
                let ghost before = record_views(recs@);
                recs.push(rec);
                assert(record_views(recs@) =~= before.push(rv));
                if is_last {
                    assert(before + seq![rv] =~= before.push(rv));
                    return Ok(recs);
                }
                proof {
                    assert(rest.skip(used as int) =~= whole.skip(pos + used));
                    match spec_decode_from(rest.skip(used as int)) {
                        Ok(tail) => {
                            assert(before + (seq![rv] + tail) =~= record_views(recs@) + tail);
                        },
                        Err(_) => {},
                    }
                }
                pos = pos + used;
            },
        }
    }
    assert(whole.skip(pos as int) =~= Seq::<u8>::empty());
    assert(record_views(recs@) + Seq::<DimeRecordView>::empty() =~= record_views(recs@));
    Ok(recs)
}


/// A record whose lengths and type format fit their header fields.
pub open spec fn dime_encodable(r: DimeRecordView) -> bool {
    r.type_format < 16 && r.id.len() < 0x10000 && r.typ.len() < 0x10000 && r.data.len()
        < 0x1_0000_0000
}

/// `r` with the given MB and ME flags.
pub open spec fn with_flags(r: DimeRecordView, first: bool, last: bool) -> DimeRecordView {
    DimeRecordView { first, last, ..r }
}

/// The records as `encode` flags them: MB on the first, ME on the last.
pub open spec fn flagged(recs: Seq<DimeRecordView>) -> Seq<DimeRecordView> {
    Seq::new(recs.len(), |i: int| with_flags(recs[i], mb_flag(recs, i), me_flag(recs, i)))
}

proof fn lemma_be16(n: nat)
    requires
        n < 0x10000,
    ensures
        be16_at(be16(n), 0) == n,
{
}

proof fn lemma_be32(n: nat)
    requires
        n < 0x1_0000_0000,
    ensures
        be32_at(be32(n), 0) == n,
{
}

proof fn lemma_header_fields(r: DimeRecordView, first: bool, last: bool, tail: Seq<u8>)
    requires
        dime_encodable(r),
    ensures
        ({
            let b = header_bytes(r, first, last) + tail;
            &&& b.len() >= 12
            &&& b[0] / 8 == 1
            &&& ((b[0] / 4) % 2 == 1) == first
            &&& ((b[0] / 2) % 2 == 1) == last
            &&& (b[0] % 2 == 1) == r.chunked
            &&& b[1] / 16 == r.type_format
            &&& be16_at(b, 2) == 0
            &&& be16_at(b, 4) == r.id.len()
            &&& be16_at(b, 6) == r.typ.len()
            &&& be32_at(b, 8) == r.data.len()
        }),
{
    let h = header_bytes(r, first, last);
    let b = h + tail;
    assert(h.len() == 12);
    let il = r.id.len();
    let tl = r.typ.len();
    let dl = r.data.len();
    lemma_be16(il);
    lemma_be16(tl);
    lemma_be32(dl);
    assert(b[0] == h[0] && b[1] == h[1] && b[2] == h[2] && b[3] == h[3]);
    assert(b[4] == be16(il)[0] && b[5] == be16(il)[1]);
    assert(b[6] == be16(tl)[0] && b[7] == be16(tl)[1]);
    assert(b[8] == be32(dl)[0] && b[9] == be32(dl)[1] && b[10] == be32(dl)[2] && b[11] == be32(
        dl,
    )[3]);
    let fb = flags_byte(first, last, r.chunked);
    assert(fb / 8 == 1 && ((fb / 4) % 2 == 1) == first && ((fb / 2) % 2 == 1) == last && (fb % 2
        == 1) == r.chunked);
    assert((((r.type_format as nat * 16) % 256) as u8) / 16 == r.type_format);
}

proof fn lemma_padded_prefix(f: Seq<u8>, tail: Seq<u8>)
    ensures
        (padded(f) + tail).subrange(0, f.len() as int) == f,
        (padded(f) + tail).skip((f.len() + spec_pad4(f.len())) as int) == tail,
        padded(f).len() == f.len() + spec_pad4(f.len()),
{
    assert((padded(f) + tail).subrange(0, f.len() as int) =~= f);
    assert((padded(f) + tail).skip((f.len() + spec_pad4(f.len())) as int) =~= tail);
}

proof fn lemma_take_padded(b: Seq<u8>, off: nat, f: Seq<u8>, tail: Seq<u8>)
    requires
        off <= b.len(),
        b.skip(off as int) == padded(f) + tail,
    ensures
        spec_take(b, off, f.len()) == Ok::<_, DimeFault>(
            (f, off + f.len() + spec_pad4(f.len())),
        ),
        b.skip((off + f.len() + spec_pad4(f.len())) as int) == tail,
{
    lemma_padded_prefix(f, tail);
    let n = f.len();
    assert(b.len() == off + padded(f).len() + tail.len());
    assert(b.subrange(off as int, (off + n) as int) =~= (padded(f) + tail).subrange(0, n as int));
    assert(b.skip((off + n + spec_pad4(n)) as int) =~= (padded(f) + tail).skip((n + spec_pad4(n)) as int));
}

#[verifier::rlimit(100)]
proof fn lemma_record_roundtrip(r: DimeRecordView, first: bool, last: bool, rest: Seq<u8>)
    requires
        dime_encodable(r),
    ensures
        spec_record_at(spec_encode_record(r, first, last) + rest) == Ok::<_, DimeFault>(
            (with_flags(r, first, last), spec_encode_record(r, first, last).len()),
        ),
        spec_encode_record(r, first, last).len() >= 12,
{
    reveal(spec_encode_record);
    reveal(spec_record_at);
    let e = spec_encode_record(r, first, last);
    let b = e + rest;
    let h = header_bytes(r, first, last);
    let pi = padded(r.id);
    let pt = padded(r.typ);
    let pd = padded(r.data);
    assert(e =~= h + pi + pt + pd);
    let tail = pi + pt + pd + rest;
    assert(b =~= h + tail);
    lemma_header_fields(r, first, last, tail);
    assert(b.skip(12) =~= pi + (pt + pd + rest));
    assert(spec_take(b, 12, 0) == Ok::<_, DimeFault>((b.subrange(12, 12), 12nat)));
    lemma_take_padded(b, 12, r.id, pt + pd + rest);
    let o2: nat = 12 + r.id.len() + spec_pad4(r.id.len());
    assert(pt + pd + rest =~= pt + (pd + rest));
    lemma_take_padded(b, o2, r.typ, pd + rest);
    let o3: nat = o2 + r.typ.len() + spec_pad4(r.typ.len());
    lemma_take_padded(b, o3, r.data, rest);
    let o4: nat = o3 + r.data.len() + spec_pad4(r.data.len());
    lemma_padded_prefix(r.id, Seq::empty());
    lemma_padded_prefix(r.typ, Seq::empty());
    lemma_padded_prefix(r.data, Seq::empty());
    assert(e.len() == o4);
}

proof fn lemma_decode_encode_from(recs: Seq<DimeRecordView>, i: int)
    requires
        0 <= i < recs.len(),
        forall|k: int| 0 <= k < recs.len() ==> dime_encodable(#[trigger] recs[k]),
        forall|k: int| 0 <= k < recs.len() - 1 ==> !(#[trigger] recs[k]).last,
    ensures
        spec_decode_from(encode_from(recs, i)) == Ok::<_, DimeFault>(flagged(recs).skip(i)),
    decreases recs.len() - i,
{
    let e = spec_encode_record(recs[i], mb_flag(recs, i), me_flag(recs, i));
    let rest = encode_from(recs, i + 1);
    lemma_record_roundtrip(recs[i], mb_flag(recs, i), me_flag(recs, i), rest);
    let b = encode_from(recs, i);
    assert(b == e + rest);
    assert(b.len() > 0);
    assert((e + rest).skip(e.len() as int) =~= rest);
    let rv = with_flags(recs[i], mb_flag(recs, i), me_flag(recs, i));
    assert(flagged(recs)[i] == rv);
    if i + 1 == recs.len() {
        assert(flagged(recs).skip(i) =~= seq![rv]);
    } else {
        assert(!rv.last);
        lemma_decode_encode_from(recs, i + 1);
        assert(flagged(recs).skip(i) =~= seq![rv] + flagged(recs).skip(i + 1));
    }
}

/// Decoding what `encode` wrote gives the records back, flagged MB on the
/// first and ME on the last, provided every length fits its field and no
/// record before the last carries ME (a reader stops at ME).
pub proof fn lemma_decode_encode(recs: Seq<DimeRecordView>)
    requires
        recs.len() > 0,
        forall|k: int| 0 <= k < recs.len() ==> dime_encodable(#[trigger] recs[k]),
        forall|k: int| 0 <= k < recs.len() - 1 ==> !(#[trigger] recs[k]).last,
    ensures
        spec_decode(spec_encode(recs)) == Ok::<_, DimeFault>(flagged(recs)),
{
    lemma_decode_encode_from(recs, 0);
    assert(flagged(recs).skip(0) =~= flagged(recs));
    let e = spec_encode_record(recs[0], mb_flag(recs, 0), me_flag(recs, 0));
    assert(spec_encode(recs).len() >= e.len());
}


/// `u8::to_ascii_lowercase`.
pub open spec fn lower_byte(b: u8) -> u8 {
    if 65 <= b && b <= 90 {
        (b + 32) as u8
    } else {
        b
    }
}

/// ASCII lower case of a byte string.
pub open spec fn lower_bytes(s: Seq<u8>) -> Seq<u8> {
    s.map_values(|b: u8| lower_byte(b))
}

pub fn lower_bytes_exec(s: &[u8]) -> (r: Vec<u8>)
    ensures
        r@ == lower_bytes(s@),
{
    let mut r: Vec<u8> = Vec::new();
    for i in 0..s.len()
        invariant
            r@ == lower_bytes(s@.take(i as int)),
    {
        let b = s[i];
        let l = if 65 <= b && b <= 90 {
            b + 32
        } else {
            b
        };
        r.push(l);
        assert(lower_bytes(s@.take(i + 1)) =~= lower_bytes(s@.take(i as int)).push(lower_byte(b)));
    }
    assert(s@.take(s@.len() as int) =~= s@);
    r
}

/// A record TYPE that names an image (or a generic binary or PDF part):
/// its lower-cased text mentions jpeg, jpg, jfif, `image/`,
/// octet-stream or pdf.
pub open spec fn is_image_type(typ: Seq<u8>) -> bool {
    let t = lower_bytes(typ);
    crate::text::seq_contains(t, ascii_bytes("jpeg"@)) || crate::text::seq_contains(
        t,
        ascii_bytes("jpg"@),
    ) || crate::text::seq_contains(t, ascii_bytes("jfif"@)) || crate::text::seq_contains(
        t,
        ascii_bytes("image/"@),
    ) || crate::text::seq_contains(t, ascii_bytes("octet-stream"@))
        || crate::text::seq_contains(t, ascii_bytes("pdf"@))
}

fn contains_ascii(t: &[u8], needle: &str) -> (r: bool)
    requires
        is_ascii_text(needle@),
    ensures
        r == crate::text::seq_contains(t@, ascii_bytes(needle@)),
{
    let n = ascii_str_bytes(needle);
    crate::text::contains_bytes(t, n.as_slice())
}

fn is_image_type_exec(typ: &[u8]) -> (r: bool)
    ensures
        r == is_image_type(typ@),
{
    let t = lower_bytes_exec(typ);
    proof {
        reveal_strlit("jpeg");
        reveal_strlit("jpg");
        reveal_strlit("jfif");
        reveal_strlit("image/");
        reveal_strlit("octet-stream");
        reveal_strlit("pdf");
    }
    contains_ascii(t.as_slice(), "jpeg") || contains_ascii(t.as_slice(), "jpg") || contains_ascii(
        t.as_slice(),
        "jfif",
    ) || contains_ascii(t.as_slice(), "image/") || contains_ascii(t.as_slice(), "octet-stream")
        || contains_ascii(t.as_slice(), "pdf")
}

/// One step of image collection: the first image-typed record starts the
/// image; untyped records continue it while the previous part had CF set.
pub open spec fn extract_step(st: (Seq<u8>, bool), r: DimeRecordView) -> (Seq<u8>, bool) {
    if is_image_type(r.typ) {
        if st.0.len() == 0 {
            (st.0 + r.data, r.chunked)
        } else {
            st
        }
    } else if st.1 && r.typ.len() == 0 {
        (st.0 + r.data, r.chunked)
    } else {
        st
    }
}

/// Image bytes collected from the records, and whether a continuation is due.
pub open spec fn extract_fold(recs: Seq<DimeRecordView>) -> (Seq<u8>, bool)
    decreases recs.len(),
{
    if recs.len() == 0 {
        (Seq::empty(), false)
    } else {
        extract_step(extract_fold(recs.drop_last()), recs.last())
    }
}

/// What `extract_image` gives: the image, or the decoding fault (`None`
/// when the message decoded but held no image bytes).
pub open spec fn spec_extract_image(bytes: Seq<u8>) -> core::result::Result<
    Seq<u8>,
    Option<DimeFault>,
> {
    match spec_decode(bytes) {
        Err(f) => Err(Some(f)),
        Ok(recs) => {
            let img = extract_fold(recs).0;
            if img.len() == 0 {
                Err(None)
            } else {
                Ok(img)
            }
        },
    }
}

/// Concatenate image records. Continuation records (CF) with empty TYPE/ID
/// are appended to the preceding image payload; a second CF-clear typed
/// image record is a separate part and is not glued on.
pub fn extract_image(bytes: &[u8]) -> (r: Result<Vec<u8>>)
    ensures
        r matches Ok(img) ==> spec_extract_image(bytes@) == Ok::<_, Option<DimeFault>>(img@),
        r is Err <==> spec_extract_image(bytes@) is Err,
        r matches Err(e) ==> e matches Error::Protocol(m) && m@ == (match spec_extract_image(
            bytes@,
        ) {
            Err(Some(f)) => dime_fault_text(f),
            _ => "DIME message had no image part (expected image/jpeg after the SOAP record)"@,
        }),
{
    let recs = decode(bytes)?;
    let ghost rv = record_views(recs@);
    let mut image: Vec<u8> = Vec::new();
    let mut collecting = false;
    let mut i: usize = 0;
    while i < recs.len()
        invariant
            i <= recs@.len(),
            rv == record_views(recs@),
            (image@, collecting) == extract_fold(rv.take(i as int)),
        decreases recs@.len() - i,
    {
        let rec = &recs[i];
        assert(rv.take(i + 1).drop_last() =~= rv.take(i as int));
        assert(rv.take(i + 1).last() == rec@);
        if is_image_type_exec(rec.typ.as_slice()) {
            if image.len() == 0 {
                image.extend_from_slice(rec.data.as_slice());
                collecting = rec.chunked;
            }
        } else if collecting && rec.typ.len() == 0 {
            image.extend_from_slice(rec.data.as_slice());
            collecting = rec.chunked;
        }
        i = i + 1;
    }
    assert(rv.take(recs@.len() as int) =~= rv);
    if image.len() == 0 {
        return Err(
            Error::Protocol(
                String::from_str(
                    "DIME message had no image part (expected image/jpeg after the SOAP record)",
                ),
            ),
        );
    }
    Ok(image)
}

/// `s` cut into pieces of `c` bytes (the last may be shorter), as
/// `[u8]::chunks` does.
pub open spec fn chunks(s: Seq<u8>, c: nat) -> Seq<Seq<u8>>
    decreases s.len(),
{
    if s.len() == 0 || c == 0 {
        Seq::empty()
    } else {
        let k = if c < s.len() {
            c
        } else {
            s.len()
        };
        seq![s.take(k as int)] + chunks(s.skip(k as int), c)
    }
}

/// The records `wrap_soap_and_jpeg_chunked` writes, before MB/ME flags.
pub open spec fn chunk_record(i: int, n: int, part: Seq<u8>) -> DimeRecordView {
    DimeRecordView {
        first: false,
        last: false,
        chunked: i + 1 != n,
        type_format: if i == 0 {
            TYPE_MEDIA
        } else {
            0
        },
        id: Seq::empty(),
        typ: if i == 0 {
            ascii_bytes("image/jpeg"@)
        } else {
            Seq::empty()
        },
        data: part,
    }
}

/// A media-typed record with no id and no flags.
pub open spec fn media_view(typ: Seq<u8>, data: Seq<u8>) -> DimeRecordView {
    DimeRecordView {
        first: false,
        last: false,
        chunked: false,
        type_format: TYPE_MEDIA,
        id: Seq::empty(),
        typ,
        data,
    }
}

/// The SOAP record, then the JPEG in `chunk`-byte pieces (at least 1 byte).
pub open spec fn chunked_records(soap: Seq<u8>, jpeg: Seq<u8>, chunk: nat) -> Seq<DimeRecordView> {
    let parts = chunks(
        jpeg,
        if chunk == 0 {
            1
        } else {
            chunk
        },
    );
    seq![media_view(ascii_bytes("text/xml"@), soap)] + Seq::new(
        parts.len(),
        |i: int| chunk_record(i, parts.len() as int, parts[i]),
    )
}

fn chunk_pieces(s: &[u8], c: usize) -> (r: Vec<Vec<u8>>)
    requires
        c > 0,
    ensures
        r@.map_values(|v: Vec<u8>| v@) == chunks(s@, c as nat),
{
    let mut parts: Vec<Vec<u8>> = Vec::new();
    let mut pos: usize = 0;
    assert(s@.skip(0) =~= s@);
    while pos < s.len()
        invariant
            c > 0,
            pos <= s@.len(),
            chunks(s@, c as nat) =~= parts@.map_values(|v: Vec<u8>| v@) + chunks(
                s@.skip(pos as int),
                c as nat,
            ),
        decreases s@.len() - pos,
    {
        let rest_len = s.len() - pos;
        let k = if c < rest_len {
            c
        } else {
            rest_len
        };
        let mut piece: Vec<u8> = Vec::new();
        piece.extend_from_slice(&s[pos..pos + k]);
        let ghost rest = s@.skip(pos as int);
        assert(piece@ =~= rest.take(k as int));
        assert(rest.skip(k as int) =~= s@.skip(pos + k));
        let ghost before = parts@.map_values(|v: Vec<u8>| v@);
        parts.push(piece);
        assert(parts@.map_values(|v: Vec<u8>| v@) =~= before.push(rest.take(k as int)));
        pos = pos + k;
    }
    assert(s@.skip(pos as int) =~= Seq::<u8>::empty());
    assert(parts@.map_values(|v: Vec<u8>| v@) + Seq::<Seq<u8>>::empty() =~= parts@.map_values(
        |v: Vec<u8>| v@,
    ));
    parts
}

/// SOAP record plus a JPEG split into CF continuation records.
#[verifier::spinoff_prover]
pub fn wrap_soap_and_jpeg_chunked(soap_xml: &[u8], jpeg: &[u8], chunk: usize) -> (r: Vec<u8>)
    ensures
        r@ == spec_encode(chunked_records(soap_xml@, jpeg@, chunk as nat)),
{
    let chunk = if chunk < 1 {
        1
    } else {
        chunk
    };
    let parts = chunk_pieces(jpeg, chunk);
    let ghost pv = parts@.map_values(|v: Vec<u8>| v@);
    let mut soap: Vec<u8> = Vec::new();
    soap.extend_from_slice(soap_xml);
    assert(soap@ =~= soap_xml@);
    let head = DimeRecord::media("text/xml", soap);
    proof {
        reveal_strlit("text/xml");
        reveal_strlit("image/jpeg");
        vstd::utf8::is_ascii_chars_encode_utf8("text/xml"@);
        assert("text/xml".spec_bytes() =~= ascii_bytes("text/xml"@));
    }
    let mut recs: Vec<DimeRecord> = Vec::new();
    recs.push(head);
    let n = parts.len();
    let mut i: usize = 0;
    let ghost target = chunked_records(soap_xml@, jpeg@, chunk as nat);
    assert(target.len() == n + 1);
    while i < n
        invariant
            n == parts@.len() == pv.len(),
            pv == parts@.map_values(|v: Vec<u8>| v@),
            chunk > 0,
            pv == chunks(jpeg@, chunk as nat),
            target == chunked_records(soap_xml@, jpeg@, chunk as nat),
            target.len() == n + 1,
            i <= n,
            recs@.len() == i + 1,
            forall|k: int| 0 <= k <= i ==> #[trigger] recs@[k]@ == target[k],
        decreases n - i,
    {
        let typ = if i == 0 {
            proof {
                reveal_strlit("image/jpeg");
            }
            ascii_str_bytes("image/jpeg")
        } else {
            Vec::new()
        };
        let mut data: Vec<u8> = Vec::new();
        data.extend_from_slice(parts[i].as_slice());
        assert(data@ =~= pv[i as int]);
        let rec = DimeRecord {
            first: false,
            last: false,
            chunked: i + 1 != n,
            type_format: if i == 0 {
                TYPE_MEDIA
            } else {
                0
            },
            id: Vec::new(),
            typ,
            data,
        };
        assert(rec@ =~= chunk_record(i as int, n as int, pv[i as int]));
        assert(target[i + 1] == chunk_record(i as int, n as int, pv[i as int]));
        let ghost before = recs@;
        recs.push(rec);
        assert(forall|k: int| 0 <= k <= i ==> recs@[k] == before[k]);
        i = i + 1;
    }
    assert(record_views(recs@) =~= target);
    encode(recs.as_slice())
}

/// Build a SOAP+JPEG DIME body the way this firmware does.
pub fn wrap_soap_and_jpeg(soap_xml: &[u8], jpeg: &[u8]) -> (r: Vec<u8>)
    ensures
        r@ == spec_encode(
            seq![
                media_view("text/xml".spec_bytes(), soap_xml@),
                media_view("image/jpeg".spec_bytes(), jpeg@),
            ],
        ),
{
    let mut a: Vec<u8> = Vec::new();
    a.extend_from_slice(soap_xml);
    let mut b: Vec<u8> = Vec::new();
    b.extend_from_slice(jpeg);
    assert(a@ =~= soap_xml@);
    assert(b@ =~= jpeg@);
    let mut recs: Vec<DimeRecord> = Vec::new();
    recs.push(DimeRecord::media("text/xml", a));
    recs.push(DimeRecord::media("image/jpeg", b));
    assert(record_views(recs@) =~= seq![
        media_view("text/xml".spec_bytes(), soap_xml@),
        media_view("image/jpeg".spec_bytes(), jpeg@),
    ]);
    encode(recs.as_slice())
}


/// The pieces glued back together.
pub open spec fn concat(ps: Seq<Seq<u8>>) -> Seq<u8>
    decreases ps.len(),
{
    if ps.len() == 0 {
        Seq::empty()
    } else {
        concat(ps.drop_last()) + ps.last()
    }
}

proof fn lemma_concat_front(x: Seq<u8>, ps: Seq<Seq<u8>>)
    ensures
        concat(seq![x] + ps) == x + concat(ps),
    decreases ps.len(),
{
    if ps.len() == 0 {
        assert(seq![x] + ps =~= seq![x]);
        assert((seq![x] + ps).drop_last() =~= Seq::<Seq<u8>>::empty());
        assert(concat(Seq::<Seq<u8>>::empty()) == Seq::<u8>::empty());
        assert((seq![x] + ps).last() == x);
        assert(Seq::<u8>::empty() + x =~= x);
        assert(x + concat(ps) =~= x);
    } else {
        assert((seq![x] + ps).drop_last() =~= seq![x] + ps.drop_last());
        assert((seq![x] + ps).last() == ps.last());
        lemma_concat_front(x, ps.drop_last());
        assert(x + concat(ps.drop_last()) + ps.last() =~= x + (concat(ps.drop_last()) + ps.last()));
    }
}

proof fn lemma_chunks(s: Seq<u8>, c: nat)
    requires
        c > 0,
    ensures
        concat(chunks(s, c)) == s,
        forall|i: int|
            0 <= i < chunks(s, c).len() ==> 0 < (#[trigger] chunks(s, c)[i]).len() <= s.len(),
    decreases s.len(),
{
    if s.len() > 0 {
        let k = if c < s.len() {
            c
        } else {
            s.len()
        };
        lemma_chunks(s.skip(k as int), c);
        lemma_concat_front(s.take(k as int), chunks(s.skip(k as int), c));
        assert(s.take(k as int) + s.skip(k as int) =~= s);
        let ps = chunks(s, c);
        assert forall|i: int| 0 <= i < ps.len() implies 0 < (#[trigger] ps[i]).len() <= s.len() by {
            if i > 0 {
                assert(ps[i] == chunks(s.skip(k as int), c)[i - 1]);
            }
        }
    } else {
        assert(concat(Seq::<Seq<u8>>::empty()) =~= s);
    }
}

proof fn lemma_no_occurrence(hay: Seq<u8>, needle: Seq<u8>)
    requires
        needle.len() > 0,
        forall|i: int| 0 <= i < hay.len() ==> hay[i] != needle[0],
    ensures
        !crate::text::seq_contains(hay, needle),
{
    if crate::text::seq_contains(hay, needle) {
        let i = choose|i: int| crate::text::occurs_at(hay, needle, i);
        assert(hay.subrange(i, i + needle.len())[0] == needle[0]);
    }
}

proof fn lemma_type_text_xml()
    ensures
        !is_image_type(ascii_bytes("text/xml"@)),
        !is_image_type(Seq::empty()),
        is_image_type(ascii_bytes("image/jpeg"@)),
{
    reveal_strlit("text/xml");
    reveal_strlit("image/jpeg");
    reveal_strlit("jpeg");
    reveal_strlit("jpg");
    reveal_strlit("jfif");
    reveal_strlit("image/");
    reveal_strlit("octet-stream");
    reveal_strlit("pdf");
    let t = lower_bytes(ascii_bytes("text/xml"@));
    assert(t.len() == 8);
    assert forall|i: int| 0 <= i < t.len() implies t[i] != 106 && t[i] != 105 && t[i] != 111
        && t[i] != 112 by {
        assert(ascii_bytes("text/xml"@)[i] == "text/xml"@[i] as u8);
    }
    lemma_no_occurrence(t, ascii_bytes("jpeg"@));
    lemma_no_occurrence(t, ascii_bytes("jpg"@));
    lemma_no_occurrence(t, ascii_bytes("jfif"@));
    lemma_no_occurrence(t, ascii_bytes("image/"@));
    lemma_no_occurrence(t, ascii_bytes("octet-stream"@));
    lemma_no_occurrence(t, ascii_bytes("pdf"@));
    let e = lower_bytes(Seq::<u8>::empty());
    lemma_no_occurrence(e, ascii_bytes("jpeg"@));
    lemma_no_occurrence(e, ascii_bytes("jpg"@));
    lemma_no_occurrence(e, ascii_bytes("jfif"@));
    lemma_no_occurrence(e, ascii_bytes("image/"@));
    lemma_no_occurrence(e, ascii_bytes("octet-stream"@));
    lemma_no_occurrence(e, ascii_bytes("pdf"@));
    let j = lower_bytes(ascii_bytes("image/jpeg"@));
    assert(j.subrange(0, 6) =~= ascii_bytes("image/"@));
    assert(crate::text::occurs_at(j, ascii_bytes("image/"@), 0));
}

#[verifier::spinoff_prover]
proof fn lemma_fold_chunked(soap: Seq<u8>, jpeg: Seq<u8>, chunk: nat, k: int)
    requires
        chunk > 0,
        1 <= k <= chunks(jpeg, chunk).len() + 1,
        forall|i: int|
            0 <= i < chunks(jpeg, chunk).len() ==> 0 < (#[trigger] chunks(jpeg, chunk)[i]).len(),
    ensures
        ({
            let parts = chunks(jpeg, chunk);
            let fr = flagged(chunked_records(soap, jpeg, chunk));
            extract_fold(fr.take(k)) == (
                concat(parts.take(k - 1)),
                if k == 1 {
                    false
                } else {
                    k - 1 < parts.len()
                },
            )
        }),
    decreases k,
{
    let parts = chunks(jpeg, chunk);
    let n = parts.len() as int;
    let recs = chunked_records(soap, jpeg, chunk);
    let fr = flagged(recs);
    lemma_type_text_xml();
    assert(fr.take(k).drop_last() =~= fr.take(k - 1));
    assert(fr.take(k).last() == fr[k - 1]);
    assert(fr[k - 1] == with_flags(recs[k - 1], mb_flag(recs, k - 1), me_flag(recs, k - 1)));
    if k == 1 {
        assert(fr.take(0) =~= Seq::<DimeRecordView>::empty());
        assert(fr[0].typ == ascii_bytes("text/xml"@));
        assert(parts.take(0) =~= Seq::<Seq<u8>>::empty());
        assert(extract_fold(fr.take(0)) == (Seq::<u8>::empty(), false));
        assert(extract_fold(fr.take(1)) == extract_step((Seq::<u8>::empty(), false), fr[0]));
        assert(!is_image_type(fr[0].typ));
        assert(extract_step((Seq::<u8>::empty(), false), fr[0]) == (Seq::<u8>::empty(), false));
        assert(concat(parts.take(0)) == Seq::<u8>::empty());
    } else {
        lemma_fold_chunked(soap, jpeg, chunk, k - 1);
        let r = fr[k - 1];
        assert(recs[k - 1] == chunk_record(k - 2, n, parts[k - 2]));
        assert(r.data == parts[k - 2]);
        assert(r.chunked == (k - 1 != n));
        assert(parts.take(k - 1).last() == parts[k - 2]);
        assert(parts.take(k - 1).drop_last() =~= parts.take(k - 2));
        let prev = extract_fold(fr.take(k - 1));
        assert(extract_fold(fr.take(k)) == extract_step(prev, r));
        if k == 2 {
            assert(parts.take(0) =~= Seq::<Seq<u8>>::empty());
            assert(r.typ == ascii_bytes("image/jpeg"@));
            assert(prev == (Seq::<u8>::empty(), false));
            assert(Seq::<u8>::empty() + parts[0] =~= parts[0]);
            assert(concat(parts.take(1)) == concat(parts.take(0)) + parts[0]);
            assert(concat(parts.take(1)) =~= parts[0]);
            assert(extract_step(prev, r) == (parts[0], 1 != n));
        } else {
            assert(r.typ =~= Seq::<u8>::empty());
            assert(!is_image_type(r.typ));
            assert(prev == (concat(parts.take(k - 2)), k - 2 < n));
            assert(concat(parts.take(k - 1)) == concat(parts.take(k - 2)) + parts[k - 2]);
        }
    }
}

/// What `wrap_soap_and_jpeg_chunked` writes, `extract_image` reads back:
/// the whole JPEG, for any chunk size, provided the JPEG is not empty and
/// both payloads fit the 32-bit length field.
pub proof fn lemma_extract_chunked(soap: Seq<u8>, jpeg: Seq<u8>, chunk: nat)
    requires
        jpeg.len() > 0,
        soap.len() < 0x1_0000_0000,
        jpeg.len() < 0x1_0000_0000,
    ensures
        spec_extract_image(spec_encode(chunked_records(soap, jpeg, chunk))) == Ok::<
            _,
            Option<DimeFault>,
        >(jpeg),
{
    let c: nat = if chunk == 0 {
        1
    } else {
        chunk
    };
    assert(chunked_records(soap, jpeg, chunk) == chunked_records(soap, jpeg, c));
    let parts = chunks(jpeg, c);
    lemma_chunks(jpeg, c);
    let recs = chunked_records(soap, jpeg, c);
    reveal_strlit("text/xml");
    reveal_strlit("image/jpeg");
    assert forall|k: int| 0 <= k < recs.len() implies dime_encodable(#[trigger] recs[k]) by {
        if k > 0 {
            assert(recs[k] == chunk_record(k - 1, parts.len() as int, parts[k - 1]));
        }
    }
    assert forall|k: int| 0 <= k < recs.len() - 1 implies !(#[trigger] recs[k]).last by {
        if k > 0 {
            assert(recs[k] == chunk_record(k - 1, parts.len() as int, parts[k - 1]));
        }
    }
    lemma_decode_encode(recs);
    lemma_fold_chunked(soap, jpeg, c, parts.len() + 1 as int);
    let fr = flagged(recs);
    assert(fr.take(parts.len() + 1 as int) =~= fr);
    assert(parts.take(parts.len() as int) =~= parts);
}


/// What `wrap_soap_and_jpeg` writes, `extract_image` reads back: the JPEG,
/// provided it is not empty and both payloads fit the 32-bit length field.
pub proof fn lemma_extract_plain(soap: Seq<u8>, jpeg: Seq<u8>)
    requires
        jpeg.len() > 0,
        soap.len() < 0x1_0000_0000,
        jpeg.len() < 0x1_0000_0000,
    ensures
        spec_extract_image(
            spec_encode(
                seq![
                    media_view("text/xml".spec_bytes(), soap),
                    media_view("image/jpeg".spec_bytes(), jpeg),
                ],
            ),
        ) == Ok::<_, Option<DimeFault>>(jpeg),
{
    reveal_strlit("text/xml");
    reveal_strlit("image/jpeg");
    vstd::utf8::is_ascii_chars_encode_utf8("text/xml"@);
    vstd::utf8::is_ascii_chars_encode_utf8("image/jpeg"@);
    assert("text/xml".spec_bytes() =~= ascii_bytes("text/xml"@));
    assert("image/jpeg".spec_bytes() =~= ascii_bytes("image/jpeg"@));
    let recs = seq![
        media_view("text/xml".spec_bytes(), soap),
        media_view("image/jpeg".spec_bytes(), jpeg),
    ];
    lemma_decode_encode(recs);
    lemma_type_text_xml();
    let fr = flagged(recs);
    assert(fr.drop_last() =~= seq![fr[0]]);
    assert(seq![fr[0]].drop_last() =~= Seq::<DimeRecordView>::empty());
    assert(fr[0].typ == ascii_bytes("text/xml"@));
    assert(!is_image_type(fr[0].typ));
    assert(extract_fold(Seq::<DimeRecordView>::empty()) == (Seq::<u8>::empty(), false));
    assert(seq![fr[0]].last() == fr[0]);
    assert(extract_fold(seq![fr[0]]) == extract_step((Seq::<u8>::empty(), false), fr[0]));
    assert(extract_fold(seq![fr[0]]) == (Seq::<u8>::empty(), false));
    assert(fr[1].typ == ascii_bytes("image/jpeg"@));
    assert(Seq::<u8>::empty() + jpeg =~= jpeg);
}

} // verus!
