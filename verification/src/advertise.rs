//! What the local eSCL bridge advertises over Bonjour (`_uscan._tcp`).
//! Starting the responder (`dns-sd -R` or `mdns-sd`) is the caller's part.
use crate::model::PRODUCT_NAME;
use crate::probe::strip_prefix_all;
use crate::text::{chars_of, string_from_chars, strip_suffix_all, strip_suffix_all_exec, trim, trim_chars};
use vstd::prelude::*;

verus! {

/// The TXT note that names the bridge.
pub const TXT_NOTE: &'static str = "hp-m177 local AirScan bridge";

/// The AirScan TXT records for a scanner whose make/model is `ty`.
pub open spec fn spec_txt_records(ty: Seq<char>) -> Seq<(Seq<char>, Seq<char>)> {
    seq![
        ("txtvers"@, "1"@),
        ("vers"@, "2.63"@),
        ("rs"@, "eSCL"@),
        ("ty"@, ty),
        ("pdl"@, "image/jpeg,application/pdf"@),
        ("cs"@, "color,grayscale"@),
        ("is"@, "platen,adf"@),
        ("duplex"@, "F"@),
    ]
}

/// The texts of static (key, value) pairs.
pub open spec fn static_pairs(v: Seq<(&'static str, &'static str)>) -> Seq<(Seq<char>, Seq<char>)> {
    v.map_values(|p: (&'static str, &'static str)| (p.0@, p.1@))
}

/// The AirScan TXT records with make/model `ty`.
pub fn txt_records_for(ty: &'static str) -> (r: Vec<(&'static str, &'static str)>)
    ensures
        static_pairs(r@) == spec_txt_records(ty@),
{
    let mut v: Vec<(&'static str, &'static str)> = Vec::new();
    v.push(("txtvers", "1"));
    v.push(("vers", "2.63"));
    v.push(("rs", "eSCL"));
    v.push(("ty", ty));
    v.push(("pdl", "image/jpeg,application/pdf"));
    v.push(("cs", "color,grayscale"));
    v.push(("is", "platen,adf"));
    v.push(("duplex", "F"));
    assert(static_pairs(v@) =~= spec_txt_records(ty@));
    v
}

/// TXT records the advertisement is supposed to publish. Tests assert this
/// table rather than re-implementing Bonjour.
pub fn uscan_txt_records() -> (r: Vec<(&'static str, &'static str)>)
    ensures
        static_pairs(r@) == spec_txt_records(PRODUCT_NAME@),
{
    txt_records_for(PRODUCT_NAME)
}

/// The mDNS host name for a machine name: trimmed, trailing dots dropped,
/// then `.local.` appended unless it already ends in `.local` (then `.`).
pub open spec fn spec_mdns_host(raw: Seq<char>) -> Seq<char> {
    let r = strip_suffix_all(trim(raw), "."@);
    if r.len() >= 6 && r.skip(r.len() - 6) == ".local"@ {
        r + "."@
    } else {
        r + ".local."@
    }
}

pub fn mdns_host_name(raw: &str) -> (r: String)
    ensures
        r@ == spec_mdns_host(raw@),
{
    let c = chars_of(raw);
    let t = trim_chars(c.as_slice());
    let r = strip_suffix_all_exec(t.as_slice(), ".");
    let suffix = chars_of(".local");
    let ends = r.len() >= 6 && crate::text::chars_at(r.as_slice(), suffix.as_slice(), r.len() - 6);
    proof {
        reveal_strlit(".local");
        if r@.len() >= 6 {
            assert(r@.skip(r@.len() - 6) =~= r@.subrange(r@.len() - 6, r@.len() as int));
        }
    }
    assert(ends == (r@.len() >= 6 && r@.skip(r@.len() - 6) == ".local"@));
    let mut s = string_from_chars(r.as_slice());
    if ends {
        s.append(".");
    } else {
        s.append(".local.");
    }
    s
}

} // verus!
