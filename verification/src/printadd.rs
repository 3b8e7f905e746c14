//! The optional AirPrint/CUPS add-printer helper's rules: read the queues
//! `lpstat -v` lists and decide whether this MFP already has one. Running
//! `lpstat`/`lpadmin` is the caller's part.
use crate::discovery::{lines_of, spec_lines};
use crate::probe::{before_char, before_char_exec};
use crate::text::{
    ascii_lower, chars_of, contains_str, lower_chars, seq_contains, string_from_chars, trim,
    trim_chars, views,
};
use vstd::prelude::*;

verus! {

/// The CUPS queue name the helper creates.
pub const QUEUE: &'static str = "HP_Color_LaserJet_Pro_MFP_M177fw";

/// A CUPS queue: its name and device URI.
#[derive(Debug, Clone)]
pub struct QueueInfo {
    pub name: String,
    pub uri: String,
}

/// `device for NAME: URI` read as (trimmed name, trimmed URI).
pub open spec fn lpstat_entry(line: Seq<char>) -> Option<(Seq<char>, Seq<char>)> {
    let prefix = "device for "@;
    if line.len() >= prefix.len() && line.take(prefix.len() as int) == prefix {
        let rest = line.skip(prefix.len() as int);
        let name = before_char(rest, ':');
        if name.len() < rest.len() {
            Some((trim(name), trim(rest.skip(name.len() + 1int))))
        } else {
            None
        }
    } else {
        None
    }
}

/// The queues of the first lines of `lpstat -v` output, in order.
pub open spec fn lpstat_entries(lines: Seq<Seq<char>>) -> Seq<(Seq<char>, Seq<char>)>
    decreases lines.len(),
{
    if lines.len() == 0 {
        Seq::empty()
    } else {
        match lpstat_entry(lines.last()) {
            Some(e) => lpstat_entries(lines.drop_last()).push(e),
            None => lpstat_entries(lines.drop_last()),
        }
    }
}

/// The texts of (name, URI) pairs.
pub open spec fn pair_views(v: Seq<(String, String)>) -> Seq<(Seq<char>, Seq<char>)> {
    v.map_values(|p: (String, String)| (p.0@, p.1@))
}

proof fn lemma_before_char_len(s: Seq<char>, c: char)
    ensures
        before_char(s, c).len() <= s.len(),
        before_char(s, c).len() < s.len() ==> s[before_char(s, c).len() as int] == c,
        before_char(s, c) == s.take(before_char(s, c).len() as int),
    decreases s.len(),
{
    if s.len() > 0 && s[0] != c {
        lemma_before_char_len(s.drop_first(), c);
        assert(before_char(s, c) =~= seq![s[0]] + before_char(s.drop_first(), c));
        assert(s.take(before_char(s, c).len() as int) =~= seq![s[0]] + s.drop_first().take(
            before_char(s.drop_first(), c).len() as int,
        ));
    } else if s.len() > 0 {
        assert(s.take(0) =~= Seq::<char>::empty());
    }
}

fn lpstat_entry_exec(line: &[char]) -> (r: Option<(String, String)>)
    ensures
        match lpstat_entry(line@) {
            Some((n, u)) => r matches Some((rn, ru)) && rn@ == n && ru@ == u,
            None => r is None,
        },
{
    let prefix = chars_of("device for ");
    if !crate::text::chars_at(line, prefix.as_slice(), 0) {
        proof {
            if line@.len() >= prefix@.len() && line@.take(prefix@.len() as int) == prefix@ {
                assert(line@.subrange(0, prefix@.len() as int) =~= line@.take(
                    prefix@.len() as int,
                ));
            }
        }
        return None;
    }
    assert(line@.subrange(0, prefix@.len() as int) =~= line@.take(prefix@.len() as int));
    let rest = &line[prefix.len()..line.len()];
    assert(rest@ =~= line@.skip(prefix@.len() as int));
    let name = before_char_exec(rest, ':');
    proof {
        lemma_before_char_len(rest@, ':');
    }
    if name.len() >= rest.len() {
        return None;
    }
    let after = &rest[name.len() + 1..rest.len()];
    assert(after@ =~= rest@.skip(name@.len() + 1int));
    let n = trim_chars(name.as_slice());
    let u = trim_chars(after);
    Some((string_from_chars(n.as_slice()), string_from_chars(u.as_slice())))
}

/// Parse `lpstat -v` text into (queue name, device URI) pairs.
pub fn parse_lpstat_v(text: &str) -> (r: Vec<(String, String)>)
    ensures
        pair_views(r@) == lpstat_entries(spec_lines(text@)),
{
    let lines = lines_of(text);
    let ghost ls = views(lines@);
    let mut queues: Vec<(String, String)> = Vec::new();
    let mut k: usize = 0;
    while k < lines.len()
        invariant
            ls == views(lines@),
            ls == spec_lines(text@),
            k <= lines@.len(),
            pair_views(queues@) == lpstat_entries(ls.take(k as int)),
        decreases lines@.len() - k,
    {
        assert(ls.take(k + 1).drop_last() =~= ls.take(k as int));
        assert(ls.take(k + 1).last() == lines@[k as int]@);
        match lpstat_entry_exec(lines[k].as_slice()) {
            Some(e) => {
                let ghost before = pair_views(queues@);
                let ghost ev = (e.0@, e.1@);
                queues.push(e);
                assert(pair_views(queues@) =~= before.push(ev));
            },
            None => {},
        }
        k = k + 1;
    }
    assert(ls.take(ls.len() as int) =~= ls);
    queues
}

/// A queue whose name or URI mentions the M177 (or its Bonjour id 26BA77).
pub open spec fn spec_looks_like_m177(name: Seq<char>, uri: Seq<char>) -> bool {
    let blob = ascii_lower(name + " "@ + uri);
    seq_contains(blob, "m177"@) || seq_contains(blob, "26ba77"@) || seq_contains(
        blob,
        "color_laserjet_pro_mfp_m177"@,
    )
}

pub fn looks_like_m177(q: &QueueInfo) -> (r: bool)
    ensures
        r == spec_looks_like_m177(q.name@, q.uri@),
{
    let mut blob = String::new();
    blob.append(q.name.as_str());
    blob.append(" ");
    blob.append(q.uri.as_str());
    let low = lower_chars(chars_of(blob.as_str()).as_slice());
    contains_str(low.as_slice(), "m177") || contains_str(low.as_slice(), "26ba77")
        || contains_str(low.as_slice(), "color_laserjet_pro_mfp_m177")
}

/// The first listed queue that is this MFP's.
pub open spec fn first_m177(qs: Seq<(Seq<char>, Seq<char>)>) -> Option<Seq<char>>
    decreases qs.len(),
{
    if qs.len() == 0 {
        None
    } else if spec_looks_like_m177(qs[0].0, qs[0].1) {
        Some(qs[0].0)
    } else {
        first_m177(qs.drop_first())
    }
}

/// The queue to leave in place, if `lpstat -v` already lists this MFP.
pub fn existing_m177_queue(queues: &[(String, String)]) -> (r: Option<String>)
    ensures
        crate::xmlutil::opt_view(r) == first_m177(pair_views(queues@)),
{
    let ghost qv = pair_views(queues@);
    let mut i: usize = 0;
    assert(qv.skip(0) =~= qv);
    while i < queues.len()
        invariant
            qv == pair_views(queues@),
            i <= queues@.len(),
            first_m177(qv) == first_m177(qv.skip(i as int)),
        decreases queues@.len() - i,
    {
        let q = QueueInfo { name: queues[i].0.clone(), uri: queues[i].1.clone() };
        assert(qv.skip(i as int)[0] == qv[i as int]);
        assert(qv.skip(i as int).drop_first() =~= qv.skip(i + 1));
        if looks_like_m177(&q) {
            return Some(q.name);
        }
        i = i + 1;
    }
    None
}

/// The IPP Everywhere device URI for `host`.
pub open spec fn spec_printer_uri(host: Seq<char>) -> Seq<char> {
    "ipp://"@ + host + "/ipp/print"@
}

pub fn printer_uri(host: &str) -> (r: String)
    ensures
        r@ == spec_printer_uri(host@),
{
    let mut s = String::from_str("ipp://");
    s.append(host);
    s.append("/ipp/print");
    s
}

} // verus!
