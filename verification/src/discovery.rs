//! Reading Bonjour browse/resolve output and recognising this MFP.
//! The browsing itself (`dns-sd`, `mdns-sd`) is done by the caller.
use crate::model::{DiscoveredDevice, PRODUCT_SHORT};
use crate::probe::{last_index_of, strip_prefix_all, strip_prefix_all_exec};
use crate::text::{
    ascii_lower, chars_eq_str, chars_of, find_chars, find_from, lemma_find_from, lower_chars,
    occurs_at, parse_uint, parse_uint_chars, replace_all, replace_chars,
    seq_contains, split, split_chars, str_eq, string_from_chars, strip_suffix_all, strip_suffix_all_exec,
    trim, trim_chars, views,
};
use crate::xmlutil::{first_token, first_token_chars, string_views};
use vstd::prelude::*;

verus! {

/// Bonjour service types browsed for printers and scanners.
pub const SERVICES: [&'static str; 4] = [
    "_ipp._tcp.local.",
    "_scanner._tcp.local.",
    "_uscan._tcp.local.",
    "_uscans._tcp.local.",
];

/// A line without one trailing carriage return.
pub open spec fn strip_cr(l: Seq<char>) -> Seq<char> {
    if l.len() > 0 && l.last() == '\r' {
        l.drop_last()
    } else {
        l
    }
}

/// Each line without its trailing carriage return.
pub open spec fn strip_crs(p: Seq<Seq<char>>) -> Seq<Seq<char>>
    decreases p.len(),
{
    if p.len() == 0 {
        p
    } else {
        strip_crs(p.drop_last()).push(strip_cr(p.last()))
    }
}

/// `str::lines`: split at `\n` (a `\r` before it dropped); a final empty
/// line is not a line.
pub open spec fn spec_lines(s: Seq<char>) -> Seq<Seq<char>> {
    let p = split(s, '\n');
    let body = strip_crs(p.drop_last());
    if p.last().len() == 0 {
        body
    } else {
        body.push(p.last())
    }
}

/// The lines of a text.
#[verifier::spinoff_prover]
pub fn lines_of(s: &str) -> (r: Vec<Vec<char>>)
    ensures
        views(r@) == spec_lines(s@),
{
    let c = chars_of(s);
    let pieces = split_chars(c.as_slice(), '\n');
    proof {
        crate::text::lemma_split_len(s@, '\n');
    }
    let ghost p = split(s@, '\n');
    let n = pieces.len();
    let mut out: Vec<Vec<char>> = Vec::new();
    let mut k: usize = 0;
    while k + 1 < n
        invariant
            n == pieces@.len(),
            n >= 1,
            views(pieces@) == p,
            k + 1 <= n,
            views(out@) == strip_crs(p.take(k as int)),
        decreases n - k,
    {
        let piece = &pieces[k];
        assert(piece@ == p[k as int]);
        let mut line: Vec<char> = Vec::new();
        if piece.len() > 0 && piece[piece.len() - 1] == '\r' {
            line.extend_from_slice(&piece.as_slice()[0..piece.len() - 1]);
            assert(line@ =~= strip_cr(p[k as int]));
        } else {
            line.extend_from_slice(piece.as_slice());
            assert(line@ =~= strip_cr(p[k as int]));
        }
        let ghost before = views(out@);
        let ghost lv = line@;
        out.push(line);
        assert(views(out@) =~= before.push(lv));
        assert(p.take(k + 1).drop_last() =~= p.take(k as int));
        k = k + 1;
    }
    assert(p.take(k as int) =~= p.drop_last());
    let last = &pieces[n - 1];
    assert(last@ == p.last());
    if last.len() > 0 {
        let mut l: Vec<char> = Vec::new();
        l.extend_from_slice(last.as_slice());
        let ghost before = views(out@);
        let ghost lv = l@;
        out.push(l);
        assert(views(out@) =~= before.push(lv));
        assert(before == strip_crs(p.drop_last()));
        assert(lv == p.last());
        assert(p.last().len() > 0);
        assert(views(out@) == spec_lines(s@));
    } else {
        assert(views(out@) == strip_crs(p.drop_last()));
        assert(views(out@) == spec_lines(s@));
    }
    out
}

/// The instance name a browse line announces for `service`, if it is an
/// `Add` line with a usable name after the service type.
pub open spec fn browse_name(line: Seq<char>, service: Seq<char>) -> Option<Seq<char>> {
    if !seq_contains(line, "Add"@) {
        None
    } else {
        match find_from(line, service, 0) {
            None => None,
            Some(idx) => {
                let rest = trim(strip_prefix_all(trim(line.skip(idx + service.len())), "."@));
                if rest.len() == 0 || ascii_lower(rest) == "local"@ {
                    None
                } else {
                    Some(rest)
                }
            },
        }
    }
}

/// The distinct instance names of the first lines, in order of appearance.
pub open spec fn browse_names(lines: Seq<Seq<char>>, service: Seq<char>) -> Seq<Seq<char>>
    decreases lines.len(),
{
    if lines.len() == 0 {
        Seq::<Seq<char>>::empty()
    } else {
        let prev = browse_names(lines.drop_last(), service);
        match browse_name(lines.last(), service) {
            Some(n) => if prev.contains(n) {
                prev
            } else {
                prev.push(n)
            },
            None => prev,
        }
    }
}

fn browse_name_exec(line: &[char], service: &[char]) -> (r: Option<Vec<char>>)
    ensures
        match browse_name(line@, service@) {
            Some(n) => r matches Some(v) && v@ == n,
            None => r is None,
        },
{
    if !crate::text::contains_str(line, "Add") {
        return None;
    }
    let found = find_chars(line, service, 0);
    proof {
        let g: Option<int> = match found {
            Some(i) => Some(i as int),
            None => None,
        };
        lemma_find_from(line@, service@, 0int, g);
    }
    let idx = match found {
        Some(i) => i,
        None => {
            return None;
        },
    };
    assert(occurs_at(line@, service@, idx as int));
    let ll = line.len();
    let sl = service.len();
    assert(idx + sl <= ll);
    let start = idx + sl;
    let tail = &line[start..line.len()];
    assert(tail@ =~= line@.skip(start as int));
    let t1 = trim_chars(tail);
    let t2 = strip_prefix_all_exec(t1.as_slice(), ".");
    let rest = trim_chars(t2.as_slice());
    let low = lower_chars(rest.as_slice());
    if rest.len() == 0 || chars_eq_str(low.as_slice(), "local") {
        return None;
    }
    Some(rest)
}

/// Parse `dns-sd -B` lines for instance names of `service` (e.g. `_uscan._tcp`).
#[verifier::spinoff_prover]
pub fn parse_browse_instances(output: &str, service: &str) -> (r: Vec<String>)
    ensures
        string_views(r@) == browse_names(spec_lines(output@), service@),
{
    let lines = lines_of(output);
    let svc = chars_of(service);
    let ghost ls = views(lines@);
    let mut names: Vec<Vec<char>> = Vec::new();
    let mut k: usize = 0;
    while k < lines.len()
        invariant
            ls == views(lines@),
            ls == spec_lines(output@),
            svc@ == service@,
            k <= lines@.len(),
            views(names@) == browse_names(ls.take(k as int), service@),
        decreases lines@.len() - k,
    {
        assert(ls.take(k + 1).drop_last() =~= ls.take(k as int));
        assert(ls.take(k + 1).last() == lines@[k as int]@);
        match browse_name_exec(lines[k].as_slice(), svc.as_slice()) {
            Some(n) => {
                let ghost prev = views(names@);
                let mut seen = false;
                let mut j: usize = 0;
                while j < names.len()
                    invariant
                        prev == views(names@),
                        j <= names@.len(),
                        seen <==> exists|m: int| 0 <= m < j && #[trigger] prev[m] == n@,
                    decreases names@.len() - j,
                {
                    assert(names@[j as int]@ == prev[j as int]);
                    if crate::text::chars_eq(names[j].as_slice(), n.as_slice()) {
                        seen = true;
                        assert(prev[j as int] == n@);
                    }
                    j = j + 1;
                }
                if !seen {
                    names.push(n);
                    assert(views(names@) =~= prev.push(n@));
                } else {
                    assert(prev.contains(n@));
                }
            },
            None => {},
        }
        k = k + 1;
    }
    assert(ls.take(ls.len() as int) =~= ls);
    let mut out: Vec<String> = Vec::new();
    let mut i: usize = 0;
    while i < names.len()
        invariant
            i <= names@.len(),
            string_views(out@) == views(names@).take(i as int),
        decreases names@.len() - i,
    {
        let ghost before = string_views(out@);
        let t = string_from_chars(names[i].as_slice());
        let ghost tv = t@;
        out.push(t);
        assert(string_views(out@) =~= before.push(tv));
        assert(views(names@).take(i + 1) =~= views(names@).take(i as int).push(names@[i as int]@));
        i = i + 1;
    }
    assert(views(names@).take(names@.len() as int) =~= views(names@));
    out
}

/// The host and port `dns-sd -L` reports after `can be reached at `.
pub open spec fn spec_resolve(output: Seq<char>) -> Option<(Seq<char>, nat)> {
    let marker = "can be reached at "@;
    match find_from(output, marker, 0) {
        None => None,
        Some(pos) => {
            let token = first_token(output.skip(pos + marker.len()));
            if token.len() == 0 {
                None
            } else {
                let t = strip_suffix_all(token, "."@);
                match last_index_of(t, ':') {
                    None => None,
                    Some(i) => {
                        let host = strip_suffix_all(t.take(i), "."@);
                        match parse_uint(t.skip(i + 1), 0xffff) {
                            None => None,
                            Some(port) => if host.len() == 0 {
                                None
                            } else {
                                Some((host, port))
                            },
                        }
                    },
                }
            }
        },
    }
}

/// Parse `dns-sd -L` output (`can be reached at host.:port`).
#[verifier::spinoff_prover]
pub fn parse_resolve_host_port(output: &str) -> (r: Option<(String, u16)>)
    ensures
        match spec_resolve(output@) {
            Some((h, p)) => r matches Some((rh, rp)) && rh@ == h && rp as nat == p,
            None => r is None,
        },
{
    let c = chars_of(output);
    let marker = chars_of("can be reached at ");
    let found = find_chars(c.as_slice(), marker.as_slice(), 0);
    proof {
        let g: Option<int> = match found {
            Some(i) => Some(i as int),
            None => None,
        };
        lemma_find_from(c@, marker@, 0int, g);
    }
    let pos = match found {
        Some(p) => p,
        None => {
            return None;
        },
    };
    assert(occurs_at(c@, marker@, pos as int));
    let cl = c.len();
    let ml = marker.len();
    assert(pos + ml <= cl);
    let start = pos + ml;
    let after = &c[start..c.len()];
    assert(after@ =~= c@.skip(start as int));
    let token = first_token_chars(after);
    if token.len() == 0 {
        return None;
    }
    let t = strip_suffix_all_exec(token.as_slice(), ".");
    let mut k: usize = t.len();
    assert(t@.take(k as int) =~= t@);
    while k > 0 && t[k - 1] != ':'
        invariant
            k <= t@.len(),
            last_index_of(t@, ':') == last_index_of(t@.take(k as int), ':'),
        decreases k,
    {
        assert(t@.take(k as int).drop_last() =~= t@.take(k - 1));
        k = k - 1;
    }
    if k == 0 {
        return None;
    }
    let i = k - 1;
    assert(last_index_of(t@.take(k as int), ':') == Some(i as int));
    let host = strip_suffix_all_exec(&t[0..i], ".");
    assert(t@.subrange(0, i as int) =~= t@.take(i as int));
    let port_text = &t[k..t.len()];
    assert(port_text@ =~= t@.skip(i + 1));
    let port = match parse_uint_chars(port_text, 0xffff) {
        Some(p) => p as u16,
        None => {
            return None;
        },
    };
    if host.len() == 0 {
        return None;
    }
    Some((string_from_chars(host.as_slice()), port))
}

/// `dns-sd` escapes spaces in instance names as `\032` or `\ `.
pub open spec fn spec_unescape(name: Seq<char>) -> Seq<char> {
    replace_all(replace_all(name, "\\032"@, " "@), "\\ "@, " "@)
}

pub fn unescape_dnssd(name: &str) -> (r: String)
    ensures
        r@ == spec_unescape(name@),
{
    let c = chars_of(name);
    let a = replace_chars(c.as_slice(), chars_of("\\032").as_slice(), chars_of(" ").as_slice());
    let b = replace_chars(a.as_slice(), chars_of("\\ ").as_slice(), chars_of(" ").as_slice());
    string_from_chars(b.as_slice())
}

/// A service type as `dns-sd` wants it: without `.local.` and trailing dots.
pub open spec fn spec_dns_sd_type(svc: Seq<char>) -> Seq<char> {
    strip_suffix_all(strip_suffix_all(svc, ".local."@), "."@)
}

pub fn dns_sd_type(svc: &str) -> (r: String)
    ensures
        r@ == spec_dns_sd_type(svc@),
{
    let c = chars_of(svc);
    let a = strip_suffix_all_exec(c.as_slice(), ".local.");
    let b = strip_suffix_all_exec(a.as_slice(), ".");
    string_from_chars(b.as_slice())
}

/// The instance part of a full mDNS service name (before the first `._`),
/// with `\032` read as a space.
pub open spec fn spec_instance_name(full: Seq<char>) -> Seq<char> {
    let head = match find_from(full, "._"@, 0) {
        Some(i) => full.take(i),
        None => full,
    };
    replace_all(head, "\\032"@, " "@)
}

pub fn mdns_instance_name(full: &str) -> (r: String)
    ensures
        r@ == spec_instance_name(full@),
{
    let c = chars_of(full);
    let sep = chars_of("._");
    let found = find_chars(c.as_slice(), sep.as_slice(), 0);
    proof {
        let g: Option<int> = match found {
            Some(i) => Some(i as int),
            None => None,
        };
        lemma_find_from(c@, sep@, 0int, g);
    }
    let head: Vec<char> = match found {
        Some(i) => {
            let mut h: Vec<char> = Vec::new();
            h.extend_from_slice(&c[0..i]);
            assert(h@ =~= c@.take(i as int));
            h
        },
        None => c,
    };
    let out = replace_chars(head.as_slice(), chars_of("\\032").as_slice(), chars_of(" ").as_slice());
    string_from_chars(out.as_slice())
}

/// Name or host mentions the M177 (any case).
pub open spec fn spec_likely_m177(name: Seq<char>, host: Seq<char>) -> bool {
    let blob = ascii_lower(name + " "@ + host);
    seq_contains(blob, "m177"@) || seq_contains(blob, ascii_lower(PRODUCT_SHORT@))
}

pub fn likely_m177(d: &DiscoveredDevice) -> (r: bool)
    ensures
        r == spec_likely_m177(d.name@, d.host@),
{
    let mut blob = String::new();
    blob.append(d.name.as_str());
    blob.append(" ");
    blob.append(d.host.as_str());
    let c = chars_of(blob.as_str());
    let low = lower_chars(c.as_slice());
    let short = lower_chars(chars_of(PRODUCT_SHORT).as_slice());
    crate::text::contains_str(low.as_slice(), "m177") || crate::text::contains_chars(
        low.as_slice(),
        short.as_slice(),
    )
}

/// The (service, instance) pairs seen so far, as text.
pub open spec fn pair_views(v: Seq<(String, String)>) -> Seq<(Seq<char>, Seq<char>)> {
    v.map_values(|p: (String, String)| (p.0@, p.1@))
}

/// `names` after adding each of `insts` under `svc`, skipping pairs already
/// there.
pub open spec fn spec_merge_instances(
    names: Seq<(Seq<char>, Seq<char>)>,
    svc: Seq<char>,
    insts: Seq<Seq<char>>,
) -> Seq<(Seq<char>, Seq<char>)>
    decreases insts.len(),
{
    if insts.len() == 0 {
        names
    } else {
        let prev = spec_merge_instances(names, svc, insts.drop_last());
        if prev.contains((svc, insts.last())) {
            prev
        } else {
            prev.push((svc, insts.last()))
        }
    }
}

fn has_pair(names: &Vec<(String, String)>, svc: &str, inst: &str) -> (r: bool)
    ensures
        r == pair_views(names@).contains((svc@, inst@)),
{
    let ghost pv = pair_views(names@);
    let mut i: usize = 0;
    while i < names.len()
        invariant
            i <= names.len(),
            pv == pair_views(names@),
            forall|j: int| 0 <= j < i ==> pv[j] != (svc@, inst@),
        decreases names.len() - i,
    {
        if str_eq(names[i].0.as_str(), svc) && str_eq(names[i].1.as_str(), inst) {
            assert(pv[i as int] == (svc@, inst@));
            return true;
        }
        i = i + 1;
    }
    false
}

/// Record the instances one browse poll of `svc` reported, each pair once,
/// in the order first seen.
pub fn merge_instances(names: &mut Vec<(String, String)>, svc: &str, instances: Vec<String>)
    ensures
        pair_views(final(names)@) == spec_merge_instances(
            pair_views(old(names)@),
            svc@,
            string_views(instances@),
        ),
{
    let ghost start = pair_views(names@);
    let ghost iv = string_views(instances@);
    let mut i: usize = 0;
    while i < instances.len()
        invariant
            i <= instances.len(),
            iv == string_views(instances@),
            pair_views(names@) == spec_merge_instances(start, svc@, iv.take(i as int)),
        decreases instances.len() - i,
    {
        assert(iv.take(i + 1).drop_last() =~= iv.take(i as int));
        assert(iv.take(i + 1).last() == instances@[i as int]@);
        if !has_pair(names, svc, instances[i].as_str()) {
            let pair = (String::from_str(svc), instances[i].clone());
            names.push(pair);
            assert(pair_views(names@) =~= spec_merge_instances(start, svc@, iv.take(i as int)).push(
                (svc@, instances@[i as int]@),
            ));
        }
        i = i + 1;
    }
    assert(iv.take(instances.len() as int) =~= iv);
}

/// A discovered device as text: name, host, service, port.
pub open spec fn device_view(d: DiscoveredDevice) -> (Seq<char>, Seq<char>, Seq<char>, u16) {
    (d.name@, d.host@, d.service@, d.port)
}

pub open spec fn device_views(v: Seq<DiscoveredDevice>) -> Seq<(Seq<char>, Seq<char>, Seq<char>, u16)> {
    v.map_values(|d: DiscoveredDevice| device_view(d))
}

/// `found` after one instance was resolved: a resolved device is added
/// unless one with the same name, service and host is listed; one that did
/// not resolve is listed with an empty host and port 0.
pub open spec fn spec_add_resolved(
    found: Seq<(Seq<char>, Seq<char>, Seq<char>, u16)>,
    svc: Seq<char>,
    inst: Seq<char>,
    resolved: Option<(Seq<char>, u16)>,
) -> Seq<(Seq<char>, Seq<char>, Seq<char>, u16)> {
    let name = spec_unescape(inst);
    match resolved {
        Some((h, p)) => if exists|i: int|
            0 <= i < found.len() && (#[trigger] found[i]).0 == name && found[i].2 == svc
                && found[i].1 == h {
            found
        } else {
            found.push((name, h, svc, p))
        },
        None => found.push((name, Seq::empty(), svc, 0u16)),
    }
}

/// Add the device that resolving `instance` of `svc` gave (see
/// `spec_add_resolved`).
#[verifier::spinoff_prover]
pub fn add_resolved(
    found: &mut Vec<DiscoveredDevice>,
    svc: &str,
    instance: &str,
    resolved: Option<(String, u16)>,
)
    ensures
        device_views(final(found)@) == spec_add_resolved(
            device_views(old(found)@),
            svc@,
            instance@,
            match resolved {
                Some((h, p)) => Some((h@, p)),
                None => None,
            },
        ),
{
    let ghost fv = device_views(found@);
    let name = unescape_dnssd(instance);
    match resolved {
        Some((host, port)) => {
            let mut i: usize = 0;
            while i < found.len()
                invariant
                    i <= found.len(),
                    fv == device_views(found@),
                    found@ == old(found)@,
                    name@ == spec_unescape(instance@),
                    resolved == Some((host, port)),
                    forall|j: int|
                        0 <= j < i ==> !((#[trigger] fv[j]).0 == name@ && fv[j].2 == svc@
                            && fv[j].1 == host@),
                decreases found.len() - i,
            {
                if str_eq(found[i].name.as_str(), name.as_str()) && str_eq(
                    found[i].service.as_str(),
                    svc,
                ) && str_eq(found[i].host.as_str(), host.as_str()) {
                    assert(fv[i as int].0 == name@ && fv[i as int].2 == svc@ && fv[i as int].1
                        == host@);
                    assert(spec_add_resolved(fv, svc@, instance@, Some((host@, port))) == fv);
                    return;
                }
                i = i + 1;
            }
            let dev = DiscoveredDevice { name, host, service: String::from_str(svc), port };
            found.push(dev);
            assert(device_views(found@) =~= fv.push((spec_unescape(instance@), host@, svc@, port)));
        },
        None => {
            let dev = DiscoveredDevice {
                name,
                host: String::new(),
                service: String::from_str(svc),
                port: 0,
            };
            found.push(dev);
            assert(device_views(found@) =~= fv.push(
                (spec_unescape(instance@), Seq::empty(), svc@, 0u16),
            ));
        },
    }
}

/// `found` after an mDNS resolution of `fullname` on `hostname:port` for
/// `svc`: the device is added unless one with the same host and service is
/// listed.
pub open spec fn spec_add_mdns(
    found: Seq<(Seq<char>, Seq<char>, Seq<char>, u16)>,
    svc: Seq<char>,
    fullname: Seq<char>,
    hostname: Seq<char>,
    port: u16,
) -> Seq<(Seq<char>, Seq<char>, Seq<char>, u16)> {
    let host = strip_suffix_all(hostname, "."@);
    if exists|i: int| 0 <= i < found.len() && (#[trigger] found[i]).1 == host && found[i].2 == svc {
        found
    } else {
        found.push((spec_instance_name(fullname), host, svc, port))
    }
}

/// Add what one mDNS resolution reported (see `spec_add_mdns`).
pub fn add_mdns_resolved(
    found: &mut Vec<DiscoveredDevice>,
    svc: &str,
    fullname: &str,
    hostname: &str,
    port: u16,
)
    ensures
        device_views(final(found)@) == spec_add_mdns(
            device_views(old(found)@),
            svc@,
            fullname@,
            hostname@,
            port,
        ),
{
    let ghost fv = device_views(found@);
    let hc = chars_of(hostname);
    let hv = strip_suffix_all_exec(hc.as_slice(), ".");
    let host = string_from_chars(hv.as_slice());
    let mut i: usize = 0;
    while i < found.len()
        invariant
            i <= found.len(),
            fv == device_views(found@),
            found@ == old(found)@,
            host@ == strip_suffix_all(hostname@, "."@),
            forall|j: int| 0 <= j < i ==> !((#[trigger] fv[j]).1 == host@ && fv[j].2 == svc@),
        decreases found.len() - i,
    {
        if str_eq(found[i].host.as_str(), host.as_str()) && str_eq(found[i].service.as_str(), svc) {
            assert(fv[i as int].1 == host@ && fv[i as int].2 == svc@);
            assert(spec_add_mdns(fv, svc@, fullname@, hostname@, port) == fv);
            return;
        }
        i = i + 1;
    }
    let name = mdns_instance_name(fullname);
    let dev = DiscoveredDevice { name, host, service: String::from_str(svc), port };
    found.push(dev);
    assert(device_views(found@) =~= fv.push((spec_instance_name(fullname@), strip_suffix_all(hostname@, "."@), svc@, port)));
}

} // verus!
