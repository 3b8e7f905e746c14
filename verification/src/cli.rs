//! Command-line model and the add/scan decisions that the CLI and the GUI
//! share. Argument parsing, printing and file writes live with the binary.
use crate::error::{Error, Result};
use crate::discovery::{likely_m177, spec_likely_m177};
use crate::model::{
    spec_color_label, spec_color_mode, spec_into_device_fields, spec_output_format,
    spec_scan_region, spec_scan_source, spec_source_label, unknown_text, ColorMode, DeviceRecord,
    DiscoveredDevice, JobProtocol, OutputFormat, PrintAddOutcome, ProbeResult, ScanOutput,
    ScanRegion, ScanRequest, ScanSource, DEFAULT_ESCL_PORT, DEFAULT_SOAP_PORT,
};
use crate::probe::{probe_answered, probe_host_ports, spec_split_host_port, split_host_port};
use crate::store::{spec_upsert, Store};
use crate::text::{ascii_lower, decimal, decimal_string, trim};
use crate::transport::Transport;
use vstd::prelude::*;

verus! {

/// Parsed command line.
#[derive(Debug)]
pub struct Cli {
    pub cmd: Command,
}

/// One `hp-m177` subcommand with its options.
#[derive(Debug)]
pub enum Command {
    /// Browse LAN printer/scanner advertisements for `timeout` seconds.
    Discover { timeout: u64 },
    /// Probe a host and persist it as a scanner.
    Add { host: String, soap_port: Option<u16>, escl_port: Option<u16> },
    /// List the saved scanners.
    List,
    /// Run a scan on a saved scanner.
    Scan {
        source: String,
        color: String,
        dpi: u32,
        format: String,
        output: Option<std::path::PathBuf>,
        device: Option<String>,
        region: Option<String>,
    },
    /// Probe a host without saving it.
    Probe { host: String, soap_port: Option<u16>, escl_port: Option<u16> },
    /// Add an AirPrint queue only if none exists.
    AddPrinter { host: Option<String> },
    /// Serve the local eSCL endpoint.
    Bridge { port: u16, no_advertise: bool, bind: Option<String> },
}

/// Host and ports that `add`/`probe` talk to: an explicit `--soap-port`
/// wins over a `host:port` suffix, and eSCL defaults to port 80.
pub open spec fn spec_probe_target(host: Seq<char>, soap_port: Option<u16>, escl_port: Option<u16>) -> (
    Seq<char>,
    u16,
    u16,
) {
    let (h, p) = spec_split_host_port(
        host,
        match soap_port {
            Some(s) => s,
            None => DEFAULT_SOAP_PORT,
        },
    );
    (
        h,
        match soap_port {
            Some(s) => s,
            None => p,
        },
        match escl_port {
            Some(e) => e,
            None => DEFAULT_ESCL_PORT,
        },
    )
}

/// See `spec_probe_target`.
pub fn probe_target(host: &str, soap_port: Option<u16>, escl_port: Option<u16>) -> (r: (
    String,
    u16,
    u16,
))
    ensures
        (r.0@, r.1, r.2) == spec_probe_target(host@, soap_port, escl_port),
{
    let dflt = match soap_port {
        Some(s) => s,
        None => DEFAULT_SOAP_PORT,
    };
    let (h, parsed) = split_host_port(host, dflt);
    let soap_p = match soap_port {
        Some(s) => s,
        None => parsed,
    };
    let escl_p = match escl_port {
        Some(e) => e,
        None => DEFAULT_ESCL_PORT,
    };
    (h, soap_p, escl_p)
}

/// Probe `host` and record a usable device in `store` (the caller saves the
/// list). Shared by the CLI and the GUI.
#[verifier::spinoff_prover]
#[verifier::rlimit(40)]
pub fn add_by_address<T: Transport>(
    store: &mut Store,
    transport: &T,
    host: &str,
    soap_port: Option<u16>,
    escl_port: Option<u16>,
) -> (r: Result<DeviceRecord>)
    ensures
        ({
            let (h, sp, ep) = spec_probe_target(host@, soap_port, escl_port);
            &&& r matches Ok(d) ==> {
                &&& exists|p: ProbeResult|
                    probe_answered(transport, p, h, sp, ep) && spec_into_device_fields(p, d)
                &&& final(store).location() == old(store).location()
                &&& final(store).data().devices@ == spec_upsert(old(store).data().devices@, d)
                &&& final(store).data().default_id matches Some(id) && id@ == d.id@
            }
            &&& r matches Err(e) ==> {
                &&& exists|p: ProbeResult| probe_answered(transport, p, h, sp, ep) && p.preferred is None
                &&& *final(store) == *old(store)
                &&& e matches Error::NoScanProtocol { host: eh, soap_port: esp } && esp
                    == DEFAULT_SOAP_PORT && eh@ == crate::probe::spec_strip_scheme(h)
            }
        }),
{
    let (h, soap_p, escl_p) = probe_target(host, soap_port, escl_port);
    let probe = match probe_host_ports(transport, h.as_str(), soap_p, escl_p) {
        Ok(p) => p,
        Err(e) => {
            return Err(e);
        },
    };
    let ghost p = probe;
    assert(probe_answered(transport, p, h@, soap_p, escl_p));
    let device = match probe.into_device() {
        Ok(d) => d,
        Err(e) => {
            let ghost t = spec_probe_target(host@, soap_port, escl_port);
            assert(t.0 == h@ && t.1 == soap_p && t.2 == escl_p);
            assert(probe_answered(transport, p, t.0, t.1, t.2) && p.preferred is None);
            assert(exists|q: ProbeResult| probe_answered(transport, q, t.0, t.1, t.2) && q.preferred is None);
            return Err(e);
        },
    };
    assert(spec_into_device_fields(p, device));
    store.upsert(device)
}

/// What the `scan` subcommand's options parse to, or the text of the first
/// option that is refused (source, then color, then format, then region).
pub open spec fn spec_request_args(
    source: Seq<char>,
    color: Seq<char>,
    format: Seq<char>,
    region: Option<Seq<char>>,
) -> core::result::Result<(ScanSource, ColorMode, OutputFormat, Option<ScanRegion>), Seq<char>> {
    match spec_scan_source(source) {
        None => Err(unknown_text("source"@, ascii_lower(trim(source)), "platen or adf"@)),
        Some(s) => match spec_color_mode(color) {
            None => Err(
                unknown_text("color mode"@, ascii_lower(trim(color)), "color, gray, or lineart"@),
            ),
            Some(c) => match spec_output_format(format) {
                None => Err(
                    unknown_text("format"@, ascii_lower(trim(format)), "jpeg, pdf, or tiff"@),
                ),
                Some(f) => match region {
                    None => Ok((s, c, f, None)),
                    Some(g) => match spec_scan_region(g) {
                        Ok(rg) => Ok((s, c, f, Some(rg))),
                        Err(m) => Err(m),
                    },
                },
            },
        },
    }
}

/// The scan request that the `scan` subcommand's options describe.
pub fn scan_request_from_args(
    source: &str,
    color: &str,
    dpi: u32,
    format: &str,
    output: Option<std::path::PathBuf>,
    region: Option<&str>,
) -> (r: Result<ScanRequest>)
    ensures
        ({
            let want = spec_request_args(
                source@,
                color@,
                format@,
                match region {
                    Some(g) => Some(g@),
                    None => None,
                },
            );
            &&& r is Ok <==> want is Ok
            &&& r matches Ok(req) ==> want matches Ok(t) && req.source == t.0 && req.color == t.1
                && req.format == t.2 && req.region == t.3 && req.dpi == dpi && req.output
                == output
            &&& r matches Err(e) ==> want matches Err(m) && e matches Error::InvalidRequest(em)
                && em@ == m
        }),
{
    let s = match ScanSource::parse(source) {
        Ok(s) => s,
        Err(e) => {
            return Err(e);
        },
    };
    let c = match ColorMode::parse(color) {
        Ok(c) => c,
        Err(e) => {
            return Err(e);
        },
    };
    let f = match OutputFormat::parse(format) {
        Ok(f) => f,
        Err(e) => {
            return Err(e);
        },
    };
    let g = match region {
        None => None,
        Some(raw) => match ScanRegion::parse(raw) {
            Ok(g) => Some(g),
            Err(e) => {
                return Err(e);
            },
        },
    };
    Ok(ScanRequest { source: s, color: c, dpi, format: f, output, region: g })
}

/// How `{:?}` shows a job protocol: `Soap { port: 8289 }`.
pub open spec fn spec_job_debug(j: JobProtocol) -> Seq<char> {
    match j {
        JobProtocol::Soap { port } => "Soap { port: "@ + decimal(port as nat) + " }"@,
        JobProtocol::Escl { port } => "Escl { port: "@ + decimal(port as nat) + " }"@,
        JobProtocol::Wsd { port } => "Wsd { port: "@ + decimal(port as nat) + " }"@,
    }
}

/// See `spec_job_debug`.
pub fn job_debug(j: JobProtocol) -> (r: String)
    ensures
        r@ == spec_job_debug(j),
{
    let (name, port) = match j {
        JobProtocol::Soap { port } => ("Soap { port: ", port),
        JobProtocol::Escl { port } => ("Escl { port: ", port),
        JobProtocol::Wsd { port } => ("Wsd { port: ", port),
    };
    let mut s = String::new();
    s.append(name);
    s.append(decimal_string(port as u64).as_str());
    s.append(" }");
    s
}

/// `true` or `false`, as `{}` and `{:?}` show a `bool`.
pub open spec fn bool_text(b: bool) -> Seq<char> {
    if b {
        "true"@
    } else {
        "false"@
    }
}

fn bool_str(b: bool) -> (r: &'static str)
    ensures
        r@ == bool_text(b),
{
    if b {
        "true"
    } else {
        "false"
    }
}

/// What `discover` prints when nothing answered.
pub open spec fn spec_no_adverts_line(timeout: u64) -> Seq<char> {
    "No IPP/scanner advertisements seen in "@ + decimal(timeout as nat) + "s."@
}

/// See `spec_no_adverts_line`.
pub fn no_adverts_line(timeout: u64) -> (r: String)
    ensures
        r@ == spec_no_adverts_line(timeout),
{
    let mut s = String::new();
    s.append("No IPP/scanner advertisements seen in ");
    s.append(decimal_string(timeout).as_str());
    s.append("s.");
    s
}

/// What `discover` prints for one advertisement, marking a likely M177fw.
pub open spec fn spec_discover_line(d: DiscoveredDevice) -> Seq<char> {
    d.name@ + "  "@ + d.host@ + ":"@ + decimal(d.port as nat) + "  "@ + d.service@ + if spec_likely_m177(
        d.name@,
        d.host@,
    ) {
        "  (likely M177fw)"@
    } else {
        ""@
    }
}

/// See `spec_discover_line`.
pub fn discover_line(d: &DiscoveredDevice) -> (r: String)
    ensures
        r@ == spec_discover_line(*d),
{
    let mut s = String::new();
    s.append(d.name.as_str());
    s.append("  ");
    s.append(d.host.as_str());
    s.append(":");
    s.append(decimal_string(d.port as u64).as_str());
    s.append("  ");
    s.append(d.service.as_str());
    if likely_m177(d) {
        s.append("  (likely M177fw)");
    } else {
        s.append("");
    }
    s
}

/// What `add` prints for the scanner it saved.
pub open spec fn spec_added_line(d: DeviceRecord) -> Seq<char> {
    "Added scanner "@ + d.id@ + " ("@ + d.name@ + ") at "@ + d.host@ + " via "@ + spec_job_debug(
        d.job,
    )
}

/// See `spec_added_line`.
pub fn added_line(d: &DeviceRecord) -> (r: String)
    ensures
        r@ == spec_added_line(*d),
{
    let mut s = String::new();
    s.append("Added scanner ");
    s.append(d.id.as_str());
    s.append(" (");
    s.append(d.name.as_str());
    s.append(") at ");
    s.append(d.host.as_str());
    s.append(" via ");
    s.append(job_debug(d.job).as_str());
    s
}

/// What `list` prints for one saved scanner: id, name, host and job API,
/// tab-separated.
pub open spec fn spec_list_line(d: DeviceRecord) -> Seq<char> {
    d.id@ + "\t"@ + d.name@ + "\t"@ + d.host@ + "\t"@ + spec_job_debug(d.job)
}

/// See `spec_list_line`.
pub fn list_line(d: &DeviceRecord) -> (r: String)
    ensures
        r@ == spec_list_line(*d),
{
    let mut s = String::new();
    s.append(d.id.as_str());
    s.append("\t");
    s.append(d.name.as_str());
    s.append("\t");
    s.append(d.host.as_str());
    s.append("\t");
    s.append(job_debug(d.job).as_str());
    s
}

/// What `list` prints when no scanner is saved.
pub const EMPTY_LIST_LINE: &'static str = "(no scanners; run hp-m177 add <ip>)";

/// What `scan` prints once the file at `path` is written.
pub open spec fn spec_wrote_line(path: Seq<char>, out: ScanOutput) -> Seq<char> {
    "Wrote "@ + path + " ("@ + decimal(out.bytes@.len()) + " bytes, "@ + spec_source_label(
        out.source,
    ) + " "@ + spec_color_label(out.color) + " "@ + decimal(out.dpi as nat) + "dpi)"@
}

/// See `spec_wrote_line`.
pub fn wrote_line(path: &str, out: &ScanOutput) -> (r: String)
    ensures
        r@ == spec_wrote_line(path@, *out),
{
    let mut s = String::new();
    s.append("Wrote ");
    s.append(path);
    s.append(" (");
    s.append(decimal_string(out.bytes.len() as u64).as_str());
    s.append(" bytes, ");
    s.append(out.source.label());
    s.append(" ");
    s.append(out.color.label());
    s.append(" ");
    s.append(decimal_string(out.dpi as u64).as_str());
    s.append("dpi)");
    s
}

/// How `{:?}` shows the preferred job API of a probe.
pub open spec fn spec_preferred_debug(p: Option<JobProtocol>) -> Seq<char> {
    match p {
        Some(j) => "Some("@ + spec_job_debug(j) + ")"@,
        None => "None"@,
    }
}

/// What `probe` prints, line by line, before the SOAP details.
pub open spec fn spec_probe_lines(p: ProbeResult) -> Seq<Seq<char>> {
    seq![
        "host: "@ + p.host@,
        "name: "@ + p.name@,
        "escl_caps: "@ + bool_text(p.escl_caps),
        "escl_jobs: "@ + bool_text(p.escl_jobs),
        "soap: "@ + bool_text(p.soap is Some),
        "preferred: "@ + spec_preferred_debug(p.preferred),
    ]
}

fn labelled(label: &str, value: &str) -> (r: String)
    ensures
        r@ == label@ + value@,
{
    let mut s = String::new();
    s.append(label);
    s.append(value);
    s
}

/// See `spec_probe_lines`.
pub fn probe_lines(p: &ProbeResult) -> (r: Vec<String>)
    ensures
        r@.len() == 6,
        forall|i: int| 0 <= i < 6 ==> #[trigger] r@[i]@ == spec_probe_lines(*p)[i],
{
    let mut pref = String::new();
    match p.preferred {
        Some(j) => {
            pref.append("Some(");
            pref.append(job_debug(j).as_str());
            pref.append(")");
        },
        None => {
            pref.append("None");
        },
    }
    let mut v: Vec<String> = Vec::new();
    v.push(labelled("host: ", p.host.as_str()));
    v.push(labelled("name: ", p.name.as_str()));
    v.push(labelled("escl_caps: ", bool_str(p.escl_caps)));
    v.push(labelled("escl_jobs: ", bool_str(p.escl_jobs)));
    v.push(labelled("soap: ", bool_str(p.soap.is_some())));
    v.push(labelled("preferred: ", pref.as_str()));
    v
}

/// What `add-printer` prints for each outcome.
pub open spec fn spec_print_add_line(o: PrintAddOutcome) -> Seq<char> {
    match o {
        PrintAddOutcome::LeftExisting { queue } => "Left existing print queue "@ + queue@
            + " in place."@,
        PrintAddOutcome::Added { queue, uri } => "Added AirPrint queue "@ + queue@ + " -> "@
            + uri@,
        PrintAddOutcome::Skipped { reason } => "Skipped add-printer: "@ + reason@,
    }
}

/// See `spec_print_add_line`.
pub fn print_add_line(o: &PrintAddOutcome) -> (r: String)
    ensures
        r@ == spec_print_add_line(*o),
{
    let mut s = String::new();
    match o {
        PrintAddOutcome::LeftExisting { queue } => {
            s.append("Left existing print queue ");
            s.append(queue.as_str());
            s.append(" in place.");
        },
        PrintAddOutcome::Added { queue, uri } => {
            s.append("Added AirPrint queue ");
            s.append(queue.as_str());
            s.append(" -> ");
            s.append(uri.as_str());
        },
        PrintAddOutcome::Skipped { reason } => {
            s.append("Skipped add-printer: ");
            s.append(reason.as_str());
        },
    }
    s
}

} // verus!
