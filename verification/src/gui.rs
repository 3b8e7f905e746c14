//! Application state behind the desktop GUI. The windowing layer calls these
//! methods; they are the same add/scan entry points the CLI uses.
use crate::cli::{add_by_address, spec_probe_target};
use crate::error::{Error, Result};
use crate::model::{
    spec_extension, spec_into_device_fields, DeviceRecord, OutputFormat, ProbeResult, DEFAULT_SOAP_PORT,
};
use crate::probe::{probe_answered, spec_strip_scheme};
use crate::store::{spec_upsert, Store};
use crate::text::{
    chars_eq_str, chars_of, occurs_at, parse_uint, parse_uint_chars, str_eq, string_from_chars,
    trim, trim_chars,
};
use crate::transport::Transport;
use crate::xmlutil::string_views;
use vstd::prelude::*;

verus! {

/// The GUI's device list.
pub struct GuiApp {
    pub store: Store,
}

impl GuiApp {
    /// An app over an already loaded store.
    pub fn new(store: Store) -> (r: Self)
        ensures
            r.store == store,
    {
        GuiApp { store }
    }

    /// Probe `host` on its default ports and record it (see
    /// `add_by_address`); the caller saves the store.
    pub fn add_scanner<T: Transport>(&mut self, transport: &T, host: &str) -> (r: Result<
        DeviceRecord,
    >)
        ensures
            ({
                let (h, sp, ep) = spec_probe_target(host@, None, None);
                &&& r matches Ok(d) ==> {
                    &&& exists|p: ProbeResult|
                        probe_answered(transport, p, h, sp, ep) && spec_into_device_fields(p, d)
                    &&& final(self).store.location() == old(self).store.location()
                    &&& final(self).store.data().devices@ == spec_upsert(
                        old(self).store.data().devices@,
                        d,
                    )
                    &&& final(self).store.data().default_id matches Some(id) && id@ == d.id@
                }
                &&& r matches Err(e) ==> {
                    &&& exists|p: ProbeResult|
                        probe_answered(transport, p, h, sp, ep) && p.preferred is None
                    &&& *final(self) == *old(self)
                    &&& e matches Error::NoScanProtocol { host: eh, soap_port: esp } && esp
                        == DEFAULT_SOAP_PORT && eh@ == spec_strip_scheme(h)
                }
            }),
    {
        add_by_address(&mut self.store, transport, host, None, None)
    }

    /// The saved scanners, oldest first.
    pub fn devices(&self) -> (r: &[DeviceRecord])
        ensures
            r@ == self.store.data().devices@,
    {
        self.store.list()
    }
}

/// The file a GUI scan is written to when no destination is given.
pub fn gui_default_dest(format: OutputFormat) -> (r: String)
    ensures
        r@ == "scan-gui."@ + spec_extension(format),
{
    let mut s = String::from_str("scan-gui.");
    s.append(format.extension());
    s
}

/// A request to the GUI's command interface.
#[derive(Debug, Clone, PartialEq, Eq)]
pub enum GuiCommand {
    /// Add a scanner (the Add button).
    Add { host: String },
    /// Run a scan (the Scan button).
    Scan {
        source: String,
        color: String,
        dpi: u32,
        format: String,
        output: Option<String>,
        region: Option<String>,
    },
    /// List the saved scanners.
    List,
}

/// Options gathered from `--exec` arguments: host, source, color, dpi,
/// format, output, region.
pub type ExecOptions = (Seq<char>, Seq<char>, Seq<char>, u32, Seq<char>, Option<Seq<char>>, Option<Seq<char>>);

pub open spec fn exec_defaults() -> ExecOptions {
    (Seq::empty(), "platen"@, "color"@, 300u32, "jpeg"@, None, None)
}

/// The argument after index `i`, or empty text when there is none.
pub open spec fn next_arg(args: Seq<Seq<char>>, i: int) -> Seq<char> {
    if 0 <= i + 1 < args.len() {
        args[i + 1]
    } else {
        Seq::empty()
    }
}

/// A `--dpi` value: a `u32`, or 300 when it does not parse.
pub open spec fn dpi_or_default(v: Seq<char>) -> u32 {
    match parse_uint(v, u32::MAX as nat) {
        Some(n) => n as u32,
        None => 300u32,
    }
}

/// `st` after reading the options from index `i` on: a known flag takes the
/// next argument as its value; anything else is skipped.
pub open spec fn exec_options_from(args: Seq<Seq<char>>, i: int, st: ExecOptions) -> ExecOptions
    decreases args.len() + 1 - i,
{
    if i < 0 || i >= args.len() {
        st
    } else {
        let a = args[i];
        let v = next_arg(args, i);
        let (h, so, c, d, f, o, r) = st;
        if a == "--host"@ {
            exec_options_from(args, i + 2, (v, so, c, d, f, o, r))
        } else if a == "--source"@ {
            exec_options_from(args, i + 2, (h, v, c, d, f, o, r))
        } else if a == "--color"@ {
            exec_options_from(args, i + 2, (h, so, v, d, f, o, r))
        } else if a == "--dpi"@ {
            exec_options_from(args, i + 2, (h, so, c, dpi_or_default(v), f, o, r))
        } else if a == "--format"@ {
            exec_options_from(args, i + 2, (h, so, c, d, v, o, r))
        } else if a == "--output"@ {
            exec_options_from(args, i + 2, (h, so, c, d, f, Some(v), r))
        } else if a == "--region"@ {
            exec_options_from(args, i + 2, (h, so, c, d, f, o, Some(v)))
        } else {
            exec_options_from(args, i + 1, st)
        }
    }
}

pub open spec fn opt_view(o: Option<String>) -> Option<Seq<char>> {
    match o {
        Some(s) => Some(s@),
        None => None,
    }
}

/// What `parse_exec_fallback` returns for `args`: the verb is the first
/// argument; `add` needs a host.
pub open spec fn exec_fallback_result(args: Seq<Seq<char>>, r: Result<GuiCommand>) -> bool {
    let verb = if args.len() > 0 {
        args[0]
    } else {
        Seq::empty()
    };
    let (h, so, c, d, f, o, g) = exec_options_from(args, 1, exec_defaults());
    if verb == "add"@ {
        if h.len() == 0 {
            r matches Err(e) && e matches Error::Message(m) && m@ == "exec add needs --host"@
        } else {
            r matches Ok(GuiCommand::Add { host }) && host@ == h
        }
    } else if verb == "scan"@ {
        r matches Ok(GuiCommand::Scan { source, color, dpi, format, output, region }) && source@
            == so && color@ == c && dpi == d && format@ == f && opt_view(output) == o && opt_view(
            region,
        ) == g
    } else if verb == "list"@ {
        r == Ok::<GuiCommand, Error>(GuiCommand::List)
    } else {
        r matches Err(e) && e matches Error::Message(m) && m@ == "unknown exec verb '"@ + verb
            + "' (use add|scan|list)"@
    }
}

fn opt_string(v: &Option<Vec<char>>) -> (r: Option<String>)
    ensures
        r matches Some(s) ==> v matches Some(w) && s@ == w@,
        r is None ==> v is None,
{
    match v {
        Some(w) => Some(string_from_chars(w.as_slice())),
        None => None,
    }
}

/// Read an `--exec add|scan|list` argument list without the native helper:
/// `--host`, `--source`, `--color`, `--dpi`, `--format`, `--output` and
/// `--region` each take the next argument.
#[verifier::spinoff_prover]
pub fn parse_exec_fallback(args: &[String]) -> (r: Result<GuiCommand>)
    ensures
        exec_fallback_result(string_views(args@), r),
{
    let ghost av = string_views(args@);
    let mut host: Vec<char> = Vec::new();
    let mut source: Vec<char> = chars_of("platen");
    let mut color: Vec<char> = chars_of("color");
    let mut dpi: u32 = 300;
    let mut format: Vec<char> = chars_of("jpeg");
    let mut output: Option<Vec<char>> = None;
    let mut region: Option<Vec<char>> = None;
    let ghost goal = exec_options_from(av, 1, exec_defaults());
    let mut i: usize = 1;
    while i < args.len()
        invariant
            av == string_views(args@),
            av.len() == args@.len(),
            1 <= i,
            exec_options_from(
                av,
                i as int,
                (host@, source@, color@, dpi, format@, match output {
                    Some(w) => Some(w@),
                    None => None,
                }, match region {
                    Some(w) => Some(w@),
                    None => None,
                }),
            ) == goal,
        decreases args.len() + 1 - i,
    {
        let a = args[i].as_str();
        let after: usize = if i + 1 < args.len() {
            i + 2
        } else {
            args.len()
        };
        let next: Vec<char> = if i + 1 < args.len() {
            chars_of(args[i + 1].as_str())
        } else {
            Vec::new()
        };
        assert(a@ == av[i as int]);
        assert(next@ == next_arg(av, i as int));
        proof {
            reveal_with_fuel(exec_options_from, 2);
        }
        if str_eq(a, "--host") {
            host = next;
            i = after;
        } else if str_eq(a, "--source") {
            source = next;
            i = after;
        } else if str_eq(a, "--color") {
            color = next;
            i = after;
        } else if str_eq(a, "--dpi") {
            dpi = match parse_uint_chars(next.as_slice(), 0xffff_ffff) {
                Some(n) => n as u32,
                None => 300,
            };
            i = after;
        } else if str_eq(a, "--format") {
            format = next;
            i = after;
        } else if str_eq(a, "--output") {
            output = Some(next);
            i = after;
        } else if str_eq(a, "--region") {
            region = Some(next);
            i = after;
        } else {
            i = i + 1;
        }
    }
    let verb_chars: Vec<char> = if args.len() > 0 {
        chars_of(args[0].as_str())
    } else {
        Vec::new()
    };
    let verb = verb_chars.as_slice();
    if chars_eq_str(verb, "add") {
        if host.len() == 0 {
            return Err(Error::msg(String::from_str("exec add needs --host")));
        }
        Ok(GuiCommand::Add { host: string_from_chars(host.as_slice()) })
    } else if chars_eq_str(verb, "scan") {
        Ok(
            GuiCommand::Scan {
                source: string_from_chars(source.as_slice()),
                color: string_from_chars(color.as_slice()),
                dpi,
                format: string_from_chars(format.as_slice()),
                output: opt_string(&output),
                region: opt_string(&region),
            },
        )
    } else if chars_eq_str(verb, "list") {
        Ok(GuiCommand::List)
    } else {
        let mut m = String::from_str("unknown exec verb '");
        let v = string_from_chars(verb);
        m.append(v.as_str());
        m.append("' (use add|scan|list)");
        Err(Error::msg(m))
    }
}

/// One line typed into the text fallback of the GUI.
#[derive(Debug, Clone, PartialEq, Eq)]
pub enum FallbackLine {
    /// Blank: ask again.
    Skip,
    /// `quit` or `exit`.
    Quit,
    /// `list`.
    List,
    /// `add <host>`.
    Add(String),
    /// `scan` with the default request.
    Scan,
    /// Anything else.
    Unknown,
}

/// How the text fallback reads `line` (surrounding white space ignored).
#[verifier::spinoff_prover]
pub fn fallback_line(line: &str) -> (r: FallbackLine)
    ensures
        ({
            let t = trim(line@);
            if t.len() == 0 {
                r == FallbackLine::Skip
            } else if t == "quit"@ || t == "exit"@ {
                r == FallbackLine::Quit
            } else if t == "list"@ {
                r == FallbackLine::List
            } else if occurs_at(t, "add "@, 0) {
                r matches FallbackLine::Add(h) && h@ == trim(t.skip(4))
            } else if t == "scan"@ {
                r == FallbackLine::Scan
            } else {
                r == FallbackLine::Unknown
            }
        }),
{
    let c = chars_of(line);
    let t = trim_chars(c.as_slice());
    if t.len() == 0 {
        return FallbackLine::Skip;
    }
    if chars_eq_str(t.as_slice(), "quit") || chars_eq_str(t.as_slice(), "exit") {
        return FallbackLine::Quit;
    }
    if chars_eq_str(t.as_slice(), "list") {
        return FallbackLine::List;
    }
    if t.len() >= 4 && t[0] == 'a' && t[1] == 'd' && t[2] == 'd' && t[3] == ' ' {
        proof {
            reveal_strlit("add ");
            assert(t@.subrange(0, 4) =~= "add "@);
        }
        let mut rest: Vec<char> = Vec::new();
        let mut i: usize = 4;
        while i < t.len()
            invariant
                4 <= i <= t.len(),
                rest@ == t@.subrange(4, i as int),
            decreases t.len() - i,
        {
            rest.push(t[i]);
            i = i + 1;
        }
        assert(rest@ =~= t@.skip(4));
        let h = trim_chars(rest.as_slice());
        return FallbackLine::Add(string_from_chars(h.as_slice()));
    }
    proof {
        reveal_strlit("add ");
        if occurs_at(t@, "add "@, 0) {
            assert(t@.subrange(0, 4)[0] == 'a');
            assert(t@.subrange(0, 4)[1] == 'd');
            assert(t@.subrange(0, 4)[2] == 'd');
            assert(t@.subrange(0, 4)[3] == ' ');
        }
    }
    if chars_eq_str(t.as_slice(), "scan") {
        return FallbackLine::Scan;
    }
    FallbackLine::Unknown
}

} // verus!
