//! Recoverable product errors. `Error::describe` gives the text shown to
//! CLI/GUI users.
use crate::text::{decimal, decimal_string};
use vstd::prelude::*;

verus! {

/// Recoverable product error.
#[derive(Debug, Clone, PartialEq, Eq)]
pub enum Error {
    Message(String),
    /// An I/O failure, by its description.
    Io(String),
    Http { status: u16, url: String, detail: String },
    Transport { url: String, detail: String },
    Protocol(String),
    NoScanProtocol { host: String, soap_port: u16 },
    UnknownDevice(String),
    /// A scan job step ran out of time (seconds).
    Timeout(u64),
    AdfEmpty,
    Output { path: String, detail: String },
    InvalidRequest(String),
    /// A JSON (de)serialization failure, by its description.
    Json(String),
}

/// Result of the library's fallible operations.
pub type Result<T> = core::result::Result<T, Error>;

/// The text a user sees for `e`.
pub open spec fn error_text(e: Error) -> Seq<char> {
    match e {
        Error::Message(m) => m@,
        Error::Io(m) => "I/O error: "@ + m@,
        Error::Http { status, url, detail } => "HTTP "@ + decimal(status as nat) + " from "@
            + url@ + ": "@ + detail@,
        Error::Transport { url, detail } => "transport error talking to "@ + url@ + ": "@
            + detail@,
        Error::Protocol(m) => "the scanner response could not be parsed: "@ + m@,
        Error::NoScanProtocol { host, soap_port } => "no usable scan protocol on "@ + host@
            + " (tried eSCL ScanJobs and HP SOAP on port "@ + decimal(soap_port as nat) + ")"@,
        Error::UnknownDevice(d) => "device '"@ + d@
            + "' is not in the local device list; run `hp-m177 add` or `hp-m177 discover`"@,
        Error::Timeout(secs) => "scan job timed out after "@ + decimal(secs as nat) + "s"@,
        Error::AdfEmpty => "ADF is empty"@,
        Error::Output { path, detail } => "could not write "@ + path@ + ": "@ + detail@,
        Error::InvalidRequest(m) => "invalid scan request: "@ + m@,
        Error::Json(m) => m@,
    }
}

/// A copy of a string with the same text.
pub fn copy_string(s: &String) -> (r: String)
    ensures
        r@ == s@,
{
    s.clone()
}

impl Error {
    /// A plain message error.
    pub fn msg(text: String) -> (r: Self)
        ensures
            r == Error::Message(text),
    {
        Error::Message(text)
    }

    /// A protocol (unparseable response) error.
    pub fn protocol(text: String) -> (r: Self)
        ensures
            r == Error::Protocol(text),
    {
        Error::Protocol(text)
    }

    /// The text a user sees for this error.
    #[verifier::spinoff_prover]
    pub fn describe(&self) -> (r: String)
        ensures
            r@ == error_text(*self),
    {
        match self {
            Error::Message(m) => copy_string(m),
            Error::Io(m) => {
                let mut s = String::new();
                s.append("I/O error: ");
                s.append(m.as_str());
                s
            },
            Error::Http { status, url, detail } => {
                let mut s = String::new();
                s.append("HTTP ");
                let n = decimal_string(*status as u64);
                s.append(n.as_str());
                s.append(" from ");
                s.append(url.as_str());
                s.append(": ");
                s.append(detail.as_str());
                s
            },
            Error::Transport { url, detail } => {
                let mut s = String::new();
                s.append("transport error talking to ");
                s.append(url.as_str());
                s.append(": ");
                s.append(detail.as_str());
                s
            },
            Error::Protocol(m) => {
                let mut s = String::new();
                s.append("the scanner response could not be parsed: ");
                s.append(m.as_str());
                s
            },
            Error::NoScanProtocol { host, soap_port } => {
                let mut s = String::new();
                s.append("no usable scan protocol on ");
                s.append(host.as_str());
                s.append(" (tried eSCL ScanJobs and HP SOAP on port ");
                let n = decimal_string(*soap_port as u64);
                s.append(n.as_str());
                s.append(")");
                s
            },
            Error::UnknownDevice(d) => {
                let mut s = String::new();
                s.append("device '");
                s.append(d.as_str());
                s.append(
                    "' is not in the local device list; run `hp-m177 add` or `hp-m177 discover`",
                );
                s
            },
            Error::Timeout(secs) => {
                let mut s = String::new();
                s.append("scan job timed out after ");
                let n = decimal_string(*secs);
                s.append(n.as_str());
                s.append("s");
                s
            },
            Error::AdfEmpty => {
                let mut s = String::new();
                s.append("ADF is empty");
                s
            },
            Error::Output { path, detail } => {
                let mut s = String::new();
                s.append("could not write ");
                s.append(path.as_str());
                s.append(": ");
                s.append(detail.as_str());
                s
            },
            Error::InvalidRequest(m) => {
                let mut s = String::new();
                s.append("invalid scan request: ");
                s.append(m.as_str());
                s
            },
            Error::Json(m) => copy_string(m),
        }
    }
}

} // verus!
