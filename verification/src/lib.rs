//! Scan client, local eSCL/AirScan facade logic, and shared add/scan API for
//! the HP Color LaserJet Pro MFP M177fw.
//!
//! Printing stays on the existing AirPrint/CUPS queue. This crate speaks the
//! firmware's HP SOAP/DIME job cycle (port 8289) and, when that service is
//! wedged, Microsoft WSD Scan on port 3911 (`dib` to JPEG). Native eSCL
//! ScanJobs are used when the device actually implements them.
pub mod advertise;
pub mod cli;
pub mod dime;
pub mod discovery;
pub mod error;
pub mod escl;
pub mod facade;
pub mod fake;
pub mod gui;
pub mod imagefmt;
pub mod model;
pub mod printadd;
pub mod probe;
pub mod scan;
pub mod soap;
pub mod store;
pub mod text;
pub mod transport;
pub mod wsd;
pub mod xmldoc;
pub mod xmlutil;

pub use cli::add_by_address;
pub use error::{Error, Result};
pub use model::{
    ColorMode, DeviceRecord, JobProtocol, OutputFormat, ProbeResult, ScanOutput, ScanRegion,
    ScanRequest, ScanSource, APP_DISPLAY_NAME, PRODUCT_NAME,
};
pub use store::Store;

use vstd::prelude::*;

verus! {

} // verus!
