use hp_m177::error::Error;
use hp_m177::escl::{capabilities_xml, status_xml, DEFAULT_UUID};
use hp_m177::escl::{pwg_300ths_to_thousandths, scan_settings_xml};
use hp_m177::facade::{
    capabilities_mention_required_features, not_found, probe_paper_in_adf, request_path, route, soap_probe_ports, FacadeState, Reply, Route,
};
use hp_m177::model::ScanRegion;
use hp_m177::transport::Method;
use hp_m177::fake::{FakeFixtures, FakeOptions, FakeState};
use hp_m177::imagefmt;
use hp_m177::model::{
    ColorMode, DeviceRecord, JobProtocol, OutputFormat, ScanOutput, ScanRequest, ScanSource,
    PRODUCT_NAME,
};
use hp_m177::probe::probe_host_ports;
use hp_m177::scan::{ScanAction, ScanEvent, ScanMachine};
use hp_m177::soap::parse_job_ticket;
use hp_m177::store::{DeviceStoreFile, Store};
use hp_m177::transport::{FnTransport, HttpRequest, HttpResponse, Transport};
use hp_m177::add_by_address;
use std::cell::{Cell, RefCell};
use std::path::PathBuf;

const HOST: &str = "127.0.0.1";
const PORT: u16 = 8289;

const ELEMENTS: &str = r#"<?xml version="1.0" encoding="UTF-8"?>
<SOAP-ENV:Envelope xmlns:SOAP-ENV="http://schemas.xmlsoap.org/soap/envelope/" xmlns:wscn="http://tempuri.org/wscn.xsd"><SOAP-ENV:Body>
<wscn:GetScannerElementsResponse><ScannerElements>
<ScannerConfiguration>
<DeviceSettings><ModelNumber>juntest</ModelNumber><FormatsSupported><item>jfif</item><item>hpraw</item></FormatsSupported>
<ColorEntriesSupported><item>RGB24</item><item>GrayScale8</item><item>BlackAndWhite1</item></ColorEntriesSupported></DeviceSettings>
<Platen><FlatbedSupported>true</FlatbedSupported><PlatenMinimumSize><Width>1</Width><Height>1</Height></PlatenMinimumSize>
<PlatenMaximumSize><Width>8500</Width><Height>11690</Height></PlatenMaximumSize><PlatenOpticalResolution><Width>1200</Width><Height>1200</Height></PlatenOpticalResolution></Platen>
<ADF><ADFSupported>true</ADFSupported><ADFSupportsDuplex>false</ADFSupportsDuplex><ADFMinimumSize><Width>1</Width><Height>1</Height></ADFMinimumSize>
<ADFMaximumSize><Width>8500</Width><Height>14000</Height></ADFMaximumSize><ADFOpticalResolution><Width>300</Width><Height>300</Height></ADFOpticalResolution></ADF>
</ScannerConfiguration>
<ScannerStatus><ScannerState>Idle</ScannerState><PaperInADF>false</PaperInADF></ScannerStatus>
</ScannerElements></wscn:GetScannerElementsResponse>
</SOAP-ENV:Body></SOAP-ENV:Envelope>"#;

/// Which request the stand-in network swallows until its timeout.
#[derive(Clone, Copy, PartialEq)]
enum Hang {
    Nothing,
    GetJobInfo,
    SoapRetrieve,
    WsdRetrieve,
}

/// The fake device behind an in-process transport, with a virtual clock.
struct Fake {
    state: RefCell<FakeState>,
    opts: RefCell<FakeOptions>,
    fixtures: FakeFixtures,
    clock_ms: Cell<u64>,
    retrieves: Cell<u32>,
    hang: Hang,
}

impl Fake {
    fn with(opts: FakeOptions) -> Fake {
        Fake {
            state: RefCell::new(FakeState::new(&opts)),
            opts: RefCell::new(opts),
            fixtures: FakeFixtures {
                escl_capabilities: capabilities_xml(DEFAULT_UUID, PRODUCT_NAME),
                escl_status: status_xml(false, &[]),
                soap_elements: ELEMENTS.to_string(),
            },
            clock_ms: Cell::new(0),
            retrieves: Cell::new(0),
            hang: Hang::Nothing,
        }
    }

    fn start() -> Fake {
        Fake::with(FakeOptions::default())
    }

    fn last_create_job_xml(&self) -> String {
        self.state.borrow().last_create_job_xml.clone()
    }

    fn last_wsd_create_xml(&self) -> String {
        self.state.borrow().last_wsd_create_xml.clone()
    }

    fn set_paper_in_adf(&self, v: bool) {
        self.state.borrow_mut().paper_in_adf = v;
        self.opts.borrow_mut().paper_in_adf = v;
    }
}

fn path_of(url: &str) -> &str {
    let rest = url.split_once("://").map(|(_, r)| r).unwrap_or(url);
    match rest.find('/') {
        Some(i) => &rest[i..],
        None => "/",
    }
}

impl Transport for Fake {
    fn answers(&self, _req: HttpRequest, _reply: hp_m177::Result<HttpResponse>) -> bool {
        true
    }

    fn execute(&self, req: HttpRequest) -> hp_m177::Result<HttpResponse> {
        let body = String::from_utf8_lossy(&req.body).into_owned();
        let hung = match self.hang {
            Hang::Nothing => false,
            Hang::GetJobInfo => body.contains("GetJobInfo"),
            Hang::SoapRetrieve => body.contains("RetrieveImageRequest") && !body.contains("sca:"),
            Hang::WsdRetrieve => body.contains("RetrieveImageRequest") && body.contains("sca:"),
        };
        if hung {
            self.clock_ms.set(self.clock_ms.get() + req.timeout_ms.unwrap_or(60_000));
            return Err(Error::Transport { url: req.url, detail: "timed out reading response".into() });
        }
        self.clock_ms.set(self.clock_ms.get() + 5);
        if body.contains("RetrieveImage") {
            self.retrieves.set(self.retrieves.get() + 1);
        }
        let opts = self.opts.borrow().clone();
        let reply = self.state.borrow_mut().handle(
            Some(req.method),
            path_of(&req.url),
            &body,
            &opts,
            &self.fixtures,
        );
        let mut headers = vec![("Content-Type".to_string(), reply.content_type.clone())];
        headers.extend(reply.headers.iter().cloned());
        let resp = HttpResponse { status: reply.status, headers, body: reply.body };
        if resp.is_success() {
            Ok(resp)
        } else {
            Err(Error::Http { status: resp.status, url: req.url, detail: resp.text() })
        }
    }
}

/// Run a scan to its end, answering each action: exchanges go to `t`,
/// pauses advance the virtual clock.
fn run_scan<T: Transport>(t: &T, clock: &Cell<u64>, device: &DeviceRecord, req: &ScanRequest) -> hp_m177::Result<ScanOutput> {
    let mut m = ScanMachine::new(device, req.clone());
    let mut event = ScanEvent::Start;
    for _ in 0..10_000 {
        match m.step(event, clock.get()) {
            ScanAction::Send(r) => {
                let limit = r.timeout_ms.expect("every scan request has a time limit");
                assert!(limit <= 90_000);
                event = ScanEvent::Reply(t.execute(r));
            }
            ScanAction::Sleep(ms) => {
                assert!(ms <= 800);
                clock.set(clock.get() + ms);
                event = ScanEvent::Woke;
            }
            ScanAction::Done(r) => return r,
        }
    }
    panic!("scan did not finish");
}

fn scan(fake: &Fake, device: &DeviceRecord, req: &ScanRequest) -> hp_m177::Result<ScanOutput> {
    run_scan(fake, &fake.clock_ms, device, req)
}

fn empty_store() -> Store {
    Store::new(PathBuf::from("devices.json"), DeviceStoreFile::new())
}

fn record(id: &str, job: JobProtocol) -> DeviceRecord {
    DeviceRecord {
        id: id.into(),
        name: "M177fw".into(),
        host: HOST.into(),
        job,
        has_escl_caps: true,
        has_platen: true,
        has_adf: true,
        uuid: None,
    }
}

fn request(source: ScanSource, color: ColorMode, format: OutputFormat) -> ScanRequest {
    ScanRequest { source, color, dpi: 300, format, output: None, region: None }
}

fn add_fake(fake: &Fake) -> (Store, DeviceRecord) {
    let mut store = empty_store();
    let rec = add_by_address(&mut store, fake, HOST, Some(PORT), Some(PORT)).expect("add_by_address against fake");
    (store, rec)
}

fn scan_combo(source: ScanSource, color: ColorMode, format: OutputFormat) {
    let fake = Fake::start();
    let (_store, rec) = add_fake(&fake);
    let req = request(source, color, format);
    let out = scan(&fake, &rec, &req).expect("scan");
    match format {
        OutputFormat::Jpeg => assert!(imagefmt::is_jpeg(&out.bytes), "expected JPEG SOI/EOI"),
        OutputFormat::Pdf => {
            assert!(imagefmt::is_pdf(&out.bytes), "expected %PDF … %%EOF");
            assert!(out.bytes.windows(b"/Type /Page".len()).any(|w| w == b"/Type /Page"));
        }
        OutputFormat::Tiff => assert!(imagefmt::is_tiff(&out.bytes), "expected TIFF header"),
    }
    let xml = fake.last_create_job_xml();
    let ticket = parse_job_ticket(&xml).expect("fake recorded CreateScanJob");
    assert_eq!(ticket.source, source, "job source the client sent");
    assert_eq!(ticket.color, color, "job color the client sent");
    assert_eq!(ticket.dpi, 300);
    assert!(xml.contains("CreateScanJob"), "SOAP CreateScanJob must be what left the client");
    assert!(xml.contains(source.soap_name()));
    assert!(xml.contains(color.soap_name()));
}

#[test]
fn scanner_status_adf_empty_and_loaded_without_device() {
    let mut facade = FacadeState::new(None);
    let text = |f: &FacadeState| String::from_utf8_lossy(&f.status_reply().body).into_owned();
    let empty = text(&facade);
    assert!(empty.contains("ScannerAdfEmpty"), "{empty}");
    facade.adf_loaded = true;
    let loaded = text(&facade);
    assert!(loaded.contains("ScannerAdfLoaded"), "{loaded}");
    facade.adf_loaded = false;
    let empty2 = text(&facade);
    assert!(empty2.contains("ScannerAdfEmpty"), "{empty2}");
}

#[test]
fn probe_paper_in_adf_reads_fake_paper_flag() {
    let fake = Fake::with(FakeOptions { paper_in_adf: false, ..FakeOptions::default() });
    assert_eq!(probe_paper_in_adf(&fake, HOST, PORT), Some(false));
    fake.set_paper_in_adf(true);
    assert_eq!(probe_paper_in_adf(&fake, HOST, PORT), Some(true));
}

#[test]
fn scanner_capabilities_use_saved_device_name() {
    let rec = DeviceRecord {
        id: "o".into(),
        name: "Other LAN MFP".into(),
        host: HOST.into(),
        job: JobProtocol::Soap { port: 9 },
        has_escl_caps: true,
        has_platen: true,
        has_adf: true,
        uuid: None,
    };
    let facade = FacadeState::new(Some(rec));
    let xml = String::from_utf8_lossy(&facade.capabilities_reply().body).into_owned();
    assert!(xml.contains("Other LAN MFP"), "facade must advertise the probed make/model: {xml}");
}

#[test]
fn probe_fake_m177_uses_escl_make_and_model_and_soap_jobs() {
    let fake = Fake::start();
    let p = probe_host_ports(&fake, HOST, PORT, PORT).unwrap();
    assert!(p.name.contains("M177fw"), "validated M177fw caps must keep the real product name, got {}", p.name);
    assert!(p.escl_caps);
    assert!(!p.escl_jobs, "live-like fake ScanJobs are 404");
    match p.preferred {
        Some(JobProtocol::Soap { port }) => assert_eq!(port, PORT),
        other => panic!("M177fw-like fake must prefer SOAP, got {other:?}"),
    }
}

#[test]
fn soap_only_fake_does_not_take_juntest_model_number() {
    let fake = Fake::with(FakeOptions { escl_caps: false, ..FakeOptions::default() });
    let p = probe_host_ports(&fake, HOST, PORT, PORT).unwrap();
    assert!(!p.name.to_ascii_lowercase().contains("juntest"), "SOAP ModelNumber junk must not win: {}", p.name);
    assert_eq!(p.name, PRODUCT_NAME);
    assert!(!p.escl_caps);
    match p.preferred {
        Some(JobProtocol::Soap { port }) => assert_eq!(port, PORT),
        other => panic!("SOAP-only fake must prefer SOAP, got {other:?}"),
    }
}

#[test]
fn soap_adf_two_pages_finalize_keeps_one_jpeg() {
    let fake = Fake::with(FakeOptions { adf_pages: 2, paper_in_adf: true, ..FakeOptions::default() });
    let rec = record("adf2", JobProtocol::Soap { port: PORT });
    let req = request(ScanSource::Adf, ColorMode::Color, OutputFormat::Jpeg);
    let out = scan(&fake, &rec, &req).expect("ADF two-page SOAP");
    assert!(imagefmt::is_jpeg(&out.bytes));
    let sois = out.bytes.windows(2).filter(|w| *w == [0xff, 0xd8]).count();
    assert_eq!(sois, 1, "finalize must keep only the first page");
    let retrieves = fake.retrieves.get();
    assert!(retrieves >= 2, "SOAP must retrieve more than one ADF page before dropping extras: {retrieves}");
}

#[test]
fn add_by_address_persists_usable_record() {
    let fake = Fake::start();
    let (store, rec) = add_fake(&fake);
    assert_eq!(rec.host, HOST);
    match rec.job {
        JobProtocol::Soap { port } => assert_eq!(port, PORT),
        other => panic!("expected SOAP job protocol, got {other:?}"),
    }
    assert!(rec.has_platen);
    assert!(rec.has_adf);
    assert!(rec.name.contains("M177fw"), "add_by_address must store the probed M177fw name, got {}", rec.name);
    let again = store.get(&rec.id).unwrap();
    assert_eq!(again.host, rec.host);
    assert_eq!(store.default_device().unwrap(), rec);
}

#[test]
fn platen_color_jpeg() {
    scan_combo(ScanSource::Platen, ColorMode::Color, OutputFormat::Jpeg);
}

#[test]
fn platen_gray_jpeg() {
    scan_combo(ScanSource::Platen, ColorMode::Gray, OutputFormat::Jpeg);
}

#[test]
fn adf_color_jpeg() {
    scan_combo(ScanSource::Adf, ColorMode::Color, OutputFormat::Jpeg);
}

#[test]
fn adf_gray_pdf() {
    scan_combo(ScanSource::Adf, ColorMode::Gray, OutputFormat::Pdf);
}

#[test]
fn platen_color_pdf() {
    scan_combo(ScanSource::Platen, ColorMode::Color, OutputFormat::Pdf);
}

#[test]
fn platen_color_tiff_against_fake() {
    scan_combo(ScanSource::Platen, ColorMode::Color, OutputFormat::Tiff);
}

#[test]
fn soap_create_job_encode_is_what_scan_sends() {
    let fake = Fake::start();
    let (_s, rec) = add_fake(&fake);
    let req = request(ScanSource::Platen, ColorMode::Color, OutputFormat::Jpeg);
    let _ = scan(&fake, &rec, &req).unwrap();
    let xml = fake.last_create_job_xml();
    let expected = hp_m177::soap::create_scan_job_xml(&req, "unused");
    let a = parse_job_ticket(&xml).unwrap();
    let b = parse_job_ticket(&expected).unwrap();
    assert_eq!(a.source, b.source);
    assert_eq!(a.color, b.color);
    assert_eq!(a.dpi, b.dpi);
}

#[test]
fn add_uses_wsd_when_device_has_escl_caps_but_soap_probe_is_down() {
    let caps = capabilities_xml(DEFAULT_UUID, PRODUCT_NAME);
    let t = FnTransport::new(|req: HttpRequest| {
        if req.url.contains("ScannerCapabilities") {
            Ok(HttpResponse { status: 200, headers: vec![], body: caps.as_bytes().to_vec() })
        } else if req.url.contains("ScanJobs") {
            Err(Error::Http { status: 404, url: req.url, detail: String::new() })
        } else {
            Err(Error::Transport { url: req.url, detail: "soap not answering".into() })
        }
    });
    let mut store = empty_store();
    let rec = add_by_address(&mut store, &t, "192.168.50.14", Some(8289), Some(80))
        .expect("add should prefer WSD when SOAP is down");
    match rec.job {
        JobProtocol::Wsd { port } => assert_eq!(port, 3911),
        other => panic!("expected WSD, got {other:?}"),
    }
}

#[test]
fn soap_timeout_falls_back_to_wsd_dib() {
    let bmp = imagefmt::solid_bmp_bgra(2, 2, 0, 0, 255);
    let mut mtom = Vec::new();
    mtom.extend_from_slice(
        b"--==b\r\nContent-Type: application/xop+xml\r\n\r\n<SOAP/>\r\n--==b\r\nContent-Type: image/bmp\r\n\r\n",
    );
    mtom.extend_from_slice(&bmp);
    mtom.extend_from_slice(b"\r\n--==b--\r\n");
    let create = br#"<?xml version="1.0"?><Envelope><JobId>7</JobId><JobToken>tok-7</JobToken></Envelope>"#;
    let sent = RefCell::new(Vec::<String>::new());
    let t = FnTransport::new(|req: HttpRequest| {
        sent.borrow_mut().push(req.url.clone());
        if req.url.contains(":8289") {
            return Ok(HttpResponse {
                status: 200,
                headers: vec![],
                body: br#"<?xml version="1.0"?><SOAP-ENV:Envelope xmlns:SOAP-ENV="http://www.w3.org/2003/05/soap-envelope"><SOAP-ENV:Body><SOAP-ENV:Fault><SOAP-ENV:Code><SOAP-ENV:Value>SOAP-ENV:Sender</SOAP-ENV:Value></SOAP-ENV:Code><SOAP-ENV:Reason><SOAP-ENV:Text>Error 4</SOAP-ENV:Text></SOAP-ENV:Reason></SOAP-ENV:Fault></SOAP-ENV:Body></SOAP-ENV:Envelope>"#.to_vec(),
            });
        }
        if req.url.contains("/scanner") {
            let text = String::from_utf8_lossy(&req.body);
            if text.contains("CreateScanJob") {
                assert!(text.contains("<sca:Format>dib</sca:Format>"));
                return Ok(HttpResponse { status: 200, headers: vec![], body: create.to_vec() });
            }
            if text.contains("RetrieveImage") {
                return Ok(HttpResponse {
                    status: 200,
                    headers: vec![("Content-Type".into(), "multipart/related; type=application/xop+xml".into())],
                    body: mtom.clone(),
                });
            }
        }
        Err(Error::Transport { url: req.url, detail: "unexpected".into() })
    });
    let rec = DeviceRecord {
        id: "t".into(),
        name: "M177fw".into(),
        host: "192.168.50.14".into(),
        job: JobProtocol::Soap { port: 8289 },
        has_escl_caps: true,
        has_platen: true,
        has_adf: true,
        uuid: None,
    };
    let req = request(ScanSource::Platen, ColorMode::Color, OutputFormat::Jpeg);
    let clock = Cell::new(0);
    let out = run_scan(&t, &clock, &rec, &req).expect("WSD fallback scan");
    assert!(imagefmt::is_jpeg(&out.bytes));
    let urls = sent.borrow().clone();
    assert!(urls.iter().any(|u| u.contains("/scanner")));
}

#[test]
fn wsd_only_scan_against_listening_fake() {
    let fake = Fake::with(FakeOptions { soap_dead: true, ..FakeOptions::default() });
    let rec = record("w", JobProtocol::Wsd { port: PORT });
    let out = scan(&fake, &rec, &request(ScanSource::Platen, ColorMode::Color, OutputFormat::Jpeg)).expect("WSD-only scan");
    assert!(imagefmt::is_jpeg(&out.bytes));
    let xml = fake.last_wsd_create_xml();
    assert!(xml.contains("CreateScanJob"), "client sent WSD CreateScanJob");
    assert!(xml.contains("dib"), "ticket format is dib");
}

#[test]
fn add_by_address_selects_listening_wsd_when_soap_is_dead() {
    let fake = Fake::with(FakeOptions { soap_dead: true, ..FakeOptions::default() });
    let (_store, rec) = add_fake(&fake);
    match rec.job {
        JobProtocol::Wsd { port } => assert_eq!(port, PORT),
        other => panic!("expected WSD on fake port, got {other:?}"),
    }
}

#[test]
fn soap_create_fault_falls_back_to_listening_wsd() {
    let fake = Fake::with(FakeOptions { soap_create_fault: true, ..FakeOptions::default() });
    let rec = record("s", JobProtocol::Soap { port: PORT });
    let out = scan(&fake, &rec, &request(ScanSource::Platen, ColorMode::Color, OutputFormat::Pdf)).expect("SOAP fault then WSD");
    assert!(fake.clock_ms.get() < 5_000, "must not spin on SOAP fault");
    assert!(imagefmt::is_pdf(&out.bytes));
    assert!(fake.last_wsd_create_xml().contains("dib"));
}

#[test]
fn soap_empty_retrieve_falls_back_to_listening_wsd() {
    let fake = Fake::with(FakeOptions { retrieve_empty: true, ..FakeOptions::default() });
    let rec = record("e", JobProtocol::Soap { port: PORT });
    let out = scan(&fake, &rec, &request(ScanSource::Platen, ColorMode::Color, OutputFormat::Jpeg)).expect("empty retrieve then WSD");
    assert!(imagefmt::is_jpeg(&out.bytes));
}

#[test]
fn get_job_info_fault_does_not_spin() {
    let fake = Fake::with(FakeOptions { get_job_info_fault: true, ..FakeOptions::default() });
    let rec = record("g", JobProtocol::Soap { port: PORT });
    let out = scan(&fake, &rec, &request(ScanSource::Platen, ColorMode::Color, OutputFormat::Jpeg));
    assert!(fake.clock_ms.get() < 5_000, "GetJobInfo fault must not wait 90s");
    assert!(imagefmt::is_jpeg(&out.expect("fallback after GetJobInfo fault").bytes));
}

#[test]
fn soap_retrieve_http_error_falls_back_to_listening_wsd() {
    let fake = Fake::with(FakeOptions { retrieve_http_error: true, ..FakeOptions::default() });
    let rec = record("h", JobProtocol::Soap { port: PORT });
    let out = scan(&fake, &rec, &request(ScanSource::Platen, ColorMode::Color, OutputFormat::Jpeg)).expect("HTTP 500 retrieve then WSD");
    assert!(fake.clock_ms.get() < 5_000, "must not spin on retrieve HTTP 500");
    assert!(imagefmt::is_jpeg(&out.bytes));
    assert!(fake.last_wsd_create_xml().contains("dib"));
}

#[test]
fn escl_scanjobs_404_still_returns_pixels_via_soap() {
    let fake = Fake::start();
    let rec = record("escl404", JobProtocol::Escl { port: PORT });
    let out = scan(&fake, &rec, &request(ScanSource::Platen, ColorMode::Color, OutputFormat::Jpeg)).expect("eSCL 404 then SOAP");
    assert!(imagefmt::is_jpeg(&out.bytes));
    assert!(fake.last_create_job_xml().contains("CreateScanJob"), "SOAP CreateScanJob after native ScanJobs 404");
}

#[test]
fn adf_soap_empty_retrieve_still_tries_wsd() {
    let fake = Fake::with(FakeOptions { retrieve_empty: true, ..FakeOptions::default() });
    let rec = record("adf-empty", JobProtocol::Soap { port: PORT });
    let out = scan(&fake, &rec, &request(ScanSource::Adf, ColorMode::Color, OutputFormat::Jpeg));
    assert!(
        !fake.last_wsd_create_xml().is_empty(),
        "ADF empty SOAP retrieve must POST WSD CreateScanJob, xml={:?}",
        fake.last_wsd_create_xml()
    );
    assert!(out.is_ok() || matches!(out, Err(Error::AdfEmpty)), "after WSD attempt: {:?}", out.as_ref().err());
    if let Ok(scanned) = out {
        assert!(imagefmt::is_jpeg(&scanned.bytes));
    }
}

#[test]
fn hung_get_job_info_is_bounded() {
    let mut fake = Fake::start();
    fake.hang = Hang::GetJobInfo;
    let out = scan(&fake, &record("hang-info", JobProtocol::Soap { port: PORT }), &request(ScanSource::Platen, ColorMode::Color, OutputFormat::Jpeg));
    let elapsed = fake.clock_ms.get();
    assert!(elapsed < 20_000, "hung GetJobInfo must use 4s poll timeout, took {elapsed} ms");
    assert!(imagefmt::is_jpeg(&out.expect("WSD fallback").bytes));
}

#[test]
fn hung_retrieve_image_is_bounded() {
    let mut fake = Fake::start();
    fake.hang = Hang::SoapRetrieve;
    let out = scan(&fake, &record("hang-retr", JobProtocol::Soap { port: PORT }), &request(ScanSource::Platen, ColorMode::Color, OutputFormat::Jpeg));
    let elapsed = fake.clock_ms.get();
    assert!(elapsed < 35_000, "hung SOAP RetrieveImage must use 20s timeout, took {elapsed} ms");
    assert!(imagefmt::is_jpeg(&out.expect("WSD fallback").bytes));
}

#[test]
fn hung_wsd_retrieve_is_bounded() {
    let mut fake = Fake::start();
    fake.hang = Hang::WsdRetrieve;
    let out = scan(&fake, &record("hang-wsd", JobProtocol::Wsd { port: PORT }), &request(ScanSource::Platen, ColorMode::Color, OutputFormat::Jpeg));
    let elapsed = fake.clock_ms.get();
    assert!(elapsed < 100_000, "hung WSD RetrieveImage must use the 90s retrieve bound, took {elapsed} ms");
    assert!(out.is_err(), "silent WSD retrieve should not yield pixels");
}

#[test]
fn invalid_dpi_ends_the_scan_before_any_request() {
    let fake = Fake::start();
    let mut req = request(ScanSource::Platen, ColorMode::Color, OutputFormat::Jpeg);
    req.dpi = 0;
    let out = scan(&fake, &record("bad", JobProtocol::Soap { port: PORT }), &req);
    assert!(matches!(out, Err(Error::InvalidRequest(_))));
    assert_eq!(fake.clock_ms.get(), 0);
}

fn device_on(job: JobProtocol) -> DeviceRecord {
    DeviceRecord {
        id: "m177".into(),
        name: "M177fw".into(),
        host: "10.1.2.3".into(),
        job,
        has_escl_caps: false,
        has_platen: true,
        has_adf: true,
        uuid: None,
    }
}

fn first_action(job: JobProtocol, source: ScanSource) -> HttpRequest {
    let req = request(source, ColorMode::Color, OutputFormat::Jpeg);
    let mut m = ScanMachine::new(&device_on(job), req);
    match m.step(ScanEvent::Start, 0) {
        ScanAction::Send(h) => h,
        _ => panic!("a valid scan starts with a request"),
    }
}

#[test]
fn first_request_follows_the_saved_job_api() {
    let platen = first_action(JobProtocol::Soap { port: 8289 }, ScanSource::Platen);
    assert_eq!(platen.url, "http://10.1.2.3:8289/");
    assert_eq!(platen.timeout_ms, Some(6000));
    assert!(String::from_utf8(platen.body.clone()).unwrap().contains("GetScannerElements"));
    let adf = first_action(JobProtocol::Soap { port: 8289 }, ScanSource::Adf);
    assert_eq!(adf.timeout_ms, Some(8000));
    assert_eq!(adf.body, platen.body);
    let escl = first_action(JobProtocol::Escl { port: 80 }, ScanSource::Platen);
    assert_eq!(escl.url, "http://10.1.2.3:80/eSCL/ScanJobs");
    assert!(String::from_utf8(escl.body).unwrap().contains("ScanSettings"));
    let wsd = first_action(JobProtocol::Wsd { port: 3911 }, ScanSource::Platen);
    assert_eq!(wsd.url, "http://10.1.2.3:3911/scanner");
    assert!(String::from_utf8(wsd.body).unwrap().contains("CreateScanJobRequest"));
}

#[test]
fn a_finished_scan_stays_finished() {
    let mut req = request(ScanSource::Platen, ColorMode::Color, OutputFormat::Jpeg);
    req.dpi = 0;
    let mut m = ScanMachine::new(&device_on(JobProtocol::Soap { port: 8289 }), req);
    match m.step(ScanEvent::Start, 0) {
        ScanAction::Done(Err(Error::InvalidRequest(_))) => {}
        _ => panic!("an invalid resolution ends the scan"),
    }
    for t in [1, 2] {
        match m.step(ScanEvent::Woke, t) {
            ScanAction::Done(Err(_)) => {}
            _ => panic!("a finished scan stays finished"),
        }
    }
}

/// The eSCL bridge in process: the facade's decisions with the fake device
/// behind the in-process transport. A job's scan runs when `run_jobs` is set
/// (else the caller finishes it), so a 201 can be checked before pixels exist.
struct Bridge<'a> {
    state: FacadeState,
    fake: &'a Fake,
}

impl<'a> Bridge<'a> {
    fn new(fake: &'a Fake, device: Option<DeviceRecord>) -> Bridge<'a> {
        Bridge { state: FacadeState::new(device), fake }
    }

    fn refresh_adf(&mut self) {
        let device = match &self.state.device {
            Some(d) => d.clone(),
            None => return,
        };
        for port in soap_probe_ports(&device) {
            if let Some(loaded) = probe_paper_in_adf(self.fake, &device.host, port) {
                self.state.adf_loaded = loaded;
                return;
            }
        }
    }

    fn dispatch(&mut self, method: Method, url: &str, body: &[u8], run_jobs: bool) -> (Reply, Option<(String, DeviceRecord, ScanRequest)>) {
        let path = request_path(url);
        match route(Some(method), &path) {
            Route::Capabilities => (self.state.capabilities_reply(), None),
            Route::Status => {
                self.refresh_adf();
                (self.state.status_reply(), None)
            }
            Route::CreateJob => {
                let (reply, job) = self.state.create_job(body);
                match job {
                    Some((id, device, req)) if run_jobs => {
                        let result = scan(self.fake, &device, &req);
                        self.state.job_finished(&id, result);
                        (reply, None)
                    }
                    other => (reply, other),
                }
            }
            Route::NextDocument => (self.state.next_document(&path), None),
            Route::DeleteJob => (self.state.delete_job(&path), None),
            Route::NotFound => (not_found(&path), None),
        }
    }

    fn get_text(&mut self, url: &str) -> String {
        String::from_utf8_lossy(&self.dispatch(Method::Get, url, &[], true).0.body).into_owned()
    }

    fn location(reply: &Reply) -> String {
        reply.headers.iter().find(|(k, _)| k == "Location").map(|(_, v)| v.clone()).expect("Location")
    }

    fn next_document(&mut self, loc: &str) -> Reply {
        self.dispatch(Method::Get, &format!("{loc}/NextDocument"), &[], true).0
    }
}

fn last_ticket(fake: &Fake) -> Option<ScanRequest> {
    parse_job_ticket(&fake.last_create_job_xml())
}

#[test]
fn facade_adf_status_and_scan_region() {
    let fake = Fake::start();
    let (_store, rec) = add_fake(&fake);
    let mut bridge = Bridge::new(&fake, Some(rec));
    fake.set_paper_in_adf(true);
    let loaded = bridge.get_text("/eSCL/ScannerStatus");
    assert!(loaded.contains("ScannerAdfLoaded"), "{loaded}");
    fake.set_paper_in_adf(false);
    let empty = bridge.get_text("/eSCL/ScannerStatus");
    assert!(empty.contains("ScannerAdfEmpty"), "{empty}");

    let req = ScanRequest {
        source: ScanSource::Platen,
        color: ColorMode::Color,
        dpi: 300,
        format: OutputFormat::Jpeg,
        output: None,
        region: Some(ScanRegion { x: 100, y: 200, width: 3000, height: 4000 }),
    };
    let settings = scan_settings_xml(&req);
    assert!(settings.contains("ScanRegionWidth>3000"));
    let (created, _) = bridge.dispatch(Method::Post, "/eSCL/ScanJobs", settings.as_bytes(), true);
    assert_eq!(created.status, 201, "{}", String::from_utf8_lossy(&created.body));
    let loc = Bridge::location(&created);
    let doc = bridge.next_document(&loc);
    assert_eq!(doc.status, 200, "region");
    let ticket = last_ticket(&fake).expect("facade forwarded SOAP");
    let region = ticket.region.expect("ScanRegion on backend ticket");
    assert_eq!(region.width, 3000);
    assert_eq!(region.x, 100);
}

#[test]
fn scanjobs_returns_201_before_pixels_and_status_works() {
    let fake = Fake::start();
    let (_store, rec) = add_fake(&fake);
    let mut bridge = Bridge::new(&fake, Some(rec));
    let settings = scan_settings_xml(&request(ScanSource::Platen, ColorMode::Color, OutputFormat::Jpeg));
    let retrieves_before = fake.retrieves.get();
    let (created, job) = bridge.dispatch(Method::Post, "/eSCL/ScanJobs", settings.as_bytes(), false);
    assert_eq!(created.status, 201, "{}", String::from_utf8_lossy(&created.body));
    assert_eq!(fake.retrieves.get(), retrieves_before, "ScanJobs must not wait for backend pixels");
    let (status, _) = bridge.dispatch(Method::Get, "/eSCL/ScannerStatus", &[], true);
    assert!((200..300).contains(&status.status), "status during job {}", status.status);
    let text = String::from_utf8_lossy(&status.body).into_owned();
    assert!(text.contains("Processing") || text.contains("ScannerStatus"), "{text}");
    let (id, device, req) = job.expect("a scan to run");
    let result = scan(&fake, &device, &req);
    bridge.state.job_finished(&id, result);
    let loc = Bridge::location(&created);
    let doc = bridge.next_document(&loc);
    assert_eq!(doc.status, 200, "async-job");
    assert!(imagefmt::is_jpeg(&doc.body) || imagefmt::is_pdf(&doc.body));
}

#[test]
fn adf_status_empty_even_when_device_has_adf() {
    let fake = Fake::with(FakeOptions { paper_in_adf: false, ..FakeOptions::default() });
    let (_store, rec) = add_fake(&fake);
    assert!(rec.has_adf, "fixture device has an ADF");
    let mut bridge = Bridge::new(&fake, Some(rec));
    let st = bridge.get_text("/eSCL/ScannerStatus");
    assert!(st.contains("ScannerAdfEmpty"), "has_adf must not imply paper loaded: {st}");
}

#[test]
fn adf_status_loaded_when_paper_in_adf() {
    let fake = Fake::start();
    let (_store, rec) = add_fake(&fake);
    let mut bridge = Bridge::new(&fake, Some(rec));
    let st = bridge.get_text("/eSCL/ScannerStatus");
    assert!(st.contains("ScannerAdfLoaded"), "PaperInADF true must show loaded: {st}");
}

#[test]
fn pwg_region_in_300ths_maps_to_soap_thousandths() {
    let fake = Fake::start();
    let (_store, rec) = add_fake(&fake);
    let mut bridge = Bridge::new(&fake, Some(rec));
    let pwg = r#"<?xml version="1.0"?>
<scan:ScanSettings xmlns:scan="http://schemas.hp.com/imaging/escl/2011/05/03" xmlns:pwg="http://www.pwg.org/schemas/2010/12/sm">
  <pwg:InputSource>Platen</pwg:InputSource>
  <scan:ColorMode>RGB24</scan:ColorMode>
  <scan:XResolution>300</scan:XResolution>
  <pwg:DocumentFormat>image/jpeg</pwg:DocumentFormat>
  <pwg:ScanRegion>
    <pwg:XOffset>30</pwg:XOffset>
    <pwg:YOffset>60</pwg:YOffset>
    <pwg:Width>2550</pwg:Width>
    <pwg:Height>3300</pwg:Height>
  </pwg:ScanRegion>
</scan:ScanSettings>"#;
    let (created, _) = bridge.dispatch(Method::Post, "/eSCL/ScanJobs", pwg.as_bytes(), true);
    assert_eq!(created.status, 201, "{}", String::from_utf8_lossy(&created.body));
    let loc = Bridge::location(&created);
    let doc = bridge.next_document(&loc);
    assert_eq!(doc.status, 200, "pwg-region");
    let region = last_ticket(&fake).expect("SOAP ticket").region.expect("region");
    assert_eq!(region.width, 8500);
    assert_eq!(region.height, 11000);
    assert_eq!(region.x, pwg_300ths_to_thousandths(30));
}

#[test]
fn adf_status_loaded_when_saved_job_protocol_is_wsd() {
    let fake = Fake::start();
    let rec = DeviceRecord {
        id: "wsd-adf".into(),
        name: "M177fw".into(),
        host: HOST.into(),
        job: JobProtocol::Wsd { port: PORT },
        has_escl_caps: true,
        has_platen: true,
        has_adf: true,
        uuid: None,
    };
    let mut bridge = Bridge::new(&fake, Some(rec));
    let st = bridge.get_text("/eSCL/ScannerStatus");
    assert!(st.contains("ScannerAdfLoaded"), "WSD-saved devices must still probe SOAP PaperInADF: {st}");
}

#[test]
fn probe_reads_caps_only_when_platen_and_adf_are_listed() {
    let caps = capabilities_xml(DEFAULT_UUID, "Other MFP");
    let no_adf = "<scan:ScannerCapabilities><scan:Platen/></scan:ScannerCapabilities>".to_string();
    for (doc, expect_caps) in [(caps, true), (no_adf, false)] {
        let t = FnTransport::new(move |req: HttpRequest| {
            if req.url.ends_with("/eSCL/ScannerCapabilities") {
                Ok(HttpResponse { status: 200, headers: vec![], body: doc.as_bytes().to_vec() })
            } else {
                Err(Error::Transport { url: req.url, detail: "down".into() })
            }
        });
        let p = probe_host_ports(&t, "http://10.0.0.9/x", 8289, 80).unwrap();
        assert_eq!(p.host, "10.0.0.9");
        assert_eq!(p.escl_caps, expect_caps);
        assert!(!p.escl_jobs);
        assert!(p.soap.is_none());
        if expect_caps {
            assert_eq!(p.name, "Other MFP");
            match p.preferred {
                Some(JobProtocol::Wsd { port }) => assert_eq!(port, 3911),
                other => panic!("caps only must fall back to WSD on 3911, got {other:?}"),
            }
        } else {
            assert_eq!(p.name, PRODUCT_NAME);
            assert!(p.preferred.is_none());
        }
    }
}

#[test]
fn probe_tries_port_80_then_8080_for_capabilities() {
    let caps = capabilities_xml(DEFAULT_UUID, "Port MFP");
    let seen = RefCell::new(Vec::new());
    let t = FnTransport::new(|req: HttpRequest| {
        seen.borrow_mut().push(req.url.clone());
        if req.url == "http://h:8080/eSCL/ScannerCapabilities" {
            Ok(HttpResponse { status: 200, headers: vec![], body: caps.as_bytes().to_vec() })
        } else if req.url == "http://h:8080/eSCL/ScanJobs" {
            Ok(HttpResponse { status: 200, headers: vec![], body: vec![] })
        } else {
            Err(Error::Transport { url: req.url, detail: "down".into() })
        }
    });
    let p = probe_host_ports(&t, "h", 8289, 9000).unwrap();
    assert!(p.escl_caps && p.escl_jobs);
    assert_eq!(p.name, "Port MFP");
    match p.preferred {
        Some(JobProtocol::Escl { port }) => assert_eq!(port, 9000),
        other => panic!("expected eSCL on the requested port, got {other:?}"),
    }
    let urls = seen.borrow();
    assert_eq!(urls[0], "http://h:9000/eSCL/ScannerCapabilities");
    assert_eq!(urls[1], "http://h:80/eSCL/ScannerCapabilities");
    assert_eq!(urls[2], "http://h:8080/eSCL/ScannerCapabilities");
    assert_eq!(urls[3], "http://h:8080/eSCL/ScanJobs");
}

#[test]
fn fake_answers_each_soap_operation() {
    let opts = FakeOptions::default();
    let fixtures = FakeFixtures {
        escl_capabilities: "CAPS".into(),
        escl_status: "STATUS".into(),
        soap_elements: "<a><PaperInADF>false</PaperInADF></a>".into(),
    };
    let mut st = FakeState::new(&opts);
    let text = |b: &[u8]| String::from_utf8_lossy(b).into_owned();
    let r = st.handle(Some(Method::Post), "/", "<GetScannerElements/>", &opts, &fixtures);
    assert_eq!(r.status, 202);
    assert_eq!(text(&r.body), "<a><PaperInADF>true</PaperInADF></a>");
    let r = st.handle(Some(Method::Get), "/eSCL/ScannerCapabilities", "", &opts, &fixtures);
    assert_eq!((r.status, text(&r.body)), (200, "CAPS".to_string()));
    let r = st.handle(Some(Method::Get), "/eSCL/ScannerStatus", "", &opts, &fixtures);
    assert_eq!((r.status, text(&r.body)), (200, "STATUS".to_string()));
    let dead = FakeOptions { soap_dead: true, escl_caps: false, ..FakeOptions::default() };
    let r = st.handle(Some(Method::Post), "/", "<GetScannerElements/>", &dead, &fixtures);
    assert_eq!((r.status, text(&r.body)), (500, "soap wedged".to_string()));
    let r = st.handle(Some(Method::Get), "/eSCL/ScannerCapabilities", "", &dead, &fixtures);
    assert_eq!(r.status, 404);
    let r = st.handle(Some(Method::Post), "/", "<CreateScanJobRequest/>", &opts, &fixtures);
    assert_eq!(r.status, 200);
    assert!(text(&r.body).contains("<JobId>1</JobId><JobToken>tok-1</JobToken>"));
    assert_eq!(st.job_counter, 1);
    let faulty = FakeOptions { soap_create_fault: true, ..FakeOptions::default() };
    let r = st.handle(Some(Method::Post), "/", "<CreateScanJobRequest/>", &faulty, &fixtures);
    assert_eq!(r.status, 500);
    assert!(text(&r.body).contains("Error 4"));
    assert_eq!(st.job_counter, 1);
    let r = st.handle(Some(Method::Post), "/", "<GetJobInfo><JobId>7</JobId></GetJobInfo>", &opts, &fixtures);
    assert!(text(&r.body).contains("<JobId>7</JobId><JobState>Processing"));
    let r = st.handle(Some(Method::Post), "/", "<RetrieveImageRequest/>", &opts, &fixtures);
    assert_eq!(r.status, 200);
    assert_eq!(r.content_type, "application/dime");
    assert!(imagefmt::is_jpeg(&hp_m177::dime::extract_image(&r.body).unwrap()));
    let r = st.handle(Some(Method::Post), "/", "<RetrieveImageRequest/>", &opts, &fixtures);
    assert_eq!(r.status, 400);
    let r = st.handle(Some(Method::Post), "/", "<CancelJob/>", &opts, &fixtures);
    assert_eq!((r.status, text(&r.body)), (200, "<ok/>".to_string()));
    let r = st.handle(Some(Method::Get), "/nowhere", "", &opts, &fixtures);
    assert_eq!((r.status, text(&r.body)), (404, "unknown fake request /nowhere".to_string()));
}

/// The fake behind a transport that answers the first `left` SOAP
/// CreateScanJob posts with a busy fault (HTTP 500, "Error 13").
struct BusyFake<'a> {
    fake: &'a Fake,
    left: Cell<u32>,
    creates: Cell<u32>,
}

impl Transport for BusyFake<'_> {
    fn answers(&self, _req: HttpRequest, _reply: hp_m177::Result<HttpResponse>) -> bool {
        true
    }

    fn execute(&self, req: HttpRequest) -> hp_m177::Result<HttpResponse> {
        let body = String::from_utf8_lossy(&req.body).into_owned();
        if body.contains("CreateScanJob") && !req.url.contains("/scanner") {
            self.creates.set(self.creates.get() + 1);
            if self.left.get() > 0 {
                self.left.set(self.left.get() - 1);
                let fault = hp_m177::fake::CREATE_FAULT.replace("Error 4", "Error 13 device busy");
                return Err(Error::Http { status: 500, url: req.url, detail: fault });
            }
        }
        self.fake.execute(req)
    }
}

#[test]
fn soap_busy_error13_retries_then_scans() {
    let fake = Fake::start();
    let t = BusyFake { fake: &fake, left: Cell::new(2), creates: Cell::new(0) };
    let rec = record("b", JobProtocol::Soap { port: PORT });
    let req = request(ScanSource::Platen, ColorMode::Color, OutputFormat::Jpeg);
    let out = run_scan(&t, &fake.clock_ms, &rec, &req).expect("retry after Error 13");
    assert!(imagefmt::is_jpeg(&out.bytes));
    assert!(fake.last_create_job_xml().contains("CreateScanJob"));
    assert!(fake.last_wsd_create_xml().is_empty(), "a busy device is retried over SOAP, not WSD");
    assert_eq!(t.creates.get(), 3, "full + short create while busy, then the retry");
}

/// One bridge session: capabilities, status, a platen JPEG job and its document.
fn cycle(label: &str) {
    let fake = Fake::start();
    let (_store, rec) = add_fake(&fake);
    let mut bridge = Bridge::new(&fake, Some(rec));
    let xml = bridge.get_text("/eSCL/ScannerCapabilities");
    assert!(
        capabilities_mention_required_features(&xml),
        "{label} capabilities missing platen/ADF/color/gray/jpeg/pdf:\n{xml}"
    );
    assert!(xml.contains("RGB24") && xml.contains("Grayscale8"));
    let st = bridge.get_text("/eSCL/ScannerStatus");
    assert!(st.contains("ScannerStatus"));
    assert!(st.contains("AdfState") || st.contains("Idle"));
    let settings = scan_settings_xml(&request(ScanSource::Platen, ColorMode::Color, OutputFormat::Jpeg));
    let (created, _) = bridge.dispatch(Method::Post, "/eSCL/ScanJobs", settings.as_bytes(), true);
    assert_eq!(created.status, 201, "{label} ScanJobs {}", String::from_utf8_lossy(&created.body));
    let loc = Bridge::location(&created);
    let doc = bridge.next_document(loc.trim_end_matches('/'));
    assert_eq!(doc.status, 200, "{label} NextDocument");
    assert!(imagefmt::is_jpeg(&doc.body) || imagefmt::is_pdf(&doc.body), "{label} document is not JPEG/PDF");
    let ticket = last_ticket(&fake).expect("facade forwarded a SOAP job");
    assert_eq!(ticket.source, ScanSource::Platen);
    assert_eq!(ticket.color, ColorMode::Color);
}

#[test]
fn escl_launch_twice() {
    cycle("run-1");
    cycle("run-2");
}

#[test]
fn escl_pdf_job() {
    let fake = Fake::start();
    let (_store, rec) = add_fake(&fake);
    let mut bridge = Bridge::new(&fake, Some(rec));
    let settings = scan_settings_xml(&request(ScanSource::Adf, ColorMode::Gray, OutputFormat::Pdf));
    let (created, _) = bridge.dispatch(Method::Post, "/eSCL/ScanJobs", settings.as_bytes(), true);
    assert_eq!(created.status, 201, "{}", String::from_utf8_lossy(&created.body));
    let loc = Bridge::location(&created);
    let doc = bridge.next_document(&loc);
    assert_eq!(doc.status, 200, "pdf");
    assert!(imagefmt::is_pdf(&doc.body));
    let ticket = last_ticket(&fake).unwrap();
    assert_eq!(ticket.source, ScanSource::Adf);
    assert_eq!(ticket.color, ColorMode::Gray);
}
