use hp_m177::advertise::uscan_txt_records;
use hp_m177::dime::{decode, encode, extract_image, wrap_soap_and_jpeg, wrap_soap_and_jpeg_chunked, DimeRecord};
use hp_m177::discovery::{likely_m177, parse_browse_instances, parse_resolve_host_port};
use hp_m177::escl::{
    default_capabilities_xml, looks_like_capabilities, parse_device_caps_summary,
    parse_scan_settings, pwg_300ths_to_thousandths, scan_settings_xml,
};
use hp_m177::facade::soap_probe_ports;
use hp_m177::imagefmt::{
    decode_bmp_or_dib, decoded_to_lineart, decoded_to_rgb, decoded_to_tiff, is_bmp, is_jpeg,
    bitfields_bgra_bmp, gray_to_jpeg, is_pdf, is_tiff, jpeg_comment, jpeg_dimensions, jpeg_to_pdf,
    jpeg_to_pdf_at_dpi, jpeg_to_tiff, raster_to_jpeg, rgb_to_jpeg, rgb_to_tiff, solid_bmp_bgra,
    synthetic_jpeg,
};
use hp_m177::cli::{
    added_line, discover_line, job_debug, list_line, no_adverts_line, print_add_line, probe_lines,
    wrote_line,
};
use hp_m177::model::{
    ColorMode, DeviceRecord, DiscoveredDevice, JobProtocol, OutputFormat, PrintAddOutcome,
    ProbeResult, ScanOutput, ScanRegion, ScanRequest, ScanSource, DEFAULT_SOAP_PORT,
};
use hp_m177::printadd::{looks_like_m177, parse_lpstat_v, QueueInfo};
use hp_m177::scan::{
    SOAP_FAST_TIMEOUT_MS, SOAP_JOBINFO_DEADLINE_MS, SOAP_JOBINFO_TIMEOUT_MS,
    SOAP_RETRIEVE_TIMEOUT_MS, WSD_CREATE_TIMEOUT_MS, WSD_RETRIEVE_TIMEOUT_MS,
};
use hp_m177::soap::{create_scan_job_xml, parse_capabilities, parse_job_ticket};
use hp_m177::xmlutil::{contains_local, first_text, texts_named};
use std::collections::HashMap;

/// One DIME record laid out by hand (version 1, no options, no id).
fn dime_bytes(mb: bool, me: bool, cf: bool, tnf: u8, typ: &[u8], data: &[u8]) -> Vec<u8> {
    let mut out = Vec::new();
    let mut flags = 0x08u8;
    if mb {
        flags |= 0x04;
    }
    if me {
        flags |= 0x02;
    }
    if cf {
        flags |= 0x01;
    }
    out.push(flags);
    out.push(tnf << 4);
    out.extend_from_slice(&[0, 0, 0, 0]);
    out.extend_from_slice(&(typ.len() as u16).to_be_bytes());
    out.extend_from_slice(&(data.len() as u32).to_be_bytes());
    out.extend_from_slice(typ);
    out.resize(out.len() + (4 - typ.len() % 4) % 4, 0);
    out.extend_from_slice(data);
    out.resize(out.len() + (4 - data.len() % 4) % 4, 0);
    out
}

/// A small baseline JPEG: SOI, a comment, EOI.
fn tiny_jpeg() -> Vec<u8> {
    vec![0xff, 0xd8, 0xff, 0xfe, 0x00, 0x05, b'a', b'b', b'c', 0xff, 0xd9]
}

fn mfp_record(job: JobProtocol) -> DeviceRecord {
    DeviceRecord {
        id: "w".into(),
        name: "M177fw".into(),
        host: "127.0.0.1".into(),
        job,
        has_escl_caps: true,
        has_platen: true,
        has_adf: true,
        uuid: None,
    }
}

const LIVE_CAPS: &str = r#"<?xml version="1.0" encoding="UTF-8"?>
<scan:ScannerCapabilities xmlns:scan="http://schemas.hp.com/imaging/escl/2011/05/03" xmlns:pwg="http://www.pwg.org/schemas/2010/12/sm">
  <pwg:Version>2.63</pwg:Version>
  <pwg:MakeAndModel>HP Color LaserJet Pro MFP M177fw</pwg:MakeAndModel>
  <pwg:SerialNumber>CNB1234567</pwg:SerialNumber>
  <scan:Platen>
    <scan:PlatenInputCaps>
      <scan:MinWidth>8</scan:MinWidth>
      <scan:MaxWidth>2550</scan:MaxWidth>
      <scan:SettingProfiles><scan:SettingProfile>
        <scan:ColorModes><scan:ColorMode>RGB24</scan:ColorMode><scan:ColorMode>Grayscale8</scan:ColorMode></scan:ColorModes>
        <scan:DocumentFormats><pwg:DocumentFormat>image/jpeg</pwg:DocumentFormat><pwg:DocumentFormat>application/pdf</pwg:DocumentFormat></scan:DocumentFormats>
      </scan:SettingProfile></scan:SettingProfiles>
    </scan:PlatenInputCaps>
  </scan:Platen>
  <scan:Adf>
    <scan:AdfSimplexInputCaps>
      <scan:MinWidth>8</scan:MinWidth>
      <scan:MaxWidth>2550</scan:MaxWidth>
    </scan:AdfSimplexInputCaps>
  </scan:Adf>
</scan:ScannerCapabilities>"#;

const LIVE_ELEMENTS: &str = r#"<?xml version="1.0" encoding="UTF-8"?>
<SOAP-ENV:Envelope xmlns:SOAP-ENV="http://schemas.xmlsoap.org/soap/envelope/" xmlns:wscn="http://tempuri.org/wscn.xsd"><SOAP-ENV:Body>
<wscn:GetScannerElementsResponse><ScannerElements>
<ScannerConfiguration>
<DeviceSettings><FormatsSupported><item>jfif</item><item>hpraw</item></FormatsSupported>
<ColorEntriesSupported><item>RGB24</item><item>GrayScale8</item><item>BlackAndWhite1</item></ColorEntriesSupported></DeviceSettings>
<Platen><FlatbedSupported>true</FlatbedSupported><PlatenMinimumSize><Width>1</Width><Height>1</Height></PlatenMinimumSize>
<PlatenMaximumSize><Width>8500</Width><Height>11690</Height></PlatenMaximumSize><PlatenOpticalResolution><Width>1200</Width><Height>1200</Height></PlatenOpticalResolution></Platen>
<ADF><ADFSupported>true</ADFSupported><ADFSupportsDuplex>false</ADFSupportsDuplex><ADFMinimumSize><Width>1</Width><Height>1</Height></ADFMinimumSize>
<ADFMaximumSize><Width>8500</Width><Height>14000</Height></ADFMaximumSize><ADFOpticalResolution><Width>300</Width><Height>300</Height></ADFOpticalResolution></ADF>
</ScannerConfiguration>
<ScannerStatus><ScannerState>Idle</ScannerState><PaperInADF>false</PaperInADF></ScannerStatus>
</ScannerElements></wscn:GetScannerElementsResponse>
</SOAP-ENV:Body></SOAP-ENV:Envelope>"#;

#[test]
fn txt_records_match_airscan_expectations() {
    let map: HashMap<_, _> = uscan_txt_records().into_iter().collect();
    assert_eq!(map["rs"], "eSCL");
    assert_eq!(map["is"], "platen,adf");
    assert!(map["cs"].contains("color"));
    assert!(map["cs"].contains("grayscale"));
    assert!(map["pdl"].contains("image/jpeg"));
    assert!(map["pdl"].contains("application/pdf"));
}

#[test]
fn spec_fixture_extracts_jpeg() {
    let mut raw = dime_bytes(true, false, false, 1, b"text/xml", b"<SOAP-ENV:Envelope/>");
    raw.extend(dime_bytes(false, true, false, 1, b"image/jpeg", &tiny_jpeg()));
    let recs = decode(&raw).expect("decode spec message");
    assert_eq!(recs.len(), 2);
    assert!(recs[0].first);
    assert!(!recs[0].last);
    assert!(recs[1].last);
    assert_eq!(recs[0].type_str(), "text/xml");
    assert_eq!(recs[1].type_str(), "image/jpeg");
    let jpeg = extract_image(&raw).unwrap();
    assert_eq!(&jpeg[..2], &[0xff, 0xd8]);
    assert_eq!(&jpeg[jpeg.len() - 2..], &[0xff, 0xd9]);
}

#[test]
fn roundtrip_two_records() {
    let body = wrap_soap_and_jpeg(b"<ok/>", &[0xff, 0xd8, 0x00, 0xff, 0xd9]);
    let recs = decode(&body).unwrap();
    assert_eq!(recs.len(), 2);
    assert_eq!(recs[1].data, [0xff, 0xd8, 0x00, 0xff, 0xd9]);
}

#[test]
fn chunked_continuation_is_concatenated() {
    let jpeg = [0xff, 0xd8, 1, 2, 3, 4, 0xff, 0xd9];
    let body = wrap_soap_and_jpeg_chunked(b"<ok/>", &jpeg, 3);
    let recs = decode(&body).unwrap();
    assert!(recs.iter().any(|r| r.chunked), "CF bit must be set on a chunk");
    let got = extract_image(&body).unwrap();
    assert_eq!(got, jpeg);
}

#[test]
fn chunked_fixture_is_consumed_by_shipped_extractor() {
    // SOAP part, then the image in three chunks: the first typed, the
    // continuations with TNF "unchanged" and no type.
    let jpeg = tiny_jpeg();
    let mut raw = dime_bytes(true, false, false, 1, b"text/xml", b"<SOAP-ENV:Envelope/>");
    raw.extend(dime_bytes(false, false, true, 1, b"image/jpeg", &jpeg[..4]));
    raw.extend(dime_bytes(false, false, true, 0, b"", &jpeg[4..8]));
    raw.extend(dime_bytes(false, true, false, 0, b"", &jpeg[8..]));
    let got = extract_image(&raw).unwrap();
    assert_eq!(&got[..2], &[0xff, 0xd8]);
    assert_eq!(&got[got.len() - 2..], &[0xff, 0xd9]);
    assert!(got.len() > 4);
    assert_eq!(got, jpeg);
}

#[test]
fn cf_clear_second_typed_record_is_not_glued() {
    let first = [0xff, 0xd8, 1, 2, 0xff, 0xd9];
    let second = [0xff, 0xd8, 9, 9, 9, 0xff, 0xd9];
    let body = encode(&[
        DimeRecord::media("text/xml", b"<ok/>".to_vec()),
        DimeRecord::media("image/jpeg", first.to_vec()),
        DimeRecord::media("image/jpeg", second.to_vec()),
    ]);
    let got = extract_image(&body).unwrap();
    assert_eq!(got, first, "only the first CF-clear image record");
}

#[test]
fn classifies_bonjour_names_from_this_mfp() {
    let hit = DiscoveredDevice {
        name: "HP Color LaserJet Pro MFP M177fw[26BA77]".into(),
        host: "DEV26BA77.local".into(),
        service: "_ipp._tcp.local.".into(),
        port: 631,
    };
    let miss = DiscoveredDevice {
        name: "Office Laser".into(),
        host: "printer.local".into(),
        service: "_ipp._tcp.local.".into(),
        port: 631,
    };
    assert!(likely_m177(&hit));
    assert!(!likely_m177(&miss));
}

#[test]
fn parses_recorded_dns_sd_browse_and_resolve() {
    let browse = "\
22:00:18.863  Add        3  16 local.               _uscan._tcp.         HP M177fw (hp-m177)\n\
22:00:18.863  Add        2  18 local.               _uscan._tcp.         HP M177fw (hp-m177)\n";
    let names = parse_browse_instances(browse, "_uscan._tcp");
    assert_eq!(names, ["HP M177fw (hp-m177)"]);
    let resolve = "\
HP\\032M177fw\\032(hp-m177)._uscan._tcp.local. can be reached at mac-studio.local.:18090 (interface 16)\n\
 txtvers=1 vers=2.63 rs=eSCL ty=HP\\ Color\\ LaserJet\\ Pro\\ MFP\\ M177fw pdl=image/jpeg,application/pdf cs=color,grayscale is=platen,adf duplex=F\n";
    let (host, port) = parse_resolve_host_port(resolve).expect("resolve");
    assert_eq!(host, "mac-studio.local");
    assert_eq!(port, 18090);
}

#[test]
fn facade_capabilities_name_required_sources_and_formats() {
    let xml = default_capabilities_xml();
    assert!(xml.contains("Platen"));
    assert!(xml.contains("Adf"));
    assert!(xml.contains("RGB24"));
    assert!(xml.contains("Grayscale8"));
    assert!(xml.contains("image/jpeg"));
    assert!(xml.contains("application/pdf"));
}

#[test]
fn parse_settings_roundtrip() {
    let req = ScanRequest {
        source: ScanSource::Adf,
        color: ColorMode::Gray,
        dpi: 300,
        format: OutputFormat::Pdf,
        output: None,
        region: None,
    };
    let parsed = parse_scan_settings(&scan_settings_xml(&req)).unwrap();
    assert_eq!(parsed.source, ScanSource::Adf);
    assert_eq!(parsed.color, ColorMode::Gray);
    assert_eq!(parsed.dpi, 300);
    assert_eq!(parsed.format, OutputFormat::Pdf);
    assert!(parsed.region.is_none());
    let mut cropped = req;
    cropped.region = Some(ScanRegion { x: 100, y: 200, width: 3000, height: 4000 });
    let again = parse_scan_settings(&scan_settings_xml(&cropped)).unwrap();
    assert_eq!(again.region.unwrap().width, 3000);
    let pwg = r#"<?xml version="1.0"?>
<scan:ScanSettings xmlns:scan="http://schemas.hp.com/imaging/escl/2011/05/03" xmlns:pwg="http://www.pwg.org/schemas/2010/12/sm">
  <pwg:InputSource>Platen</pwg:InputSource>
  <pwg:ScanRegion>
    <pwg:XOffset>30</pwg:XOffset>
    <pwg:YOffset>60</pwg:YOffset>
    <pwg:Width>2550</pwg:Width>
    <pwg:Height>3300</pwg:Height>
  </pwg:ScanRegion>
</scan:ScanSettings>"#;
    let mapped = parse_scan_settings(pwg).unwrap().region.unwrap();
    assert_eq!(mapped.x, pwg_300ths_to_thousandths(30));
    assert_eq!(mapped.width, 8500);
    assert_eq!(mapped.height, 11000);
}

#[test]
fn live_device_caps_fixture_is_escl() {
    let xml = LIVE_CAPS;
    assert!(looks_like_capabilities(xml));
    let (platen, adf, _) = parse_device_caps_summary(xml);
    assert!(platen && adf);
    assert!(texts_named(xml, "DocumentFormat")
        .iter()
        .any(|f| f.contains("jpeg") || f.contains("pdf")));
    assert!(first_text(xml, "MakeAndModel").unwrap().contains("M177fw"));
}

#[test]
fn soap_probe_ports_try_job_then_default_soap() {
    let wsd = mfp_record(JobProtocol::Wsd { port: 3911 });
    assert_eq!(soap_probe_ports(&wsd), vec![3911, DEFAULT_SOAP_PORT]);
    let soap = DeviceRecord {
        job: JobProtocol::Soap { port: DEFAULT_SOAP_PORT },
        ..wsd.clone()
    };
    assert_eq!(soap_probe_ports(&soap), vec![DEFAULT_SOAP_PORT]);
}

#[test]
fn synthetic_jpeg_and_pdf_are_structurally_valid() {
    let jpg = synthetic_jpeg("source=Platen color=RGB24 dpi=300", ColorMode::Color);
    assert!(is_jpeg(&jpg));
    assert_eq!(jpeg_dimensions(&jpg), Some((8, 8)));
    assert_eq!(
        jpeg_comment(&jpg).as_deref(),
        Some("source=Platen color=RGB24 dpi=300")
    );
    let pdf = jpeg_to_pdf(&jpg).unwrap();
    assert!(is_pdf(&pdf));
    assert!(pdf.windows(b"/Type /Page".len()).any(|w| w == b"/Type /Page"));
}

#[test]
fn bmp_roundtrip_to_jpeg_and_tiff() {
    let bmp = solid_bmp_bgra(2, 2, 0, 0, 255);
    assert!(is_bmp(&bmp));
    let (w, h, rgb) = decode_bmp_or_dib(&bmp).unwrap();
    assert_eq!((w, h), (2, 2));
    assert_eq!(&rgb[0..3], &[255, 0, 0]);
    let jpeg = raster_to_jpeg(&bmp).unwrap();
    assert!(is_jpeg(&jpeg));
    let tiff = rgb_to_tiff(&rgb, w, h, 300).unwrap();
    assert!(is_tiff(&tiff));
}

#[test]
fn detects_existing_airprint_queue() {
    let text = "device for HP_Color_LaserJet_Pro_MFP_M177fw: dnssd://HP%20Color%20LaserJet%20Pro%20MFP%20M177fw%5B26BA77%5D._ipp._tcp.local./?uuid=8adb6a9a-f28e-31fc-15de-50e0c4efdd92\n";
    let qs = parse_lpstat_v(text);
    assert_eq!(qs[0].0, "HP_Color_LaserJet_Pro_MFP_M177fw");
    let q = QueueInfo { name: qs[0].0.clone(), uri: qs[0].1.clone() };
    assert!(looks_like_m177(&q));
}

#[test]
fn job_timeouts_match_short_policy() {
    assert_eq!(SOAP_FAST_TIMEOUT_MS, 8_000);
    assert_eq!(SOAP_JOBINFO_TIMEOUT_MS, 4_000);
    assert_eq!(SOAP_JOBINFO_DEADLINE_MS, 20_000);
    assert_eq!(SOAP_RETRIEVE_TIMEOUT_MS, 20_000);
    assert_eq!(WSD_CREATE_TIMEOUT_MS, 8_000);
    assert!(WSD_RETRIEVE_TIMEOUT_MS <= 90_000);
}

#[test]
fn create_job_xml_carries_user_options() {
    let req = ScanRequest {
        source: ScanSource::Adf,
        color: ColorMode::Gray,
        dpi: 300,
        format: OutputFormat::Jpeg,
        output: None,
        region: None,
    };
    let xml = create_scan_job_xml(&req, "job-1");
    assert!(xml.contains("CreateScanJobRequest"));
    assert!(xml.contains("<InputSource"));
    assert!(xml.contains(">ADF<"));
    assert!(xml.contains("GrayScale8"));
    assert!(xml.contains(">300<"));
    assert!(xml.contains("jfif"));
    let parsed = parse_job_ticket(&xml).unwrap();
    assert_eq!(parsed.source, ScanSource::Adf);
    assert_eq!(parsed.color, ColorMode::Gray);
    assert_eq!(parsed.dpi, 300);
}

#[test]
fn parse_live_get_scanner_elements_fixture() {
    let caps = parse_capabilities(LIVE_ELEMENTS).unwrap();
    assert!(caps.platen);
    assert!(caps.adf);
    assert!(!caps.adf_duplex);
    assert!(caps.supports_color(ColorMode::Color));
    assert!(caps.supports_color(ColorMode::Gray));
    assert!(caps.formats.iter().any(|f| f == "jfif"));
    assert_eq!(caps.state, "Idle");
}

#[test]
fn create_job_xml_is_wsd_dib() {
    let req = ScanRequest {
        source: ScanSource::Platen,
        color: ColorMode::Color,
        dpi: 300,
        format: OutputFormat::Jpeg,
        output: None,
        region: None,
    };
    let xml = hp_m177::wsd::create_scan_job_xml("http://192.168.50.14:3911/scanner", &req);
    assert!(xml.contains("CreateScanJobRequest"));
    assert!(xml.contains("<sca:Format>dib</sca:Format>"));
    assert!(xml.contains(">Platen<"));
    assert!(xml.contains("RGB24"));
    assert!(xml.contains(">300<"));
    assert!(xml.contains(hp_m177::wsd::WSD_SCAN_NS));
    assert!(xml.contains(hp_m177::wsd::ACTION_CREATE));
}

#[test]
fn extract_mtom_bmp_uses_bfsize() {
    let bmp = solid_bmp_bgra(2, 2, 0, 0, 255);
    let mut body = Vec::new();
    body.extend_from_slice(b"--==bound\r\nContent-Type: application/xop+xml\r\n\r\n<SOAP/>\r\n--==bound\r\nContent-Type: image/bmp\r\n\r\n");
    body.extend_from_slice(&bmp);
    body.extend_from_slice(b"\r\n--==bound--\r\n");
    let got = hp_m177::wsd::extract_image(&body).unwrap();
    assert!(is_bmp(&got));
    assert_eq!(got, bmp);
    let jpeg = raster_to_jpeg(&got).unwrap();
    assert!(is_jpeg(&jpeg));
}

#[test]
fn strips_prefixes_and_finds_text() {
    let xml = r#"<wscn:ScanElements><item>jfif</item><item>hpraw</item></wscn:ScanElements>"#;
    assert_eq!(texts_named(xml, "item"), ["jfif", "hpraw"]);
    assert_eq!(first_text(xml, "ScanElements").as_deref(), None);
    assert!(contains_local(xml, "ScanElements"));
}

#[test]
fn mtom_wrapped_bmp_is_extracted_unchanged() {
    let bmp = solid_bmp_bgra(3, 2, 10, 20, 30);
    let body = hp_m177::wsd::wrap_bmp_mtom(&bmp);
    assert!(body.len() > bmp.len());
    assert_eq!(hp_m177::wsd::extract_image(&body).unwrap(), bmp);
}

#[test]
fn cli_report_lines_match_debug_formatting() {
    for j in [JobProtocol::Soap { port: 8289 }, JobProtocol::Escl { port: 80 }, JobProtocol::Wsd { port: 3911 }] {
        assert_eq!(job_debug(j), format!("{:?}", j));
    }
    let rec = mfp_record(JobProtocol::Soap { port: 8289 });
    assert_eq!(added_line(&rec), "Added scanner w (M177fw) at 127.0.0.1 via Soap { port: 8289 }");
    assert_eq!(list_line(&rec), "w\tM177fw\t127.0.0.1\tSoap { port: 8289 }");
    assert_eq!(no_adverts_line(3), "No IPP/scanner advertisements seen in 3s.");
    let d = DiscoveredDevice {
        name: "HP Color LaserJet MFP M177fw".into(),
        host: "DEV26BA77.local".into(),
        service: "_uscan._tcp".into(),
        port: 8080,
    };
    assert_eq!(discover_line(&d), "HP Color LaserJet MFP M177fw  DEV26BA77.local:8080  _uscan._tcp  (likely M177fw)");
    let other = DiscoveredDevice { name: "Office".into(), host: "office.local".into(), service: "_ipp._tcp".into(), port: 631 };
    assert_eq!(discover_line(&other), "Office  office.local:631  _ipp._tcp");
    let out = ScanOutput {
        bytes: vec![1, 2, 3],
        format: OutputFormat::Jpeg,
        source: ScanSource::Adf,
        color: ColorMode::Gray,
        dpi: 300,
    };
    assert_eq!(wrote_line("/tmp/a.jpg", &out), "Wrote /tmp/a.jpg (3 bytes, adf gray 300dpi)");
    let p = ProbeResult {
        host: "10.0.0.5".into(),
        name: "M177".into(),
        soap: None,
        escl_caps: true,
        escl_jobs: false,
        preferred: Some(JobProtocol::Wsd { port: 3911 }),
    };
    assert_eq!(
        probe_lines(&p),
        vec![
            "host: 10.0.0.5".to_string(),
            "name: M177".to_string(),
            "escl_caps: true".to_string(),
            "escl_jobs: false".to_string(),
            "soap: false".to_string(),
            format!("preferred: {:?}", p.preferred),
        ]
    );
    assert_eq!(
        print_add_line(&PrintAddOutcome::Added { queue: "HP_M177".into(), uri: "ipp://h/ipp/print".into() }),
        "Added AirPrint queue HP_M177 -> ipp://h/ipp/print"
    );
    assert_eq!(
        print_add_line(&PrintAddOutcome::LeftExisting { queue: "HP_M177".into() }),
        "Left existing print queue HP_M177 in place."
    );
    assert_eq!(print_add_line(&PrintAddOutcome::Skipped { reason: "no lpadmin".into() }), "Skipped add-printer: no lpadmin");
}

const ENVELOPE_HEAD: &str = r#"<?xml version="1.0" encoding="utf-8"?>
<SOAP-ENV:Envelope xmlns:xsd="http://www.w3.org/2001/XMLSchema" xmlns:xsi="http://www.w3.org/2001/XMLSchema-instance" xmlns:SOAP-ENC="http://www.w3.org/2003/05/soap-encoding" SOAP-ENV:encodingStyle="http://www.w3.org/2003/05/soap-encoding" xmlns:SOAP-ENV="http://www.w3.org/2003/05/soap-envelope" xmlns:wscn="http://tempuri.org/wscn.xsd"><SOAP-ENV:Body>"#;

#[test]
fn soap_requests_keep_the_device_wire_format() {
    assert_eq!(
        hp_m177::soap::get_scanner_elements_xml(),
        format!("{ENVELOPE_HEAD}<GetScannerElements xmlns=\"http://tempuri.org/wscn.xsd\"/></SOAP-ENV:Body></SOAP-ENV:Envelope>")
    );
    let req = ScanRequest {
        source: ScanSource::Adf,
        color: ColorMode::Gray,
        dpi: 300,
        format: OutputFormat::Jpeg,
        output: None,
        region: Some(ScanRegion { x: 10, y: 20, width: 3000, height: 4000 }),
    };
    let (mw, mh) = req.media_size();
    let expected = format!(
        r#"{ENVELOPE_HEAD}<wscn:CreateScanJobRequest>
<ScanIdentifier xsi:type="xsd:string">a&amp;b&lt;</ScanIdentifier>
<ScanTicket xmlns="http://tempuri.org/wscn.xsd" xsi:type="ScanTicketType">
<JobDescription xmlns="http://tempuri.org/wscn.xsd" xsi:type="JobDescriptionType">
<JobOriginatingUserName xsi:type="xsd:string">hp-m177</JobOriginatingUserName>
<JobName xsi:type="xsd:string">hp-m177-scan</JobName>
</JobDescription>
<DocumentParameters xmlns="http://tempuri.org/wscn.xsd" xsi:type="DocumentParametersType">
<Format xmlns="http://tempuri.org/wscn.xsd" xsi:type="ScanDocumentFormat">jfif</Format>
<ImagesToTransfer xsi:type="xsd:int">0</ImagesToTransfer>
<Exposure xmlns="http://tempuri.org/wscn.xsd" xsi:type="ScanExposureType">
<AutoExposure xsi:type="xsd:boolean">true</AutoExposure>
<ExposureSettings xmlns="http://tempuri.org/wscn.xsd" xsi:type="ExposureSettingsOverrideType">
<Contrast xsi:type="xsd:int">0</Contrast>
</ExposureSettings>
</Exposure>
<ContentType xsi:type="ContentType">Auto</ContentType>
<CompressionQualityFactor xsi:type="xsd:int">0</CompressionQualityFactor>
<InputSource xsi:type="ScanInputSource">ADF</InputSource>
<InputSize xmlns="http://tempuri.org/wscn.xsd" xsi:type="DocumentInputSizeType">
<InputMediaSize xmlns="http://tempuri.org/wscn.xsd" xsi:type="DimensionsType">
<Width xsi:type="xsd:int">{mw}</Width>
<Height xsi:type="xsd:int">{mh}</Height>
</InputMediaSize>
</InputSize>
<MediaSides xmlns="http://tempuri.org/wscn.xsd" xsi:type="MediaSideOverrideType">
<MediaFront xmlns="http://tempuri.org/wscn.xsd" xsi:type="MediaSideOverrideType">
<Resolution xmlns="http://tempuri.org/wscn.xsd" xsi:type="MediaSideOverrideType">
<Width xsi:type="xsd:int">300</Width>
<Height xsi:type="xsd:int">300</Height>
</Resolution>
<ScanRegion xmlns="http://tempuri.org/wscn.xsd" xsi:type="ScanRegionType">
<ScanRegionXOffset xsi:type="xsd:int">10</ScanRegionXOffset>
<ScanRegionYOffset xsi:type="xsd:int">20</ScanRegionYOffset>
<ScanRegionHeight xsi:type="xsd:int">4000</ScanRegionHeight>
<ScanRegionWidth xsi:type="xsd:int">3000</ScanRegionWidth>
</ScanRegion>
<ColorProcessing xsi:type="ColorEntryType">GrayScale8</ColorProcessing>
</MediaFront>
</MediaSides>
</DocumentParameters>
<RetrieveImageTimeout xsi:type="xsd:int">1800</RetrieveImageTimeout>
</ScanTicket>
</wscn:CreateScanJobRequest></SOAP-ENV:Body></SOAP-ENV:Envelope>"#
    );
    assert_eq!(create_scan_job_xml(&req, "a&b<"), expected);
    assert_eq!(
        hp_m177::soap::get_job_info_xml("7"),
        format!("{ENVELOPE_HEAD}<wscn:GetJobInfo>\n<JobId xsi:type=\"xsd:int\">7</JobId>\n</wscn:GetJobInfo></SOAP-ENV:Body></SOAP-ENV:Envelope>")
    );
}

#[test]
fn job_ticket_reads_back_as_the_request() {
    let req = ScanRequest {
        source: ScanSource::Platen,
        color: ColorMode::Lineart,
        dpi: 600,
        format: OutputFormat::Pdf,
        output: None,
        region: Some(ScanRegion { x: 100, y: 200, width: 4000, height: 5000 }),
    };
    let back = parse_job_ticket(&create_scan_job_xml(&req, "id-\u{e9}<&>")).unwrap();
    assert_eq!(back.source, ScanSource::Platen);
    assert_eq!(back.color, ColorMode::Lineart);
    assert_eq!(back.dpi, 600);
    assert_eq!(back.format, OutputFormat::Jpeg);
    assert_eq!(back.region, Some(ScanRegion { x: 100, y: 200, width: 4000, height: 5000 }));
    let full = ScanRequest { source: ScanSource::Adf, region: None, dpi: 75, color: ColorMode::Color, ..req };
    let back = parse_job_ticket(&create_scan_job_xml(&full, "x")).unwrap();
    assert_eq!(back.source, ScanSource::Adf);
    assert_eq!(back.color, ColorMode::Color);
    assert_eq!(back.dpi, 75);
    assert_eq!(back.region, Some(full.region_or_full()));
}

#[test]
fn decoder_outcomes_become_tiff_and_lineart() {
    let rgb = decoded_to_rgb(Ok(Some((2, 1, 0, vec![10, 200])))).unwrap();
    assert_eq!(rgb, (2, 1, vec![10, 10, 10, 200, 200, 200]));
    let tiff = decoded_to_tiff(Ok(Some((2, 1, 2, vec![1, 2, 3, 4, 5, 6]))), 300).unwrap();
    assert!(is_tiff(&tiff));
    assert!(tiff.ends_with(&[1, 2, 3, 4, 5, 6]));
    match decoded_to_tiff(Err("bad marker".to_string()), 300) {
        Err(hp_m177::Error::Protocol(m)) => assert_eq!(m, "jpeg decode: bad marker"),
        other => panic!("unexpected {other:?}"),
    }
    match decoded_to_tiff(Ok(Some((1, 1, 3, vec![0, 0, 0, 0]))), 300) {
        Err(hp_m177::Error::Protocol(m)) => assert_eq!(m, "CMYK JPEG is not supported"),
        other => panic!("unexpected {other:?}"),
    }
    let bw = decoded_to_lineart(Ok(Some((1, 1, 2, vec![250, 250, 250])))).unwrap();
    assert!(is_jpeg(&bw));
}

#[test]
fn wsd_requests_keep_the_device_wire_format() {
    let req = ScanRequest {
        source: ScanSource::Platen,
        color: ColorMode::Color,
        dpi: 200,
        format: OutputFormat::Tiff,
        output: None,
        region: None,
    };
    let (mw, mh) = req.media_size();
    let body = hp_m177::wsd::job_body_xml(&req);
    let expected_body = format!(
        "<sca:CreateScanJobRequest><sca:ScanTicket>\n<sca:JobDescription>\n<sca:JobName>hp-m177</sca:JobName>\n<sca:JobOriginatingUserName>hp-m177</sca:JobOriginatingUserName>\n<sca:JobInformation>hp-m177</sca:JobInformation>\n</sca:JobDescription>\n<sca:DocumentParameters>\n<sca:Format>dib</sca:Format>\n<sca:ImagesToTransfer>1</sca:ImagesToTransfer>\n<sca:ContentType>Photo</sca:ContentType>\n<sca:InputSize><sca:InputMediaSize><sca:Width>{mw}</sca:Width><sca:Height>{mh}</sca:Height></sca:InputMediaSize></sca:InputSize>\n<sca:InputSource>Platen</sca:InputSource>\n<sca:MediaSides><sca:MediaFront>\n<sca:ColorProcessing>RGB24</sca:ColorProcessing>\n<sca:Resolution><sca:Width>200</sca:Width><sca:Height>200</sca:Height></sca:Resolution>\n<sca:ScanRegion>\n<sca:ScanRegionXOffset>0</sca:ScanRegionXOffset>\n<sca:ScanRegionYOffset>0</sca:ScanRegionYOffset>\n<sca:ScanRegionWidth>{mw}</sca:ScanRegionWidth>\n<sca:ScanRegionHeight>{mh}</sca:ScanRegionHeight>\n</sca:ScanRegion>\n</sca:MediaFront></sca:MediaSides>\n</sca:DocumentParameters>\n</sca:ScanTicket></sca:CreateScanJobRequest>"
    );
    assert_eq!(body, expected_body);
    let env = hp_m177::wsd::envelope_with_id("http://h:3911/scanner", "urn:act", "<B/>", "urn:uuid:1");
    assert_eq!(
        env,
        "<?xml version=\"1.0\" encoding=\"UTF-8\"?>\n<s:Envelope xmlns:s=\"http://www.w3.org/2003/05/soap-envelope\" xmlns:a=\"http://schemas.xmlsoap.org/ws/2004/08/addressing\" xmlns:sca=\"http://schemas.microsoft.com/windows/2006/08/wdp/scan\">\n<s:Header>\n<a:Action s:mustUnderstand=\"1\">urn:act</a:Action>\n<a:MessageID>urn:uuid:1</a:MessageID>\n<a:To s:mustUnderstand=\"1\">http://h:3911/scanner</a:To>\n<a:ReplyTo><a:Address>http://schemas.xmlsoap.org/ws/2004/08/addressing/role/anonymous</a:Address></a:ReplyTo>\n</s:Header>\n<s:Body><B/></s:Body>\n</s:Envelope>"
    );
    let ticket = parse_job_ticket(&hp_m177::wsd::create_scan_job_xml("http://h:3911/scanner", &req)).unwrap();
    assert_eq!(ticket.source, ScanSource::Platen);
    assert_eq!(ticket.color, ColorMode::Color);
    assert_eq!(ticket.dpi, 200);
}

#[test]
fn wsd_job_ticket_reads_back_as_the_request() {
    let req = ScanRequest {
        source: ScanSource::Adf,
        color: ColorMode::Gray,
        dpi: 1200,
        format: OutputFormat::Jpeg,
        output: None,
        region: Some(ScanRegion { x: 5, y: 6, width: 700, height: 800 }),
    };
    let back = parse_job_ticket(&hp_m177::wsd::create_scan_job_xml("http://h\u{e9}:3911/scanner", &req)).unwrap();
    assert_eq!(back.source, ScanSource::Adf);
    assert_eq!(back.color, ColorMode::Gray);
    assert_eq!(back.dpi, 1200);
    assert_eq!(back.region, Some(ScanRegion { x: 5, y: 6, width: 700, height: 800 }));
}

#[test]
fn shipped_converters_bitfields_gray_tiff_pdf_dpi_and_dime_cf() {
    let bmp = bitfields_bgra_bmp(2, 2, 0, 0, 255);
    let (w, h, rgb) = decode_bmp_or_dib(&bmp).unwrap();
    assert_eq!((w, h), (2, 2));
    assert_eq!(&rgb[0..3], &[255, 0, 0]);

    let gray = vec![10u8, 20, 30, 40];
    let gj = gray_to_jpeg(&gray, 2, 2, 80).unwrap();
    let tiff = jpeg_to_tiff(&gj, 300).unwrap();
    assert!(is_tiff(&tiff));
    let n = u16::from_le_bytes(tiff[8..10].try_into().unwrap()) as usize;
    let mut photo = 0u32;
    let mut spp = 0u32;
    for i in 0..n {
        let o = 10 + i * 12;
        let tag = u16::from_le_bytes(tiff[o..o + 2].try_into().unwrap());
        let val = u32::from_le_bytes(tiff[o + 8..o + 12].try_into().unwrap());
        if tag == 262 {
            photo = val;
        }
        if tag == 277 {
            spp = val;
        }
    }
    assert_eq!(photo, 1);
    assert_eq!(spp, 1);

    let color_jpeg = rgb_to_jpeg(&[255, 0, 0, 0, 255, 0, 0, 0, 255, 0, 0, 0], 2, 2, 80).unwrap();
    let pdf = jpeg_to_pdf_at_dpi(&color_jpeg, 300).unwrap();
    let text = String::from_utf8_lossy(&pdf);
    assert!(text.contains("0.48"), "300dpi 2px MediaBox should be 0.48pt: {text}");

    // A DIME message whose image record is split into CF continuation chunks.
    let chunked = wrap_soap_and_jpeg_chunked(b"<soap/>", &color_jpeg, 7);
    let jpeg = extract_image(&chunked).unwrap();
    assert_eq!(&jpeg[..2], &[0xff, 0xd8]);
    assert_eq!(&jpeg[jpeg.len() - 2..], &[0xff, 0xd9]);
}

#[test]
fn dime_spec_fixture_is_consumed_by_shipped_decoder() {
    let image = rgb_to_jpeg(&[200, 40, 40, 200, 40, 40, 200, 40, 40, 200, 40, 40], 2, 2, 80).unwrap();
    let raw = wrap_soap_and_jpeg(b"<?xml version=\"1.0\"?><SOAP-ENV:Envelope/>", &image);
    let jpeg = extract_image(&raw).unwrap();
    assert!(is_jpeg(&jpeg));
}

#[test]
fn live_get_job_info_fixture_parses() {
    let xml = r#"<?xml version="1.0" encoding="UTF-8"?>
<SOAP-ENV:Envelope xmlns:SOAP-ENV="http://www.w3.org/2003/05/soap-envelope" xmlns:wscn="http://tempuri.org/wscn.xsd">
<SOAP-ENV:Body><wscn:GetJobInfoResponse><JobInfo><JobSummary><JobId>3</JobId><JobState>Processing</JobState>
<ScansCompleted>1</ScansCompleted></JobSummary></JobInfo></wscn:GetJobInfoResponse></SOAP-ENV:Body></SOAP-ENV:Envelope>"#;
    let info = hp_m177::soap::parse_job_info(xml).unwrap();
    assert!(info.image_ready() || info.finished() || !info.job_id.is_empty());
}

#[test]
fn gray_jpeg_stays_gray_in_pdf_sizes_and_tiff() {
    let gj = gray_to_jpeg(&[0, 64, 128, 255, 0, 64], 3, 2, 90).unwrap();
    assert!(is_jpeg(&gj));
    assert_eq!(jpeg_dimensions(&gj), Some((3, 2)));
    let tiff = jpeg_to_tiff(&gj, 200).unwrap();
    // one strip of width x height gray samples after the 180-byte header
    assert_eq!(tiff.len(), 180 + 6);
    let pdf = String::from_utf8_lossy(&jpeg_to_pdf_at_dpi(&gj, 72).unwrap()).into_owned();
    assert!(pdf.contains("/MediaBox [0 0 3.00 2.00]"), "{pdf}");
    assert!(gray_to_jpeg(&[1, 2], 3, 2, 90).is_err());
}

#[test]
fn bitfields_with_other_masks_are_refused() {
    let mut bmp = bitfields_bgra_bmp(1, 1, 1, 2, 3);
    // swap the red mask (file offset 54) and the blue mask (offset 62)
    bmp[54] = 0xff;
    bmp[56] = 0x00;
    bmp[62] = 0x00;
    bmp[64] = 0xff;
    let e = decode_bmp_or_dib(&bmp).unwrap_err();
    assert!(format!("{e:?}").contains("compressed BMP is not supported"));
    let (w, h, rgb) = decode_bmp_or_dib(&bitfields_bgra_bmp(1, 1, 1, 2, 3)).unwrap();
    assert_eq!((w, h, rgb), (1, 1, vec![3, 2, 1]));
}

#[test]
fn capabilities_need_platen_and_adf() {
    assert!(looks_like_capabilities("<scan:ScannerCapabilities><scan:Platen/><scan:Adf/></scan:ScannerCapabilities>"));
    assert!(!looks_like_capabilities("<scan:ScannerCapabilities><scan:Platen/></scan:ScannerCapabilities>"));
    assert!(!looks_like_capabilities("<scan:ScannerStatus><scan:Platen/><scan:Adf/></scan:ScannerStatus>"));
}

#[test]
fn synthetic_jpeg_comment_round_trips_utf8() {
    let text = "Scan für Café ✓";
    let jpg = synthetic_jpeg(text, ColorMode::Gray);
    assert_eq!(jpeg_comment(&jpg).as_deref(), Some(text));
}

#[test]
fn every_capabilities_document_mentions_required_features() {
    for (uuid, model) in [("u-1", "M177fw"), ("", "A & <B>"), (DEFAULT_UUID_FOR_TEST, "")] {
        let xml = hp_m177::escl::capabilities_xml(uuid, model);
        assert!(hp_m177::facade::capabilities_mention_required_features(&xml), "{xml}");
        assert!(looks_like_capabilities(&xml));
    }
}

const DEFAULT_UUID_FOR_TEST: &str = "8adb6a9a-f28e-31fc-15de-50e0c4efdd92";

#[test]
fn option_names_parse_back() {
    for c in [ColorMode::Color, ColorMode::Gray, ColorMode::Lineart] {
        assert_eq!(ColorMode::parse(c.soap_name()).unwrap(), c);
        assert_eq!(ColorMode::parse(c.escl_name()).unwrap(), c);
        assert_eq!(ColorMode::parse(&format!(" {} ", c.label().to_uppercase())).unwrap(), c);
    }
    assert!(ColorMode::parse("sepia").is_err());
    for f in [OutputFormat::Jpeg, OutputFormat::Pdf, OutputFormat::Tiff] {
        assert_eq!(OutputFormat::parse(f.extension()).unwrap(), f);
        assert_eq!(OutputFormat::parse(f.mime()).unwrap(), f);
        assert_eq!(OutputFormat::parse(&format!(" {} ", f.label().to_uppercase())).unwrap(), f);
    }
    assert!(OutputFormat::parse("png").is_err());
}

#[test]
fn solid_bitmaps_read_back_pixel_for_pixel() {
    for bmp in [solid_bmp_bgra(3, 2, 7, 8, 9), bitfields_bgra_bmp(3, 2, 7, 8, 9)] {
        let (w, h, rgb) = decode_bmp_or_dib(&bmp).unwrap();
        assert_eq!((w, h), (3, 2));
        assert_eq!(rgb, [9u8, 8, 7].repeat(6));
    }
}
