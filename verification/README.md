# hp-m177

A scanner client for the HP Color LaserJet Pro MFP M177fw, written as a
verified library (Verus) with a thin program around it.

The library in `src/` holds the protocol and image logic, each function with
a contract that Verus proves:

- `dime`, `wsd`, `soap`, `escl`, `xmlutil`, `xmldoc`: the wire formats the
  device and Image Capture speak (DIME records, MTOM/XOP bodies, SOAP and
  eSCL documents) and the tolerant XML reader used on replies.
- `imagefmt`: BMP/DIB decoding, TIFF and one-page PDF writing, JPEG checks;
  JPEG encoding and decoding are done by the `jpeg-encoder` and
  `jpeg-decoder` crates behind small trusted wrappers.
- `scan`: the scan job cycle as a state machine (`ScanMachine`) that decides
  every request, pause, fallback (eSCL, HP SOAP, WSD) and the final image.
- `probe`, `cli`, `gui`, `store`, `discovery`, `advertise`, `printadd`,
  `facade`, `fake`: adding a device, the saved device list, Bonjour record
  handling, the local eSCL bridge's routing and job table, and the fake
  device used by the tests.

Among the properties proved: DIME decoding undoes encoding; an image wrapped
as a DIME or MTOM reply is extracted unchanged; a saved device is found again
by its id; the eSCL ScanSettings, the SOAP CreateScanJob ticket and the WSD
CreateScanJob envelope written for a request read back as that request; every
request a scan sends has a time limit; a finished scan's image has the
requested format, source, color and resolution; a finished scan stays
finished; a busy device's CreateScanJob is retried after a pause, a failed
SOAP run falls back to WSD, and the output is built from the first retrieved
page; a probe's result is exactly what the device's answers show; parsing an
option's name (label, SOAP or eSCL name, extension or MIME type, in any
case) gives the option back; a one-color bitmap decodes pixel for pixel;
every capabilities document the bridge serves names platen, ADF, color,
gray, JPEG and PDF; the bridge's job ids stay distinct.

`app/` runs the program: argument parsing, HTTP (ureq, tiny_http), Bonjour
(mdns-sd, dns-sd), files, threads and time. It hands plain values to the
library and performs the actions the library decides.

`tests/` exercise the library, including full scans against an in-process
fake device.
