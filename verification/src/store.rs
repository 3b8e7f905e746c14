//! The local device list: scanners the user added and which one is the
//! default. Reading and writing `devices.json` is the caller's part; this
//! module keeps the list's rules.
use crate::error::{Error, Result};
use crate::model::DeviceRecord;
use crate::text::str_eq;
use vstd::prelude::*;

verus! {

/// The persisted device list.
#[derive(Debug, Clone)]
pub struct DeviceStoreFile {
    pub devices: Vec<DeviceRecord>,
    pub default_id: Option<String>,
}

/// The device list and where it is kept.
#[derive(Debug)]
pub struct Store {
    pub path: std::path::PathBuf,
    data: DeviceStoreFile,
}

/// `d` is found by `q`: its id, host or name is `q`.
pub open spec fn answers_to(d: DeviceRecord, q: Seq<char>) -> bool {
    d.id@ == q || d.host@ == q || d.name@ == q
}

/// The first device that answers to `q`.
pub open spec fn spec_find(devs: Seq<DeviceRecord>, q: Seq<char>) -> Option<DeviceRecord>
    decreases devs.len(),
{
    if devs.len() == 0 {
        None
    } else if answers_to(devs[0], q) {
        Some(devs[0])
    } else {
        spec_find(devs.drop_first(), q)
    }
}

/// `e` is the entry `upsert` replaces for `d`: same id or same host.
pub open spec fn same_device(e: DeviceRecord, d: DeviceRecord) -> bool {
    e.id@ == d.id@ || e.host@ == d.host@
}

/// The list after `upsert(d)`: the first entry with the same id or host is
/// replaced, or `d` is appended.
pub open spec fn spec_upsert(devs: Seq<DeviceRecord>, d: DeviceRecord) -> Seq<DeviceRecord>
    decreases devs.len(),
{
    if devs.len() == 0 {
        seq![d]
    } else if same_device(devs[0], d) {
        devs.update(0, d)
    } else {
        seq![devs[0]] + spec_upsert(devs.drop_first(), d)
    }
}

/// The device `default_device` picks: the default id when it finds one,
/// else the first device.
pub open spec fn spec_default(devs: Seq<DeviceRecord>, default_id: Option<Seq<char>>) -> Option<DeviceRecord> {
    match default_id {
        Some(id) if spec_find(devs, id) is Some => spec_find(devs, id),
        _ => if devs.len() > 0 {
            Some(devs[0])
        } else {
            None
        },
    }
}

/// The text of `UnknownDevice`-free "nothing added" error.
pub open spec fn no_devices_text() -> Seq<char> {
    "no scanners added yet; run `hp-m177 add <host>`"@
}

/// A field-by-field copy of a device record.
pub fn copy_device(d: &DeviceRecord) -> (r: DeviceRecord)
    ensures
        r == *d,
{
    let uuid = match &d.uuid {
        Some(u) => Some(u.clone()),
        None => None,
    };
    DeviceRecord {
        id: d.id.clone(),
        name: d.name.clone(),
        host: d.host.clone(),
        job: d.job,
        has_escl_caps: d.has_escl_caps,
        has_platen: d.has_platen,
        has_adf: d.has_adf,
        uuid,
    }
}

fn find_index(devs: &Vec<DeviceRecord>, q: &str) -> (r: Option<usize>)
    ensures
        match spec_find(devs@, q@) {
            Some(d) => r matches Some(i) && i < devs@.len() && devs@[i as int] == d,
            None => r is None,
        },
{
    let mut i: usize = 0;
    assert(devs@.skip(0) =~= devs@);
    while i < devs.len()
        invariant
            i <= devs@.len(),
            spec_find(devs@, q@) == spec_find(devs@.skip(i as int), q@),
        decreases devs@.len() - i,
    {
        let ghost rest = devs@.skip(i as int);
        assert(rest[0] == devs@[i as int]);
        assert(rest.drop_first() =~= devs@.skip(i + 1));
        let d = &devs[i];
        if str_eq(d.id.as_str(), q) || str_eq(d.host.as_str(), q) || str_eq(d.name.as_str(), q) {
            return Some(i);
        }
        i = i + 1;
    }
    None
}

impl DeviceStoreFile {
    /// An empty list with no default.
    pub fn new() -> (r: Self)
        ensures
            r.devices@.len() == 0,
            r.default_id is None,
    {
        DeviceStoreFile { devices: Vec::new(), default_id: None }
    }

    /// Replace the entry with the same id or host (else append) and make
    /// `device` the default.
    #[verifier::spinoff_prover]
    pub fn upsert(&mut self, device: DeviceRecord) -> (r: DeviceRecord)
        ensures
            r == device,
            final(self).devices@ == spec_upsert(old(self).devices@, device),
            final(self).default_id matches Some(id) && id@ == device.id@,
    {
        let mut i: usize = 0;
        let ghost start = self.devices@;
        assert(start.skip(0) =~= start);
        while i < self.devices.len()
            invariant
                self.devices@ == start,
                start == old(self).devices@,
                i <= start.len(),
                spec_upsert(start, device) == start.take(i as int) + spec_upsert(
                    start.skip(i as int),
                    device,
                ),
            decreases start.len() - i,
        {
            let ghost rest = start.skip(i as int);
            assert(rest[0] == start[i as int]);
            let same = str_eq(self.devices[i].id.as_str(), device.id.as_str()) || str_eq(
                self.devices[i].host.as_str(),
                device.host.as_str(),
            );
            if same {
                assert(same_device(rest[0], device));
                assert(spec_upsert(rest, device) == rest.update(0, device));
                let copy = copy_device(&device);
                self.devices.set(i, copy);
                assert(self.devices@ =~= start.take(i as int) + rest.update(0, device));
                assert(self.devices@ == spec_upsert(start, device));
                self.default_id = Some(device.id.clone());
                return device;
            }
            assert(rest.drop_first() =~= start.skip(i + 1));
            assert(start.take(i as int) + (seq![rest[0]] + spec_upsert(rest.drop_first(), device))
                =~= start.take(i + 1) + spec_upsert(start.skip(i + 1), device));
            i = i + 1;
        }
        assert(start.skip(i as int) =~= Seq::<DeviceRecord>::empty());
        let copy = copy_device(&device);
        self.devices.push(copy);
        assert(self.devices@ =~= start.take(i as int) + seq![device]);
        self.default_id = Some(device.id.clone());
        device
    }

    /// The device whose id, host or name is `id_or_host`.
    pub fn get(&self, id_or_host: &str) -> (r: Result<DeviceRecord>)
        ensures
            match spec_find(self.devices@, id_or_host@) {
                Some(d) => r == Ok::<DeviceRecord, Error>(d),
                None => r matches Err(e) && e matches Error::UnknownDevice(q) && q@ == id_or_host@,
            },
    {
        match find_index(&self.devices, id_or_host) {
            Some(i) => Ok(copy_device(&self.devices[i])),
            None => Err(Error::UnknownDevice(String::from_str(id_or_host))),
        }
    }

    /// The default device, else the first one.
    pub fn default_device(&self) -> (r: Result<DeviceRecord>)
        ensures
            match spec_default(
                self.devices@,
                match self.default_id {
                    Some(s) => Some(s@),
                    None => None,
                },
            ) {
                Some(d) => r == Ok::<DeviceRecord, Error>(d),
                None => r matches Err(e) && e matches Error::Message(m) && m@ == no_devices_text(),
            },
    {
        if let Some(id) = &self.default_id {
            if let Ok(d) = self.get(id.as_str()) {
                return Ok(d);
            }
        }
        if self.devices.len() > 0 {
            Ok(copy_device(&self.devices[0]))
        } else {
            Err(Error::Message(String::from_str("no scanners added yet; run `hp-m177 add <host>`")))
        }
    }
}

impl Store {
    /// A store for the list `data` kept at `path`.
    pub fn new(path: std::path::PathBuf, data: DeviceStoreFile) -> (r: Self)
        ensures
            r.location() == path,
            r.data() == data,
    {
        Store { path, data }
    }

    /// Where the list is kept.
    pub closed spec fn location(&self) -> std::path::PathBuf {
        self.path
    }

    /// The device list.
    pub closed spec fn data(&self) -> DeviceStoreFile {
        self.data
    }

    /// The device list, for writing it out.
    pub fn file(&self) -> (r: &DeviceStoreFile)
        ensures
            *r == self.data(),
    {
        &self.data
    }

    /// Record `device` (see `DeviceStoreFile::upsert`); the caller persists
    /// the list afterwards.
    pub fn upsert(&mut self, device: DeviceRecord) -> (r: Result<DeviceRecord>)
        ensures
            r == Ok::<DeviceRecord, Error>(device),
            final(self).location() == old(self).location(),
            final(self).data().devices@ == spec_upsert(old(self).data().devices@, device),
            final(self).data().default_id matches Some(id) && id@ == device.id@,
    {
        Ok(self.data.upsert(device))
    }

    pub fn list(&self) -> (r: &[DeviceRecord])
        ensures
            r@ == self.data().devices@,
    {
        self.data.devices.as_slice()
    }

    pub fn get(&self, id_or_host: &str) -> (r: Result<DeviceRecord>)
        ensures
            match spec_find(self.data().devices@, id_or_host@) {
                Some(d) => r == Ok::<DeviceRecord, Error>(d),
                None => r matches Err(e) && e matches Error::UnknownDevice(q) && q@ == id_or_host@,
            },
    {
        self.data.get(id_or_host)
    }

    pub fn default_device(&self) -> (r: Result<DeviceRecord>)
        ensures
            match spec_default(
                self.data().devices@,
                match self.data().default_id {
                    Some(s) => Some(s@),
                    None => None,
                },
            ) {
                Some(d) => r == Ok::<DeviceRecord, Error>(d),
                None => r matches Err(e) && e matches Error::Message(m) && m@ == no_devices_text(),
            },
    {
        self.data.default_device()
    }
}

/// Nothing else in the list answers to the new device's id.
pub open spec fn id_unambiguous(devs: Seq<DeviceRecord>, d: DeviceRecord) -> bool {
    forall|i: int|
        0 <= i < devs.len() ==> !same_device(#[trigger] devs[i], d) ==> !answers_to(devs[i], d.id@)
}

proof fn lemma_find_upsert(devs: Seq<DeviceRecord>, d: DeviceRecord)
    requires
        id_unambiguous(devs, d),
    ensures
        spec_find(spec_upsert(devs, d), d.id@) == Some(d),
    decreases devs.len(),
{
    if devs.len() > 0 && !same_device(devs[0], d) {
        assert(!answers_to(devs[0], d.id@));
        let rest = devs.drop_first();
        assert forall|i: int| 0 <= i < rest.len() && !same_device(#[trigger] rest[i], d)
            implies !answers_to(rest[i], d.id@) by {
            assert(rest[i] == devs[i + 1]);
        }
        lemma_find_upsert(rest, d);
        let u = spec_upsert(devs, d);
        assert(u[0] == devs[0]);
        assert(u.drop_first() =~= spec_upsert(rest, d));
    }
}

/// After `upsert(d)`, looking up `d`'s id gives `d` back, and so does the
/// default device — unless another stored scanner's host or name is that id.
pub proof fn lemma_upsert_then_lookup(devs: Seq<DeviceRecord>, d: DeviceRecord)
    requires
        id_unambiguous(devs, d),
    ensures
        spec_find(spec_upsert(devs, d), d.id@) == Some(d),
        spec_default(spec_upsert(devs, d), Some(d.id@)) == Some(d),
{
    lemma_find_upsert(devs, d);
}

} // verus!
