//! Which drivers there are, which endpoints run, and what is known of what drivers can do.
use vstd::prelude::*;

use crate::descriptor::{descriptor_defect, DriverDescriptor};
use crate::endpoint::BuiltinEndpoint;
use crate::manifest::DiscoveredDriver;
use crate::probe::{ProbeError, ProbeFault};
use crate::profile::DeviceProfile;
use crate::schema::maybe_text;
use crate::session::{
    detail_of, detail_or_nothing, session_error_text, went_well, FrameBody, SessionError,
    DESCRIPTOR_MAX_BYTES,
};
use crate::snapshot::{drivers_view, snapshot_ok, DriverInfo, DriverInfoV, Snapshot, SnapshotV};
use crate::table::{ordered_keys, Table};
use crate::text::{
    byte_len, byte_length, cat2, cat3, contains_text, decimal, decimal_text, same_text,
    text_contains, texts_view,
};

verus! {

// ---------------------------------------------------------------------------
// What can go wrong
// ---------------------------------------------------------------------------

/// Why a driver cannot tell what it can do, or cannot do it.
#[derive(Debug, Clone, PartialEq)]
pub struct DescriptorError {
    pub code: String,
    pub message: String,
}

/// What a [`DescriptorError`] is.
pub struct DescriptorFault {
    pub code: Seq<char>,
    pub message: Seq<char>,
}

impl View for DescriptorError {
    type V = DescriptorFault;

    open spec fn view(&self) -> DescriptorFault {
        DescriptorFault { code: self.code@, message: self.message@ }
    }
}

impl DescriptorError {
    pub fn new(code: &str, message: String) -> (r: DescriptorError)
        ensures
            r@ == (DescriptorFault { code: code@, message: message@ }),
    {
        DescriptorError { code: code.to_owned(), message }
    }
}

/// A driver that is not there.
pub open spec fn unavailable(message: Seq<char>) -> DescriptorFault {
    DescriptorFault { code: "DRIVER_UNAVAILABLE"@, message }
}

/// What it means that a driver did not give its descriptor.
pub open spec fn descriptor_failure(e: SessionError) -> DescriptorFault {
    match e {
        SessionError::Timeout => DescriptorFault {
            code: "DRIVER_DESCRIPTOR_TIMEOUT"@,
            message: "descriptor timeout 5s"@,
        },
        SessionError::Handshake(m) => if text_contains(m@, "too large"@) {
            DescriptorFault { code: "DRIVER_DESCRIPTOR_TOO_LARGE"@, message: m@ }
        } else {
            unavailable(session_error_text(e))
        },
        _ => unavailable(session_error_text(e)),
    }
}

pub fn descriptor_not_given(e: SessionError) -> (r: DescriptorError)
    ensures
        r@ == descriptor_failure(e),
{
    let text: String = e.message();
    match e {
        SessionError::Timeout => DescriptorError::new(
            "DRIVER_DESCRIPTOR_TIMEOUT",
            "descriptor timeout 5s".to_owned(),
        ),
        SessionError::Handshake(m) => if contains_text(m.as_str(), "too large") {
            DescriptorError::new("DRIVER_DESCRIPTOR_TOO_LARGE", m)
        } else {
            DescriptorError::new("DRIVER_UNAVAILABLE", text)
        },
        _ => DescriptorError::new("DRIVER_UNAVAILABLE", text),
    }
}

/// Why a descriptor is not taken: it is too long, it cannot be read, or it makes no sense.
pub open spec fn descriptor_refused(
    json: Seq<char>,
    read: Result<DriverDescriptor, String>,
) -> Option<DescriptorFault> {
    if byte_length(json) > DESCRIPTOR_MAX_BYTES {
        Some(
            DescriptorFault {
                code: "DRIVER_DESCRIPTOR_TOO_LARGE"@,
                message: "descriptor "@ + decimal(byte_length(json)) + " bytes exceeds 256KiB"@,
            },
        )
    } else {
        match read {
            Err(e) => Some(
                DescriptorFault {
                    code: "DRIVER_DESCRIPTOR_INVALID_JSON"@,
                    message: "invalid json: "@ + e@,
                },
            ),
            Ok(d) => match descriptor_defect(d) {
                Some(m) => Some(
                    DescriptorFault { code: "DRIVER_DESCRIPTOR_VALIDATION_FAILED"@, message: m },
                ),
                None => None,
            },
        }
    }
}

fn check_descriptor(json: &str, read: Result<DriverDescriptor, String>) -> (r: Result<
    DriverDescriptor,
    DescriptorError,
>)
    ensures
        match r {
            Ok(d) => descriptor_refused(json@, read) is None && read == Ok::<
                DriverDescriptor,
                String,
            >(d),
            Err(e) => descriptor_refused(json@, read) == Some(e@),
        },
{
    let n: usize = byte_len(json);
    if n > DESCRIPTOR_MAX_BYTES {
        return Err(
            DescriptorError::new(
                "DRIVER_DESCRIPTOR_TOO_LARGE",
                cat3("descriptor ", decimal_text(n as u64).as_str(), " bytes exceeds 256KiB"),
            ),
        );
    }
    match read {
        Err(e) => Err(
            DescriptorError::new(
                "DRIVER_DESCRIPTOR_INVALID_JSON",
                cat2("invalid json: ", e.as_str()),
            ),
        ),
        Ok(d) => match d.validate() {
            Ok(()) => Ok(d),
            Err(m) => Err(DescriptorError::new("DRIVER_DESCRIPTOR_VALIDATION_FAILED", m)),
        },
    }
}

/// Why a driver that is to be browsed does not open its connection.
pub open spec fn browse_refused(reply: Result<FrameBody, SessionError>) -> Option<
    DescriptorFault,
> {
    match reply {
        Err(e) => Some(unavailable("open failed: "@ + session_error_text(e))),
        Ok(FrameBody::OpenConnectionAck(r)) => if went_well(r) {
            None
        } else {
            Some(unavailable("open not ok"@))
        },
        Ok(FrameBody::DriverError { handle, detail }) => {
            let d = detail_or_nothing(detail);
            Some(DescriptorFault { code: d.code, message: d.message })
        },
        Ok(_) => Some(unavailable("open unexpected"@)),
    }
}

/// Takes the answer of a driver that is to be browsed to the request to open a connection.
pub fn browse_opened(reply: Result<FrameBody, SessionError>) -> (r: Result<(), DescriptorError>)
    ensures
        match r {
            Ok(()) => browse_refused(reply) is None,
            Err(e) => browse_refused(reply) == Some(e@),
        },
{
    match reply {
        Err(e) => {
            let text: String = e.message();
            Err(
                DescriptorError::new(
                    "DRIVER_UNAVAILABLE",
                    cat2("open failed: ", text.as_str()),
                ),
            )
        },
        Ok(FrameBody::OpenConnectionAck(Some(r))) => if r.ok {
            Ok(())
        } else {
            Err(DescriptorError::new("DRIVER_UNAVAILABLE", "open not ok".to_owned()))
        },
        Ok(FrameBody::OpenConnectionAck(None)) => Err(
            DescriptorError::new("DRIVER_UNAVAILABLE", "open not ok".to_owned()),
        ),
        Ok(FrameBody::DriverError { handle: _, detail }) => {
            let d = detail_of(detail);
            Err(DescriptorError { code: d.code, message: d.message })
        },
        Ok(_) => Err(DescriptorError::new("DRIVER_UNAVAILABLE", "open unexpected".to_owned())),
    }
}

/// The complaint that an endpoint that is to be controlled does not run.
pub fn not_running(endpoint_id: &str) -> (r: DescriptorError)
    ensures
        r@ == (DescriptorFault {
            code: "ENDPOINT_NOT_RUNNING"@,
            message: "endpoint `"@ + endpoint_id@ + "` not running"@,
        }),
{
    DescriptorError::new("ENDPOINT_NOT_RUNNING", cat3("endpoint `", endpoint_id, "` not running"))
}

/// The complaint that a session did not carry out what was asked of it.
pub fn session_failed(code: &str, e: &SessionError) -> (r: DescriptorError)
    ensures
        r@ == (DescriptorFault { code: code@, message: session_error_text(*e) }),
{
    DescriptorError::new(code, e.message())
}

// ---------------------------------------------------------------------------
// Drivers
// ---------------------------------------------------------------------------

/// Why a driver cannot be launched.
pub open spec fn launch_obstacle(d: DiscoveredDriver) -> Option<Seq<char>> {
    if !d.platform_ok {
        maybe_text(d.platform_reason)
    } else if d.executable_path is None {
        Some("executable not found"@)
    } else {
        None
    }
}

/// A driver as it is listed.
pub open spec fn info_of(d: DiscoveredDriver) -> DriverInfoV {
    DriverInfoV {
        id: d.manifest.id@,
        name: d.manifest.name@,
        version: d.manifest.version@,
        protocol: decimal(d.manifest.protocol_major as nat) + "."@ + decimal(
            d.manifest.protocol_minor as nat,
        ),
        launchable: d.executable_path is Some && d.platform_ok && d.protocol_ok,
        reason: launch_obstacle(d),
    }
}

/// Drivers as they are listed.
pub open spec fn infos_of(drivers: Seq<DiscoveredDriver>) -> Seq<DriverInfoV> {
    drivers.map_values(|d: DiscoveredDriver| info_of(d))
}

fn driver_info(d: &DiscoveredDriver) -> (r: DriverInfo)
    ensures
        r@ == info_of(*d),
{
    DriverInfo {
        id: d.manifest.id.clone(),
        name: d.manifest.name.clone(),
        version: d.manifest.version.clone(),
        protocol: cat3(
            decimal_text(d.manifest.protocol_major as u64).as_str(),
            ".",
            decimal_text(d.manifest.protocol_minor as u64).as_str(),
        ),
        launchable: d.launchable(),
        reason: if d.platform_ok {
            match &d.executable_path {
                Some(_) => None,
                None => Some("executable not found".to_owned()),
            }
        } else {
            match &d.platform_reason {
                Some(m) => Some(m.clone()),
                None => None,
            }
        },
    }
}

pub fn driver_infos(drivers: &[DiscoveredDriver]) -> (r: Vec<DriverInfo>)
    ensures
        drivers_view(r@) == infos_of(drivers@),
{
    let mut out: Vec<DriverInfo> = Vec::new();
    let mut i: usize = 0;
    while i < drivers.len()
        invariant
            i <= drivers.len(),
            out@.len() == i,
            forall|j: int| 0 <= j < i ==> (#[trigger] out@[j])@ == info_of(drivers@[j]),
        decreases drivers.len() - i,
    {
        out.push(driver_info(&drivers[i]));
        i = i + 1;
    }
    assert(drivers_view(out@) =~= infos_of(drivers@));
    out
}

/// Whether a driver has an id and can be launched.
pub open spec fn serves(d: DiscoveredDriver, id: Seq<char>) -> bool {
    d.manifest.id@ == id && d.executable_path is Some && d.platform_ok && d.protocol_ok
}

/// Which of the first `n` drivers is the first that has an id and can be launched.
pub open spec fn first_serving(drivers: Seq<DiscoveredDriver>, id: Seq<char>, n: int) -> Option<int>
    decreases n,
{
    if n <= 0 {
        None
    } else {
        match first_serving(drivers, id, n - 1) {
            Some(i) => Some(i),
            None => if serves(drivers[n - 1], id) {
                Some(n - 1)
            } else {
                None
            },
        }
    }
}

/// The driver that serves an id.
pub open spec fn serving(drivers: Seq<DiscoveredDriver>, id: Seq<char>) -> Option<
    DiscoveredDriver,
> {
    match first_serving(drivers, id, drivers.len() as int) {
        Some(i) => Some(drivers[i]),
        None => None,
    }
}

proof fn lemma_first_serving(drivers: Seq<DiscoveredDriver>, id: Seq<char>, n: int, m: int)
    requires
        0 <= n <= m,
        first_serving(drivers, id, n) is Some,
    ensures
        first_serving(drivers, id, m) == first_serving(drivers, id, n),
    decreases m - n,
{
    if n < m {
        lemma_first_serving(drivers, id, n, m - 1);
    }
}

// ---------------------------------------------------------------------------
// The manager
// ---------------------------------------------------------------------------

/// A descriptor that was given, and when.
pub struct CachedDescriptor {
    pub descriptor: DriverDescriptor,
    pub fetched_at_ns: i64,
}

impl View for CachedDescriptor {
    type V = (DriverDescriptor, i64);

    open spec fn view(&self) -> (DriverDescriptor, i64) {
        (self.descriptor, self.fetched_at_ns)
    }
}

/// Which drivers there are, which endpoints run, and what is known of what drivers can do.
pub struct MesaManager {
    drivers: Vec<DiscoveredDriver>,
    running: Table<bool>,
    descriptor_cache: Table<Table<CachedDescriptor>>,
    profiles: Vec<DeviceProfile>,
}

/// What a [`MesaManager`] holds.
#[verifier::ext_equal]
pub struct ManagerV {
    pub drivers: Seq<DiscoveredDriver>,
    pub running: Set<Seq<char>>,
    pub cache: Map<Seq<char>, Map<Seq<char>, (DriverDescriptor, i64)>>,
    pub profiles: Seq<DeviceProfile>,
}

impl View for MesaManager {
    type V = ManagerV;

    closed spec fn view(&self) -> ManagerV {
        ManagerV {
            drivers: self.drivers@,
            running: self.running@.dom(),
            cache: self.descriptor_cache@,
            profiles: self.profiles@,
        }
    }
}

/// The descriptor that is known of a version of a driver.
pub open spec fn known_descriptor(m: ManagerV, id: Seq<char>, version: Seq<char>) -> Option<
    DriverDescriptor,
> {
    if m.cache.contains_key(id) && m.cache[id].contains_key(version) {
        Some(m.cache[id][version].0)
    } else {
        None
    }
}

/// The manager with a descriptor of a version of a driver, and when it was given.
pub open spec fn descriptor_kept(
    m: ManagerV,
    id: Seq<char>,
    version: Seq<char>,
    d: DriverDescriptor,
    now: i64,
) -> ManagerV {
    ManagerV {
        cache: m.cache.insert(
            id,
            if m.cache.contains_key(id) {
                m.cache[id].insert(version, (d, now))
            } else {
                Map::<Seq<char>, (DriverDescriptor, i64)>::empty().insert(version, (d, now))
            },
        ),
        ..m
    }
}

/// Why an endpoint cannot be started.
pub open spec fn start_refused(m: ManagerV, cfg: BuiltinEndpoint) -> Option<Seq<char>> {
    if m.running.contains(cfg.endpoint_id@) {
        Some("endpoint `"@ + cfg.endpoint_id@ + "` already running"@)
    } else if serving(m.drivers, cfg.driver_id@) is None {
        Some("driver `"@ + cfg.driver_id@ + "` not found or not launchable"@)
    } else {
        None
    }
}

/// What is known of what a driver can do: its descriptor, or that it has to be asked.
pub enum Lookup<'a> {
    Known(&'a DriverDescriptor),
    Ask(&'a DiscoveredDriver),
}

/// The names of the first `n` versions of a driver.
pub open spec fn version_names(id: Seq<char>, versions: Seq<Seq<char>>) -> Seq<Seq<char>> {
    versions.map_values(|v: Seq<char>| id + "@"@ + v)
}

/// The names of the versions of the first `n` drivers of which a descriptor is known.
pub open spec fn cache_names<T>(
    cache: Map<Seq<char>, Map<Seq<char>, T>>,
    ids: Seq<Seq<char>>,
    n: int,
) -> Seq<Seq<char>>
    decreases n,
{
    if n <= 0 {
        Seq::empty()
    } else {
        cache_names(cache, ids, n - 1) + version_names(
            ids[n - 1],
            ordered_keys(cache[ids[n - 1]]),
        )
    }
}

impl MesaManager {
    /// A manager of some drivers. The snapshot lists them.
    pub fn discover(
        drivers: Vec<DiscoveredDriver>,
        profiles: Vec<DeviceProfile>,
        snapshot: &mut Snapshot,
    ) -> (r: MesaManager)
        requires
            snapshot_ok(old(snapshot)@),
        ensures
            r@ == (ManagerV {
                drivers: drivers@,
                running: Set::empty(),
                cache: Map::empty(),
                profiles: profiles@,
            }),
            final(snapshot)@ == (SnapshotV { drivers: infos_of(drivers@), ..old(snapshot)@ }),
            snapshot_ok(final(snapshot)@),
    {
        snapshot.set_drivers(driver_infos(drivers.as_slice()));
        let r: MesaManager = MesaManager {
            drivers,
            running: Table::new(),
            descriptor_cache: Table::new(),
            profiles,
        };
        assert(r@.running =~= Set::<Seq<char>>::empty());
        r
    }

    /// Takes other drivers and profiles. What was known of what drivers can do is forgotten.
    pub fn rescan(
        &mut self,
        drivers: Vec<DiscoveredDriver>,
        profiles: Vec<DeviceProfile>,
        snapshot: &mut Snapshot,
    ) -> (r: Vec<DriverInfo>)
        requires
            snapshot_ok(old(snapshot)@),
        ensures
            drivers_view(r@) == infos_of(drivers@),
            final(self)@ == (ManagerV {
                drivers: drivers@,
                cache: Map::empty(),
                profiles: profiles@,
                ..old(self)@
            }),
            final(snapshot)@ == (SnapshotV { drivers: infos_of(drivers@), ..old(snapshot)@ }),
            snapshot_ok(final(snapshot)@),
    {
        let infos: Vec<DriverInfo> = driver_infos(drivers.as_slice());
        snapshot.set_drivers(driver_infos(drivers.as_slice()));
        self.drivers = drivers;
        self.descriptor_cache = Table::new();
        self.profiles = profiles;
        infos
    }

    /// The driver that serves an id.
    pub fn find_driver(&self, driver_id: &str) -> (r: Option<&DiscoveredDriver>)
        ensures
            match r {
                Some(d) => serving(self@.drivers, driver_id@) == Some(*d),
                None => serving(self@.drivers, driver_id@) is None,
            },
    {
        let mut i: usize = 0;
        while i < self.drivers.len()
            invariant
                i <= self.drivers.len(),
                first_serving(self.drivers@, driver_id@, i as int) is None,
            decreases self.drivers.len() - i,
        {
            let d: &DiscoveredDriver = &self.drivers[i];
            if same_text(d.manifest.id.as_str(), driver_id) && d.launchable() {
                proof {
                    lemma_first_serving(
                        self.drivers@,
                        driver_id@,
                        i + 1,
                        self.drivers@.len() as int,
                    );
                }
                return Some(d);
            }
            i = i + 1;
        }
        None
    }

    pub fn is_running(&self, endpoint_id: &str) -> (r: bool)
        ensures
            r == self@.running.contains(endpoint_id@),
    {
        self.running.has(endpoint_id)
    }

    /// The endpoints that run, in the order of their ids.
    pub fn running_ids(&self) -> (r: Vec<String>)
        ensures
            crate::table::ascending(texts_view(r@)),
            texts_view(r@).to_set() == self@.running,
    {
        let n: usize = self.running.len();
        let ghost keys = self.running.keys();
        let mut out: Vec<String> = Vec::new();
        let mut i: usize = 0;
        while i < n
            invariant
                i <= n,
                n == keys.len(),
                keys == self.running.keys(),
                out@.len() == i,
                forall|j: int| 0 <= j < i ==> (#[trigger] out@[j])@ == keys[j],
            decreases n - i,
        {
            out.push(self.running.key_at(i).clone());
            i = i + 1;
        }
        assert(texts_view(out@) =~= keys);
        out
    }

    /// Says that an endpoint is started, if it does not run yet and its driver is there.
    pub fn start_endpoint(&mut self, cfg: &BuiltinEndpoint) -> (r: Result<(), String>)
        ensures
            match r {
                Ok(()) => start_refused(old(self)@, *cfg) is None && final(self)@ == (ManagerV {
                    running: old(self)@.running.insert(cfg.endpoint_id@),
                    ..old(self)@
                }),
                Err(m) => start_refused(old(self)@, *cfg) == Some(m@) && final(self)@
                    == old(self)@,
            },
    {
        if self.is_running(cfg.endpoint_id.as_str()) {
            return Err(cat3("endpoint `", cfg.endpoint_id.as_str(), "` already running"));
        }
        if self.find_driver(cfg.driver_id.as_str()).is_none() {
            return Err(cat3("driver `", cfg.driver_id.as_str(), "` not found or not launchable"));
        }
        self.running.set(cfg.endpoint_id.clone(), true);
        assert(self@.running =~= old(self)@.running.insert(cfg.endpoint_id@));
        Ok(())
    }

    /// The driver that is to find out about a device.
    pub fn driver_to_probe(&self, id: &str) -> (r: Result<&DiscoveredDriver, ProbeError>)
        ensures
            match r {
                Ok(d) => serving(self@.drivers, id@) == Some(*d),
                Err(e) => serving(self@.drivers, id@) is None && e@ == ProbeFault::DriverNotFound(
                    id@,
                ),
            },
    {
        match self.find_driver(id) {
            Some(d) => Ok(d),
            None => Err(ProbeError::DriverNotFound(id.to_owned())),
        }
    }

    /// Says that an endpoint is stopped, and whether it ran.
    pub fn stop_endpoint(&mut self, endpoint_id: &str) -> (r: bool)
        ensures
            r == old(self)@.running.contains(endpoint_id@),
            final(self)@ == (ManagerV {
                running: old(self)@.running.remove(endpoint_id@),
                ..old(self)@
            }),
    {
        let r: bool = self.running.remove(endpoint_id);
        assert(self@.running =~= old(self)@.running.remove(endpoint_id@));
        r
    }

    /// What is known of what a driver can do.
    pub fn get_descriptor<'a>(&'a self, driver_id: &str) -> (r: Result<
        Lookup<'a>,
        DescriptorError,
    >)
        ensures
            match serving(self@.drivers, driver_id@) {
                None => r is Err && r->Err_0@ == unavailable(
                    "driver `"@ + driver_id@ + "` not found or not launchable"@,
                ),
                Some(d) => match known_descriptor(self@, d.manifest.id@, d.manifest.version@) {
                    Some(x) => r is Ok && (r->Ok_0 matches Lookup::Known(y) && *y == x),
                    None => r is Ok && (r->Ok_0 matches Lookup::Ask(y) && *y == d),
                },
            },
    {
        match self.find_driver(driver_id) {
            None => Err(
                DescriptorError::new(
                    "DRIVER_UNAVAILABLE",
                    cat3("driver `", driver_id, "` not found or not launchable"),
                ),
            ),
            Some(d) => {
                match self.descriptor_cache.get(d.manifest.id.as_str()) {
                    Some(versions) => match versions.get(d.manifest.version.as_str()) {
                        Some(x) => Ok(Lookup::Known(&x.descriptor)),
                        None => Ok(Lookup::Ask(d)),
                    },
                    None => Ok(Lookup::Ask(d)),
                }
            },
        }
    }

    /// Takes the descriptor that a version of a driver gives, unless it is refused.
    pub fn descriptor_given(
        &mut self,
        driver_id: &str,
        version: &str,
        json: &str,
        read: Result<DriverDescriptor, String>,
        now: i64,
    ) -> (r: Result<(), DescriptorError>)
        ensures
            match r {
                Ok(()) => descriptor_refused(json@, read) is None && final(self)@
                    == descriptor_kept(old(self)@, driver_id@, version@, read->Ok_0, now),
                Err(e) => descriptor_refused(json@, read) == Some(e@) && final(self)@
                    == old(self)@,
            },
    {
        let ghost before = self@;
        let descriptor: DriverDescriptor = match check_descriptor(json, read) {
            Ok(d) => d,
            Err(e) => {
                return Err(e);
            },
        };
        let ghost d = descriptor;
        let mut versions: Table<CachedDescriptor> = match self.descriptor_cache.take(driver_id) {
            Some(t) => t,
            None => Table::new(),
        };
        versions.set(version.to_owned(), CachedDescriptor { descriptor, fetched_at_ns: now });
        let ghost v = versions@;
        self.descriptor_cache.set(driver_id.to_owned(), versions);
        proof {
            assert(self@.cache =~= before.cache.insert(driver_id@, v));
            assert(self@ =~= descriptor_kept(before, driver_id@, version@, d, now));
        }
        Ok(())
    }

    /// The names of the versions of drivers of which a descriptor is known.
    pub fn descriptor_cache_snapshot(&self) -> (r: Vec<String>)
        ensures
            texts_view(r@) == cache_names(
                self@.cache,
                ordered_keys(self@.cache),
                ordered_keys(self@.cache).len() as int,
            ),
    {
        let n: usize = self.descriptor_cache.len();
        let ghost ids = self.descriptor_cache.keys();
        let ghost cache = self.descriptor_cache@;
        let mut out: Vec<String> = Vec::new();
        assert(texts_view(out@) =~= Seq::<Seq<char>>::empty());
        let mut i: usize = 0;
        while i < n
            invariant
                i <= n,
                n == ids.len(),
                ids == self.descriptor_cache.keys(),
                cache == self.descriptor_cache@,
                texts_view(out@) == cache_names(cache, ids, i as int),
            decreases n - i,
        {
            let id: &String = self.descriptor_cache.key_at(i);
            let versions: &Table<CachedDescriptor> = self.descriptor_cache.at(i);
            let m: usize = versions.len();
            let ghost names = version_names(id@, versions.keys());
            let ghost before = texts_view(out@);
            let mut j: usize = 0;
            while j < m
                invariant
                    j <= m,
                    m == versions.keys().len(),
                    names == version_names(id@, versions.keys()),
                    texts_view(out@) == before + names.subrange(0, j as int),
                decreases m - j,
            {
                let name: String = cat3(id.as_str(), "@", versions.key_at(j).as_str());
                let ghost listed = texts_view(out@);
                let ghost text = name@;
                out.push(name);
                proof {
                    assert(texts_view(out@) =~= listed.push(text));
                    assert(names[j as int] == text);
                    assert(names.subrange(0, j + 1) =~= names.subrange(0, j as int).push(text));
                    assert(texts_view(out@) =~= before + names.subrange(0, j + 1));
                }
                j = j + 1;
            }
            assert(names.subrange(0, names.len() as int) =~= names);
            i = i + 1;
        }
        out
    }

    pub fn list_profiles(&self) -> (r: &Vec<DeviceProfile>)
        ensures
            r@ == self@.profiles,
    {
        &self.profiles
    }

    /// The first profile with an id.
    pub fn get_profile(&self, id: &str) -> (r: Option<&DeviceProfile>)
        ensures
            match r {
                Some(p) => exists|i: int|
                    0 <= i < self@.profiles.len() && *p == #[trigger] self@.profiles[i] && p.id@
                        == id@ && forall|j: int|
                        0 <= j < i ==> (#[trigger] self@.profiles[j]).id@ != id@,
                None => forall|j: int|
                    0 <= j < self@.profiles.len() ==> (#[trigger] self@.profiles[j]).id@ != id@,
            },
    {
        let mut i: usize = 0;
        while i < self.profiles.len()
            invariant
                i <= self.profiles.len(),
                forall|j: int| 0 <= j < i ==> (#[trigger] self.profiles@[j]).id@ != id@,
            decreases self.profiles.len() - i,
        {
            let p: &DeviceProfile = &self.profiles[i];
            if same_text(p.id.as_str(), id) {
                assert(self@.profiles[i as int] == *p);
                return Some(p);
            }
            i = i + 1;
        }
        None
    }
}

/// A descriptor that was taken is known from then on, and what is known of others stays as it is.
pub proof fn descriptors_are_remembered(
    m: ManagerV,
    id: Seq<char>,
    version: Seq<char>,
    d: DriverDescriptor,
    now: i64,
    other: Seq<char>,
    other_version: Seq<char>,
)
    ensures
        known_descriptor(descriptor_kept(m, id, version, d, now), id, version) == Some(d),
        (other, other_version) != (id, version) ==> known_descriptor(
            descriptor_kept(m, id, version, d, now),
            other,
            other_version,
        ) == known_descriptor(m, other, other_version),
{
    assert((other, other_version) != (id, version) ==> other != id || other_version != version);
}

/// An endpoint that was started cannot be started again before it is stopped.
pub proof fn endpoints_run_once(m: ManagerV, cfg: BuiltinEndpoint)
    requires
        start_refused(m, cfg) is None,
    ensures
        start_refused(
            ManagerV { running: m.running.insert(cfg.endpoint_id@), ..m },
            cfg,
        ) is Some,
        start_refused(
            ManagerV {
                running: m.running.insert(cfg.endpoint_id@).remove(cfg.endpoint_id@),
                ..m
            },
            cfg,
        ) is None,
{
}

/// What a driver that does not describe itself is told for: that it took too long, that what it
/// says is too large, or that it cannot be had.
pub proof fn drivers_that_say_nothing_are_told(e: SessionError)
    ensures
        e is Timeout ==> descriptor_failure(e).code == "DRIVER_DESCRIPTOR_TIMEOUT"@,
        e matches SessionError::Handshake(m) ==> (text_contains(m@, "too large"@)
            ==> descriptor_failure(e).code == "DRIVER_DESCRIPTOR_TOO_LARGE"@
            && descriptor_failure(e).message == m@) && (!text_contains(m@, "too large"@)
            ==> descriptor_failure(e).code == "DRIVER_UNAVAILABLE"@),
        !(e is Timeout) && !(e is Handshake) ==> descriptor_failure(e).code
            == "DRIVER_UNAVAILABLE"@ && descriptor_failure(e).message == session_error_text(e),
{
}

/// A descriptor is taken exactly where it is no longer than 256 KiB, can be read, and makes sense.
pub proof fn descriptors_are_taken_when_they_make_sense(
    json: Seq<char>,
    read: Result<DriverDescriptor, String>,
)
    ensures
        descriptor_refused(json, read) is None <==> (byte_length(json) <= 262144 && (
        read matches Ok(d) && descriptor_defect(d) is None)),
        byte_length(json) > 262144 ==> (descriptor_refused(json, read) matches Some(f) && f.code
            == "DRIVER_DESCRIPTOR_TOO_LARGE"@),
        byte_length(json) <= 262144 && read is Err ==> (descriptor_refused(
            json,
            read,
        ) matches Some(f) && f.code == "DRIVER_DESCRIPTOR_INVALID_JSON"@),
        byte_length(json) <= 262144 && (read matches Ok(d) && descriptor_defect(d) is Some) ==> (
        descriptor_refused(json, read) matches Some(f) && f.code
            == "DRIVER_DESCRIPTOR_VALIDATION_FAILED"@),
{
}

/// A device is looked through only where the driver acknowledges the connection.
pub proof fn devices_are_looked_through_when_they_are_open(reply: Result<FrameBody, SessionError>)
    ensures
        browse_refused(reply) is None <==> (reply is Ok && reply->Ok_0 is OpenConnectionAck
            && reply->Ok_0->OpenConnectionAck_0 is Some
            && reply->Ok_0->OpenConnectionAck_0->Some_0.ok),
        reply is Ok && reply->Ok_0 is DriverError ==> (browse_refused(reply) matches Some(f)
            && f.code == detail_or_nothing(reply->Ok_0->DriverError_detail).code && f.message
            == detail_or_nothing(reply->Ok_0->DriverError_detail).message),
        !(reply is Ok && reply->Ok_0 is DriverError) ==> (browse_refused(reply) matches Some(f)
            ==> f.code == "DRIVER_UNAVAILABLE"@),
{
}

/// A driver can be launched exactly where it has an executable and both its platform and its
/// protocol fit; it is shown by what its manifest says.
pub proof fn drivers_are_shown_by_their_manifest(d: DiscoveredDriver)
    ensures
        info_of(d).launchable <==> d.executable_path is Some && d.platform_ok && d.protocol_ok,
        info_of(d).id == d.manifest.id@,
        info_of(d).name == d.manifest.name@,
        info_of(d).version == d.manifest.version@,
        info_of(d).protocol == decimal(d.manifest.protocol_major as nat) + "."@ + decimal(
            d.manifest.protocol_minor as nat,
        ),
        d.platform_ok && d.executable_path is Some ==> info_of(d).reason is None,
        d.platform_ok && d.executable_path is None ==> info_of(d).reason == Some(
            "executable not found"@,
        ),
        !d.platform_ok ==> info_of(d).reason == maybe_text(d.platform_reason),
{
}

/// The driver that serves an endpoint is the first under its id that can be launched.
pub proof fn the_first_driver_that_can_be_launched_serves(
    drivers: Seq<DiscoveredDriver>,
    id: Seq<char>,
    n: int,
)
    requires
        0 <= n <= drivers.len(),
    ensures
        first_serving(drivers, id, n) is None <==> forall|j: int|
            0 <= j < n ==> !((#[trigger] drivers[j]).manifest.id@ == id
                && drivers[j].executable_path is Some && drivers[j].platform_ok
                && drivers[j].protocol_ok),
        first_serving(drivers, id, n) matches Some(i) ==> 0 <= i < n && drivers[i].manifest.id@
            == id && drivers[i].executable_path is Some && drivers[i].platform_ok
            && drivers[i].protocol_ok && forall|j: int|
            0 <= j < i ==> !((#[trigger] drivers[j]).manifest.id@ == id
                && drivers[j].executable_path is Some && drivers[j].platform_ok
                && drivers[j].protocol_ok),
    decreases n,
{
    if n > 0 {
        the_first_driver_that_can_be_launched_serves(drivers, id, n - 1);
    }
}

/// An endpoint is started exactly where it does not run and a driver serves it.
pub proof fn endpoints_are_started_when_a_driver_serves_them(m: ManagerV, cfg: BuiltinEndpoint)
    ensures
        start_refused(m, cfg) is None <==> !m.running.contains(cfg.endpoint_id@) && exists|i: int|
            0 <= i < m.drivers.len() && (#[trigger] m.drivers[i]).manifest.id@ == cfg.driver_id@
                && m.drivers[i].executable_path is Some && m.drivers[i].platform_ok
                && m.drivers[i].protocol_ok,
{
    the_first_driver_that_can_be_launched_serves(m.drivers, cfg.driver_id@, m.drivers.len() as int);
}

/// A descriptor is known exactly where one was kept for that driver in that version.
pub proof fn descriptors_are_known_by_driver_and_version(
    m: ManagerV,
    id: Seq<char>,
    version: Seq<char>,
    d: DriverDescriptor,
    now: i64,
    other: Seq<char>,
    v: Seq<char>,
)
    ensures
        known_descriptor(descriptor_kept(m, id, version, d, now), id, version) == Some(d),
        other != id || v != version ==> known_descriptor(
            descriptor_kept(m, id, version, d, now),
            other,
            v,
        ) == known_descriptor(m, other, v),
        descriptor_kept(m, id, version, d, now).running == m.running,
        descriptor_kept(m, id, version, d, now).drivers == m.drivers,
{
}

/// What is kept is named by driver and version.
pub proof fn kept_descriptors_are_named(id: Seq<char>, versions: Seq<Seq<char>>, i: int)
    requires
        0 <= i < versions.len(),
    ensures
        version_names(id, versions).len() == versions.len(),
        version_names(id, versions)[i] == id + "@"@ + versions[i],
{
}

/// All drivers that were found are shown, in the order in which they were found.
pub proof fn all_found_drivers_are_shown(drivers: Seq<DiscoveredDriver>, i: int)
    requires
        0 <= i < drivers.len(),
    ensures
        infos_of(drivers).len() == drivers.len(),
        infos_of(drivers)[i] == info_of(drivers[i]),
        serving(drivers, drivers[i].manifest.id@) is None ==> !(drivers[i].executable_path is Some
            && drivers[i].platform_ok && drivers[i].protocol_ok),
{
    the_first_driver_that_can_be_launched_serves(
        drivers,
        drivers[i].manifest.id@,
        drivers.len() as int,
    );
}

/// What is kept is named driver by driver, in the order of their ids, and version by version.
pub proof fn kept_descriptors_are_named_driver_by_driver(
    cache: Map<Seq<char>, Map<Seq<char>, (DriverDescriptor, i64)>>,
    ids: Seq<Seq<char>>,
    n: int,
)
    requires
        0 < n <= ids.len(),
    ensures
        cache_names(cache, ids, 0).len() == 0,
        cache_names(cache, ids, n) == cache_names(cache, ids, n - 1) + version_names(
            ids[n - 1],
            ordered_keys(cache[ids[n - 1]]),
        ),
{
}

} // verus!
