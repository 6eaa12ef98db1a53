//! What is configured: devices, endpoints, their tasks, points and secrets.
use vstd::prelude::*;
use vstd::utf8::encode_utf8;

use crate::audit::{
    audits_page, audits_view, find_request, has_request, is_request, list_audits, maybe_str,
    AuditFilterV, AuditV, ControlAuditRecord,
};
use crate::event::{event_task_fault_text, EventTask};
use crate::json::{json_parsed, json_text, plain, Json, JsonV};
use crate::points::{
    assigned, assigned_id, defines, descriptor_keys, descriptors_view, has_room, ids_are_distinct,
    ids_stay_distinct, register, room_for, PointRow, Registry, RegistryRow,
};
use crate::schema::maybe_text;
use crate::secrets::{
    aead_encrypt_drawn, draw_nonce, drawn_view, draws_nonce, is_sealed, memory_key,
    memory_key_bytes, reveal_secret, revealed, sealing, SEAL_ALGORITHM,
};
use crate::protocol::tasks_view;
use crate::table::{ascending, is_order, ordered_keys, Table};
use crate::text::{
    blank, byte_len, byte_length, cat2, cat3, first_repeat, first_repeat_is_first, find_repeat,
    is_blank, same_text, texts_view,
};
use crate::types::{
    ensure_unique_point_keys, mode_name, now_unix_ns, point_keys, task_fault, task_fault_text,
    AcquisitionTask, DriverBinding, PointDefinition, PointDescriptor, TaskFault, TaskMode, TaskV,
};

verus! {

// ---------------------------------------------------------------------------
// Records
// ---------------------------------------------------------------------------

/// A device: what endpoints belong to.
#[derive(Debug, Clone, PartialEq)]
pub struct DeviceRecord {
    pub id: String,
    pub name: String,
}

/// What a [`DeviceRecord`] is.
pub struct DeviceV {
    pub id: Seq<char>,
    pub name: Seq<char>,
}

impl View for DeviceRecord {
    type V = DeviceV;

    open spec fn view(&self) -> DeviceV {
        DeviceV { id: self.id@, name: self.name@ }
    }
}

/// An endpoint: a connection that a driver serves.
#[derive(Debug, Clone, PartialEq)]
pub struct EndpointRecord {
    pub id: String,
    pub name: String,
    pub device_id: String,
    pub driver_id: String,
    pub connection_json: String,
    pub desired_running: bool,
    pub updated_at_ns: i64,
}

/// What an [`EndpointRecord`] is.
pub struct EndpointV {
    pub id: Seq<char>,
    pub name: Seq<char>,
    pub device_id: Seq<char>,
    pub driver_id: Seq<char>,
    pub connection_json: Seq<char>,
    pub desired_running: bool,
    pub updated_at_ns: i64,
}

impl View for EndpointRecord {
    type V = EndpointV;

    open spec fn view(&self) -> EndpointV {
        EndpointV {
            id: self.id@,
            name: self.name@,
            device_id: self.device_id@,
            driver_id: self.driver_id@,
            connection_json: self.connection_json@,
            desired_running: self.desired_running,
            updated_at_ns: self.updated_at_ns,
        }
    }
}

impl EndpointRecord {
    /// An equal record.
    pub fn copy(&self) -> (r: EndpointRecord)
        ensures
            r@ == self@,
    {
        EndpointRecord {
            id: self.id.clone(),
            name: self.name.clone(),
            device_id: self.device_id.clone(),
            driver_id: self.driver_id.clone(),
            connection_json: self.connection_json.clone(),
            desired_running: self.desired_running,
            updated_at_ns: self.updated_at_ns,
        }
    }
}

/// A task as it is kept, under its id.
#[derive(Debug, Clone, PartialEq)]
pub struct TaskRow {
    pub mode: String,
    pub interval_ms: Option<u64>,
    pub binding_kind: String,
    pub binding_config_json: String,
}

/// What a [`TaskRow`] is.
pub struct TaskRowV {
    pub mode: Seq<char>,
    pub interval_ms: Option<u64>,
    pub binding_kind: Seq<char>,
    pub binding_config_json: Seq<char>,
}

impl View for TaskRow {
    type V = TaskRowV;

    open spec fn view(&self) -> TaskRowV {
        TaskRowV {
            mode: self.mode@,
            interval_ms: self.interval_ms,
            binding_kind: self.binding_kind@,
            binding_config_json: self.binding_config_json@,
        }
    }
}

/// A secret as it is kept, under the field that it belongs to.
#[derive(Debug, Clone, PartialEq)]
pub struct SecretRow {
    pub ciphertext: Vec<u8>,
    pub nonce: Vec<u8>,
    pub algorithm: String,
    pub key_id: String,
    pub updated_at_ns: i64,
}

/// What a [`SecretRow`] is.
pub struct SecretRowV {
    pub ciphertext: Seq<u8>,
    pub nonce: Seq<u8>,
    pub algorithm: Seq<char>,
    pub key_id: Seq<char>,
    pub updated_at_ns: i64,
}

impl View for SecretRow {
    type V = SecretRowV;

    open spec fn view(&self) -> SecretRowV {
        SecretRowV {
            ciphertext: self.ciphertext@,
            nonce: self.nonce@,
            algorithm: self.algorithm@,
            key_id: self.key_id@,
            updated_at_ns: self.updated_at_ns,
        }
    }
}

/// A secret that has been sealed: its field, the bytes and the nonce.
#[derive(Debug, Clone, PartialEq)]
pub struct SealedSecret {
    pub field: String,
    pub ciphertext: Vec<u8>,
    pub nonce: Vec<u8>,
}

/// What a [`SealedSecret`] is.
pub struct SealedV {
    pub field: Seq<char>,
    pub ciphertext: Seq<u8>,
    pub nonce: Seq<u8>,
}

impl View for SealedSecret {
    type V = SealedV;

    open spec fn view(&self) -> SealedV {
        SealedV { field: self.field@, ciphertext: self.ciphertext@, nonce: self.nonce@ }
    }
}

/// What came of a request that must not be carried out twice, under its key.
#[derive(Debug, Clone, PartialEq)]
pub struct IdempotencyRow {
    pub request_hash: String,
    pub device_id: String,
    pub endpoint_id: String,
    pub result_json: String,
    pub created_at_ns: i64,
}

/// What an [`IdempotencyRow`] is.
pub struct IdempotencyV {
    pub request_hash: Seq<char>,
    pub device_id: Seq<char>,
    pub endpoint_id: Seq<char>,
    pub result_json: Seq<char>,
    pub created_at_ns: i64,
}

impl View for IdempotencyRow {
    type V = IdempotencyV;

    open spec fn view(&self) -> IdempotencyV {
        IdempotencyV {
            request_hash: self.request_hash@,
            device_id: self.device_id@,
            endpoint_id: self.endpoint_id@,
            result_json: self.result_json@,
            created_at_ns: self.created_at_ns,
        }
    }
}

// ---------------------------------------------------------------------------
// Errors
// ---------------------------------------------------------------------------

/// Why the store does not do something.
#[derive(Debug, Clone, PartialEq)]
pub enum StoreError {
    Sqlite(String),
    Duplicate(String),
    NotFound(String),
    Conflict(String),
    Validation(String),
    Json(String),
}

/// What a [`StoreError`] says.
pub enum StoreFault {
    Sqlite(Seq<char>),
    Duplicate(Seq<char>),
    NotFound(Seq<char>),
    Conflict(Seq<char>),
    Validation(Seq<char>),
    Json(Seq<char>),
}

impl View for StoreError {
    type V = StoreFault;

    open spec fn view(&self) -> StoreFault {
        match self {
            StoreError::Sqlite(m) => StoreFault::Sqlite(m@),
            StoreError::Duplicate(m) => StoreFault::Duplicate(m@),
            StoreError::NotFound(m) => StoreFault::NotFound(m@),
            StoreError::Conflict(m) => StoreFault::Conflict(m@),
            StoreError::Validation(m) => StoreFault::Validation(m@),
            StoreError::Json(m) => StoreFault::Json(m@),
        }
    }
}

/// How the error reads.
pub open spec fn store_fault_text(f: StoreFault) -> Seq<char> {
    match f {
        StoreFault::Sqlite(m) => "sqlite: "@ + m,
        StoreFault::Duplicate(m) => "duplicate: "@ + m,
        StoreFault::NotFound(m) => "not found: "@ + m,
        StoreFault::Conflict(m) => "conflict: "@ + m,
        StoreFault::Validation(m) => "validation: "@ + m,
        StoreFault::Json(m) => "json: "@ + m,
    }
}

impl StoreError {
    pub fn message(&self) -> (r: String)
        ensures
            r@ == store_fault_text(self@),
    {
        match self {
            StoreError::Sqlite(m) => cat2("sqlite: ", m.as_str()),
            StoreError::Duplicate(m) => cat2("duplicate: ", m.as_str()),
            StoreError::NotFound(m) => cat2("not found: ", m.as_str()),
            StoreError::Conflict(m) => cat2("conflict: ", m.as_str()),
            StoreError::Validation(m) => cat2("validation: ", m.as_str()),
            StoreError::Json(m) => cat2("json: ", m.as_str()),
        }
    }
}

// ---------------------------------------------------------------------------
// The store
// ---------------------------------------------------------------------------

/// All that is configured.
pub struct ConfigStore {
    devices: Table<String>,
    endpoints: Table<EndpointRecord>,
    tasks: Table<Table<TaskRow>>,
    event_tasks: Table<Table<TaskRow>>,
    revisions: Table<u64>,
    points: Table<Table<PointRow>>,
    secrets: Table<Table<SecretRow>>,
    audits: Vec<ControlAuditRecord>,
    idempotency: Table<IdempotencyRow>,
    master_key: Vec<u8>,
}

/// What a [`ConfigStore`] holds.
#[verifier::ext_equal]
pub struct StoreV {
    pub devices: Map<Seq<char>, Seq<char>>,
    pub endpoints: Map<Seq<char>, EndpointV>,
    pub tasks: Map<Seq<char>, Map<Seq<char>, TaskRowV>>,
    pub event_tasks: Map<Seq<char>, Map<Seq<char>, TaskRowV>>,
    pub revisions: Map<Seq<char>, u64>,
    pub points: Map<Seq<char>, Registry>,
    pub secrets: Map<Seq<char>, Map<Seq<char>, SecretRowV>>,
    pub audits: Seq<AuditV>,
    pub idempotency: Map<Seq<char>, IdempotencyV>,
    pub master_key: Seq<u8>,
}

impl View for ConfigStore {
    type V = StoreV;

    closed spec fn view(&self) -> StoreV {
        StoreV {
            devices: self.devices@,
            endpoints: self.endpoints@,
            tasks: self.tasks@,
            event_tasks: self.event_tasks@,
            revisions: self.revisions@,
            points: self.points@,
            secrets: self.secrets@,
            audits: audits_view(self.audits@),
            idempotency: self.idempotency@,
            master_key: self.master_key@,
        }
    }
}

/// Whether each endpoint stands under its id and belongs to a device that there is.
pub open spec fn endpoints_ok(s: StoreV) -> bool {
    forall|k: Seq<char>| #[trigger]
        s.endpoints.contains_key(k) ==> s.endpoints[k].id == k && s.devices.contains_key(
            s.endpoints[k].device_id,
        )
}

/// Whether what belongs to an endpoint belongs to one that there is.
pub open spec fn belongings_ok(s: StoreV) -> bool {
    &&& forall|k: Seq<char>| #[trigger] s.tasks.contains_key(k) ==> s.endpoints.contains_key(k)
    &&& forall|k: Seq<char>| #[trigger]
        s.event_tasks.contains_key(k) ==> s.endpoints.contains_key(k)
    &&& forall|k: Seq<char>| #[trigger]
        s.revisions.contains_key(k) ==> s.endpoints.contains_key(k)
    &&& forall|k: Seq<char>| #[trigger] s.secrets.contains_key(k) ==> s.endpoints.contains_key(k)
}

/// Whether no two points of an endpoint share an id.
pub open spec fn points_ok(s: StoreV) -> bool {
    forall|k: Seq<char>| #[trigger]
        s.points.contains_key(k) ==> ids_are_distinct(s.points[k]) && s.points[k].dom().finite()
}

/// Whether no two records of the log share an id.
pub open spec fn audits_ok(s: StoreV) -> bool {
    forall|i: int, j: int|
        0 <= i < j < s.audits.len() ==> (#[trigger] s.audits[i]).request_id != (
        #[trigger] s.audits[j]).request_id
}

/// What holds of every store.
pub open spec fn store_ok(s: StoreV) -> bool {
    &&& endpoints_ok(s)
    &&& belongings_ok(s)
    &&& points_ok(s)
    &&& audits_ok(s)
    &&& s.master_key.len() == 32
}

/// How a call that gives a value went: as it should, with the store as it should be; or it failed
/// as it should, and the store is as it was.
pub open spec fn went<T>(
    r: Result<T, StoreError>,
    owed: Result<(StoreV, T), StoreFault>,
    before: StoreV,
    after: StoreV,
) -> bool {
    match r {
        Ok(v) => owed == Ok::<(StoreV, T), StoreFault>((after, v)),
        Err(e) => owed == Err::<(StoreV, T), StoreFault>(e@) && after == before,
    }
}

/// The first of two complaints.
pub open spec fn either(a: Option<StoreFault>, b: Option<StoreFault>) -> Option<StoreFault> {
    match a {
        Some(f) => Some(f),
        None => b,
    }
}

/// How a complaint is told.
pub open spec fn told(r: Result<(), StoreError>) -> Option<StoreFault> {
    match r {
        Ok(()) => None,
        Err(e) => Some(e@),
    }
}

/// What a store without anything in it holds.
pub open spec fn empty_store(master_key: Seq<u8>) -> StoreV {
    StoreV {
        devices: Map::empty(),
        endpoints: Map::empty(),
        tasks: Map::empty(),
        event_tasks: Map::empty(),
        revisions: Map::empty(),
        points: Map::empty(),
        secrets: Map::empty(),
        audits: Seq::empty(),
        idempotency: Map::empty(),
        master_key,
    }
}

impl ConfigStore {
    /// A store without anything in it, under a master key.
    pub fn with_key(master_key: Vec<u8>) -> (r: ConfigStore)
        requires
            master_key@.len() == 32,
        ensures
            r@ == empty_store(master_key@),
            store_ok(r@),
    {
        let r: ConfigStore = ConfigStore {
            devices: Table::new(),
            endpoints: Table::new(),
            tasks: Table::new(),
            event_tasks: Table::new(),
            revisions: Table::new(),
            points: Table::new(),
            secrets: Table::new(),
            audits: Vec::new(),
            idempotency: Table::new(),
            master_key,
        };
        assert(r@ =~= empty_store(master_key@));
        r
    }

    /// A store that is kept in memory alone.
    pub fn open_in_memory() -> (r: ConfigStore)
        ensures
            r@ == empty_store(memory_key_bytes()),
            store_ok(r@),
    {
        ConfigStore::with_key(memory_key())
    }
}

// ---------------------------------------------------------------------------
// What is checked
// ---------------------------------------------------------------------------

/// What is wrong with an id.
pub open spec fn id_fault(id: Seq<char>) -> Option<StoreFault> {
    if blank(id) {
        Some(StoreFault::Validation("id 不能为空"@))
    } else if byte_length(id) > 128 {
        Some(StoreFault::Validation("id 过长（≤128）"@))
    } else {
        None
    }
}

/// What is wrong with the name of a device.
pub open spec fn device_name_fault(name: Seq<char>) -> Option<StoreFault> {
    if blank(name) {
        Some(StoreFault::Validation("device name 不能为空"@))
    } else {
        None
    }
}

/// What is wrong with the name of an endpoint.
pub open spec fn endpoint_name_fault(name: Seq<char>) -> Option<StoreFault> {
    if blank(name) {
        Some(StoreFault::Validation("endpoint name 不能为空"@))
    } else if byte_length(name) > 128 {
        Some(StoreFault::Validation("endpoint name 过长（≤128）"@))
    } else {
        None
    }
}

/// What is wrong with a connection, as text.
pub open spec fn connection_fault(text: Seq<char>) -> Option<StoreFault> {
    match json_parsed(text) {
        Err(e) => Some(StoreFault::Json(e)),
        Ok(v) => if v is Object {
            None
        } else {
            Some(StoreFault::Validation("connection 必须为 JSON 对象"@))
        },
    }
}

/// What is wrong with an endpoint that is new.
pub open spec fn endpoint_fault(e: EndpointV) -> Option<StoreFault> {
    either(
        id_fault(e.id),
        either(
            id_fault(e.device_id),
            either(
                id_fault(e.driver_id),
                either(endpoint_name_fault(e.name), connection_fault(e.connection_json)),
            ),
        ),
    )
}

fn validate_id(id: &str) -> (r: Result<(), StoreError>)
    ensures
        told(r) == id_fault(id@),
{
    if is_blank(id) {
        return Err(StoreError::Validation("id 不能为空".to_owned()));
    }
    if byte_len(id) > 128 {
        return Err(StoreError::Validation("id 过长（≤128）".to_owned()));
    }
    Ok(())
}

fn validate_device_name(name: &str) -> (r: Result<(), StoreError>)
    ensures
        told(r) == device_name_fault(name@),
{
    if is_blank(name) {
        return Err(StoreError::Validation("device name 不能为空".to_owned()));
    }
    Ok(())
}

fn validate_endpoint_name(name: &str) -> (r: Result<(), StoreError>)
    ensures
        told(r) == endpoint_name_fault(name@),
{
    if is_blank(name) {
        return Err(StoreError::Validation("endpoint name 不能为空".to_owned()));
    }
    if byte_len(name) > 128 {
        return Err(StoreError::Validation("endpoint name 过长（≤128）".to_owned()));
    }
    Ok(())
}

/// The value that a connection is, if it is an object.
pub fn validate_connection_json(s: &str) -> (r: Result<Json, StoreError>)
    ensures
        match r {
            Ok(v) => connection_fault(s@) is None && json_parsed(s@) == Ok::<JsonV, Seq<char>>(v@),
            Err(e) => connection_fault(s@) == Some(e@),
        },
{
    match Json::parse(s) {
        Err(e) => Err(StoreError::Json(e)),
        Ok(v) => {
            if v.is_object() {
                Ok(v)
            } else {
                Err(StoreError::Validation("connection 必须为 JSON 对象".to_owned()))
            }
        },
    }
}

fn validate_connection(s: &str) -> (r: Result<(), StoreError>)
    ensures
        told(r) == connection_fault(s@),
{
    match validate_connection_json(s) {
        Ok(_) => Ok(()),
        Err(e) => Err(e),
    }
}

fn validate_endpoint(e: &EndpointRecord) -> (r: Result<(), StoreError>)
    ensures
        told(r) == endpoint_fault(e@),
{
    match validate_id(e.id.as_str()) {
        Ok(()) => {},
        Err(f) => {
            return Err(f);
        },
    }
    match validate_id(e.device_id.as_str()) {
        Ok(()) => {},
        Err(f) => {
            return Err(f);
        },
    }
    match validate_id(e.driver_id.as_str()) {
        Ok(()) => {},
        Err(f) => {
            return Err(f);
        },
    }
    match validate_endpoint_name(e.name.as_str()) {
        Ok(()) => {},
        Err(f) => {
            return Err(f);
        },
    }
    validate_connection(e.connection_json.as_str())
}

// ---------------------------------------------------------------------------
// Devices
// ---------------------------------------------------------------------------

/// The complaint that there is such a device.
pub open spec fn device_exists(id: Seq<char>) -> StoreFault {
    StoreFault::Duplicate("device `"@ + id + "` 已存在"@)
}

/// The complaint that there is such an endpoint.
pub open spec fn endpoint_exists(id: Seq<char>) -> StoreFault {
    StoreFault::Duplicate("endpoint `"@ + id + "` 已存在"@)
}

/// The complaint that there is no such device.
pub open spec fn no_device(id: Seq<char>) -> StoreFault {
    StoreFault::NotFound("device `"@ + id + "` 不存在"@)
}

/// The complaint that there is no such endpoint.
pub open spec fn no_endpoint(id: Seq<char>) -> StoreFault {
    StoreFault::NotFound("endpoint `"@ + id + "` 不存在"@)
}

/// The complaint that a row belongs to one that there is not.
pub open spec fn broken_reference() -> StoreFault {
    StoreFault::Sqlite("FOREIGN KEY constraint failed"@)
}

/// The store with a new device.
pub open spec fn device_created(s: StoreV, d: DeviceV) -> Result<(StoreV, ()), StoreFault> {
    match either(id_fault(d.id), device_name_fault(d.name)) {
        Some(f) => Err(f),
        None => if s.devices.contains_key(d.id) {
            Err(device_exists(d.id))
        } else {
            Ok((StoreV { devices: s.devices.insert(d.id, d.name), ..s }, ()))
        },
    }
}

/// The store with a device renamed, and whether there is such a device.
pub open spec fn device_updated(s: StoreV, d: DeviceV) -> Result<(StoreV, bool), StoreFault> {
    match device_name_fault(d.name) {
        Some(f) => Err(f),
        None => if s.devices.contains_key(d.id) {
            Ok((StoreV { devices: s.devices.insert(d.id, d.name), ..s }, true))
        } else {
            Ok((s, false))
        },
    }
}

/// Whether an endpoint belongs to a device.
pub open spec fn is_in_use(s: StoreV, device: Seq<char>) -> bool {
    exists|k: Seq<char>| #[trigger]
        s.endpoints.contains_key(k) && s.endpoints[k].device_id == device
}

/// The store without a device, and whether there was one. One that endpoints belong to stays.
pub open spec fn device_deleted(s: StoreV, id: Seq<char>) -> Result<(StoreV, bool), StoreFault> {
    if !s.devices.contains_key(id) {
        Ok((s, false))
    } else if is_in_use(s, id) {
        Err(
            StoreFault::Conflict(
                "device `"@ + id + "` 仍被 endpoint 引用，请先删除关联 endpoint"@,
            ),
        )
    } else {
        Ok((StoreV { devices: s.devices.remove(id), ..s }, true))
    }
}

impl ConfigStore {
    pub fn create_device(&mut self, rec: &DeviceRecord) -> (r: Result<(), StoreError>)
        requires
            store_ok(old(self)@),
        ensures
            went(r, device_created(old(self)@, rec@), old(self)@, final(self)@),
            store_ok(final(self)@),
    {
        match validate_id(rec.id.as_str()) {
            Ok(()) => {},
            Err(f) => {
                return Err(f);
            },
        }
        match validate_device_name(rec.name.as_str()) {
            Ok(()) => {},
            Err(f) => {
                return Err(f);
            },
        }
        if self.devices.has(rec.id.as_str()) {
            return Err(
                StoreError::Duplicate(cat3("device `", rec.id.as_str(), "` 已存在")),
            );
        }
        self.devices.set(rec.id.clone(), rec.name.clone());
        Ok(())
    }

    /// The devices in the order of their ids.
    pub fn list_devices(&self) -> (r: Vec<DeviceRecord>)
        ensures
            ascending(r@.map_values(|d: DeviceRecord| d.id@)),
            r@.map_values(|d: DeviceRecord| d.id@).to_set() == self@.devices.dom(),
            forall|i: int|
                0 <= i < r@.len() ==> (#[trigger] r@[i]).name@ == self@.devices[r@[i].id@],
    {
        let n: usize = self.devices.len();
        let ghost keys = self.devices.keys();
        let mut out: Vec<DeviceRecord> = Vec::new();
        let mut i: usize = 0;
        while i < n
            invariant
                i <= n,
                n == keys.len(),
                keys == self.devices.keys(),
                out@.len() == i,
                forall|j: int|
                    0 <= j < i ==> (#[trigger] out@[j]).id@ == keys[j] && out@[j].name@
                        == self.devices@[keys[j]],
            decreases n - i,
        {
            out.push(
                DeviceRecord {
                    id: self.devices.key_at(i).clone(),
                    name: self.devices.at(i).clone(),
                },
            );
            i = i + 1;
        }
        assert(out@.map_values(|d: DeviceRecord| d.id@) =~= keys);
        out
    }

    pub fn get_device(&self, id: &str) -> (r: Option<DeviceRecord>)
        ensures
            match r {
                Some(d) => self@.devices.contains_key(id@) && d@ == (DeviceV {
                    id: id@,
                    name: self@.devices[id@],
                }),
                None => !self@.devices.contains_key(id@),
            },
    {
        match self.devices.get(id) {
            Some(name) => Some(DeviceRecord { id: id.to_owned(), name: name.clone() }),
            None => None,
        }
    }

    pub fn update_device(&mut self, rec: &DeviceRecord) -> (r: Result<bool, StoreError>)
        requires
            store_ok(old(self)@),
        ensures
            went(r, device_updated(old(self)@, rec@), old(self)@, final(self)@),
            store_ok(final(self)@),
    {
        match validate_device_name(rec.name.as_str()) {
            Ok(()) => {},
            Err(f) => {
                return Err(f);
            },
        }
        if !self.devices.has(rec.id.as_str()) {
            return Ok(false);
        }
        self.devices.set(rec.id.clone(), rec.name.clone());
        Ok(true)
    }

    fn device_in_use(&self, id: &str) -> (r: bool)
        ensures
            r == is_in_use(self@, id@),
    {
        let n: usize = self.endpoints.len();
        let ghost keys = self.endpoints.keys();
        let mut i: usize = 0;
        while i < n
            invariant
                i <= n,
                n == keys.len(),
                keys == self.endpoints.keys(),
                forall|j: int|
                    0 <= j < i ==> self.endpoints@[#[trigger] keys[j]].device_id != id@,
            decreases n - i,
        {
            if same_text(self.endpoints.at(i).device_id.as_str(), id) {
                assert(self@.endpoints.contains_key(keys[i as int]));
                return true;
            }
            i = i + 1;
        }
        assert forall|k: Seq<char>| #[trigger] self@.endpoints.contains_key(k) implies
            self@.endpoints[k].device_id != id@ by {
            assert(keys.to_set().contains(k));
            let j = choose|j: int| 0 <= j < keys.len() && keys[j] == k;
            assert(self.endpoints@[keys[j]].device_id != id@);
        }
        false
    }

    pub fn delete_device(&mut self, id: &str) -> (r: Result<bool, StoreError>)
        requires
            store_ok(old(self)@),
        ensures
            went(r, device_deleted(old(self)@, id@), old(self)@, final(self)@),
            store_ok(final(self)@),
    {
        if !self.devices.has(id) {
            return Ok(false);
        }
        if self.device_in_use(id) {
            return Err(
                StoreError::Conflict(
                    cat3("device `", id, "` 仍被 endpoint 引用，请先删除关联 endpoint"),
                ),
            );
        }
        let _ = self.devices.remove(id);
        Ok(true)
    }
}

// ---------------------------------------------------------------------------
// Secrets of an endpoint
// ---------------------------------------------------------------------------

/// The secrets of an endpoint by field.
pub open spec fn secrets_of(s: StoreV, endpoint: Seq<char>) -> Map<Seq<char>, SecretRowV> {
    if s.secrets.contains_key(endpoint) {
        s.secrets[endpoint]
    } else {
        Map::empty()
    }
}

/// A sealed secret as it is kept.
pub open spec fn sealed_row(x: SealedV, key_id: Seq<char>, now: i64) -> SecretRowV {
    SecretRowV {
        ciphertext: x.ciphertext,
        nonce: x.nonce,
        algorithm: SEAL_ALGORITHM@,
        key_id,
        updated_at_ns: now,
    }
}

/// Secrets by field, with the first `n` of some sealed ones put in.
pub open spec fn rows_put(
    rows: Map<Seq<char>, SecretRowV>,
    xs: Seq<SealedV>,
    now: i64,
    n: int,
) -> Map<Seq<char>, SecretRowV>
    decreases n,
{
    if n <= 0 {
        rows
    } else {
        rows_put(rows, xs, now, n - 1).insert(
            xs[n - 1].field,
            sealed_row(xs[n - 1], "master"@, now),
        )
    }
}

/// Secrets by field, without the first `n` of some fields.
pub open spec fn rows_without(
    rows: Map<Seq<char>, SecretRowV>,
    fields: Seq<Seq<char>>,
    n: int,
) -> Map<Seq<char>, SecretRowV>
    decreases n,
{
    if n <= 0 {
        rows
    } else {
        rows_without(rows, fields, n - 1).remove(fields[n - 1])
    }
}

/// What some sealed secrets are.
pub open spec fn sealed_view(xs: Seq<SealedSecret>) -> Seq<SealedV> {
    xs.map_values(|x: SealedSecret| x@)
}

/// Fields and the texts that belong there.
pub open spec fn pairs_view(ps: Seq<(String, String)>) -> Seq<(Seq<char>, Seq<char>)> {
    ps.map_values(|p: (String, String)| (p.0@, p.1@))
}

/// Whether each of some texts has been sealed under a key, for its field.
pub open spec fn all_sealed(
    xs: Seq<SealedV>,
    texts: Seq<(Seq<char>, Seq<char>)>,
    key: Seq<u8>,
) -> bool {
    &&& xs.len() == texts.len()
    &&& forall|i: int|
        0 <= i < xs.len() ==> (#[trigger] xs[i]).field == texts[i].0 && is_sealed(
            key,
            xs[i].nonce,
            xs[i].ciphertext,
            texts[i].1,
        )
}

/// The first `n` of some secrets sealed, each under what was drawn for it; or why one cannot be.
pub open spec fn sealing_all(
    secrets: Seq<(Seq<char>, Seq<char>)>,
    key: Seq<u8>,
    drawn: Seq<Result<Vec<u8>, String>>,
    n: int,
) -> Result<Seq<SealedV>, Seq<char>>
    decreases n,
{
    if n <= 0 {
        Ok(Seq::empty())
    } else {
        match (
            sealing_all(secrets, key, drawn, n - 1),
            sealing(secrets[n - 1].1, key, drawn_view(drawn[n - 1])),
        ) {
            (Err(m), _) => Err(m),
            (Ok(_), Err(m)) => Err(m),
            (Ok(front), Ok(x)) => Ok(
                front.push(SealedV { field: secrets[n - 1].0, ciphertext: x.0, nonce: x.1 }),
            ),
        }
    }
}

/// Why some secrets cannot be sealed under what was drawn for them.
pub open spec fn unsealed(
    secrets: Seq<(Seq<char>, Seq<char>)>,
    key: Seq<u8>,
    drawn: Seq<Result<Vec<u8>, String>>,
) -> Option<StoreFault> {
    match sealing_all(secrets, key, drawn, secrets.len() as int) {
        Ok(xs) => None,
        Err(m) => Some(StoreFault::Validation(m)),
    }
}

/// Whether there is a nonce, or why there is none, for each of some secrets.
pub open spec fn draws_for(drawn: Seq<Result<Vec<u8>, String>>, n: nat) -> bool {
    &&& drawn.len() == n
    &&& forall|i: int| 0 <= i < drawn.len() ==> draws_nonce(#[trigger] drawn[i])
}

proof fn lemma_sealing_fails(
    secrets: Seq<(Seq<char>, Seq<char>)>,
    key: Seq<u8>,
    drawn: Seq<Result<Vec<u8>, String>>,
    n: int,
    m: int,
)
    requires
        n <= m,
        sealing_all(secrets, key, drawn, n) is Err,
    ensures
        sealing_all(secrets, key, drawn, m) == sealing_all(secrets, key, drawn, n),
    decreases m,
{
    if n < m && m > 0 {
        lemma_sealing_fails(secrets, key, drawn, n, m - 1);
    }
}

fn draw_nonces(n: usize) -> (r: Vec<Result<Vec<u8>, String>>)
    ensures
        draws_for(r@, n as nat),
{
    let mut out: Vec<Result<Vec<u8>, String>> = Vec::new();
    let mut i: usize = 0;
    while i < n
        invariant
            i <= n,
            draws_for(out@, i as nat),
        decreases n - i,
    {
        out.push(draw_nonce());
        i = i + 1;
    }
    out
}

/// Seals secrets, each under what was drawn for it.
pub fn seal_all_drawn(
    secrets: &[(String, String)],
    key: &Vec<u8>,
    drawn: &Vec<Result<Vec<u8>, String>>,
) -> (r: Result<Vec<SealedSecret>, StoreError>)
    requires
        key@.len() == 32,
        draws_for(drawn@, secrets@.len()),
    ensures
        match r {
            Ok(xs) => sealing_all(pairs_view(secrets@), key@, drawn@, secrets@.len() as int)
                == Ok::<Seq<SealedV>, Seq<char>>(sealed_view(xs@)) && all_sealed(
                sealed_view(xs@),
                pairs_view(secrets@),
                key@,
            ),
            Err(e) => unsealed(pairs_view(secrets@), key@, drawn@) == Some(e@),
        },
{
    let ghost pairs = pairs_view(secrets@);
    let mut out: Vec<SealedSecret> = Vec::new();
    let mut i: usize = 0;
    assert(sealed_view(out@) =~= Seq::<SealedV>::empty());
    while i < secrets.len()
        invariant
            i <= secrets.len(),
            key@.len() == 32,
            draws_for(drawn@, secrets@.len()),
            pairs == pairs_view(secrets@),
            out@.len() == i,
            sealing_all(pairs, key@, drawn@, i as int) == Ok::<Seq<SealedV>, Seq<char>>(
                sealed_view(out@),
            ),
            forall|j: int|
                0 <= j < i ==> (#[trigger] out@[j]).field@ == secrets@[j].0@ && is_sealed(
                    key@,
                    out@[j].nonce@,
                    out@[j].ciphertext@,
                    secrets@[j].1@,
                ),
        decreases secrets.len() - i,
    {
        let ghost before = sealed_view(out@);
        assert(draws_nonce(drawn@[i as int]));
        let nonce: Result<Vec<u8>, String> = match &drawn[i] {
            Ok(n) => Ok(n.clone()),
            Err(e) => Err(e.clone()),
        };
        assert(nonce is Ok ==> nonce->Ok_0@ =~= drawn@[i as int]->Ok_0@);
        assert(drawn_view(nonce) == drawn_view(drawn@[i as int]));
        assert(pairs[i as int] == (secrets@[i as int].0@, secrets@[i as int].1@));
        match aead_encrypt_drawn(secrets[i].1.as_str(), key, nonce) {
            Ok(x) => {
                let (ciphertext, nonce) = x;
                out.push(SealedSecret { field: secrets[i].0.clone(), ciphertext, nonce });
                assert(sealed_view(out@) =~= before.push(out@.last()@));
            },
            Err(m) => {
                proof {
                    lemma_sealing_fails(pairs, key@, drawn@, i + 1, secrets@.len() as int);
                }
                return Err(StoreError::Validation(m));
            },
        }
        i = i + 1;
    }
    assert(all_sealed(sealed_view(out@), pairs_view(secrets@), key@));
    Ok(out)
}

fn put_rows(rows: &mut Table<SecretRow>, xs: &Vec<SealedSecret>, now: i64)
    ensures
        final(rows)@ == rows_put(old(rows)@, sealed_view(xs@), now, xs@.len() as int),
{
    let ghost before = rows@;
    let mut i: usize = 0;
    while i < xs.len()
        invariant
            i <= xs.len(),
            rows@ == rows_put(before, sealed_view(xs@), now, i as int),
        decreases xs.len() - i,
    {
        let row: SecretRow = SecretRow {
            ciphertext: crate::types::copy_bytes(&xs[i].ciphertext),
            nonce: crate::types::copy_bytes(&xs[i].nonce),
            algorithm: SEAL_ALGORITHM.to_owned(),
            key_id: "master".to_owned(),
            updated_at_ns: now,
        };
        rows.set(xs[i].field.clone(), row);
        i = i + 1;
    }
}

fn drop_rows(rows: &mut Table<SecretRow>, fields: &[String])
    ensures
        final(rows)@ == rows_without(old(rows)@, texts_view(fields@), fields@.len() as int),
{
    let ghost before = rows@;
    let mut i: usize = 0;
    while i < fields.len()
        invariant
            i <= fields.len(),
            rows@ == rows_without(before, texts_view(fields@), i as int),
        decreases fields.len() - i,
    {
        let _ = rows.remove(fields[i].as_str());
        i = i + 1;
    }
}

fn rows_of<T: View>(all: &mut Table<Table<T>>, key: &str) -> (r: Table<T>)
    ensures
        final(all)@ == old(all)@.remove(key@),
        r@ == if old(all)@.contains_key(key@) {
            old(all)@[key@]
        } else {
            Map::empty()
        },
{
    match all.take(key) {
        Some(t) => t,
        None => Table::new(),
    }
}

// ---------------------------------------------------------------------------
// Endpoints
// ---------------------------------------------------------------------------

/// Why an endpoint cannot be added.
pub open spec fn endpoint_refused(s: StoreV, e: EndpointV) -> Option<StoreFault> {
    either(
        endpoint_fault(e),
        if !s.devices.contains_key(e.device_id) {
            Some(no_device(e.device_id))
        } else if s.endpoints.contains_key(e.id) {
            Some(endpoint_exists(e.id))
        } else {
            None
        },
    )
}

/// The revisions with one for an endpoint, from zero on.
pub open spec fn revision_started(s: StoreV, id: Seq<char>) -> Map<Seq<char>, u64> {
    if s.revisions.contains_key(id) {
        s.revisions
    } else {
        s.revisions.insert(id, 0)
    }
}

/// The secrets with some sealed ones put in for an endpoint.
pub open spec fn secrets_put(s: StoreV, id: Seq<char>, xs: Seq<SealedV>, now: i64) -> Map<
    Seq<char>,
    Map<Seq<char>, SecretRowV>,
> {
    if xs.len() == 0 {
        s.secrets
    } else {
        s.secrets.insert(id, rows_put(secrets_of(s, id), xs, now, xs.len() as int))
    }
}

/// The store with a new endpoint and its secrets.
pub open spec fn endpoint_added(s: StoreV, e: EndpointV, xs: Seq<SealedV>, now: i64) -> StoreV {
    StoreV {
        endpoints: s.endpoints.insert(e.id, e),
        revisions: revision_started(s, e.id),
        secrets: secrets_put(s, e.id, xs, now),
        ..s
    }
}

/// What adding an endpoint gives.
pub open spec fn endpoint_created(s: StoreV, e: EndpointV, xs: Seq<SealedV>, now: i64) -> Result<
    (StoreV, ()),
    StoreFault,
> {
    match endpoint_refused(s, e) {
        Some(f) => Err(f),
        None => Ok((endpoint_added(s, e, xs, now), ())),
    }
}

/// What comes of adding an endpoint with secrets that are sealed under what was drawn for them.
pub open spec fn endpoint_created_drawn(
    s: StoreV,
    e: EndpointV,
    secrets: Seq<(Seq<char>, Seq<char>)>,
    drawn: Seq<Result<Vec<u8>, String>>,
    now: i64,
) -> Result<(StoreV, ()), StoreFault> {
    match either(endpoint_fault(e), unsealed(secrets, s.master_key, drawn)) {
        Some(f) => Err(f),
        None => endpoint_created(
            s,
            e,
            sealing_all(secrets, s.master_key, drawn, secrets.len() as int)->Ok_0,
            now,
        ),
    }
}

/// Why an endpoint cannot be changed.
pub open spec fn update_refused(s: StoreV, e: EndpointV) -> Option<StoreFault> {
    either(
        endpoint_name_fault(e.name),
        either(
            connection_fault(e.connection_json),
            if s.endpoints.contains_key(e.id) && !s.devices.contains_key(e.device_id) {
                Some(broken_reference())
            } else {
                None
            },
        ),
    )
}

/// The store with an endpoint changed, its driver aside, and its secrets.
pub open spec fn endpoint_changed(
    s: StoreV,
    e: EndpointV,
    xs: Seq<SealedV>,
    dropped: Seq<Seq<char>>,
    now: i64,
) -> StoreV {
    StoreV {
        endpoints: s.endpoints.insert(
            e.id,
            EndpointV { driver_id: s.endpoints[e.id].driver_id, ..e },
        ),
        secrets: if xs.len() == 0 && dropped.len() == 0 {
            s.secrets
        } else {
            s.secrets.insert(
                e.id,
                rows_without(
                    rows_put(secrets_of(s, e.id), xs, now, xs.len() as int),
                    dropped,
                    dropped.len() as int,
                ),
            )
        },
        ..s
    }
}

/// What changing an endpoint gives, and whether there is such an endpoint.
pub open spec fn endpoint_updated(
    s: StoreV,
    e: EndpointV,
    xs: Seq<SealedV>,
    dropped: Seq<Seq<char>>,
    now: i64,
) -> Result<(StoreV, bool), StoreFault> {
    match update_refused(s, e) {
        Some(f) => Err(f),
        None => if s.endpoints.contains_key(e.id) {
            Ok((endpoint_changed(s, e, xs, dropped, now), true))
        } else {
            Ok((s, false))
        },
    }
}

/// What comes of changing an endpoint with secrets that are sealed under what was drawn for them.
pub open spec fn endpoint_updated_drawn(
    s: StoreV,
    e: EndpointV,
    secrets: Seq<(Seq<char>, Seq<char>)>,
    dropped: Seq<Seq<char>>,
    drawn: Seq<Result<Vec<u8>, String>>,
    now: i64,
) -> Result<(StoreV, bool), StoreFault> {
    match either(
        either(endpoint_name_fault(e.name), connection_fault(e.connection_json)),
        unsealed(secrets, s.master_key, drawn),
    ) {
        Some(f) => Err(f),
        None => endpoint_updated(
            s,
            e,
            sealing_all(secrets, s.master_key, drawn, secrets.len() as int)->Ok_0,
            dropped,
            now,
        ),
    }
}

/// The store without an endpoint and what belongs to it. Its points stay known.
pub open spec fn endpoint_deleted(s: StoreV, id: Seq<char>) -> StoreV {
    StoreV {
        endpoints: s.endpoints.remove(id),
        tasks: s.tasks.remove(id),
        event_tasks: s.event_tasks.remove(id),
        revisions: s.revisions.remove(id),
        secrets: s.secrets.remove(id),
        ..s
    }
}

/// The store with an endpoint that is to run or not.
pub open spec fn desire_set(s: StoreV, id: Seq<char>, running: bool, now: i64) -> StoreV {
    if s.endpoints.contains_key(id) {
        StoreV {
            endpoints: s.endpoints.insert(
                id,
                EndpointV { desired_running: running, updated_at_ns: now, ..s.endpoints[id] },
            ),
            ..s
        }
    } else {
        s
    }
}

impl ConfigStore {
    fn start_revision(&mut self, id: &str)
        ensures
            final(self)@ == (StoreV { revisions: revision_started(old(self)@, id@), ..old(self)@ }),
    {
        if !self.revisions.has(id) {
            self.revisions.set(id.to_owned(), 0);
        }
    }

    fn put_secrets(&mut self, id: &str, xs: &Vec<SealedSecret>, now: i64)
        ensures
            final(self)@ == (StoreV {
                secrets: secrets_put(old(self)@, id@, sealed_view(xs@), now),
                ..old(self)@
            }),
    {
        if xs.len() > 0 {
            let ghost before = self@;
            let mut rows: Table<SecretRow> = rows_of(&mut self.secrets, id);
            put_rows(&mut rows, xs, now);
            let ghost v = rows@;
            self.secrets.set(id.to_owned(), rows);
            assert(self@.secrets =~= before.secrets.insert(id@, v));
        }
        assert(self@ =~= (StoreV {
            secrets: secrets_put(old(self)@, id@, sealed_view(xs@), now),
            ..old(self)@
        }));
    }

    fn refuse_endpoint(&self, rec: &EndpointRecord) -> (r: Result<(), StoreError>)
        requires
            endpoint_fault(rec@) is None,
        ensures
            told(r) == endpoint_refused(self@, rec@),
    {
        if !self.devices.has(rec.device_id.as_str()) {
            return Err(
                StoreError::NotFound(cat3("device `", rec.device_id.as_str(), "` 不存在")),
            );
        }
        if self.endpoints.has(rec.id.as_str()) {
            return Err(
                StoreError::Duplicate(cat3("endpoint `", rec.id.as_str(), "` 已存在")),
            );
        }
        Ok(())
    }

    /// Adds an endpoint with secrets that have been sealed.
    pub fn create_endpoint_sealed(
        &mut self,
        rec: &EndpointRecord,
        secrets: &Vec<SealedSecret>,
        now: i64,
    ) -> (r: Result<(), StoreError>)
        requires
            store_ok(old(self)@),
        ensures
            went(
                r,
                endpoint_created(old(self)@, rec@, sealed_view(secrets@), now),
                old(self)@,
                final(self)@,
            ),
            store_ok(final(self)@),
    {
        match validate_endpoint(rec) {
            Ok(()) => {},
            Err(f) => {
                return Err(f);
            },
        }
        match self.refuse_endpoint(rec) {
            Ok(()) => {},
            Err(f) => {
                return Err(f);
            },
        }
        let ghost before = self@;
        self.endpoints.set(rec.id.clone(), rec.copy());
        self.start_revision(rec.id.as_str());
        self.put_secrets(rec.id.as_str(), secrets, now);
        assert(self@ =~= endpoint_added(before, rec@, sealed_view(secrets@), now));
        Ok(())
    }

    pub fn create_endpoint(&mut self, rec: &EndpointRecord) -> (r: Result<(), StoreError>)
        requires
            store_ok(old(self)@),
        ensures
            went(
                r,
                endpoint_created(old(self)@, rec@, Seq::empty(), 0),
                old(self)@,
                final(self)@,
            ),
            store_ok(final(self)@),
    {
        let none: Vec<SealedSecret> = Vec::new();
        assert(sealed_view(none@) =~= Seq::<SealedV>::empty());
        self.create_endpoint_sealed(rec, &none, 0)
    }

    /// Adds an endpoint with its secrets, each sealed under what was drawn for it.
    pub fn create_endpoint_drawn(
        &mut self,
        rec: &EndpointRecord,
        secrets: &[(String, String)],
        drawn: &Vec<Result<Vec<u8>, String>>,
        now: i64,
    ) -> (r: Result<(), StoreError>)
        requires
            store_ok(old(self)@),
            draws_for(drawn@, secrets@.len()),
        ensures
            went(
                r,
                endpoint_created_drawn(old(self)@, rec@, pairs_view(secrets@), drawn@, now),
                old(self)@,
                final(self)@,
            ),
            r is Ok ==> all_sealed(
                sealing_all(
                    pairs_view(secrets@),
                    old(self)@.master_key,
                    drawn@,
                    secrets@.len() as int,
                )->Ok_0,
                pairs_view(secrets@),
                old(self)@.master_key,
            ),
            store_ok(final(self)@),
    {
        assert(pairs_view(secrets@).len() == secrets@.len());
        match validate_endpoint(rec) {
            Ok(()) => {},
            Err(f) => {
                return Err(f);
            },
        }
        match seal_all_drawn(secrets, &self.master_key, drawn) {
            Ok(xs) => self.create_endpoint_sealed(rec, &xs, now),
            Err(f) => Err(f),
        }
    }

    /// Adds an endpoint with its secrets, all of it or nothing.
    pub fn create_endpoint_with_secrets(
        &mut self,
        rec: &EndpointRecord,
        secrets: &[(String, String)],
    ) -> (r: Result<(), StoreError>)
        requires
            store_ok(old(self)@),
        ensures
            exists|drawn: Seq<Result<Vec<u8>, String>>, now: i64|
                went(
                    r,
                    #[trigger] endpoint_created_drawn(
                        old(self)@,
                        rec@,
                        pairs_view(secrets@),
                        drawn,
                        now,
                    ),
                    old(self)@,
                    final(self)@,
                ),
            match r {
                Ok(()) => endpoint_refused(old(self)@, rec@) is None && exists|
                    xs: Seq<SealedV>,
                    now: i64,
                |
                    all_sealed(xs, pairs_view(secrets@), old(self)@.master_key) && final(self)@
                        == #[trigger] endpoint_added(old(self)@, rec@, xs, now),
                Err(e) => final(self)@ == old(self)@ && (endpoint_refused(old(self)@, rec@) == Some(
                    e@,
                ) || exists|drawn: Seq<Result<Vec<u8>, String>>| #[trigger]
                    unsealed(pairs_view(secrets@), old(self)@.master_key, drawn) == Some(e@)),
            },
            endpoint_fault(rec@) is Some ==> r is Err && endpoint_fault(rec@) == Some(
                r->Err_0@,
            ),
            store_ok(final(self)@),
    {
        let drawn: Vec<Result<Vec<u8>, String>> = draw_nonces(secrets.len());
        let now: i64 = now_unix_ns();
        let r: Result<(), StoreError> = self.create_endpoint_drawn(rec, secrets, &drawn, now);
        proof {
            let pairs = pairs_view(secrets@);
            let owed = endpoint_created_drawn(old(self)@, rec@, pairs, drawn@, now);
            assert(went(r, owed, old(self)@, self@));
            if r is Ok {
                let xs = sealing_all(pairs, old(self)@.master_key, drawn@, pairs.len() as int)->Ok_0;
                assert(self@ == endpoint_added(old(self)@, rec@, xs, now));
            } else if endpoint_refused(old(self)@, rec@) != Some(r->Err_0@) {
                assert(unsealed(pairs, old(self)@.master_key, drawn@) == Some(r->Err_0@));
            }
        }
        r
    }

    /// Changes an endpoint, with secrets that have been sealed and fields whose secrets go.
    pub fn update_endpoint_sealed(
        &mut self,
        rec: &EndpointRecord,
        secrets: &Vec<SealedSecret>,
        dropped: &[String],
        now: i64,
    ) -> (r: Result<bool, StoreError>)
        requires
            store_ok(old(self)@),
        ensures
            went(
                r,
                endpoint_updated(
                    old(self)@,
                    rec@,
                    sealed_view(secrets@),
                    texts_view(dropped@),
                    now,
                ),
                old(self)@,
                final(self)@,
            ),
            store_ok(final(self)@),
    {
        match validate_endpoint_name(rec.name.as_str()) {
            Ok(()) => {},
            Err(f) => {
                return Err(f);
            },
        }
        match validate_connection(rec.connection_json.as_str()) {
            Ok(()) => {},
            Err(f) => {
                return Err(f);
            },
        }
        let ghost before = self@;
        let driver_id: String = match self.endpoints.get(rec.id.as_str()) {
            Some(e) => e.driver_id.clone(),
            None => {
                return Ok(false);
            },
        };
        if !self.devices.has(rec.device_id.as_str()) {
            return Err(StoreError::Sqlite("FOREIGN KEY constraint failed".to_owned()));
        }
        let mut new: EndpointRecord = rec.copy();
        new.driver_id = driver_id;
        self.endpoints.set(rec.id.clone(), new);
        if secrets.len() > 0 || dropped.len() > 0 {
            let mut rows: Table<SecretRow> = rows_of(&mut self.secrets, rec.id.as_str());
            put_rows(&mut rows, secrets, now);
            drop_rows(&mut rows, dropped);
            let ghost v = rows@;
            self.secrets.set(rec.id.clone(), rows);
            assert(self@.secrets =~= before.secrets.insert(rec.id@, v));
        }
        assert(self@ =~= endpoint_changed(
            before,
            rec@,
            sealed_view(secrets@),
            texts_view(dropped@),
            now,
        ));
        Ok(true)
    }

    pub fn update_endpoint(&mut self, rec: &EndpointRecord) -> (r: Result<bool, StoreError>)
        requires
            store_ok(old(self)@),
        ensures
            went(
                r,
                endpoint_updated(old(self)@, rec@, Seq::empty(), Seq::empty(), 0),
                old(self)@,
                final(self)@,
            ),
            store_ok(final(self)@),
    {
        let none: Vec<SealedSecret> = Vec::new();
        let nothing: Vec<String> = Vec::new();
        assert(sealed_view(none@) =~= Seq::<SealedV>::empty());
        assert(texts_view(nothing@) =~= Seq::<Seq<char>>::empty());
        self.update_endpoint_sealed(rec, &none, nothing.as_slice(), 0)
    }

    /// Changes an endpoint and its secrets, each new one sealed under what was drawn for it.
    pub fn update_endpoint_drawn(
        &mut self,
        rec: &EndpointRecord,
        secrets_to_upsert: &[(String, String)],
        secrets_to_delete: &[String],
        drawn: &Vec<Result<Vec<u8>, String>>,
        now: i64,
    ) -> (r: Result<bool, StoreError>)
        requires
            store_ok(old(self)@),
            draws_for(drawn@, secrets_to_upsert@.len()),
        ensures
            went(
                r,
                endpoint_updated_drawn(
                    old(self)@,
                    rec@,
                    pairs_view(secrets_to_upsert@),
                    texts_view(secrets_to_delete@),
                    drawn@,
                    now,
                ),
                old(self)@,
                final(self)@,
            ),
            r is Ok ==> all_sealed(
                sealing_all(
                    pairs_view(secrets_to_upsert@),
                    old(self)@.master_key,
                    drawn@,
                    secrets_to_upsert@.len() as int,
                )->Ok_0,
                pairs_view(secrets_to_upsert@),
                old(self)@.master_key,
            ),
            store_ok(final(self)@),
    {
        assert(pairs_view(secrets_to_upsert@).len() == secrets_to_upsert@.len());
        match validate_endpoint_name(rec.name.as_str()) {
            Ok(()) => {},
            Err(f) => {
                return Err(f);
            },
        }
        match validate_connection(rec.connection_json.as_str()) {
            Ok(()) => {},
            Err(f) => {
                return Err(f);
            },
        }
        match seal_all_drawn(secrets_to_upsert, &self.master_key, drawn) {
            Ok(xs) => self.update_endpoint_sealed(rec, &xs, secrets_to_delete, now),
            Err(f) => Err(f),
        }
    }

    /// Changes an endpoint and its secrets, all of it or nothing.
    pub fn update_endpoint_with_secrets(
        &mut self,
        rec: &EndpointRecord,
        secrets_to_upsert: &[(String, String)],
        secrets_to_delete: &[String],
    ) -> (r: Result<bool, StoreError>)
        requires
            store_ok(old(self)@),
        ensures
            exists|drawn: Seq<Result<Vec<u8>, String>>, now: i64|
                went(
                    r,
                    #[trigger] endpoint_updated_drawn(
                        old(self)@,
                        rec@,
                        pairs_view(secrets_to_upsert@),
                        texts_view(secrets_to_delete@),
                        drawn,
                        now,
                    ),
                    old(self)@,
                    final(self)@,
                ),
            match r {
                Ok(true) => update_refused(old(self)@, rec@) is None && old(self)@.endpoints.contains_key(rec@.id) && exists|xs: Seq<SealedV>, now: i64|
                    all_sealed(xs, pairs_view(secrets_to_upsert@), old(self)@.master_key) && final(self)@ == #[trigger] endpoint_changed(
                        old(self)@,
                        rec@,
                        xs,
                        texts_view(secrets_to_delete@),
                        now,
                    ),
                Ok(false) => update_refused(old(self)@, rec@) is None && !old(self)@.endpoints.contains_key(rec@.id) && final(self)@ == old(self)@,
                Err(e) => final(self)@ == old(self)@ && (update_refused(old(self)@, rec@) == Some(
                    e@,
                ) || exists|drawn: Seq<Result<Vec<u8>, String>>| #[trigger]
                    unsealed(pairs_view(secrets_to_upsert@), old(self)@.master_key, drawn) == Some(
                        e@,
                    )),
            },
            either(endpoint_name_fault(rec@.name), connection_fault(rec@.connection_json)) matches
                Some(f) ==> r is Err && r->Err_0@ == f,
            store_ok(final(self)@),
    {
        let drawn: Vec<Result<Vec<u8>, String>> = draw_nonces(secrets_to_upsert.len());
        let now: i64 = now_unix_ns();
        let r: Result<bool, StoreError> = self.update_endpoint_drawn(
            rec,
            secrets_to_upsert,
            secrets_to_delete,
            &drawn,
            now,
        );
        proof {
            let pairs = pairs_view(secrets_to_upsert@);
            let dropped = texts_view(secrets_to_delete@);
            let owed = endpoint_updated_drawn(old(self)@, rec@, pairs, dropped, drawn@, now);
            assert(went(r, owed, old(self)@, self@));
            if r matches Ok(true) {
                let xs = sealing_all(pairs, old(self)@.master_key, drawn@, pairs.len() as int)->Ok_0;
                assert(self@ == endpoint_changed(old(self)@, rec@, xs, dropped, now));
            }
            if r is Err && update_refused(old(self)@, rec@) != Some(r->Err_0@) {
                assert(unsealed(pairs, old(self)@.master_key, drawn@) == Some(r->Err_0@));
            }
        }
        r
    }

    /// The endpoints in the order of their ids.
    pub fn list_endpoints(&self) -> (r: Vec<EndpointRecord>)
        requires
            store_ok(self@),
        ensures
            ascending(r@.map_values(|e: EndpointRecord| e.id@)),
            r@.map_values(|e: EndpointRecord| e.id@).to_set() == self@.endpoints.dom(),
            forall|i: int|
                0 <= i < r@.len() ==> (#[trigger] r@[i])@ == self@.endpoints[r@[i].id@],
    {
        let n: usize = self.endpoints.len();
        let ghost keys = self.endpoints.keys();
        let mut out: Vec<EndpointRecord> = Vec::new();
        let mut i: usize = 0;
        while i < n
            invariant
                i <= n,
                n == keys.len(),
                keys == self.endpoints.keys(),
                store_ok(self@),
                out@.len() == i,
                forall|j: int|
                    0 <= j < i ==> (#[trigger] out@[j])@ == self.endpoints@[keys[j]]
                        && out@[j].id@ == keys[j],
            decreases n - i,
        {
            let e: EndpointRecord = self.endpoints.at(i).copy();
            assert(self@.endpoints.contains_key(keys[i as int]));
            out.push(e);
            i = i + 1;
        }
        assert(out@.map_values(|e: EndpointRecord| e.id@) =~= keys);
        out
    }

    pub fn get_endpoint(&self, id: &str) -> (r: Option<EndpointRecord>)
        ensures
            match r {
                Some(e) => self@.endpoints.contains_key(id@) && e@ == self@.endpoints[id@],
                None => !self@.endpoints.contains_key(id@),
            },
    {
        match self.endpoints.get(id) {
            Some(e) => Some(e.copy()),
            None => None,
        }
    }

    /// Takes out an endpoint with its tasks, its revision and its secrets.
    pub fn delete_endpoint(&mut self, id: &str) -> (r: bool)
        requires
            store_ok(old(self)@),
        ensures
            r == old(self)@.endpoints.contains_key(id@),
            final(self)@ == endpoint_deleted(old(self)@, id@),
            store_ok(final(self)@),
    {
        let ghost before = self@;
        let r: bool = self.endpoints.remove(id);
        let _ = self.tasks.remove(id);
        let _ = self.event_tasks.remove(id);
        let _ = self.revisions.remove(id);
        let _ = self.secrets.remove(id);
        assert(self@ =~= endpoint_deleted(before, id@));
        r
    }

    /// Says at a time whether an endpoint is to run, and whether there is such an endpoint.
    pub fn set_desired_running_at(&mut self, endpoint_id: &str, running: bool, now: i64) -> (r: bool)
        requires
            store_ok(old(self)@),
        ensures
            r == old(self)@.endpoints.contains_key(endpoint_id@),
            final(self)@ == desire_set(old(self)@, endpoint_id@, running, now),
            store_ok(final(self)@),
    {
        match self.endpoints.take(endpoint_id) {
            Some(mut e) => {
                e.desired_running = running;
                e.updated_at_ns = now;
                let ghost v = e@;
                self.endpoints.set(endpoint_id.to_owned(), e);
                assert(self@.endpoints =~= old(self)@.endpoints.insert(endpoint_id@, v));
                true
            },
            None => {
                assert(self@.endpoints =~= old(self)@.endpoints);
                false
            },
        }
    }

    pub fn set_desired_running(&mut self, endpoint_id: &str, running: bool) -> (r: bool)
        requires
            store_ok(old(self)@),
        ensures
            r == old(self)@.endpoints.contains_key(endpoint_id@),
            exists|now: i64|
                final(self)@ == #[trigger] desire_set(old(self)@, endpoint_id@, running, now),
            store_ok(final(self)@),
    {
        let now: i64 = now_unix_ns();
        self.set_desired_running_at(endpoint_id, running, now)
    }
}

// ---------------------------------------------------------------------------
// Tasks
// ---------------------------------------------------------------------------

/// A task as it is kept.
pub open spec fn task_row(t: TaskV) -> TaskRowV {
    TaskRowV {
        mode: mode_name(t.mode),
        interval_ms: t.interval_ms,
        binding_kind: t.kind,
        binding_config_json: json_text(t.config),
    }
}

/// The rows of the first `n` of some tasks, by id.
pub open spec fn task_rows(ts: Seq<TaskV>, n: int) -> Map<Seq<char>, TaskRowV>
    decreases n,
{
    if n <= 0 {
        Map::empty()
    } else {
        task_rows(ts, n - 1).insert(ts[n - 1].id, task_row(ts[n - 1]))
    }
}

/// The ids of some tasks.
pub open spec fn task_ids(ts: Seq<TaskV>) -> Seq<Seq<char>> {
    ts.map_values(|t: TaskV| t.id)
}

/// The first task from `i` on that makes no sense.
pub open spec fn bad_task(ts: Seq<TaskV>, i: int) -> Option<(TaskFault, Seq<char>)>
    decreases ts.len() - i,
{
    if i >= ts.len() {
        None
    } else {
        match task_fault(ts[i]) {
            Some(f) => Some((f, ts[i].id)),
            None => bad_task(ts, i + 1),
        }
    }
}

/// What is wrong with some acquisition tasks.
pub open spec fn tasks_fault(ts: Seq<TaskV>) -> Option<StoreFault> {
    match bad_task(ts, 0) {
        Some(b) => Some(StoreFault::Validation(task_fault_text(b.0, b.1))),
        None => match first_repeat(task_ids(ts)) {
            Some(p) => Some(
                StoreFault::Validation("duplicate task id `"@ + task_ids(ts)[p] + "`"@),
            ),
            None => None,
        },
    }
}

/// What is wrong with some event tasks.
pub open spec fn event_tasks_fault(ts: Seq<TaskV>) -> Option<StoreFault> {
    match bad_task(ts, 0) {
        Some(b) => Some(StoreFault::Validation(event_task_fault_text(b.0, b.1))),
        None => match first_repeat(task_ids(ts)) {
            Some(p) => Some(
                StoreFault::Validation("duplicate event task id `"@ + task_ids(ts)[p] + "`"@),
            ),
            None => None,
        },
    }
}

/// How often what an endpoint is to do has been changed.
pub open spec fn revision_of(s: StoreV, endpoint: Seq<char>) -> u64 {
    if s.revisions.contains_key(endpoint) {
        s.revisions[endpoint]
    } else {
        0
    }
}

/// The store with an endpoint changed once more, at a time.
pub open spec fn revised(s: StoreV, endpoint: Seq<char>, now: i64) -> StoreV {
    StoreV {
        revisions: s.revisions.insert(endpoint, (revision_of(s, endpoint) + 1) as u64),
        endpoints: s.endpoints.insert(
            endpoint,
            EndpointV { updated_at_ns: now, ..s.endpoints[endpoint] },
        ),
        ..s
    }
}

/// What giving an endpoint other acquisition tasks gives: the new revision.
pub open spec fn tasks_replaced(s: StoreV, endpoint: Seq<char>, ts: Seq<TaskV>, now: i64) -> Result<
    (StoreV, u64),
    StoreFault,
> {
    match tasks_fault(ts) {
        Some(f) => Err(f),
        None => if !s.endpoints.contains_key(endpoint) {
            Err(no_endpoint(endpoint))
        } else {
            Ok(
                (
                    StoreV {
                        tasks: s.tasks.insert(endpoint, task_rows(ts, ts.len() as int)),
                        ..revised(s, endpoint, now)
                    },
                    (revision_of(s, endpoint) + 1) as u64,
                ),
            )
        },
    }
}

/// What giving an endpoint other event tasks gives: the new revision.
pub open spec fn event_tasks_replaced(
    s: StoreV,
    endpoint: Seq<char>,
    ts: Seq<TaskV>,
    now: i64,
) -> Result<(StoreV, u64), StoreFault> {
    match event_tasks_fault(ts) {
        Some(f) => Err(f),
        None => if !s.endpoints.contains_key(endpoint) {
            Err(no_endpoint(endpoint))
        } else {
            Ok(
                (
                    StoreV {
                        event_tasks: s.event_tasks.insert(
                            endpoint,
                            task_rows(ts, ts.len() as int),
                        ),
                        ..revised(s, endpoint, now)
                    },
                    (revision_of(s, endpoint) + 1) as u64,
                ),
            )
        },
    }
}

/// What some event tasks are.
pub open spec fn event_tasks_view(ts: Seq<EventTask>) -> Seq<TaskV> {
    ts.map_values(|t: EventTask| t@)
}

/// The rows of an endpoint.
pub open spec fn rows_for<T>(all: Map<Seq<char>, Map<Seq<char>, T>>, endpoint: Seq<char>) -> Map<
    Seq<char>,
    T,
> {
    if all.contains_key(endpoint) {
        all[endpoint]
    } else {
        Map::empty()
    }
}

/// The acquisition task that a row holds. A mode that is none is read as polling, and a
/// configuration that is none as an empty one.
pub open spec fn kept_task(id: Seq<char>, row: TaskRowV) -> TaskV {
    TaskV {
        id,
        mode: if row.mode == "subscribe"@ {
            TaskMode::Subscribe
        } else {
            TaskMode::Poll
        },
        interval_ms: row.interval_ms,
        kind: row.binding_kind,
        config: match json_parsed(row.binding_config_json) {
            Ok(v) => v,
            Err(e) => JsonV::Object(Seq::empty()),
        },
    }
}

/// Whether some tasks are those that were given, in the order of their ids.
pub open spec fn same_tasks(listed: Seq<TaskV>, given: Seq<TaskV>) -> bool {
    &&& ascending(task_ids(listed))
    &&& listed.len() == given.len()
    &&& listed.to_set() == given.to_set()
}

/// Whether the configuration of each of some tasks is plain.
pub open spec fn plain_tasks(ts: Seq<TaskV>) -> bool {
    forall|i: int| 0 <= i < ts.len() ==> plain((#[trigger] ts[i]).config, 127)
}

/// Whether what is kept of a configuration is read as that configuration.
pub open spec fn config_reads_back(t: TaskV) -> bool {
    json_parsed(json_text(t.config)) == Ok::<JsonV, Seq<char>>(t.config)
}

pub(crate) proof fn lemma_kept_task(t: TaskV)
    requires
        config_reads_back(t),
    ensures
        kept_task(t.id, task_row(t)) == t,
{
    reveal_strlit("poll");
    reveal_strlit("subscribe");
    assert("poll"@.len() == 4 && "subscribe"@.len() == 9);
}

proof fn lemma_given_row(ts: Seq<TaskV>, id: Seq<char>) -> (j: int)
    requires
        tasks_fault(ts) is None || event_tasks_fault(ts) is None,
        task_rows(ts, ts.len() as int).contains_key(id),
    ensures
        0 <= j < ts.len(),
        ts[j].id == id,
        task_rows(ts, ts.len() as int)[id] == task_row(ts[j]),
{
    replaced_tasks_are_kept(ts);
    let ids = task_ids(ts);
    assert(ids.to_set().contains(id));
    let j = choose|j: int| 0 <= j < ids.len() && ids[j] == id;
    assert(ts[j].id == id);
    j
}

pub(crate) proof fn lemma_listed(listed: Seq<TaskV>, ts: Seq<TaskV>)
    requires
        tasks_fault(ts) is None || event_tasks_fault(ts) is None,
        is_order(task_ids(listed), task_rows(ts, ts.len() as int)),
        forall|i: int|
            0 <= i < listed.len() ==> (#[trigger] listed[i]) == kept_task(
                listed[i].id,
                task_rows(ts, ts.len() as int)[listed[i].id],
            ),
        forall|i: int|
            0 <= i < ts.len() ==> kept_task((#[trigger] ts[i]).id, task_row(ts[i])) == ts[i],
    ensures
        same_tasks(listed, ts),
{
    broadcast use crate::text::lemma_text_before_irreflexive;

    let rows = task_rows(ts, ts.len() as int);
    let a = task_ids(listed);
    let b = task_ids(ts);
    replaced_tasks_are_kept(ts);
    first_repeat_is_first(b);
    assert forall|t: TaskV| listed.contains(t) implies ts.contains(t) by {
        let i = choose|i: int| 0 <= i < listed.len() && listed[i] == t;
        assert(a[i] == t.id);
        assert(a.to_set().contains(t.id));
        let j = lemma_given_row(ts, t.id);
        assert(ts[j] == t);
    }
    assert forall|t: TaskV| ts.contains(t) implies listed.contains(t) by {
        let j = choose|j: int| 0 <= j < ts.len() && ts[j] == t;
        assert(b[j] == t.id);
        assert(b.to_set().contains(t.id));
        assert(a.to_set().contains(t.id));
        let i = choose|i: int| 0 <= i < a.len() && a[i] == t.id;
        assert(listed[i].id == t.id);
        assert(rows[t.id] == task_row(t));
        assert(listed[i] == t);
    }
    assert(listed.to_set() =~= ts.to_set());
    assert(a.no_duplicates()) by {
        assert forall|i: int, j: int| 0 <= i < a.len() && 0 <= j < a.len() && i != j implies a[i]
            != a[j] by {
            if i < j {
                assert(crate::text::text_before(a[i], a[j]));
            } else {
                assert(crate::text::text_before(a[j], a[i]));
            }
        }
    }
    a.unique_seq_to_set();
    b.unique_seq_to_set();
}

/// What is wrong with the row of an event task.
pub open spec fn event_row_fault(row: TaskRowV) -> Option<StoreFault> {
    if row.mode != "poll"@ && row.mode != "subscribe"@ {
        Some(
            StoreFault::Sqlite(
                "Conversion error from type Text at index: 1, unknown event task mode `"@
                    + row.mode + "`"@,
            ),
        )
    } else {
        match json_parsed(row.binding_config_json) {
            Ok(v) => None,
            Err(e) => Some(
                StoreFault::Sqlite(
                    "Conversion error from type Text at index: 4, corrupt event binding_config_json: "@
                        + e,
                ),
            ),
        }
    }
}

/// What is wrong with the first bad row from `i` on.
pub open spec fn event_rows_fault(
    rows: Map<Seq<char>, TaskRowV>,
    keys: Seq<Seq<char>>,
    i: int,
) -> Option<StoreFault>
    decreases keys.len() - i,
{
    if i >= keys.len() {
        None
    } else {
        either(event_row_fault(rows[keys[i]]), event_rows_fault(rows, keys, i + 1))
    }
}

fn task_row_of(mode: TaskMode, interval_ms: Option<u64>, binding: &DriverBinding) -> (r: TaskRow)
    ensures
        r@ == (TaskRowV {
            mode: mode_name(mode),
            interval_ms,
            binding_kind: binding.kind@,
            binding_config_json: json_text(binding.config@),
        }),
{
    TaskRow {
        mode: mode.as_str().to_owned(),
        interval_ms,
        binding_kind: binding.kind.clone(),
        binding_config_json: binding.config.to_text(),
    }
}

fn rows_of_tasks(tasks: &[AcquisitionTask]) -> (r: Table<TaskRow>)
    ensures
        r@ == task_rows(tasks_view(tasks@), tasks@.len() as int),
{
    let mut rows: Table<TaskRow> = Table::new();
    let mut i: usize = 0;
    while i < tasks.len()
        invariant
            i <= tasks.len(),
            rows@ == task_rows(tasks_view(tasks@), i as int),
        decreases tasks.len() - i,
    {
        let t: &AcquisitionTask = &tasks[i];
        assert(tasks_view(tasks@)[i as int] == t@);
        rows.set(t.id.clone(), task_row_of(t.mode, t.interval_ms, &t.binding));
        i = i + 1;
    }
    rows
}

fn rows_of_event_tasks(tasks: &[EventTask]) -> (r: Table<TaskRow>)
    ensures
        r@ == task_rows(event_tasks_view(tasks@), tasks@.len() as int),
{
    let mut rows: Table<TaskRow> = Table::new();
    let mut i: usize = 0;
    while i < tasks.len()
        invariant
            i <= tasks.len(),
            rows@ == task_rows(event_tasks_view(tasks@), i as int),
        decreases tasks.len() - i,
    {
        let t: &EventTask = &tasks[i];
        assert(event_tasks_view(tasks@)[i as int] == t@);
        rows.set(t.id.clone(), task_row_of(t.mode, t.interval_ms, &t.binding));
        i = i + 1;
    }
    rows
}

fn validate_tasks(tasks: &[AcquisitionTask]) -> (r: Result<(), StoreError>)
    ensures
        told(r) == tasks_fault(tasks_view(tasks@)),
{
    let ghost ts = tasks_view(tasks@);
    let mut ids: Vec<String> = Vec::new();
    let mut i: usize = 0;
    while i < tasks.len()
        invariant
            i <= tasks.len(),
            ts == tasks_view(tasks@),
            bad_task(ts, 0) == bad_task(ts, i as int),
            ids@.len() == i,
            forall|j: int| 0 <= j < i ==> (#[trigger] ids@[j])@ == ts[j].id,
        decreases tasks.len() - i,
    {
        assert(ts[i as int] == tasks@[i as int]@);
        match tasks[i].validate() {
            Ok(()) => {},
            Err(e) => {
                return Err(StoreError::Validation(e.message()));
            },
        }
        ids.push(tasks[i].id.clone());
        i = i + 1;
    }
    assert(texts_view(ids@) =~= task_ids(ts));
    match find_repeat(&ids) {
        Some(p) => Err(
            StoreError::Validation(cat3("duplicate task id `", ids[p].as_str(), "`")),
        ),
        None => Ok(()),
    }
}

fn validate_event_tasks(tasks: &[EventTask]) -> (r: Result<(), StoreError>)
    ensures
        told(r) == event_tasks_fault(event_tasks_view(tasks@)),
{
    let ghost ts = event_tasks_view(tasks@);
    let mut ids: Vec<String> = Vec::new();
    let mut i: usize = 0;
    while i < tasks.len()
        invariant
            i <= tasks.len(),
            ts == event_tasks_view(tasks@),
            bad_task(ts, 0) == bad_task(ts, i as int),
            ids@.len() == i,
            forall|j: int| 0 <= j < i ==> (#[trigger] ids@[j])@ == ts[j].id,
        decreases tasks.len() - i,
    {
        assert(ts[i as int] == tasks@[i as int]@);
        match tasks[i].validate() {
            Ok(()) => {},
            Err(e) => {
                return Err(StoreError::Validation(e.message()));
            },
        }
        ids.push(tasks[i].id.clone());
        i = i + 1;
    }
    assert(texts_view(ids@) =~= task_ids(ts));
    match find_repeat(&ids) {
        Some(p) => Err(
            StoreError::Validation(cat3("duplicate event task id `", ids[p].as_str(), "`")),
        ),
        None => Ok(()),
    }
}

impl ConfigStore {
    pub fn current_revision(&self, endpoint_id: &str) -> (r: u64)
        ensures
            r == revision_of(self@, endpoint_id@),
    {
        match self.revisions.get(endpoint_id) {
            Some(n) => *n,
            None => 0,
        }
    }

    fn revise(&mut self, endpoint_id: &str, now: i64) -> (r: u64)
        requires
            old(self)@.endpoints.contains_key(endpoint_id@),
            revision_of(old(self)@, endpoint_id@) < i64::MAX,
        ensures
            r == revision_of(old(self)@, endpoint_id@) + 1,
            final(self)@ == revised(old(self)@, endpoint_id@, now),
    {
        let ghost before = self@;
        let next: u64 = self.current_revision(endpoint_id) + 1;
        self.revisions.set(endpoint_id.to_owned(), next);
        match self.endpoints.take(endpoint_id) {
            Some(mut e) => {
                e.updated_at_ns = now;
                let ghost v = e@;
                self.endpoints.set(endpoint_id.to_owned(), e);
                assert(self@.endpoints =~= before.endpoints.insert(endpoint_id@, v));
            },
            None => {},
        }
        assert(self@ =~= revised(before, endpoint_id@, now));
        next
    }

    /// Gives an endpoint other acquisition tasks in place of those it has, at a time.
    pub fn replace_tasks_at(&mut self, endpoint_id: &str, tasks: &[AcquisitionTask], now: i64) -> (r:
        Result<u64, StoreError>)
        requires
            store_ok(old(self)@),
            revision_of(old(self)@, endpoint_id@) < i64::MAX,
        ensures
            went(
                r,
                tasks_replaced(old(self)@, endpoint_id@, tasks_view(tasks@), now),
                old(self)@,
                final(self)@,
            ),
            store_ok(final(self)@),
    {
        match validate_tasks(tasks) {
            Ok(()) => {},
            Err(f) => {
                return Err(f);
            },
        }
        if !self.endpoints.has(endpoint_id) {
            return Err(StoreError::NotFound(cat3("endpoint `", endpoint_id, "` 不存在")));
        }
        let ghost before = self@;
        self.tasks.set(endpoint_id.to_owned(), rows_of_tasks(tasks));
        let next: u64 = self.revise(endpoint_id, now);
        assert(self@ =~= (StoreV {
            tasks: before.tasks.insert(
                endpoint_id@,
                task_rows(tasks_view(tasks@), tasks@.len() as int),
            ),
            ..revised(before, endpoint_id@, now)
        }));
        Ok(next)
    }

    /// Gives an endpoint other acquisition tasks in place of those it has.
    pub fn replace_tasks(&mut self, endpoint_id: &str, tasks: &[AcquisitionTask]) -> (r: Result<
        u64,
        StoreError,
    >)
        requires
            store_ok(old(self)@),
            revision_of(old(self)@, endpoint_id@) < i64::MAX,
        ensures
            exists|now: i64|
                went(
                    r,
                    #[trigger] tasks_replaced(old(self)@, endpoint_id@, tasks_view(tasks@), now),
                    old(self)@,
                    final(self)@,
                ),
            store_ok(final(self)@),
    {
        let now: i64 = now_unix_ns();
        let r: Result<u64, StoreError> = self.replace_tasks_at(endpoint_id, tasks, now);
        assert(went(
            r,
            tasks_replaced(old(self)@, endpoint_id@, tasks_view(tasks@), now),
            old(self)@,
            self@,
        ));
        r
    }

    /// Gives an endpoint other event tasks in place of those it has, at a time.
    pub fn replace_event_tasks_at(&mut self, endpoint_id: &str, tasks: &[EventTask], now: i64) -> (r:
        Result<u64, StoreError>)
        requires
            store_ok(old(self)@),
            revision_of(old(self)@, endpoint_id@) < i64::MAX,
        ensures
            went(
                r,
                event_tasks_replaced(old(self)@, endpoint_id@, event_tasks_view(tasks@), now),
                old(self)@,
                final(self)@,
            ),
            store_ok(final(self)@),
    {
        match validate_event_tasks(tasks) {
            Ok(()) => {},
            Err(f) => {
                return Err(f);
            },
        }
        if !self.endpoints.has(endpoint_id) {
            return Err(StoreError::NotFound(cat3("endpoint `", endpoint_id, "` 不存在")));
        }
        let ghost before = self@;
        self.event_tasks.set(endpoint_id.to_owned(), rows_of_event_tasks(tasks));
        let next: u64 = self.revise(endpoint_id, now);
        assert(self@ =~= (StoreV {
            event_tasks: before.event_tasks.insert(
                endpoint_id@,
                task_rows(event_tasks_view(tasks@), tasks@.len() as int),
            ),
            ..revised(before, endpoint_id@, now)
        }));
        Ok(next)
    }

    /// Gives an endpoint other event tasks in place of those it has.
    pub fn replace_event_tasks(&mut self, endpoint_id: &str, tasks: &[EventTask]) -> (r: Result<
        u64,
        StoreError,
    >)
        requires
            store_ok(old(self)@),
            revision_of(old(self)@, endpoint_id@) < i64::MAX,
        ensures
            exists|now: i64|
                went(
                    r,
                    #[trigger] event_tasks_replaced(
                        old(self)@,
                        endpoint_id@,
                        event_tasks_view(tasks@),
                        now,
                    ),
                    old(self)@,
                    final(self)@,
                ),
            store_ok(final(self)@),
    {
        let now: i64 = now_unix_ns();
        let r: Result<u64, StoreError> = self.replace_event_tasks_at(endpoint_id, tasks, now);
        assert(went(
            r,
            event_tasks_replaced(old(self)@, endpoint_id@, event_tasks_view(tasks@), now),
            old(self)@,
            self@,
        ));
        r
    }

    /// The acquisition tasks of an endpoint in the order of their ids. A task whose configuration
    /// is plain is as it was given.
    pub fn list_tasks(&self, endpoint_id: &str) -> (r: Vec<AcquisitionTask>)
        ensures
            task_ids(tasks_view(r@)) == ordered_keys(rows_for(self@.tasks, endpoint_id@)),
            forall|i: int|
                0 <= i < r@.len() ==> (#[trigger] r@[i])@ == kept_task(
                    r@[i].id@,
                    rows_for(self@.tasks, endpoint_id@)[r@[i].id@],
                ),
            forall|t: TaskV|
                plain(t.config, 127) && rows_for(self@.tasks, endpoint_id@).contains_key(t.id)
                    && #[trigger] task_row(t) == rows_for(self@.tasks, endpoint_id@)[t.id]
                    ==> kept_task(t.id, task_row(t)) == t,
            forall|ts: Seq<TaskV>|
                tasks_fault(ts) is None && plain_tasks(ts) && rows_for(self@.tasks, endpoint_id@)
                    == #[trigger] task_rows(ts, ts.len() as int) ==> same_tasks(
                    tasks_view(r@),
                    ts,
                ),
    {
        let none: Table<TaskRow> = Table::new();
        let rows: &Table<TaskRow> = match self.tasks.get(endpoint_id) {
            Some(t) => t,
            None => &none,
        };
        assert(rows@ == rows_for(self@.tasks, endpoint_id@));
        let n: usize = rows.len();
        let ghost keys = rows.keys();
        let mut out: Vec<AcquisitionTask> = Vec::new();
        let mut i: usize = 0;
        while i < n
            invariant
                i <= n,
                n == keys.len(),
                keys == rows.keys(),
                out@.len() == i,
                forall|j: int|
                    0 <= j < i ==> (#[trigger] out@[j])@ == kept_task(keys[j], rows@[keys[j]]),
                forall|j: int, v: JsonV|
                    0 <= j < i && plain(v, 127) && #[trigger] json_text(v) == (
                    #[trigger] rows@[keys[j]]).binding_config_json ==> json_parsed(json_text(v))
                        == Ok::<JsonV, Seq<char>>(v),
            decreases n - i,
        {
            let row: &TaskRow = rows.at(i);
            let config: Json = match Json::parse(row.binding_config_json.as_str()) {
                Ok(v) => v,
                Err(_) => {
                    let empty: Vec<(String, Json)> = Vec::new();
                    assert(crate::json::entries_view(empty@) =~= Seq::<(Seq<char>, JsonV)>::empty());
                    Json::Object(empty)
                },
            };
            proof {
                broadcast use crate::json::lemma_json_view;

            }
            let mode: TaskMode = if same_text(row.mode.as_str(), "subscribe") {
                TaskMode::Subscribe
            } else {
                TaskMode::Poll
            };
            let t: AcquisitionTask = AcquisitionTask {
                id: rows.key_at(i).clone(),
                mode,
                interval_ms: row.interval_ms,
                binding: DriverBinding { kind: row.binding_kind.clone(), config },
            };
            assert(t@ == kept_task(keys[i as int], rows@[keys[i as int]]));
            out.push(t);
            i = i + 1;
        }
        proof {
            assert(task_ids(tasks_view(out@)) =~= keys);
            assert forall|i: int| 0 <= i < out@.len() implies (#[trigger] out@[i])@ == kept_task(
                out@[i].id@,
                rows@[out@[i].id@],
            ) by {
                assert(task_ids(tasks_view(out@))[i] == keys[i]);
            }
            assert forall|t: TaskV|
                plain(t.config, 127) && rows@.contains_key(t.id) && #[trigger] task_row(t)
                    == rows@[t.id] implies kept_task(t.id, task_row(t)) == t by {
                assert(keys.to_set().contains(t.id));
                let j = choose|j: int| 0 <= j < keys.len() && keys[j] == t.id;
                assert(json_text(t.config) == rows@[keys[j]].binding_config_json);
                lemma_kept_task(t);
            }
            assert forall|ts: Seq<TaskV>|
                tasks_fault(ts) is None && plain_tasks(ts) && rows@ == #[trigger] task_rows(
                    ts,
                    ts.len() as int,
                ) implies same_tasks(tasks_view(out@), ts) by {
                replaced_tasks_are_kept(ts);
                assert forall|i: int| 0 <= i < ts.len() implies kept_task(
                    (#[trigger] ts[i]).id,
                    task_row(ts[i]),
                ) == ts[i] by {
                    assert(task_ids(ts)[i] == ts[i].id);
                    assert(task_ids(ts).to_set().contains(ts[i].id));
                }
                lemma_listed(tasks_view(out@), ts);
            }
        }
        out
    }

    /// The event tasks of an endpoint in the order of their ids, unless one was spoilt.
    pub fn list_event_tasks(&self, endpoint_id: &str) -> (r: Result<Vec<EventTask>, StoreError>)
        ensures
            match r {
                Ok(ts) => {
                    &&& event_rows_fault(
                        rows_for(self@.event_tasks, endpoint_id@),
                        ordered_keys(rows_for(self@.event_tasks, endpoint_id@)),
                        0,
                    ) is None
                    &&& task_ids(event_tasks_view(ts@)) == ordered_keys(
                        rows_for(self@.event_tasks, endpoint_id@),
                    )
                    &&& forall|i: int|
                        0 <= i < ts@.len() ==> (#[trigger] ts@[i])@ == kept_task(
                            ts@[i].id@,
                            rows_for(self@.event_tasks, endpoint_id@)[ts@[i].id@],
                        )
                },
                Err(e) => event_rows_fault(
                    rows_for(self@.event_tasks, endpoint_id@),
                    ordered_keys(rows_for(self@.event_tasks, endpoint_id@)),
                    0,
                ) == Some(e@),
            },
            forall|ts: Seq<TaskV>|
                event_tasks_fault(ts) is None && plain_tasks(ts) && rows_for(
                    self@.event_tasks,
                    endpoint_id@,
                ) == #[trigger] task_rows(ts, ts.len() as int) ==> r is Ok && same_tasks(
                    event_tasks_view(r->Ok_0@),
                    ts,
                ),
    {
        let none: Table<TaskRow> = Table::new();
        let rows: &Table<TaskRow> = match self.event_tasks.get(endpoint_id) {
            Some(t) => t,
            None => &none,
        };
        assert(rows@ == rows_for(self@.event_tasks, endpoint_id@));
        let n: usize = rows.len();
        let ghost keys = rows.keys();
        let mut out: Vec<EventTask> = Vec::new();
        let mut i: usize = 0;
        while i < n
            invariant
                i <= n,
                n == keys.len(),
                keys == rows.keys(),
                keys == ordered_keys(rows@),
                rows@ == rows_for(self@.event_tasks, endpoint_id@),
                event_rows_fault(rows@, keys, 0) == event_rows_fault(rows@, keys, i as int),
                out@.len() == i,
                forall|j: int|
                    0 <= j < i ==> (#[trigger] out@[j])@ == kept_task(keys[j], rows@[keys[j]]),
                forall|j: int, v: JsonV|
                    0 <= j < i && plain(v, 127) && #[trigger] json_text(v) == (
                    #[trigger] rows@[keys[j]]).binding_config_json ==> json_parsed(json_text(v))
                        == Ok::<JsonV, Seq<char>>(v),
            decreases n - i,
        {
            let row: &TaskRow = rows.at(i);
            proof {
                reveal_strlit("poll");
                reveal_strlit("subscribe");
                assert forall|ts: Seq<TaskV>|
                    event_tasks_fault(ts) is None && plain_tasks(ts) && rows@
                        == #[trigger] task_rows(ts, ts.len() as int) implies exists|v: JsonV|
                    plain(v, 127) && #[trigger] json_text(v) == row@.binding_config_json && (
                    row@.mode == "poll"@ || row@.mode == "subscribe"@) by {
                    let j = lemma_given_row(ts, keys[i as int]);
                    assert(json_text(ts[j].config) == row@.binding_config_json);
                }
            }
            let mode: TaskMode = if same_text(row.mode.as_str(), "poll") {
                TaskMode::Poll
            } else if same_text(row.mode.as_str(), "subscribe") {
                TaskMode::Subscribe
            } else {
                return Err(
                    StoreError::Sqlite(
                        cat3(
                            "Conversion error from type Text at index: 1, unknown event task mode `",
                            row.mode.as_str(),
                            "`",
                        ),
                    ),
                );
            };
            let config: Json = match Json::parse(row.binding_config_json.as_str()) {
                Ok(v) => v,
                Err(e) => {
                    return Err(
                        StoreError::Sqlite(
                            cat2(
                                "Conversion error from type Text at index: 4, corrupt event binding_config_json: ",
                                e.as_str(),
                            ),
                        ),
                    );
                },
            };
            let t: EventTask = EventTask {
                id: rows.key_at(i).clone(),
                mode,
                interval_ms: row.interval_ms,
                binding: DriverBinding { kind: row.binding_kind.clone(), config },
            };
            proof {
                reveal_strlit("poll");
                reveal_strlit("subscribe");
                assert("poll"@.len() == 4 && "subscribe"@.len() == 9);
                assert(t@ == kept_task(keys[i as int], rows@[keys[i as int]]));
            }
            out.push(t);
            i = i + 1;
        }
        proof {
            assert(task_ids(event_tasks_view(out@)) =~= keys);
            assert forall|i: int| 0 <= i < out@.len() implies (#[trigger] out@[i])@ == kept_task(
                out@[i].id@,
                rows@[out@[i].id@],
            ) by {
                assert(task_ids(event_tasks_view(out@))[i] == keys[i]);
            }
            assert forall|ts: Seq<TaskV>|
                event_tasks_fault(ts) is None && plain_tasks(ts) && rows@ == #[trigger] task_rows(
                    ts,
                    ts.len() as int,
                ) implies same_tasks(event_tasks_view(out@), ts) by {
                replaced_tasks_are_kept(ts);
                assert forall|i: int| 0 <= i < ts.len() implies kept_task(
                    (#[trigger] ts[i]).id,
                    task_row(ts[i]),
                ) == ts[i] by {
                    assert(task_ids(ts)[i] == ts[i].id);
                    assert(task_ids(ts).to_set().contains(ts[i].id));
                    assert(keys.to_set().contains(ts[i].id));
                    let j = choose|j: int| 0 <= j < keys.len() && keys[j] == ts[i].id;
                    assert(json_text(ts[i].config) == rows@[keys[j]].binding_config_json);
                    lemma_kept_task(ts[i]);
                }
                lemma_listed(event_tasks_view(out@), ts);
            }
        }
        Ok(out)
    }
}

// ---------------------------------------------------------------------------
// A device with its endpoint, all at once
// ---------------------------------------------------------------------------

/// Why a device and its endpoint cannot be added.
pub open spec fn bootstrap_refused(s: StoreV, d: DeviceV, e: EndpointV, ts: Seq<TaskV>) -> Option<
    StoreFault,
> {
    either(
        id_fault(d.id),
        either(
            device_name_fault(d.name),
            either(
                endpoint_fault(e),
                either(
                    tasks_fault(ts),
                    if s.devices.contains_key(d.id) {
                        Some(device_exists(d.id))
                    } else if s.endpoints.contains_key(e.id) || (e.device_id != d.id
                        && !s.devices.contains_key(e.device_id)) {
                        Some(endpoint_exists(e.id))
                    } else {
                        None
                    },
                ),
            ),
        ),
    )
}

/// The store with a device and its endpoint, its secrets and its tasks, at the first revision.
pub open spec fn bootstrapped(
    s: StoreV,
    d: DeviceV,
    e: EndpointV,
    xs: Seq<SealedV>,
    ts: Seq<TaskV>,
    now: i64,
) -> StoreV {
    StoreV {
        devices: s.devices.insert(d.id, d.name),
        endpoints: s.endpoints.insert(e.id, e),
        secrets: secrets_put(s, e.id, xs, now),
        tasks: s.tasks.insert(e.id, task_rows(ts, ts.len() as int)),
        revisions: s.revisions.insert(e.id, 1),
        ..s
    }
}

/// What comes of adding a device with an endpoint, with secrets that are sealed under what was drawn
/// for them, and with tasks.
pub open spec fn bootstrapped_drawn(
    s: StoreV,
    both: (DeviceV, EndpointV),
    secrets: Seq<(Seq<char>, Seq<char>)>,
    ts: Seq<TaskV>,
    drawn: Seq<Result<Vec<u8>, String>>,
    now: i64,
) -> Result<(StoreV, u64), StoreFault> {
    match either(unsealed(secrets, s.master_key, drawn), bootstrap_refused(s, both.0, both.1, ts)) {
        Some(f) => Err(f),
        None => {
            let xs = sealing_all(secrets, s.master_key, drawn, secrets.len() as int)->Ok_0;
            Ok((bootstrapped(s, both.0, both.1, xs, ts, now), 1))
        },
    }
}

/// The store after what was added at once has been taken out again.
pub open spec fn compensated(s: StoreV, device: Seq<char>, endpoint: Seq<char>) -> Result<
    (StoreV, ()),
    StoreFault,
> {
    let rest = endpoint_deleted(s, endpoint);
    if rest.devices.contains_key(device) && is_in_use(rest, device) {
        Err(broken_reference())
    } else {
        Ok((StoreV { devices: rest.devices.remove(device), ..rest }, ()))
    }
}

impl ConfigStore {
    /// Adds a device with its endpoint, secrets that have been sealed and tasks, at a time: all of
    /// it or nothing. The new revision is the first.
    pub fn bootstrap_device_tx_at(
        &mut self,
        device: &DeviceRecord,
        endpoint: &EndpointRecord,
        secrets_enc: &Vec<SealedSecret>,
        tasks: &[AcquisitionTask],
        now: i64,
    ) -> (r: Result<u64, StoreError>)
        requires
            store_ok(old(self)@),
        ensures
            match r {
                Ok(n) => n == 1 && bootstrap_refused(
                    old(self)@,
                    device@,
                    endpoint@,
                    tasks_view(tasks@),
                ) is None && final(self)@ == bootstrapped(
                    old(self)@,
                    device@,
                    endpoint@,
                    sealed_view(secrets_enc@),
                    tasks_view(tasks@),
                    now,
                ),
                Err(f) => bootstrap_refused(
                    old(self)@,
                    device@,
                    endpoint@,
                    tasks_view(tasks@),
                ) == Some(f@) && final(self)@ == old(self)@,
            },
            store_ok(final(self)@),
    {
        match validate_id(device.id.as_str()) {
            Ok(()) => {},
            Err(f) => {
                return Err(f);
            },
        }
        match validate_device_name(device.name.as_str()) {
            Ok(()) => {},
            Err(f) => {
                return Err(f);
            },
        }
        match validate_endpoint(endpoint) {
            Ok(()) => {},
            Err(f) => {
                return Err(f);
            },
        }
        match validate_tasks(tasks) {
            Ok(()) => {},
            Err(f) => {
                return Err(f);
            },
        }
        if self.devices.has(device.id.as_str()) {
            return Err(
                StoreError::Duplicate(cat3("device `", device.id.as_str(), "` 已存在")),
            );
        }
        if self.endpoints.has(endpoint.id.as_str()) || (!same_text(
            endpoint.device_id.as_str(),
            device.id.as_str(),
        ) && !self.devices.has(endpoint.device_id.as_str())) {
            return Err(
                StoreError::Duplicate(cat3("endpoint `", endpoint.id.as_str(), "` 已存在")),
            );
        }
        let ghost before = self@;
        self.devices.set(device.id.clone(), device.name.clone());
        self.endpoints.set(endpoint.id.clone(), endpoint.copy());
        self.put_secrets(endpoint.id.as_str(), secrets_enc, now);
        self.tasks.set(endpoint.id.clone(), rows_of_tasks(tasks));
        self.revisions.set(endpoint.id.clone(), 1);
        assert(self@ =~= bootstrapped(
            before,
            device@,
            endpoint@,
            sealed_view(secrets_enc@),
            tasks_view(tasks@),
            now,
        ));
        Ok(1)
    }

    /// Adds a device with its endpoint, secrets that have been sealed and tasks: all of it or
    /// nothing.
    pub fn bootstrap_device_tx(
        &mut self,
        device: &DeviceRecord,
        endpoint: &EndpointRecord,
        secrets_enc: &Vec<SealedSecret>,
        tasks: &[AcquisitionTask],
    ) -> (r: Result<u64, StoreError>)
        requires
            store_ok(old(self)@),
        ensures
            match r {
                Ok(n) => n == 1 && bootstrap_refused(
                    old(self)@,
                    device@,
                    endpoint@,
                    tasks_view(tasks@),
                ) is None && exists|now: i64|
                    final(self)@ == #[trigger] bootstrapped(
                        old(self)@,
                        device@,
                        endpoint@,
                        sealed_view(secrets_enc@),
                        tasks_view(tasks@),
                        now,
                    ),
                Err(f) => bootstrap_refused(
                    old(self)@,
                    device@,
                    endpoint@,
                    tasks_view(tasks@),
                ) == Some(f@) && final(self)@ == old(self)@,
            },
            store_ok(final(self)@),
    {
        let now: i64 = now_unix_ns();
        self.bootstrap_device_tx_at(device, endpoint, secrets_enc, tasks, now)
    }

    /// Adds a device with its endpoint, its secrets and its tasks, each secret sealed under what was
    /// drawn for it: all of it or nothing.
    pub fn bootstrap_device_tx_drawn(
        &mut self,
        device: &DeviceRecord,
        endpoint: &EndpointRecord,
        secrets_plain: &[(String, String)],
        tasks: &[AcquisitionTask],
        drawn: &Vec<Result<Vec<u8>, String>>,
        now: i64,
    ) -> (r: Result<u64, StoreError>)
        requires
            store_ok(old(self)@),
            draws_for(drawn@, secrets_plain@.len()),
        ensures
            went(
                r,
                bootstrapped_drawn(
                    old(self)@,
                    (device@, endpoint@),
                    pairs_view(secrets_plain@),
                    tasks_view(tasks@),
                    drawn@,
                    now,
                ),
                old(self)@,
                final(self)@,
            ),
            r is Ok ==> all_sealed(
                sealing_all(
                    pairs_view(secrets_plain@),
                    old(self)@.master_key,
                    drawn@,
                    secrets_plain@.len() as int,
                )->Ok_0,
                pairs_view(secrets_plain@),
                old(self)@.master_key,
            ),
            store_ok(final(self)@),
    {
        assert(pairs_view(secrets_plain@).len() == secrets_plain@.len());
        match seal_all_drawn(secrets_plain, &self.master_key, drawn) {
            Ok(xs) => self.bootstrap_device_tx_at(device, endpoint, &xs, tasks, now),
            Err(f) => Err(f),
        }
    }

    /// Adds a device with its endpoint, its secrets and its tasks: all of it or nothing.
    pub fn bootstrap_device_tx_with_plaintext(
        &mut self,
        device: &DeviceRecord,
        endpoint: &EndpointRecord,
        secrets_plain: &[(String, String)],
        tasks: &[AcquisitionTask],
    ) -> (r: Result<u64, StoreError>)
        requires
            store_ok(old(self)@),
        ensures
            exists|drawn: Seq<Result<Vec<u8>, String>>, now: i64|
                went(
                    r,
                    #[trigger] bootstrapped_drawn(
                        old(self)@,
                        (device@, endpoint@),
                        pairs_view(secrets_plain@),
                        tasks_view(tasks@),
                        drawn,
                        now,
                    ),
                    old(self)@,
                    final(self)@,
                ),
            match r {
                Ok(n) => n == 1 && bootstrap_refused(
                    old(self)@,
                    device@,
                    endpoint@,
                    tasks_view(tasks@),
                ) is None && exists|xs: Seq<SealedV>, now: i64|
                    all_sealed(xs, pairs_view(secrets_plain@), old(self)@.master_key) && final(
                        self
                    )@ == #[trigger] bootstrapped(
                        old(self)@,
                        device@,
                        endpoint@,
                        xs,
                        tasks_view(tasks@),
                        now,
                    ),
                Err(f) => final(self)@ == old(self)@ && (bootstrap_refused(
                    old(self)@,
                    device@,
                    endpoint@,
                    tasks_view(tasks@),
                ) == Some(f@) || exists|drawn: Seq<Result<Vec<u8>, String>>| #[trigger]
                    unsealed(pairs_view(secrets_plain@), old(self)@.master_key, drawn) == Some(
                        f@,
                    )),
            },
            store_ok(final(self)@),
    {
        let drawn: Vec<Result<Vec<u8>, String>> = draw_nonces(secrets_plain.len());
        let now: i64 = now_unix_ns();
        let r: Result<u64, StoreError> = self.bootstrap_device_tx_drawn(
            device,
            endpoint,
            secrets_plain,
            tasks,
            &drawn,
            now,
        );
        proof {
            let pairs = pairs_view(secrets_plain@);
            let key = old(self)@.master_key;
            let ts = tasks_view(tasks@);
            let owed = bootstrapped_drawn(
                old(self)@,
                (device@, endpoint@),
                pairs,
                ts,
                drawn@,
                now,
            );
            assert(went(r, owed, old(self)@, self@));
            if r is Ok {
                let xs = sealing_all(pairs, key, drawn@, pairs.len() as int)->Ok_0;
                assert(self@ == bootstrapped(old(self)@, device@, endpoint@, xs, ts, now));
            } else if bootstrap_refused(old(self)@, device@, endpoint@, ts) != Some(r->Err_0@) {
                assert(unsealed(pairs, key, drawn@) == Some(r->Err_0@));
            }
        }
        r
    }

    /// Takes out an endpoint and then its device, as far as they are there. An endpoint that was
    /// taken out stays out also where the device cannot go.
    pub fn bootstrap_compensate(&mut self, device_id: &str, endpoint_id: &str) -> (r: Result<
        (),
        StoreError,
    >)
        requires
            store_ok(old(self)@),
        ensures
            match r {
                Ok(()) => compensated(old(self)@, device_id@, endpoint_id@) == Ok::<
                    (StoreV, ()),
                    StoreFault,
                >((final(self)@, ())),
                Err(f) => compensated(old(self)@, device_id@, endpoint_id@) == Err::<
                    (StoreV, ()),
                    StoreFault,
                >(f@) && final(self)@ == endpoint_deleted(old(self)@, endpoint_id@),
            },
            store_ok(final(self)@),
    {
        let _ = self.delete_endpoint(endpoint_id);
        if self.devices.has(device_id) && self.device_in_use(device_id) {
            return Err(StoreError::Sqlite("FOREIGN KEY constraint failed".to_owned()));
        }
        let ghost rest = self@;
        let _ = self.devices.remove(device_id);
        assert(self@ =~= (StoreV { devices: rest.devices.remove(device_id@), ..rest }));
        Ok(())
    }
}

/// What was added at once is gone after it has been taken out again, and the rest is as it was.
pub proof fn compensation_undoes_bootstrap(
    s: StoreV,
    d: DeviceV,
    e: EndpointV,
    xs: Seq<SealedV>,
    ts: Seq<TaskV>,
    now: i64,
)
    requires
        store_ok(s),
        bootstrap_refused(s, d, e, ts) is None,
        e.device_id == d.id,
    ensures
        compensated(bootstrapped(s, d, e, xs, ts, now), d.id, e.id) == Ok::<
            (StoreV, ()),
            StoreFault,
        >((s, ())),
{
    let b = bootstrapped(s, d, e, xs, ts, now);
    let rest = endpoint_deleted(b, e.id);
    assert(!s.endpoints.contains_key(e.id));
    assert(!s.devices.contains_key(d.id));
    assert(!is_in_use(rest, d.id)) by {
        if is_in_use(rest, d.id) {
            let k = choose|k: Seq<char>| #[trigger]
                rest.endpoints.contains_key(k) && rest.endpoints[k].device_id == d.id;
            assert(s.endpoints.contains_key(k));
        }
    }
    let after = StoreV { devices: rest.devices.remove(d.id), ..rest };
    assert(after.devices =~= s.devices);
    assert(after.endpoints =~= s.endpoints);
    assert(!s.tasks.contains_key(e.id));
    assert(after.tasks =~= s.tasks);
    assert(!s.event_tasks.contains_key(e.id));
    assert(after.event_tasks =~= s.event_tasks);
    assert(!s.revisions.contains_key(e.id));
    assert(after.revisions =~= s.revisions);
    assert(!s.secrets.contains_key(e.id));
    assert(after.secrets =~= s.secrets);
    assert(after =~= s);
}

/// Taking out what is not there changes nothing.
pub proof fn compensation_can_be_repeated(s: StoreV, device: Seq<char>, endpoint: Seq<char>)
    requires
        store_ok(s),
        compensated(s, device, endpoint) is Ok,
    ensures
        compensated(compensated(s, device, endpoint)->Ok_0.0, device, endpoint) == compensated(
            s,
            device,
            endpoint,
        ),
{
    let once = compensated(s, device, endpoint)->Ok_0.0;
    let rest = endpoint_deleted(once, endpoint);
    assert(rest.endpoints =~= once.endpoints);
    assert(rest.tasks =~= once.tasks);
    assert(rest.event_tasks =~= once.event_tasks);
    assert(rest.revisions =~= once.revisions);
    assert(rest.secrets =~= once.secrets);
    assert(rest.devices.remove(device) =~= once.devices);
    assert((StoreV { devices: rest.devices.remove(device), ..rest }) =~= once);
}

/// A new endpoint can be taken out again, and its device with it, and nothing is left of either.
pub proof fn new_endpoint_can_be_deleted(s: StoreV, e: EndpointV, xs: Seq<SealedV>, now: i64)
    requires
        store_ok(s),
        endpoint_refused(s, e) is None,
    ensures
        endpoint_deleted(endpoint_added(s, e, xs, now), e.id) == s,
{
    let b = endpoint_added(s, e, xs, now);
    let after = endpoint_deleted(b, e.id);
    assert(!s.endpoints.contains_key(e.id));
    assert(after.endpoints =~= s.endpoints);
    assert(!s.tasks.contains_key(e.id));
    assert(after.tasks =~= s.tasks);
    assert(!s.event_tasks.contains_key(e.id));
    assert(after.event_tasks =~= s.event_tasks);
    assert(!s.revisions.contains_key(e.id));
    assert(after.revisions =~= s.revisions);
    assert(!s.secrets.contains_key(e.id));
    assert(after.secrets =~= s.secrets);
    assert(after =~= s);
}

// ---------------------------------------------------------------------------
// Results that must not be got twice
// ---------------------------------------------------------------------------

/// The keys whose results belong to a device.
pub open spec fn results_of_device(s: StoreV, device: Seq<char>) -> Set<Seq<char>> {
    s.idempotency.dom().filter(|k: Seq<char>| s.idempotency[k].device_id == device)
}

impl ConfigStore {
    /// The hash of the request under a key, and what came of it.
    pub fn bootstrap_idempotency_get(&self, key: &str) -> (r: Option<(String, String)>)
        ensures
            match r {
                Some(x) => self@.idempotency.contains_key(key@) && x.0@
                    == self@.idempotency[key@].request_hash && x.1@
                    == self@.idempotency[key@].result_json,
                None => !self@.idempotency.contains_key(key@),
            },
    {
        match self.idempotency.get(key) {
            Some(row) => Some((row.request_hash.clone(), row.result_json.clone())),
            None => None,
        }
    }

    /// Keeps what came of a request under its key, in place of what stands there.
    pub fn bootstrap_idempotency_put(
        &mut self,
        key: &str,
        request_hash: &str,
        device_id: &str,
        endpoint_id: &str,
        result_json: &str,
    )
        requires
            store_ok(old(self)@),
        ensures
            exists|now: i64|
                final(self)@ == (StoreV {
                    idempotency: old(self)@.idempotency.insert(
                        key@,
                        #[trigger] result_row(
                            request_hash@,
                            device_id@,
                            endpoint_id@,
                            result_json@,
                            now,
                        ),
                    ),
                    ..old(self)@
                }),
            store_ok(final(self)@),
    {
        let now: i64 = now_unix_ns();
        let row: IdempotencyRow = IdempotencyRow {
            request_hash: request_hash.to_owned(),
            device_id: device_id.to_owned(),
            endpoint_id: endpoint_id.to_owned(),
            result_json: result_json.to_owned(),
            created_at_ns: now,
        };
        assert(row@ == result_row(request_hash@, device_id@, endpoint_id@, result_json@, now));
        self.idempotency.set(key.to_owned(), row);
    }

    /// Forgets the results that belong to a device, and says how many there were.
    pub fn bootstrap_idempotency_delete_by_device(&mut self, device_id: &str) -> (r: u64)
        requires
            store_ok(old(self)@),
        ensures
            r == results_of_device(old(self)@, device_id@).len(),
            final(self)@ == (StoreV {
                idempotency: old(self)@.idempotency.remove_keys(
                    results_of_device(old(self)@, device_id@),
                ),
                ..old(self)@
            }),
            store_ok(final(self)@),
    {
        let ghost before = self@;
        let ghost doomed = results_of_device(before, device_id@);
        let n: usize = self.idempotency.len();
        let ghost keys = self.idempotency.keys();
        let mut found: Vec<String> = Vec::new();
        let mut i: usize = 0;
        while i < n
            invariant
                i <= n,
                n == keys.len(),
                keys == self.idempotency.keys(),
                keys.to_set() == before.idempotency.dom(),
                ascending(keys),
                self@ == before,
                doomed == results_of_device(before, device_id@),
                texts_view(found@).no_duplicates(),
                forall|j: int|
                    0 <= j < found@.len() ==> doomed.contains((#[trigger] found@[j])@) && exists|
                        m: int,
                    |
                        0 <= m < i && keys[m] == found@[j]@,
                forall|m: int|
                    0 <= m < i && doomed.contains(#[trigger] keys[m]) ==> texts_view(
                        found@,
                    ).contains(keys[m]),
            decreases n - i,
        {
            let row: &IdempotencyRow = self.idempotency.at(i);
            if same_text(row.device_id.as_str(), device_id) {
                let key: String = self.idempotency.key_at(i).clone();
                let ghost was = texts_view(found@);
                let ghost old_found = found@;
                found.push(key);
                proof {
                    assert(doomed.contains(keys[i as int]));
                    assert(texts_view(found@) =~= was.push(keys[i as int]));
                    assert(!was.contains(keys[i as int])) by {
                        if was.contains(keys[i as int]) {
                            let j = choose|j: int|
                                0 <= j < was.len() && was[j] == keys[i as int];
                            assert(old_found[j]@ == was[j]);
                            let m = choose|m: int| 0 <= m < i && keys[m] == old_found[j]@;
                            crate::text::lemma_text_before_irreflexive(keys[m]);
                            assert(crate::text::text_before(keys[m], keys[i as int]));
                        }
                    }
                    assert forall|j: int| 0 <= j < found@.len() implies doomed.contains(
                        (#[trigger] found@[j])@,
                    ) && exists|m: int| 0 <= m < i + 1 && keys[m] == found@[j]@ by {
                        if j < old_found.len() {
                            assert(found@[j] == old_found[j]);
                            let m = choose|m: int| 0 <= m < i && keys[m] == old_found[j]@;
                            assert(keys[m] == found@[j]@);
                        } else {
                            assert(keys[i as int] == found@[j]@);
                        }
                    }
                    assert forall|m: int|
                        0 <= m < i + 1 && doomed.contains(#[trigger] keys[m]) implies texts_view(
                        found@,
                    ).contains(keys[m]) by {
                        if m < i {
                            let j = choose|j: int| 0 <= j < was.len() && was[j] == keys[m];
                            assert(texts_view(found@)[j] == keys[m]);
                        } else {
                            assert(texts_view(found@)[old_found.len() as int] == keys[m]);
                        }
                    }
                }
            } else {
                assert(!doomed.contains(keys[i as int]));
            }
            i = i + 1;
        }
        let ghost list = texts_view(found@);
        proof {
            assert(list.to_set() =~= doomed) by {
                assert forall|k: Seq<char>| list.to_set().contains(k) == doomed.contains(k) by {
                    if list.contains(k) {
                        let j = choose|j: int| 0 <= j < list.len() && list[j] == k;
                        assert(found@[j]@ == k);
                    }
                    if doomed.contains(k) {
                        assert(before.idempotency.contains_key(k));
                        assert(keys.to_set().contains(k));
                        let m = choose|m: int| 0 <= m < keys.len() && keys[m] == k;
                        assert(doomed.contains(keys[m]));
                    }
                }
            }
            list.unique_seq_to_set();
        }
        let mut k: usize = 0;
        while k < found.len()
            invariant
                k <= found.len(),
                list == texts_view(found@),
                self@ == (StoreV { idempotency: self@.idempotency, ..before }),
                self@.idempotency == before.idempotency.remove_keys(
                    list.subrange(0, k as int).to_set(),
                ),
            decreases found.len() - k,
        {
            let ghost was = self@.idempotency;
            let _ = self.idempotency.remove(found[k].as_str());
            proof {
                let a = list.subrange(0, k as int);
                let b = list.subrange(0, k + 1);
                assert(b =~= a.push(list[k as int]));
                assert forall|x: Seq<char>|
                    b.to_set().contains(x) == (a.to_set().contains(x) || x == list[k as int]) by {
                    if a.contains(x) {
                        let j = choose|j: int| 0 <= j < a.len() && a[j] == x;
                        assert(b[j] == x);
                    }
                    if x == list[k as int] {
                        assert(b[k as int] == x);
                    }
                    if b.contains(x) && x != list[k as int] {
                        let j = choose|j: int| 0 <= j < b.len() && b[j] == x;
                        assert(a[j] == x);
                    }
                }
                assert(self@.idempotency =~= before.idempotency.remove_keys(b.to_set()));
                assert(self@ =~= (StoreV { idempotency: self@.idempotency, ..before }));
            }
            k = k + 1;
        }
        assert(list.subrange(0, list.len() as int) =~= list);
        found.len() as u64
    }
}

/// What came of a request, as it is kept.
pub open spec fn result_row(
    request_hash: Seq<char>,
    device_id: Seq<char>,
    endpoint_id: Seq<char>,
    result_json: Seq<char>,
    now: i64,
) -> IdempotencyV {
    IdempotencyV { request_hash, device_id, endpoint_id, result_json, created_at_ns: now }
}

// ---------------------------------------------------------------------------
// Points
// ---------------------------------------------------------------------------

/// The points of an endpoint by key.
pub open spec fn registry_of(s: StoreV, endpoint: Seq<char>) -> Registry {
    rows_for(s.points, endpoint)
}

/// Why points cannot be registered.
pub open spec fn points_refused(s: StoreV, endpoint: Seq<char>, keys: Seq<Seq<char>>) -> Option<
    StoreFault,
> {
    match first_repeat(keys) {
        Some(p) => Some(StoreFault::Validation("duplicate point_key: `"@ + keys[p] + "`"@)),
        None => if s.endpoints.contains_key(endpoint) {
            None
        } else {
            Some(no_endpoint(endpoint))
        },
    }
}

/// The points that are configured, by key.
pub open spec fn active_points(reg: Registry) -> Map<Seq<char>, u32> {
    Map::new(|k: Seq<char>| reg.contains_key(k) && !reg[k].deleted, |k: Seq<char>| reg[k].point_id)
}

/// Whether a listed row is what the registry has under its key.
pub open spec fn lists_point(r: RegistryRow, reg: Registry) -> bool {
    &&& reg.contains_key(r.0@)
    &&& r.1 == reg[r.0@].point_id
    &&& r.2@ == reg[r.0@].data_type
    &&& r.3 == reg[r.0@].deleted
    &&& maybe_text(r.4) == reg[r.0@].source_label
}

impl ConfigStore {
    /// Registers the points of an endpoint, in place of those that it had: a key that was known
    /// keeps its id, a new one gets one that was never given, and a key that is not among them is
    /// no longer configured.
    pub fn assign_point_ids(&mut self, endpoint_id: &str, descriptors: &[PointDescriptor]) -> (r:
        Result<Vec<PointDefinition>, StoreError>)
        requires
            store_ok(old(self)@),
            has_room(
                registry_of(old(self)@, endpoint_id@),
                descriptor_keys(descriptors_view(descriptors@)),
            ),
        ensures
            match r {
                Ok(defs) => {
                    &&& points_refused(
                        old(self)@,
                        endpoint_id@,
                        descriptor_keys(descriptors_view(descriptors@)),
                    ) is None
                    &&& final(self)@ == (StoreV {
                        points: old(self)@.points.insert(
                            endpoint_id@,
                            assigned(
                                registry_of(old(self)@, endpoint_id@),
                                descriptors_view(descriptors@),
                            ),
                        ),
                        ..old(self)@
                    })
                    &&& defs@.len() == descriptors@.len()
                    &&& forall|i: int|
                        0 <= i < defs@.len() ==> defines(
                            #[trigger] defs@[i],
                            descriptors@[i]@,
                            assigned_id(
                                registry_of(old(self)@, endpoint_id@),
                                descriptor_keys(descriptors_view(descriptors@)),
                                i,
                            ),
                        )
                },
                Err(f) => points_refused(
                    old(self)@,
                    endpoint_id@,
                    descriptor_keys(descriptors_view(descriptors@)),
                ) == Some(f@) && final(self)@ == old(self)@,
            },
            store_ok(final(self)@),
    {
        let ghost ds = descriptors_view(descriptors@);
        let ghost keys = descriptor_keys(ds);
        let ghost reg = registry_of(self@, endpoint_id@);
        assert(point_keys(descriptors@) =~= keys);
        match ensure_unique_point_keys(descriptors) {
            Ok(()) => {},
            Err(e) => {
                return Err(StoreError::Validation(e.message()));
            },
        }
        proof {
            first_repeat_is_first(keys);
        }
        if !self.endpoints.has(endpoint_id) {
            return Err(StoreError::NotFound(cat3("endpoint `", endpoint_id, "` 不存在")));
        }
        let ghost before = self@;
        let mut rows: Table<PointRow> = rows_of(&mut self.points, endpoint_id);
        assert(rows@ == reg);
        let _ = rows.len();
        let out: Vec<PointDefinition> = register(&mut rows, descriptors);
        let _ = rows.len();
        let ghost v = rows@;
        self.points.set(endpoint_id.to_owned(), rows);
        proof {
            assert(self@.points =~= before.points.insert(endpoint_id@, v));
            assert(self@ =~= (StoreV {
                points: before.points.insert(endpoint_id@, assigned(reg, ds)),
                ..before
            }));
            assert(ids_are_distinct(reg));
            ids_stay_distinct(reg, ds);
        }
        Ok(out)
    }

    /// Whether the ids of an endpoint suffice for some keys.
    pub fn has_room_for(&self, endpoint_id: &str, keys: &Vec<String>) -> (r: bool)
        ensures
            r == has_room(registry_of(self@, endpoint_id@), texts_view(keys@)),
    {
        let none: Table<PointRow> = Table::new();
        let rows: &Table<PointRow> = match self.points.get(endpoint_id) {
            Some(t) => t,
            None => &none,
        };
        assert(rows@ == registry_of(self@, endpoint_id@));
        room_for(rows, keys)
    }

    /// The points of an endpoint that are configured: their ids by key.
    pub fn point_map(&self, endpoint_id: &str) -> (r: Table<u32>)
        ensures
            r@ == active_points(registry_of(self@, endpoint_id@)),
    {
        let none: Table<PointRow> = Table::new();
        let rows: &Table<PointRow> = match self.points.get(endpoint_id) {
            Some(t) => t,
            None => &none,
        };
        let ghost reg = rows@;
        assert(reg == registry_of(self@, endpoint_id@));
        let n: usize = rows.len();
        let ghost keys = rows.keys();
        let mut out: Table<u32> = Table::new();
        let mut i: usize = 0;
        while i < n
            invariant
                i <= n,
                n == keys.len(),
                keys == rows.keys(),
                reg == rows@,
                keys.to_set() == reg.dom(),
                forall|k: Seq<char>|
                    #![trigger out@.contains_key(k)]
                    out@.contains_key(k) <==> exists|j: int|
                        0 <= j < i && #[trigger] keys[j] == k && !reg[k].deleted,
                forall|k: Seq<char>| #[trigger]
                    out@.contains_key(k) ==> out@[k] == reg[k].point_id,
            decreases n - i,
        {
            let row: &PointRow = rows.at(i);
            let ghost was = out@;
            if !row.deleted {
                out.set(rows.key_at(i).clone(), row.point_id);
            }
            proof {
                assert forall|k: Seq<char>|
                    #![trigger out@.contains_key(k)]
                    out@.contains_key(k) <==> exists|j: int|
                        0 <= j < i + 1 && #[trigger] keys[j] == k && !reg[k].deleted by {
                    if out@.contains_key(k) {
                        if was.contains_key(k) {
                            let j = choose|j: int|
                                0 <= j < i && #[trigger] keys[j] == k && !reg[k].deleted;
                            assert(keys[j] == k);
                        } else {
                            assert(keys[i as int] == k);
                        }
                    }
                    if exists|j: int|
                        0 <= j < i + 1 && #[trigger] keys[j] == k && !reg[k].deleted {
                        let j = choose|j: int|
                            0 <= j < i + 1 && #[trigger] keys[j] == k && !reg[k].deleted;
                        if j < i {
                            assert(was.contains_key(k));
                        }
                    }
                }
            }
            i = i + 1;
        }
        proof {
            let want = active_points(reg);
            assert forall|k: Seq<char>| out@.contains_key(k) == want.contains_key(k) by {
                if reg.contains_key(k) {
                    assert(keys.to_set().contains(k));
                    let j = choose|j: int| 0 <= j < keys.len() && keys[j] == k;
                    assert(keys[j] == k);
                }
                if out@.contains_key(k) {
                    let j = choose|j: int|
                        0 <= j < n && #[trigger] keys[j] == k && !reg[k].deleted;
                    assert(keys.to_set().contains(keys[j]));
                }
            }
            assert(out@ =~= want);
        }
        out
    }

    /// All points of an endpoint that were ever configured, in the order of their ids.
    pub fn point_registry_all(&self, endpoint_id: &str) -> (r: Vec<RegistryRow>)
        requires
            store_ok(self@),
        ensures
            ids_ascend(r@),
            forall|i: int|
                0 <= i < r@.len() ==> lists_point(
                    #[trigger] r@[i],
                    registry_of(self@, endpoint_id@),
                ),
            listed_keys(r@).to_set() == registry_of(self@, endpoint_id@).dom(),
    {
        let none: Table<PointRow> = Table::new();
        let rows: &Table<PointRow> = match self.points.get(endpoint_id) {
            Some(t) => t,
            None => &none,
        };
        let ghost reg = rows@;
        assert(reg == registry_of(self@, endpoint_id@));
        assert(ids_are_distinct(reg));
        let n: usize = rows.len();
        let ghost keys = rows.keys();
        let mut out: Vec<RegistryRow> = Vec::new();
        assert(listed_keys(out@).to_set() =~= keys.subrange(0, 0).to_set());
        let mut i: usize = 0;
        while i < n
            invariant
                i <= n,
                n == keys.len(),
                keys == rows.keys(),
                reg == rows@,
                ids_are_distinct(reg),
                ascending(keys),
                ids_ascend(out@),
                forall|a: int| 0 <= a < out@.len() ==> lists_point(#[trigger] out@[a], reg),
                listed_keys(out@).to_set() == keys.subrange(0, i as int).to_set(),
            decreases n - i,
        {
            let row: &PointRow = rows.at(i);
            let label: Option<String> = match &row.source_label {
                Some(s) => Some(s.clone()),
                None => None,
            };
            let one: RegistryRow = (
                rows.key_at(i).clone(),
                row.point_id,
                row.data_type.clone(),
                row.deleted,
                label,
            );
            let ghost was = out@;
            let ghost part = keys.subrange(0, i as int);
            proof {
                assert forall|a: int| 0 <= a < was.len() implies (#[trigger] was[a]).1
                    != one.1 by {
                    assert(listed_keys(was)[a] == was[a].0@);
                    assert(listed_keys(was).to_set().contains(was[a].0@));
                    assert(part.contains(was[a].0@));
                    let m = choose|m: int| 0 <= m < part.len() && part[m] == was[a].0@;
                    crate::text::lemma_text_before_irreflexive(keys[m]);
                    assert(crate::text::text_before(keys[m], keys[i as int]));
                    assert(reg.contains_key(was[a].0@) && reg.contains_key(one.0@));
                }
            }
            let p: usize = put_by_id(&mut out, one);
            proof {
                assert forall|a: int| 0 <= a < out@.len() implies lists_point(
                    #[trigger] out@[a],
                    reg,
                ) by {
                    if a < p {
                        assert(out@[a] == was[a]);
                    } else if a > p {
                        assert(out@[a] == was[a - 1]);
                    }
                }
                assert(listed_keys(out@) =~= listed_keys(was).insert(p as int, one.0@));
                lemma_insert_set(listed_keys(was), p as int, one.0@);
                assert(keys.subrange(0, i + 1) =~= part.insert(i as int, keys[i as int]));
                lemma_insert_set(part, i as int, keys[i as int]);
            }
            i = i + 1;
        }
        assert(keys.subrange(0, keys.len() as int) =~= keys);
        out
    }
}

/// Whether some listed points stand in the order of their ids.
pub open spec fn ids_ascend(rows: Seq<RegistryRow>) -> bool {
    forall|i: int, j: int|
        0 <= i < j < rows.len() ==> (#[trigger] rows[i]).1 < (#[trigger] rows[j]).1
}

/// The keys of some listed points.
pub open spec fn listed_keys(rows: Seq<RegistryRow>) -> Seq<Seq<char>> {
    rows.map_values(|r: RegistryRow| r.0@)
}

proof fn lemma_insert_set(s: Seq<Seq<char>>, p: int, x: Seq<char>)
    requires
        0 <= p <= s.len(),
    ensures
        s.insert(p, x).to_set() == s.to_set().insert(x),
{
    let after = s.insert(p, x);
    assert(after[p] == x);
    assert forall|k: Seq<char>|
        after.to_set().contains(k) == s.to_set().insert(x).contains(k) by {
        if s.contains(k) {
            let i = choose|i: int| 0 <= i < s.len() && s[i] == k;
            assert(after[if i < p {
                i
            } else {
                i + 1
            }] == k);
        }
        if after.contains(k) && k != x {
            let i = choose|i: int| 0 <= i < after.len() && after[i] == k;
            assert(s[if i < p {
                i
            } else {
                i - 1
            }] == k);
        }
    }
    assert(after.to_set() =~= s.to_set().insert(x));
}

fn put_by_id(list: &mut Vec<RegistryRow>, one: RegistryRow) -> (p: usize)
    requires
        ids_ascend(old(list)@),
        forall|a: int| 0 <= a < old(list)@.len() ==> (#[trigger] old(list)@[a]).1 != one.1,
    ensures
        ids_ascend(final(list)@),
        p <= old(list)@.len(),
        final(list)@ == old(list)@.insert(p as int, one),
{
    let mut p: usize = list.len();
    while p > 0 && list[p - 1].1 > one.1
        invariant
            p <= list@.len(),
            list@ == old(list)@,
            ids_ascend(list@),
            forall|a: int| p <= a < list@.len() ==> (#[trigger] list@[a]).1 > one.1,
        decreases p,
    {
        p = p - 1;
    }
    let ghost was = list@;
    proof {
        assert forall|a: int| 0 <= a < p implies (#[trigger] was[a]).1 < one.1 by {
            if a < p - 1 {
                assert(was[a].1 < was[p - 1].1);
            }
        }
    }
    list.insert(p, one);
    proof {
        let after = list@;
        assert forall|i: int, j: int| 0 <= i < j < after.len() implies (#[trigger] after[i]).1 < (
        #[trigger] after[j]).1 by {
            let a = if i < p {
                i
            } else {
                i - 1
            };
            let b = if j < p {
                j
            } else {
                j - 1
            };
            if i == p {
                assert(after[j] == was[b]);
            } else if j == p {
                assert(after[i] == was[a]);
            } else {
                assert(after[i] == was[a] && after[j] == was[b]);
            }
        }
    }
    p
}

// ---------------------------------------------------------------------------
// Secrets
// ---------------------------------------------------------------------------

/// The store with a sealed secret of an endpoint.
pub open spec fn secret_kept(
    s: StoreV,
    endpoint: Seq<char>,
    x: SealedV,
    key_id: Seq<char>,
    now: i64,
) -> StoreV {
    StoreV {
        secrets: s.secrets.insert(
            endpoint,
            rows_for(s.secrets, endpoint).insert(x.field, sealed_row(x, key_id, now)),
        ),
        ..s
    }
}

/// The store without a secret of an endpoint.
pub open spec fn secret_dropped(s: StoreV, endpoint: Seq<char>, field: Seq<char>) -> StoreV {
    if s.secrets.contains_key(endpoint) {
        StoreV {
            secrets: s.secrets.insert(endpoint, s.secrets[endpoint].remove(field)),
            ..s
        }
    } else {
        s
    }
}

/// The secret of an endpoint under a field, if there is one.
pub open spec fn secret_read(s: StoreV, endpoint: Seq<char>, field: Seq<char>) -> Result<
    Option<Seq<char>>,
    StoreFault,
> {
    let rows = rows_for(s.secrets, endpoint);
    if !rows.contains_key(field) {
        Ok(None)
    } else {
        let row = rows[field];
        match revealed(row.ciphertext, row.nonce, row.algorithm, row.key_id, s.master_key) {
            Ok(t) => Ok(Some(t)),
            Err(e) => Err(StoreFault::Validation(e)),
        }
    }
}

/// What keeping a secret, a field and its text, gives for each outcome of drawing a nonce.
pub open spec fn secret_put(
    s: StoreV,
    endpoint: Seq<char>,
    secret: (Seq<char>, Seq<char>),
    key_id: Seq<char>,
    drawn: Result<Seq<u8>, Seq<char>>,
    now: i64,
) -> Result<StoreV, StoreFault> {
    match sealing(secret.1, s.master_key, drawn) {
        Err(m) => Err(StoreFault::Validation(m)),
        Ok(x) => if s.endpoints.contains_key(endpoint) {
            Ok(
                secret_kept(
                    s,
                    endpoint,
                    SealedV { field: secret.0, ciphertext: x.0, nonce: x.1 },
                    key_id,
                    now,
                ),
            )
        } else {
            Err(broken_reference())
        },
    }
}

/// A secret reads back as it was given, whatever the nonce, the key's name and the time.
pub proof fn secret_reads_back(
    s: StoreV,
    endpoint: Seq<char>,
    x: SealedV,
    text: Seq<char>,
    key_id: Seq<char>,
    now: i64,
)
    requires
        is_sealed(s.master_key, x.nonce, x.ciphertext, text),
    ensures
        secret_read(secret_kept(s, endpoint, x, key_id, now), endpoint, x.field) == Ok::<
            Option<Seq<char>>,
            StoreFault,
        >(Some(text)),
{
    crate::secrets::sealed_text_opens(s.master_key, x.nonce, x.ciphertext, text);
    reveal_strlit("xor-demo");
    reveal_strlit("xchacha20poly1305");
    assert("xor-demo"@.len() == 8 && "xchacha20poly1305"@.len() == 17);
}

/// Whether each of some texts is of another field.
pub open spec fn different_fields(texts: Seq<(Seq<char>, Seq<char>)>) -> bool {
    forall|a: int, b: int|
        0 <= a < b < texts.len() ==> (#[trigger] texts[a]).0 != (#[trigger] texts[b]).0
}

proof fn lemma_rows_put(
    rows: Map<Seq<char>, SecretRowV>,
    xs: Seq<SealedV>,
    now: i64,
    n: int,
    k: Seq<char>,
)
    requires
        0 <= n <= xs.len(),
        forall|a: int, b: int|
            0 <= a < b < xs.len() ==> (#[trigger] xs[a]).field != (#[trigger] xs[b]).field,
    ensures
        forall|a: int|
            0 <= a < n && (#[trigger] xs[a]).field == k ==> rows_put(rows, xs, now, n).contains_key(
                k,
            ) && rows_put(rows, xs, now, n)[k] == sealed_row(xs[a], "master"@, now),
        (forall|a: int| 0 <= a < n ==> (#[trigger] xs[a]).field != k) ==> rows_put(
            rows,
            xs,
            now,
            n,
        ).contains_key(k) == rows.contains_key(k) && rows_put(rows, xs, now, n)[k] == rows[k],
    decreases n,
{
    if n > 0 {
        lemma_rows_put(rows, xs, now, n - 1, k);
    }
}

proof fn lemma_rows_without(
    rows: Map<Seq<char>, SecretRowV>,
    fields: Seq<Seq<char>>,
    n: int,
    k: Seq<char>,
)
    requires
        0 <= n <= fields.len(),
        !fields.contains(k),
    ensures
        rows_without(rows, fields, n).contains_key(k) == rows.contains_key(k),
        rows_without(rows, fields, n)[k] == rows[k],
    decreases n,
{
    if n > 0 {
        lemma_rows_without(rows, fields, n - 1, k);
        assert(fields[n - 1] != k);
    }
}

/// The secrets of a new endpoint read back as they were given.
pub proof fn new_secrets_read_back(
    s: StoreV,
    e: EndpointV,
    texts: Seq<(Seq<char>, Seq<char>)>,
    xs: Seq<SealedV>,
    now: i64,
    x: (Seq<char>, Seq<char>),
)
    requires
        different_fields(texts),
        all_sealed(xs, texts, s.master_key),
        texts.contains(x),
    ensures
        secret_read(endpoint_added(s, e, xs, now), e.id, x.0) == Ok::<
            Option<Seq<char>>,
            StoreFault,
        >(Some(x.1)),
{
    let a = choose|a: int| 0 <= a < texts.len() && texts[a] == x;
    assert(xs[a].field == x.0);
    lemma_rows_put(secrets_of(s, e.id), xs, now, xs.len() as int, x.0);
    crate::secrets::sealed_text_opens(s.master_key, xs[a].nonce, xs[a].ciphertext, x.1);
    reveal_strlit("xor-demo");
    reveal_strlit("xchacha20poly1305");
    assert("xor-demo"@.len() == 8 && "xchacha20poly1305"@.len() == 17);
}

/// When an endpoint is changed, the secrets that are given read back as they were given, and those
/// that are neither given nor dropped read as before.
pub proof fn changed_secrets_read_back(
    s: StoreV,
    e: EndpointV,
    texts: Seq<(Seq<char>, Seq<char>)>,
    xs: Seq<SealedV>,
    dropped: Seq<Seq<char>>,
    now: i64,
    k: Seq<char>,
)
    requires
        different_fields(texts),
        all_sealed(xs, texts, s.master_key),
        !dropped.contains(k),
    ensures
        forall|a: int|
            0 <= a < texts.len() && (#[trigger] texts[a]).0 == k ==> secret_read(
                endpoint_changed(s, e, xs, dropped, now),
                e.id,
                k,
            ) == Ok::<Option<Seq<char>>, StoreFault>(Some(texts[a].1)),
        (forall|a: int| 0 <= a < texts.len() ==> (#[trigger] texts[a]).0 != k) ==> secret_read(
            endpoint_changed(s, e, xs, dropped, now),
            e.id,
            k,
        ) == secret_read(s, e.id, k),
{
    lemma_rows_put(secrets_of(s, e.id), xs, now, xs.len() as int, k);
    lemma_rows_without(
        rows_put(secrets_of(s, e.id), xs, now, xs.len() as int),
        dropped,
        dropped.len() as int,
        k,
    );
    reveal_strlit("xor-demo");
    reveal_strlit("xchacha20poly1305");
    assert("xor-demo"@.len() == 8 && "xchacha20poly1305"@.len() == 17);
    assert forall|a: int| 0 <= a < texts.len() && (#[trigger] texts[a]).0 == k implies secret_read(
        endpoint_changed(s, e, xs, dropped, now),
        e.id,
        k,
    ) == Ok::<Option<Seq<char>>, StoreFault>(Some(texts[a].1)) by {
        assert(xs[a].field == k);
        crate::secrets::sealed_text_opens(
            s.master_key,
            xs[a].nonce,
            xs[a].ciphertext,
            texts[a].1,
        );
    }
    if forall|a: int| 0 <= a < texts.len() ==> (#[trigger] texts[a]).0 != k {
        assert forall|a: int| 0 <= a < xs.len() implies (#[trigger] xs[a]).field != k by {
            assert(texts[a].0 != k);
        }
    }
}

impl ConfigStore {
    /// Keeps a sealed secret of an endpoint, at a time.
    pub fn put_sealed_secret(
        &mut self,
        endpoint_id: &str,
        secret: SealedSecret,
        key_id: &str,
        now: i64,
    ) -> (r: Result<(), StoreError>)
        requires
            store_ok(old(self)@),
        ensures
            match r {
                Ok(()) => old(self)@.endpoints.contains_key(endpoint_id@) && final(self)@
                    == secret_kept(old(self)@, endpoint_id@, secret@, key_id@, now),
                Err(e) => !old(self)@.endpoints.contains_key(endpoint_id@) && e@
                    == broken_reference() && final(self)@ == old(self)@,
            },
            store_ok(final(self)@),
    {
        if !self.endpoints.has(endpoint_id) {
            return Err(StoreError::Sqlite("FOREIGN KEY constraint failed".to_owned()));
        }
        let ghost before = self@;
        let mut rows: Table<SecretRow> = rows_of(&mut self.secrets, endpoint_id);
        let row: SecretRow = SecretRow {
            ciphertext: secret.ciphertext,
            nonce: secret.nonce,
            algorithm: SEAL_ALGORITHM.to_owned(),
            key_id: key_id.to_owned(),
            updated_at_ns: now,
        };
        rows.set(secret.field, row);
        let ghost v = rows@;
        self.secrets.set(endpoint_id.to_owned(), rows);
        assert(self@.secrets =~= before.secrets.insert(endpoint_id@, v));
        assert(self@ =~= secret_kept(before, endpoint_id@, secret@, key_id@, now));
        Ok(())
    }

    /// Seals a secret of an endpoint under the nonce that was drawn, if one was, and keeps it, at a
    /// time. What was kept reads back as it was given.
    pub fn put_secret_drawn(
        &mut self,
        endpoint_id: &str,
        field_path: &str,
        plaintext: &str,
        key_id: &str,
        drawn: Result<Vec<u8>, String>,
        now: i64,
    ) -> (r: Result<(), StoreError>)
        requires
            store_ok(old(self)@),
            draws_nonce(drawn),
        ensures
            match r {
                Ok(()) => {
                    &&& secret_put(
                        old(self)@,
                        endpoint_id@,
                        (field_path@, plaintext@),
                        key_id@,
                        drawn_view(drawn),
                        now,
                    ) == Ok::<StoreV, StoreFault>(final(self)@)
                    &&& sealing(plaintext@, old(self)@.master_key, drawn_view(drawn)) matches Ok(x)
                        && is_sealed(old(self)@.master_key, x.1, x.0, plaintext@)
                    &&& secret_read(final(self)@, endpoint_id@, field_path@) == Ok::<
                        Option<Seq<char>>,
                        StoreFault,
                    >(Some(plaintext@))
                },
                Err(e) => final(self)@ == old(self)@ && secret_put(
                    old(self)@,
                    endpoint_id@,
                    (field_path@, plaintext@),
                    key_id@,
                    drawn_view(drawn),
                    now,
                ) == Err::<StoreV, StoreFault>(e@),
            },
            r is Ok <==> old(self)@.endpoints.contains_key(endpoint_id@) && sealing(
                plaintext@,
                old(self)@.master_key,
                drawn_view(drawn),
            ) is Ok,
            drawn is Ok && encode_utf8(plaintext@).len() / 64 < u32::MAX && old(
                self,
            )@.endpoints.contains_key(endpoint_id@) ==> r is Ok,
            store_ok(final(self)@),
    {
        match aead_encrypt_drawn(plaintext, &self.master_key, drawn) {
            Ok(x) => {
                let (ciphertext, nonce) = x;
                let secret: SealedSecret = SealedSecret {
                    field: field_path.to_owned(),
                    ciphertext,
                    nonce,
                };
                let ghost v = secret@;
                proof {
                    secret_reads_back(old(self)@, endpoint_id@, v, plaintext@, key_id@, now);
                }
                self.put_sealed_secret(endpoint_id, secret, key_id, now)
            },
            Err(m) => Err(StoreError::Validation(m)),
        }
    }

    /// Seals a secret of an endpoint and keeps it, as [`ConfigStore::put_secret_drawn`] does under
    /// a nonce that is drawn for it.
    pub fn put_secret(
        &mut self,
        endpoint_id: &str,
        field_path: &str,
        plaintext: &str,
        key_id: &str,
    ) -> (r: Result<(), StoreError>)
        requires
            store_ok(old(self)@),
        ensures
            match r {
                Ok(()) => {
                    &&& old(self)@.endpoints.contains_key(endpoint_id@)
                    &&& exists|x: SealedV, now: i64|
                        x.field == field_path@ && is_sealed(
                            old(self)@.master_key,
                            x.nonce,
                            x.ciphertext,
                            plaintext@,
                        ) && final(self)@ == #[trigger] secret_kept(
                            old(self)@,
                            endpoint_id@,
                            x,
                            key_id@,
                            now,
                        )
                    &&& secret_read(final(self)@, endpoint_id@, field_path@) == Ok::<
                        Option<Seq<char>>,
                        StoreFault,
                    >(Some(plaintext@))
                },
                Err(e) => final(self)@ == old(self)@ && exists|drawn: Result<Seq<u8>, Seq<char>>, now: i64| #[trigger]
                    secret_put(
                        old(self)@,
                        endpoint_id@,
                        (field_path@, plaintext@),
                        key_id@,
                        drawn,
                        now,
                    ) == Err::<StoreV, StoreFault>(e@),
            },
            store_ok(final(self)@),
    {
        let drawn: Result<Vec<u8>, String> = draw_nonce();
        let now: i64 = now_unix_ns();
        let ghost x = sealing(plaintext@, self@.master_key, drawn_view(drawn))->Ok_0;
        let ghost v = SealedV { field: field_path@, ciphertext: x.0, nonce: x.1 };
        let r: Result<(), StoreError> = self.put_secret_drawn(
            endpoint_id,
            field_path,
            plaintext,
            key_id,
            drawn,
            now,
        );
        assert(r is Ok ==> self@ == secret_kept(old(self)@, endpoint_id@, v, key_id@, now));
        assert(r is Err ==> secret_put(
            old(self)@,
            endpoint_id@,
            (field_path@, plaintext@),
            key_id@,
            drawn_view(drawn),
            now,
        ) == Err::<StoreV, StoreFault>(r->Err_0@));
        r
    }

    pub fn get_secret(&self, endpoint_id: &str, field_path: &str) -> (r: Result<
        Option<String>,
        StoreError,
    >)
        requires
            store_ok(self@),
        ensures
            match r {
                Ok(t) => secret_read(self@, endpoint_id@, field_path@) == Ok::<
                    Option<Seq<char>>,
                    StoreFault,
                >(maybe_text(t)),
                Err(e) => secret_read(self@, endpoint_id@, field_path@) == Err::<
                    Option<Seq<char>>,
                    StoreFault,
                >(e@),
            },
    {
        let rows: &Table<SecretRow> = match self.secrets.get(endpoint_id) {
            Some(t) => t,
            None => {
                return Ok(None);
            },
        };
        match rows.get(field_path) {
            Some(row) => match reveal_secret(
                &row.ciphertext,
                &row.nonce,
                row.algorithm.as_str(),
                row.key_id.as_str(),
                &self.master_key,
            ) {
                Ok(t) => Ok(Some(t)),
                Err(m) => Err(StoreError::Validation(m)),
            },
            None => Ok(None),
        }
    }

    pub fn delete_secret(&mut self, endpoint_id: &str, field_path: &str) -> (r: bool)
        requires
            store_ok(old(self)@),
        ensures
            r == rows_for(old(self)@.secrets, endpoint_id@).contains_key(field_path@),
            final(self)@ == secret_dropped(old(self)@, endpoint_id@, field_path@),
            store_ok(final(self)@),
    {
        let ghost before = self@;
        match self.secrets.take(endpoint_id) {
            Some(mut rows) => {
                let r: bool = rows.remove(field_path);
                let ghost v = rows@;
                self.secrets.set(endpoint_id.to_owned(), rows);
                assert(self@.secrets =~= before.secrets.insert(endpoint_id@, v));
                assert(self@ =~= secret_dropped(before, endpoint_id@, field_path@));
                r
            },
            None => {
                assert(self@.secrets =~= before.secrets);
                assert(self@ =~= before);
                false
            },
        }
    }

    /// The fields of an endpoint that have secrets.
    pub fn list_secret_fields(&self, endpoint_id: &str) -> (r: Vec<String>)
        ensures
            texts_view(r@) == ordered_keys(rows_for(self@.secrets, endpoint_id@)),
    {
        let none: Table<SecretRow> = Table::new();
        let rows: &Table<SecretRow> = match self.secrets.get(endpoint_id) {
            Some(t) => t,
            None => &none,
        };
        assert(rows@ == rows_for(self@.secrets, endpoint_id@));
        let n: usize = rows.len();
        let ghost keys = rows.keys();
        let mut out: Vec<String> = Vec::new();
        let mut i: usize = 0;
        while i < n
            invariant
                i <= n,
                n == keys.len(),
                keys == rows.keys(),
                out@.len() == i,
                forall|j: int| 0 <= j < i ==> (#[trigger] out@[j])@ == keys[j],
            decreases n - i,
        {
            out.push(rows.key_at(i).clone());
            i = i + 1;
        }
        assert(texts_view(out@) =~= keys);
        out
    }
}

// ---------------------------------------------------------------------------
// The log of control operations
// ---------------------------------------------------------------------------

/// The log with what came of an operation.
pub open spec fn audit_finished(
    log: Seq<AuditV>,
    id: Seq<char>,
    status: Seq<char>,
    result_json: Option<Seq<char>>,
    finished_at_ns: i64,
) -> Seq<AuditV> {
    log.map_values(
        |r: AuditV|
            if is_request(r, id) {
                AuditV { status, result_json, finished_at_ns: Some(finished_at_ns), ..r }
            } else {
                r
            },
    )
}

impl ConfigStore {
    /// Adds a record to the log.
    pub fn insert_control_audit(&mut self, rec: &ControlAuditRecord) -> (r: Result<(), StoreError>)
        requires
            store_ok(old(self)@),
        ensures
            match r {
                Ok(()) => !has_request(old(self)@.audits, rec@.request_id) && final(self)@
                    == (StoreV { audits: old(self)@.audits.push(rec@), ..old(self)@ }),
                Err(e) => has_request(old(self)@.audits, rec@.request_id) && e@
                    == StoreFault::Sqlite("UNIQUE constraint failed: control_audit.request_id"@)
                    && final(self)@ == old(self)@,
            },
            store_ok(final(self)@),
    {
        if find_request(&self.audits, rec.request_id.as_str()) < self.audits.len() {
            return Err(
                StoreError::Sqlite(
                    "UNIQUE constraint failed: control_audit.request_id".to_owned(),
                ),
            );
        }
        let ghost before = self@;
        self.audits.push(rec.copy());
        proof {
            assert(self@.audits =~= before.audits.push(rec@));
            assert(self@ =~= (StoreV { audits: before.audits.push(rec@), ..before }));
            assert forall|i: int, j: int| 0 <= i < j < self@.audits.len() implies (
            #[trigger] self@.audits[i]).request_id != (#[trigger] self@.audits[j]).request_id by {
                assert(self@.audits[i] == before.audits[i]);
                if j < before.audits.len() {
                    assert(self@.audits[j] == before.audits[j]);
                } else {
                    assert(!is_request(before.audits[i], rec@.request_id));
                }
            }
        }
        Ok(())
    }

    /// Says what came of an operation.
    pub fn update_control_audit(
        &mut self,
        request_id: &str,
        status: &str,
        result_json: Option<&str>,
        finished_at_ns: i64,
    )
        requires
            store_ok(old(self)@),
        ensures
            final(self)@ == (StoreV {
                audits: audit_finished(
                    old(self)@.audits,
                    request_id@,
                    status@,
                    maybe_str(result_json),
                    finished_at_ns,
                ),
                ..old(self)@
            }),
            store_ok(final(self)@),
    {
        let ghost before = self@;
        let p: usize = find_request(&self.audits, request_id);
        if p < self.audits.len() {
            let mut rec: ControlAuditRecord = self.audits[p].copy();
            rec.status = status.to_owned();
            rec.result_json = match result_json {
                Some(s) => Some(s.to_owned()),
                None => None,
            };
            rec.finished_at_ns = Some(finished_at_ns);
            self.audits.set(p, rec);
        }
        proof {
            let want = audit_finished(
                before.audits,
                request_id@,
                status@,
                maybe_str(result_json),
                finished_at_ns,
            );
            assert forall|i: int| 0 <= i < want.len() implies self@.audits[i] == want[i] by {
                if i != p && is_request(before.audits[i], request_id@) {
                    if i < p {
                        assert(!is_request(before.audits[i], request_id@));
                    } else {
                        assert(before.audits[p as int].request_id != before.audits[i].request_id);
                    }
                }
            }
            assert(self@.audits =~= want);
            assert(self@ =~= (StoreV { audits: want, ..before }));
            assert forall|i: int, j: int| 0 <= i < j < want.len() implies (
            #[trigger] want[i]).request_id != (#[trigger] want[j]).request_id by {
                assert(before.audits[i].request_id != before.audits[j].request_id);
            }
        }
    }

    /// The records that are asked for, from the latest to the earliest.
    pub fn list_control_audit(
        &self,
        endpoint_id: Option<&str>,
        status: Option<&str>,
        from_ns: Option<i64>,
        to_ns: Option<i64>,
        limit: u32,
        cursor: Option<&str>,
    ) -> (r: Vec<ControlAuditRecord>)
        ensures
            audits_view(r@) == audits_page(
                self@.audits,
                (AuditFilterV {
                    endpoint_id: maybe_str(endpoint_id),
                    status: maybe_str(status),
                    from_ns,
                    to_ns,
                    cursor: maybe_str(cursor),
                }),
                limit as int,
            ),
    {
        list_audits(&self.audits, endpoint_id, status, from_ns, to_ns, limit, cursor)
    }

    pub fn get_control_audit(&self, request_id: &str) -> (r: Option<ControlAuditRecord>)
        ensures
            match r {
                Some(a) => is_request(a@, request_id@) && self@.audits.contains(a@),
                None => !has_request(self@.audits, request_id@),
            },
    {
        let p: usize = find_request(&self.audits, request_id);
        if p < self.audits.len() {
            assert(self@.audits[p as int] == self.audits@[p as int]@);
            Some(self.audits[p].copy())
        } else {
            None
        }
    }
}

// ---------------------------------------------------------------------------
// Rows from and to where they are kept
// ---------------------------------------------------------------------------

impl ConfigStore {
    /// Puts in a device as it was kept.
    pub fn load_device(&mut self, rec: DeviceRecord)
        requires
            store_ok(old(self)@),
        ensures
            final(self)@ == (StoreV {
                devices: old(self)@.devices.insert(rec@.id, rec@.name),
                ..old(self)@
            }),
            store_ok(final(self)@),
    {
        self.devices.set(rec.id, rec.name);
    }

    /// Puts in an endpoint as it was kept, if its device is there.
    pub fn load_endpoint(&mut self, rec: EndpointRecord) -> (r: Result<(), StoreError>)
        requires
            store_ok(old(self)@),
        ensures
            match r {
                Ok(()) => old(self)@.devices.contains_key(rec@.device_id) && final(self)@
                    == (StoreV {
                    endpoints: old(self)@.endpoints.insert(rec@.id, rec@),
                    ..old(self)@
                }),
                Err(e) => !old(self)@.devices.contains_key(rec@.device_id) && e@
                    == broken_reference() && final(self)@ == old(self)@,
            },
            store_ok(final(self)@),
    {
        if !self.devices.has(rec.device_id.as_str()) {
            return Err(StoreError::Sqlite("FOREIGN KEY constraint failed".to_owned()));
        }
        self.endpoints.set(rec.id.clone(), rec);
        Ok(())
    }

    /// Puts in the acquisition task of an endpoint as it was kept, if the endpoint is there.
    pub fn load_task(&mut self, endpoint_id: &str, id: String, row: TaskRow) -> (r: Result<
        (),
        StoreError,
    >)
        requires
            store_ok(old(self)@),
        ensures
            match r {
                Ok(()) => old(self)@.endpoints.contains_key(endpoint_id@) && final(self)@
                    == (StoreV {
                    tasks: old(self)@.tasks.insert(
                        endpoint_id@,
                        rows_for(old(self)@.tasks, endpoint_id@).insert(id@, row@),
                    ),
                    ..old(self)@
                }),
                Err(e) => !old(self)@.endpoints.contains_key(endpoint_id@) && e@
                    == broken_reference() && final(self)@ == old(self)@,
            },
            store_ok(final(self)@),
    {
        if !self.endpoints.has(endpoint_id) {
            return Err(StoreError::Sqlite("FOREIGN KEY constraint failed".to_owned()));
        }
        let ghost before = self@;
        let mut rows: Table<TaskRow> = rows_of(&mut self.tasks, endpoint_id);
        rows.set(id, row);
        let ghost v = rows@;
        self.tasks.set(endpoint_id.to_owned(), rows);
        assert(self@.tasks =~= before.tasks.insert(endpoint_id@, v));
        Ok(())
    }

    /// Puts in the event task of an endpoint as it was kept, if the endpoint is there.
    pub fn load_event_task(&mut self, endpoint_id: &str, id: String, row: TaskRow) -> (r: Result<
        (),
        StoreError,
    >)
        requires
            store_ok(old(self)@),
        ensures
            match r {
                Ok(()) => old(self)@.endpoints.contains_key(endpoint_id@) && final(self)@
                    == (StoreV {
                    event_tasks: old(self)@.event_tasks.insert(
                        endpoint_id@,
                        rows_for(old(self)@.event_tasks, endpoint_id@).insert(id@, row@),
                    ),
                    ..old(self)@
                }),
                Err(e) => !old(self)@.endpoints.contains_key(endpoint_id@) && e@
                    == broken_reference() && final(self)@ == old(self)@,
            },
            store_ok(final(self)@),
    {
        if !self.endpoints.has(endpoint_id) {
            return Err(StoreError::Sqlite("FOREIGN KEY constraint failed".to_owned()));
        }
        let ghost before = self@;
        let mut rows: Table<TaskRow> = rows_of(&mut self.event_tasks, endpoint_id);
        rows.set(id, row);
        let ghost v = rows@;
        self.event_tasks.set(endpoint_id.to_owned(), rows);
        assert(self@.event_tasks =~= before.event_tasks.insert(endpoint_id@, v));
        Ok(())
    }

    /// Puts in the revision of an endpoint as it was kept, if the endpoint is there.
    pub fn load_revision(&mut self, endpoint_id: &str, revision: u64) -> (r: Result<(), StoreError>)
        requires
            store_ok(old(self)@),
        ensures
            match r {
                Ok(()) => old(self)@.endpoints.contains_key(endpoint_id@) && final(self)@
                    == (StoreV {
                    revisions: old(self)@.revisions.insert(endpoint_id@, revision),
                    ..old(self)@
                }),
                Err(e) => !old(self)@.endpoints.contains_key(endpoint_id@) && e@
                    == broken_reference() && final(self)@ == old(self)@,
            },
            store_ok(final(self)@),
    {
        if !self.endpoints.has(endpoint_id) {
            return Err(StoreError::Sqlite("FOREIGN KEY constraint failed".to_owned()));
        }
        self.revisions.set(endpoint_id.to_owned(), revision);
        Ok(())
    }

    /// Puts in a secret of an endpoint as it was kept, if the endpoint is there.
    pub fn load_secret(&mut self, endpoint_id: &str, field: String, row: SecretRow) -> (r: Result<
        (),
        StoreError,
    >)
        requires
            store_ok(old(self)@),
        ensures
            match r {
                Ok(()) => old(self)@.endpoints.contains_key(endpoint_id@) && final(self)@
                    == (StoreV {
                    secrets: old(self)@.secrets.insert(
                        endpoint_id@,
                        rows_for(old(self)@.secrets, endpoint_id@).insert(field@, row@),
                    ),
                    ..old(self)@
                }),
                Err(e) => !old(self)@.endpoints.contains_key(endpoint_id@) && e@
                    == broken_reference() && final(self)@ == old(self)@,
            },
            store_ok(final(self)@),
    {
        if !self.endpoints.has(endpoint_id) {
            return Err(StoreError::Sqlite("FOREIGN KEY constraint failed".to_owned()));
        }
        let ghost before = self@;
        let mut rows: Table<SecretRow> = rows_of(&mut self.secrets, endpoint_id);
        rows.set(field, row);
        let ghost v = rows@;
        self.secrets.set(endpoint_id.to_owned(), rows);
        assert(self@.secrets =~= before.secrets.insert(endpoint_id@, v));
        Ok(())
    }

    /// Puts in what came of a request as it was kept.
    pub fn load_result(&mut self, key: String, row: IdempotencyRow)
        requires
            store_ok(old(self)@),
        ensures
            final(self)@ == (StoreV {
                idempotency: old(self)@.idempotency.insert(key@, row@),
                ..old(self)@
            }),
            store_ok(final(self)@),
    {
        self.idempotency.set(key, row);
    }

    /// Puts in a point of an endpoint as it was kept, if no other point has its id.
    pub fn load_point(&mut self, endpoint_id: &str, key: String, row: PointRow) -> (r: Result<
        (),
        StoreError,
    >)
        requires
            store_ok(old(self)@),
        ensures
            match r {
                Ok(()) => !id_is_taken(
                    registry_of(old(self)@, endpoint_id@),
                    key@,
                    row.point_id,
                ) && final(self)@ == (StoreV {
                    points: old(self)@.points.insert(
                        endpoint_id@,
                        registry_of(old(self)@, endpoint_id@).insert(key@, row@),
                    ),
                    ..old(self)@
                }),
                Err(e) => id_is_taken(
                    registry_of(old(self)@, endpoint_id@),
                    key@,
                    row.point_id,
                ) && e@ == StoreFault::Sqlite(
                    "UNIQUE constraint failed: point_registry.endpoint_id, point_registry.point_id"@,
                ) && final(self)@ == old(self)@,
            },
            store_ok(final(self)@),
    {
        let ghost before = self@;
        let ghost reg = registry_of(before, endpoint_id@);
        let mut rows: Table<PointRow> = rows_of(&mut self.points, endpoint_id);
        let n: usize = rows.len();
        let ghost keys = rows.keys();
        let mut taken: bool = false;
        let mut i: usize = 0;
        while i < n
            invariant
                i <= n,
                n == keys.len(),
                keys == rows.keys(),
                rows@ == reg,
                keys.to_set() == reg.dom(),
                taken ==> id_is_taken(reg, key@, row.point_id),
                !taken ==> forall|j: int|
                    0 <= j < i && #[trigger] keys[j] != key@ ==> reg[keys[j]].point_id
                        != row.point_id,
            decreases n - i,
        {
            if rows.at(i).point_id == row.point_id && !same_text(
                rows.key_at(i).as_str(),
                key.as_str(),
            ) {
                assert(reg.contains_key(keys[i as int]));
                taken = true;
            }
            i = i + 1;
        }
        if taken {
            let known: bool = n > 0;
            if known {
                self.points.set(endpoint_id.to_owned(), rows);
            }
            proof {
                assert(reg.len() > 0 || n == 0);
                let k = choose|k: Seq<char>| #[trigger]
                    reg.contains_key(k) && k != key@ && reg[k].point_id == row.point_id;
                assert(keys.to_set().contains(k));
                assert(before.points.contains_key(endpoint_id@));
                assert(self@.points =~= before.points);
                assert(self@ =~= before);
            }
            return Err(
                StoreError::Sqlite(
                    "UNIQUE constraint failed: point_registry.endpoint_id, point_registry.point_id".to_owned(),
                ),
            );
        }
        let ghost v = row@;
        let ghost id = key@;
        rows.set(key, row);
        let _ = rows.len();
        let ghost after = rows@;
        self.points.set(endpoint_id.to_owned(), rows);
        proof {
            assert(!id_is_taken(reg, id, v.point_id)) by {
                if id_is_taken(reg, id, v.point_id) {
                    let k = choose|k: Seq<char>| #[trigger]
                        reg.contains_key(k) && k != id && reg[k].point_id == v.point_id;
                    assert(keys.to_set().contains(k));
                    let j = choose|j: int| 0 <= j < keys.len() && keys[j] == k;
                    assert(keys[j] != id);
                }
            }
            assert(self@.points =~= before.points.insert(endpoint_id@, after));
            assert(ids_are_distinct(reg));
            assert forall|a: Seq<char>, b: Seq<char>|
                #![trigger after.contains_key(a), after.contains_key(b)]
                after.contains_key(a) && after.contains_key(b) && a != b implies after[a].point_id
                != after[b].point_id by {
                if a == id {
                    assert(reg.contains_key(b));
                } else if b == id {
                    assert(reg.contains_key(a));
                } else {
                    assert(reg.contains_key(a) && reg.contains_key(b));
                }
            }
        }
        Ok(())
    }

    /// The rows of the acquisition tasks, by endpoint.
    pub fn all_tasks(&self) -> (r: &Table<Table<TaskRow>>)
        ensures
            r@ == self@.tasks,
    {
        &self.tasks
    }

    /// The rows of the event tasks, by endpoint.
    pub fn all_event_tasks(&self) -> (r: &Table<Table<TaskRow>>)
        ensures
            r@ == self@.event_tasks,
    {
        &self.event_tasks
    }

    /// The revisions, by endpoint.
    pub fn all_revisions(&self) -> (r: &Table<u64>)
        ensures
            r@ == self@.revisions,
    {
        &self.revisions
    }

    /// The rows of the points, by endpoint.
    pub fn all_points(&self) -> (r: &Table<Table<PointRow>>)
        ensures
            r@ == self@.points,
    {
        &self.points
    }

    /// The rows of the secrets, by endpoint.
    pub fn all_secrets(&self) -> (r: &Table<Table<SecretRow>>)
        ensures
            r@ == self@.secrets,
    {
        &self.secrets
    }

    /// The log of control operations.
    pub fn all_audits(&self) -> (r: &Vec<ControlAuditRecord>)
        ensures
            audits_view(r@) == self@.audits,
    {
        &self.audits
    }

    /// What came of requests, by key.
    pub fn all_results(&self) -> (r: &Table<IdempotencyRow>)
        ensures
            r@ == self@.idempotency,
    {
        &self.idempotency
    }
}

/// Whether another key of a registry has an id.
pub open spec fn id_is_taken(reg: Registry, key: Seq<char>, id: u32) -> bool {
    exists|k: Seq<char>| #[trigger] reg.contains_key(k) && k != key && reg[k].point_id == id
}

// ---------------------------------------------------------------------------
// What holds of the whole
// ---------------------------------------------------------------------------

proof fn lemma_task_rows(ts: Seq<TaskV>, n: int)
    requires
        0 <= n <= ts.len(),
        task_ids(ts).no_duplicates(),
    ensures
        forall|i: int|
            0 <= i < n ==> task_rows(ts, n).contains_key((#[trigger] ts[i]).id) && task_rows(
                ts,
                n,
            )[ts[i].id] == task_row(ts[i]),
        task_rows(ts, n).dom() == task_ids(ts).subrange(0, n).to_set(),
    decreases n,
{
    let ids = task_ids(ts);
    if n == 0 {
        assert(task_rows(ts, n).dom() =~= ids.subrange(0, n).to_set());
    } else {
        lemma_task_rows(ts, n - 1);
        assert forall|i: int| 0 <= i < n implies task_rows(ts, n).contains_key(
            (#[trigger] ts[i]).id,
        ) && task_rows(ts, n)[ts[i].id] == task_row(ts[i]) by {
            if i < n - 1 {
                assert(ids[i] != ids[n - 1]);
            }
        }
        let a = ids.subrange(0, n - 1);
        assert(ids.subrange(0, n) =~= a.insert(n - 1, ids[n - 1]));
        lemma_insert_set(a, n - 1, ids[n - 1]);
        assert(task_rows(ts, n).dom() =~= ids.subrange(0, n).to_set());
    }
}

/// An endpoint has the tasks that it was given, each as it was given, and no others.
pub proof fn replaced_tasks_are_kept(ts: Seq<TaskV>)
    requires
        tasks_fault(ts) is None || event_tasks_fault(ts) is None,
    ensures
        task_rows(ts, ts.len() as int).dom() == task_ids(ts).to_set(),
        forall|i: int|
            0 <= i < ts.len() ==> task_rows(ts, ts.len() as int)[(#[trigger] ts[i]).id]
                == task_row(ts[i]),
{
    first_repeat_is_first(task_ids(ts));
    lemma_task_rows(ts, ts.len() as int);
    assert(task_ids(ts).subrange(0, ts.len() as int) =~= task_ids(ts));
}

/// Each change of the tasks of an endpoint, of either kind, brings the revision one up, and a
/// change that is refused leaves it as it is.
pub proof fn revisions_count_changes(s: StoreV, endpoint: Seq<char>, ts: Seq<TaskV>, now: i64)
    requires
        revision_of(s, endpoint) < i64::MAX,
    ensures
        tasks_replaced(s, endpoint, ts, now) matches Ok(r) ==> revision_of(r.0, endpoint)
            == revision_of(s, endpoint) + 1 && r.1 == revision_of(s, endpoint) + 1,
        event_tasks_replaced(s, endpoint, ts, now) matches Ok(r) ==> revision_of(r.0, endpoint)
            == revision_of(s, endpoint) + 1 && r.1 == revision_of(s, endpoint) + 1,
{
}

/// The driver of an endpoint never changes.
pub proof fn driver_of_an_endpoint_stays(
    s: StoreV,
    e: EndpointV,
    xs: Seq<SealedV>,
    dropped: Seq<Seq<char>>,
    now: i64,
    id: Seq<char>,
)
    requires
        s.endpoints.contains_key(id),
        endpoint_updated(s, e, xs, dropped, now) is Ok,
    ensures
        endpoint_updated(s, e, xs, dropped, now)->Ok_0.0.endpoints.contains_key(id),
        endpoint_updated(s, e, xs, dropped, now)->Ok_0.0.endpoints[id].driver_id
            == s.endpoints[id].driver_id,
{
}

/// What is known of the points of an endpoint stays known after the endpoint is gone, so that an
/// endpoint of the same id gives its points the same ids.
pub proof fn points_outlive_their_endpoint(s: StoreV, endpoint: Seq<char>)
    ensures
        endpoint_deleted(s, endpoint).points == s.points,
        !endpoint_deleted(s, endpoint).tasks.contains_key(endpoint),
        !endpoint_deleted(s, endpoint).event_tasks.contains_key(endpoint),
        !endpoint_deleted(s, endpoint).secrets.contains_key(endpoint),
        revision_of(endpoint_deleted(s, endpoint), endpoint) == 0,
{
}

/// Whether a text can be an id: it is not blank and no longer than 128 bytes.
pub open spec fn can_be_an_id(id: Seq<char>) -> bool {
    !blank(id) && byte_length(id) <= 128
}

/// A device is created exactly where its id can be one, it has a name, and no device has its id. All
/// that changes is that the device is there, under its name.
pub proof fn devices_are_created_when_they_are_new(s: StoreV, d: DeviceV)
    ensures
        device_created(s, d) is Ok <==> can_be_an_id(d.id) && !blank(d.name)
            && !s.devices.contains_key(d.id),
        device_created(s, d) matches Ok(r) ==> {
            &&& r.0.devices == s.devices.insert(d.id, d.name)
            &&& r.0.endpoints == s.endpoints
            &&& r.0.tasks == s.tasks
            &&& r.0.event_tasks == s.event_tasks
            &&& r.0.revisions == s.revisions
            &&& r.0.points == s.points
            &&& r.0.secrets == s.secrets
            &&& r.0.audits == s.audits
            &&& r.0.idempotency == s.idempotency
            &&& r.0.master_key == s.master_key
        },
        device_created(s, d) matches Err(f) ==> (f is Duplicate <==> can_be_an_id(d.id) && !blank(
            d.name,
        )) && (f is Duplicate || f is Validation),
{
}

/// A device is given a new name exactly where it is there and the name is not blank; its id and
/// everything else stay.
pub proof fn devices_are_renamed_when_they_are_there(s: StoreV, d: DeviceV)
    ensures
        device_updated(s, d) is Err <==> blank(d.name),
        device_updated(s, d) matches Err(f) ==> f is Validation,
        device_updated(s, d) matches Ok(r) ==> {
            &&& r.1 == s.devices.contains_key(d.id)
            &&& !r.1 ==> r.0 == s
            &&& r.1 ==> r.0.devices == s.devices.insert(d.id, d.name)
            &&& r.0.endpoints == s.endpoints
            &&& r.0.tasks == s.tasks
            &&& r.0.event_tasks == s.event_tasks
            &&& r.0.revisions == s.revisions
            &&& r.0.points == s.points
            &&& r.0.secrets == s.secrets
            &&& r.0.audits == s.audits
            &&& r.0.idempotency == s.idempotency
            &&& r.0.master_key == s.master_key
        },
{
}

/// A device is taken out exactly where it is there and no endpoint is on it; where one is, nothing
/// is done and that is told.
pub proof fn devices_in_use_stay(s: StoreV, id: Seq<char>)
    ensures
        device_deleted(s, id) is Err <==> s.devices.contains_key(id) && exists|k: Seq<char>|
            #[trigger] s.endpoints.contains_key(k) && s.endpoints[k].device_id == id,
        device_deleted(s, id) matches Err(f) ==> f is Conflict,
        device_deleted(s, id) matches Ok(r) ==> {
            &&& r.1 == s.devices.contains_key(id)
            &&& r.0.devices == s.devices.remove(id)
            &&& r.0.endpoints == s.endpoints
            &&& r.0.tasks == s.tasks
            &&& r.0.event_tasks == s.event_tasks
            &&& r.0.revisions == s.revisions
            &&& r.0.points == s.points
            &&& r.0.secrets == s.secrets
            &&& r.0.audits == s.audits
            &&& r.0.idempotency == s.idempotency
            &&& r.0.master_key == s.master_key
        },
{
    if !s.devices.contains_key(id) {
        assert(s.devices.remove(id) =~= s.devices);
    }
}

/// An endpoint makes sense exactly where its id, its device and its driver can be ids, its name is
/// not blank and no longer than 128 bytes, and its connection is the text of a JSON object.
pub proof fn endpoints_make_sense_when_their_parts_do(e: EndpointV)
    ensures
        endpoint_fault(e) is None <==> (can_be_an_id(e.id) && can_be_an_id(e.device_id)
            && can_be_an_id(e.driver_id) && !blank(e.name) && byte_length(e.name) <= 128 && (
        json_parsed(e.connection_json) matches Ok(v) && v is Object)),
        endpoint_fault(e) matches Some(f) ==> f is Validation || f is Json,
        endpoint_fault(e) matches Some(f) && f is Json ==> json_parsed(e.connection_json) is Err,
{
}

/// An endpoint is created exactly where it makes sense, its device is there, and no endpoint has
/// its id.
pub proof fn endpoints_are_created_when_they_are_new(
    s: StoreV,
    e: EndpointV,
    xs: Seq<SealedV>,
    now: i64,
)
    ensures
        endpoint_created(s, e, xs, now) is Ok <==> endpoint_fault(e) is None
            && s.devices.contains_key(e.device_id) && !s.endpoints.contains_key(e.id),
        endpoint_fault(e) is None && !s.devices.contains_key(e.device_id) ==> (
        endpoint_created(s, e, xs, now) matches Err(f) && f is NotFound),
        endpoint_fault(e) is None && s.devices.contains_key(e.device_id)
            && s.endpoints.contains_key(e.id) ==> (endpoint_created(s, e, xs, now) matches Err(f)
            && f is Duplicate),
        endpoint_created(s, e, xs, now) matches Ok(r) ==> {
            &&& r.0.endpoints == s.endpoints.insert(e.id, e)
            &&& r.0.revisions == (if s.revisions.contains_key(e.id) {
                s.revisions
            } else {
                s.revisions.insert(e.id, 0)
            })
            &&& r.0.devices == s.devices
            &&& r.0.tasks == s.tasks
            &&& r.0.event_tasks == s.event_tasks
            &&& r.0.points == s.points
            &&& r.0.audits == s.audits
            &&& r.0.idempotency == s.idempotency
            &&& r.0.master_key == s.master_key
        },
        endpoint_created(s, e, xs, now) matches Ok(r) ==> forall|k: Seq<char>|
            k != e.id ==> (#[trigger] r.0.secrets.contains_key(k) <==> s.secrets.contains_key(k))
                && (s.secrets.contains_key(k) ==> r.0.secrets[k] == s.secrets[k]),
        xs.len() == 0 ==> (endpoint_created(s, e, xs, now) matches Ok(r) ==> r.0.secrets
            == s.secrets),
{
}

/// What is kept of each secret that is put: the last one under a field stays, and what was under
/// other fields is as it was.
pub proof fn secrets_are_kept_by_field(
    rows: Map<Seq<char>, SecretRowV>,
    xs: Seq<SealedV>,
    now: i64,
    n: int,
    field: Seq<char>,
)
    requires
        0 <= n <= xs.len(),
    ensures
        (forall|i: int| 0 <= i < n ==> (#[trigger] xs[i]).field != field) ==> (rows_put(
            rows,
            xs,
            now,
            n,
        ).contains_key(field) <==> rows.contains_key(field)) && rows_put(rows, xs, now, n)[field]
            == rows[field],
        n > 0 ==> ({
            let row = rows_put(rows, xs, now, n)[xs[n - 1].field];
            &&& rows_put(rows, xs, now, n).contains_key(xs[n - 1].field)
            &&& row.ciphertext == xs[n - 1].ciphertext
            &&& row.nonce == xs[n - 1].nonce
            &&& row.algorithm == SEAL_ALGORITHM@
            &&& row.key_id == "master"@
            &&& row.updated_at_ns == now
        }),
    decreases n,
{
    if n > 0 {
        secrets_are_kept_by_field(rows, xs, now, n - 1, field);
    }
}

/// A field that is dropped is no longer there, and every other stays as it was.
pub proof fn dropped_fields_are_gone(
    rows: Map<Seq<char>, SecretRowV>,
    fields: Seq<Seq<char>>,
    n: int,
    k: Seq<char>,
)
    requires
        0 <= n <= fields.len(),
    ensures
        rows_without(rows, fields, n).contains_key(k) <==> rows.contains_key(k) && forall|i: int|
            0 <= i < n ==> #[trigger] fields[i] != k,
        rows_without(rows, fields, n).contains_key(k) ==> rows_without(rows, fields, n)[k]
            == rows[k],
    decreases n,
{
    if n > 0 {
        dropped_fields_are_gone(rows, fields, n - 1, k);
    }
}

/// An endpoint is changed exactly where its new name and connection make sense and its device is
/// there: all of it but its driver becomes what is given.
pub proof fn endpoints_are_changed_when_they_are_there(
    s: StoreV,
    e: EndpointV,
    xs: Seq<SealedV>,
    dropped: Seq<Seq<char>>,
    now: i64,
)
    ensures
        endpoint_updated(s, e, xs, dropped, now) is Ok <==> (!blank(e.name) && byte_length(e.name)
            <= 128 && (json_parsed(e.connection_json) matches Ok(v) && v is Object) && (
        s.endpoints.contains_key(e.id) ==> s.devices.contains_key(e.device_id))),
        endpoint_updated(s, e, xs, dropped, now) matches Ok(r) ==> {
            &&& r.1 == s.endpoints.contains_key(e.id)
            &&& !r.1 ==> r.0 == s
            &&& r.1 ==> r.0.endpoints.dom() == s.endpoints.dom()
            &&& r.1 ==> r.0.endpoints[e.id].name == e.name
            &&& r.1 ==> r.0.endpoints[e.id].device_id == e.device_id
            &&& r.1 ==> r.0.endpoints[e.id].connection_json == e.connection_json
            &&& r.1 ==> r.0.endpoints[e.id].desired_running == e.desired_running
            &&& r.1 ==> r.0.endpoints[e.id].updated_at_ns == e.updated_at_ns
            &&& r.1 ==> r.0.endpoints[e.id].driver_id == s.endpoints[e.id].driver_id
            &&& forall|k: Seq<char>|
                k != e.id && s.endpoints.contains_key(k) ==> #[trigger] r.0.endpoints[k]
                    == s.endpoints[k]
            &&& r.0.devices == s.devices
            &&& r.0.tasks == s.tasks
            &&& r.0.event_tasks == s.event_tasks
            &&& r.0.revisions == s.revisions
            &&& r.0.points == s.points
            &&& r.0.audits == s.audits
            &&& r.0.idempotency == s.idempotency
            &&& r.0.master_key == s.master_key
        },
{
    if s.endpoints.contains_key(e.id) {
        assert(endpoint_changed(s, e, xs, dropped, now).endpoints.dom() =~= s.endpoints.dom());
    }
}

/// With an endpoint go its tasks, its event tasks, its revision and its secrets, and nothing else.
pub proof fn only_what_belongs_to_an_endpoint_goes_with_it(s: StoreV, id: Seq<char>)
    ensures
        endpoint_deleted(s, id).endpoints == s.endpoints.remove(id),
        endpoint_deleted(s, id).tasks == s.tasks.remove(id),
        endpoint_deleted(s, id).event_tasks == s.event_tasks.remove(id),
        endpoint_deleted(s, id).revisions == s.revisions.remove(id),
        endpoint_deleted(s, id).secrets == s.secrets.remove(id),
        endpoint_deleted(s, id).devices == s.devices,
        endpoint_deleted(s, id).points == s.points,
        endpoint_deleted(s, id).audits == s.audits,
        endpoint_deleted(s, id).idempotency == s.idempotency,
        endpoint_deleted(s, id).master_key == s.master_key,
{
}

/// Whether an endpoint is to run is kept, with the time at which that was asked for; nothing else
/// of it changes, and no other endpoint.
pub proof fn what_is_asked_of_an_endpoint_is_kept(
    s: StoreV,
    id: Seq<char>,
    running: bool,
    now: i64,
)
    ensures
        !s.endpoints.contains_key(id) ==> desire_set(s, id, running, now) == s,
        s.endpoints.contains_key(id) ==> {
            let after = desire_set(s, id, running, now);
            &&& after.endpoints.dom() == s.endpoints.dom()
            &&& after.endpoints[id].desired_running == running
            &&& after.endpoints[id].updated_at_ns == now
            &&& after.endpoints[id].id == s.endpoints[id].id
            &&& after.endpoints[id].name == s.endpoints[id].name
            &&& after.endpoints[id].device_id == s.endpoints[id].device_id
            &&& after.endpoints[id].driver_id == s.endpoints[id].driver_id
            &&& after.endpoints[id].connection_json == s.endpoints[id].connection_json
            &&& forall|k: Seq<char>|
                k != id && s.endpoints.contains_key(k) ==> #[trigger] after.endpoints[k]
                    == s.endpoints[k]
            &&& after.devices == s.devices
            &&& after.tasks == s.tasks
            &&& after.revisions == s.revisions
            &&& after.secrets == s.secrets
        },
{
    if s.endpoints.contains_key(id) {
        assert(desire_set(s, id, running, now).endpoints.dom() =~= s.endpoints.dom());
    }
}

/// A task is kept with its mode by name, its interval, and its binding as text.
pub proof fn tasks_are_kept_field_by_field(t: TaskV, id: Seq<char>, row: TaskRowV)
    ensures
        t.mode is Poll ==> task_row(t).mode == "poll"@,
        t.mode is Subscribe ==> task_row(t).mode == "subscribe"@,
        task_row(t).interval_ms == t.interval_ms,
        task_row(t).binding_kind == t.kind,
        task_row(t).binding_config_json == json_text(t.config),
        kept_task(id, row).id == id,
        kept_task(id, row).mode is Subscribe <==> row.mode == "subscribe"@,
        kept_task(id, row).interval_ms == row.interval_ms,
        kept_task(id, row).kind == row.binding_kind,
        json_parsed(row.binding_config_json) matches Ok(v) ==> kept_task(id, row).config == v,
        json_parsed(row.binding_config_json) is Err ==> kept_task(id, row).config == JsonV::Object(
            Seq::empty(),
        ),
{
}

proof fn lemma_bad_task(ts: Seq<TaskV>, i: int)
    requires
        0 <= i <= ts.len(),
    ensures
        bad_task(ts, i) is None <==> forall|j: int|
            i <= j < ts.len() ==> task_fault(#[trigger] ts[j]) is None,
    decreases ts.len() - i,
{
    if i < ts.len() {
        lemma_bad_task(ts, i + 1);
    }
}

/// Tasks are taken exactly where each makes sense and no two have the same id, whether they are
/// tasks for values or for events.
pub proof fn tasks_are_taken_when_each_makes_sense(ts: Seq<TaskV>)
    ensures
        tasks_fault(ts) is None <==> ((forall|j: int|
            0 <= j < ts.len() ==> task_fault(#[trigger] ts[j]) is None) && forall|j: int, k: int|
            0 <= j < k < ts.len() ==> (#[trigger] ts[j]).id != (#[trigger] ts[k]).id),
        event_tasks_fault(ts) is None <==> tasks_fault(ts) is None,
        tasks_fault(ts) matches Some(f) ==> f is Validation,
        event_tasks_fault(ts) matches Some(f) ==> f is Validation,
{
    lemma_bad_task(ts, 0);
    lemma_first_repeat_tells(task_ids(ts));
    let ids = task_ids(ts);
    if forall|j: int, k: int|
        0 <= j < k < ts.len() ==> (#[trigger] ts[j]).id != (#[trigger] ts[k]).id {
        assert forall|j: int, k: int| 0 <= j < k < ids.len() implies #[trigger] ids[j]
            != #[trigger] ids[k] by {
            assert(ts[j].id != ts[k].id);
        }
    }
    if forall|j: int, k: int|
        0 <= j < k < ids.len() ==> #[trigger] ids[j] != #[trigger] ids[k] {
        assert forall|j: int, k: int| 0 <= j < k < ts.len() implies (#[trigger] ts[j]).id != (
        #[trigger] ts[k]).id by {
            assert(ids[j] != ids[k]);
        }
    }
}

/// Tasks replace those that were there exactly where they are taken and the endpoint is there; the
/// endpoint is marked as changed and its revision goes up by one.
pub proof fn tasks_replace_those_that_were_there(
    s: StoreV,
    endpoint: Seq<char>,
    ts: Seq<TaskV>,
    now: i64,
)
    requires
        revision_of(s, endpoint) < i64::MAX,
    ensures
        tasks_replaced(s, endpoint, ts, now) is Ok <==> tasks_fault(ts) is None
            && s.endpoints.contains_key(endpoint),
        tasks_fault(ts) is None && !s.endpoints.contains_key(endpoint) ==> (tasks_replaced(
            s,
            endpoint,
            ts,
            now,
        ) matches Err(f) && f is NotFound),
        tasks_replaced(s, endpoint, ts, now) matches Ok(r) ==> {
            &&& r.0.tasks.contains_key(endpoint)
            &&& r.0.tasks[endpoint].dom() == task_ids(ts).to_set()
            &&& forall|k: Seq<char>|
                k != endpoint ==> (#[trigger] r.0.tasks.contains_key(k) <==> s.tasks.contains_key(
                    k,
                )) && r.0.tasks[k] == s.tasks[k]
            &&& r.0.event_tasks == s.event_tasks
            &&& r.0.endpoints[endpoint].updated_at_ns == now
            &&& r.0.endpoints[endpoint].desired_running == s.endpoints[endpoint].desired_running
            &&& r.0.endpoints[endpoint].connection_json == s.endpoints[endpoint].connection_json
            &&& r.0.revisions == s.revisions.insert(
                endpoint,
                (revision_of(s, endpoint) + 1) as u64,
            )
            &&& r.0.devices == s.devices
            &&& r.0.secrets == s.secrets
            &&& r.0.points == s.points
        },
        event_tasks_replaced(s, endpoint, ts, now) is Ok <==> tasks_fault(ts) is None
            && s.endpoints.contains_key(endpoint),
        event_tasks_replaced(s, endpoint, ts, now) matches Ok(r) ==> {
            &&& r.0.event_tasks.contains_key(endpoint)
            &&& r.0.event_tasks[endpoint].dom() == task_ids(ts).to_set()
            &&& r.0.tasks == s.tasks
            &&& r.0.endpoints[endpoint].updated_at_ns == now
            &&& r.0.devices == s.devices
            &&& r.0.secrets == s.secrets
            &&& r.0.points == s.points
        },
{
    tasks_are_taken_when_each_makes_sense(ts);
    if tasks_fault(ts) is None {
        replaced_tasks_are_kept(ts);
    }
}

/// An endpoint that was never changed is at revision zero.
pub proof fn revisions_start_at_zero(s: StoreV, endpoint: Seq<char>)
    ensures
        !s.revisions.contains_key(endpoint) ==> revision_of(s, endpoint) == 0,
        s.revisions.contains_key(endpoint) ==> revision_of(s, endpoint) == s.revisions[endpoint],
{
}

/// A row of an event task can be read exactly where its mode is one of the two and its binding is
/// JSON.
pub proof fn event_rows_are_read_when_they_make_sense(row: TaskRowV)
    ensures
        event_row_fault(row) is None <==> (row.mode == "poll"@ || row.mode == "subscribe"@)
            && json_parsed(row.binding_config_json) is Ok,
        event_row_fault(row) matches Some(f) ==> f is Sqlite,
{
}

/// A device and its endpoint are set up together exactly where both make sense and are new and the
/// tasks are taken; what stands in the way is told, that a device is there before that an
/// endpoint is.
pub proof fn devices_are_set_up_when_all_of_it_is_new(
    s: StoreV,
    d: DeviceV,
    e: EndpointV,
    ts: Seq<TaskV>,
)
    requires
        e.device_id == d.id,
    ensures
        bootstrap_refused(s, d, e, ts) is None <==> (can_be_an_id(d.id) && !blank(d.name)
            && endpoint_fault(e) is None && tasks_fault(ts) is None && !s.devices.contains_key(d.id)
            && !s.endpoints.contains_key(e.id)),
        bootstrap_refused(s, d, e, ts) matches Some(f) ==> (f is Duplicate <==> (can_be_an_id(d.id)
            && !blank(d.name) && endpoint_fault(e) is None && tasks_fault(ts) is None)),
{
    tasks_are_taken_when_each_makes_sense(ts);
    endpoints_make_sense_when_their_parts_do(e);
}

/// What is set up together: the device, the endpoint on it, its tasks at revision one, and its
/// secrets.
pub proof fn all_of_it_is_set_up(
    s: StoreV,
    d: DeviceV,
    e: EndpointV,
    xs: Seq<SealedV>,
    ts: Seq<TaskV>,
    now: i64,
)
    requires
        tasks_fault(ts) is None,
    ensures
        ({
            let after = bootstrapped(s, d, e, xs, ts, now);
            &&& after.devices == s.devices.insert(d.id, d.name)
            &&& after.endpoints == s.endpoints.insert(e.id, e)
            &&& after.revisions == s.revisions.insert(e.id, 1)
            &&& after.tasks.dom() == s.tasks.dom().insert(e.id)
            &&& after.tasks[e.id].dom() == task_ids(ts).to_set()
            &&& xs.len() == 0 ==> after.secrets == s.secrets
            &&& forall|k: Seq<char>|
                k != e.id ==> (#[trigger] after.secrets.contains_key(k) <==> s.secrets.contains_key(
                    k,
                ))
            &&& after.event_tasks == s.event_tasks
            &&& after.points == s.points
            &&& after.audits == s.audits
            &&& after.idempotency == s.idempotency
        }),
{
    replaced_tasks_are_kept(ts);
}

/// Taking back what was set up takes the endpoint with all that belongs to it, and the device where
/// no other endpoint is on it.
pub proof fn what_was_set_up_is_taken_back(s: StoreV, device: Seq<char>, endpoint: Seq<char>)
    ensures
        compensated(s, device, endpoint) is Err <==> s.devices.contains_key(device) && exists|
            k: Seq<char>,
        | #[trigger]
            s.endpoints.contains_key(k) && k != endpoint && s.endpoints[k].device_id == device,
        compensated(s, device, endpoint) matches Ok(r) ==> {
            &&& r.0.devices == s.devices.remove(device)
            &&& r.0.endpoints == s.endpoints.remove(endpoint)
            &&& r.0.tasks == s.tasks.remove(endpoint)
            &&& r.0.event_tasks == s.event_tasks.remove(endpoint)
            &&& r.0.revisions == s.revisions.remove(endpoint)
            &&& r.0.secrets == s.secrets.remove(endpoint)
            &&& r.0.points == s.points
            &&& r.0.audits == s.audits
            &&& r.0.idempotency == s.idempotency
        },
{
    let rest = endpoint_deleted(s, endpoint);
    if exists|k: Seq<char>| #[trigger]
        s.endpoints.contains_key(k) && k != endpoint && s.endpoints[k].device_id == device {
        let k = choose|k: Seq<char>| #[trigger]
            s.endpoints.contains_key(k) && k != endpoint && s.endpoints[k].device_id == device;
        assert(rest.endpoints.contains_key(k));
        assert(is_in_use(rest, device));
    }
    if is_in_use(rest, device) {
        let k = choose|k: Seq<char>| #[trigger]
            rest.endpoints.contains_key(k) && rest.endpoints[k].device_id == device;
        assert(s.endpoints.contains_key(k));
    }
}

/// Points are given ids exactly where no key is there twice and the endpoint is there.
pub proof fn points_are_taken_when_no_key_is_there_twice(
    s: StoreV,
    endpoint: Seq<char>,
    keys: Seq<Seq<char>>,
)
    ensures
        points_refused(s, endpoint, keys) is None <==> (s.endpoints.contains_key(endpoint)
            && forall|j: int, k: int|
            0 <= j < k < keys.len() ==> #[trigger] keys[j] != #[trigger] keys[k]),
        points_refused(s, endpoint, keys) matches Some(f) ==> f is Validation || f is NotFound,
{
    lemma_first_repeat_tells(keys);
}

/// The points that are listed as in use are those that were not given up, each with its own id.
pub proof fn points_in_use_are_listed(reg: Registry, k: Seq<char>)
    ensures
        active_points(reg).contains_key(k) <==> reg.contains_key(k) && !reg[k].deleted,
        active_points(reg).contains_key(k) ==> active_points(reg)[k] == reg[k].point_id,
{
}

/// A secret is kept under its field with its nonce, its key and the time; others stay.
pub proof fn a_secret_is_kept_under_its_field(
    s: StoreV,
    endpoint: Seq<char>,
    x: SealedV,
    key_id: Seq<char>,
    now: i64,
    other: Seq<char>,
    field: Seq<char>,
)
    ensures
        ({
            let after = secret_kept(s, endpoint, x, key_id, now);
            let row = after.secrets[endpoint][x.field];
            &&& after.secrets.contains_key(endpoint)
            &&& after.secrets[endpoint].contains_key(x.field)
            &&& row.ciphertext == x.ciphertext
            &&& row.nonce == x.nonce
            &&& row.algorithm == SEAL_ALGORITHM@
            &&& row.key_id == key_id
            &&& row.updated_at_ns == now
            &&& other != endpoint ==> (after.secrets.contains_key(other)
                <==> s.secrets.contains_key(other)) && after.secrets[other] == s.secrets[other]
            &&& s.secrets.contains_key(endpoint) && field != x.field ==> (
            after.secrets[endpoint].contains_key(field) <==> s.secrets[endpoint].contains_key(
                field,
            )) && after.secrets[endpoint][field] == s.secrets[endpoint][field]
            &&& after.endpoints == s.endpoints
            &&& after.devices == s.devices
        }),
{
}

/// A secret that is dropped is gone; every other, of this endpoint and of others, stays.
pub proof fn a_dropped_secret_is_gone(
    s: StoreV,
    endpoint: Seq<char>,
    field: Seq<char>,
    other: Seq<char>,
    f: Seq<char>,
)
    ensures
        ({
            let after = secret_dropped(s, endpoint, field);
            &&& secret_read(after, endpoint, field) == Ok::<Option<Seq<char>>, StoreFault>(None)
            &&& other != endpoint || f != field ==> secret_read(after, other, f) == secret_read(
                s,
                other,
                f,
            )
            &&& after.endpoints == s.endpoints
            &&& after.devices == s.devices
        }),
{
}

/// A secret that is not there is read as none, not as an error.
pub proof fn missing_secrets_are_none(s: StoreV, endpoint: Seq<char>, field: Seq<char>)
    ensures
        !s.secrets.contains_key(endpoint) ==> secret_read(s, endpoint, field) == Ok::<
            Option<Seq<char>>,
            StoreFault,
        >(None),
        secret_read(s, endpoint, field) == Ok::<Option<Seq<char>>, StoreFault>(None) ==> !(
        s.secrets.contains_key(endpoint) && s.secrets[endpoint].contains_key(field)),
        secret_read(s, endpoint, field) matches Err(f) ==> f is Validation,
{
}

/// A secret is put only for an endpoint that is there.
pub proof fn secrets_are_put_for_endpoints_that_are_there(
    s: StoreV,
    endpoint: Seq<char>,
    secret: (Seq<char>, Seq<char>),
    key_id: Seq<char>,
    drawn: Result<Seq<u8>, Seq<char>>,
    now: i64,
)
    ensures
        secret_put(s, endpoint, secret, key_id, drawn, now) is Ok <==> s.endpoints.contains_key(
            endpoint,
        ) && sealing(secret.1, s.master_key, drawn) is Ok,
        sealing(secret.1, s.master_key, drawn) is Err ==> (secret_put(
            s,
            endpoint,
            secret,
            key_id,
            drawn,
            now,
        ) matches Err(f) && f is Validation),
        sealing(secret.1, s.master_key, drawn) is Ok && !s.endpoints.contains_key(endpoint)
            ==> (secret_put(s, endpoint, secret, key_id, drawn, now) matches Err(f) && f is Sqlite),
{
}

/// The record of a request gets the state, the result and the time at which it ended; what it says
/// of its beginning stays, and so do all other records.
pub proof fn ended_requests_are_told_with_their_result(
    log: Seq<AuditV>,
    id: Seq<char>,
    status: Seq<char>,
    result_json: Option<Seq<char>>,
    finished_at_ns: i64,
    i: int,
)
    requires
        0 <= i < log.len(),
    ensures
        ({
            let after = audit_finished(log, id, status, result_json, finished_at_ns);
            &&& after.len() == log.len()
            &&& log[i].request_id != id ==> after[i] == log[i]
            &&& log[i].request_id == id ==> {
                &&& after[i].status == status
                &&& after[i].result_json == result_json
                &&& after[i].finished_at_ns == Some(finished_at_ns)
                &&& after[i].request_id == id
                &&& after[i].endpoint_id == log[i].endpoint_id
                &&& after[i].actor == log[i].actor
                &&& after[i].operation_type == log[i].operation_type
                &&& after[i].operation_id == log[i].operation_id
                &&& after[i].request_json == log[i].request_json
                &&& after[i].started_at_ns == log[i].started_at_ns
            }
        }),
{
}

/// Nothing is in a store at first.
pub proof fn stores_are_empty_at_first(master_key: Seq<u8>)
    ensures
        empty_store(master_key).devices == Map::<Seq<char>, Seq<char>>::empty(),
        empty_store(master_key).endpoints == Map::<Seq<char>, EndpointV>::empty(),
        empty_store(master_key).audits.len() == 0,
        empty_store(master_key).master_key == master_key,
        master_key.len() == 32 ==> store_ok(empty_store(master_key)),
{
}

/// How a failure of the store reads.
pub proof fn failures_of_the_store_read_so(m: Seq<char>, id: Seq<char>)
    ensures
        store_fault_text(StoreFault::Sqlite(m)) == "sqlite: "@ + m,
        store_fault_text(StoreFault::Duplicate(m)) == "duplicate: "@ + m,
        store_fault_text(StoreFault::NotFound(m)) == "not found: "@ + m,
        store_fault_text(StoreFault::Conflict(m)) == "conflict: "@ + m,
        store_fault_text(StoreFault::Validation(m)) == "validation: "@ + m,
        store_fault_text(StoreFault::Json(m)) == "json: "@ + m,
        device_exists(id) == StoreFault::Duplicate("device `"@ + id + "` 已存在"@),
        endpoint_exists(id) == StoreFault::Duplicate("endpoint `"@ + id + "` 已存在"@),
        no_device(id) == StoreFault::NotFound("device `"@ + id + "` 不存在"@),
        no_endpoint(id) == StoreFault::NotFound("endpoint `"@ + id + "` 不存在"@),
{
}

/// Secrets are sealed one by one with the key of the store, each under its own field; the first
/// that cannot be stops it.
pub proof fn secrets_are_sealed_one_by_one(
    secrets: Seq<(Seq<char>, Seq<char>)>,
    key: Seq<u8>,
    drawn: Seq<Result<Vec<u8>, String>>,
    n: int,
)
    requires
        0 <= n <= secrets.len(),
        n <= drawn.len(),
    ensures
        sealing_all(secrets, key, drawn, n) is Ok <==> forall|i: int|
            0 <= i < n ==> sealing(
                (#[trigger] secrets[i]).1,
                key,
                drawn_view(drawn[i]),
            ) is Ok,
        sealing_all(secrets, key, drawn, n) matches Ok(xs) ==> xs.len() == n && forall|i: int|
            0 <= i < n ==> (#[trigger] xs[i]).field == secrets[i].0 && (
            xs[i].ciphertext,
            xs[i].nonce,
            ) == sealing(secrets[i].1, key, drawn_view(drawn[i]))->Ok_0,
    decreases n,
{
    if n > 0 {
        secrets_are_sealed_one_by_one(secrets, key, drawn, n - 1);
    }
}

proof fn lemma_first_repeat_tells(keys: Seq<Seq<char>>)
    ensures
        first_repeat(keys) is None <==> forall|j: int, k: int|
            0 <= j < k < keys.len() ==> #[trigger] keys[j] != #[trigger] keys[k],
{
    first_repeat_is_first(keys);
    if forall|j: int, k: int|
        0 <= j < k < keys.len() ==> #[trigger] keys[j] != #[trigger] keys[k] {
        assert forall|i: int, j: int| 0 <= i < keys.len() && 0 <= j < keys.len() && i != j implies keys[i]
            != keys[j] by {}
        assert(keys.no_duplicates());
    }
}

/// What is made with secrets is made exactly where it makes sense, each secret could be sealed, and
/// it is not refused; with each secret sealed.
pub proof fn endpoints_are_made_with_their_secrets(
    s: StoreV,
    e: EndpointV,
    secrets: Seq<(Seq<char>, Seq<char>)>,
    dropped: Seq<Seq<char>>,
    drawn: Seq<Result<Vec<u8>, String>>,
    now: i64,
)
    ensures
        ({
            let sealed_all = sealing_all(secrets, s.master_key, drawn, secrets.len() as int);
            &&& endpoint_created_drawn(s, e, secrets, drawn, now) is Ok <==> sealed_all is Ok
                && endpoint_refused(s, e) is None
            &&& endpoint_created_drawn(s, e, secrets, drawn, now) matches Ok(r) ==> r.0
                == endpoint_added(s, e, sealed_all->Ok_0, now)
            &&& endpoint_updated_drawn(s, e, secrets, dropped, drawn, now) is Ok <==> sealed_all
                is Ok && update_refused(s, e) is None
            &&& endpoint_updated_drawn(s, e, secrets, dropped, drawn, now) matches Ok(r) ==> r.1
                == s.endpoints.contains_key(e.id) && (r.1 ==> r.0 == endpoint_changed(
                s,
                e,
                sealed_all->Ok_0,
                dropped,
                now,
            )) && (!r.1 ==> r.0 == s)
        }),
{
}

/// A device is set up with its secrets exactly where each could be sealed and nothing is refused; at
/// revision one.
pub proof fn devices_are_set_up_with_their_secrets(
    s: StoreV,
    both: (DeviceV, EndpointV),
    secrets: Seq<(Seq<char>, Seq<char>)>,
    ts: Seq<TaskV>,
    drawn: Seq<Result<Vec<u8>, String>>,
    now: i64,
)
    ensures
        bootstrapped_drawn(s, both, secrets, ts, drawn, now) is Ok <==> sealing_all(
            secrets,
            s.master_key,
            drawn,
            secrets.len() as int,
        ) is Ok && bootstrap_refused(s, both.0, both.1, ts) is None,
        bootstrapped_drawn(s, both, secrets, ts, drawn, now) matches Ok(r) ==> r.1 == 1 && r.0
            == bootstrapped(
            s,
            both.0,
            both.1,
            sealing_all(secrets, s.master_key, drawn, secrets.len() as int)->Ok_0,
            ts,
            now,
        ),
{
}

/// What is asked of the store is done whole or not at all: where it fails, nothing changed.
pub proof fn failures_change_nothing(
    r: Result<bool, StoreError>,
    owed: Result<(StoreV, bool), StoreFault>,
    before: StoreV,
    after: StoreV,
)
    requires
        went(r, owed, before, after),
    ensures
        r is Err ==> after == before && owed is Err && owed->Err_0 == r->Err_0@,
        r is Ok ==> owed is Ok && after == owed->Ok_0.0 && r->Ok_0 == owed->Ok_0.1,
{
}

/// The result of a set-up is kept with what it was asked for and what it made.
pub proof fn results_are_kept_field_by_field(
    request_hash: Seq<char>,
    device_id: Seq<char>,
    endpoint_id: Seq<char>,
    result_json: Seq<char>,
    now: i64,
)
    ensures
        result_row(request_hash, device_id, endpoint_id, result_json, now).request_hash
            == request_hash,
        result_row(request_hash, device_id, endpoint_id, result_json, now).device_id == device_id,
        result_row(request_hash, device_id, endpoint_id, result_json, now).endpoint_id
            == endpoint_id,
        result_row(request_hash, device_id, endpoint_id, result_json, now).result_json
            == result_json,
        result_row(request_hash, device_id, endpoint_id, result_json, now).created_at_ns == now,
{
}

/// The results of a device are all that were kept for it, and no others.
pub proof fn results_belong_to_their_device(s: StoreV, device: Seq<char>, k: Seq<char>)
    ensures
        results_of_device(s, device).contains(k) <==> s.idempotency.contains_key(k)
            && s.idempotency[k].device_id == device,
{
}

/// The row of a point is listed as it is kept.
pub proof fn points_are_listed_as_they_are_kept(r: RegistryRow, reg: Registry)
    requires
        lists_point(r, reg),
    ensures
        reg.contains_key(r.0@),
        r.1 == reg[r.0@].point_id,
        r.2@ == reg[r.0@].data_type,
        r.3 == reg[r.0@].deleted,
        maybe_text(r.4) == reg[r.0@].source_label,
{
}

/// An id is taken exactly where a point under another key has it.
pub proof fn ids_are_taken_by_other_points(reg: Registry, key: Seq<char>, id: u32, k: Seq<char>)
    ensures
        reg.contains_key(k) && k != key && reg[k].point_id == id ==> id_is_taken(reg, key, id),
        id_is_taken(reg, key, id) ==> exists|j: Seq<char>| #[trigger]
            reg.contains_key(j) && j != key && reg[j].point_id == id,
{
}

} // verus!
