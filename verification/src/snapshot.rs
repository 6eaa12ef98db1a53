//! What is known of the running system: its drivers, the states of its endpoints, and the latest
//! values of its points.
use std::collections::VecDeque;
use vstd::prelude::*;

use crate::api::{
    count_json, count_value, integer_json, integer_value, object6, object7, optional_text_json,
    optional_text_value, text_json, truth_json,
};
use crate::ids::{ordered_ids, rising, IdTable};
use crate::json::{
    entries_view, lemma_json_view, object_get, object_get_of_distinct, object_get_of_none, Json, JsonV,
};
use crate::render::payload_value;
use crate::schema::maybe_text;
use crate::table::{ascending, ordered_keys, Table};
use crate::text::{signed_decimal, signed_decimal_text, text_before};
use crate::types::{
    normalized_origin, origin_name, quality_name, DataBatch, PointDefinition, PointValue,
    PointValueV, Quality, TypedValue, ValueOrigin, ValueV,
};

verus! {

// ---------------------------------------------------------------------------
// Values
// ---------------------------------------------------------------------------

/// A value with the name of its type.
#[derive(Debug, PartialEq)]
pub struct ValueJson {
    pub type_label: String,
    pub value: Json,
}

/// What a [`ValueJson`] is.
pub struct ValueJsonV {
    pub type_label: Seq<char>,
    pub value: JsonV,
}

impl View for ValueJson {
    type V = ValueJsonV;

    open spec fn view(&self) -> ValueJsonV {
        ValueJsonV { type_label: self.type_label@, value: self.value@ }
    }
}

/// The name of the type of a value.
pub open spec fn json_type_name(v: ValueV) -> Seq<char> {
    match v {
        ValueV::Bool(_) => "bool"@,
        ValueV::I32(_) => "i32"@,
        ValueV::U32(_) => "u32"@,
        ValueV::I64(_) => "i64"@,
        ValueV::U64(_) => "u64"@,
        ValueV::F32(_) => "f32"@,
        ValueV::F64(_) => "f64"@,
        ValueV::String(_) => "string"@,
        ValueV::Bytes(_) => "bytes"@,
        ValueV::DateTime(_) => "datetime_ns"@,
        ValueV::BoolArray(_) => "bool[]"@,
        ValueV::I32Array(_) => "i32[]"@,
        ValueV::U32Array(_) => "u32[]"@,
        ValueV::I64Array(_) => "i64[]"@,
        ValueV::U64Array(_) => "u64[]"@,
        ValueV::F32Array(_) => "f32[]"@,
        ValueV::F64Array(_) => "f64[]"@,
        ValueV::StringArray(_) => "string[]"@,
        ValueV::DateTimeArray(_) => "datetime_ns[]"@,
    }
}

/// A value with the name of its type.
pub open spec fn typed_json(v: ValueV) -> ValueJsonV {
    ValueJsonV { type_label: json_type_name(v), value: payload_value(v) }
}

fn type_of(v: &TypedValue) -> (r: &'static str)
    ensures
        r@ == json_type_name(v@),
{
    match v {
        TypedValue::Bool(_) => "bool",
        TypedValue::I32(_) => "i32",
        TypedValue::U32(_) => "u32",
        TypedValue::I64(_) => "i64",
        TypedValue::U64(_) => "u64",
        TypedValue::F32(_) => "f32",
        TypedValue::F64(_) => "f64",
        TypedValue::String(_) => "string",
        TypedValue::Bytes(_) => "bytes",
        TypedValue::DateTime(_) => "datetime_ns",
        TypedValue::BoolArray(_) => "bool[]",
        TypedValue::I32Array(_) => "i32[]",
        TypedValue::U32Array(_) => "u32[]",
        TypedValue::I64Array(_) => "i64[]",
        TypedValue::U64Array(_) => "u64[]",
        TypedValue::F32Array(_) => "f32[]",
        TypedValue::F64Array(_) => "f64[]",
        TypedValue::StringArray(_) => "string[]",
        TypedValue::DateTimeArray(_) => "datetime_ns[]",
    }
}

pub fn value_to_json(v: &TypedValue) -> (r: ValueJson)
    ensures
        r@ == typed_json(v@),
{
    ValueJson { type_label: type_of(v).to_owned(), value: v.payload_json() }
}

// ---------------------------------------------------------------------------
// Rows
// ---------------------------------------------------------------------------

/// A driver as it is listed.
#[derive(Debug, Clone, PartialEq)]
pub struct DriverInfo {
    pub id: String,
    pub name: String,
    pub version: String,
    pub protocol: String,
    pub launchable: bool,
    pub reason: Option<String>,
}

/// What a [`DriverInfo`] is.
pub struct DriverInfoV {
    pub id: Seq<char>,
    pub name: Seq<char>,
    pub version: Seq<char>,
    pub protocol: Seq<char>,
    pub launchable: bool,
    pub reason: Option<Seq<char>>,
}

impl View for DriverInfo {
    type V = DriverInfoV;

    open spec fn view(&self) -> DriverInfoV {
        DriverInfoV {
            id: self.id@,
            name: self.name@,
            version: self.version@,
            protocol: self.protocol@,
            launchable: self.launchable,
            reason: maybe_text(self.reason),
        }
    }
}

fn copy_text(s: &Option<String>) -> (r: Option<String>)
    ensures
        maybe_text(r) == maybe_text(*s),
{
    match s {
        Some(x) => Some(x.clone()),
        None => None,
    }
}

/// A driver as a value.
pub open spec fn driver_value(d: DriverInfoV) -> JsonV {
    JsonV::Object(
        seq![
            ("id"@, JsonV::String(d.id)),
            ("launchable"@, JsonV::Bool(d.launchable)),
            ("name"@, JsonV::String(d.name)),
            ("protocol"@, JsonV::String(d.protocol)),
            ("reason"@, optional_text_value(d.reason)),
            ("version"@, JsonV::String(d.version)),
        ],
    )
}

impl DriverInfo {
    /// An equal row.
    pub fn copy(&self) -> (r: DriverInfo)
        ensures
            r@ == self@,
    {
        DriverInfo {
            id: self.id.clone(),
            name: self.name.clone(),
            version: self.version.clone(),
            protocol: self.protocol.clone(),
            launchable: self.launchable,
            reason: copy_text(&self.reason),
        }
    }

    pub fn to_json(&self) -> (r: Json)
        ensures
            r@ == driver_value(self@),
    {
        object6(
            "id",
            text_json(self.id.as_str()),
            "launchable",
            truth_json(self.launchable),
            "name",
            text_json(self.name.as_str()),
            "protocol",
            text_json(self.protocol.as_str()),
            "reason",
            optional_text_json(&self.reason),
            "version",
            text_json(self.version.as_str()),
        )
    }
}

/// How an endpoint is doing.
#[derive(Debug, Clone, PartialEq)]
pub struct EndpointStatus {
    pub endpoint_id: String,
    pub driver_id: String,
    pub state: String,
    pub detail: String,
    pub revision: u64,
    pub points: usize,
    pub epoch: u64,
}

/// What an [`EndpointStatus`] is.
pub struct StatusV {
    pub endpoint_id: Seq<char>,
    pub driver_id: Seq<char>,
    pub state: Seq<char>,
    pub detail: Seq<char>,
    pub revision: u64,
    pub points: usize,
    pub epoch: u64,
}

impl View for EndpointStatus {
    type V = StatusV;

    open spec fn view(&self) -> StatusV {
        StatusV {
            endpoint_id: self.endpoint_id@,
            driver_id: self.driver_id@,
            state: self.state@,
            detail: self.detail@,
            revision: self.revision,
            points: self.points,
            epoch: self.epoch,
        }
    }
}

/// How an endpoint is doing, as a value.
pub open spec fn status_value(s: StatusV) -> JsonV {
    JsonV::Object(
        seq![
            ("detail"@, JsonV::String(s.detail)),
            ("driver_id"@, JsonV::String(s.driver_id)),
            ("endpoint_id"@, JsonV::String(s.endpoint_id)),
            ("epoch"@, count_value(s.epoch)),
            ("points"@, count_value(s.points as u64)),
            ("revision"@, count_value(s.revision)),
            ("state"@, JsonV::String(s.state)),
        ],
    )
}

impl EndpointStatus {
    /// An equal row.
    pub fn copy(&self) -> (r: EndpointStatus)
        ensures
            r@ == self@,
    {
        EndpointStatus {
            endpoint_id: self.endpoint_id.clone(),
            driver_id: self.driver_id.clone(),
            state: self.state.clone(),
            detail: self.detail.clone(),
            revision: self.revision,
            points: self.points,
            epoch: self.epoch,
        }
    }

    pub fn to_json(&self) -> (r: Json)
        ensures
            r@ == status_value(self@),
    {
        object7(
            "detail",
            text_json(self.detail.as_str()),
            "driver_id",
            text_json(self.driver_id.as_str()),
            "endpoint_id",
            text_json(self.endpoint_id.as_str()),
            "epoch",
            count_json(self.epoch),
            "points",
            count_json(self.points as u64),
            "revision",
            count_json(self.revision),
            "state",
            text_json(self.state.as_str()),
        )
    }
}

/// The latest value of a point.
#[derive(Debug, PartialEq)]
pub struct LatestEntry {
    pub endpoint_id: String,
    pub point_id: u32,
    pub point_key: String,
    pub key: String,
    pub source_label: Option<String>,
    pub display_name: Option<String>,
    pub value: ValueJson,
    pub quality: String,
    pub quality_code: Option<String>,
    pub timestamp_ns: i64,
    pub value_origin: String,
    pub source_timestamp_ns: Option<i64>,
}

/// What a [`LatestEntry`] is.
pub struct LatestV {
    pub endpoint_id: Seq<char>,
    pub point_id: u32,
    pub point_key: Seq<char>,
    pub key: Seq<char>,
    pub source_label: Option<Seq<char>>,
    pub display_name: Option<Seq<char>>,
    pub value: ValueJsonV,
    pub quality: Seq<char>,
    pub quality_code: Option<Seq<char>>,
    pub timestamp_ns: i64,
    pub value_origin: Seq<char>,
    pub source_timestamp_ns: Option<i64>,
}

impl View for LatestEntry {
    type V = LatestV;

    open spec fn view(&self) -> LatestV {
        LatestV {
            endpoint_id: self.endpoint_id@,
            point_id: self.point_id,
            point_key: self.point_key@,
            key: self.key@,
            source_label: maybe_text(self.source_label),
            display_name: maybe_text(self.display_name),
            value: self.value@,
            quality: self.quality@,
            quality_code: maybe_text(self.quality_code),
            timestamp_ns: self.timestamp_ns,
            value_origin: self.value_origin@,
            source_timestamp_ns: self.source_timestamp_ns,
        }
    }
}

/// A member that is left out where there is no text.
pub open spec fn some_text(name: Seq<char>, v: Option<Seq<char>>) -> Seq<(Seq<char>, JsonV)> {
    match v {
        Some(s) => seq![(name, JsonV::String(s))],
        None => Seq::empty(),
    }
}

/// A member that is left out where there is no number.
pub open spec fn some_integer(name: Seq<char>, v: Option<i64>) -> Seq<(Seq<char>, JsonV)> {
    match v {
        Some(n) => seq![(name, integer_value(n))],
        None => Seq::empty(),
    }
}

/// The latest value of a point as a value.
pub open spec fn latest_value(e: LatestV) -> JsonV {
    JsonV::Object(
        some_text("display_name"@, e.display_name) + seq![
            ("endpoint_id"@, JsonV::String(e.endpoint_id)),
            ("key"@, JsonV::String(e.key)),
            ("point_id"@, count_value(e.point_id as u64)),
            ("point_key"@, JsonV::String(e.point_key)),
            ("quality"@, JsonV::String(e.quality)),
        ] + some_text("quality_code"@, e.quality_code) + some_text(
            "source_label"@,
            e.source_label,
        ) + some_integer("source_timestamp_ns"@, e.source_timestamp_ns) + seq![
            ("timestamp_ns"@, integer_value(e.timestamp_ns)),
            ("type"@, JsonV::String(e.value.type_label)),
            ("value"@, e.value.value),
            ("value_origin"@, JsonV::String(e.value_origin)),
        ],
    )
}

pub(crate) fn put(entries: &mut Vec<(String, Json)>, name: &str, v: Json)
    ensures
        entries_view(final(entries)@) == entries_view(old(entries)@).push((name@, v@)),
{
    entries.push((name.to_owned(), v));
    assert(entries_view(entries@) =~= entries_view(old(entries)@).push((name@, v@)));
}

fn put_text(entries: &mut Vec<(String, Json)>, name: &str, v: &Option<String>)
    ensures
        entries_view(final(entries)@) == entries_view(old(entries)@) + some_text(
            name@,
            maybe_text(*v),
        ),
{
    let ghost before = entries_view(entries@);
    match v {
        Some(s) => put(entries, name, text_json(s.as_str())),
        None => {},
    }
    assert(entries_view(entries@) =~= before + some_text(name@, maybe_text(*v)));
}

impl LatestEntry {
    /// An equal entry.
    pub fn copy(&self) -> (r: LatestEntry)
        ensures
            r@ == self@,
    {
        LatestEntry {
            endpoint_id: self.endpoint_id.clone(),
            point_id: self.point_id,
            point_key: self.point_key.clone(),
            key: self.key.clone(),
            source_label: copy_text(&self.source_label),
            display_name: copy_text(&self.display_name),
            value: ValueJson {
                type_label: self.value.type_label.clone(),
                value: self.value.value.copy(),
            },
            quality: self.quality.clone(),
            quality_code: copy_text(&self.quality_code),
            timestamp_ns: self.timestamp_ns,
            value_origin: self.value_origin.clone(),
            source_timestamp_ns: self.source_timestamp_ns,
        }
    }

    pub fn to_json(&self) -> (r: Json)
        ensures
            r@ == latest_value(self@),
    {
        broadcast use lemma_json_view;

        let mut o: Vec<(String, Json)> = Vec::new();
        assert(entries_view(o@) =~= Seq::<(Seq<char>, JsonV)>::empty());
        put_text(&mut o, "display_name", &self.display_name);
        put(&mut o, "endpoint_id", text_json(self.endpoint_id.as_str()));
        put(&mut o, "key", text_json(self.key.as_str()));
        put(&mut o, "point_id", count_json(self.point_id as u64));
        put(&mut o, "point_key", text_json(self.point_key.as_str()));
        put(&mut o, "quality", text_json(self.quality.as_str()));
        put_text(&mut o, "quality_code", &self.quality_code);
        put_text(&mut o, "source_label", &self.source_label);
        match self.source_timestamp_ns {
            Some(n) => put(&mut o, "source_timestamp_ns", integer_json(n)),
            None => {},
        }
        put(&mut o, "timestamp_ns", integer_json(self.timestamp_ns));
        put(&mut o, "type", text_json(self.value.type_label.as_str()));
        put(&mut o, "value", self.value.value.copy());
        put(&mut o, "value_origin", text_json(self.value_origin.as_str()));
        assert(entries_view(o@) =~= latest_value(self@)->Object_0);
        Json::Object(o)
    }
}

/// What a point is called.
#[derive(Debug, Clone, PartialEq)]
pub struct PointMeta {
    pub point_key: String,
    pub source_label: Option<String>,
    pub display_name: Option<String>,
}

/// What a [`PointMeta`] is.
pub struct MetaV {
    pub point_key: Seq<char>,
    pub source_label: Option<Seq<char>>,
    pub display_name: Option<Seq<char>>,
}

impl View for PointMeta {
    type V = MetaV;

    open spec fn view(&self) -> MetaV {
        MetaV {
            point_key: self.point_key@,
            source_label: maybe_text(self.source_label),
            display_name: maybe_text(self.display_name),
        }
    }
}

// ---------------------------------------------------------------------------
// The snapshot
// ---------------------------------------------------------------------------

/// How many delays are kept.
pub const LATENCY_CAPACITY: usize = 4096;

/// What is known of the running system.
pub struct Snapshot {
    drivers: Vec<DriverInfo>,
    endpoints: Table<EndpointStatus>,
    latest: Table<IdTable<LatestEntry>>,
    point_meta: Table<IdTable<PointMeta>>,
    envelopes_total: u64,
    point_value_total: u64,
    snapshot_apply_latencies_ns: VecDeque<u64>,
    ipc_latencies_ns: VecDeque<u64>,
}

/// What a [`Snapshot`] holds.
#[verifier::ext_equal]
pub struct SnapshotV {
    pub drivers: Seq<DriverInfoV>,
    pub endpoints: Map<Seq<char>, StatusV>,
    pub latest: Map<Seq<char>, Map<u64, LatestV>>,
    pub point_meta: Map<Seq<char>, Map<u64, MetaV>>,
    pub envelopes_total: u64,
    pub point_value_total: u64,
    pub snapshot_apply_latencies_ns: Seq<u64>,
    pub ipc_latencies_ns: Seq<u64>,
}

/// What drivers are, one by one.
pub open spec fn drivers_view(list: Seq<DriverInfo>) -> Seq<DriverInfoV> {
    list.map_values(|d: DriverInfo| d@)
}

impl View for Snapshot {
    type V = SnapshotV;

    closed spec fn view(&self) -> SnapshotV {
        SnapshotV {
            drivers: drivers_view(self.drivers@),
            endpoints: self.endpoints@,
            latest: self.latest@,
            point_meta: self.point_meta@,
            envelopes_total: self.envelopes_total,
            point_value_total: self.point_value_total,
            snapshot_apply_latencies_ns: self.snapshot_apply_latencies_ns@,
            ipc_latencies_ns: self.ipc_latencies_ns@,
        }
    }
}

/// What is known of the points of an endpoint.
pub open spec fn ids_for<T>(all: Map<Seq<char>, Map<u64, T>>, endpoint: Seq<char>) -> Map<u64, T> {
    if all.contains_key(endpoint) {
        all[endpoint]
    } else {
        Map::empty()
    }
}

/// Whether each entry stands under its endpoint and its point, and no more delays are kept than
/// there is room for.
pub open spec fn snapshot_ok(s: SnapshotV) -> bool {
    &&& forall|ep: Seq<char>, id: u64|
        s.latest.contains_key(ep) && #[trigger] s.latest[ep].contains_key(id)
            ==> s.latest[ep][id].endpoint_id == ep && s.latest[ep][id].point_id == id
    &&& forall|ep: Seq<char>| #[trigger]
        s.endpoints.contains_key(ep) ==> s.endpoints[ep].endpoint_id == ep
    &&& s.latest.dom().finite()
    &&& s.snapshot_apply_latencies_ns.len() <= LATENCY_CAPACITY
    &&& s.ipc_latencies_ns.len() <= LATENCY_CAPACITY
}

/// What a snapshot of nothing holds.
pub open spec fn empty_snapshot() -> SnapshotV {
    SnapshotV {
        drivers: Seq::empty(),
        endpoints: Map::empty(),
        latest: Map::empty(),
        point_meta: Map::empty(),
        envelopes_total: 0,
        point_value_total: 0,
        snapshot_apply_latencies_ns: Seq::empty(),
        ipc_latencies_ns: Seq::empty(),
    }
}

/// What the first `n` of some points are called, by id.
pub open spec fn meta_of(defs: Seq<PointDefinition>, n: int) -> Map<u64, MetaV>
    decreases n,
{
    if n <= 0 {
        Map::empty()
    } else {
        meta_of(defs, n - 1).insert(
            defs[n - 1].point_id as u64,
            MetaV {
                point_key: defs[n - 1].point_key@,
                source_label: maybe_text(defs[n - 1].source_label),
                display_name: maybe_text(defs[n - 1].display_name),
            },
        )
    }
}

/// An entry under the names of its point.
pub open spec fn renamed(e: LatestV, m: MetaV) -> LatestV {
    LatestV {
        point_key: m.point_key,
        key: m.point_key,
        source_label: m.source_label,
        display_name: m.display_name,
        ..e
    }
}

/// The entries of the points that there are, under their names.
pub open spec fn refreshed(rows: Map<u64, LatestV>, meta: Map<u64, MetaV>) -> Map<u64, LatestV> {
    Map::new(
        |id: u64| rows.contains_key(id) && meta.contains_key(id),
        |id: u64| renamed(rows[id], meta[id]),
    )
}

/// The snapshot with other points for an endpoint.
pub open spec fn points_registered(
    s: SnapshotV,
    endpoint: Seq<char>,
    defs: Seq<PointDefinition>,
) -> SnapshotV {
    let meta = meta_of(defs, defs.len() as int);
    SnapshotV {
        point_meta: s.point_meta.insert(endpoint, meta),
        latest: s.latest.insert(endpoint, refreshed(ids_for(s.latest, endpoint), meta)),
        ..s
    }
}

/// The name of a point of which nothing is known.
pub open spec fn no_name() -> MetaV {
    MetaV { point_key: Seq::empty(), source_label: None, display_name: None }
}

/// The entry that a sample makes.
pub open spec fn entry_of(
    endpoint: Seq<char>,
    m: MetaV,
    p: PointValueV,
    timestamp_ns: i64,
) -> LatestV {
    let origin = normalized_origin(p.value_origin, p.quality);
    LatestV {
        endpoint_id: endpoint,
        point_id: p.point_id,
        point_key: m.point_key,
        key: m.point_key,
        source_label: m.source_label,
        display_name: m.display_name,
        value: typed_json(p.value),
        quality: quality_name(p.quality),
        quality_code: match p.quality_code {
            Some(c) => Some(signed_decimal(c as int)),
            None => if p.quality is Bad {
                Some("DEVICE_ERROR"@)
            } else {
                None
            },
        },
        timestamp_ns,
        value_origin: origin_name(origin),
        source_timestamp_ns: if origin is Placeholder {
            None
        } else {
            p.source_timestamp_ns
        },
    }
}

/// The entries of an endpoint with the first `n` samples of a batch put in.
pub open spec fn applied_rows(
    rows: Map<u64, LatestV>,
    meta: Map<u64, MetaV>,
    endpoint: Seq<char>,
    values: Seq<PointValue>,
    timestamp_ns: i64,
    n: int,
) -> Map<u64, LatestV>
    decreases n,
{
    if n <= 0 {
        rows
    } else {
        let id = values[n - 1].point_id as u64;
        applied_rows(rows, meta, endpoint, values, timestamp_ns, n - 1).insert(
            id,
            entry_of(
                endpoint,
                if meta.contains_key(id) {
                    meta[id]
                } else {
                    no_name()
                },
                values[n - 1]@,
                timestamp_ns,
            ),
        )
    }
}

/// A count that starts again at zero when there is no room.
pub open spec fn counted_on(a: u64, b: u64) -> u64 {
    ((a + b) % 0x1_0000_0000_0000_0000) as u64
}

/// The snapshot with a batch put in.
pub open spec fn batch_applied(s: SnapshotV, batch: DataBatch, endpoint: Seq<char>) -> SnapshotV {
    SnapshotV {
        envelopes_total: counted_on(s.envelopes_total, 1),
        point_value_total: counted_on(s.point_value_total, batch.values@.len() as u64),
        latest: s.latest.insert(
            endpoint,
            applied_rows(
                ids_for(s.latest, endpoint),
                ids_for(s.point_meta, endpoint),
                endpoint,
                batch.values@,
                batch.timestamp_ns,
                batch.values@.len() as int,
            ),
        ),
        ..s
    }
}

/// An entry whose endpoint is out of reach. The value and the time of it stay.
pub open spec fn out_of_reach(e: LatestV) -> LatestV {
    let placeholder = e.value_origin == "PLACEHOLDER"@;
    LatestV {
        quality: "BAD"@,
        quality_code: Some("COMMUNICATION_LOST"@),
        value_origin: if placeholder {
            e.value_origin
        } else {
            "LAST_KNOWN"@
        },
        source_timestamp_ns: if placeholder {
            None
        } else {
            e.source_timestamp_ns
        },
        ..e
    }
}

/// The entries of an endpoint that is out of reach.
pub open spec fn rows_out_of_reach(rows: Map<u64, LatestV>) -> Map<u64, LatestV> {
    rows.map_values(|e: LatestV| out_of_reach(e))
}

/// The snapshot with an endpoint out of reach.
pub open spec fn communication_lost(s: SnapshotV, endpoint: Seq<char>) -> SnapshotV {
    SnapshotV {
        latest: s.latest.insert(endpoint, rows_out_of_reach(ids_for(s.latest, endpoint))),
        ..s
    }
}

/// The snapshot without an endpoint.
pub open spec fn endpoint_removed(s: SnapshotV, endpoint: Seq<char>) -> SnapshotV {
    SnapshotV {
        endpoints: s.endpoints.remove(endpoint),
        latest: s.latest.remove(endpoint),
        point_meta: s.point_meta.remove(endpoint),
        ..s
    }
}

/// What is known of the points of an endpoint, with one point called otherwise.
pub open spec fn meta_named(
    rows: Map<u64, MetaV>,
    id: u64,
    name: Option<Seq<char>>,
) -> Map<u64, MetaV> {
    if rows.contains_key(id) {
        rows.insert(id, MetaV { display_name: name, ..rows[id] })
    } else {
        rows
    }
}

/// The entries of an endpoint, with one point called otherwise.
pub open spec fn entry_named(
    rows: Map<u64, LatestV>,
    id: u64,
    name: Option<Seq<char>>,
) -> Map<u64, LatestV> {
    if rows.contains_key(id) {
        rows.insert(id, LatestV { display_name: name, ..rows[id] })
    } else {
        rows
    }
}

/// The snapshot with a point called otherwise.
pub open spec fn point_named(
    s: SnapshotV,
    endpoint: Seq<char>,
    id: u64,
    name: Option<Seq<char>>,
) -> SnapshotV {
    SnapshotV {
        point_meta: s.point_meta.insert(
            endpoint,
            meta_named(ids_for(s.point_meta, endpoint), id, name),
        ),
        latest: s.latest.insert(endpoint, entry_named(ids_for(s.latest, endpoint), id, name)),
        ..s
    }
}

/// Delays with one more: the earliest goes where there is no room.
pub open spec fn delay_kept(list: Seq<u64>, ns: u64) -> Seq<u64> {
    if list.len() >= LATENCY_CAPACITY {
        list.subrange(1, list.len() as int).push(ns)
    } else {
        list.push(ns)
    }
}

/// The entries of an endpoint in the order of their points.
pub open spec fn entries_of(rows: Map<u64, LatestV>) -> Seq<LatestV> {
    ordered_ids(rows).map_values(|id: u64| rows[id])
}

/// The entries of the first `n` of some endpoints, one endpoint after the other.
pub open spec fn entries_upto(
    latest: Map<Seq<char>, Map<u64, LatestV>>,
    keys: Seq<Seq<char>>,
    n: int,
) -> Seq<LatestV>
    decreases n,
{
    if n <= 0 {
        Seq::empty()
    } else {
        entries_upto(latest, keys, n - 1) + entries_of(latest[keys[n - 1]])
    }
}

/// All entries, in the order of their endpoints and of their points.
pub open spec fn all_entries(latest: Map<Seq<char>, Map<u64, LatestV>>) -> Seq<LatestV> {
    entries_upto(latest, ordered_keys(latest), ordered_keys(latest).len() as int)
}

/// What entries are, one by one.
pub open spec fn latest_view(list: Seq<LatestEntry>) -> Seq<LatestV> {
    list.map_values(|e: LatestEntry| e@)
}

fn take_rows<T: View>(all: &mut Table<IdTable<T>>, key: &str) -> (r: IdTable<T>)
    ensures
        r@ == ids_for(old(all)@, key@),
        final(all)@ == old(all)@.remove(key@),
{
    match all.take(key) {
        Some(rows) => rows,
        None => IdTable::new(),
    }
}

fn meta_table(defs: &[PointDefinition]) -> (r: IdTable<PointMeta>)
    ensures
        r@ == meta_of(defs@, defs@.len() as int),
{
    let mut out: IdTable<PointMeta> = IdTable::new();
    let mut i: usize = 0;
    while i < defs.len()
        invariant
            i <= defs.len(),
            out@ == meta_of(defs@, i as int),
        decreases defs.len() - i,
    {
        let d: &PointDefinition = &defs[i];
        out.set(
            d.point_id as u64,
            PointMeta {
                point_key: d.point_key.clone(),
                source_label: copy_text(&d.source_label),
                display_name: copy_text(&d.display_name),
            },
        );
        i = i + 1;
    }
    out
}

fn refresh(rows: &IdTable<LatestEntry>, meta: &IdTable<PointMeta>) -> (r: IdTable<LatestEntry>)
    ensures
        r@ == refreshed(rows@, meta@),
{
    let n: usize = rows.len();
    let ghost ids = rows.ids();
    let mut out: IdTable<LatestEntry> = IdTable::new();
    let mut i: usize = 0;
    while i < n
        invariant
            i <= n,
            n == ids.len(),
            ids == rows.ids(),
            rising(ids),
            ids.to_set() == rows@.dom(),
            forall|k: u64| #[trigger]
                out@.contains_key(k) <==> (exists|j: int| 0 <= j < i && #[trigger] ids[j] == k)
                    && meta@.contains_key(k),
            forall|k: u64| #[trigger]
                out@.contains_key(k) ==> out@[k] == renamed(rows@[k], meta@[k]),
        decreases n - i,
    {
        let id: u64 = rows.id_at(i);
        match meta.get(id) {
            Some(m) => {
                let mut e: LatestEntry = rows.at(i).copy();
                e.point_key = m.point_key.clone();
                e.key = m.point_key.clone();
                e.source_label = copy_text(&m.source_label);
                e.display_name = copy_text(&m.display_name);
                out.set(id, e);
            },
            None => {},
        }
        i = i + 1;
    }
    proof {
        assert forall|k: u64| #[trigger] out@.contains_key(k) <==> refreshed(
            rows@,
            meta@,
        ).contains_key(k) by {
            if rows@.contains_key(k) {
                assert(ids.to_set().contains(k));
                assert(ids.contains(k));
                let j = choose|j: int| 0 <= j < ids.len() && ids[j] == k;
                assert(0 <= j < i && ids[j] == k);
            }
            if out@.contains_key(k) {
                let j = choose|j: int| 0 <= j < i && #[trigger] ids[j] == k;
                assert(ids.contains(ids[j]));
                assert(ids.to_set().contains(k));
            }
        }
        assert(out@ =~= refreshed(rows@, meta@));
    }
    out
}

fn lose(rows: &IdTable<LatestEntry>) -> (r: IdTable<LatestEntry>)
    ensures
        r@ == rows_out_of_reach(rows@),
{
    let n: usize = rows.len();
    let ghost ids = rows.ids();
    let mut out: IdTable<LatestEntry> = IdTable::new();
    let mut i: usize = 0;
    while i < n
        invariant
            i <= n,
            n == ids.len(),
            ids == rows.ids(),
            ids.to_set() == rows@.dom(),
            forall|k: u64| #[trigger]
                out@.contains_key(k) <==> exists|j: int| 0 <= j < i && #[trigger] ids[j] == k,
            forall|k: u64| #[trigger] out@.contains_key(k) ==> out@[k] == out_of_reach(rows@[k]),
        decreases n - i,
    {
        let id: u64 = rows.id_at(i);
        let mut e: LatestEntry = rows.at(i).copy();
        e.quality = "BAD".to_owned();
        e.quality_code = Some("COMMUNICATION_LOST".to_owned());
        if crate::text::same_text(e.value_origin.as_str(), "PLACEHOLDER") {
            e.source_timestamp_ns = None;
        } else {
            e.value_origin = "LAST_KNOWN".to_owned();
        }
        out.set(id, e);
        i = i + 1;
    }
    proof {
        assert forall|k: u64| #[trigger] out@.contains_key(k) <==> rows@.contains_key(k) by {
            if rows@.contains_key(k) {
                assert(ids.to_set().contains(k));
                assert(ids.contains(k));
                let j = choose|j: int| 0 <= j < ids.len() && ids[j] == k;
                assert(0 <= j < i && ids[j] == k);
            }
            if out@.contains_key(k) {
                let j = choose|j: int| 0 <= j < i && #[trigger] ids[j] == k;
                assert(ids.contains(ids[j]));
                assert(ids.to_set().contains(k));
            }
        }
        assert(out@ =~= rows_out_of_reach(rows@));
    }
    out
}

fn code_text(p: &PointValue) -> (r: Option<String>)
    ensures
        forall|ep: Seq<char>, m: MetaV, ts: i64|
            maybe_text(r) == (#[trigger] entry_of(ep, m, p@, ts)).quality_code,
{
    match p.quality_code {
        Some(c) => Some(signed_decimal_text(c as i64)),
        None => match p.quality {
            Quality::Bad => Some("DEVICE_ERROR".to_owned()),
            _ => None,
        },
    }
}

fn make_entry(endpoint: &str, meta: &IdTable<PointMeta>, p: &PointValue, timestamp_ns: i64) -> (r:
    LatestEntry)
    ensures
        r@ == entry_of(
            endpoint@,
            if meta@.contains_key(p.point_id as u64) {
                meta@[p.point_id as u64]
            } else {
                no_name()
            },
            p@,
            timestamp_ns,
        ),
{
    let m: PointMeta = match meta.get(p.point_id as u64) {
        Some(m) => PointMeta {
            point_key: m.point_key.clone(),
            source_label: copy_text(&m.source_label),
            display_name: copy_text(&m.display_name),
        },
        None => {
            let none: String = String::new();
            assert(none@ =~= Seq::<char>::empty());
            PointMeta { point_key: none, source_label: None, display_name: None }
        },
    };
    let origin: ValueOrigin = p.value_origin.normalize_unspecified(p.quality);
    let source_timestamp_ns: Option<i64> = match origin {
        ValueOrigin::Placeholder => None,
        _ => p.source_timestamp_ns,
    };
    LatestEntry {
        endpoint_id: endpoint.to_owned(),
        point_id: p.point_id,
        point_key: m.point_key.clone(),
        key: m.point_key,
        source_label: m.source_label,
        display_name: m.display_name,
        value: value_to_json(&p.value),
        quality: p.quality.as_str().to_owned(),
        quality_code: code_text(p),
        timestamp_ns,
        value_origin: origin.as_str().to_owned(),
        source_timestamp_ns,
    }
}

proof fn lemma_applied_ok(
    rows: Map<u64, LatestV>,
    meta: Map<u64, MetaV>,
    endpoint: Seq<char>,
    values: Seq<PointValue>,
    timestamp_ns: i64,
    n: int,
)
    requires
        n <= values.len(),
        forall|id: u64| #[trigger]
            rows.contains_key(id) ==> rows[id].endpoint_id == endpoint && rows[id].point_id == id,
    ensures
        forall|id: u64| #[trigger]
            applied_rows(rows, meta, endpoint, values, timestamp_ns, n).contains_key(id)
                ==> applied_rows(rows, meta, endpoint, values, timestamp_ns, n)[id].endpoint_id
                == endpoint && applied_rows(
                rows,
                meta,
                endpoint,
                values,
                timestamp_ns,
                n,
            )[id].point_id == id,
    decreases n,
{
    if n > 0 {
        lemma_applied_ok(rows, meta, endpoint, values, timestamp_ns, n - 1);
    }
}

fn copy_delays(list: &VecDeque<u64>) -> (r: Vec<u64>)
    ensures
        r@ == list@,
{
    let mut out: Vec<u64> = Vec::new();
    let mut i: usize = 0;
    while i < list.len()
        invariant
            i <= list@.len(),
            out@ == list@.subrange(0, i as int),
        decreases list@.len() - i,
    {
        out.push(list[i]);
        assert(out@ =~= list@.subrange(0, i + 1));
        i = i + 1;
    }
    assert(list@.subrange(0, list@.len() as int) =~= list@);
    out
}

fn keep_delay(list: &mut VecDeque<u64>, ns: u64)
    ensures
        final(list)@ == delay_kept(old(list)@, ns),
{
    if list.len() >= LATENCY_CAPACITY {
        let _ = list.pop_front();
    }
    list.push_back(ns);
    assert(list@ =~= delay_kept(old(list)@, ns));
}

impl Snapshot {
    /// A snapshot of nothing.
    pub fn new() -> (r: Snapshot)
        ensures
            r@ == empty_snapshot(),
            snapshot_ok(r@),
    {
        let r: Snapshot = Snapshot {
            drivers: Vec::new(),
            endpoints: Table::new(),
            latest: Table::new(),
            point_meta: Table::new(),
            envelopes_total: 0,
            point_value_total: 0,
            snapshot_apply_latencies_ns: VecDeque::new(),
            ipc_latencies_ns: VecDeque::new(),
        };
        assert(r@ =~= empty_snapshot());
        r
    }

    pub fn set_drivers(&mut self, infos: Vec<DriverInfo>)
        requires
            snapshot_ok(old(self)@),
        ensures
            final(self)@ == (SnapshotV { drivers: drivers_view(infos@), ..old(self)@ }),
            snapshot_ok(final(self)@),
    {
        self.drivers = infos;
    }

    pub fn drivers(&self) -> (r: Vec<DriverInfo>)
        ensures
            drivers_view(r@) == self@.drivers,
    {
        let mut out: Vec<DriverInfo> = Vec::new();
        let mut i: usize = 0;
        while i < self.drivers.len()
            invariant
                i <= self.drivers.len(),
                out@.len() == i,
                forall|j: int| 0 <= j < i ==> (#[trigger] out@[j])@ == self.drivers@[j]@,
            decreases self.drivers.len() - i,
        {
            out.push(self.drivers[i].copy());
            i = i + 1;
        }
        assert(drivers_view(out@) =~= self@.drivers);
        out
    }

    pub fn upsert_endpoint(&mut self, status: EndpointStatus)
        requires
            snapshot_ok(old(self)@),
        ensures
            final(self)@ == (SnapshotV {
                endpoints: old(self)@.endpoints.insert(status@.endpoint_id, status@),
                ..old(self)@
            }),
            snapshot_ok(final(self)@),
    {
        self.endpoints.set(status.endpoint_id.clone(), status);
    }

    /// How the endpoints are doing, in the order of their ids.
    pub fn endpoints(&self) -> (r: Vec<EndpointStatus>)
        ensures
            r@.map_values(|e: EndpointStatus| e@) == ordered_keys(self@.endpoints).map_values(
                |k: Seq<char>| self@.endpoints[k],
            ),
    {
        let n: usize = self.endpoints.len();
        let ghost keys = self.endpoints.keys();
        let mut out: Vec<EndpointStatus> = Vec::new();
        let mut i: usize = 0;
        while i < n
            invariant
                i <= n,
                n == keys.len(),
                keys == self.endpoints.keys(),
                out@.len() == i,
                forall|j: int| 0 <= j < i ==> (#[trigger] out@[j])@ == self.endpoints@[keys[j]],
            decreases n - i,
        {
            out.push(self.endpoints.at(i).copy());
            i = i + 1;
        }
        assert(out@.map_values(|e: EndpointStatus| e@) =~= ordered_keys(
            self@.endpoints,
        ).map_values(|k: Seq<char>| self@.endpoints[k]));
        out
    }

    pub fn endpoint(&self, id: &str) -> (r: Option<EndpointStatus>)
        ensures
            match r {
                Some(s) => self@.endpoints.contains_key(id@) && s@ == self@.endpoints[id@],
                None => !self@.endpoints.contains_key(id@),
            },
    {
        match self.endpoints.get(id) {
            Some(s) => Some(s.copy()),
            None => None,
        }
    }

    /// Says which points an endpoint has. Entries of other points go; those that stay are called
    /// as their points are.
    pub fn register_points(&mut self, endpoint_id: &str, defs: &[PointDefinition])
        requires
            snapshot_ok(old(self)@),
        ensures
            final(self)@ == points_registered(old(self)@, endpoint_id@, defs@),
            snapshot_ok(final(self)@),
    {
        let ghost before = self@;
        let meta: IdTable<PointMeta> = meta_table(defs);
        let rows: IdTable<LatestEntry> = take_rows(&mut self.latest, endpoint_id);
        let new: IdTable<LatestEntry> = refresh(&rows, &meta);
        let ghost v = new@;
        let ghost m = meta@;
        self.latest.set(endpoint_id.to_owned(), new);
        self.point_meta.set(endpoint_id.to_owned(), meta);
        assert(self@.latest =~= before.latest.insert(endpoint_id@, v));
        assert(self@ =~= points_registered(before, endpoint_id@, defs@));
    }

    /// Puts a batch in.
    pub fn apply_batch(&mut self, batch: &DataBatch, endpoint_id: &str)
        requires
            snapshot_ok(old(self)@),
        ensures
            final(self)@ == batch_applied(old(self)@, *batch, endpoint_id@),
            snapshot_ok(final(self)@),
    {
        let ghost before = self@;
        let ghost ep = endpoint_id@;
        self.envelopes_total = self.envelopes_total.wrapping_add(1);
        self.point_value_total = self.point_value_total.wrapping_add(batch.values.len() as u64);
        let none: IdTable<PointMeta> = IdTable::new();
        let mut rows: IdTable<LatestEntry> = take_rows(&mut self.latest, endpoint_id);
        let ghost first = rows@;
        let ghost known = ids_for(before.point_meta, ep);
        let meta: &IdTable<PointMeta> = match self.point_meta.get(endpoint_id) {
            Some(m) => m,
            None => &none,
        };
        let mut i: usize = 0;
        while i < batch.values.len()
            invariant
                i <= batch.values.len(),
                ep == endpoint_id@,
                meta@ == known,
                rows@ == applied_rows(
                    first,
                    known,
                    ep,
                    batch.values@,
                    batch.timestamp_ns,
                    i as int,
                ),
            decreases batch.values.len() - i,
        {
            let p: &PointValue = &batch.values[i];
            let e: LatestEntry = make_entry(endpoint_id, meta, p, batch.timestamp_ns);
            rows.set(p.point_id as u64, e);
            i = i + 1;
        }
        let ghost v = rows@;
        self.latest.set(endpoint_id.to_owned(), rows);
        proof {
            lemma_applied_ok(first, known, ep, batch.values@, batch.timestamp_ns, i as int);
            assert(self@.latest =~= before.latest.insert(ep, v));
            assert(self@ =~= batch_applied(before, *batch, ep));
        }
    }

    /// Keeps how long it took to put a batch in.
    pub fn record_snapshot_apply_latency_ns(&mut self, ns: u64)
        requires
            snapshot_ok(old(self)@),
        ensures
            final(self)@ == (SnapshotV {
                snapshot_apply_latencies_ns: delay_kept(
                    old(self)@.snapshot_apply_latencies_ns,
                    ns,
                ),
                ..old(self)@
            }),
            snapshot_ok(final(self)@),
    {
        keep_delay(&mut self.snapshot_apply_latencies_ns, ns);
    }

    /// Keeps how long a batch was under way.
    pub fn record_ipc_latency_ns(&mut self, ns: u64)
        requires
            snapshot_ok(old(self)@),
        ensures
            final(self)@ == (SnapshotV {
                ipc_latencies_ns: delay_kept(old(self)@.ipc_latencies_ns, ns),
                ..old(self)@
            }),
            snapshot_ok(final(self)@),
    {
        keep_delay(&mut self.ipc_latencies_ns, ns);
    }

    pub fn record_latency_ns(&mut self, ns: u64)
        requires
            snapshot_ok(old(self)@),
        ensures
            final(self)@ == (SnapshotV {
                snapshot_apply_latencies_ns: delay_kept(
                    old(self)@.snapshot_apply_latencies_ns,
                    ns,
                ),
                ..old(self)@
            }),
            snapshot_ok(final(self)@),
    {
        self.record_snapshot_apply_latency_ns(ns)
    }

    pub fn envelopes_total(&self) -> (r: u64)
        ensures
            r == self@.envelopes_total,
    {
        self.envelopes_total
    }

    pub fn point_value_total(&self) -> (r: u64)
        ensures
            r == self@.point_value_total,
    {
        self.point_value_total
    }

    pub fn snapshot_apply_latencies_snapshot(&self) -> (r: Vec<u64>)
        ensures
            r@ == self@.snapshot_apply_latencies_ns,
    {
        copy_delays(&self.snapshot_apply_latencies_ns)
    }

    pub fn ipc_latencies_snapshot(&self) -> (r: Vec<u64>)
        ensures
            r@ == self@.ipc_latencies_ns,
    {
        copy_delays(&self.ipc_latencies_ns)
    }

    pub fn latencies_snapshot(&self) -> (r: Vec<u64>)
        ensures
            r@ == self@.snapshot_apply_latencies_ns,
    {
        self.snapshot_apply_latencies_snapshot()
    }

    /// Says that an endpoint is out of reach.
    pub fn mark_communication_lost(&mut self, endpoint_id: &str)
        requires
            snapshot_ok(old(self)@),
        ensures
            final(self)@ == communication_lost(old(self)@, endpoint_id@),
            snapshot_ok(final(self)@),
    {
        let ghost before = self@;
        let rows: IdTable<LatestEntry> = take_rows(&mut self.latest, endpoint_id);
        let new: IdTable<LatestEntry> = lose(&rows);
        let ghost v = new@;
        self.latest.set(endpoint_id.to_owned(), new);
        assert(self@.latest =~= before.latest.insert(endpoint_id@, v));
        assert(self@ =~= communication_lost(before, endpoint_id@));
    }

    pub fn remove_endpoint(&mut self, endpoint_id: &str)
        requires
            snapshot_ok(old(self)@),
        ensures
            final(self)@ == endpoint_removed(old(self)@, endpoint_id@),
            snapshot_ok(final(self)@),
    {
        let ghost before = self@;
        let _ = self.point_meta.remove(endpoint_id);
        let _ = self.latest.remove(endpoint_id);
        let _ = self.endpoints.remove(endpoint_id);
        assert(self@ =~= endpoint_removed(before, endpoint_id@));
    }

    /// Calls a point otherwise.
    pub fn update_display_name(&mut self, endpoint_id: &str, point_id: u32, name: Option<String>)
        requires
            snapshot_ok(old(self)@),
        ensures
            final(self)@ == point_named(
                old(self)@,
                endpoint_id@,
                point_id as u64,
                maybe_text(name),
            ),
            snapshot_ok(final(self)@),
    {
        let ghost before = self@;
        let id: u64 = point_id as u64;
        let mut meta: IdTable<PointMeta> = take_rows(&mut self.point_meta, endpoint_id);
        let ghost m0 = meta@;
        match meta.take(id) {
            Some(mut m) => {
                m.display_name = copy_text(&name);
                let ghost mv = m@;
                meta.set(id, m);
                assert(meta@ =~= m0.insert(id, mv));
            },
            None => {
                assert(meta@ =~= m0);
            },
        }
        let ghost mv = meta@;
        self.point_meta.set(endpoint_id.to_owned(), meta);
        let mut rows: IdTable<LatestEntry> = take_rows(&mut self.latest, endpoint_id);
        let ghost r0 = rows@;
        match rows.take(id) {
            Some(mut e) => {
                e.display_name = name;
                let ghost ev = e@;
                rows.set(id, e);
                assert(rows@ =~= r0.insert(id, ev));
            },
            None => {
                assert(rows@ =~= r0);
            },
        }
        let ghost rv = rows@;
        self.latest.set(endpoint_id.to_owned(), rows);
        proof {
            assert(self@.point_meta =~= before.point_meta.insert(endpoint_id@, mv));
            assert(self@.latest =~= before.latest.insert(endpoint_id@, rv));
            assert(self@ =~= point_named(before, endpoint_id@, id, maybe_text(name)));
        }
    }

    /// All entries, in the order of their endpoints and of their points.
    pub fn latest_all(&self) -> (r: Vec<LatestEntry>)
        ensures
            latest_view(r@) == all_entries(self@.latest),
    {
        let n: usize = self.latest.len();
        let ghost keys = self.latest.keys();
        let mut out: Vec<LatestEntry> = Vec::new();
        assert(latest_view(out@) =~= Seq::<LatestV>::empty());
        let mut i: usize = 0;
        while i < n
            invariant
                i <= n,
                n == keys.len(),
                keys == self.latest.keys(),
                latest_view(out@) == entries_upto(self.latest@, keys, i as int),
            decreases n - i,
        {
            let rows: &IdTable<LatestEntry> = self.latest.at(i);
            let m: usize = rows.len();
            let ghost ids = rows.ids();
            let ghost before = latest_view(out@);
            let ghost part = entries_of(rows@);
            let mut j: usize = 0;
            while j < m
                invariant
                    j <= m,
                    m == ids.len(),
                    ids == rows.ids(),
                    ids == ordered_ids(rows@),
                    part == entries_of(rows@),
                    latest_view(out@) == before + part.subrange(0, j as int),
                decreases m - j,
            {
                let e: LatestEntry = rows.at(j).copy();
                let ghost ev = e@;
                let ghost listed = latest_view(out@);
                out.push(e);
                proof {
                    assert(latest_view(out@) =~= listed.push(ev));
                    assert(part[j as int] == ev);
                    assert(part.subrange(0, j + 1) =~= part.subrange(0, j as int).push(ev));
                    assert(latest_view(out@) =~= before + part.subrange(0, j + 1));
                }
                j = j + 1;
            }
            assert(part.subrange(0, part.len() as int) =~= part);
            i = i + 1;
        }
        out
    }
}

impl Default for Snapshot {
    fn default() -> (r: Snapshot)
        ensures
            r@ == empty_snapshot(),
    {
        Snapshot::new()
    }
}

// ---------------------------------------------------------------------------
// Laws
// ---------------------------------------------------------------------------

/// Whether an entry comes before another: by their endpoints, and by their points.
pub open spec fn entry_before(a: LatestV, b: LatestV) -> bool {
    text_before(a.endpoint_id, b.endpoint_id) || (a.endpoint_id == b.endpoint_id && a.point_id
        < b.point_id)
}

proof fn lemma_entries_upto(s: SnapshotV, keys: Seq<Seq<char>>, n: int)
    requires
        snapshot_ok(s),
        ascending(keys),
        keys.to_set() == s.latest.dom(),
        0 <= n <= keys.len(),
    ensures
        forall|i: int, j: int|
            0 <= i < j < entries_upto(s.latest, keys, n).len() ==> entry_before(
                #[trigger] entries_upto(s.latest, keys, n)[i],
                #[trigger] entries_upto(s.latest, keys, n)[j],
            ),
        forall|i: int|
            0 <= i < entries_upto(s.latest, keys, n).len() ==> exists|p: int|
                0 <= p < n && #[trigger] keys[p] == (#[trigger] entries_upto(
                    s.latest,
                    keys,
                    n,
                )[i]).endpoint_id,
    decreases n,
{
    if n > 0 {
        lemma_entries_upto(s, keys, n - 1);
        let before = entries_upto(s.latest, keys, n - 1);
        let k = keys[n - 1];
        let rows = s.latest[k];
        let part = entries_of(rows);
        let all = entries_upto(s.latest, keys, n);
        assert(keys.contains(k));
        assert(keys.to_set().contains(k));
        crate::ids::lemma_rising_order_exists(rows);
        let ids = ordered_ids(rows);
        assert forall|i: int| 0 <= i < part.len() implies (#[trigger] part[i]).endpoint_id == k
            && part[i].point_id == ids[i] by {
            assert(ids.contains(ids[i]));
            assert(ids.to_set().contains(ids[i]));
            assert(rows.contains_key(ids[i]));
        }
        assert forall|i: int, j: int| 0 <= i < j < all.len() implies entry_before(
            #[trigger] all[i],
            #[trigger] all[j],
        ) by {
            if j < before.len() {
                assert(all[i] == before[i] && all[j] == before[j]);
            } else if i < before.len() {
                assert(all[i] == before[i] && all[j] == part[j - before.len()]);
                let p = choose|p: int| 0 <= p < n - 1 && #[trigger] keys[p] == before[i].endpoint_id;
                assert(text_before(keys[p], k));
            } else {
                assert(all[i] == part[i - before.len()] && all[j] == part[j - before.len()]);
                assert(ids[i - before.len()] < ids[j - before.len()]);
            }
        }
        assert forall|i: int| 0 <= i < all.len() implies exists|p: int|
            0 <= p < n && #[trigger] keys[p] == (#[trigger] all[i]).endpoint_id by {
            if i < before.len() {
                assert(all[i] == before[i]);
                let p = choose|p: int| 0 <= p < n - 1 && #[trigger] keys[p] == before[i].endpoint_id;
                assert(keys[p] == all[i].endpoint_id);
            } else {
                assert(all[i] == part[i - before.len()]);
                assert(keys[n - 1] == all[i].endpoint_id);
            }
        }
    }
}

/// All entries come in the order of their endpoints and of their points, each point once.
pub proof fn entries_are_in_order(s: SnapshotV)
    requires
        snapshot_ok(s),
    ensures
        forall|i: int, j: int|
            0 <= i < j < all_entries(s.latest).len() ==> entry_before(
                #[trigger] all_entries(s.latest)[i],
                #[trigger] all_entries(s.latest)[j],
            ),
{
    let keys = crate::table::lemma_order_exists(s.latest.dom());
    assert(crate::table::is_order(keys, s.latest));
    crate::table::lemma_order(keys, s.latest);
    lemma_entries_upto(s, keys, keys.len() as int);
}

/// An endpoint that is out of reach keeps every value with its type and its time. All of its
/// entries are bad, and none of them passes for a current one.
pub proof fn lost_values_are_kept(s: SnapshotV, endpoint: Seq<char>, id: u64)
    requires
        ids_for(s.latest, endpoint).contains_key(id),
    ensures
        ids_for(communication_lost(s, endpoint).latest, endpoint).contains_key(id),
        ({
            let before = ids_for(s.latest, endpoint)[id];
            let after = ids_for(communication_lost(s, endpoint).latest, endpoint)[id];
            &&& after.value == before.value
            &&& after.timestamp_ns == before.timestamp_ns
            &&& after.quality == "BAD"@
            &&& after.quality_code == Some("COMMUNICATION_LOST"@)
            &&& after.value_origin == "PLACEHOLDER"@ || after.value_origin == "LAST_KNOWN"@
            &&& after.value_origin == "PLACEHOLDER"@ <==> before.value_origin == "PLACEHOLDER"@
        }),
{
    reveal_strlit("PLACEHOLDER");
    reveal_strlit("LAST_KNOWN");
    assert("PLACEHOLDER"@[0] == 'P');
    assert("LAST_KNOWN"@[0] == 'L');
}

/// To lose an endpoint twice is to lose it once.
pub proof fn losing_can_be_repeated(s: SnapshotV, endpoint: Seq<char>)
    ensures
        communication_lost(communication_lost(s, endpoint), endpoint) == communication_lost(
            s,
            endpoint,
        ),
{
    reveal_strlit("PLACEHOLDER");
    reveal_strlit("LAST_KNOWN");
    assert("PLACEHOLDER"@[0] == 'P');
    assert("LAST_KNOWN"@[0] == 'L');
    let once = communication_lost(s, endpoint);
    let twice = communication_lost(once, endpoint);
    assert(twice.latest[endpoint] =~= once.latest[endpoint]);
    assert(twice.latest =~= once.latest);
}

/// What happens to an endpoint leaves the entries of the others as they are.
pub proof fn other_endpoints_are_left_alone(
    s: SnapshotV,
    endpoint: Seq<char>,
    other: Seq<char>,
    defs: Seq<PointDefinition>,
    batch: DataBatch,
    id: u64,
    name: Option<Seq<char>>,
)
    requires
        endpoint != other,
    ensures
        ids_for(points_registered(s, endpoint, defs).latest, other) == ids_for(s.latest, other),
        ids_for(batch_applied(s, batch, endpoint).latest, other) == ids_for(s.latest, other),
        ids_for(communication_lost(s, endpoint).latest, other) == ids_for(s.latest, other),
        ids_for(endpoint_removed(s, endpoint).latest, other) == ids_for(s.latest, other),
        ids_for(point_named(s, endpoint, id, name).latest, other) == ids_for(s.latest, other),
{
}

/// Once an endpoint has been told its points, it has entries of those points alone, called as
/// they are, with the values as they were.
pub proof fn registered_points_are_all_there_is(
    s: SnapshotV,
    endpoint: Seq<char>,
    defs: Seq<PointDefinition>,
    id: u64,
)
    ensures
        ids_for(points_registered(s, endpoint, defs).latest, endpoint).contains_key(id) ==> {
            let meta = meta_of(defs, defs.len() as int);
            let before = ids_for(s.latest, endpoint);
            let after = ids_for(points_registered(s, endpoint, defs).latest, endpoint)[id];
            &&& meta.contains_key(id)
            &&& before.contains_key(id)
            &&& after == renamed(before[id], meta[id])
            &&& after.value == before[id].value
        },
{
}

/// A placeholder has no time of its source.
pub proof fn placeholders_have_no_source_time(
    endpoint: Seq<char>,
    m: MetaV,
    p: PointValueV,
    timestamp_ns: i64,
)
    ensures
        entry_of(endpoint, m, p, timestamp_ns).value_origin == "PLACEHOLDER"@ ==> entry_of(
            endpoint,
            m,
            p,
            timestamp_ns,
        ).source_timestamp_ns is None,
{
    reveal_strlit("PLACEHOLDER");
    reveal_strlit("LAST_KNOWN");
    reveal_strlit("CURRENT");
    reveal_strlit("UNSPECIFIED");
    assert("PLACEHOLDER"@[0] == 'P');
    assert("LAST_KNOWN"@[0] == 'L');
    assert("CURRENT"@[0] == 'C');
    assert("UNSPECIFIED"@[0] == 'U');
}

/// A value is shown with the name of its type.
pub proof fn values_are_shown_with_their_type(v: ValueV)
    ensures
        typed_json(v).value == payload_value(v),
        v is Bool ==> typed_json(v).type_label == "bool"@,
        v is I32 ==> typed_json(v).type_label == "i32"@,
        v is U32 ==> typed_json(v).type_label == "u32"@,
        v is I64 ==> typed_json(v).type_label == "i64"@,
        v is U64 ==> typed_json(v).type_label == "u64"@,
        v is F32 ==> typed_json(v).type_label == "f32"@,
        v is F64 ==> typed_json(v).type_label == "f64"@,
        v is String ==> typed_json(v).type_label == "string"@,
        v is Bytes ==> typed_json(v).type_label == "bytes"@,
        v is DateTime ==> typed_json(v).type_label == "datetime_ns"@,
        v is BoolArray ==> typed_json(v).type_label == "bool[]"@,
        v is I32Array ==> typed_json(v).type_label == "i32[]"@,
        v is U32Array ==> typed_json(v).type_label == "u32[]"@,
        v is I64Array ==> typed_json(v).type_label == "i64[]"@,
        v is U64Array ==> typed_json(v).type_label == "u64[]"@,
        v is F32Array ==> typed_json(v).type_label == "f32[]"@,
        v is F64Array ==> typed_json(v).type_label == "f64[]"@,
        v is StringArray ==> typed_json(v).type_label == "string[]"@,
        v is DateTimeArray ==> typed_json(v).type_label == "datetime_ns[]"@,
{
}

proof fn lemma_applied_others(
    rows: Map<u64, LatestV>,
    meta: Map<u64, MetaV>,
    endpoint: Seq<char>,
    values: Seq<PointValue>,
    timestamp_ns: i64,
    from: int,
    n: int,
    id: u64,
)
    requires
        0 <= from <= n <= values.len(),
        forall|j: int| from <= j < n ==> (#[trigger] values[j]).point_id != id,
    ensures
        applied_rows(rows, meta, endpoint, values, timestamp_ns, n).contains_key(id)
            == applied_rows(rows, meta, endpoint, values, timestamp_ns, from).contains_key(id),
        applied_rows(rows, meta, endpoint, values, timestamp_ns, n)[id] == applied_rows(
            rows,
            meta,
            endpoint,
            values,
            timestamp_ns,
            from,
        )[id],
    decreases n - from,
{
    if from < n {
        lemma_applied_others(rows, meta, endpoint, values, timestamp_ns, from, n - 1, id);
        assert(values[n - 1].point_id != id);
    }
}

/// Of each point the last sample of a batch is shown from then on, whatever was shown before: its
/// value with the type, its quality, and the time of the batch. The point is called as it was said
/// to be.
pub proof fn the_last_sample_is_shown(s: SnapshotV, batch: DataBatch, endpoint: Seq<char>, i: int)
    requires
        0 <= i < batch.values@.len(),
        forall|j: int|
            i < j < batch.values@.len() ==> (#[trigger] batch.values@[j]).point_id
                != batch.values@[i].point_id,
    ensures
        ({
            let p = batch.values@[i];
            let id = p.point_id as u64;
            let latest = batch_applied(s, batch, endpoint).latest;
            let e = latest[endpoint][id];
            &&& latest.contains_key(endpoint)
            &&& latest[endpoint].contains_key(id)
            &&& e.endpoint_id == endpoint
            &&& e.point_id == p.point_id
            &&& e.timestamp_ns == batch.timestamp_ns
            &&& e.value.value == payload_value(p.value@)
            &&& e.value.type_label == json_type_name(p.value@)
            &&& e.quality == "GOOD"@ <==> p.quality is Good
            &&& e.quality == "UNCERTAIN"@ <==> p.quality is Uncertain
            &&& e.quality == "BAD"@ <==> p.quality is Bad
            &&& p.quality_code matches Some(c) ==> e.quality_code == Some(signed_decimal(c as int))
            &&& p.quality_code is None ==> e.quality_code == (if p.quality is Bad {
                Some("DEVICE_ERROR"@)
            } else {
                None
            })
            &&& e.value_origin == "UNSPECIFIED"@ <==> false
            &&& e.value_origin == "CURRENT"@ <==> p.value_origin is Current || (
            p.value_origin is Unspecified && p.quality is Good)
            &&& e.value_origin == "LAST_KNOWN"@ <==> p.value_origin is LastKnown
            &&& e.value_origin == "PLACEHOLDER"@ <==> p.value_origin is Placeholder || (
            p.value_origin is Unspecified && !(p.quality is Good))
            &&& e.source_timestamp_ns == (if e.value_origin == "PLACEHOLDER"@ {
                None
            } else {
                p.source_timestamp_ns
            })
            &&& e.key == e.point_key
            &&& s.point_meta.contains_key(endpoint) && s.point_meta[endpoint].contains_key(id) ==> {
                &&& e.point_key == s.point_meta[endpoint][id].point_key
                &&& e.source_label == s.point_meta[endpoint][id].source_label
                &&& e.display_name == s.point_meta[endpoint][id].display_name
            }
            &&& !(s.point_meta.contains_key(endpoint) && s.point_meta[endpoint].contains_key(id))
                ==> e.point_key.len() == 0 && e.source_label is None && e.display_name is None
        }),
{
    let p = batch.values@[i];
    let id = p.point_id as u64;
    let n = batch.values@.len() as int;
    lemma_applied_others(
        ids_for(s.latest, endpoint),
        ids_for(s.point_meta, endpoint),
        endpoint,
        batch.values@,
        batch.timestamp_ns,
        i + 1,
        n,
        id,
    );
    let o = normalized_origin(p.value_origin, p.quality);
    crate::types::qualities_have_their_names(p.quality);
    crate::types::origins_have_their_names(o);
    crate::types::normalization_settles(p.value_origin, p.quality);
    crate::types::unsaid_origins_follow_the_quality(p.quality);
}

/// What a batch says nothing of stays as it was: the entries of other points, what points are
/// called, the states of endpoints and the drivers. One more batch is counted, and each sample.
pub proof fn a_batch_changes_its_points_alone(
    s: SnapshotV,
    batch: DataBatch,
    endpoint: Seq<char>,
    id: u64,
)
    ensures
        ({
            let after = batch_applied(s, batch, endpoint);
            &&& after.drivers == s.drivers
            &&& after.endpoints == s.endpoints
            &&& after.point_meta == s.point_meta
            &&& after.ipc_latencies_ns == s.ipc_latencies_ns
            &&& after.snapshot_apply_latencies_ns == s.snapshot_apply_latencies_ns
            &&& s.envelopes_total < u64::MAX ==> after.envelopes_total == s.envelopes_total + 1
            &&& s.point_value_total + batch.values@.len() <= u64::MAX ==> after.point_value_total
                == s.point_value_total + batch.values@.len()
            &&& (forall|j: int|
                0 <= j < batch.values@.len() ==> (#[trigger] batch.values@[j]).point_id != id) ==> {
                &&& ids_for(after.latest, endpoint).contains_key(id) <==> ids_for(
                    s.latest,
                    endpoint,
                ).contains_key(id)
                &&& ids_for(after.latest, endpoint)[id] == ids_for(s.latest, endpoint)[id]
            }
        }),
{
    if forall|j: int| 0 <= j < batch.values@.len() ==> (#[trigger] batch.values@[j]).point_id != id {
        lemma_applied_others(
            ids_for(s.latest, endpoint),
            ids_for(s.point_meta, endpoint),
            endpoint,
            batch.values@,
            batch.timestamp_ns,
            0,
            batch.values@.len() as int,
            id,
        );
    }
}

proof fn lemma_listed_upto(s: SnapshotV, keys: Seq<Seq<char>>, n: int, p: int, id: u64)
    requires
        0 <= p < n <= keys.len(),
        s.latest[keys[p]].contains_key(id),
    ensures
        entries_upto(s.latest, keys, n).contains(s.latest[keys[p]][id]),
    decreases n,
{
    let before = entries_upto(s.latest, keys, n - 1);
    let rows = s.latest[keys[n - 1]];
    let part = entries_of(rows);
    let all = before + part;
    if p < n - 1 {
        lemma_listed_upto(s, keys, n - 1, p, id);
        let k = choose|k: int| 0 <= k < before.len() && before[k] == s.latest[keys[p]][id];
        assert(all[k] == s.latest[keys[p]][id]);
    } else {
        crate::ids::lemma_rising_order_exists(rows);
        let ids = ordered_ids(rows);
        assert(ids.to_set().contains(id));
        let k = choose|k: int| 0 <= k < ids.len() && ids[k] == id;
        assert(part[k] == rows[id]);
        assert(all[before.len() + k] == rows[id]);
    }
}

proof fn lemma_listed_from(s: SnapshotV, keys: Seq<Seq<char>>, n: int, i: int)
    requires
        0 <= n <= keys.len(),
        keys.to_set() == s.latest.dom(),
        0 <= i < entries_upto(s.latest, keys, n).len(),
    ensures
        exists|ep: Seq<char>, id: u64|
            s.latest.contains_key(ep) && #[trigger] s.latest[ep].contains_key(id)
                && s.latest[ep][id] == entries_upto(s.latest, keys, n)[i],
    decreases n,
{
    let before = entries_upto(s.latest, keys, n - 1);
    if i < before.len() {
        lemma_listed_from(s, keys, n - 1, i);
    } else {
        let k = keys[n - 1];
        let rows = s.latest[k];
        crate::ids::lemma_rising_order_exists(rows);
        let ids = ordered_ids(rows);
        let id = ids[i - before.len()];
        assert(ids.contains(id));
        assert(ids.to_set().contains(id));
        assert(keys.contains(k));
        assert(keys.to_set().contains(k));
        assert(s.latest[k].contains_key(id));
    }
}

/// Every entry is listed, and nothing else is.
pub proof fn all_entries_are_listed(s: SnapshotV, e: LatestV)
    requires
        snapshot_ok(s),
    ensures
        all_entries(s.latest).contains(e) <==> exists|ep: Seq<char>, id: u64|
            s.latest.contains_key(ep) && #[trigger] s.latest[ep].contains_key(id)
                && s.latest[ep][id] == e,
{
    let keys = crate::table::lemma_order_exists(s.latest.dom());
    assert(crate::table::is_order(keys, s.latest));
    crate::table::lemma_order(keys, s.latest);
    let n = keys.len() as int;
    let all = all_entries(s.latest);
    if all.contains(e) {
        let i = choose|i: int| 0 <= i < all.len() && all[i] == e;
        lemma_listed_from(s, keys, n, i);
    }
    if exists|ep: Seq<char>, id: u64|
        s.latest.contains_key(ep) && #[trigger] s.latest[ep].contains_key(id) && s.latest[ep][id]
            == e {
        let (ep, id) = choose|ep: Seq<char>, id: u64|
            s.latest.contains_key(ep) && #[trigger] s.latest[ep].contains_key(id)
                && s.latest[ep][id] == e;
        assert(keys.to_set().contains(ep));
        let p = choose|p: int| 0 <= p < keys.len() && keys[p] == ep;
        lemma_listed_upto(s, keys, n, p, id);
    }
}

/// An endpoint that is out of reach loses no entry and gets none, and all of an entry but how far
/// it can be relied on stays. A point that had a time of its source keeps it, unless its value is
/// a placeholder. Nothing else changes.
pub proof fn losing_changes_only_what_can_be_relied_on(s: SnapshotV, endpoint: Seq<char>, id: u64)
    ensures
        ({
            let after = communication_lost(s, endpoint);
            let b = ids_for(s.latest, endpoint);
            let a = ids_for(after.latest, endpoint);
            &&& after.drivers == s.drivers
            &&& after.endpoints == s.endpoints
            &&& after.point_meta == s.point_meta
            &&& after.envelopes_total == s.envelopes_total
            &&& after.point_value_total == s.point_value_total
            &&& a.contains_key(id) <==> b.contains_key(id)
            &&& b.contains_key(id) ==> {
                &&& a[id].endpoint_id == b[id].endpoint_id
                &&& a[id].point_id == b[id].point_id
                &&& a[id].point_key == b[id].point_key
                &&& a[id].key == b[id].key
                &&& a[id].source_label == b[id].source_label
                &&& a[id].display_name == b[id].display_name
                &&& a[id].value == b[id].value
                &&& a[id].timestamp_ns == b[id].timestamp_ns
                &&& a[id].quality == "BAD"@
                &&& a[id].quality_code == Some("COMMUNICATION_LOST"@)
                &&& a[id].value_origin == (if b[id].value_origin == "PLACEHOLDER"@ {
                    "PLACEHOLDER"@
                } else {
                    "LAST_KNOWN"@
                })
                &&& a[id].source_timestamp_ns == (if b[id].value_origin == "PLACEHOLDER"@ {
                    None
                } else {
                    b[id].source_timestamp_ns
                })
            }
        }),
{
}

proof fn lemma_meta_of(defs: Seq<PointDefinition>, n: int, id: u64)
    requires
        0 <= n <= defs.len(),
    ensures
        meta_of(defs, n).contains_key(id) <==> exists|i: int|
            0 <= i < n && (#[trigger] defs[i]).point_id == id,
    decreases n,
{
    if n > 0 {
        lemma_meta_of(defs, n - 1, id);
        if meta_of(defs, n).contains_key(id) {
            if defs[n - 1].point_id == id {
                assert(defs[n - 1].point_id == id);
            } else {
                let i = choose|i: int| 0 <= i < n - 1 && (#[trigger] defs[i]).point_id == id;
                assert(defs[i].point_id == id);
            }
        }
    }
}

proof fn lemma_meta_of_last(defs: Seq<PointDefinition>, n: int, i: int)
    requires
        0 <= i < n <= defs.len(),
        forall|j: int| i < j < n ==> (#[trigger] defs[j]).point_id != defs[i].point_id,
    ensures
        meta_of(defs, n).contains_key(defs[i].point_id as u64),
        meta_of(defs, n)[defs[i].point_id as u64].point_key == defs[i].point_key@,
        meta_of(defs, n)[defs[i].point_id as u64].source_label == maybe_text(defs[i].source_label),
        meta_of(defs, n)[defs[i].point_id as u64].display_name == maybe_text(defs[i].display_name),
    decreases n,
{
    if i < n - 1 {
        assert(defs[n - 1].point_id != defs[i].point_id);
        lemma_meta_of_last(defs, n - 1, i);
    }
}

/// Once an endpoint was told its points, it has just the entries that it had of them, each with
/// its value, quality and time as before. A point is called as the last word on it says, also in
/// the entries to come. Nothing else changes.
pub proof fn points_are_called_as_they_were_told(
    s: SnapshotV,
    endpoint: Seq<char>,
    defs: Seq<PointDefinition>,
    i: int,
    id: u64,
)
    requires
        0 <= i < defs.len(),
        forall|j: int| i < j < defs.len() ==> (#[trigger] defs[j]).point_id != defs[i].point_id,
    ensures
        ({
            let after = points_registered(s, endpoint, defs);
            let b = ids_for(s.latest, endpoint);
            let a = ids_for(after.latest, endpoint);
            let own = defs[i].point_id as u64;
            let meta = after.point_meta[endpoint];
            &&& after.drivers == s.drivers
            &&& after.endpoints == s.endpoints
            &&& after.envelopes_total == s.envelopes_total
            &&& after.point_value_total == s.point_value_total
            &&& after.point_meta.contains_key(endpoint)
            &&& meta.contains_key(id) <==> exists|j: int|
                0 <= j < defs.len() && (#[trigger] defs[j]).point_id == id
            &&& meta[own].point_key == defs[i].point_key@
            &&& meta[own].source_label == maybe_text(defs[i].source_label)
            &&& meta[own].display_name == maybe_text(defs[i].display_name)
            &&& a.contains_key(id) <==> b.contains_key(id) && exists|j: int|
                0 <= j < defs.len() && (#[trigger] defs[j]).point_id == id
            &&& a.contains_key(own) ==> {
                &&& a[own].point_key == defs[i].point_key@
                &&& a[own].key == defs[i].point_key@
                &&& a[own].source_label == maybe_text(defs[i].source_label)
                &&& a[own].display_name == maybe_text(defs[i].display_name)
                &&& a[own].endpoint_id == b[own].endpoint_id
                &&& a[own].point_id == b[own].point_id
                &&& a[own].value == b[own].value
                &&& a[own].quality == b[own].quality
                &&& a[own].quality_code == b[own].quality_code
                &&& a[own].timestamp_ns == b[own].timestamp_ns
                &&& a[own].value_origin == b[own].value_origin
                &&& a[own].source_timestamp_ns == b[own].source_timestamp_ns
            }
        }),
{
    lemma_meta_of(defs, defs.len() as int, id);
    lemma_meta_of_last(defs, defs.len() as int, i);
}

/// A point that is called otherwise is shown so at once and from then on, and nothing but its name
/// changes; other points are called as before.
pub proof fn a_new_name_is_shown(
    s: SnapshotV,
    endpoint: Seq<char>,
    id: u64,
    name: Option<Seq<char>>,
    other: u64,
)
    ensures
        ({
            let after = point_named(s, endpoint, id, name);
            let b = ids_for(s.latest, endpoint);
            let a = ids_for(after.latest, endpoint);
            let mb = ids_for(s.point_meta, endpoint);
            let ma = ids_for(after.point_meta, endpoint);
            &&& a.dom() == b.dom()
            &&& ma.dom() == mb.dom()
            &&& b.contains_key(id) ==> a[id].display_name == name && a[id] == (LatestV {
                display_name: a[id].display_name,
                ..b[id]
            })
            &&& mb.contains_key(id) ==> ma[id].display_name == name && ma[id].point_key
                == mb[id].point_key && ma[id].source_label == mb[id].source_label
            &&& other != id && b.contains_key(other) ==> a[other] == b[other]
            &&& other != id && mb.contains_key(other) ==> ma[other] == mb[other]
        }),
{
    let after = point_named(s, endpoint, id, name);
    assert(ids_for(after.latest, endpoint).dom() =~= ids_for(s.latest, endpoint).dom());
    assert(ids_for(after.point_meta, endpoint).dom() =~= ids_for(s.point_meta, endpoint).dom());
}

/// An endpoint that was taken out has neither a state nor entries nor names of points; those of the
/// others are there as before.
pub proof fn nothing_is_left_of_an_endpoint(s: SnapshotV, endpoint: Seq<char>, other: Seq<char>)
    ensures
        ({
            let after = endpoint_removed(s, endpoint);
            &&& !after.endpoints.contains_key(endpoint)
            &&& !after.latest.contains_key(endpoint)
            &&& !after.point_meta.contains_key(endpoint)
            &&& after.drivers == s.drivers
            &&& other != endpoint ==> {
                &&& after.endpoints.contains_key(other) <==> s.endpoints.contains_key(other)
                &&& after.endpoints[other] == s.endpoints[other]
                &&& after.latest.contains_key(other) <==> s.latest.contains_key(other)
                &&& after.latest[other] == s.latest[other]
                &&& after.point_meta.contains_key(other) <==> s.point_meta.contains_key(other)
                &&& after.point_meta[other] == s.point_meta[other]
            }
        }),
{
}

/// A delay is kept as the last one. All others stay in order, but for the earliest, which goes only
/// where there is no room for one more.
pub proof fn the_latest_delays_are_kept(list: Seq<u64>, ns: u64, i: int)
    requires
        list.len() <= LATENCY_CAPACITY,
    ensures
        delay_kept(list, ns).last() == ns,
        delay_kept(list, ns).len() == (if list.len() < LATENCY_CAPACITY {
            list.len() + 1
        } else {
            list.len()
        }),
        list.len() < LATENCY_CAPACITY && 0 <= i < list.len() ==> delay_kept(list, ns)[i] == list[i],
        list.len() == LATENCY_CAPACITY && 0 < i < list.len() ==> delay_kept(list, ns)[i - 1]
            == list[i],
{
}

/// What is listed of an entry is found under the names of its fields; what is not known of it is
/// left out.
pub proof fn entries_are_shown_field_by_field(e: LatestV)
    ensures
        latest_value(e) matches JsonV::Object(o) && {
            &&& object_get(o, "endpoint_id"@) == Some(JsonV::String(e.endpoint_id))
            &&& object_get(o, "key"@) == Some(JsonV::String(e.key))
            &&& object_get(o, "point_id"@) == Some(count_value(e.point_id as u64))
            &&& object_get(o, "point_key"@) == Some(JsonV::String(e.point_key))
            &&& object_get(o, "quality"@) == Some(JsonV::String(e.quality))
            &&& object_get(o, "timestamp_ns"@) == Some(integer_value(e.timestamp_ns))
            &&& object_get(o, "type"@) == Some(JsonV::String(e.value.type_label))
            &&& object_get(o, "value"@) == Some(e.value.value)
            &&& object_get(o, "value_origin"@) == Some(JsonV::String(e.value_origin))
            &&& object_get(o, "display_name"@) == (match e.display_name {
                Some(x) => Some(JsonV::String(x)),
                None => None,
            })
            &&& object_get(o, "quality_code"@) == (match e.quality_code {
                Some(x) => Some(JsonV::String(x)),
                None => None,
            })
            &&& object_get(o, "source_label"@) == (match e.source_label {
                Some(x) => Some(JsonV::String(x)),
                None => None,
            })
            &&& object_get(o, "source_timestamp_ns"@) == (match e.source_timestamp_ns {
                Some(x) => Some(integer_value(x)),
                None => None,
            })
        },
{
    let a = some_text("display_name"@, e.display_name);
    let b = seq![
        ("endpoint_id"@, JsonV::String(e.endpoint_id)),
        ("key"@, JsonV::String(e.key)),
        ("point_id"@, count_value(e.point_id as u64)),
        ("point_key"@, JsonV::String(e.point_key)),
        ("quality"@, JsonV::String(e.quality)),
    ];
    let c = some_text("quality_code"@, e.quality_code);
    let d = some_text("source_label"@, e.source_label);
    let f = some_integer("source_timestamp_ns"@, e.source_timestamp_ns);
    let g = seq![
        ("timestamp_ns"@, integer_value(e.timestamp_ns)),
        ("type"@, JsonV::String(e.value.type_label)),
        ("value"@, e.value.value),
        ("value_origin"@, JsonV::String(e.value_origin)),
    ];
    let o = a + b + c + d + f + g;
    reveal_strlit("display_name");
    reveal_strlit("endpoint_id");
    reveal_strlit("key");
    reveal_strlit("point_id");
    reveal_strlit("point_key");
    reveal_strlit("quality");
    reveal_strlit("quality_code");
    reveal_strlit("source_label");
    reveal_strlit("source_timestamp_ns");
    reveal_strlit("timestamp_ns");
    reveal_strlit("type");
    reveal_strlit("value");
    reveal_strlit("value_origin");
    assert("display_name"@.len() == 12 && "display_name"@[0] == 'd');
    assert("endpoint_id"@.len() == 11);
    assert("key"@.len() == 3);
    assert("point_id"@.len() == 8);
    assert("point_key"@.len() == 9);
    assert("quality"@.len() == 7);
    assert("quality_code"@.len() == 12 && "quality_code"@[0] == 'q');
    assert("source_label"@.len() == 12 && "source_label"@[0] == 's');
    assert("source_timestamp_ns"@.len() == 19);
    assert("timestamp_ns"@.len() == 12 && "timestamp_ns"@[0] == 't');
    assert("type"@.len() == 4);
    assert("value"@.len() == 5);
    assert("value_origin"@.len() == 12 && "value_origin"@[0] == 'v');
    assert(latest_value(e)->Object_0 =~= o);
    let na = a.len() as int;
    let nb = na + 5;
    let nc = nb + c.len();
    let nd = nc + d.len();
    let nf = nd + f.len();
    assert forall|i: int, j: int| 0 <= i < j < o.len() implies (#[trigger] o[i]).0 != (
    #[trigger] o[j]).0 by {}
    assert(o[na] == b[0] && o[na + 1] == b[1] && o[na + 2] == b[2] && o[na + 3] == b[3] && o[na + 4]
        == b[4]);
    assert(o[nf] == g[0] && o[nf + 1] == g[1] && o[nf + 2] == g[2] && o[nf + 3] == g[3]);
    object_get_of_distinct(o, na);
    object_get_of_distinct(o, na + 1);
    object_get_of_distinct(o, na + 2);
    object_get_of_distinct(o, na + 3);
    object_get_of_distinct(o, na + 4);
    object_get_of_distinct(o, nf);
    object_get_of_distinct(o, nf + 1);
    object_get_of_distinct(o, nf + 2);
    object_get_of_distinct(o, nf + 3);
    if e.display_name is Some {
        assert(o[0] == a[0]);
        object_get_of_distinct(o, 0);
    } else {
        object_get_of_none(o, "display_name"@);
    }
    if e.quality_code is Some {
        assert(o[nb] == c[0]);
        object_get_of_distinct(o, nb);
    } else {
        object_get_of_none(o, "quality_code"@);
    }
    if e.source_label is Some {
        assert(o[nc] == d[0]);
        object_get_of_distinct(o, nc);
    } else {
        object_get_of_none(o, "source_label"@);
    }
    if e.source_timestamp_ns is Some {
        assert(o[nd] == f[0]);
        object_get_of_distinct(o, nd);
    } else {
        object_get_of_none(o, "source_timestamp_ns"@);
    }
}

/// A driver and the state of an endpoint are listed field by field.
pub proof fn rows_are_shown_field_by_field(d: DriverInfoV, s: StatusV)
    ensures
        driver_value(d) matches JsonV::Object(o) && o.len() == 6 && {
            &&& o[0] == ("id"@, JsonV::String(d.id))
            &&& o[1] == ("launchable"@, JsonV::Bool(d.launchable))
            &&& o[2] == ("name"@, JsonV::String(d.name))
            &&& o[3] == ("protocol"@, JsonV::String(d.protocol))
            &&& o[4].0 == "reason"@
            &&& d.reason matches Some(x) ==> o[4].1 == JsonV::String(x)
            &&& d.reason is None ==> o[4].1 is Null
            &&& o[5] == ("version"@, JsonV::String(d.version))
        },
        status_value(s) == JsonV::Object(
            seq![
                ("detail"@, JsonV::String(s.detail)),
                ("driver_id"@, JsonV::String(s.driver_id)),
                ("endpoint_id"@, JsonV::String(s.endpoint_id)),
                ("epoch"@, count_value(s.epoch)),
                ("points"@, count_value(s.points as u64)),
                ("revision"@, count_value(s.revision)),
                ("state"@, JsonV::String(s.state)),
            ],
        ),
{
}

/// How many delays are kept.
pub proof fn snapshots_keep_to_this_limit()
    ensures
        LATENCY_CAPACITY == 4096,
{
}

} // verus!
