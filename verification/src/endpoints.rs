//! Requests for endpoints.
use vstd::prelude::*;

use crate::api::{
    complain, empty_object, error_reply, integer_json, integer_value, list_json, object1, object2,
    object7, reply, store_err_to_response, store_reply, text_json, truth_json, validity,
    validity_reply, ApiResponse, ReplyV,
};
use crate::connection::{
    a_changed_connection_is_plain, a_split_connection_is_plain, change_issues, change_of,
    changed_connection_issues, changed_secrets_are_of_different_fields,
    changed_secrets_are_put_back, filled, materialize_connection, materialized,
    redact_connection_for_response, redacted, redacted_value, secret_field_keys, secret_keys,
    secrets_are_of_different_fields, secrets_are_put_back, secrets_changed, secrets_read,
    split_changed_secrets, split_new, split_new_secrets, validate_connection_against_schema,
    ChangeV, ConnectionChange,
};
use crate::descriptor::DriverDescriptor;
use crate::endpoint::BuiltinEndpoint;
use crate::event::EventTask;
use crate::gate::{gate, gate_data_tasks};
use crate::json::{
    entries_view, items_view, json_parsed, json_text, json_view, lemma_json_view, plain, Json,
    JsonV,
};
use crate::manager::{DescriptorError, DescriptorFault};
use crate::protocol::tasks_view;
use crate::resource::GenericBinding;
use crate::schema::{instance_issues, maybe_text, SchemaDescriptor, ValidationIssue};
use crate::snapshot::{endpoint_removed, snapshot_ok, status_value, Snapshot, SnapshotV, StatusV};
use crate::store::{
    all_sealed, changed_secrets_read_back, desire_set, different_fields, draws_for, endpoint_added,
    endpoint_changed, endpoint_created_drawn, endpoint_deleted, endpoint_refused,
    endpoint_updated_drawn, event_tasks_view, new_secrets_read_back, pairs_view, rows_for,
    secret_read, store_ok, unsealed, update_refused, ConfigStore, EndpointRecord, EndpointV,
    SealedV, StoreError, StoreFault, StoreV,
};
use crate::table::ordered_keys;
use crate::tasks::{event_tasks_of, tasks_of};
use crate::text::{cat3, contains_text, same_text, text_contains, texts_view};
use crate::types::{AcquisitionTask, TaskV};

verus! {

// ---------------------------------------------------------------------------
// What is common
// ---------------------------------------------------------------------------

/// The complaint that there is no such endpoint.
pub open spec fn no_endpoint_reply(id: Seq<char>) -> ReplyV {
    error_reply(404, "NOT_FOUND"@, "endpoint `"@ + id + "`"@)
}

fn no_endpoint(id: &str) -> (r: ApiResponse)
    ensures
        r@ == no_endpoint_reply(id@),
{
    complain(404, "NOT_FOUND", cat3("endpoint `", id, "`").as_str())
}

/// The complaint that a driver does not tell what it can do.
pub open spec fn undescribed_reply(e: DescriptorFault) -> ReplyV {
    error_reply(503, e.code, e.message)
}

pub(crate) fn undescribed(e: &DescriptorError) -> (r: ApiResponse)
    ensures
        r@ == undescribed_reply(e@),
{
    complain(503, e.code.as_str(), e.message.as_str())
}

/// The keys of the secrets of a connection, as far as they are known.
pub open spec fn keys_known(d: Result<SchemaDescriptor, DescriptorError>) -> Option<Seq<Seq<char>>> {
    match d {
        Ok(s) => Some(secret_keys(s.fields@)),
        Err(e) => None,
    }
}

/// The complaint that a connection is no object.
pub open spec fn no_object_reply() -> ReplyV {
    error_reply(400, "VALIDATION_ERROR"@, "connection 必须为 JSON 对象"@)
}

pub(crate) fn no_object() -> (r: ApiResponse)
    ensures
        r@ == no_object_reply(),
{
    complain(400, "VALIDATION_ERROR", "connection 必须为 JSON 对象")
}

// ---------------------------------------------------------------------------
// Showing endpoints
// ---------------------------------------------------------------------------

/// The connection that a text says: an empty one where it says none.
pub open spec fn connection_said(text: Seq<char>) -> JsonV {
    match json_parsed(text) {
        Ok(v) => v,
        Err(e) => JsonV::Object(Seq::empty()),
    }
}

/// Whether a text stands somewhere in an object.
pub open spec fn holds_text(v: JsonV) -> bool {
    v matches JsonV::Object(o) && exists|i: int| 0 <= i < o.len() && (#[trigger] o[i]).1 is String
}

/// A connection as it is shown. Where the keys of its secrets are not known, those that are kept
/// are hidden; and where none is kept, nothing is shown that may be one.
pub open spec fn shown_connection(s: StoreV, rec: EndpointV, keys: Option<Seq<Seq<char>>>) -> JsonV {
    let conn = connection_said(rec.connection_json);
    match keys {
        Some(ks) => redacted_value(s, rec.id, conn, ks),
        None => {
            let kept = ordered_keys(rows_for(s.secrets, rec.id));
            if kept.len() > 0 {
                redacted_value(s, rec.id, conn, kept)
            } else if holds_text(conn) {
                JsonV::Null
            } else {
                conn
            }
        },
    }
}

/// Where the keys of the secrets of a connection are not known and no secret is kept, no text of
/// it is shown.
pub proof fn no_text_of_an_unknown_connection_is_shown(s: StoreV, rec: EndpointV)
    requires
        ordered_keys(rows_for(s.secrets, rec.id)).len() == 0,
    ensures
        !holds_text(shown_connection(s, rec, None)),
{
}

/// How an endpoint that may not run is doing, as a value.
pub open spec fn runtime_value(s: Option<StatusV>) -> JsonV {
    match s {
        Some(x) => status_value(x),
        None => JsonV::Null,
    }
}

/// How an endpoint is doing, if it runs.
pub open spec fn runtime_of(snap: SnapshotV, id: Seq<char>) -> Option<StatusV> {
    if snap.endpoints.contains_key(id) {
        Some(snap.endpoints[id])
    } else {
        None
    }
}

/// An endpoint as it is shown.
pub open spec fn endpoint_value(
    s: StoreV,
    snap: SnapshotV,
    rec: EndpointV,
    keys: Option<Seq<Seq<char>>>,
) -> JsonV {
    JsonV::Object(
        seq![
            ("connection"@, shown_connection(s, rec, keys)),
            ("desired_running"@, JsonV::Bool(rec.desired_running)),
            ("device_id"@, JsonV::String(rec.device_id)),
            ("driver_id"@, JsonV::String(rec.driver_id)),
            ("id"@, JsonV::String(rec.id)),
            ("runtime"@, runtime_value(runtime_of(snap, rec.id))),
            ("updated_at_ns"@, integer_value(rec.updated_at_ns)),
        ],
    )
}

fn has_text(v: &Json) -> (r: bool)
    ensures
        r == holds_text(v@),
{
    broadcast use lemma_json_view;

    match v {
        Json::Object(o) => {
            let ghost all = entries_view(o@);
            assert(json_view(*v) == JsonV::Object(all));
            let mut i: usize = 0;
            while i < o.len()
                invariant
                    i <= o.len(),
                    all == entries_view(o@),
                    v@ == JsonV::Object(all),
                    forall|j: int| 0 <= j < i ==> !((#[trigger] all[j]).1 is String),
                decreases o.len() - i,
            {
                assert(all[i as int].1 == o@[i as int].1@);
                match &o[i].1 {
                    Json::String(_) => {
                        return true;
                    },
                    _ => {},
                }
                i = i + 1;
            }
            false
        },
        _ => false,
    }
}

fn show_connection(store: &ConfigStore, rec: &EndpointRecord, keys: &Option<Vec<String>>) -> (r: Json)
    requires
        store_ok(store@),
    ensures
        r@ == shown_connection(
            store@,
            rec@,
            match *keys {
                Some(k) => Some(texts_view(k@)),
                None => None,
            },
        ),
{
    broadcast use lemma_json_view;

    let conn: Json = match Json::parse(rec.connection_json.as_str()) {
        Ok(v) => v,
        Err(_) => empty_object(),
    };
    match keys {
        Some(k) => redact_connection_for_response(conn, rec.id.as_str(), store, k),
        None => {
            let kept: Vec<String> = store.list_secret_fields(rec.id.as_str());
            if kept.len() > 0 {
                redact_connection_for_response(conn, rec.id.as_str(), store, &kept)
            } else if has_text(&conn) {
                Json::Null
            } else {
                conn
            }
        },
    }
}

pub fn show_endpoint(
    store: &ConfigStore,
    snapshot: &Snapshot,
    rec: &EndpointRecord,
    keys: &Option<Vec<String>>,
) -> (r: Json)
    requires
        store_ok(store@),
    ensures
        r@ == endpoint_value(
            store@,
            snapshot@,
            rec@,
            match *keys {
                Some(k) => Some(texts_view(k@)),
                None => None,
            },
        ),
{
    broadcast use lemma_json_view;

    let runtime: Json = match snapshot.endpoint(rec.id.as_str()) {
        Some(s) => s.to_json(),
        None => Json::Null,
    };
    object7(
        "connection",
        show_connection(store, rec, keys),
        "desired_running",
        truth_json(rec.desired_running),
        "device_id",
        text_json(rec.device_id.as_str()),
        "driver_id",
        text_json(rec.driver_id.as_str()),
        "id",
        text_json(rec.id.as_str()),
        "runtime",
        runtime,
        "updated_at_ns",
        integer_json(rec.updated_at_ns),
    )
}

/// The keys of the secrets of a connection, if its driver tells what it can do.
pub fn keys_of(descriptor: &Result<SchemaDescriptor, DescriptorError>) -> (r: Option<Vec<String>>)
    ensures
        (match r {
            Some(k) => Some(texts_view(k@)),
            None => None,
        }) == keys_known(*descriptor),
{
    match descriptor {
        Ok(s) => Some(secret_field_keys(s)),
        Err(_) => None,
    }
}

/// The answer to a request for an endpoint.
pub open spec fn endpoint_reply(
    s: StoreV,
    snap: SnapshotV,
    id: Seq<char>,
    keys: Option<Seq<Seq<char>>>,
) -> ReplyV {
    if s.endpoints.contains_key(id) {
        ReplyV { status: 200, body: endpoint_value(s, snap, s.endpoints[id], keys) }
    } else {
        no_endpoint_reply(id)
    }
}

pub fn get_endpoint(
    store: &ConfigStore,
    snapshot: &Snapshot,
    id: &str,
    descriptor: &Result<SchemaDescriptor, DescriptorError>,
) -> (r: ApiResponse)
    requires
        store_ok(store@),
    ensures
        r@ == endpoint_reply(store@, snapshot@, id@, keys_known(*descriptor)),
{
    match store.get_endpoint(id) {
        Some(rec) => {
            let keys: Option<Vec<String>> = keys_of(descriptor);
            reply(200, show_endpoint(store, snapshot, &rec, &keys))
        },
        None => no_endpoint(id),
    }
}

/// The endpoints as they are shown, in the order of their ids. `keys` says of each driver which
/// secrets its connections have, as far as it is known.
pub open spec fn endpoints_value(
    s: StoreV,
    snap: SnapshotV,
    keys: spec_fn(Seq<char>) -> Option<Seq<Seq<char>>>,
) -> JsonV {
    JsonV::Object(
        seq![
            (
                "endpoints"@,
                JsonV::Array(
                    ordered_keys(s.endpoints).map_values(
                        |id: Seq<char>|
                            endpoint_value(
                                s,
                                snap,
                                s.endpoints[id],
                                keys(s.endpoints[id].driver_id),
                            ),
                    ),
                ),
            ),
        ],
    )
}

/// What is known of the secrets of the connections of a driver, by a list of drivers: the first
/// entry counts, and nothing is known of a driver that is not listed.
pub open spec fn listed_keys(known: Seq<(String, Option<Vec<String>>)>, driver: Seq<char>, n: int) -> Option<
    Seq<Seq<char>>,
>
    decreases n,
{
    if n <= 0 {
        None
    } else if known[known.len() - n].0@ == driver {
        match known[known.len() - n].1 {
            Some(k) => Some(texts_view(k@)),
            None => None,
        }
    } else {
        listed_keys(known, driver, n - 1)
    }
}

/// What a list says of the secrets of the connections of drivers.
pub open spec fn keys_by(known: Seq<(String, Option<Vec<String>>)>) -> spec_fn(Seq<char>) -> Option<
    Seq<Seq<char>>,
> {
    |driver: Seq<char>| listed_keys(known, driver, known.len() as int)
}

fn find_keys(known: &Vec<(String, Option<Vec<String>>)>, driver: &str) -> (r: Option<Vec<String>>)
    ensures
        (match r {
            Some(k) => Some(texts_view(k@)),
            None => None,
        }) == listed_keys(known@, driver@, known@.len() as int),
{
    let mut i: usize = 0;
    while i < known.len()
        invariant
            i <= known.len(),
            listed_keys(known@, driver@, known@.len() as int) == listed_keys(
                known@,
                driver@,
                known@.len() - i,
            ),
        decreases known.len() - i,
    {
        if same_text(known[i].0.as_str(), driver) {
            return match &known[i].1 {
                Some(k) => Some(crate::types::copy_texts(k)),
                None => None,
            };
        }
        i = i + 1;
    }
    None
}

pub fn list_endpoints(
    store: &ConfigStore,
    snapshot: &Snapshot,
    known: &Vec<(String, Option<Vec<String>>)>,
) -> (r: ApiResponse)
    requires
        store_ok(store@),
    ensures
        r@ == (ReplyV { status: 200, body: endpoints_value(store@, snapshot@, keys_by(known@)) }),
{
    let list: Vec<EndpointRecord> = store.list_endpoints();
    let ghost ids = list@.map_values(|e: EndpointRecord| e.id@);
    let ghost keys = keys_by(known@);
    proof {
        crate::table::lemma_order(ids, store@.endpoints);
    }
    let mut items: Vec<Json> = Vec::new();
    let mut i: usize = 0;
    while i < list.len()
        invariant
            i <= list.len(),
            store_ok(store@),
            keys == keys_by(known@),
            items@.len() == i,
            forall|j: int|
                0 <= j < i ==> (#[trigger] items@[j])@ == endpoint_value(
                    store@,
                    snapshot@,
                    list@[j]@,
                    keys(list@[j]@.driver_id),
                ),
        decreases list.len() - i,
    {
        let k: Option<Vec<String>> = find_keys(known, list[i].driver_id.as_str());
        items.push(show_endpoint(store, snapshot, &list[i], &k));
        i = i + 1;
    }
    proof {
        let want = ordered_keys(store@.endpoints).map_values(
            |id: Seq<char>|
                endpoint_value(
                    store@,
                    snapshot@,
                    store@.endpoints[id],
                    keys(store@.endpoints[id].driver_id),
                ),
        );
        assert forall|j: int| 0 <= j < items@.len() implies items_view(items@)[j] == want[j] by {
            assert(ids[j] == list@[j].id@);
        }
        assert(items_view(items@) =~= want);
    }
    reply(200, object1("endpoints", list_json(items)))
}

// ---------------------------------------------------------------------------
// Creating
// ---------------------------------------------------------------------------

/// A request to create an endpoint.
#[derive(Debug, PartialEq)]
pub struct CreateEndpointReq {
    pub id: String,
    pub name: String,
    pub device_id: String,
    pub driver_id: String,
    pub connection: Json,
}

/// The endpoint and the secrets that a request to create one comes to.
pub open spec fn planned_creation(
    req: CreateEndpointReq,
    descriptor: Result<SchemaDescriptor, DescriptorError>,
    now: i64,
) -> Result<(EndpointV, Seq<(Seq<char>, Seq<char>)>), ReplyV> {
    match req.connection@ {
        JsonV::Object(o) => match descriptor {
            Err(e) => Err(undescribed_reply(e@)),
            Ok(d) => {
                let keys = secret_keys(d.fields@);
                let issues = instance_issues(d.fields@, "connection"@, req.connection@);
                match split_new(o, keys, keys.len() as int) {
                    Err(e) => Err(e),
                    Ok(split) => if issues.len() > 0 {
                        Err(validity_reply(issues))
                    } else {
                        Ok(
                            (
                                EndpointV {
                                    id: req.id@,
                                    name: req.name@,
                                    device_id: req.device_id@,
                                    driver_id: req.driver_id@,
                                    connection_json: json_text(JsonV::Object(split.entries)),
                                    desired_running: false,
                                    updated_at_ns: now,
                                },
                                split.secrets,
                            ),
                        )
                    },
                }
            },
        },
        _ => Err(no_object_reply()),
    }
}

/// Whether an endpoint was created with its secrets, or was not, and how that was answered.
pub open spec fn creation_went(
    before: StoreV,
    after: StoreV,
    rec: EndpointV,
    secrets: Seq<(Seq<char>, Seq<char>)>,
    r: ReplyV,
) -> bool {
    ||| {
        &&& r == created_reply(rec.id)
        &&& endpoint_refused(before, rec) is None
        &&& exists|xs: Seq<SealedV>, now: i64|
            all_sealed(xs, secrets, before.master_key) && after == #[trigger] endpoint_added(
                before,
                rec,
                xs,
                now,
            )
    }
    ||| {
        &&& after == before
        &&& exists|f: StoreFault| #[trigger]
            store_reply(f) == r && (endpoint_refused(before, rec) == Some(f) || exists|
                drawn: Seq<Result<Vec<u8>, String>>,
            | #[trigger]
                unsealed(secrets, before.master_key, drawn) == Some(f))
    }
}

fn plan_creation(
    req: CreateEndpointReq,
    descriptor: &Result<SchemaDescriptor, DescriptorError>,
    now: i64,
) -> (r: Result<(EndpointRecord, Vec<(String, String)>), ApiResponse>)
    ensures
        match r {
            Ok(x) => planned_creation(req, *descriptor, now) == Ok::<
                (EndpointV, Seq<(Seq<char>, Seq<char>)>),
                ReplyV,
            >((x.0@, pairs_view(x.1@))),
            Err(e) => planned_creation(req, *descriptor, now) == Err::<
                (EndpointV, Seq<(Seq<char>, Seq<char>)>),
                ReplyV,
            >(e@),
        },
{
    broadcast use lemma_json_view;

    if !req.connection.is_object() {
        return Err(no_object());
    }
    let schema: &SchemaDescriptor = match descriptor {
        Ok(d) => d,
        Err(e) => {
            return Err(undescribed(e));
        },
    };
    let keys: Vec<String> = secret_field_keys(schema);
    let issues: Vec<ValidationIssue> = validate_connection_against_schema(
        schema,
        &req.connection,
    );
    let entries: Vec<(String, Json)> = match req.connection {
        Json::Object(o) => o,
        _ => {
            return Err(no_object());
        },
    };
    let (entries, secrets) = match split_new_secrets(entries, &keys) {
        Ok(x) => x,
        Err(e) => {
            return Err(e);
        },
    };
    if issues.len() > 0 {
        return Err(validity(&issues));
    }
    let rec: EndpointRecord = EndpointRecord {
        id: req.id,
        name: req.name,
        device_id: req.device_id,
        driver_id: req.driver_id,
        connection_json: Json::Object(entries).to_text(),
        desired_running: false,
        updated_at_ns: now,
    };
    Ok((rec, secrets))
}

/// The answer to a request by which an endpoint was created.
pub open spec fn created_reply(id: Seq<char>) -> ReplyV {
    ReplyV { status: 201, body: JsonV::Object(seq![("id"@, JsonV::String(id))]) }
}

fn creation_answer(id: &str, outcome: Result<(), StoreError>) -> (r: ApiResponse)
    ensures
        match outcome {
            Ok(()) => r@ == created_reply(id@),
            Err(e) => r@ == store_reply(e@),
        },
{
    match outcome {
        Ok(()) => reply(201, object1("id", text_json(id))),
        Err(e) => store_err_to_response(e),
    }
}

/// Creates an endpoint, as [`create_endpoint`] does, its secrets sealed under what was drawn for
/// them.
pub fn create_endpoint_drawn(
    store: &mut ConfigStore,
    req: CreateEndpointReq,
    descriptor: &Result<SchemaDescriptor, DescriptorError>,
    drawn: &Vec<Result<Vec<u8>, String>>,
    now: i64,
) -> (r: ApiResponse)
    requires
        store_ok(old(store)@),
        planned_creation(req, *descriptor, now) matches Ok(x) ==> draws_for(drawn@, x.1.len()),
    ensures
        match planned_creation(req, *descriptor, now) {
            Err(e) => r@ == e && final(store)@ == old(store)@,
            Ok(x) => match endpoint_created_drawn(old(store)@, x.0, x.1, drawn@, now) {
                Ok(s) => r@ == created_reply(req.id@) && final(store)@ == s.0,
                Err(f) => r@ == store_reply(f) && final(store)@ == old(store)@,
            },
        },
        store_ok(final(store)@),
{
    match plan_creation(req, descriptor, now) {
        Ok((rec, secrets)) => {
            assert(pairs_view(secrets@).len() == secrets@.len());
            let outcome: Result<(), StoreError> = store.create_endpoint_drawn(
                &rec,
                secrets.as_slice(),
                drawn,
                now,
            );
            creation_answer(rec.id.as_str(), outcome)
        },
        Err(e) => e,
    }
}

/// Creates an endpoint, if its connection fits the schema of its driver. Its secrets are taken out
/// of its connection and sealed.
pub fn create_endpoint(
    store: &mut ConfigStore,
    req: CreateEndpointReq,
    descriptor: &Result<SchemaDescriptor, DescriptorError>,
    now: i64,
) -> (r: ApiResponse)
    requires
        store_ok(old(store)@),
    ensures
        match planned_creation(req, *descriptor, now) {
            Err(e) => r@ == e && final(store)@ == old(store)@,
            Ok(x) => creation_went(old(store)@, final(store)@, x.0, x.1, r@),
        },
        store_ok(final(store)@),
{
    match plan_creation(req, descriptor, now) {
        Ok((rec, secrets)) => {
            let outcome: Result<(), StoreError> = store.create_endpoint_with_secrets(
                &rec,
                secrets.as_slice(),
            );
            let ghost f = outcome->Err_0@;
            let ghost failed = outcome is Err;
            let r: ApiResponse = creation_answer(rec.id.as_str(), outcome);
            assert(failed ==> store_reply(f) == r@);
            r
        },
        Err(e) => e,
    }
}

/// What was given is what a driver gets: with its secrets put in, the connection of a new endpoint
/// is the one that it was created with, and it fits the schema.
pub proof fn drivers_get_the_connection_that_was_given(
    before: StoreV,
    after: StoreV,
    req: CreateEndpointReq,
    d: SchemaDescriptor,
    now: i64,
    r: ReplyV,
)
    requires
        plain(req.connection@, 127),
        match planned_creation(req, Ok(d), now) {
            Err(e) => false,
            Ok(x) => creation_went(before, after, x.0, x.1, r),
        },
        r.status == 201,
    ensures
        instance_issues(d.fields@, "connection"@, req.connection@).len() == 0,
        exists|o: Seq<(Seq<char>, JsonV)>|
            plain(JsonV::Object(o), 127) && after.endpoints[req.id@].connection_json
                == #[trigger] json_text(JsonV::Object(o)) && written_connection(
                after,
                req.id@,
                o,
                d,
            ) == Ok::<Seq<char>, ReplyV>(json_text(req.connection@)),
{
    let o = req.connection@->Object_0;
    let keys = secret_keys(d.fields@);
    let n = keys.len() as int;
    let x = planned_creation(req, Ok(d), now)->Ok_0;
    let split = split_new(o, keys, n)->Ok_0;
    assert forall|f: StoreFault| (#[trigger] store_reply(f)).status != 201 by {
        crate::api::refusals_are_errors(f);
    }
    let (xs, at) = choose|xs: Seq<SealedV>, at: i64|
        all_sealed(xs, x.1, before.master_key) && after == #[trigger] endpoint_added(
            before,
            x.0,
            xs,
            at,
        );
    assert(different_fields(split.secrets)) by {
        assert forall|a: int, b: int| 0 <= a < b < split.secrets.len() implies (
        #[trigger] split.secrets[a]).0 != (#[trigger] split.secrets[b]).0 by {
            secrets_are_of_different_fields(o, keys, a, b);
        }
    }
    assert(secrets_read(after, req.id@, split.secrets)) by {
        assert forall|y: (Seq<char>, Seq<char>)| #[trigger]
            split.secrets.contains(y) implies secret_read(after, req.id@, y.0) == Ok::<
            Option<Seq<char>>,
            StoreFault,
        >(Some(y.1)) by {
            new_secrets_read_back(before, x.0, split.secrets, xs, at, y);
        }
    }
    secrets_are_put_back(after, req.id@, o, keys);
    a_split_connection_is_plain(o, keys, 127);
    assert(after.endpoints[req.id@].connection_json == json_text(JsonV::Object(split.entries)));
}

// ---------------------------------------------------------------------------
// Changing
// ---------------------------------------------------------------------------

/// A request to change an endpoint.
#[derive(Debug, PartialEq)]
pub struct UpdateEndpointReq {
    pub name: Option<String>,
    pub device_id: String,
    pub driver_id: String,
    pub connection: Json,
}

/// The complaint that an endpoint is to have another driver than the one it was created with.
pub open spec fn other_driver_reply() -> ReplyV {
    error_reply(400, "VALIDATION_ERROR"@, "driver_id 创建后不可变"@)
}

/// The endpoint and the secrets that a request to change one comes to.
pub open spec fn planned_change(
    s: StoreV,
    running: bool,
    id: Seq<char>,
    req: UpdateEndpointReq,
    descriptor: Result<SchemaDescriptor, DescriptorError>,
    now: i64,
) -> Result<(EndpointV, ChangeV), ReplyV> {
    if running {
        Err(error_reply(409, "CONFLICT"@, "endpoint 正在运行，请先停止后再修改配置"@))
    } else {
        match req.connection@ {
            JsonV::Object(o) => if !s.endpoints.contains_key(id) {
                Err(no_endpoint_reply(id))
            } else {
                let rec = s.endpoints[id];
                if rec.driver_id != req.driver_id@ {
                    Err(other_driver_reply())
                } else {
                    match descriptor {
                        Err(e) => Err(undescribed_reply(e@)),
                        Ok(d) => match (
                            change_of(s, id, o, secret_keys(d.fields@)),
                            change_issues(s, id, o, d.fields@),
                        ) {
                            (Err(e), _) => Err(e),
                            (Ok(c), Err(f)) => Err(store_reply(f)),
                            (Ok(c), Ok(issues)) => if issues.len() > 0 {
                                Err(validity_reply(issues))
                            } else {
                                Ok(
                                    (
                                        EndpointV {
                                            name: match maybe_text(req.name) {
                                                Some(n) => n,
                                                None => rec.name,
                                            },
                                            device_id: req.device_id@,
                                            connection_json: json_text(JsonV::Object(c.entries)),
                                            updated_at_ns: now,
                                            ..rec
                                        },
                                        c,
                                    ),
                                )
                            },
                        },
                    }
                }
            },
            _ => Err(no_object_reply()),
        }
    }
}

/// Whether an endpoint was changed with its secrets, or was not, and how that was answered.
pub open spec fn change_went(
    before: StoreV,
    after: StoreV,
    rec: EndpointV,
    c: ChangeV,
    r: ReplyV,
) -> bool {
    ||| {
        &&& r == changed_reply(rec.id)
        &&& update_refused(before, rec) is None
        &&& exists|xs: Seq<SealedV>, now: i64|
            all_sealed(xs, c.secrets, before.master_key) && after == #[trigger] endpoint_changed(
                before,
                rec,
                xs,
                c.dropped,
                now,
            )
    }
    ||| {
        &&& after == before
        &&& exists|f: StoreFault| #[trigger]
            store_reply(f) == r && (update_refused(before, rec) == Some(f) || exists|
                drawn: Seq<Result<Vec<u8>, String>>,
            | #[trigger]
                unsealed(c.secrets, before.master_key, drawn) == Some(f))
    }
}

fn plan_change(
    store: &ConfigStore,
    running: bool,
    id: &str,
    req: UpdateEndpointReq,
    descriptor: &Result<SchemaDescriptor, DescriptorError>,
    now: i64,
) -> (r: Result<(EndpointRecord, Vec<(String, String)>, Vec<String>), ApiResponse>)
    requires
        store_ok(store@),
    ensures
        match r {
            Ok(x) => {
                &&& planned_change(store@, running, id@, req, *descriptor, now) matches Ok(p)
                    && p.0 == x.0@ && p.1.secrets == pairs_view(x.1@) && p.1.dropped
                    == texts_view(x.2@)
                &&& x.0.id@ == id@
                &&& store@.endpoints.contains_key(id@)
            },
            Err(e) => planned_change(store@, running, id@, req, *descriptor, now) == Err::<
                (EndpointV, ChangeV),
                ReplyV,
            >(e@),
        },
{
    broadcast use lemma_json_view;

    if running {
        return Err(complain(409, "CONFLICT", "endpoint 正在运行，请先停止后再修改配置"));
    }
    let whole: Vec<(String, Json)> = match req.connection.copy() {
        Json::Object(o) => o,
        _ => {
            return Err(no_object());
        },
    };
    let entries: Vec<(String, Json)> = match req.connection {
        Json::Object(o) => o,
        _ => {
            return Err(no_object());
        },
    };
    let mut rec: EndpointRecord = match store.get_endpoint(id) {
        Some(rec) => rec,
        None => {
            return Err(no_endpoint(id));
        },
    };
    assert(store@.endpoints.contains_key(id@));
    if !same_text(rec.driver_id.as_str(), req.driver_id.as_str()) {
        return Err(complain(400, "VALIDATION_ERROR", "driver_id 创建后不可变"));
    }
    let schema: &SchemaDescriptor = match descriptor {
        Ok(d) => d,
        Err(e) => {
            return Err(undescribed(e));
        },
    };
    let keys: Vec<String> = secret_field_keys(schema);
    let c: ConnectionChange = match split_changed_secrets(entries, &keys, store, id) {
        Ok(c) => c,
        Err(e) => {
            return Err(e);
        },
    };
    match changed_connection_issues(whole, schema, store, id) {
        Ok(issues) => {
            if issues.len() > 0 {
                return Err(validity(&issues));
            }
        },
        Err(f) => {
            return Err(store_err_to_response(f));
        },
    }
    match req.name {
        Some(n) => {
            rec.name = n;
        },
        None => {},
    }
    rec.device_id = req.device_id;
    let ghost cv = c@;
    rec.connection_json = Json::Object(c.entries).to_text();
    rec.updated_at_ns = now;
    proof {
        let planned = planned_change(store@, running, id@, req, *descriptor, now);
        assert(rec@.id == id@);
        assert(planned is Ok);
        assert(planned->Ok_0.1 == cv);
        assert(planned->Ok_0.0 == rec@);
    }
    Ok((rec, c.secrets, c.dropped))
}

/// The answer to a request by which an endpoint was changed.
pub open spec fn changed_reply(id: Seq<char>) -> ReplyV {
    ReplyV { status: 200, body: JsonV::Object(seq![("updated"@, JsonV::String(id))]) }
}

fn change_answer(id: &str, outcome: Result<bool, StoreError>) -> (r: ApiResponse)
    ensures
        match outcome {
            Ok(true) => r@ == changed_reply(id@),
            Ok(false) => r@ == no_endpoint_reply(id@),
            Err(e) => r@ == store_reply(e@),
        },
{
    match outcome {
        Ok(true) => reply(200, object1("updated", text_json(id))),
        Ok(false) => no_endpoint(id),
        Err(e) => store_err_to_response(e),
    }
}

/// Changes an endpoint, as [`update_endpoint`] does, its new secrets sealed under what was drawn for
/// them.
pub fn update_endpoint_drawn(
    store: &mut ConfigStore,
    running: bool,
    id: &str,
    req: UpdateEndpointReq,
    descriptor: &Result<SchemaDescriptor, DescriptorError>,
    drawn: &Vec<Result<Vec<u8>, String>>,
    now: i64,
) -> (r: ApiResponse)
    requires
        store_ok(old(store)@),
        planned_change(old(store)@, running, id@, req, *descriptor, now) matches Ok(x)
            ==> draws_for(drawn@, x.1.secrets.len()),
    ensures
        match planned_change(old(store)@, running, id@, req, *descriptor, now) {
            Err(e) => r@ == e && final(store)@ == old(store)@,
            Ok(x) => match endpoint_updated_drawn(
                old(store)@,
                x.0,
                x.1.secrets,
                x.1.dropped,
                drawn@,
                now,
            ) {
                Ok(s) => r@ == changed_reply(id@) && final(store)@ == s.0,
                Err(f) => r@ == store_reply(f) && final(store)@ == old(store)@,
            },
        },
        store_ok(final(store)@),
{
    match plan_change(store, running, id, req, descriptor, now) {
        Ok((rec, secrets, dropped)) => {
            assert(pairs_view(secrets@).len() == secrets@.len());
            let outcome: Result<bool, StoreError> = store.update_endpoint_drawn(
                &rec,
                secrets.as_slice(),
                dropped.as_slice(),
                drawn,
                now,
            );
            change_answer(id, outcome)
        },
        Err(e) => e,
    }
}

/// Changes an endpoint that does not run, if its connection, with the secrets that are kept put in,
/// fits the schema of its driver. Its driver stays the one that it was created with. New secrets
/// are sealed, and those of which nothing is said go.
pub fn update_endpoint(
    store: &mut ConfigStore,
    running: bool,
    id: &str,
    req: UpdateEndpointReq,
    descriptor: &Result<SchemaDescriptor, DescriptorError>,
    now: i64,
) -> (r: ApiResponse)
    requires
        store_ok(old(store)@),
    ensures
        match planned_change(old(store)@, running, id@, req, *descriptor, now) {
            Err(e) => r@ == e && final(store)@ == old(store)@,
            Ok(x) => change_went(old(store)@, final(store)@, x.0, x.1, r@),
        },
        store_ok(final(store)@),
{
    match plan_change(store, running, id, req, descriptor, now) {
        Ok((rec, secrets, dropped)) => {
            let ghost cv = planned_change(
                old(store)@,
                running,
                id@,
                req,
                *descriptor,
                now,
            )->Ok_0.1;
            let outcome: Result<bool, StoreError> = store.update_endpoint_with_secrets(
                &rec,
                secrets.as_slice(),
                dropped.as_slice(),
            );
            let ghost given = outcome;
            let r: ApiResponse = change_answer(id, outcome);
            proof {
                if given matches Ok(true) {
                    let (xs, at) = choose|xs: Seq<SealedV>, at: i64|
                        all_sealed(xs, cv.secrets, old(store)@.master_key) && store@
                            == #[trigger] endpoint_changed(old(store)@, rec@, xs, cv.dropped, at);
                    assert(store@ == endpoint_changed(old(store)@, rec@, xs, cv.dropped, at));
                }
                if given is Err {
                    assert(store_reply(given->Err_0@) == r@);
                }
                assert(change_went(old(store)@, store@, rec@, cv, r@));
            }
            r
        },
        Err(e) => e,
    }
}

/// What a driver gets after a change is the connection that was given, with the secrets that were
/// kept put in where something stands for them, and it fits the schema.
pub proof fn drivers_get_the_connection_that_was_changed(
    before: StoreV,
    after: StoreV,
    id: Seq<char>,
    req: UpdateEndpointReq,
    d: SchemaDescriptor,
    now: i64,
    r: ReplyV,
)
    requires
        store_ok(before),
        plain(req.connection@, 127),
        match planned_change(before, false, id, req, Ok(d), now) {
            Err(e) => false,
            Ok(x) => change_went(before, after, x.0, x.1, r),
        },
        r.status == 200,
    ensures
        match filled(
            before,
            id,
            req.connection@->Object_0,
            secret_keys(d.fields@),
            secret_keys(d.fields@).len() as int,
        ) {
            Ok(e) => instance_issues(d.fields@, "connection"@, JsonV::Object(e)).len() == 0,
            Err(f) => false,
        },
        written_connection(before, id, req.connection@->Object_0, d) is Ok,
        exists|o: Seq<(Seq<char>, JsonV)>|
            plain(JsonV::Object(o), 127) && after.endpoints[id].connection_json
                == #[trigger] json_text(JsonV::Object(o)) && written_connection(after, id, o, d)
                == written_connection(before, id, req.connection@->Object_0, d),
{
    let o = req.connection@->Object_0;
    let keys = secret_keys(d.fields@);
    let x = planned_change(before, false, id, req, Ok(d), now)->Ok_0;
    let c = x.1;
    assert forall|f: StoreFault| (#[trigger] store_reply(f)).status != 200 by {
        crate::api::refusals_are_errors(f);
    }
    let (xs, at) = choose|xs: Seq<SealedV>, at: i64|
        all_sealed(xs, c.secrets, before.master_key) && after == #[trigger] endpoint_changed(
            before,
            x.0,
            xs,
            c.dropped,
            at,
        );
    assert(x.0.id == id);
    assert(different_fields(c.secrets)) by {
        assert forall|a: int, b: int| 0 <= a < b < c.secrets.len() implies (
        #[trigger] c.secrets[a]).0 != (#[trigger] c.secrets[b]).0 by {
            changed_secrets_are_of_different_fields(before, id, o, keys, a, b);
        }
    }
    assert(secrets_changed(before, after, id, c.secrets, c.dropped)) by {
        assert forall|y: (Seq<char>, Seq<char>)| #[trigger]
            c.secrets.contains(y) && !c.dropped.contains(y.0) implies secret_read(after, id, y.0)
            == Ok::<Option<Seq<char>>, StoreFault>(Some(y.1)) by {
            changed_secrets_read_back(before, x.0, c.secrets, xs, c.dropped, at, y.0);
            let a = choose|a: int| 0 <= a < c.secrets.len() && c.secrets[a] == y;
            assert(c.secrets[a].0 == y.0);
        }
        assert forall|k: Seq<char>|
            !c.dropped.contains(k) && (forall|a: int|
                0 <= a < c.secrets.len() ==> (#[trigger] c.secrets[a]).0 != k) implies #[trigger] secret_read(
            after,
            id,
            k,
        ) == secret_read(before, id, k) by {
            changed_secrets_read_back(before, x.0, c.secrets, xs, c.dropped, at, k);
        }
    }
    changed_secrets_are_put_back(before, after, id, o, keys, c);
    a_changed_connection_is_plain(before, id, o, keys, 127);
    assert(after.endpoints[id].connection_json == json_text(JsonV::Object(c.entries)));
}

// ---------------------------------------------------------------------------
// Deleting
// ---------------------------------------------------------------------------

/// Deletes an endpoint that does not run, with all that is known of it.
pub fn delete_endpoint(
    store: &mut ConfigStore,
    snapshot: &mut Snapshot,
    running: bool,
    id: &str,
) -> (r: ApiResponse)
    requires
        store_ok(old(store)@),
        snapshot_ok(old(snapshot)@),
    ensures
        if running {
            &&& r@ == error_reply(409, "CONFLICT"@, "endpoint 正在运行，请先停止后再删除"@)
            &&& final(store)@ == old(store)@
            &&& final(snapshot)@ == old(snapshot)@
        } else if old(store)@.endpoints.contains_key(id@) {
            &&& r@ == (ReplyV {
                status: 200,
                body: JsonV::Object(seq![("deleted"@, JsonV::String(id@))]),
            })
            &&& final(store)@ == endpoint_deleted(old(store)@, id@)
            &&& final(snapshot)@ == endpoint_removed(old(snapshot)@, id@)
        } else {
            &&& r@ == no_endpoint_reply(id@)
            &&& final(store)@ == old(store)@
            &&& final(snapshot)@ == old(snapshot)@
        },
        store_ok(final(store)@),
        snapshot_ok(final(snapshot)@),
{
    if running {
        return complain(409, "CONFLICT", "endpoint 正在运行，请先停止后再删除");
    }
    if store.get_endpoint(id).is_none() {
        return no_endpoint(id);
    }
    let _ = store.delete_endpoint(id);
    snapshot.remove_endpoint(id);
    reply(200, object1("deleted", text_json(id)))
}

// ---------------------------------------------------------------------------
// Starting and stopping
// ---------------------------------------------------------------------------

/// The connection that a driver gets, its secrets put in. A driver that does not tell what it can
/// do gets a connection only where no secret is said to be kept.
pub open spec fn connection_for(
    s: StoreV,
    rec: EndpointV,
    descriptor: Result<SchemaDescriptor, DescriptorError>,
) -> Result<Seq<char>, ReplyV> {
    match descriptor {
        Ok(d) => {
            let keys = secret_keys(d.fields@);
            if keys.len() == 0 {
                Ok(rec.connection_json)
            } else {
                match materialized(s, rec.id, rec.connection_json, keys) {
                    Ok(t) => Ok(t),
                    Err(f) => Err(store_reply(f)),
                }
            }
        },
        Err(e) => if text_contains(rec.connection_json, "secret_set"@) {
            Err(undescribed_reply(e@))
        } else {
            Ok(rec.connection_json)
        },
    }
}

/// The text of a connection with its secrets put in.
pub open spec fn written_connection(
    s: StoreV,
    id: Seq<char>,
    o: Seq<(Seq<char>, JsonV)>,
    d: SchemaDescriptor,
) -> Result<Seq<char>, ReplyV> {
    let keys = secret_keys(d.fields@);
    match filled(s, id, o, keys, keys.len() as int) {
        Ok(e) => Ok(json_text(JsonV::Object(e))),
        Err(f) => Err(store_reply(f)),
    }
}

/// What was told, by way of references.
pub open spec fn told(d: Result<&SchemaDescriptor, &DescriptorError>) -> Result<
    SchemaDescriptor,
    DescriptorError,
> {
    match d {
        Ok(d) => Ok(*d),
        Err(e) => Err(*e),
    }
}

pub(crate) fn full_connection(
    store: &ConfigStore,
    rec: &EndpointRecord,
    descriptor: Result<&SchemaDescriptor, &DescriptorError>,
) -> (r: Result<String, ApiResponse>)
    requires
        store_ok(store@),
    ensures
        match r {
            Ok(t) => connection_for(store@, rec@, told(descriptor)) == Ok::<Seq<char>, ReplyV>(t@),
            Err(e) => connection_for(store@, rec@, told(descriptor)) == Err::<Seq<char>, ReplyV>(e@),
        },
        forall|o: Seq<(Seq<char>, JsonV)>|
            plain(JsonV::Object(o), 127) && #[trigger] json_text(JsonV::Object(o))
                == rec.connection_json@ && descriptor is Ok ==> connection_for(
                store@,
                rec@,
                told(descriptor),
            ) == written_connection(store@, rec.id@, o, *descriptor->Ok_0),
{
    match descriptor {
        Ok(d) => {
            let keys: Vec<String> = secret_field_keys(d);
            if keys.len() == 0 {
                Ok(rec.connection_json.clone())
            } else {
                match materialize_connection(
                    rec.connection_json.as_str(),
                    rec.id.as_str(),
                    store,
                    &keys,
                ) {
                    Ok(t) => Ok(t),
                    Err(e) => Err(store_err_to_response(e)),
                }
            }
        },
        Err(e) => if contains_text(rec.connection_json.as_str(), "secret_set") {
            Err(undescribed(e))
        } else {
            Ok(rec.connection_json.clone())
        },
    }
}

/// The schema of the connections of a driver, as far as it tells.
pub open spec fn schema_told(d: Result<DriverDescriptor, DescriptorError>) -> Result<
    SchemaDescriptor,
    DescriptorError,
> {
    match d {
        Ok(d) => Ok(d.connection),
        Err(e) => Err(e),
    }
}

/// Why an endpoint cannot be started, or the connection that its driver gets. Its tasks are held
/// against what the driver offers.
pub open spec fn start_connection(
    s: StoreV,
    running: bool,
    id: Seq<char>,
    descriptor: Result<DriverDescriptor, DescriptorError>,
    bindings: Seq<Result<GenericBinding, String>>,
) -> Result<Seq<char>, ReplyV> {
    if !s.endpoints.contains_key(id) {
        Err(no_endpoint_reply(id))
    } else if running {
        Err(error_reply(409, "CONFLICT"@, "endpoint 已在运行"@))
    } else {
        match gate(descriptor, tasks_of(s, id), bindings) {
            Some(e) => Err(e),
            None => connection_for(s, s.endpoints[id], schema_told(descriptor)),
        }
    }
}

/// Why an endpoint cannot be started.
pub open spec fn start_refused(
    s: StoreV,
    running: bool,
    id: Seq<char>,
    descriptor: Result<DriverDescriptor, DescriptorError>,
    bindings: Seq<Result<GenericBinding, String>>,
) -> Option<ReplyV> {
    match start_connection(s, running, id, descriptor, bindings) {
        Err(e) => Some(e),
        Ok(t) => match event_tasks_of(s, id) {
            Err(f) => Some(store_reply(f)),
            Ok(ts) => None,
        },
    }
}

/// What is to be run when an endpoint is started, if its driver offers what its tasks select. Its
/// secrets are put into the connection that the driver gets, and nowhere else. `bindings` says of
/// each of its tasks what it selects, or why that cannot be read.
pub fn start_endpoint(
    store: &ConfigStore,
    running: bool,
    id: &str,
    descriptor: &Result<DriverDescriptor, DescriptorError>,
    bindings: &[Result<GenericBinding, String>],
) -> (r: Result<BuiltinEndpoint, ApiResponse>)
    requires
        store_ok(store@),
        bindings@.len() == tasks_of(store@, id@).len(),
    ensures
        match r {
            Ok(cfg) => {
                &&& start_connection(store@, running, id@, *descriptor, bindings@) == Ok::<
                    Seq<char>,
                    ReplyV,
                >(cfg.connection_json@)
                &&& cfg.endpoint_id@ == id@
                &&& cfg.driver_id@ == store@.endpoints[id@].driver_id
                &&& tasks_view(cfg.tasks@) == tasks_of(store@, id@)
                &&& event_tasks_of(store@, id@) == Ok::<Seq<TaskV>, StoreFault>(
                    event_tasks_view(cfg.event_tasks@),
                )
            },
            Err(e) => start_refused(store@, running, id@, *descriptor, bindings@) == Some(e@),
        },
        forall|o: Seq<(Seq<char>, JsonV)>|
            plain(JsonV::Object(o), 127) && store@.endpoints.contains_key(id@) && !running
                && #[trigger] json_text(JsonV::Object(o)) == store@.endpoints[id@].connection_json
                && *descriptor is Ok && gate(*descriptor, tasks_of(store@, id@), bindings@) is None
                ==> start_connection(store@, running, id@, *descriptor, bindings@)
                == written_connection(store@, id@, o, descriptor->Ok_0.connection),
{
    let rec: EndpointRecord = match store.get_endpoint(id) {
        Some(rec) => rec,
        None => {
            return Err(no_endpoint(id));
        },
    };
    assert(store@.endpoints.contains_key(id@));
    assert(rec@.id == id@);
    if running {
        return Err(complain(409, "CONFLICT", "endpoint 已在运行"));
    }
    let tasks: Vec<AcquisitionTask> = crate::tasks::stored_tasks(store, id);
    assert(tasks_view(tasks@).len() == tasks@.len());
    match gate_data_tasks(descriptor, tasks.as_slice(), bindings) {
        Some(e) => {
            return Err(e);
        },
        None => {},
    }
    let schema: Result<&SchemaDescriptor, &DescriptorError> = match descriptor {
        Ok(d) => Ok(&d.connection),
        Err(e) => Err(e),
    };
    assert(told(schema) == schema_told(*descriptor));
    let connection_json: String = match full_connection(store, &rec, schema) {
        Ok(t) => t,
        Err(e) => {
            return Err(e);
        },
    };
    let event_tasks: Vec<EventTask> = match crate::tasks::stored_event_tasks(store, id) {
        Ok(v) => v,
        Err(e) => {
            return Err(store_err_to_response(e));
        },
    };
    Ok(
        BuiltinEndpoint {
            endpoint_id: rec.id,
            driver_id: rec.driver_id,
            connection_json,
            tasks,
            event_tasks,
        },
    )
}

/// Takes what came of starting an endpoint: one that was started is to run from then on.
pub fn endpoint_started(
    store: &mut ConfigStore,
    id: &str,
    outcome: Result<(), String>,
    now: i64,
) -> (r: ApiResponse)
    requires
        store_ok(old(store)@),
    ensures
        match outcome {
            Ok(()) => r@ == (ReplyV {
                status: 200,
                body: JsonV::Object(seq![("started"@, JsonV::String(id@))]),
            }) && final(store)@ == desire_set(old(store)@, id@, true, now),
            Err(m) => r@ == error_reply(400, "START_FAILED"@, m@) && final(store)@ == old(store)@,
        },
        store_ok(final(store)@),
{
    match outcome {
        Ok(()) => {
            let _ = store.set_desired_running_at(id, true, now);
            reply(200, object1("started", text_json(id)))
        },
        Err(m) => complain(400, "START_FAILED", m.as_str()),
    }
}

/// Takes that an endpoint was stopped, if it ran: it is not to run from then on.
pub fn stop_endpoint(store: &mut ConfigStore, id: &str, was_running: bool, now: i64) -> (r:
    ApiResponse)
    requires
        store_ok(old(store)@),
    ensures
        r@ == (ReplyV {
            status: 200,
            body: JsonV::Object(
                seq![
                    ("stopped"@, JsonV::String(id@)),
                    ("was_running"@, JsonV::Bool(was_running)),
                ],
            ),
        }),
        final(store)@ == desire_set(old(store)@, id@, false, now),
        store_ok(final(store)@),
{
    let _ = store.set_desired_running_at(id, false, now);
    reply(
        200,
        object2("stopped", text_json(id), "was_running", truth_json(was_running)),
    )
}

/// What is shown of a connection: with what is known to be secret taken out; where the driver does
/// not say what is, by what is kept, and nothing at all where a text might be one.
pub proof fn connections_are_shown_as_far_as_they_are_no_secret(
    s: StoreV,
    rec: EndpointV,
    ks: Seq<Seq<char>>,
    o: Seq<(Seq<char>, JsonV)>,
)
    requires
        json_parsed(rec.connection_json) == Ok::<JsonV, Seq<char>>(JsonV::Object(o)),
    ensures
        shown_connection(s, rec, Some(ks)) == JsonV::Object(
            redacted(s, rec.id, o, ks, ks.len() as int),
        ),
        ({
            let kept = ordered_keys(rows_for(s.secrets, rec.id));
            &&& kept.len() > 0 ==> shown_connection(s, rec, None) == JsonV::Object(
                redacted(s, rec.id, o, kept, kept.len() as int),
            )
            &&& kept.len() == 0 && (exists|i: int|
                0 <= i < o.len() && (#[trigger] o[i]).1 is String) ==> shown_connection(
                s,
                rec,
                None,
            ) == JsonV::Null
            &&& kept.len() == 0 && !(exists|i: int|
                0 <= i < o.len() && (#[trigger] o[i]).1 is String) ==> shown_connection(
                s,
                rec,
                None,
            ) == JsonV::Object(o)
        }),
{
}

/// An endpoint is shown field by field, each under its name, with the state it runs in.
pub proof fn endpoints_are_shown_field_by_field(
    s: StoreV,
    snap: SnapshotV,
    rec: EndpointV,
    keys: Option<Seq<Seq<char>>>,
)
    ensures
        endpoint_value(s, snap, rec, keys) matches JsonV::Object(o) && {
            &&& o.len() == 7
            &&& o[0] == ("connection"@, shown_connection(s, rec, keys))
            &&& o[1] == ("desired_running"@, JsonV::Bool(rec.desired_running))
            &&& o[2] == ("device_id"@, JsonV::String(rec.device_id))
            &&& o[3] == ("driver_id"@, JsonV::String(rec.driver_id))
            &&& o[4] == ("id"@, JsonV::String(rec.id))
            &&& o[5].0 == "runtime"@
            &&& !snap.endpoints.contains_key(rec.id) ==> o[5].1 is Null
            &&& snap.endpoints.contains_key(rec.id) ==> o[5].1 == status_value(
                snap.endpoints[rec.id],
            )
            &&& o[6] == ("updated_at_ns"@, integer_value(rec.updated_at_ns))
        },
{
}

/// An endpoint that is not there is answered with 404, one that is with what is shown of it.
pub proof fn endpoints_that_are_there_are_shown(
    s: StoreV,
    snap: SnapshotV,
    id: Seq<char>,
    keys: Option<Seq<Seq<char>>>,
)
    ensures
        endpoint_reply(s, snap, id, keys).status == 200 <==> s.endpoints.contains_key(id),
        endpoint_reply(s, snap, id, keys).status == 404 <==> !s.endpoints.contains_key(id),
        s.endpoints.contains_key(id) ==> endpoint_reply(s, snap, id, keys).body == endpoint_value(
            s,
            snap,
            s.endpoints[id],
            keys,
        ),
{
}

/// All endpoints are shown, in the order of their ids, each with the secrets of its own driver
/// taken out.
pub proof fn all_endpoints_are_shown(
    s: StoreV,
    snap: SnapshotV,
    keys: spec_fn(Seq<char>) -> Option<Seq<Seq<char>>>,
    i: int,
)
    requires
        0 <= i < ordered_keys(s.endpoints).len(),
    ensures
        endpoints_value(s, snap, keys) matches JsonV::Object(o) && o.len() == 1 && o[0].0
            == "endpoints"@ && (o[0].1 matches JsonV::Array(a) && a.len() == ordered_keys(
            s.endpoints,
        ).len() && a[i] == endpoint_value(
            s,
            snap,
            s.endpoints[ordered_keys(s.endpoints)[i]],
            keys(s.endpoints[ordered_keys(s.endpoints)[i]].driver_id),
        )),
{
}

/// An endpoint is planned exactly where its connection is an object, the driver describes itself,
/// nothing stands for a secret in it, and the connection fits; it is planned as it was asked for,
/// stopped, without its secrets.
pub proof fn endpoints_are_planned_as_they_were_asked_for(
    req: CreateEndpointReq,
    descriptor: Result<SchemaDescriptor, DescriptorError>,
    now: i64,
)
    ensures
        !(req.connection@ is Object) ==> (planned_creation(req, descriptor, now) matches Err(r)
            && r.status == 400),
        req.connection@ is Object && descriptor is Err ==> (planned_creation(
            req,
            descriptor,
            now,
        ) matches Err(r) && r.status == 503),
        req.connection@ is Object && descriptor is Ok ==> (planned_creation(req, descriptor, now)
            is Ok <==> split_new(
            req.connection@->Object_0,
            secret_keys(descriptor->Ok_0.fields@),
            secret_keys(descriptor->Ok_0.fields@).len() as int,
        ) is Ok && instance_issues(
            descriptor->Ok_0.fields@,
            "connection"@,
            req.connection@,
        ).len() == 0),
        planned_creation(req, descriptor, now) matches Ok(p) ==> {
            let split = split_new(
                req.connection@->Object_0,
                secret_keys(descriptor->Ok_0.fields@),
                secret_keys(descriptor->Ok_0.fields@).len() as int,
            )->Ok_0;
            &&& p.0.id == req.id@
            &&& p.0.name == req.name@
            &&& p.0.device_id == req.device_id@
            &&& p.0.driver_id == req.driver_id@
            &&& p.0.connection_json == json_text(JsonV::Object(split.entries))
            &&& !p.0.desired_running
            &&& p.0.updated_at_ns == now
            &&& p.1 == split.secrets
        },
{
}

/// A change is planned exactly where the endpoint is there and does not run, the connection is an
/// object, the driver stays and describes itself, and the connection fits with the secrets that
/// are kept. All but the driver, the id and whether it is to run becomes what is given; a name that
/// is not given stays.
pub proof fn changes_are_planned_as_they_were_asked_for(
    s: StoreV,
    running: bool,
    id: Seq<char>,
    req: UpdateEndpointReq,
    descriptor: Result<SchemaDescriptor, DescriptorError>,
    now: i64,
)
    ensures
        running ==> (planned_change(s, running, id, req, descriptor, now) matches Err(r) && r.status
            == 409),
        !running && !(req.connection@ is Object) ==> (planned_change(
            s,
            running,
            id,
            req,
            descriptor,
            now,
        ) matches Err(r) && r.status == 400),
        !running && req.connection@ is Object && !s.endpoints.contains_key(id) ==> (planned_change(
            s,
            running,
            id,
            req,
            descriptor,
            now,
        ) matches Err(r) && r.status == 404),
        !running && req.connection@ is Object && s.endpoints.contains_key(id)
            && s.endpoints[id].driver_id != req.driver_id@ ==> (planned_change(
            s,
            running,
            id,
            req,
            descriptor,
            now,
        ) matches Err(r) && r.status == 400),
        !running && req.connection@ is Object && s.endpoints.contains_key(id)
            && s.endpoints[id].driver_id == req.driver_id@ && descriptor is Err ==> (planned_change(
            s,
            running,
            id,
            req,
            descriptor,
            now,
        ) matches Err(r) && r.status == 503),
        !running && req.connection@ is Object && s.endpoints.contains_key(id)
            && s.endpoints[id].driver_id == req.driver_id@ && descriptor is Ok ==> (planned_change(
            s,
            running,
            id,
            req,
            descriptor,
            now,
        ) is Ok <==> change_of(
            s,
            id,
            req.connection@->Object_0,
            secret_keys(descriptor->Ok_0.fields@),
        ) is Ok && (change_issues(
            s,
            id,
            req.connection@->Object_0,
            descriptor->Ok_0.fields@,
        ) matches Ok(issues) && issues.len() == 0)),
        planned_change(s, running, id, req, descriptor, now) matches Ok(p) ==> {
            let c = change_of(
                s,
                id,
                req.connection@->Object_0,
                secret_keys(descriptor->Ok_0.fields@),
            )->Ok_0;
            &&& p.1 == c
            &&& p.0.id == s.endpoints[id].id
            &&& req.name is Some ==> p.0.name == req.name->Some_0@
            &&& req.name is None ==> p.0.name == s.endpoints[id].name
            &&& p.0.device_id == req.device_id@
            &&& p.0.driver_id == s.endpoints[id].driver_id
            &&& p.0.connection_json == json_text(JsonV::Object(c.entries))
            &&& p.0.desired_running == s.endpoints[id].desired_running
            &&& p.0.updated_at_ns == now
        },
{
}

/// What a driver is started with: the connection with its secrets where there are some, and the
/// connection as it is where there are none; a connection with secrets that nobody describes is not
/// handed out.
pub proof fn drivers_are_started_with_their_connection(
    s: StoreV,
    rec: EndpointV,
    descriptor: Result<SchemaDescriptor, DescriptorError>,
)
    ensures
        descriptor matches Ok(d) ==> {
            let keys = secret_keys(d.fields@);
            &&& keys.len() == 0 ==> connection_for(s, rec, descriptor) == Ok::<Seq<char>, ReplyV>(
                rec.connection_json,
            )
            &&& keys.len() > 0 ==> (connection_for(s, rec, descriptor) is Ok <==> materialized(
                s,
                rec.id,
                rec.connection_json,
                keys,
            ) is Ok)
            &&& keys.len() > 0 ==> (connection_for(s, rec, descriptor) matches Ok(t) ==> t
                == materialized(s, rec.id, rec.connection_json, keys)->Ok_0)
        },
        descriptor is Err && text_contains(rec.connection_json, "secret_set"@) ==> (connection_for(
            s,
            rec,
            descriptor,
        ) matches Err(r) && r.status == 503),
        descriptor is Err && !text_contains(rec.connection_json, "secret_set"@) ==> connection_for(
            s,
            rec,
            descriptor,
        ) == Ok::<Seq<char>, ReplyV>(rec.connection_json),
{
}

/// An endpoint is started exactly where it is there, does not run, its tasks are on offer, and its
/// connection and its event tasks can be had.
pub proof fn endpoints_are_started_when_they_can_be(
    s: StoreV,
    running: bool,
    id: Seq<char>,
    descriptor: Result<DriverDescriptor, DescriptorError>,
    bindings: Seq<Result<GenericBinding, String>>,
)
    ensures
        !s.endpoints.contains_key(id) ==> (start_refused(
            s,
            running,
            id,
            descriptor,
            bindings,
        ) matches Some(r) && r.status == 404),
        s.endpoints.contains_key(id) && running ==> (start_refused(
            s,
            running,
            id,
            descriptor,
            bindings,
        ) matches Some(r) && r.status == 409),
        start_refused(s, running, id, descriptor, bindings) is None <==> (s.endpoints.contains_key(
            id,
        ) && !running && gate(descriptor, tasks_of(s, id), bindings) is None && connection_for(
            s,
            s.endpoints[id],
            schema_told(descriptor),
        ) is Ok && event_tasks_of(s, id) is Ok),
        start_connection(s, running, id, descriptor, bindings) matches Ok(t) ==> connection_for(
            s,
            s.endpoints[id],
            schema_told(descriptor),
        ) == Ok::<Seq<char>, ReplyV>(t),
{
}

/// What is answered: an endpoint that is made with 201 and its id, one that is changed with 200.
pub proof fn endpoints_are_answered_for(id: Seq<char>)
    ensures
        created_reply(id).status == 201,
        created_reply(id).body == JsonV::Object(seq![("id"@, JsonV::String(id))]),
        changed_reply(id).status == 200,
        changed_reply(id).body == JsonV::Object(seq![("updated"@, JsonV::String(id))]),
        no_endpoint_reply(id).status == 404,
        no_object_reply().status == 400,
        other_driver_reply().status == 400,
{
}

/// The keys of secrets are known of a driver that describes itself, and of no other; they are
/// looked up by the driver.
pub proof fn keys_are_known_of_drivers_that_describe_themselves(
    d: Result<SchemaDescriptor, DescriptorError>,
    known: Seq<(String, Option<Vec<String>>)>,
    driver: Seq<char>,
    i: int,
)
    requires
        0 <= i < known.len(),
        known[i].0@ == driver,
        forall|j: int| 0 <= j < i ==> (#[trigger] known[j]).0@ != driver,
    ensures
        d matches Ok(s) ==> keys_known(d) == Some(secret_keys(s.fields@)),
        d is Err ==> keys_known(d) is None,
        known[i].1 is None ==> keys_by(known)(driver) is None,
        known[i].1 is Some ==> keys_by(known)(driver) == Some(texts_view(known[i].1->0@)),
{
    lemma_listed_keys(known, driver, i, known.len() as int);
}

proof fn lemma_listed_keys(
    known: Seq<(String, Option<Vec<String>>)>,
    driver: Seq<char>,
    i: int,
    n: int,
)
    requires
        0 <= i < known.len(),
        known[i].0@ == driver,
        forall|j: int| 0 <= j < i ==> (#[trigger] known[j]).0@ != driver,
        known.len() - i <= n <= known.len(),
    ensures
        listed_keys(known, driver, n) == (match known[i].1 {
            Some(k) => Some(texts_view(k@)),
            None => None,
        }),
    decreases n,
{
    if known.len() - n < i {
        assert(known[known.len() - n].0@ != driver);
        lemma_listed_keys(known, driver, i, n - 1);
    }
}

/// An endpoint that is made is answered with 201 and is there as it was planned; one that is not
/// leaves the store as it was, and is answered with what stood in its way.
pub proof fn endpoints_are_made_or_nothing_changes(
    before: StoreV,
    after: StoreV,
    rec: EndpointV,
    secrets: Seq<(Seq<char>, Seq<char>)>,
    r: ReplyV,
)
    requires
        creation_went(before, after, rec, secrets, r),
    ensures
        r.status != 201 ==> after == before,
        r.status == 201 ==> after.endpoints == before.endpoints.insert(rec.id, rec)
            && after.devices == before.devices && !before.endpoints.contains_key(rec.id),
{
}

/// An endpoint that is changed is answered with 200 and is there as it was planned, with its driver;
/// one that is not leaves the store as it was.
pub proof fn endpoints_are_changed_or_nothing_changes(
    before: StoreV,
    after: StoreV,
    rec: EndpointV,
    c: ChangeV,
    r: ReplyV,
)
    requires
        change_went(before, after, rec, c, r),
    ensures
        r.status != 200 ==> after == before,
        r.status == 200 ==> after.endpoints.contains_key(rec.id) && after.endpoints[rec.id].name
            == rec.name && after.endpoints[rec.id].device_id == rec.device_id
            && after.endpoints[rec.id].connection_json == rec.connection_json
            && after.endpoints[rec.id].driver_id == before.endpoints[rec.id].driver_id
            && after.devices == before.devices && after.tasks == before.tasks,
{
}

} // verus!
