//! Requests for drivers, for the state of endpoints and for the log of control operations.
use vstd::prelude::*;

use crate::api::{
    complain, count_json, count_value, error_reply, integer_json, integer_value, list_json,
    null_json, object1, object2, object3, object6, object7, optional_text_json, optional_text_value,
    reply, text_json, truth_json, validity, validity_reply, ApiResponse, ReplyV,
};
use crate::audit::{
    audits_page, audits_view, has_request, is_asked_for, is_request, page_is_as_asked, AuditFilterV,
    AuditV, ControlAuditRecord,
};
use crate::connection::validate_connection_against_schema;
use crate::endpoints::{connection_for, full_connection, runtime_of, runtime_value, told, undescribed, undescribed_reply};
use crate::float::Double;
use crate::json::{
    entries_view, items_view, json_get, json_text, lemma_json_view, Json, JsonNumber, JsonV,
};
use crate::manager::{DescriptorError, DescriptorFault};
use crate::schema::{instance_issues, maybe_text, SchemaDescriptor};
use crate::session::{
    detail_of, detail_or_nothing, session_error_text, went_well, BrowseNode, FrameBody, SessionError,
};
use crate::snapshot::{
    all_entries, driver_value, drivers_view, latest_value, latest_view, put, status_value, DriverInfo,
    DriverInfoV, EndpointStatus, LatestEntry, LatestV, Snapshot, SnapshotV, StatusV,
};
use crate::store::{active_points, registry_of, store_ok, ConfigStore, EndpointRecord, StoreV};
use crate::table::ordered_keys;
use crate::text::{cat2, cat3, cat5, same_text, signed_decimal, signed_decimal_text};

verus! {

// ---------------------------------------------------------------------------
// Drivers
// ---------------------------------------------------------------------------

/// Drivers as a value.
pub open spec fn drivers_value(list: Seq<DriverInfoV>) -> JsonV {
    JsonV::Object(
        seq![("drivers"@, JsonV::Array(list.map_values(|d: DriverInfoV| driver_value(d))))],
    )
}

/// The answer to a request for the drivers.
pub fn list_drivers(drivers: &Vec<DriverInfo>) -> (r: ApiResponse)
    ensures
        r@ == (ReplyV { status: 200, body: drivers_value(drivers_view(drivers@)) }),
{
    let mut items: Vec<Json> = Vec::new();
    let mut i: usize = 0;
    while i < drivers.len()
        invariant
            i <= drivers.len(),
            items@.len() == i,
            forall|j: int| 0 <= j < i ==> (#[trigger] items@[j])@ == driver_value(drivers@[j]@),
        decreases drivers.len() - i,
    {
        items.push(drivers[i].to_json());
        i = i + 1;
    }
    assert(items_view(items@) =~= drivers_view(drivers@).map_values(
        |d: DriverInfoV| driver_value(d),
    ));
    reply(200, object1("drivers", list_json(items)))
}

/// The first driver from place `i` on that has an id.
pub open spec fn driver_from(list: Seq<DriverInfoV>, id: Seq<char>, i: int) -> Option<DriverInfoV>
    decreases list.len() - i,
{
    if i < 0 || i >= list.len() {
        None
    } else if list[i].id == id {
        Some(list[i])
    } else {
        driver_from(list, id, i + 1)
    }
}

fn find_driver(snapshot: &Snapshot, id: &str) -> (r: Option<DriverInfo>)
    ensures
        match r {
            Some(d) => driver_from(snapshot@.drivers, id@, 0) == Some(d@),
            None => driver_from(snapshot@.drivers, id@, 0) is None,
        },
{
    let list: Vec<DriverInfo> = snapshot.drivers();
    let ghost all = drivers_view(list@);
    let mut i: usize = 0;
    while i < list.len()
        invariant
            i <= list.len(),
            all == drivers_view(list@),
            all == snapshot@.drivers,
            driver_from(all, id@, 0) == driver_from(all, id@, i as int),
        decreases list.len() - i,
    {
        assert(all[i as int] == list@[i as int]@);
        if same_text(list[i].id.as_str(), id) {
            return Some(list[i].copy());
        }
        i = i + 1;
    }
    None
}

/// The complaint that there is no such driver.
pub open spec fn no_driver_reply(id: Seq<char>) -> ReplyV {
    error_reply(404, "NOT_FOUND"@, "driver `"@ + id + "` not found"@)
}

fn no_driver(id: &str) -> (r: ApiResponse)
    ensures
        r@ == no_driver_reply(id@),
{
    complain(404, "NOT_FOUND", cat3("driver `", id, "` not found").as_str())
}

/// The answer to a request for a driver.
pub fn get_driver(snapshot: &Snapshot, id: &str) -> (r: ApiResponse)
    ensures
        match driver_from(snapshot@.drivers, id@, 0) {
            Some(d) => r@ == (ReplyV { status: 200, body: driver_value(d) }),
            None => r@ == no_driver_reply(id@),
        },
{
    match find_driver(snapshot, id) {
        Some(d) => reply(200, d.to_json()),
        None => no_driver(id),
    }
}

/// The answer to a request for a profile that there is not.
pub fn no_profile(id: &str) -> (r: ApiResponse)
    ensures
        r@ == error_reply(404, "NOT_FOUND"@, "profile `"@ + id@ + "` not found"@),
{
    complain(404, "NOT_FOUND", cat3("profile `", id, "` not found").as_str())
}

/// The answer to a request for what a driver can do, where it does not tell.
pub open spec fn descriptor_reply(e: DescriptorFault) -> ReplyV {
    if e.code == "DRIVER_DESCRIPTOR_VALIDATION_FAILED"@ {
        ReplyV {
            status: 503,
            body: JsonV::Object(
                seq![
                    (
                        "error"@,
                        JsonV::Object(
                            seq![
                                ("code"@, JsonV::String(e.code)),
                                ("issues"@, JsonV::Array(Seq::empty())),
                                ("message"@, JsonV::String(e.message)),
                            ],
                        ),
                    ),
                ],
            ),
        }
    } else {
        undescribed_reply(e)
    }
}

/// The answer to a request for what a driver can do, where it does not tell.
pub fn get_driver_descriptor(e: &DescriptorError) -> (r: ApiResponse)
    ensures
        r@ == descriptor_reply(e@),
{
    if same_text(e.code.as_str(), "DRIVER_DESCRIPTOR_VALIDATION_FAILED") {
        let none: Vec<Json> = Vec::new();
        assert(items_view(none@) =~= Seq::<JsonV>::empty());
        reply(
            503,
            object1(
                "error",
                object3(
                    "code",
                    text_json(e.code.as_str()),
                    "issues",
                    list_json(none),
                    "message",
                    text_json(e.message.as_str()),
                ),
            ),
        )
    } else {
        undescribed(e)
    }
}

/// The connection that a request holds: under its name, or as the whole of it.
pub open spec fn connection_given(body: JsonV) -> JsonV {
    match json_get(body, "connection"@) {
        Some(c) => c,
        None => body,
    }
}

fn given_connection(body: &Json) -> (r: &Json)
    ensures
        r@ == connection_given(body@),
{
    match body.get("connection") {
        Some(c) => c,
        None => body,
    }
}

/// The answer to a request to look a connection over.
pub open spec fn validation_reply(
    snap: SnapshotV,
    id: Seq<char>,
    descriptor: Result<SchemaDescriptor, DescriptorError>,
    body: JsonV,
) -> ReplyV {
    if driver_from(snap.drivers, id, 0) is None {
        no_driver_reply(id)
    } else {
        match descriptor {
            Err(e) => undescribed_reply(e@),
            Ok(d) => validity_reply(
                instance_issues(d.fields@, "connection"@, connection_given(body)),
            ),
        }
    }
}

/// Looks a connection over.
pub fn validate_connection(
    snapshot: &Snapshot,
    id: &str,
    descriptor: &Result<SchemaDescriptor, DescriptorError>,
    body: &Json,
) -> (r: ApiResponse)
    ensures
        r@ == validation_reply(snapshot@, id@, *descriptor, body@),
{
    match find_driver(snapshot, id) {
        Some(_) => {},
        None => {
            return no_driver(id);
        },
    }
    match descriptor {
        Ok(d) => validity(&validate_connection_against_schema(d, given_connection(body))),
        Err(e) => undescribed(e),
    }
}

// ---------------------------------------------------------------------------
// Trying a connection
// ---------------------------------------------------------------------------

/// The connection that is to be tried, as text, or the answer where it cannot be.
pub open spec fn tried_connection(known: bool, id: Seq<char>, body: JsonV) -> Result<
    Seq<char>,
    ReplyV,
> {
    if !known {
        Err(no_driver_reply(id))
    } else if connection_given(body) is Object {
        Ok(json_text(connection_given(body)))
    } else {
        Err(error_reply(400, "VALIDATION_ERROR"@, "connection must be an object"@))
    }
}

/// Takes a request to try a connection. `known` says whether there is such a driver.
pub fn probe_driver(known: bool, id: &str, body: &Json) -> (r: Result<String, ApiResponse>)
    ensures
        match r {
            Ok(t) => tried_connection(known, id@, body@) == Ok::<Seq<char>, ReplyV>(t@),
            Err(e) => tried_connection(known, id@, body@) == Err::<Seq<char>, ReplyV>(e@),
        },
{
    if !known {
        return Err(no_driver(id));
    }
    let conn: &Json = given_connection(body);
    if !conn.is_object() {
        return Err(complain(400, "VALIDATION_ERROR", "connection must be an object"));
    }
    Ok(conn.to_text())
}

/// Why a connection that was tried cannot be opened.
pub open spec fn trial_fault(answer: Result<FrameBody, SessionError>) -> Option<Seq<char>> {
    match answer {
        Err(e) => Some("open failed: "@ + session_error_text(e)),
        Ok(FrameBody::OpenConnectionAck(r)) => if went_well(r) {
            None
        } else {
            Some("open not ok"@)
        },
        Ok(FrameBody::DriverError { handle, detail }) => {
            let d = detail_or_nothing(detail);
            Some(d.kind + "/"@ + d.code + ": "@ + d.message)
        },
        Ok(_) => Some("open not ok"@),
    }
}

/// Takes the answer of a driver to the request to open the connection that is tried.
pub fn probe_opened(answer: Result<FrameBody, SessionError>) -> (r: Result<(), String>)
    ensures
        match r {
            Ok(()) => trial_fault(answer) is None,
            Err(m) => trial_fault(answer) == Some(m@),
        },
{
    match answer {
        Err(e) => {
            let text: String = e.message();
            Err(cat2("open failed: ", text.as_str()))
        },
        Ok(FrameBody::OpenConnectionAck(Some(r))) => if r.ok {
            Ok(())
        } else {
            Err("open not ok".to_owned())
        },
        Ok(FrameBody::OpenConnectionAck(None)) => Err("open not ok".to_owned()),
        Ok(FrameBody::DriverError { handle: _, detail }) => {
            let d = detail_of(detail);
            Err(cat5(d.kind.as_str(), "/", d.code.as_str(), ": ", d.message.as_str()))
        },
        Ok(_) => Err("open not ok".to_owned()),
    }
}

/// The answer to a request to try a connection, by what came of it: nothing where it took too
/// long.
pub open spec fn trial_reply(outcome: Option<Result<(), String>>) -> ReplyV {
    match outcome {
        None => error_reply(504, "TIMEOUT"@, "probe timeout"@),
        Some(Ok(())) => ReplyV {
            status: 200,
            body: JsonV::Object(
                seq![
                    ("reachable"@, JsonV::Bool(true)),
                    ("warnings"@, JsonV::Array(Seq::empty())),
                ],
            ),
        },
        Some(Err(m)) => ReplyV {
            status: 200,
            body: JsonV::Object(
                seq![
                    ("error"@, JsonV::String(m@)),
                    ("reachable"@, JsonV::Bool(false)),
                    ("warnings"@, JsonV::Array(Seq::empty())),
                ],
            ),
        },
    }
}

/// The answer to a request to try a connection.
pub fn probe_finished(outcome: Option<Result<(), String>>) -> (r: ApiResponse)
    ensures
        r@ == trial_reply(outcome),
{
    let none: Vec<Json> = Vec::new();
    assert(items_view(none@) =~= Seq::<JsonV>::empty());
    match outcome {
        None => complain(504, "TIMEOUT", "probe timeout"),
        Some(Ok(())) => reply(
            200,
            object2("reachable", truth_json(true), "warnings", list_json(none)),
        ),
        Some(Err(m)) => reply(
            200,
            object3(
                "error",
                text_json(m.as_str()),
                "reachable",
                truth_json(false),
                "warnings",
                list_json(none),
            ),
        ),
    }
}

// ---------------------------------------------------------------------------
// Browsing
// ---------------------------------------------------------------------------

/// A request for what a driver offers.
#[derive(Debug, PartialEq)]
pub struct BrowseReq {
    pub parent: Option<String>,
    pub filter: Option<String>,
    pub cursor: Option<String>,
    pub limit: Option<u32>,
}

/// What a driver is to be asked for.
#[derive(Debug, PartialEq)]
pub struct BrowsePlan {
    pub driver_id: String,
    pub connection_json: String,
    pub parent: String,
    pub filter: String,
    pub cursor: String,
    pub limit: u32,
}

/// A text that may be missing.
pub open spec fn text_or_empty(s: Option<String>) -> Seq<char> {
    match s {
        Some(x) => x@,
        None => Seq::empty(),
    }
}

fn text_or_nothing(s: Option<String>) -> (r: String)
    ensures
        r@ == text_or_empty(s),
{
    match s {
        Some(x) => x,
        None => {
            let r: String = String::new();
            assert(r@ =~= Seq::<char>::empty());
            r
        },
    }
}

/// How much is asked for at once: so much where nothing is said, and never more than so much.
pub open spec fn bounded(asked: Option<u32>, usual: u32, most: u32) -> u32 {
    let n = match asked {
        Some(n) => n,
        None => usual,
    };
    if n <= most {
        n
    } else {
        most
    }
}

fn bound(asked: Option<u32>, usual: u32, most: u32) -> (r: u32)
    ensures
        r == bounded(asked, usual, most),
{
    let n: u32 = match asked {
        Some(n) => n,
        None => usual,
    };
    if n <= most {
        n
    } else {
        most
    }
}

/// Never more than the most is asked for at once.
pub proof fn pages_are_bounded(asked: Option<u32>, usual: u32, most: u32)
    ensures
        bounded(asked, usual, most) <= most,
        asked is Some && asked->0 <= most ==> bounded(asked, usual, most) == asked->0,
{
}

/// The complaint that there is no such endpoint to be asked about.
pub open spec fn endpoint_unknown_reply(id: Seq<char>) -> ReplyV {
    error_reply(404, "NOT_FOUND"@, "endpoint `"@ + id + "` not found"@)
}

fn endpoint_unknown(id: &str) -> (r: ApiResponse)
    ensures
        r@ == endpoint_unknown_reply(id@),
{
    complain(404, "NOT_FOUND", cat3("endpoint `", id, "` not found").as_str())
}

/// The connection with which the driver of an endpoint is browsed.
pub open spec fn browsed_connection(
    s: StoreV,
    id: Seq<char>,
    descriptor: Result<SchemaDescriptor, DescriptorError>,
) -> Result<Seq<char>, ReplyV> {
    if !s.endpoints.contains_key(id) {
        Err(endpoint_unknown_reply(id))
    } else {
        connection_for(s, s.endpoints[id], descriptor)
    }
}

/// What the driver of an endpoint is to be asked for. Its secrets are put into the connection that
/// it gets.
pub fn browse_endpoint(
    store: &ConfigStore,
    id: &str,
    descriptor: &Result<SchemaDescriptor, DescriptorError>,
    body: BrowseReq,
) -> (r: Result<BrowsePlan, ApiResponse>)
    requires
        store_ok(store@),
    ensures
        match r {
            Ok(p) => {
                &&& browsed_connection(store@, id@, *descriptor) == Ok::<Seq<char>, ReplyV>(
                    p.connection_json@,
                )
                &&& p.driver_id@ == store@.endpoints[id@].driver_id
                &&& p.parent@ == text_or_empty(body.parent)
                &&& p.filter@ == text_or_empty(body.filter)
                &&& p.cursor@ == text_or_empty(body.cursor)
                &&& p.limit == bounded(body.limit, 50, 1000)
            },
            Err(e) => browsed_connection(store@, id@, *descriptor) == Err::<Seq<char>, ReplyV>(e@),
        },
{
    let rec: EndpointRecord = match store.get_endpoint(id) {
        Some(rec) => rec,
        None => {
            return Err(endpoint_unknown(id));
        },
    };
    let limit: u32 = bound(body.limit, 50, 1000);
    let schema: Result<&SchemaDescriptor, &DescriptorError> = match descriptor {
        Ok(d) => Ok(d),
        Err(e) => Err(e),
    };
    assert(told(schema) == *descriptor);
    match full_connection(store, &rec, schema) {
        Ok(connection_json) => Ok(
            BrowsePlan {
                driver_id: rec.driver_id,
                connection_json,
                parent: text_or_nothing(body.parent),
                filter: text_or_nothing(body.filter),
                cursor: text_or_nothing(body.cursor),
                limit,
            },
        ),
        Err(e) => Err(e),
    }
}

/// A node as a value.
pub open spec fn node_value(n: BrowseNode) -> JsonV {
    JsonV::Object(
        seq![
            ("access"@, JsonV::String(n.access@)),
            ("binding_json"@, JsonV::String(n.binding_json@)),
            ("data_type"@, JsonV::String(n.data_type@)),
            ("has_children"@, JsonV::Bool(n.has_children)),
            ("id"@, JsonV::String(n.id@)),
            ("kind"@, JsonV::String(n.kind@)),
            ("label"@, JsonV::String(n.label@)),
        ],
    )
}

/// The answer to a request for what a driver offers.
pub open spec fn browse_reply(
    outcome: Result<(Vec<BrowseNode>, Option<String>), DescriptorError>,
) -> ReplyV {
    match outcome {
        Ok(x) => ReplyV {
            status: 200,
            body: JsonV::Object(
                seq![
                    ("next_cursor"@, optional_text_value(maybe_text(x.1))),
                    ("nodes"@, JsonV::Array(x.0@.map_values(|n: BrowseNode| node_value(n)))),
                ],
            ),
        },
        Err(e) => if e.code@ == "BROWSE_FAILED"@ || e.code@ == "DRIVER_UNAVAILABLE"@ {
            error_reply(503, e.code@, e.message@)
        } else {
            error_reply(400, e.code@, e.message@)
        },
    }
}

/// The answer to a request for what a driver offers.
pub fn browse_finished(outcome: Result<(Vec<BrowseNode>, Option<String>), DescriptorError>) -> (r:
    ApiResponse)
    ensures
        r@ == browse_reply(outcome),
{
    match outcome {
        Ok((nodes, next)) => {
            let mut items: Vec<Json> = Vec::new();
            let mut i: usize = 0;
            while i < nodes.len()
                invariant
                    i <= nodes.len(),
                    items@.len() == i,
                    forall|j: int| 0 <= j < i ==> (#[trigger] items@[j])@ == node_value(nodes@[j]),
                decreases nodes.len() - i,
            {
                let n: &BrowseNode = &nodes[i];
                items.push(
                    object7(
                        "access",
                        text_json(n.access.as_str()),
                        "binding_json",
                        text_json(n.binding_json.as_str()),
                        "data_type",
                        text_json(n.data_type.as_str()),
                        "has_children",
                        truth_json(n.has_children),
                        "id",
                        text_json(n.id.as_str()),
                        "kind",
                        text_json(n.kind.as_str()),
                        "label",
                        text_json(n.label.as_str()),
                    ),
                );
                i = i + 1;
            }
            assert(items_view(items@) =~= nodes@.map_values(|n: BrowseNode| node_value(n)));
            reply(
                200,
                object2("next_cursor", optional_text_json(&next), "nodes", list_json(items)),
            )
        },
        Err(e) => if same_text(e.code.as_str(), "BROWSE_FAILED") || same_text(
            e.code.as_str(),
            "DRIVER_UNAVAILABLE",
        ) {
            complain(503, e.code.as_str(), e.message.as_str())
        } else {
            complain(400, e.code.as_str(), e.message.as_str())
        },
    }
}

/// The answer to a request to import what a file offers.
pub fn import_endpoint() -> (r: ApiResponse)
    ensures
        r@ == error_reply(501, "NOT_IMPLEMENTED"@, "import not yet implemented"@),
{
    complain(501, "NOT_IMPLEMENTED", "import not yet implemented")
}

// ---------------------------------------------------------------------------
// The log of control operations
// ---------------------------------------------------------------------------

/// A request for entries of the log.
#[derive(Debug, PartialEq)]
pub struct AuditQuery {
    pub endpoint_id: Option<String>,
    pub status: Option<String>,
    pub from_ns: Option<i64>,
    pub to_ns: Option<i64>,
    pub limit: Option<u32>,
    pub cursor: Option<String>,
}

/// A number that may be missing as a value.
pub open spec fn optional_integer_value(n: Option<i64>) -> JsonV {
    match n {
        Some(x) => integer_value(x),
        None => JsonV::Null,
    }
}

/// An entry of the log as a value.
pub open spec fn audit_value(a: AuditV) -> JsonV {
    JsonV::Object(
        seq![
            ("actor"@, JsonV::String(a.actor)),
            ("endpoint_id"@, JsonV::String(a.endpoint_id)),
            ("finished_at_ns"@, optional_integer_value(a.finished_at_ns)),
            ("operation_id"@, JsonV::String(a.operation_id)),
            ("operation_type"@, JsonV::String(a.operation_type)),
            ("request_id"@, JsonV::String(a.request_id)),
            ("request_json"@, JsonV::String(a.request_json)),
            ("result_json"@, optional_text_value(a.result_json)),
            ("started_at_ns"@, integer_value(a.started_at_ns)),
            ("status"@, JsonV::String(a.status)),
        ],
    )
}

fn audit_json(a: &ControlAuditRecord) -> (r: Json)
    ensures
        r@ == audit_value(a@),
{
    broadcast use lemma_json_view;

    let finished: Json = match a.finished_at_ns {
        Some(n) => integer_json(n),
        None => null_json(),
    };
    let mut o: Vec<(String, Json)> = Vec::new();
    put(&mut o, "actor", text_json(a.actor.as_str()));
    put(&mut o, "endpoint_id", text_json(a.endpoint_id.as_str()));
    put(&mut o, "finished_at_ns", finished);
    put(&mut o, "operation_id", text_json(a.operation_id.as_str()));
    put(&mut o, "operation_type", text_json(a.operation_type.as_str()));
    put(&mut o, "request_id", text_json(a.request_id.as_str()));
    put(&mut o, "request_json", text_json(a.request_json.as_str()));
    put(&mut o, "result_json", optional_text_json(&a.result_json));
    put(&mut o, "started_at_ns", integer_json(a.started_at_ns));
    put(&mut o, "status", text_json(a.status.as_str()));
    assert(entries_view(o@) =~= audit_value(a@)->Object_0);
    Json::Object(o)
}

/// The entries of the log that a request asks for.
pub open spec fn asked_entries(s: StoreV, q: AuditQuery) -> Seq<AuditV> {
    audits_page(
        s.audits,
        AuditFilterV {
            endpoint_id: maybe_text(q.endpoint_id),
            status: maybe_text(q.status),
            from_ns: q.from_ns,
            to_ns: q.to_ns,
            cursor: maybe_text(q.cursor),
        },
        bounded(q.limit, 50, 200) as int,
    )
}

/// Where the next entries begin.
pub open spec fn next_entry(list: Seq<AuditV>) -> JsonV {
    if list.len() == 0 {
        JsonV::Null
    } else {
        JsonV::String(signed_decimal(list.last().started_at_ns as int))
    }
}

/// Entries of the log as a value.
pub open spec fn audits_value(list: Seq<AuditV>) -> JsonV {
    JsonV::Object(
        seq![
            ("audits"@, JsonV::Array(list.map_values(|a: AuditV| audit_value(a)))),
            ("count"@, count_value(list.len() as u64)),
            ("next_cursor"@, next_entry(list)),
        ],
    )
}

fn lent(s: &Option<String>) -> (r: Option<&str>)
    ensures
        crate::audit::maybe_str(r) == maybe_text(*s),
{
    match s {
        Some(x) => Some(x.as_str()),
        None => None,
    }
}

/// The answer to a request for entries of the log.
pub fn list_control_audit(store: &ConfigStore, q: &AuditQuery) -> (r: ApiResponse)
    ensures
        r@ == (ReplyV { status: 200, body: audits_value(asked_entries(store@, *q)) }),
{
    let list: Vec<ControlAuditRecord> = store.list_control_audit(
        lent(&q.endpoint_id),
        lent(&q.status),
        q.from_ns,
        q.to_ns,
        bound(q.limit, 50, 200),
        lent(&q.cursor),
    );
    let ghost all = audits_view(list@);
    let next: Json = if list.len() == 0 {
        null_json()
    } else {
        let last: &ControlAuditRecord = &list[list.len() - 1];
        assert(all.last() == last@);
        text_json(signed_decimal_text(last.started_at_ns).as_str())
    };
    let mut items: Vec<Json> = Vec::new();
    let mut i: usize = 0;
    while i < list.len()
        invariant
            i <= list.len(),
            items@.len() == i,
            forall|j: int| 0 <= j < i ==> (#[trigger] items@[j])@ == audit_value(list@[j]@),
        decreases list.len() - i,
    {
        items.push(audit_json(&list[i]));
        i = i + 1;
    }
    assert(items_view(items@) =~= all.map_values(|a: AuditV| audit_value(a)));
    let count: u64 = list.len() as u64;
    reply(
        200,
        object3("audits", list_json(items), "count", count_json(count), "next_cursor", next),
    )
}

/// The answer to a request for an entry of the log.
pub fn get_control_audit(store: &ConfigStore, request_id: &str) -> (r: ApiResponse)
    ensures
        if has_request(store@.audits, request_id@) {
            exists|a: AuditV|
                is_request(a, request_id@) && store@.audits.contains(a) && r@ == (ReplyV {
                    status: 200,
                    body: #[trigger] audit_value(a),
                })
        } else {
            r@ == error_reply(404, "NOT_FOUND"@, "audit `"@ + request_id@ + "` not found"@)
        },
{
    match store.get_control_audit(request_id) {
        Some(a) => {
            let ghost v = a@;
            assert(has_request(store@.audits, request_id@)) by {
                let i = choose|i: int| 0 <= i < store@.audits.len() && store@.audits[i] == v;
                assert(is_request(store@.audits[i], request_id@));
            }
            let r: ApiResponse = reply(200, audit_json(&a));
            assert(r@ == (ReplyV { status: 200, body: audit_value(v) }));
            r
        },
        None => complain(404, "NOT_FOUND", cat3("audit `", request_id, "` not found").as_str()),
    }
}

// ---------------------------------------------------------------------------
// How things are doing
// ---------------------------------------------------------------------------

/// The state of an endpoint as far as it is known.
pub open spec fn state_known(s: Option<StatusV>) -> Seq<char> {
    match s {
        Some(x) => x.state,
        None => "UNKNOWN"@,
    }
}

/// The version of a driver as far as it is known.
pub open spec fn version_known(d: Option<DriverInfoV>) -> Seq<char> {
    match d {
        Some(x) => x.version,
        None => ""@,
    }
}

/// How an endpoint is doing, at length.
pub open spec fn endpoint_diagnosis(s: StoreV, snap: SnapshotV, id: Seq<char>) -> JsonV {
    let rec = s.endpoints[id];
    let runtime = runtime_of(snap, id);
    let driver = driver_from(snap.drivers, rec.driver_id, 0);
    JsonV::Object(
        seq![
            ("connection_state"@, JsonV::String(state_known(runtime))),
            ("control_queue_depth"@, count_value(0)),
            ("data_queue_depth"@, count_value(0)),
            ("descriptor_state"@, JsonV::String("Ready"@)),
            ("desired_running"@, JsonV::Bool(rec.desired_running)),
            ("driver_id"@, JsonV::String(rec.driver_id)),
            ("driver_version"@, JsonV::String(version_known(driver))),
            ("endpoint_id"@, JsonV::String(id)),
            ("last_connected_at_ns"@, JsonV::Null),
            (
                "point_count"@,
                count_value(ordered_keys(active_points(registry_of(s, id))).len() as u64),
            ),
            ("profile_state"@, JsonV::String("None"@)),
            ("reconnect_attempt_total"@, count_value(0)),
            ("runtime"@, runtime_value(runtime)),
        ],
    )
}

/// The answer to a request for how an endpoint is doing, at length.
pub fn endpoint_diagnostics(store: &ConfigStore, snapshot: &Snapshot, id: &str) -> (r: ApiResponse)
    requires
        store_ok(store@),
    ensures
        if store@.endpoints.contains_key(id@) {
            r@ == (ReplyV { status: 200, body: endpoint_diagnosis(store@, snapshot@, id@) })
        } else {
            r@ == endpoint_unknown_reply(id@)
        },
{
    broadcast use lemma_json_view;

    let rec: EndpointRecord = match store.get_endpoint(id) {
        Some(rec) => rec,
        None => {
            return endpoint_unknown(id);
        },
    };
    let runtime: Option<EndpointStatus> = snapshot.endpoint(id);
    let points: usize = store.point_map(id).len();
    let version: String = match find_driver(snapshot, rec.driver_id.as_str()) {
        Some(d) => d.version,
        None => "".to_owned(),
    };
    let (state, shown): (String, Json) = match runtime {
        Some(s) => (s.state.clone(), s.to_json()),
        None => ("UNKNOWN".to_owned(), null_json()),
    };
    let mut o: Vec<(String, Json)> = Vec::new();
    put(&mut o, "connection_state", text_json(state.as_str()));
    put(&mut o, "control_queue_depth", count_json(0));
    put(&mut o, "data_queue_depth", count_json(0));
    put(&mut o, "descriptor_state", text_json("Ready"));
    put(&mut o, "desired_running", truth_json(rec.desired_running));
    put(&mut o, "driver_id", text_json(rec.driver_id.as_str()));
    put(&mut o, "driver_version", text_json(version.as_str()));
    put(&mut o, "endpoint_id", text_json(rec.id.as_str()));
    put(&mut o, "last_connected_at_ns", null_json());
    put(&mut o, "point_count", count_json(points as u64));
    put(&mut o, "profile_state", text_json("None"));
    put(&mut o, "reconnect_attempt_total", count_json(0));
    put(&mut o, "runtime", shown);
    assert(entries_view(o@) =~= endpoint_diagnosis(store@, snapshot@, id@)->Object_0);
    reply(200, Json::Object(o))
}

/// The answer to a request for how an endpoint is doing.
pub fn endpoint_state(snapshot: &Snapshot, id: &str) -> (r: ApiResponse)
    ensures
        match runtime_of(snapshot@, id@) {
            Some(s) => r@ == (ReplyV { status: 200, body: status_value(s) }),
            None => r@ == error_reply(200, "NOT_FOUND"@, "endpoint `"@ + id@ + "`"@),
        },
{
    match snapshot.endpoint(id) {
        Some(s) => reply(200, s.to_json()),
        None => complain(200, "NOT_FOUND", cat3("endpoint `", id, "`").as_str()),
    }
}

/// The latest values as a value.
pub open spec fn points_value(list: Seq<LatestV>) -> JsonV {
    JsonV::Object(
        seq![
            ("count"@, count_value(list.len() as u64)),
            ("points"@, JsonV::Array(list.map_values(|e: LatestV| latest_value(e)))),
        ],
    )
}

/// The answer to a request for the latest values.
pub fn latest_points(snapshot: &Snapshot) -> (r: ApiResponse)
    ensures
        r@ == (ReplyV { status: 200, body: points_value(all_entries(snapshot@.latest)) }),
{
    let list: Vec<LatestEntry> = snapshot.latest_all();
    let ghost all = latest_view(list@);
    let mut items: Vec<Json> = Vec::new();
    let mut i: usize = 0;
    while i < list.len()
        invariant
            i <= list.len(),
            items@.len() == i,
            forall|j: int| 0 <= j < i ==> (#[trigger] items@[j])@ == latest_value(list@[j]@),
        decreases list.len() - i,
    {
        items.push(list[i].to_json());
        i = i + 1;
    }
    assert(items_view(items@) =~= all.map_values(|e: LatestV| latest_value(e)));
    let count: u64 = list.len() as u64;
    reply(200, object2("count", count_json(count), "points", list_json(items)))
}

/// How all endpoints are doing.
pub open spec fn states_value(snap: SnapshotV) -> JsonV {
    JsonV::Array(
        ordered_keys(snap.endpoints).map_values(|k: Seq<char>| status_value(snap.endpoints[k])),
    )
}

/// How all is doing. `uptime` is the bit pattern of the seconds since the start.
pub open spec fn diagnosis(
    s: StoreV,
    snap: SnapshotV,
    uptime: u64,
    certificates: JsonV,
    version: Seq<char>,
) -> JsonV {
    JsonV::Object(
        seq![
            ("certificates"@, certificates),
            (
                "devices"@,
                JsonV::Object(
                    seq![("stored"@, count_value(ordered_keys(s.devices).len() as u64))],
                ),
            ),
            (
                "drivers"@,
                JsonV::Object(seq![("count"@, count_value(snap.drivers.len() as u64))]),
            ),
            (
                "endpoints"@,
                JsonV::Object(
                    seq![
                        ("runtime"@, count_value(ordered_keys(snap.endpoints).len() as u64)),
                        ("states"@, states_value(snap)),
                        ("stored"@, count_value(ordered_keys(s.endpoints).len() as u64)),
                    ],
                ),
            ),
            ("uptime_secs"@, JsonV::Number(JsonNumber::Float(Double { bits: uptime }))),
            ("version"@, JsonV::String(version)),
        ],
    )
}

/// The answer to a request for how all is doing.
pub fn diagnostics(
    store: &ConfigStore,
    snapshot: &Snapshot,
    uptime: u64,
    certificates: Json,
    version: &str,
) -> (r: ApiResponse)
    requires
        store_ok(store@),
    ensures
        r@ == (ReplyV {
            status: 200,
            body: diagnosis(store@, snapshot@, uptime, certificates@, version@),
        }),
{
    let drivers: Vec<DriverInfo> = snapshot.drivers();
    let states: Vec<EndpointStatus> = snapshot.endpoints();
    let stored = store.list_endpoints();
    let devices = store.list_devices();
    proof {
        crate::table::lemma_order(stored@.map_values(|e: EndpointRecord| e.id@), store@.endpoints);
        crate::table::lemma_order(
            devices@.map_values(|d: crate::store::DeviceRecord| d.id@),
            store@.devices,
        );
        assert(drivers_view(drivers@).len() == drivers@.len());
    }
    let ghost rows = ordered_keys(snapshot@.endpoints).map_values(
        |k: Seq<char>| snapshot@.endpoints[k],
    );
    let ghost seen = states@.map_values(|e: EndpointStatus| e@);
    assert(seen == rows);
    let mut items: Vec<Json> = Vec::new();
    let mut i: usize = 0;
    while i < states.len()
        invariant
            i <= states.len(),
            items@.len() == i,
            forall|j: int| 0 <= j < i ==> (#[trigger] items@[j])@ == status_value(states@[j]@),
        decreases states.len() - i,
    {
        items.push(states[i].to_json());
        i = i + 1;
    }
    proof {
        let want = states_value(snapshot@)->Array_0;
        assert(seen.len() == states@.len());
        assert forall|j: int| 0 <= j < items@.len() implies items_view(items@)[j] == want[j] by {
            assert(seen[j] == states@[j]@);
            assert(rows[j] == snapshot@.endpoints[ordered_keys(snapshot@.endpoints)[j]]);
        }
        assert(items_view(items@) =~= want);
    }
    let running: u64 = states.len() as u64;
    reply(
        200,
        object6(
            "certificates",
            certificates,
            "devices",
            object1("stored", count_json(devices.len() as u64)),
            "drivers",
            object1("count", count_json(drivers.len() as u64)),
            "endpoints",
            object3(
                "runtime",
                count_json(running),
                "states",
                list_json(items),
                "stored",
                count_json(stored.len() as u64),
            ),
            "uptime_secs",
            Json::Number(JsonNumber::Float(Double { bits: uptime })),
            "version",
            text_json(version),
        ),
    )
}

/// A driver is found by its id: the first that has it, and none only where no driver has it.
pub proof fn drivers_are_found_by_id(list: Seq<DriverInfoV>, id: Seq<char>, i: int)
    requires
        0 <= i <= list.len(),
    ensures
        driver_from(list, id, i) matches Some(d) ==> d.id == id && exists|k: int|
            i <= k < list.len() && #[trigger] list[k] == d && forall|j: int|
                i <= j < k ==> (#[trigger] list[j]).id != id,
        driver_from(list, id, i) is None <==> forall|j: int|
            i <= j < list.len() ==> (#[trigger] list[j]).id != id,
    decreases list.len() - i,
{
    if i < list.len() && list[i].id != id {
        drivers_are_found_by_id(list, id, i + 1);
    }
}

/// All drivers are shown, in the order in which they were found.
pub proof fn all_drivers_are_shown(list: Seq<DriverInfoV>, i: int)
    requires
        0 <= i < list.len(),
    ensures
        drivers_value(list) matches JsonV::Object(o) && o.len() == 1 && o[0].0 == "drivers"@ && (
        o[0].1 matches JsonV::Array(a) && a.len() == list.len() && a[i] == driver_value(list[i])),
        driver_value(list[i]) matches JsonV::Object(o) && o.len() == 6 && o[0] == (
            "id"@,
            JsonV::String(list[i].id),
        ) && o[1] == ("launchable"@, JsonV::Bool(list[i].launchable)) && o[2] == (
            "name"@,
            JsonV::String(list[i].name),
        ) && o[3] == ("protocol"@, JsonV::String(list[i].protocol)) && o[5] == (
            "version"@,
            JsonV::String(list[i].version),
        ),
{
}

/// What is wrong with a descriptor is told with 503, whatever it is.
pub proof fn bad_descriptors_are_told(e: DescriptorFault)
    ensures
        descriptor_reply(e).status == 503,
        e.code == "DRIVER_DESCRIPTOR_VALIDATION_FAILED"@ ==> (descriptor_reply(
            e,
        ).body matches JsonV::Object(o) && o.len() == 1 && o[0].0 == "error"@ && (
        o[0].1 matches JsonV::Object(x) && x.len() == 3 && x[0] == ("code"@, JsonV::String(e.code))
            && x[2] == ("message"@, JsonV::String(e.message)))),
        e.code != "DRIVER_DESCRIPTOR_VALIDATION_FAILED"@ ==> descriptor_reply(e) == error_reply(
            503,
            e.code,
            e.message,
        ),
{
}

/// A connection is held against the schema of a driver that is there and describes itself; it is
/// the body, or what stands under its name there.
pub proof fn connections_are_held_against_the_schema(
    snap: SnapshotV,
    id: Seq<char>,
    descriptor: Result<SchemaDescriptor, DescriptorError>,
    body: JsonV,
)
    ensures
        (forall|j: int| 0 <= j < snap.drivers.len() ==> (#[trigger] snap.drivers[j]).id != id)
            ==> validation_reply(snap, id, descriptor, body).status == 404,
        (exists|j: int| 0 <= j < snap.drivers.len() && (#[trigger] snap.drivers[j]).id == id) ==> (
        match descriptor {
            Err(e) => validation_reply(snap, id, descriptor, body).status == 503,
            Ok(d) => {
                let given = if json_get(body, "connection"@) is Some {
                    json_get(body, "connection"@)->0
                } else {
                    body
                };
                let issues = instance_issues(d.fields@, "connection"@, given);
                &&& validation_reply(snap, id, descriptor, body).status == 200 <==> issues.len()
                    == 0
                &&& validation_reply(snap, id, descriptor, body) == validity_reply(issues)
            },
        }),
{
    drivers_are_found_by_id(snap.drivers, id, 0);
}

/// A connection is tried where the driver is there and it is an object.
pub proof fn connections_are_tried_when_they_are_objects(known: bool, id: Seq<char>, body: JsonV)
    ensures
        !known ==> (tried_connection(known, id, body) matches Err(r) && r.status == 404),
        known && json_get(body, "connection"@) is None && !(body is Object) ==> (tried_connection(
            known,
            id,
            body,
        ) matches Err(r) && r.status == 400),
        known && json_get(body, "connection"@) is None && body is Object ==> tried_connection(
            known,
            id,
            body,
        ) == Ok::<Seq<char>, ReplyV>(json_text(body)),
        known && json_get(body, "connection"@) is Some && json_get(body, "connection"@)->0 is Object
            ==> tried_connection(known, id, body) == Ok::<Seq<char>, ReplyV>(
            json_text(json_get(body, "connection"@)->0),
        ),
        known && json_get(body, "connection"@) is Some && !(json_get(body, "connection"@)->0
            is Object) ==> (tried_connection(known, id, body) matches Err(r) && r.status == 400),
{
}

/// A trial went well exactly where the driver acknowledges the connection; it is told as reachable
/// then, and with 200 where it is not, but with 504 where the driver says nothing.
pub proof fn trials_are_told_as_they_went(answer: Result<FrameBody, SessionError>, m: String)
    ensures
        trial_fault(answer) is None <==> (answer is Ok && answer->Ok_0 is OpenConnectionAck
            && answer->Ok_0->OpenConnectionAck_0 is Some
            && answer->Ok_0->OpenConnectionAck_0->Some_0.ok),
        trial_reply(None).status == 504,
        trial_reply(Some(Ok(()))).status == 200,
        trial_reply(Some(Ok(()))).body matches JsonV::Object(o) && o[0] == (
            "reachable"@,
            JsonV::Bool(true),
        ),
        trial_reply(Some(Err(m))).status == 200,
        trial_reply(Some(Err(m))).body matches JsonV::Object(o) && o[0] == (
            "error"@,
            JsonV::String(m@),
        ) && o[1] == ("reachable"@, JsonV::Bool(false)),
{
}

/// As many are given as are asked for, but no more than the most; the usual number where nothing is
/// asked for.
pub proof fn as_many_are_given_as_are_asked_for(n: u32, usual: u32, most: u32)
    ensures
        n <= most ==> bounded(Some(n), usual, most) == n,
        n > most ==> bounded(Some(n), usual, most) == most,
        usual <= most ==> bounded(None, usual, most) == usual,
        usual > most ==> bounded(None, usual, most) == most,
{
}

/// The nodes of a device are told field by field; what failed is told with 503 where the driver is
/// at fault and with 400 where the request is.
pub proof fn nodes_are_told_field_by_field(
    n: BrowseNode,
    nodes: Vec<BrowseNode>,
    cursor: Option<String>,
    e: DescriptorError,
)
    ensures
        node_value(n) matches JsonV::Object(o) && o.len() == 7 && o[0] == (
            "access"@,
            JsonV::String(n.access@),
        ) && o[1] == ("binding_json"@, JsonV::String(n.binding_json@)) && o[2] == (
            "data_type"@,
            JsonV::String(n.data_type@),
        ) && o[3] == ("has_children"@, JsonV::Bool(n.has_children)) && o[4] == (
            "id"@,
            JsonV::String(n.id@),
        ) && o[5] == ("kind"@, JsonV::String(n.kind@)) && o[6] == (
            "label"@,
            JsonV::String(n.label@),
        ),
        browse_reply(Ok((nodes, cursor))).status == 200,
        browse_reply(Ok((nodes, cursor))).body matches JsonV::Object(o) && o.len() == 2 && o[0].0
            == "next_cursor"@ && (cursor is None ==> o[0].1 is Null) && (cursor is Some ==> o[0].1
            == JsonV::String(cursor->0@)) && o[1].0 == "nodes"@ && (o[1].1 matches JsonV::Array(a)
            && a.len() == nodes@.len() && forall|i: int|
            0 <= i < a.len() ==> #[trigger] a[i] == node_value(nodes@[i])),
        browse_reply(Err(e)).status == 503 <==> e.code@ == "BROWSE_FAILED"@ || e.code@
            == "DRIVER_UNAVAILABLE"@,
        browse_reply(Err(e)).status == 400 <==> e.code@ != "BROWSE_FAILED"@ && e.code@
            != "DRIVER_UNAVAILABLE"@,
{
}

/// A record of the log is told field by field.
pub proof fn records_are_told_field_by_field(a: AuditV)
    ensures
        audit_value(a) matches JsonV::Object(o) && {
            &&& o.len() == 10
            &&& o[0] == ("actor"@, JsonV::String(a.actor))
            &&& o[1] == ("endpoint_id"@, JsonV::String(a.endpoint_id))
            &&& o[2].0 == "finished_at_ns"@
            &&& a.finished_at_ns is None ==> o[2].1 is Null
            &&& a.finished_at_ns is Some ==> o[2].1 == integer_value(a.finished_at_ns->0)
            &&& o[3] == ("operation_id"@, JsonV::String(a.operation_id))
            &&& o[4] == ("operation_type"@, JsonV::String(a.operation_type))
            &&& o[5] == ("request_id"@, JsonV::String(a.request_id))
            &&& o[6] == ("request_json"@, JsonV::String(a.request_json))
            &&& o[7].0 == "result_json"@
            &&& a.result_json is None ==> o[7].1 is Null
            &&& a.result_json is Some ==> o[7].1 == JsonV::String(a.result_json->0)
            &&& o[8] == ("started_at_ns"@, integer_value(a.started_at_ns))
            &&& o[9] == ("status"@, JsonV::String(a.status))
        },
{
}

/// A page of the log is told with how many records it has, and with the time of its last one as the
/// place to go on from.
pub proof fn pages_are_told_with_where_to_go_on(list: Seq<AuditV>)
    requires
        list.len() <= u64::MAX,
    ensures
        audits_value(list) matches JsonV::Object(o) && {
            &&& o.len() == 3
            &&& o[0].0 == "audits"@
            &&& o[0].1 matches JsonV::Array(a) && a.len() == list.len() && forall|i: int|
                0 <= i < a.len() ==> #[trigger] a[i] == audit_value(list[i])
            &&& o[1] == ("count"@, JsonV::Number(JsonNumber::PosInt(list.len() as u64)))
            &&& o[2].0 == "next_cursor"@
            &&& list.len() == 0 ==> o[2].1 is Null
            &&& list.len() > 0 ==> o[2].1 == JsonV::String(
                signed_decimal(list[list.len() - 1].started_at_ns as int),
            )
        },
{
}

/// What is known of an endpoint is told field by field.
pub proof fn endpoints_are_diagnosed_field_by_field(s: StoreV, snap: SnapshotV, id: Seq<char>)
    ensures
        endpoint_diagnosis(s, snap, id) matches JsonV::Object(o) && {
            &&& o.len() == 13
            &&& o[0].0 == "connection_state"@
            &&& snap.endpoints.contains_key(id) ==> o[0].1 == JsonV::String(snap.endpoints[id].state)
            &&& !snap.endpoints.contains_key(id) ==> o[0].1 == JsonV::String("UNKNOWN"@)
            &&& o[4] == ("desired_running"@, JsonV::Bool(s.endpoints[id].desired_running))
            &&& o[5] == ("driver_id"@, JsonV::String(s.endpoints[id].driver_id))
            &&& o[6].0 == "driver_version"@
            &&& driver_from(snap.drivers, s.endpoints[id].driver_id, 0) matches Some(d) ==> o[6].1
                == JsonV::String(d.version)
            &&& o[7] == ("endpoint_id"@, JsonV::String(id))
            &&& o[9].0 == "point_count"@
            &&& o[9].1 == JsonV::Number(
                JsonNumber::PosInt(ordered_keys(active_points(registry_of(s, id))).len() as u64),
            )
        },
{
}

/// Points are told with how many they are, in their order.
pub proof fn points_are_told_with_their_number(list: Seq<LatestV>, i: int)
    requires
        0 <= i < list.len() <= u64::MAX,
    ensures
        points_value(list) matches JsonV::Object(o) && o.len() == 2 && o[0] == (
            "count"@,
            JsonV::Number(JsonNumber::PosInt(list.len() as u64)),
        ) && o[1].0 == "points"@ && (o[1].1 matches JsonV::Array(a) && a.len() == list.len() && a[i]
            == latest_value(list[i])),
{
}

/// The log is asked for by what the query names, fifty records at a time and no more than two
/// hundred.
pub proof fn the_log_is_asked_for_by_what_is_named(s: StoreV, q: AuditQuery, x: AuditV)
    ensures
        asked_entries(s, q).len() <= 200,
        q.limit is None ==> asked_entries(s, q).len() <= 50,
        q.limit is Some ==> asked_entries(s, q).len() <= q.limit->0,
        asked_entries(s, q).contains(x) ==> (q.endpoint_id is Some ==> x.endpoint_id
            == q.endpoint_id->0@) && (q.status is Some ==> x.status == q.status->0@) && (q.from_ns
            is Some ==> x.started_at_ns >= q.from_ns->0) && (q.to_ns is Some && x.finished_at_ns
            is Some ==> x.finished_at_ns->0 <= q.to_ns->0),
{
    let f = AuditFilterV {
        endpoint_id: maybe_text(q.endpoint_id),
        status: maybe_text(q.status),
        from_ns: q.from_ns,
        to_ns: q.to_ns,
        cursor: maybe_text(q.cursor),
    };
    let n = bounded(q.limit, 50, 200) as int;
    page_is_as_asked(s.audits, f, n);
    if asked_entries(s, q).contains(x) {
        let i = choose|i: int| 0 <= i < asked_entries(s, q).len() && asked_entries(s, q)[i] == x;
        assert(is_asked_for(audits_page(s.audits, f, n)[i], f));
    }
}

/// A device is looked through with the connection of its endpoint, where that is there.
pub proof fn devices_are_looked_through_by_their_endpoint(
    s: StoreV,
    id: Seq<char>,
    descriptor: Result<SchemaDescriptor, DescriptorError>,
)
    ensures
        !s.endpoints.contains_key(id) ==> (browsed_connection(s, id, descriptor) matches Err(r)
            && r.status == 404),
        s.endpoints.contains_key(id) ==> browsed_connection(s, id, descriptor) == connection_for(
            s,
            s.endpoints[id],
            descriptor,
        ),
{
}

/// What is known of the whole is told part by part.
pub proof fn the_whole_is_diagnosed_part_by_part(
    s: StoreV,
    snap: SnapshotV,
    uptime: u64,
    certificates: JsonV,
    version: Seq<char>,
)
    ensures
        diagnosis(s, snap, uptime, certificates, version) matches JsonV::Object(o) && {
            &&& o.len() == 6
            &&& o[0] == ("certificates"@, certificates)
            &&& o[1].0 == "devices"@
            &&& o[1].1 matches JsonV::Object(d) && d[0] == (
                "stored"@,
                JsonV::Number(JsonNumber::PosInt(ordered_keys(s.devices).len() as u64)),
            )
            &&& o[2].0 == "drivers"@
            &&& o[2].1 matches JsonV::Object(d) && d[0] == (
                "count"@,
                JsonV::Number(JsonNumber::PosInt(snap.drivers.len() as u64)),
            )
            &&& o[3].0 == "endpoints"@
            &&& o[3].1 matches JsonV::Object(d) && d[0] == (
                "runtime"@,
                JsonV::Number(JsonNumber::PosInt(ordered_keys(snap.endpoints).len() as u64)),
            ) && d[2] == (
                "stored"@,
                JsonV::Number(JsonNumber::PosInt(ordered_keys(s.endpoints).len() as u64)),
            )
            &&& o[5] == ("version"@, JsonV::String(version))
        },
{
}

} // verus!
