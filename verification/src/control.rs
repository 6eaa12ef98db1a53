//! Control operations: what is asked of a driver, what is logged of it, and what is answered.
use vstd::prelude::*;

use crate::api::{
    complain, error_reply, object2, object3, object4, reply, text_json, ApiResponse, ReplyV,
};
use crate::audit::{has_request, AuditV, ControlAuditRecord};
use crate::json::{
    entries_view, entry, items_view, json_parsed, json_text, json_view, lemma_json_view, number_int,
    object_get, Json, JsonNumber, JsonV,
};
use crate::render::{items_debug, json_list_debug, value_debug, value_json};
use crate::schema::maybe_text;
use crate::store::{audit_finished, store_ok, ConfigStore, StoreV};
use crate::text::{
    blank, cat2, cat3, cat4, cat5, is_blank, same_text, signed_decimal, signed_decimal_text, trim,
    trimmed,
};
use crate::types::{TypedValue, ValueV};

verus! {

// ---------------------------------------------------------------------------
// Values that are given
// ---------------------------------------------------------------------------

/// A value as it was given, and what it reads as where it is an object that names a variant.
#[derive(Debug, PartialEq)]
pub struct GivenValue {
    pub value: Json,
    pub tagged: Result<TypedValue, String>,
}

/// What a [`GivenValue`] is.
pub struct GivenV {
    pub value: JsonV,
    pub tagged: Result<ValueV, Seq<char>>,
}

impl View for GivenValue {
    type V = GivenV;

    open spec fn view(&self) -> GivenV {
        GivenV {
            value: self.value@,
            tagged: match self.tagged {
                Ok(v) => Ok(v@),
                Err(e) => Err(e@),
            },
        }
    }
}

/// The value that a number stands for: the smallest signed integer that holds it, or else the
/// largest unsigned one, or else a floating point value.
pub open spec fn number_value(n: JsonNumber) -> ValueV {
    match number_int(n) {
        Some(i) => if i32::MIN <= i <= i32::MAX {
            ValueV::I32(i as i32)
        } else {
            ValueV::I64(i)
        },
        None => match n {
            JsonNumber::PosInt(u) => ValueV::U64(u),
            JsonNumber::NegInt(i) => ValueV::I64(i),
            JsonNumber::Float(x) => ValueV::F64(x),
        },
    }
}

/// The value that a given one stands for.
pub open spec fn meant_value(g: GivenV) -> Result<ValueV, Seq<char>> {
    match g.value {
        JsonV::Bool(b) => Ok(ValueV::Bool(b)),
        JsonV::Number(n) => Ok(number_value(n)),
        JsonV::String(s) => Ok(ValueV::String(s)),
        JsonV::Array(a) => Err(
            "array value not supported in control write: "@ + ("["@ + items_debug(a) + "]"@),
        ),
        JsonV::Null => Err("null value not allowed"@),
        JsonV::Object(o) => g.tagged,
    }
}

fn number_to_value(n: JsonNumber) -> (r: TypedValue)
    ensures
        r@ == number_value(n),
{
    match n.as_i64() {
        Some(i) => if i >= -0x8000_0000 && i <= 0x7fff_ffff {
            TypedValue::I32(i as i32)
        } else {
            TypedValue::I64(i)
        },
        None => match n {
            JsonNumber::PosInt(u) => TypedValue::U64(u),
            JsonNumber::NegInt(i) => TypedValue::I64(i),
            JsonNumber::Float(x) => TypedValue::F64(x),
        },
    }
}

pub fn json_to_value(v: GivenValue) -> (r: Result<TypedValue, String>)
    ensures
        match r {
            Ok(x) => meant_value(v@) == Ok::<ValueV, Seq<char>>(x@),
            Err(e) => meant_value(v@) == Err::<ValueV, Seq<char>>(e@),
        },
{
    broadcast use lemma_json_view;

    match v.value {
        Json::Bool(b) => Ok(TypedValue::Bool(b)),
        Json::Number(n) => Ok(number_to_value(n)),
        Json::String(s) => Ok(TypedValue::String(s)),
        Json::Array(a) => {
            let shown: String = json_list_debug(&a);
            Err(cat2("array value not supported in control write: ", shown.as_str()))
        },
        Json::Null => Err("null value not allowed".to_owned()),
        Json::Object(_) => v.tagged,
    }
}

// ---------------------------------------------------------------------------
// What is common to control operations
// ---------------------------------------------------------------------------

/// Why an endpoint may not be controlled.
pub open spec fn control_refused(enabled: bool, s: StoreV, id: Seq<char>) -> Option<ReplyV> {
    if !enabled {
        Some(
            error_reply(
                503,
                "CONTROL_DISABLED"@,
                "control plane disabled, start mesad with --enable-control"@,
            ),
        )
    } else if !s.endpoints.contains_key(id) {
        Some(error_reply(404, "NOT_FOUND"@, "endpoint `"@ + id + "` not found"@))
    } else {
        None
    }
}

fn refuse_control(enabled: bool, store: &ConfigStore, id: &str) -> (r: Result<(), ApiResponse>)
    ensures
        match r {
            Ok(()) => control_refused(enabled, store@, id@) is None,
            Err(e) => control_refused(enabled, store@, id@) == Some(e@),
        },
{
    if !enabled {
        return Err(
            complain(
                503,
                "CONTROL_DISABLED",
                "control plane disabled, start mesad with --enable-control",
            ),
        );
    }
    match store.get_endpoint(id) {
        Some(_) => Ok(()),
        None => Err(complain(404, "NOT_FOUND", cat3("endpoint `", id, "` not found").as_str())),
    }
}

/// The record of an operation that has begun.
pub open spec fn begun_record(
    request_id: Seq<char>,
    endpoint_id: Seq<char>,
    operation_type: Seq<char>,
    operation_id: Seq<char>,
    request_json: Seq<char>,
    started_at_ns: i64,
) -> AuditV {
    AuditV {
        request_id,
        endpoint_id,
        actor: "local-api"@,
        operation_type,
        operation_id,
        request_json,
        result_json: None,
        status: "STARTED"@,
        started_at_ns,
        finished_at_ns: None,
    }
}

/// The store with a record of an operation that has begun. A record with a known id is not kept,
/// and the operation goes on all the same.
pub open spec fn begun(s: StoreV, rec: AuditV) -> StoreV {
    if has_request(s.audits, rec.request_id) {
        s
    } else {
        StoreV { audits: s.audits.push(rec), ..s }
    }
}

/// The store with what came of an operation.
pub open spec fn finished(
    s: StoreV,
    request_id: Seq<char>,
    status: Seq<char>,
    detail: Seq<char>,
    finished_at_ns: i64,
) -> StoreV {
    StoreV {
        audits: audit_finished(s.audits, request_id, status, Some(detail), finished_at_ns),
        ..s
    }
}

fn log_begun(
    store: &mut ConfigStore,
    request_id: &str,
    endpoint_id: &str,
    operation_type: &str,
    operation_id: &str,
    request_json: &str,
    started_at_ns: i64,
)
    requires
        store_ok(old(store)@),
    ensures
        final(store)@ == begun(
            old(store)@,
            begun_record(
                request_id@,
                endpoint_id@,
                operation_type@,
                operation_id@,
                request_json@,
                started_at_ns,
            ),
        ),
        store_ok(final(store)@),
{
    let rec: ControlAuditRecord = ControlAuditRecord {
        request_id: request_id.to_owned(),
        endpoint_id: endpoint_id.to_owned(),
        actor: "local-api".to_owned(),
        operation_type: operation_type.to_owned(),
        operation_id: operation_id.to_owned(),
        request_json: request_json.to_owned(),
        result_json: None,
        status: "STARTED".to_owned(),
        started_at_ns,
        finished_at_ns: None,
    };
    let _ = store.insert_control_audit(&rec);
}

/// An operation that begins under a new id and comes to an end is logged once, with how it ended,
/// and nothing else in the store changes.
pub proof fn operation_is_logged(
    s: StoreV,
    rec: AuditV,
    status: Seq<char>,
    detail: Seq<char>,
    finished_at_ns: i64,
)
    requires
        !has_request(s.audits, rec.request_id),
    ensures
        finished(begun(s, rec), rec.request_id, status, detail, finished_at_ns) == (StoreV {
            audits: s.audits.push(
                AuditV {
                    status,
                    result_json: Some(detail),
                    finished_at_ns: Some(finished_at_ns),
                    ..rec
                },
            ),
            ..s
        }),
{
    let after = finished(begun(s, rec), rec.request_id, status, detail, finished_at_ns).audits;
    let want = s.audits.push(
        AuditV {
            status,
            result_json: Some(detail),
            finished_at_ns: Some(finished_at_ns),
            ..rec
        },
    );
    assert forall|i: int| 0 <= i < want.len() implies after[i] == want[i] by {
        if i < s.audits.len() {
            assert(s.audits[i].request_id != rec.request_id) by {
                assert(!crate::audit::is_request(s.audits[i], rec.request_id));
            }
        }
    }
    assert(after =~= want);
}

/// Why a driver did not carry out an operation.
#[derive(Debug, Clone, PartialEq)]
pub struct ControlError {
    pub code: String,
    pub message: String,
}

/// The answer to an operation that was not carried out.
pub open spec fn failed_reply(code: Seq<char>, message: Seq<char>, request_id: Seq<char>) -> ReplyV {
    ReplyV {
        status: if code == "ENDPOINT_NOT_RUNNING"@ {
            409
        } else {
            502
        },
        body: JsonV::Object(
            seq![
                (
                    "error"@,
                    JsonV::Object(
                        seq![("code"@, JsonV::String(code)), ("message"@, JsonV::String(message))],
                    ),
                ),
                ("request_id"@, JsonV::String(request_id)),
            ],
        ),
    }
}

fn fail(e: &ControlError, request_id: &str) -> (r: ApiResponse)
    ensures
        r@ == failed_reply(e.code@, e.message@, request_id@),
{
    let status: u16 = if same_text(e.code.as_str(), "ENDPOINT_NOT_RUNNING") {
        409
    } else {
        502
    };
    reply(
        status,
        object2(
            "error",
            object2("code", text_json(e.code.as_str()), "message", text_json(e.message.as_str())),
            "request_id",
            text_json(request_id),
        ),
    )
}

// ---------------------------------------------------------------------------
// Writing
// ---------------------------------------------------------------------------

/// A request to write a value.
#[derive(Debug, PartialEq)]
pub struct ControlWriteReq {
    pub target: String,
    pub value: GivenValue,
    pub expected_value: Option<GivenValue>,
    pub value_typed: Option<TypedValue>,
}

/// What a [`ControlWriteReq`] is.
pub struct WriteReqV {
    pub target: Seq<char>,
    pub value: GivenV,
    pub expected_value: Option<GivenV>,
    pub value_typed: Option<ValueV>,
}

/// What a value that may be missing is.
pub open spec fn maybe_value(v: Option<TypedValue>) -> Option<ValueV> {
    match v {
        Some(x) => Some(x@),
        None => None,
    }
}

impl View for ControlWriteReq {
    type V = WriteReqV;

    open spec fn view(&self) -> WriteReqV {
        WriteReqV {
            target: self.target@,
            value: self.value@,
            expected_value: match self.expected_value {
                Some(x) => Some(x@),
                None => None,
            },
            value_typed: maybe_value(self.value_typed),
        }
    }
}

/// A write that is to be carried out.
#[derive(Debug, PartialEq)]
pub struct ControlWrite {
    pub request_id: String,
    pub target: String,
    pub value: TypedValue,
    pub expected: Option<TypedValue>,
}

/// What a [`ControlWrite`] is.
pub struct WriteV {
    pub request_id: Seq<char>,
    pub target: Seq<char>,
    pub value: ValueV,
    pub expected: Option<ValueV>,
}

impl View for ControlWrite {
    type V = WriteV;

    open spec fn view(&self) -> WriteV {
        WriteV {
            request_id: self.request_id@,
            target: self.target@,
            value: self.value@,
            expected: maybe_value(self.expected),
        }
    }
}

/// The id of an operation that an endpoint is asked for at a time.
pub open spec fn operation_id(prefix: Seq<char>, id: Seq<char>, now: i64) -> Seq<char> {
    prefix + id + "-"@ + signed_decimal(now as int)
}

/// The value that is to be written.
pub open spec fn written_value(req: WriteReqV) -> Result<ValueV, ReplyV> {
    match req.value_typed {
        Some(v) => Ok(v),
        None => match meant_value(req.value) {
            Ok(v) => Ok(v),
            Err(e) => Err(error_reply(400, "VALIDATION_ERROR"@, e)),
        },
    }
}

/// The value that is expected to stand where the new one goes.
pub open spec fn awaited_value(req: WriteReqV) -> Result<Option<ValueV>, ReplyV> {
    match req.expected_value {
        None => Ok(None),
        Some(g) => match meant_value(g) {
            Ok(v) => Ok(Some(v)),
            Err(e) => Err(error_reply(400, "VALIDATION_ERROR"@, "expected_value: "@ + e)),
        },
    }
}

/// The write that a request comes to.
pub open spec fn planned_write(
    enabled: bool,
    s: StoreV,
    id: Seq<char>,
    req: WriteReqV,
    now: i64,
) -> Result<WriteV, ReplyV> {
    match control_refused(enabled, s, id) {
        Some(e) => Err(e),
        None => if blank(req.target) {
            Err(error_reply(400, "VALIDATION_ERROR"@, "target required"@))
        } else {
            match written_value(req) {
                Err(e) => Err(e),
                Ok(value) => match awaited_value(req) {
                    Err(e) => Err(e),
                    Ok(expected) => Ok(
                        WriteV {
                            request_id: operation_id("api-wr-"@, id, now),
                            target: trimmed(req.target),
                            value,
                            expected,
                        },
                    ),
                },
            }
        },
    }
}

/// What is logged of a write that begins.
pub open spec fn write_record(id: Seq<char>, w: WriteV, started_at_ns: i64) -> AuditV {
    begun_record(
        w.request_id,
        id,
        "write"@,
        w.target,
        json_text(
            JsonV::Object(
                seq![
                    ("target"@, JsonV::String(w.target)),
                    ("value"@, JsonV::String(value_debug(w.value))),
                ],
            ),
        ),
        started_at_ns,
    )
}

fn write_value(value_typed: Option<TypedValue>, value: GivenValue) -> (r: Result<
    TypedValue,
    ApiResponse,
>)
    ensures
        forall|req: WriteReqV|
            req.value_typed == maybe_value(value_typed) && req.value == value@ ==> match r {
                Ok(v) => #[trigger] written_value(req) == Ok::<ValueV, ReplyV>(v@),
                Err(e) => written_value(req) == Err::<ValueV, ReplyV>(e@),
            },
{
    match value_typed {
        Some(v) => Ok(v),
        None => match json_to_value(value) {
            Ok(v) => Ok(v),
            Err(e) => Err(complain(400, "VALIDATION_ERROR", e.as_str())),
        },
    }
}

fn expected_value(given: Option<GivenValue>) -> (r: Result<Option<TypedValue>, ApiResponse>)
    ensures
        forall|req: WriteReqV|
            req.expected_value == (match given {
                Some(x) => Some(x@),
                None => None,
            }) ==> match r {
                Ok(v) => #[trigger] awaited_value(req) == Ok::<Option<ValueV>, ReplyV>(
                    maybe_value(v),
                ),
                Err(e) => awaited_value(req) == Err::<Option<ValueV>, ReplyV>(e@),
            },
{
    match given {
        None => Ok(None),
        Some(g) => match json_to_value(g) {
            Ok(v) => Ok(Some(v)),
            Err(e) => Err(
                complain(400, "VALIDATION_ERROR", cat2("expected_value: ", e.as_str()).as_str()),
            ),
        },
    }
}

/// Begins a write: checks what is asked for, and logs it. The write itself is the driver's.
pub fn control_write(
    enabled: bool,
    store: &mut ConfigStore,
    id: &str,
    req: ControlWriteReq,
    now: i64,
    started_at_ns: i64,
) -> (r: Result<ControlWrite, ApiResponse>)
    requires
        store_ok(old(store)@),
    ensures
        match r {
            Ok(w) => planned_write(enabled, old(store)@, id@, req@, now) == Ok::<WriteV, ReplyV>(w@)
                && final(store)@ == begun(old(store)@, write_record(id@, w@, started_at_ns)),
            Err(e) => planned_write(enabled, old(store)@, id@, req@, now) == Err::<WriteV, ReplyV>(
                e@,
            ) && final(store)@ == old(store)@,
        },
        r matches Ok(w) ==> {
            &&& w.expected is Some <==> req.expected_value is Some
            &&& req.expected_value matches Some(g) ==> (w.expected matches Some(x) && meant_value(
                g@,
            ) == Ok::<ValueV, Seq<char>>(x@))
            &&& req.value_typed matches Some(v) ==> w.value@ == v@
            &&& req.value_typed is None ==> meant_value(req.value@) == Ok::<ValueV, Seq<char>>(
                w.value@,
            )
        },
        store_ok(final(store)@),
{
    let ghost asked = req@;
    match refuse_control(enabled, store, id) {
        Ok(()) => {},
        Err(e) => {
            return Err(e);
        },
    }
    if is_blank(req.target.as_str()) {
        return Err(complain(400, "VALIDATION_ERROR", "target required"));
    }
    let target: String = trim(req.target.as_str());
    let value: TypedValue = match write_value(req.value_typed, req.value) {
        Ok(v) => v,
        Err(e) => {
            assert(written_value(asked) is Err);
            return Err(e);
        },
    };
    assert(written_value(asked) == Ok::<ValueV, ReplyV>(value@));
    let expected: Option<TypedValue> = match expected_value(req.expected_value) {
        Ok(v) => v,
        Err(e) => {
            assert(awaited_value(asked) is Err);
            return Err(e);
        },
    };
    assert(awaited_value(asked) == Ok::<Option<ValueV>, ReplyV>(maybe_value(expected)));
    let time: String = signed_decimal_text(now);
    let request_id: String = cat4("api-wr-", id, "-", time.as_str());
    let shown: String = value.debug_text();
    let request_json: String = object2(
        "target",
        text_json(target.as_str()),
        "value",
        text_json(shown.as_str()),
    ).to_text();
    log_begun(
        store,
        request_id.as_str(),
        id,
        "write",
        target.as_str(),
        request_json.as_str(),
        started_at_ns,
    );
    Ok(ControlWrite { request_id, target, value, expected })
}

/// What is logged of a write that was carried out.
pub open spec fn readback_detail(readback: Option<ValueV>) -> Seq<char> {
    json_text(
        JsonV::Object(
            seq![
                (
                    "readback"@,
                    match readback {
                        Some(v) => JsonV::String(value_debug(v)),
                        None => JsonV::Null,
                    },
                ),
            ],
        ),
    )
}

/// The answer to a write that was carried out.
pub open spec fn written_reply(request_id: Seq<char>, readback: Option<ValueV>) -> ReplyV {
    ReplyV {
        status: 200,
        body: JsonV::Object(
            seq![
                (
                    "readback"@,
                    match readback {
                        Some(v) => value_json(v),
                        None => JsonV::Null,
                    },
                ),
                ("request_id"@, JsonV::String(request_id)),
                ("status"@, JsonV::String("Succeeded"@)),
            ],
        ),
    }
}

/// Ends a write: logs what the driver made of it, and answers.
pub fn finish_write(
    store: &mut ConfigStore,
    request_id: &str,
    outcome: Result<Option<TypedValue>, ControlError>,
    finished_at_ns: i64,
) -> (r: ApiResponse)
    requires
        store_ok(old(store)@),
    ensures
        match outcome {
            Ok(v) => r@ == written_reply(request_id@, maybe_value(v)) && final(store)@ == finished(
                old(store)@,
                request_id@,
                "COMPLETED"@,
                readback_detail(maybe_value(v)),
                finished_at_ns,
            ),
            Err(e) => r@ == failed_reply(e.code@, e.message@, request_id@) && final(store)@
                == finished(old(store)@, request_id@, "FAILED"@, e.message@, finished_at_ns),
        },
        store_ok(final(store)@),
{
    broadcast use lemma_json_view;

    match outcome {
        Ok(readback) => {
            let shown: Json = match &readback {
                Some(v) => text_json(v.debug_text().as_str()),
                None => Json::Null,
            };
            let value: Json = match &readback {
                Some(v) => v.to_json(),
                None => Json::Null,
            };
            assert(value@ == (match maybe_value(readback) {
                Some(v) => value_json(v),
                None => JsonV::Null,
            }));
            let detail: String = crate::api::object1("readback", shown).to_text();
            assert(detail@ == readback_detail(maybe_value(readback)));
            store.update_control_audit(
                request_id,
                "COMPLETED",
                Some(detail.as_str()),
                finished_at_ns,
            );
            let body: Json = object3(
                "readback",
                value,
                "request_id",
                text_json(request_id),
                "status",
                text_json("Succeeded"),
            );
            assert(body@->Object_0 =~= written_reply(
                request_id@,
                maybe_value(readback),
            ).body->Object_0);
            reply(200, body)
        },
        Err(e) => {
            store.update_control_audit(
                request_id,
                "FAILED",
                Some(e.message.as_str()),
                finished_at_ns,
            );
            fail(&e, request_id)
        },
    }
}

// ---------------------------------------------------------------------------
// Commands
// ---------------------------------------------------------------------------

/// A request for a command.
#[derive(Debug, PartialEq)]
pub struct ControlCommandReq {
    pub command_id: Option<String>,
    pub command: Option<String>,
    pub input_json: Option<String>,
    pub input: Option<Json>,
}

/// What a [`ControlCommandReq`] is.
pub struct CommandReqV {
    pub command_id: Option<Seq<char>>,
    pub command: Option<Seq<char>>,
    pub input_json: Option<Seq<char>>,
    pub input: Option<JsonV>,
}

impl View for ControlCommandReq {
    type V = CommandReqV;

    open spec fn view(&self) -> CommandReqV {
        CommandReqV {
            command_id: maybe_text(self.command_id),
            command: maybe_text(self.command),
            input_json: maybe_text(self.input_json),
            input: match self.input {
                Some(x) => Some(x@),
                None => None,
            },
        }
    }
}

/// A text that may be missing or null. Nothing else may stand there.
pub open spec fn given_text(v: Option<JsonV>) -> Option<Option<Seq<char>>> {
    match v {
        None => Some(None),
        Some(JsonV::Null) => Some(None),
        Some(JsonV::String(s)) => Some(Some(s)),
        _ => None,
    }
}

/// A value that may be missing or null.
pub open spec fn given_value(v: Option<JsonV>) -> Option<JsonV> {
    match v {
        Some(JsonV::Null) => None,
        _ => v,
    }
}

/// A request for a command by its four parts.
pub open spec fn command_parts(
    a: Option<JsonV>,
    b: Option<JsonV>,
    c: Option<JsonV>,
    d: Option<JsonV>,
) -> Option<CommandReqV> {
    match (given_text(a), given_text(b), given_text(c)) {
        (Some(command_id), Some(command), Some(input_json)) => Some(
            CommandReqV { command_id, command, input_json, input: given_value(d) },
        ),
        _ => None,
    }
}

/// The request for a command that a body holds: its parts by their names, or all four in order.
pub open spec fn command_request(body: JsonV) -> Option<CommandReqV> {
    match body {
        JsonV::Object(o) => command_parts(
            object_get(o, "command_id"@),
            object_get(o, "command"@),
            object_get(o, "input_json"@),
            object_get(o, "input"@),
        ),
        JsonV::Array(a) => if a.len() == 4 {
            command_parts(Some(a[0]), Some(a[1]), Some(a[2]), Some(a[3]))
        } else {
            None
        },
        _ => None,
    }
}

fn take_text(v: Option<&Json>) -> (r: Result<Option<String>, ()>)
    ensures
        match r {
            Ok(s) => given_text(
                match v {
                    Some(x) => Some(x@),
                    None => None,
                },
            ) == Some(maybe_text(s)),
            Err(()) => given_text(
                match v {
                    Some(x) => Some(x@),
                    None => None,
                },
            ) is None,
        },
{
    broadcast use lemma_json_view;

    match v {
        None => Ok(None),
        Some(Json::Null) => Ok(None),
        Some(Json::String(s)) => Ok(Some(s.clone())),
        Some(_) => Err(()),
    }
}

fn take_value(v: Option<&Json>) -> (r: Option<Json>)
    ensures
        (match r {
            Some(x) => Some(x@),
            None => None,
        }) == given_value(
            match v {
                Some(x) => Some(x@),
                None => None,
            },
        ),
{
    broadcast use lemma_json_view;

    match v {
        None => None,
        Some(Json::Null) => None,
        Some(x) => Some(x.copy()),
    }
}

/// What a value that may be missing is.
pub open spec fn maybe_json(v: Option<&Json>) -> Option<JsonV> {
    match v {
        Some(x) => Some(x@),
        None => None,
    }
}

fn command_from(a: Option<&Json>, b: Option<&Json>, c: Option<&Json>, d: Option<&Json>) -> (r:
    Option<ControlCommandReq>)
    ensures
        (match r {
            Some(x) => Some(x@),
            None => None,
        }) == command_parts(maybe_json(a), maybe_json(b), maybe_json(c), maybe_json(d)),
{
    match (take_text(a), take_text(b), take_text(c)) {
        (Ok(command_id), Ok(command), Ok(input_json)) => Some(
            ControlCommandReq { command_id, command, input_json, input: take_value(d) },
        ),
        _ => None,
    }
}

fn read_command(body: &Json) -> (r: Option<ControlCommandReq>)
    ensures
        (match r {
            Some(x) => Some(x@),
            None => None,
        }) == command_request(body@),
{
    broadcast use lemma_json_view;

    match body {
        Json::Object(o) => {
            assert(json_view(*body) == JsonV::Object(entries_view(o@)));
            command_from(
                entry(o, "command_id"),
                entry(o, "command"),
                entry(o, "input_json"),
                entry(o, "input"),
            )
        },
        Json::Array(a) => {
            assert(json_view(*body) == JsonV::Array(items_view(a@)));
            if a.len() == 4 {
                command_from(Some(&a[0]), Some(&a[1]), Some(&a[2]), Some(&a[3]))
            } else {
                None
            }
        },
        _ => None,
    }
}

/// The command that is asked for: the one that the body names, or else the one that the path does.
pub open spec fn command_named(body: JsonV, path: Seq<char>) -> Seq<char> {
    match command_request(body) {
        Some(q) => match q.command_id {
            Some(c) => c,
            None => match q.command {
                Some(c) => c,
                None => path,
            },
        },
        None => path,
    }
}

/// The input of the command that is asked for: what the body names as such, or else the body.
pub open spec fn command_input(body: JsonV) -> Seq<char> {
    let whole = match body {
        JsonV::Object(o) => if o.len() > 0 {
            json_text(body)
        } else {
            "{}"@
        },
        _ => "{}"@,
    };
    match command_request(body) {
        Some(q) => match q.input_json {
            Some(s) => s,
            None => match q.input {
                Some(v) => json_text(v),
                None => whole,
            },
        },
        None => whole,
    }
}

/// A command that is to be carried out.
#[derive(Debug, Clone, PartialEq)]
pub struct ControlCommand {
    pub request_id: String,
    pub command_id: String,
    pub input_json: String,
}

fn whole_input(body: &Json) -> (r: String)
    ensures
        r@ == (match body@ {
            JsonV::Object(o) => if o.len() > 0 {
                json_text(body@)
            } else {
                "{}"@
            },
            _ => "{}"@,
        }),
{
    broadcast use lemma_json_view;

    match body {
        Json::Object(o) => {
            assert(json_view(*body) == JsonV::Object(entries_view(o@)));
            if o.len() > 0 {
                body.to_text()
            } else {
                "{}".to_owned()
            }
        },
        _ => "{}".to_owned(),
    }
}

fn named_command(q: &Option<ControlCommandReq>, path: &str) -> (r: String)
    ensures
        forall|body: JsonV|
            #[trigger] command_request(body) == (match *q {
                Some(x) => Some(x@),
                None => None,
            }) ==> r@ == command_named(body, path@),
{
    match q {
        Some(q) => match &q.command_id {
            Some(c) => c.clone(),
            None => match &q.command {
                Some(c) => c.clone(),
                None => path.to_owned(),
            },
        },
        None => path.to_owned(),
    }
}

/// Begins a command: finds what is asked for, and logs it. The command itself is the driver's.
pub fn control_command(
    enabled: bool,
    store: &mut ConfigStore,
    id: &str,
    cmd: &str,
    body: &Json,
    now: i64,
    started_at_ns: i64,
) -> (r: Result<ControlCommand, ApiResponse>)
    requires
        store_ok(old(store)@),
    ensures
        match r {
            Ok(c) => {
                &&& control_refused(enabled, old(store)@, id@) is None
                &&& c.request_id@ == operation_id("api-cmd-"@, id@, now)
                &&& c.command_id@ == command_named(body@, cmd@)
                &&& c.input_json@ == command_input(body@)
                &&& final(store)@ == begun(
                    old(store)@,
                    begun_record(
                        c.request_id@,
                        id@,
                        "command"@,
                        c.command_id@,
                        c.input_json@,
                        started_at_ns,
                    ),
                )
            },
            Err(e) => control_refused(enabled, old(store)@, id@) == Some(e@) && final(store)@
                == old(store)@,
        },
        store_ok(final(store)@),
{
    match refuse_control(enabled, store, id) {
        Ok(()) => {},
        Err(e) => {
            return Err(e);
        },
    }
    let asked: Option<ControlCommandReq> = read_command(body);
    let command_id: String = named_command(&asked, cmd);
    let input_json: String = match asked {
        Some(q) => match q.input_json {
            Some(s) => s,
            None => match q.input {
                Some(v) => v.to_text(),
                None => whole_input(body),
            },
        },
        None => whole_input(body),
    };
    let time: String = signed_decimal_text(now);
    let request_id: String = cat4("api-cmd-", id, "-", time.as_str());
    log_begun(
        store,
        request_id.as_str(),
        id,
        "command",
        command_id.as_str(),
        input_json.as_str(),
        started_at_ns,
    );
    Ok(ControlCommand { request_id, command_id, input_json })
}

/// How a log tells the end of a command.
pub open spec fn command_end(status: Seq<char>) -> Seq<char> {
    if status == "Succeeded"@ {
        "COMPLETED"@
    } else {
        "FAILED"@
    }
}

/// The answer to a command that the driver took.
pub open spec fn commanded_reply(
    request_id: Seq<char>,
    status: Seq<char>,
    result_json: Seq<char>,
    error: Seq<char>,
) -> ReplyV {
    ReplyV {
        status: 200,
        body: JsonV::Object(
            seq![
                ("error"@, JsonV::String(error)),
                ("request_id"@, JsonV::String(request_id)),
                (
                    "result"@,
                    match json_parsed(result_json) {
                        Ok(v) => v,
                        Err(e) => JsonV::String(result_json),
                    },
                ),
                ("status"@, JsonV::String(status)),
            ],
        ),
    }
}

/// What a driver made of a command: how it ended, what came of it, and what went wrong.
#[derive(Debug, Clone, PartialEq)]
pub struct CommandOutcome {
    pub status: String,
    pub result_json: String,
    pub error: String,
}

/// Ends a command: logs what the driver made of it, and answers.
pub fn finish_command(
    store: &mut ConfigStore,
    request_id: &str,
    outcome: Result<CommandOutcome, ControlError>,
    finished_at_ns: i64,
) -> (r: ApiResponse)
    requires
        store_ok(old(store)@),
    ensures
        match outcome {
            Ok(o) => r@ == commanded_reply(request_id@, o.status@, o.result_json@, o.error@)
                && final(store)@ == finished(
                old(store)@,
                request_id@,
                command_end(o.status@),
                o.status@ + ":"@ + o.result_json@ + ":"@ + o.error@,
                finished_at_ns,
            ),
            Err(e) => r@ == failed_reply(e.code@, e.message@, request_id@) && final(store)@
                == finished(old(store)@, request_id@, "FAILED"@, e.message@, finished_at_ns),
        },
        store_ok(final(store)@),
{
    match outcome {
        Ok(o) => {
            let end: &str = if same_text(o.status.as_str(), "Succeeded") {
                "COMPLETED"
            } else {
                "FAILED"
            };
            let detail: String = cat5(
                o.status.as_str(),
                ":",
                o.result_json.as_str(),
                ":",
                o.error.as_str(),
            );
            store.update_control_audit(request_id, end, Some(detail.as_str()), finished_at_ns);
            let result: Json = match Json::parse(o.result_json.as_str()) {
                Ok(v) => v,
                Err(_) => text_json(o.result_json.as_str()),
            };
            assert(end@ == command_end(o.status@));
            assert(result@ == (match json_parsed(o.result_json@) {
                Ok(v) => v,
                Err(e) => JsonV::String(o.result_json@),
            }));
            let body: Json = object4(
                "error",
                text_json(o.error.as_str()),
                "request_id",
                text_json(request_id),
                "result",
                result,
                "status",
                text_json(o.status.as_str()),
            );
            assert(body@->Object_0 =~= commanded_reply(
                request_id@,
                o.status@,
                o.result_json@,
                o.error@,
            ).body->Object_0);
            reply(200, body)
        },
        Err(e) => {
            store.update_control_audit(
                request_id,
                "FAILED",
                Some(e.message.as_str()),
                finished_at_ns,
            );
            fail(&e, request_id)
        },
    }
}

// ---------------------------------------------------------------------------
// Laws
// ---------------------------------------------------------------------------

/// A value that is given means itself: a truth value, a text, or a number in the smallest type that
/// holds it, from `i32` to `i64` and `u64`, a number with a fraction as `f64`. An object means what
/// its tag says. A list or null means nothing.
pub proof fn given_values_mean_themselves(g: GivenV)
    ensures
        g.value matches JsonV::Bool(b) ==> meant_value(g) == Ok::<ValueV, Seq<char>>(
            ValueV::Bool(b),
        ),
        g.value matches JsonV::String(s) ==> meant_value(g) == Ok::<ValueV, Seq<char>>(
            ValueV::String(s),
        ),
        g.value matches JsonV::Number(JsonNumber::PosInt(u)) ==> (meant_value(g) matches Ok(v) && (
        match v {
            ValueV::I32(n) => n == u,
            ValueV::I64(n) => n == u && u > i32::MAX,
            ValueV::U64(n) => n == u && u > i64::MAX,
            _ => false,
        })),
        g.value matches JsonV::Number(JsonNumber::NegInt(i)) ==> (meant_value(g) matches Ok(v) && (
        match v {
            ValueV::I32(n) => n == i,
            ValueV::I64(n) => n == i && (i < i32::MIN || i > i32::MAX),
            _ => false,
        })),
        g.value matches JsonV::Number(JsonNumber::Float(x)) ==> meant_value(g) == Ok::<
            ValueV,
            Seq<char>,
        >(ValueV::F64(x)),
        g.value is Object ==> meant_value(g) == g.tagged,
        g.value is Null ==> meant_value(g) == Err::<ValueV, Seq<char>>("null value not allowed"@),
        meant_value(g) is Err <==> (g.value is Null || g.value is Array || (g.value is Object
            && g.tagged is Err)),
{
}

/// A write is planned exactly where control is open, there is the endpoint, a target is named, and
/// the values mean something.
pub proof fn writes_are_planned_when_they_can_be(
    enabled: bool,
    s: StoreV,
    id: Seq<char>,
    req: WriteReqV,
    now: i64,
)
    ensures
        planned_write(enabled, s, id, req, now) is Ok <==> enabled && s.endpoints.contains_key(id)
            && !blank(req.target) && (req.value_typed is Some || meant_value(req.value) is Ok) && (
        req.expected_value matches Some(g) ==> meant_value(g) is Ok),
        planned_write(enabled, s, id, req, now) matches Err(e) ==> (e.status == 503 <==> !enabled)
            && (e.status == 404 <==> enabled && !s.endpoints.contains_key(id)) && (e.status == 400
            <==> enabled && s.endpoints.contains_key(id)),
{
}

/// A write that is planned goes to the target that was named, with the value that was given: the
/// typed one, or else what the plain one means. It is guarded exactly where the request gives an
/// expected value, and then by what that means.
pub proof fn writes_are_planned_as_they_were_asked_for(
    enabled: bool,
    s: StoreV,
    id: Seq<char>,
    req: WriteReqV,
    now: i64,
)
    ensures
        planned_write(enabled, s, id, req, now) matches Ok(w) ==> {
            &&& w.target == trimmed(req.target)
            &&& req.value_typed matches Some(v) ==> w.value == v
            &&& req.value_typed is None ==> meant_value(req.value) == Ok::<ValueV, Seq<char>>(
                w.value,
            )
            &&& w.expected is Some <==> req.expected_value is Some
            &&& req.expected_value matches Some(g) ==> {
                &&& meant_value(g) == Ok::<ValueV, Seq<char>>(w.expected->0)
                &&& g.value matches JsonV::Bool(b) ==> w.expected == Some(ValueV::Bool(b))
                &&& g.value matches JsonV::String(t) ==> w.expected == Some(ValueV::String(t))
                &&& g.value matches JsonV::Number(JsonNumber::PosInt(u)) ==> (u <= i32::MAX
                    ==> w.expected == Some(ValueV::I32(u as i32)))
                &&& g.value matches JsonV::Number(JsonNumber::NegInt(i)) ==> (i32::MIN <= i
                    <= i32::MAX ==> w.expected == Some(ValueV::I32(i as i32)))
            }
            &&& w.request_id == "api-wr-"@ + id + "-"@ + signed_decimal(now as int)
        },
{
}

/// The guard of a write has no part in what is written, nor has the value in the guard.
pub proof fn guards_and_values_are_apart(
    enabled: bool,
    s: StoreV,
    id: Seq<char>,
    a: WriteReqV,
    b: WriteReqV,
    now: i64,
)
    requires
        planned_write(enabled, s, id, a, now) is Ok,
        planned_write(enabled, s, id, b, now) is Ok,
    ensures
        a.value == b.value && a.value_typed == b.value_typed ==> planned_write(
            enabled,
            s,
            id,
            a,
            now,
        )->Ok_0.value == planned_write(enabled, s, id, b, now)->Ok_0.value,
        a.expected_value == b.expected_value ==> planned_write(enabled, s, id, a, now)->Ok_0.expected
            == planned_write(enabled, s, id, b, now)->Ok_0.expected,
        a.expected_value is None ==> planned_write(enabled, s, id, a, now)->Ok_0.expected is None,
{
}

/// Nothing is controlled while control is closed, nor an endpoint that there is not.
pub proof fn control_is_refused_for_two_reasons(enabled: bool, s: StoreV, id: Seq<char>)
    ensures
        control_refused(enabled, s, id) is None <==> enabled && s.endpoints.contains_key(id),
        !enabled ==> control_refused(enabled, s, id) == Some(
            error_reply(
                503,
                "CONTROL_DISABLED"@,
                "control plane disabled, start mesad with --enable-control"@,
            ),
        ),
        enabled && !s.endpoints.contains_key(id) ==> control_refused(enabled, s, id) == Some(
            error_reply(404, "NOT_FOUND"@, "endpoint `"@ + id + "` not found"@),
        ),
{
}

/// An operation that begins is logged as the last one, with all that was asked for and no end; one
/// whose id is known is not logged again. Nothing else changes.
pub proof fn beginnings_are_logged_once(
    s: StoreV,
    request_id: Seq<char>,
    endpoint_id: Seq<char>,
    operation_type: Seq<char>,
    operation_id: Seq<char>,
    request_json: Seq<char>,
    at: i64,
)
    ensures
        ({
            let rec = begun_record(
                request_id,
                endpoint_id,
                operation_type,
                operation_id,
                request_json,
                at,
            );
            let after = begun(s, rec);
            &&& rec.request_id == request_id
            &&& rec.endpoint_id == endpoint_id
            &&& rec.operation_type == operation_type
            &&& rec.operation_id == operation_id
            &&& rec.request_json == request_json
            &&& rec.started_at_ns == at
            &&& rec.status == "STARTED"@
            &&& rec.actor == "local-api"@
            &&& rec.result_json is None
            &&& rec.finished_at_ns is None
            &&& after.audits.len() == s.audits.len() + (if exists|i: int|
                0 <= i < s.audits.len() && (#[trigger] s.audits[i]).request_id == request_id {
                0int
            } else {
                1int
            })
            &&& forall|i: int|
                0 <= i < s.audits.len() ==> #[trigger] after.audits[i] == s.audits[i]
            &&& after.audits.len() > s.audits.len() ==> after.audits.last() == rec
            &&& after == (StoreV { audits: after.audits, ..s })
        }),
{
    if has_request(s.audits, request_id) {
        let i = choose|i: int|
            0 <= i < s.audits.len() && crate::audit::is_request(#[trigger] s.audits[i], request_id);
        assert(s.audits[i].request_id == request_id);
    } else {
        assert forall|i: int| 0 <= i < s.audits.len() implies (#[trigger] s.audits[i]).request_id
            != request_id by {
            assert(!crate::audit::is_request(s.audits[i], request_id));
        }
    }
}

/// What came of an operation is logged with its record, and with no other; of what was asked for
/// nothing changes.
pub proof fn ends_are_logged_with_their_beginning(
    s: StoreV,
    request_id: Seq<char>,
    status: Seq<char>,
    detail: Seq<char>,
    at: i64,
    i: int,
)
    requires
        0 <= i < s.audits.len(),
    ensures
        ({
            let after = finished(s, request_id, status, detail, at);
            let a = after.audits[i];
            let b = s.audits[i];
            &&& after.audits.len() == s.audits.len()
            &&& after == (StoreV { audits: after.audits, ..s })
            &&& b.request_id != request_id ==> a == b
            &&& b.request_id == request_id ==> {
                &&& a.status == status
                &&& a.result_json == Some(detail)
                &&& a.finished_at_ns == Some(at)
                &&& a.request_id == b.request_id
                &&& a.endpoint_id == b.endpoint_id
                &&& a.actor == b.actor
                &&& a.operation_type == b.operation_type
                &&& a.operation_id == b.operation_id
                &&& a.request_json == b.request_json
                &&& a.started_at_ns == b.started_at_ns
            }
        }),
{
}

/// What is logged of a write names its target and shows its value.
pub proof fn writes_are_logged_as_they_are(id: Seq<char>, w: WriteV, at: i64)
    ensures
        ({
            let rec = write_record(id, w, at);
            &&& rec.request_id == w.request_id
            &&& rec.endpoint_id == id
            &&& rec.operation_type == "write"@
            &&& rec.operation_id == w.target
            &&& rec.started_at_ns == at
            &&& rec.request_json == json_text(
                JsonV::Object(
                    seq![
                        ("target"@, JsonV::String(w.target)),
                        ("value"@, JsonV::String(value_debug(w.value))),
                    ],
                ),
            )
        }),
{
}

/// A write that was carried out is answered with the value that was read back, if one was, under
/// its id.
pub proof fn written_values_are_answered(request_id: Seq<char>, readback: Option<ValueV>)
    ensures
        ({
            let r = written_reply(request_id, readback);
            &&& r.status == 200
            &&& r.body matches JsonV::Object(o) && o.len() == 3 && o[0].0 == "readback"@ && o[1] == (
                "request_id"@,
                JsonV::String(request_id),
            ) && o[2] == ("status"@, JsonV::String("Succeeded"@)) && (readback matches Some(v)
                ==> o[0].1 == value_json(v)) && (readback is None ==> o[0].1 is Null)
        }),
        readback_detail(None) == json_text(JsonV::Object(seq![("readback"@, JsonV::Null)])),
        readback matches Some(v) ==> readback_detail(readback) == json_text(
            JsonV::Object(seq![("readback"@, JsonV::String(value_debug(v)))]),
        ),
{
    assert(readback_detail(None) == json_text(JsonV::Object(seq![("readback"@, JsonV::Null)]))) by {
        assert(seq![("readback"@, JsonV::Null)] =~= seq![
            (
                "readback"@,
                match None::<ValueV> {
                    Some(v) => JsonV::String(value_debug(v)),
                    None => JsonV::Null,
                },
            ),
        ]);
    }
    if readback is Some {
        assert(seq![("readback"@, JsonV::String(value_debug(readback->0)))] =~= seq![
            (
                "readback"@,
                match readback {
                    Some(v) => JsonV::String(value_debug(v)),
                    None => JsonV::Null,
                },
            ),
        ]);
    }
}

/// A failure is answered under its id with the code and the message that it has; only an endpoint
/// that does not run is the fault of the request.
pub proof fn failures_are_answered(code: Seq<char>, message: Seq<char>, request_id: Seq<char>)
    ensures
        ({
            let r = failed_reply(code, message, request_id);
            &&& r.status == 409 <==> code == "ENDPOINT_NOT_RUNNING"@
            &&& r.status == 502 <==> code != "ENDPOINT_NOT_RUNNING"@
            &&& r.body matches JsonV::Object(o) && o.len() == 2 && o[1] == (
                "request_id"@,
                JsonV::String(request_id),
            ) && o[0].0 == "error"@ && o[0].1 == JsonV::Object(
                seq![("code"@, JsonV::String(code)), ("message"@, JsonV::String(message))],
            )
        }),
{
}

/// The command is the one under `command_id`, or else the one under `command`, or else that of the
/// path. A body whose parts are of the wrong kind names none.
pub proof fn commands_are_named_by_the_body_first(
    o: Seq<(Seq<char>, JsonV)>,
    path: Seq<char>,
    c: Seq<char>,
)
    ensures
        ({
            let body = JsonV::Object(o);
            let id = object_get(o, "command_id"@);
            let name = object_get(o, "command"@);
            let text = object_get(o, "input_json"@);
            let sound = |v: Option<JsonV>|
                v is None || v == Some(JsonV::Null) || (v matches Some(x) && x is String);
            &&& !(sound(id) && sound(name) && sound(text)) ==> command_named(body, path) == path
            &&& sound(name) && sound(text) && id == Some(JsonV::String(c)) ==> command_named(
                body,
                path,
            ) == c
            &&& sound(text) && (id is None || id == Some(JsonV::Null)) && name == Some(
                JsonV::String(c),
            ) ==> command_named(body, path) == c
            &&& (id is None || id == Some(JsonV::Null)) && (name is None || name == Some(
                JsonV::Null,
            )) ==> command_named(body, path) == path
        }),
{
}

/// The input is the text under `input_json`, or else what stands under `input`, or else all of the
/// body; nothing is an empty object.
pub proof fn inputs_are_found_in_the_body(o: Seq<(Seq<char>, JsonV)>, t: Seq<char>, v: JsonV)
    ensures
        ({
            let body = JsonV::Object(o);
            let id = object_get(o, "command_id"@);
            let name = object_get(o, "command"@);
            let text = object_get(o, "input_json"@);
            let input = object_get(o, "input"@);
            let sound = |v: Option<JsonV>|
                v is None || v == Some(JsonV::Null) || (v matches Some(x) && x is String);
            let missing = |v: Option<JsonV>| v is None || v == Some(JsonV::Null);
            &&& sound(id) && sound(name) && text == Some(JsonV::String(t)) ==> command_input(body)
                == t
            &&& sound(id) && sound(name) && missing(text) && input == Some(v) && !(v is Null)
                ==> command_input(body) == json_text(v)
            &&& missing(text) && missing(input) && o.len() > 0 ==> command_input(body) == json_text(
                body,
            )
            &&& !(sound(id) && sound(name) && sound(text)) ==> command_input(body) == json_text(body)
            &&& o.len() == 0 ==> command_input(body) == "{}"@
        }),
        command_input(JsonV::Null) == "{}"@,
{
    if o.len() == 0 {
        crate::json::object_get_of_none(o, "command_id"@);
        crate::json::object_get_of_none(o, "command"@);
        crate::json::object_get_of_none(o, "input_json"@);
        crate::json::object_get_of_none(o, "input"@);
    }
    let id = object_get(o, "command_id"@);
    let name = object_get(o, "command"@);
    let text = object_get(o, "input_json"@);
    if o.len() == 0 {
        assert(id is None);
    }
}

/// A command ended well exactly where the driver says that it succeeded; whatever it says is
/// answered with the result and the error.
pub proof fn commands_end_as_the_driver_says(
    request_id: Seq<char>,
    status: Seq<char>,
    result_json: Seq<char>,
    error: Seq<char>,
)
    ensures
        command_end(status) == "COMPLETED"@ <==> status == "Succeeded"@,
        command_end(status) == "FAILED"@ <==> status != "Succeeded"@,
        ({
            let r = commanded_reply(request_id, status, result_json, error);
            &&& r.status == 200
            &&& r.body matches JsonV::Object(o) && o.len() == 4 && o[0] == (
                "error"@,
                JsonV::String(error),
            ) && o[1] == ("request_id"@, JsonV::String(request_id)) && o[2].0 == "result"@ && o[3]
                == ("status"@, JsonV::String(status)) && (json_parsed(result_json) matches Ok(v)
                ==> o[2].1 == v) && (json_parsed(result_json) is Err ==> o[2].1 == JsonV::String(
                result_json,
            ))
        }),
{
    reveal_strlit("COMPLETED");
    reveal_strlit("FAILED");
    assert("COMPLETED"@.len() == 9 && "FAILED"@.len() == 6);
}

/// What stands in the body of a command: its two names and its text where they are texts or
/// missing, and its input; a list says the four one after the other.
pub proof fn commands_are_read_from_their_body(o: Seq<(Seq<char>, JsonV)>, a: Seq<JsonV>)
    ensures
        ({
            let r = command_request(JsonV::Object(o));
            let fits = |k: Seq<char>|
                object_get(o, k) is None || object_get(o, k)->0 is Null || object_get(
                    o,
                    k,
                )->0 is String;
            &&& r is Some <==> fits("command_id"@) && fits("command"@) && fits("input_json"@)
            &&& r matches Some(q) ==> {
                &&& q.command_id is Some ==> object_get(o, "command_id"@) == Some(
                    JsonV::String(q.command_id->0),
                )
                &&& q.command is Some ==> object_get(o, "command"@) == Some(
                    JsonV::String(q.command->0),
                )
                &&& q.input_json is Some ==> object_get(o, "input_json"@) == Some(
                    JsonV::String(q.input_json->0),
                )
                &&& q.input is Some ==> object_get(o, "input"@) == q.input
                &&& q.input is None <==> object_get(o, "input"@) is None || object_get(o, "input"@)
                    == Some(JsonV::Null)
                &&& q.command_id is None <==> object_get(o, "command_id"@) is None || object_get(
                    o,
                    "command_id"@,
                ) == Some(JsonV::Null)
                &&& q.command is None <==> object_get(o, "command"@) is None || object_get(
                    o,
                    "command"@,
                ) == Some(JsonV::Null)
            }
        }),
        a.len() != 4 ==> command_request(JsonV::Array(a)) is None,
{
}

} // verus!
