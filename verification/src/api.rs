//! Replies to requests, and the values that they are made of.
use vstd::prelude::*;

use crate::json::{entries_view, items_view, lemma_json_view, Json, JsonNumber, JsonV};
use crate::schema::{issues_view, IssueV, ValidationIssue};
use crate::store::{StoreError, StoreFault};

verus! {

// ---------------------------------------------------------------------------
// Values
// ---------------------------------------------------------------------------

/// A text as a value.
pub open spec fn text_value(s: Seq<char>) -> JsonV {
    JsonV::String(s)
}

/// A text that may be missing as a value.
pub open spec fn optional_text_value(s: Option<Seq<char>>) -> JsonV {
    match s {
        Some(x) => JsonV::String(x),
        None => JsonV::Null,
    }
}

/// A number that is not negative as a value.
pub open spec fn count_value(n: u64) -> JsonV {
    JsonV::Number(JsonNumber::PosInt(n))
}

/// An integer as a value.
pub open spec fn integer_value(n: i64) -> JsonV {
    if n < 0 {
        JsonV::Number(JsonNumber::NegInt(n))
    } else {
        JsonV::Number(JsonNumber::PosInt(n as u64))
    }
}

pub(crate) fn text_json(s: &str) -> (r: Json)
    ensures
        r@ == text_value(s@),
{
    broadcast use lemma_json_view;

    Json::String(s.to_owned())
}

pub(crate) fn optional_text_json(s: &Option<String>) -> (r: Json)
    ensures
        r@ == optional_text_value(crate::schema::maybe_text(*s)),
{
    broadcast use lemma_json_view;

    match s {
        Some(x) => Json::String(x.clone()),
        None => Json::Null,
    }
}

pub(crate) fn count_json(n: u64) -> (r: Json)
    ensures
        r@ == count_value(n),
{
    broadcast use lemma_json_view;

    Json::Number(JsonNumber::PosInt(n))
}

pub(crate) fn integer_json(n: i64) -> (r: Json)
    ensures
        r@ == integer_value(n),
{
    broadcast use lemma_json_view;

    if n < 0 {
        Json::Number(JsonNumber::NegInt(n))
    } else {
        Json::Number(JsonNumber::PosInt(n as u64))
    }
}

pub(crate) fn truth_json(b: bool) -> (r: Json)
    ensures
        r@ == JsonV::Bool(b),
{
    broadcast use lemma_json_view;

    Json::Bool(b)
}

pub(crate) fn null_json() -> (r: Json)
    ensures
        r@ == JsonV::Null,
{
    broadcast use lemma_json_view;

    Json::Null
}

pub(crate) fn list_json(items: Vec<Json>) -> (r: Json)
    ensures
        r@ == JsonV::Array(items_view(items@)),
{
    broadcast use lemma_json_view;

    Json::Array(items)
}

pub(crate) fn empty_object() -> (r: Json)
    ensures
        r@ == JsonV::Object(Seq::empty()),
{
    broadcast use lemma_json_view;

    let entries: Vec<(String, Json)> = Vec::new();
    assert(entries_view(entries@) =~= Seq::<(Seq<char>, JsonV)>::empty());
    Json::Object(entries)
}

pub(crate) fn object1(k1: &str, v1: Json) -> (r: Json)
    ensures
        r@ == JsonV::Object(seq![(k1@, v1@)]),
{
    broadcast use lemma_json_view;

    let mut entries: Vec<(String, Json)> = Vec::new();
    entries.push((k1.to_owned(), v1));
    assert(entries_view(entries@) =~= seq![(k1@, v1@)]);
    Json::Object(entries)
}

pub(crate) fn object2(k1: &str, v1: Json, k2: &str, v2: Json) -> (r: Json)
    ensures
        r@ == JsonV::Object(seq![(k1@, v1@), (k2@, v2@)]),
{
    broadcast use lemma_json_view;

    let mut entries: Vec<(String, Json)> = Vec::new();
    entries.push((k1.to_owned(), v1));
    entries.push((k2.to_owned(), v2));
    assert(entries_view(entries@) =~= seq![(k1@, v1@), (k2@, v2@)]);
    Json::Object(entries)
}

pub(crate) fn object3(k1: &str, v1: Json, k2: &str, v2: Json, k3: &str, v3: Json) -> (r: Json)
    ensures
        r@ == JsonV::Object(seq![(k1@, v1@), (k2@, v2@), (k3@, v3@)]),
{
    broadcast use lemma_json_view;

    let mut entries: Vec<(String, Json)> = Vec::new();
    entries.push((k1.to_owned(), v1));
    entries.push((k2.to_owned(), v2));
    entries.push((k3.to_owned(), v3));
    assert(entries_view(entries@) =~= seq![(k1@, v1@), (k2@, v2@), (k3@, v3@)]);
    Json::Object(entries)
}

#[allow(clippy::too_many_arguments)]
pub(crate) fn object4(k1: &str, v1: Json, k2: &str, v2: Json, k3: &str, v3: Json, k4: &str, v4: Json) -> (r: Json)
    ensures
        r@ == JsonV::Object(seq![(k1@, v1@), (k2@, v2@), (k3@, v3@), (k4@, v4@)]),
{
    broadcast use lemma_json_view;

    let mut entries: Vec<(String, Json)> = Vec::new();
    entries.push((k1.to_owned(), v1));
    entries.push((k2.to_owned(), v2));
    entries.push((k3.to_owned(), v3));
    entries.push((k4.to_owned(), v4));
    assert(entries_view(entries@) =~= seq![(k1@, v1@), (k2@, v2@), (k3@, v3@), (k4@, v4@)]);
    Json::Object(entries)
}

#[allow(clippy::too_many_arguments)]
pub(crate) fn object5(k1: &str, v1: Json, k2: &str, v2: Json, k3: &str, v3: Json, k4: &str, v4: Json, k5: &str, v5: Json) -> (r: Json)
    ensures
        r@ == JsonV::Object(seq![(k1@, v1@), (k2@, v2@), (k3@, v3@), (k4@, v4@), (k5@, v5@)]),
{
    broadcast use lemma_json_view;

    let mut entries: Vec<(String, Json)> = Vec::new();
    entries.push((k1.to_owned(), v1));
    entries.push((k2.to_owned(), v2));
    entries.push((k3.to_owned(), v3));
    entries.push((k4.to_owned(), v4));
    entries.push((k5.to_owned(), v5));
    assert(entries_view(entries@) =~= seq![(k1@, v1@), (k2@, v2@), (k3@, v3@), (k4@, v4@), (k5@, v5@)]);
    Json::Object(entries)
}

#[allow(clippy::too_many_arguments)]
pub(crate) fn object6(k1: &str, v1: Json, k2: &str, v2: Json, k3: &str, v3: Json, k4: &str, v4: Json, k5: &str, v5: Json, k6: &str, v6: Json) -> (r: Json)
    ensures
        r@ == JsonV::Object(seq![(k1@, v1@), (k2@, v2@), (k3@, v3@), (k4@, v4@), (k5@, v5@), (k6@, v6@)]),
{
    broadcast use lemma_json_view;

    let mut entries: Vec<(String, Json)> = Vec::new();
    entries.push((k1.to_owned(), v1));
    entries.push((k2.to_owned(), v2));
    entries.push((k3.to_owned(), v3));
    entries.push((k4.to_owned(), v4));
    entries.push((k5.to_owned(), v5));
    entries.push((k6.to_owned(), v6));
    assert(entries_view(entries@) =~= seq![(k1@, v1@), (k2@, v2@), (k3@, v3@), (k4@, v4@), (k5@, v5@), (k6@, v6@)]);
    Json::Object(entries)
}

#[allow(clippy::too_many_arguments)]
pub(crate) fn object7(k1: &str, v1: Json, k2: &str, v2: Json, k3: &str, v3: Json, k4: &str, v4: Json, k5: &str, v5: Json, k6: &str, v6: Json, k7: &str, v7: Json) -> (r: Json)
    ensures
        r@ == JsonV::Object(seq![(k1@, v1@), (k2@, v2@), (k3@, v3@), (k4@, v4@), (k5@, v5@), (k6@, v6@), (k7@, v7@)]),
{
    broadcast use lemma_json_view;

    let mut entries: Vec<(String, Json)> = Vec::new();
    entries.push((k1.to_owned(), v1));
    entries.push((k2.to_owned(), v2));
    entries.push((k3.to_owned(), v3));
    entries.push((k4.to_owned(), v4));
    entries.push((k5.to_owned(), v5));
    entries.push((k6.to_owned(), v6));
    entries.push((k7.to_owned(), v7));
    assert(entries_view(entries@) =~= seq![(k1@, v1@), (k2@, v2@), (k3@, v3@), (k4@, v4@), (k5@, v5@), (k6@, v6@), (k7@, v7@)]);
    Json::Object(entries)
}

// ---------------------------------------------------------------------------
// Replies
// ---------------------------------------------------------------------------

/// A reply: its status, and its body.
#[derive(Debug, PartialEq)]
pub struct ApiResponse {
    pub status: u16,
    pub body: Json,
}

/// What an [`ApiResponse`] is.
pub struct ReplyV {
    pub status: u16,
    pub body: JsonV,
}

impl View for ApiResponse {
    type V = ReplyV;

    open spec fn view(&self) -> ReplyV {
        ReplyV { status: self.status, body: self.body@ }
    }
}

/// The body of a complaint.
pub open spec fn error_body(code: Seq<char>, message: Seq<char>) -> JsonV {
    JsonV::Object(
        seq![
            (
                "error"@,
                JsonV::Object(
                    seq![("code"@, JsonV::String(code)), ("message"@, JsonV::String(message))],
                ),
            ),
        ],
    )
}

/// A complaint as a reply.
pub open spec fn error_reply(status: u16, code: Seq<char>, message: Seq<char>) -> ReplyV {
    ReplyV { status, body: error_body(code, message) }
}

pub fn json_error(code: &str, message: &str) -> (r: Json)
    ensures
        r@ == error_body(code@, message@),
{
    object1("error", object2("code", text_json(code), "message", text_json(message)))
}

pub(crate) fn complain(status: u16, code: &str, message: &str) -> (r: ApiResponse)
    ensures
        r@ == error_reply(status, code@, message@),
{
    ApiResponse { status, body: json_error(code, message) }
}

pub(crate) fn reply(status: u16, body: Json) -> (r: ApiResponse)
    ensures
        r@ == (ReplyV { status, body: body@ }),
{
    ApiResponse { status, body }
}

/// The reply to a request that the store did not carry out.
pub open spec fn store_reply(f: StoreFault) -> ReplyV {
    match f {
        StoreFault::Duplicate(m) => error_reply(409, "CONFLICT"@, m),
        StoreFault::NotFound(m) => error_reply(404, "NOT_FOUND"@, m),
        StoreFault::Conflict(m) => error_reply(409, "CONFLICT"@, m),
        StoreFault::Validation(m) => error_reply(400, "VALIDATION_ERROR"@, m),
        StoreFault::Json(m) => error_reply(400, "INVALID_JSON"@, m),
        StoreFault::Sqlite(m) => error_reply(500, "INTERNAL"@, m),
    }
}

pub fn store_err_to_response(e: StoreError) -> (r: ApiResponse)
    ensures
        r@ == store_reply(e@),
{
    match e {
        StoreError::Duplicate(m) => complain(409, "CONFLICT", m.as_str()),
        StoreError::NotFound(m) => complain(404, "NOT_FOUND", m.as_str()),
        StoreError::Conflict(m) => complain(409, "CONFLICT", m.as_str()),
        StoreError::Validation(m) => complain(400, "VALIDATION_ERROR", m.as_str()),
        StoreError::Json(m) => complain(400, "INVALID_JSON", m.as_str()),
        StoreError::Sqlite(m) => complain(500, "INTERNAL", m.as_str()),
    }
}

/// A request that is refused is answered with a status that says so.
pub proof fn refusals_are_errors(f: StoreFault)
    ensures
        400 <= store_reply(f).status <= 599,
        store_reply(f).status == 500 <==> f is Sqlite,
{
}

// ---------------------------------------------------------------------------
// Issues
// ---------------------------------------------------------------------------

/// An issue as a value.
pub open spec fn issue_value(i: IssueV) -> JsonV {
    JsonV::Object(
        seq![
            ("code"@, JsonV::String(i.code)),
            ("message"@, JsonV::String(i.message)),
            ("path"@, JsonV::String(i.path)),
        ],
    )
}

/// Issues as a value.
pub open spec fn issues_value(issues: Seq<IssueV>) -> JsonV {
    JsonV::Array(issues.map_values(|i: IssueV| issue_value(i)))
}

/// The reply to a configuration: whether it is valid, and what is wrong with it.
pub open spec fn validity_reply(issues: Seq<IssueV>) -> ReplyV {
    ReplyV {
        status: if issues.len() == 0 {
            200
        } else {
            400
        },
        body: JsonV::Object(
            seq![
                ("issues"@, issues_value(issues)),
                ("valid"@, JsonV::Bool(issues.len() == 0)),
            ],
        ),
    }
}

pub(crate) fn validity(issues: &Vec<ValidationIssue>) -> (r: ApiResponse)
    ensures
        r@ == validity_reply(issues_view(issues@)),
{
    let mut items: Vec<Json> = Vec::new();
    let mut i: usize = 0;
    while i < issues.len()
        invariant
            i <= issues.len(),
            items@.len() == i,
            forall|j: int| 0 <= j < i ==> (#[trigger] items@[j])@ == issue_value(issues@[j]@),
        decreases issues.len() - i,
    {
        items.push(
            object3(
                "code",
                text_json(issues[i].code.as_str()),
                "message",
                text_json(issues[i].message.as_str()),
                "path",
                text_json(issues[i].path.as_str()),
            ),
        );
        i = i + 1;
    }
    assert(items_view(items@) =~= issues_view(issues@).map_values(|i: IssueV| issue_value(i)));
    let valid: bool = issues.len() == 0;
    let status: u16 = if valid {
        200
    } else {
        400
    };
    reply(status, object2("issues", list_json(items), "valid", truth_json(valid)))
}

/// A configuration is answered with success exactly where nothing is wrong with it.
pub proof fn valid_means_no_issues(issues: Seq<IssueV>)
    ensures
        validity_reply(issues).status == 200 <==> issues.len() == 0,
{
}

// ---------------------------------------------------------------------------
// What replies say
// ---------------------------------------------------------------------------

/// A complaint says its code and its message under one member.
pub proof fn complaints_say_code_and_message(status: u16, code: Seq<char>, message: Seq<char>)
    ensures
        error_reply(status, code, message).status == status,
        error_reply(status, code, message).body matches JsonV::Object(o) && o.len() == 1 && o[0].0
            == "error"@ && (o[0].1 matches JsonV::Object(e) && e.len() == 2 && e[0].0 == "code"@
            && e[0].1 == JsonV::String(code) && e[1].0 == "message"@ && e[1].1 == JsonV::String(
            message,
        )),
{
}

/// What the store did not do is told by a status and a code of its own, with the words of the
/// store.
pub proof fn refusals_are_told_by_their_kind(f: StoreFault)
    ensures
        f matches StoreFault::Duplicate(m) ==> store_reply(f) == error_reply(409, "CONFLICT"@, m),
        f matches StoreFault::Conflict(m) ==> store_reply(f) == error_reply(409, "CONFLICT"@, m),
        f matches StoreFault::NotFound(m) ==> store_reply(f) == error_reply(404, "NOT_FOUND"@, m),
        f matches StoreFault::Validation(m) ==> store_reply(f) == error_reply(
            400,
            "VALIDATION_ERROR"@,
            m,
        ),
        f matches StoreFault::Json(m) ==> store_reply(f) == error_reply(400, "INVALID_JSON"@, m),
        f matches StoreFault::Sqlite(m) ==> store_reply(f) == error_reply(500, "INTERNAL"@, m),
{
}

/// An integer is the same integer as a value, whatever its sign; a text is the same text, and what
/// is missing is null.
pub proof fn plain_values_are_themselves(n: i64, u: u64, s: Seq<char>)
    ensures
        integer_value(n) matches JsonV::Number(x) && match x {
            JsonNumber::PosInt(p) => p == n,
            JsonNumber::NegInt(q) => q == n && n < 0,
            JsonNumber::Float(f) => false,
        },
        count_value(u) matches JsonV::Number(JsonNumber::PosInt(p)) && p == u,
        text_value(s) == JsonV::String(s),
        optional_text_value(Some(s)) == JsonV::String(s),
        optional_text_value(None) is Null,
{
}

/// Issues are told one by one, each with its path, its code and its message; only where there is
/// none is the configuration valid.
pub proof fn issues_are_told_one_by_one(issues: Seq<IssueV>)
    ensures
        validity_reply(issues).status == 200 <==> issues.len() == 0,
        validity_reply(issues).status == 400 <==> issues.len() > 0,
        validity_reply(issues).body matches JsonV::Object(o) && o.len() == 2 && o[1] == (
            "valid"@,
            JsonV::Bool(issues.len() == 0),
        ) && o[0].0 == "issues"@ && (o[0].1 matches JsonV::Array(a) && a.len() == issues.len()
            && forall|i: int|
            0 <= i < a.len() ==> (#[trigger] a[i] matches JsonV::Object(e) && e.len() == 3 && e[0]
                == ("code"@, JsonV::String(issues[i].code)) && e[1] == (
                "message"@,
                JsonV::String(issues[i].message),
            ) && e[2] == ("path"@, JsonV::String(issues[i].path)))),
{
}

} // verus!
