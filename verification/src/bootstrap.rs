//! Creating a device with its endpoint, its secrets and its tasks at once, and starting it.
use vstd::prelude::*;
use vstd::utf8::encode_utf8;

use crate::api::{
    complain, count_json, count_value, empty_object, error_reply, list_json, object1, object2,
    object4, object5, reply, store_err_to_response, store_reply, text_json, truth_json, validity,
    validity_reply, ApiResponse, ReplyV,
};
use crate::connection::{secret_field_keys, secret_keys, split_new, split_new_secrets};
use crate::descriptor::DriverDescriptor;
use crate::endpoint::BuiltinEndpoint;
use crate::endpoints::{no_object, no_object_reply, undescribed, undescribed_reply};
use crate::event::EventTask;
use crate::gate::{acquisition_issues, any_generic, check_acquisition, generic_places};
use crate::json::{
    braced, braced_text, bracketed, bracketed_text, entries_view, entry_keys, items_view,
    json_parsed, json_text, json_view, lemma_json_view, member, member_text, object_get,
    object_get_after_set, object_get_found, object_get_of_both, object_set,
    object_set_stays_ascending, ordered, ordered_entries, ordered_entries_ascend, ordered_items,
    plain, set_entry, Json, JsonNumber, JsonV,
};
use crate::manager::DescriptorError;
use crate::protocol::tasks_view;
use crate::resource::GenericBinding;
use crate::schema::{instance_issues, maybe_text, ValidationIssue};
use crate::snapshot::{endpoint_removed, snapshot_ok, Snapshot};
use crate::store::{
    all_sealed, bootstrap_refused, bootstrapped, bootstrapped_drawn, compensated, desire_set,
    draws_for, endpoint_deleted,
    event_tasks_view, pairs_view, result_row, store_fault_text, store_ok, unsealed, ConfigStore, DeviceRecord,
    DeviceV, EndpointRecord, EndpointV, SealedV, StoreFault, StoreV,
};
use crate::table::{ascending, ordered_keys, Table};
use crate::tasks::{event_tasks_of, stored_event_tasks, stored_tasks, task_json, task_value, tasks_of};
use crate::text::{
    blank, blank_means_trimmed_to_nothing, cat3, contains_text, hex_digits, hex_number_text,
    lemma_text_before_irreflexive, same_text, text_before, text_contains, texts_view, trim, trimmed,
};
use crate::types::{AcquisitionTask, TaskV};

verus! {

// ---------------------------------------------------------------------------
// Requests
// ---------------------------------------------------------------------------

/// The device that a request asks for.
#[derive(Debug, PartialEq)]
pub struct BootstrapDevice {
    pub id: String,
    pub name: String,
}

/// The endpoint that a request asks for.
#[derive(Debug, PartialEq)]
pub struct BootstrapEndpoint {
    pub id: String,
    pub name: String,
    pub driver_id: String,
    pub connection: Json,
}

/// The tasks that a request asks for.
#[derive(Debug, PartialEq)]
pub struct BootstrapAcquisition {
    pub tasks: Vec<AcquisitionTask>,
}

/// A request for a device with an endpoint. Without `acquisition` the endpoint gets no tasks. It is
/// started unless `start` says otherwise.
#[derive(Debug, PartialEq)]
pub struct BootstrapRequest {
    pub device: BootstrapDevice,
    pub endpoint: BootstrapEndpoint,
    pub acquisition: Option<BootstrapAcquisition>,
    pub start: Option<bool>,
    pub idempotency_key: Option<String>,
}

/// The tasks that a request asks for.
pub open spec fn wanted_tasks(req: BootstrapRequest) -> Seq<TaskV> {
    match req.acquisition {
        Some(a) => tasks_view(a.tasks@),
        None => Seq::empty(),
    }
}

/// Whether a request asks for the endpoint to be started.
pub open spec fn wants_start(req: BootstrapRequest) -> bool {
    match req.start {
        Some(b) => b,
        None => true,
    }
}

impl BootstrapRequest {
    /// Whether the endpoint is to be started.
    pub fn want_start(&self) -> (r: bool)
        ensures
            r == wants_start(*self),
    {
        match self.start {
            Some(b) => b,
            None => true,
        }
    }
}

// ---------------------------------------------------------------------------
// Canonical text
// ---------------------------------------------------------------------------

/// A value as text that does not depend on the order of the entries of its objects: they stand in
/// the order of their keys.
pub open spec fn canonical(v: JsonV) -> Seq<char>
    decreases v,
{
    match v {
        JsonV::Array(a) => bracketed(canonical_items(a)),
        JsonV::Object(o) => canonical_object(canonical_entries(o)),
        _ => json_text(v),
    }
}

/// Values as canonical texts.
pub open spec fn canonical_items(a: Seq<JsonV>) -> Seq<Seq<char>>
    decreases a,
{
    if a.len() == 0 {
        Seq::empty()
    } else {
        canonical_items(a.drop_last()).push(canonical(a.last()))
    }
}

/// The canonical texts of the values of entries, by key.
pub open spec fn canonical_entries(o: Seq<(Seq<char>, JsonV)>) -> Map<Seq<char>, Seq<char>>
    decreases o,
{
    if o.len() == 0 {
        Map::empty()
    } else {
        canonical_entries(o.drop_last()).insert(o.last().0, canonical(o.last().1))
    }
}

/// An object of which the texts of the values are known.
pub open spec fn canonical_object(m: Map<Seq<char>, Seq<char>>) -> Seq<char> {
    braced(ordered_keys(m).map_values(|k: Seq<char>| member(k, m[k])))
}

/// A value as canonical text.
pub fn canonical_json(v: &Json) -> (r: String)
    ensures
        r@ == canonical(v@),
    decreases v,
{
    broadcast use lemma_json_view;

    match v {
        Json::Array(a) => {
            let ghost all = items_view(a@);
            let mut parts: Vec<String> = Vec::new();
            let mut i: usize = 0;
            assert(texts_view(parts@) =~= canonical_items(all.subrange(0, 0)));
            while i < a.len()
                invariant
                    i <= a.len(),
                    all == items_view(a@),
                    decreases_to!(v => a@),
                    texts_view(parts@) == canonical_items(all.subrange(0, i as int)),
                decreases a.len() - i,
            {
                assert(decreases_to!(a@ => a@[i as int]));
                let item: String = canonical_json(&a[i]);
                let ghost part = all.subrange(0, i + 1);
                let ghost before = parts@;
                assert(part.drop_last() =~= all.subrange(0, i as int));
                assert(part.last() == a@[i as int]@);
                parts.push(item);
                assert(texts_view(parts@) =~= texts_view(before).push(item@));
                i = i + 1;
            }
            assert(all.subrange(0, a@.len() as int) =~= all);
            assert(json_view(*v) == JsonV::Array(all));
            bracketed_text(&parts)
        },
        Json::Object(o) => {
            let ghost all = entries_view(o@);
            let mut texts: Table<String> = Table::new();
            let mut i: usize = 0;
            while i < o.len()
                invariant
                    i <= o.len(),
                    all == entries_view(o@),
                    decreases_to!(v => o@),
                    texts@ == canonical_entries(all.subrange(0, i as int)),
                decreases o.len() - i,
            {
                assert(decreases_to!(o@ => o@[i as int]));
                assert(decreases_to!(o@[i as int] => o@[i as int].1));
                let value: String = canonical_json(&o[i].1);
                let ghost part = all.subrange(0, i + 1);
                assert(part.drop_last() =~= all.subrange(0, i as int));
                assert(part.last() == (o@[i as int].0@, o@[i as int].1@));
                texts.set(o[i].0.clone(), value);
                i = i + 1;
            }
            assert(all.subrange(0, o@.len() as int) =~= all);
            assert(json_view(*v) == JsonV::Object(all));
            let ghost m = texts@;
            let ghost want = ordered_keys(m).map_values(|k: Seq<char>| member(k, m[k]));
            let n: usize = texts.len();
            let mut parts: Vec<String> = Vec::new();
            let mut j: usize = 0;
            while j < n
                invariant
                    j <= n,
                    n == texts.keys().len(),
                    texts.keys() == ordered_keys(m),
                    texts@ == m,
                    want == ordered_keys(m).map_values(|k: Seq<char>| member(k, m[k])),
                    texts_view(parts@) == want.subrange(0, j as int),
                decreases n - j,
            {
                let ghost before = parts@;
                let part: String = member_text(texts.key_at(j).as_str(), texts.at(j).as_str());
                assert(part@ == want[j as int]);
                parts.push(part);
                assert(texts_view(parts@) =~= texts_view(before).push(part@));
                assert(texts_view(parts@) =~= want.subrange(0, j + 1));
                j = j + 1;
            }
            assert(want.subrange(0, n as int) =~= want);
            braced_text(&parts)
        },
        _ => v.to_text(),
    }
}

proof fn lemma_canonical_entries(o: Seq<(Seq<char>, JsonV)>, i: int)
    requires
        entry_keys(o).no_duplicates(),
    ensures
        canonical_entries(o).dom() == entry_keys(o).to_set(),
        0 <= i < o.len() ==> canonical_entries(o)[o[i].0] == canonical(o[i].1),
    decreases o.len(),
{
    if o.len() == 0 {
        assert(canonical_entries(o).dom() =~= entry_keys(o).to_set());
    } else {
        let rest = o.drop_last();
        assert(entry_keys(rest) =~= entry_keys(o).drop_last());
        lemma_canonical_entries(rest, i);
        assert(canonical_entries(o).dom() =~= entry_keys(o).to_set()) by {
            assert forall|k: Seq<char>| entry_keys(o).contains(k) implies canonical_entries(
                o,
            ).contains_key(k) by {
                let j = choose|j: int| 0 <= j < o.len() && entry_keys(o)[j] == k;
                if j < o.len() - 1 {
                    assert(entry_keys(rest)[j] == k);
                }
            }
            assert forall|k: Seq<char>| canonical_entries(o).contains_key(k) implies entry_keys(
                o,
            ).contains(k) by {
                if k == o.last().0 {
                    assert(entry_keys(o)[o.len() - 1] == k);
                } else {
                    assert(entry_keys(rest).contains(k));
                    let j = choose|j: int| 0 <= j < rest.len() && entry_keys(rest)[j] == k;
                    assert(entry_keys(o)[j] == k);
                }
            }
        }
        if 0 <= i < o.len() - 1 {
            assert(entry_keys(o)[i] != entry_keys(o)[o.len() - 1]);
            assert(rest[i] == o[i]);
        }
    }
}

/// Two objects without repeated keys that have the same entries have the same canonical text,
/// whatever the order of the entries.
pub proof fn order_of_entries_does_not_matter(
    a: Seq<(Seq<char>, JsonV)>,
    b: Seq<(Seq<char>, JsonV)>,
)
    requires
        entry_keys(a).no_duplicates(),
        entry_keys(b).no_duplicates(),
        a.to_set() == b.to_set(),
    ensures
        canonical(JsonV::Object(a)) == canonical(JsonV::Object(b)),
{
    let x = canonical_entries(a);
    let y = canonical_entries(b);
    lemma_canonical_entries(a, 0);
    lemma_canonical_entries(b, 0);
    assert forall|k: Seq<char>| #[trigger] x.dom().contains(k) implies y.dom().contains(k) && x[k]
        == y[k] by {
        assert(entry_keys(a).to_set().contains(k));
        let i = choose|i: int| 0 <= i < a.len() && entry_keys(a)[i] == k;
        assert(a.to_set().contains(a[i]));
        assert(b.contains(a[i]));
        let j = choose|j: int| 0 <= j < b.len() && b[j] == a[i];
        assert(entry_keys(b)[j] == k);
        assert(entry_keys(b).to_set().contains(k));
        lemma_canonical_entries(a, i);
        lemma_canonical_entries(b, j);
    }
    assert forall|k: Seq<char>| #[trigger] y.dom().contains(k) implies x.dom().contains(k) by {
        assert(entry_keys(b).to_set().contains(k));
        let j = choose|j: int| 0 <= j < b.len() && entry_keys(b)[j] == k;
        assert(b.to_set().contains(b[j]));
        assert(a.contains(b[j]));
        let i = choose|i: int| 0 <= i < a.len() && a[i] == b[j];
        assert(entry_keys(a)[i] == k);
        assert(entry_keys(a).to_set().contains(k));
    }
    assert(x.dom() =~= y.dom());
    assert(x =~= y);
}

proof fn lemma_canonical_get(o: Seq<(Seq<char>, JsonV)>, key: Seq<char>)
    requires
        entry_keys(o).no_duplicates(),
    ensures
        canonical_entries(o).contains_key(key) <==> object_get(o, key) is Some,
        object_get(o, key) matches Some(v) ==> canonical_entries(o)[key] == canonical(v),
    decreases o.len(),
{
    if o.len() > 0 {
        let init = o.drop_last();
        let last = seq![o.last()];
        assert(entry_keys(init) =~= entry_keys(o).drop_last());
        assert(o =~= init + last);
        lemma_canonical_get(init, key);
        object_get_of_both(init, last, key);
        assert(last.drop_first().len() == 0);
        assert(object_get(last, key) == (if o.last().0 == key {
            Some(o.last().1)
        } else {
            None
        })) by {
            reveal_with_fuel(object_get, 2);
        }
        if key == o.last().0 && object_get(init, key) is Some {
            let p = object_get_found(init, key);
            assert(entry_keys(o)[p] == entry_keys(o)[o.len() - 1]);
        }
    }
}

proof fn lemma_ascending_keys_differ(o: Seq<(Seq<char>, JsonV)>)
    requires
        ascending(entry_keys(o)),
    ensures
        entry_keys(o).no_duplicates(),
{
    broadcast use lemma_text_before_irreflexive;

    let keys = entry_keys(o);
    assert forall|i: int, j: int| 0 <= i < keys.len() && 0 <= j < keys.len() && i != j implies keys[i]
        != keys[j] by {
        if i < j {
            assert(text_before(keys[i], keys[j]));
        } else {
            assert(text_before(keys[j], keys[i]));
        }
    }
}

proof fn lemma_canonical_after_set(o: Seq<(Seq<char>, JsonV)>, key: Seq<char>, v: JsonV)
    requires
        ascending(entry_keys(o)),
    ensures
        canonical_entries(object_set(o, key, v)) == canonical_entries(o).insert(key, canonical(v)),
{
    let r = object_set(o, key, v);
    object_set_stays_ascending(o, key, v);
    lemma_ascending_keys_differ(o);
    lemma_ascending_keys_differ(r);
    let x = canonical_entries(r);
    let y = canonical_entries(o).insert(key, canonical(v));
    assert forall|k: Seq<char>| #[trigger] x.contains_key(k) <==> y.contains_key(k) by {
        lemma_canonical_get(r, k);
        lemma_canonical_get(o, k);
        object_get_after_set(o, key, v, k);
    }
    assert forall|k: Seq<char>| #[trigger] x.contains_key(k) implies x[k] == y[k] by {
        lemma_canonical_get(r, k);
        lemma_canonical_get(o, k);
        object_get_after_set(o, key, v, k);
    }
    assert(x =~= y);
}

/// The canonical text of a value is that of the value with the entries of each of its objects,
/// however deep, in the order of their keys.
pub proof fn canonical_text_of_ordered(v: JsonV)
    ensures
        canonical(ordered(v)) == canonical(v),
    decreases v,
{
    match v {
        JsonV::Array(a) => {
            lemma_canonical_items_of_ordered(a);
        },
        JsonV::Object(o) => {
            lemma_canonical_entries_of_ordered(o);
        },
        _ => {},
    }
}

proof fn lemma_canonical_items_of_ordered(a: Seq<JsonV>)
    ensures
        canonical_items(ordered_items(a)) == canonical_items(a),
    decreases a,
{
    if a.len() > 0 {
        lemma_canonical_items_of_ordered(a.drop_last());
        canonical_text_of_ordered(a.last());
        assert(ordered_items(a).drop_last() =~= ordered_items(a.drop_last()));
    }
}

proof fn lemma_canonical_entries_of_ordered(o: Seq<(Seq<char>, JsonV)>)
    ensures
        canonical_entries(ordered_entries(o)) == canonical_entries(o),
    decreases o,
{
    if o.len() > 0 {
        lemma_canonical_entries_of_ordered(o.drop_last());
        canonical_text_of_ordered(o.last().1);
        ordered_entries_ascend(o.drop_last());
        lemma_canonical_after_set(
            ordered_entries(o.drop_last()),
            o.last().0,
            ordered(o.last().1),
        );
    }
}

// ---------------------------------------------------------------------------
// Fingerprints
// ---------------------------------------------------------------------------

/// The hash of some bytes: from a fixed start, each byte is mixed in and the whole is multiplied by
/// a fixed prime, modulo two to the 64th.
pub open spec fn mixed(bytes: Seq<u8>) -> u64
    decreases bytes.len(),
{
    if bytes.len() == 0 {
        0xcbf29ce484222325
    } else {
        (((mixed(bytes.drop_last()) ^ (bytes.last() as u64)) * 0x100000001b3)
            % 0x1_0000_0000_0000_0000) as u64
    }
}

/// The fingerprint of a value: the hash of its canonical text.
pub open spec fn fingerprint(v: JsonV) -> Seq<char> {
    hex_digits(mixed(encode_utf8(canonical(v))) as nat, 16)
}

/// The fingerprint of a value.
pub fn request_fingerprint(body: &Json) -> (r: String)
    ensures
        r@ == fingerprint(body@),
{
    let text: String = canonical_json(body);
    let bytes: Vec<u8> = text.as_str().as_bytes_vec();
    let mut h: u64 = 0xcbf29ce484222325;
    let mut i: usize = 0;
    while i < bytes.len()
        invariant
            i <= bytes.len(),
            h == mixed(bytes@.subrange(0, i as int)),
        decreases bytes.len() - i,
    {
        let ghost part = bytes@.subrange(0, i + 1);
        assert(part.drop_last() =~= bytes@.subrange(0, i as int));
        assert(part.last() == bytes@[i as int]);
        h = (h ^ (bytes[i] as u64)).wrapping_mul(0x100000001b3);
        i = i + 1;
    }
    assert(bytes@.subrange(0, bytes@.len() as int) =~= bytes@);
    hex_number_text(h, 16)
}

/// Two objects without repeated keys that have the same entries have the same fingerprint.
pub proof fn fingerprints_ignore_the_order_of_entries(
    a: Seq<(Seq<char>, JsonV)>,
    b: Seq<(Seq<char>, JsonV)>,
)
    requires
        entry_keys(a).no_duplicates(),
        entry_keys(b).no_duplicates(),
        a.to_set() == b.to_set(),
    ensures
        fingerprint(JsonV::Object(a)) == fingerprint(JsonV::Object(b)),
{
    order_of_entries_does_not_matter(a, b);
}

/// Two values that differ in nothing but the order of the entries of their objects, however deep
/// these stand, have the same fingerprint.
pub proof fn fingerprints_ignore_order_at_any_depth(a: JsonV, b: JsonV)
    requires
        ordered(a) == ordered(b),
    ensures
        fingerprint(a) == fingerprint(b),
{
    canonical_text_of_ordered(a);
    canonical_text_of_ordered(b);
}

/// Tasks as a value.
pub open spec fn tasks_value(ts: Seq<TaskV>) -> JsonV {
    JsonV::Array(ts.map_values(|t: TaskV| task_value(t)))
}

/// A request as a value, without its key: what it asks for, plain secrets and all.
pub open spec fn request_value(req: BootstrapRequest) -> JsonV {
    JsonV::Object(
        seq![
            (
                "acquisition"@,
                match req.acquisition {
                    Some(a) => JsonV::Object(seq![("tasks"@, tasks_value(tasks_view(a.tasks@)))]),
                    None => JsonV::Null,
                },
            ),
            (
                "device"@,
                JsonV::Object(
                    seq![
                        ("id"@, JsonV::String(req.device.id@)),
                        ("name"@, JsonV::String(req.device.name@)),
                    ],
                ),
            ),
            (
                "endpoint"@,
                JsonV::Object(
                    seq![
                        ("connection"@, req.endpoint.connection@),
                        ("driver_id"@, JsonV::String(req.endpoint.driver_id@)),
                        ("id"@, JsonV::String(req.endpoint.id@)),
                        ("name"@, JsonV::String(req.endpoint.name@)),
                    ],
                ),
            ),
            (
                "start"@,
                match req.start {
                    Some(b) => JsonV::Bool(b),
                    None => JsonV::Null,
                },
            ),
        ],
    )
}

fn request_json(req: &BootstrapRequest) -> (r: Json)
    ensures
        r@ == request_value(*req),
{
    broadcast use lemma_json_view;

    let acquisition: Json = match &req.acquisition {
        Some(a) => {
            let mut items: Vec<Json> = Vec::new();
            let mut i: usize = 0;
            while i < a.tasks.len()
                invariant
                    i <= a.tasks.len(),
                    items@.len() == i,
                    forall|j: int|
                        0 <= j < i ==> (#[trigger] items@[j])@ == task_value(a.tasks@[j]@),
                decreases a.tasks.len() - i,
            {
                items.push(task_json(&a.tasks[i]));
                i = i + 1;
            }
            assert(items_view(items@) =~= tasks_view(a.tasks@).map_values(
                |t: TaskV| task_value(t),
            ));
            object1("tasks", list_json(items))
        },
        None => Json::Null,
    };
    let start: Json = match req.start {
        Some(b) => truth_json(b),
        None => Json::Null,
    };
    let r: Json = object4(
        "acquisition",
        acquisition,
        "device",
        object2(
            "id",
            text_json(req.device.id.as_str()),
            "name",
            text_json(req.device.name.as_str()),
        ),
        "endpoint",
        object4(
            "connection",
            req.endpoint.connection.copy(),
            "driver_id",
            text_json(req.endpoint.driver_id.as_str()),
            "id",
            text_json(req.endpoint.id.as_str()),
            "name",
            text_json(req.endpoint.name.as_str()),
        ),
        "start",
        start,
    );
    assert(r@->Object_0 =~= request_value(*req)->Object_0);
    r
}

/// The key under which a request may be repeated: that of the header, or else that of the body,
/// each only where it is not blank.
pub open spec fn key_given(header: Option<Seq<char>>, body: Option<Seq<char>>) -> Option<Seq<char>> {
    if header is Some && trimmed(header->0).len() > 0 {
        Some(trimmed(header->0))
    } else if body is Some && trimmed(body->0).len() > 0 {
        Some(trimmed(body->0))
    } else {
        None
    }
}

/// The key under which a request may be repeated.
pub fn idempotency_key(header: Option<&str>, body: &BootstrapRequest) -> (r: Option<String>)
    ensures
        maybe_text(r) == key_given(
            match header {
                Some(h) => Some(h@),
                None => None,
            },
            maybe_text(body.idempotency_key),
        ),
{
    match header {
        Some(h) => {
            let t: String = trim(h);
            if t.as_str().unicode_len() > 0 {
                return Some(t);
            }
        },
        None => {},
    }
    match &body.idempotency_key {
        Some(k) => {
            let t: String = trim(k.as_str());
            if t.as_str().unicode_len() == 0 {
                None
            } else {
                Some(t)
            }
        },
        None => None,
    }
}

// ---------------------------------------------------------------------------
// Repeating a request
// ---------------------------------------------------------------------------

/// What came of a request as it is answered again.
pub open spec fn again(v: JsonV) -> JsonV {
    match v {
        JsonV::Object(o) => JsonV::Object(object_set(o, "replayed"@, JsonV::Bool(true))),
        _ => v,
    }
}

/// What a kept text says came of a request: nothing where it cannot be read.
pub open spec fn kept_result(text: Seq<char>) -> JsonV {
    match json_parsed(text) {
        Ok(v) => v,
        Err(e) => JsonV::Object(Seq::empty()),
    }
}

/// The answer to a request whose key has been used before.
pub open spec fn repeated(s: StoreV, key: Option<Seq<char>>, hash: Seq<char>) -> Option<ReplyV> {
    match key {
        None => None,
        Some(k) => if !s.idempotency.contains_key(k) {
            None
        } else if s.idempotency[k].request_hash == hash {
            Some(ReplyV { status: 200, body: again(kept_result(s.idempotency[k].result_json)) })
        } else {
            Some(
                error_reply(
                    409,
                    "IDEMPOTENCY_CONFLICT"@,
                    "同一幂等键对应不同请求内容，请更换幂等键"@,
                ),
            )
        },
    }
}

/// A request that is to be carried out: the key under which it may be repeated, and its
/// fingerprint.
#[derive(Debug, PartialEq)]
pub struct BootstrapBegun {
    pub key: Option<String>,
    pub fingerprint: String,
}

/// Takes a request: one that was carried out before is answered as it was then, and one whose key
/// stands for another request is refused. Of results that are plain, the same is answered that was
/// kept.
pub fn device_bootstrap(store: &ConfigStore, header: Option<&str>, body: &BootstrapRequest) -> (r:
    Result<BootstrapBegun, ApiResponse>)
    ensures
        ({
            let key = key_given(
                match header {
                    Some(h) => Some(h@),
                    None => None,
                },
                maybe_text(body.idempotency_key),
            );
            let hash = fingerprint(request_value(*body));
            match r {
                Ok(b) => {
                    &&& repeated(store@, key, hash) is None
                    &&& body.endpoint.connection@ is Object
                    &&& maybe_text(b.key) == key
                    &&& b.fingerprint@ == hash
                },
                Err(e) => match repeated(store@, key, hash) {
                    Some(x) => {
                        &&& e@ == x
                        &&& forall|w: JsonV|
                            plain(w, 127) && store@.idempotency[key->0].request_hash == hash
                                && #[trigger] json_text(w)
                                == store@.idempotency[key->0].result_json ==> e@ == (ReplyV {
                                status: 200,
                                body: again(w),
                            })
                    },
                    None => !(body.endpoint.connection@ is Object) && e@ == no_object_reply(),
                },
            }
        }),
{
    broadcast use lemma_json_view;

    let fingerprint: String = request_fingerprint(&request_json(body));
    let key: Option<String> = idempotency_key(header, body);
    match &key {
        Some(k) => match store.bootstrap_idempotency_get(k.as_str()) {
            Some((hash, result)) => {
                if same_text(hash.as_str(), fingerprint.as_str()) {
                    let mut v: Json = match Json::parse(result.as_str()) {
                        Ok(v) => v,
                        Err(_) => empty_object(),
                    };
                    let ghost before = v@;
                    assert(before == kept_result(result@));
                    match v {
                        Json::Object(mut o) => {
                            set_entry(&mut o, "replayed", Json::Bool(true));
                            v = Json::Object(o);
                        },
                        other => {
                            v = other;
                        },
                    }
                    assert(v@ == again(before));
                    return Err(reply(200, v));
                }
                return Err(
                    complain(
                        409,
                        "IDEMPOTENCY_CONFLICT",
                        "同一幂等键对应不同请求内容，请更换幂等键",
                    ),
                );
            },
            None => {},
        },
        None => {},
    }
    if !body.endpoint.connection.is_object() {
        return Err(no_object());
    }
    Ok(BootstrapBegun { key, fingerprint })
}

// ---------------------------------------------------------------------------
// Carrying out a request
// ---------------------------------------------------------------------------

/// What a request comes to: a device, an endpoint, and its secrets.
pub struct PlanV {
    pub device: DeviceV,
    pub endpoint: EndpointV,
    pub secrets: Seq<(Seq<char>, Seq<char>)>,
}

/// What a request comes to, or why it is refused.
pub open spec fn planned_bootstrap(
    req: BootstrapRequest,
    descriptor: Result<DriverDescriptor, DescriptorError>,
    bindings: Seq<Result<GenericBinding, String>>,
    now: i64,
) -> Result<PlanV, ReplyV> {
    match req.endpoint.connection@ {
        JsonV::Object(o) => match descriptor {
            Err(e) => Err(undescribed_reply(e@)),
            Ok(d) => {
                let issues = instance_issues(
                    d.connection.fields@,
                    "connection"@,
                    req.endpoint.connection@,
                );
                let keys = secret_keys(d.connection.fields@);
                let wrong = acquisition_issues(
                    d,
                    "acquisition.tasks"@,
                    wanted_tasks(req),
                    bindings,
                );
                if issues.len() > 0 {
                    Err(validity_reply(issues))
                } else {
                    match split_new(o, keys, keys.len() as int) {
                        Err(e) => Err(e),
                        Ok(split) => if wrong.len() > 0 {
                            Err(validity_reply(wrong))
                        } else {
                            Ok(
                                PlanV {
                                    device: DeviceV { id: req.device.id@, name: req.device.name@ },
                                    endpoint: EndpointV {
                                        id: req.endpoint.id@,
                                        name: req.endpoint.name@,
                                        device_id: req.device.id@,
                                        driver_id: req.endpoint.driver_id@,
                                        connection_json: json_text(JsonV::Object(split.entries)),
                                        desired_running: wants_start(req),
                                        updated_at_ns: now,
                                    },
                                    secrets: split.secrets,
                                },
                            )
                        },
                    }
                }
            },
        },
        _ => Err(no_object_reply()),
    }
}

/// Whether all of a plan was put into the store, or none of it, and how that was answered.
pub open spec fn bootstrap_went(
    before: StoreV,
    after: StoreV,
    plan: PlanV,
    ts: Seq<TaskV>,
    r: Result<u64, ReplyV>,
) -> bool {
    match r {
        Ok(n) => {
            &&& n == 1
            &&& bootstrap_refused(before, plan.device, plan.endpoint, ts) is None
            &&& exists|xs: Seq<SealedV>, now: i64|
                all_sealed(xs, plan.secrets, before.master_key) && after == #[trigger] bootstrapped(
                    before,
                    plan.device,
                    plan.endpoint,
                    xs,
                    ts,
                    now,
                )
        },
        Err(e) => {
            &&& after == before
            &&& exists|f: StoreFault| #[trigger]
                store_reply(f) == e && (bootstrap_refused(before, plan.device, plan.endpoint, ts)
                    == Some(f) || exists|drawn: Seq<Result<Vec<u8>, String>>| #[trigger]
                    unsealed(plan.secrets, before.master_key, drawn) == Some(f))
        },
    }
}

fn asked_tasks<'a>(body: &'a BootstrapRequest, none: &'a Vec<AcquisitionTask>) -> (r:
    &'a [AcquisitionTask])
    requires
        none@.len() == 0,
    ensures
        tasks_view(r@) == wanted_tasks(*body),
{
    let tasks: &[AcquisitionTask] = match &body.acquisition {
        Some(a) => a.tasks.as_slice(),
        None => none.as_slice(),
    };
    assert(tasks_view(tasks@) =~= wanted_tasks(*body));
    tasks
}

fn plan_bootstrap(
    body: &BootstrapRequest,
    tasks: &[AcquisitionTask],
    descriptor: &Result<DriverDescriptor, DescriptorError>,
    bindings: &[Result<GenericBinding, String>],
    now: i64,
) -> (r: Result<(DeviceRecord, EndpointRecord, Vec<(String, String)>), ApiResponse>)
    requires
        tasks_view(tasks@) == wanted_tasks(*body),
        bindings@.len() == tasks@.len(),
    ensures
        match r {
            Ok(x) => planned_bootstrap(*body, *descriptor, bindings@, now) matches Ok(p)
                && p.device == x.0@ && p.endpoint == x.1@ && p.secrets == pairs_view(x.2@),
            Err(e) => planned_bootstrap(*body, *descriptor, bindings@, now) == Err::<
                PlanV,
                ReplyV,
            >(e@),
        },
{
    broadcast use lemma_json_view;

    let entries: Vec<(String, Json)> = match body.endpoint.connection.copy() {
        Json::Object(o) => o,
        _ => {
            return Err(no_object());
        },
    };
    let d: &DriverDescriptor = match descriptor {
        Ok(d) => d,
        Err(e) => {
            return Err(undescribed(e));
        },
    };
    let issues: Vec<ValidationIssue> = d.connection.validate_instance(
        "connection",
        &body.endpoint.connection,
    );
    if issues.len() > 0 {
        return Err(validity(&issues));
    }
    let keys: Vec<String> = secret_field_keys(&d.connection);
    let (entries, secrets) = match split_new_secrets(entries, &keys) {
        Ok(x) => x,
        Err(e) => {
            return Err(e);
        },
    };
    let wrong: Vec<ValidationIssue> = check_acquisition(
        d,
        "acquisition.tasks",
        tasks,
        bindings,
    );
    if wrong.len() > 0 {
        return Err(validity(&wrong));
    }
    let device: DeviceRecord = DeviceRecord {
        id: body.device.id.clone(),
        name: body.device.name.clone(),
    };
    let endpoint: EndpointRecord = EndpointRecord {
        id: body.endpoint.id.clone(),
        name: body.endpoint.name.clone(),
        device_id: body.device.id.clone(),
        driver_id: body.endpoint.driver_id.clone(),
        connection_json: Json::Object(entries).to_text(),
        desired_running: body.want_start(),
        updated_at_ns: now,
    };
    Ok((device, endpoint, secrets))
}

/// Creates what a request asks for, as [`bootstrap_device`] does, its secrets sealed under what was
/// drawn for them.
pub fn bootstrap_device_drawn(
    store: &mut ConfigStore,
    body: &BootstrapRequest,
    descriptor: &Result<DriverDescriptor, DescriptorError>,
    bindings: &[Result<GenericBinding, String>],
    drawn: &Vec<Result<Vec<u8>, String>>,
    now: i64,
) -> (r: Result<u64, ApiResponse>)
    requires
        store_ok(old(store)@),
        bindings@.len() == wanted_tasks(*body).len(),
        planned_bootstrap(*body, *descriptor, bindings@, now) matches Ok(plan) ==> draws_for(
            drawn@,
            plan.secrets.len(),
        ),
    ensures
        match planned_bootstrap(*body, *descriptor, bindings@, now) {
            Err(e) => r is Err && r->Err_0@ == e && final(store)@ == old(store)@,
            Ok(plan) => match bootstrapped_drawn(
                old(store)@,
                (plan.device, plan.endpoint),
                plan.secrets,
                wanted_tasks(*body),
                drawn@,
                now,
            ) {
                Ok(x) => r is Ok && r->Ok_0 == x.1 && final(store)@ == x.0,
                Err(f) => r is Err && r->Err_0@ == store_reply(f) && final(store)@ == old(store)@,
            },
        },
        store_ok(final(store)@),
{
    let none: Vec<AcquisitionTask> = Vec::new();
    let tasks: &[AcquisitionTask] = asked_tasks(body, &none);
    assert(tasks_view(tasks@).len() == tasks@.len());
    match plan_bootstrap(body, tasks, descriptor, bindings, now) {
        Ok((device, endpoint, secrets)) => {
            assert(pairs_view(secrets@).len() == secrets@.len());
            match store.bootstrap_device_tx_drawn(
                &device,
                &endpoint,
                secrets.as_slice(),
                tasks,
                drawn,
                now,
            ) {
                Ok(n) => Ok(n),
                Err(e) => Err(store_err_to_response(e)),
            }
        },
        Err(e) => Err(e),
    }
}

/// Creates what a request asks for, all of it or nothing, and gives the revision of its tasks.
/// `bindings` says of each task what it selects, or why that cannot be read.
pub fn bootstrap_device(
    store: &mut ConfigStore,
    body: &BootstrapRequest,
    descriptor: &Result<DriverDescriptor, DescriptorError>,
    bindings: &[Result<GenericBinding, String>],
    now: i64,
) -> (r: Result<u64, ApiResponse>)
    requires
        store_ok(old(store)@),
        bindings@.len() == wanted_tasks(*body).len(),
    ensures
        match planned_bootstrap(*body, *descriptor, bindings@, now) {
            Err(e) => r is Err && r->Err_0@ == e && final(store)@ == old(store)@,
            Ok(plan) => bootstrap_went(
                old(store)@,
                final(store)@,
                plan,
                wanted_tasks(*body),
                match r {
                    Ok(n) => Ok(n),
                    Err(e) => Err(e@),
                },
            ),
        },
        store_ok(final(store)@),
{
    let none: Vec<AcquisitionTask> = Vec::new();
    let tasks: &[AcquisitionTask] = asked_tasks(body, &none);
    assert(tasks_view(tasks@).len() == tasks@.len());
    match plan_bootstrap(body, tasks, descriptor, bindings, now) {
        Ok((device, endpoint, secrets)) => {
            match store.bootstrap_device_tx_with_plaintext(
                &device,
                &endpoint,
                secrets.as_slice(),
                tasks,
            ) {
                Ok(n) => Ok(n),
                Err(e) => {
                    let ghost f = e@;
                    let r: ApiResponse = store_err_to_response(e);
                    assert(store_reply(f) == r@);
                    Err(r)
                },
            }
        },
        Err(e) => Err(e),
    }
}

// ---------------------------------------------------------------------------
// Starting what was created
// ---------------------------------------------------------------------------

/// Why an endpoint that was created cannot be started, or the connection that its driver gets.
pub open spec fn created_connection(
    s: StoreV,
    id: Seq<char>,
    descriptor: Result<DriverDescriptor, DescriptorError>,
    bindings: Seq<Result<GenericBinding, String>>,
) -> Result<Seq<char>, Seq<char>> {
    if !s.endpoints.contains_key(id) {
        Err("endpoint `"@ + id + "` 不存在（事务后丢失）"@)
    } else {
        let text = s.endpoints[id].connection_json;
        match descriptor {
            Ok(d) => {
                let keys = secret_keys(d.connection.fields@);
                if acquisition_issues(d, "tasks"@, tasks_of(s, id), bindings).len() > 0 {
                    Err("任务校验失败"@)
                } else if keys.len() == 0 {
                    Ok(text)
                } else {
                    match crate::connection::materialized(s, id, text, keys) {
                        Ok(t) => Ok(t),
                        Err(f) => Err(store_fault_text(f)),
                    }
                }
            },
            Err(e) => if generic_places(tasks_of(s, id), tasks_of(s, id).len() as int).len() > 0
                || text_contains(text, "secret_set"@) {
                Err(e@.message)
            } else {
                Ok(text)
            },
        }
    }
}

/// What is to be run when an endpoint that was created is started, or why it cannot be. `bindings`
/// says of each of its tasks what it selects, or why that cannot be read.
pub fn start_created_endpoint(
    store: &ConfigStore,
    endpoint_id: &str,
    descriptor: &Result<DriverDescriptor, DescriptorError>,
    bindings: &[Result<GenericBinding, String>],
) -> (r: Result<BuiltinEndpoint, String>)
    requires
        store_ok(store@),
        bindings@.len() == tasks_of(store@, endpoint_id@).len(),
    ensures
        match r {
            Ok(cfg) => {
                &&& created_connection(store@, endpoint_id@, *descriptor, bindings@) == Ok::<
                    Seq<char>,
                    Seq<char>,
                >(cfg.connection_json@)
                &&& cfg.endpoint_id@ == endpoint_id@
                &&& cfg.driver_id@ == store@.endpoints[endpoint_id@].driver_id
                &&& tasks_view(cfg.tasks@) == tasks_of(store@, endpoint_id@)
                &&& event_tasks_of(store@, endpoint_id@) == Ok::<Seq<TaskV>, StoreFault>(
                    event_tasks_view(cfg.event_tasks@),
                )
            },
            Err(m) => match created_connection(store@, endpoint_id@, *descriptor, bindings@) {
                Err(x) => m@ == x,
                Ok(t) => event_tasks_of(store@, endpoint_id@) is Err && m@ == store_fault_text(
                    event_tasks_of(store@, endpoint_id@)->Err_0,
                ),
            },
        },
{
    let rec: EndpointRecord = match store.get_endpoint(endpoint_id) {
        Some(rec) => rec,
        None => {
            return Err(cat3("endpoint `", endpoint_id, "` 不存在（事务后丢失）"));
        },
    };
    assert(store@.endpoints.contains_key(endpoint_id@));
    assert(rec@.id == endpoint_id@);
    let tasks: Vec<AcquisitionTask> = stored_tasks(store, endpoint_id);
    assert(tasks_view(tasks@).len() == tasks@.len());
    let connection_json: String = match descriptor {
        Ok(d) => {
            if check_acquisition(d, "tasks", tasks.as_slice(), bindings).len() > 0 {
                return Err("任务校验失败".to_owned());
            }
            let keys: Vec<String> = secret_field_keys(&d.connection);
            if keys.len() == 0 {
                rec.connection_json.clone()
            } else {
                match crate::connection::materialize_connection(
                    rec.connection_json.as_str(),
                    rec.id.as_str(),
                    store,
                    &keys,
                ) {
                    Ok(t) => t,
                    Err(e) => {
                        return Err(e.message());
                    },
                }
            }
        },
        Err(e) => {
            if any_generic(tasks.as_slice()) || contains_text(rec.connection_json.as_str(), "secret_set") {
                return Err(e.message.clone());
            }
            rec.connection_json.clone()
        },
    };
    let event_tasks: Vec<EventTask> = match stored_event_tasks(store, endpoint_id) {
        Ok(v) => v,
        Err(e) => {
            return Err(e.message());
        },
    };
    Ok(
        BuiltinEndpoint {
            endpoint_id: rec.id,
            driver_id: rec.driver_id,
            connection_json,
            tasks,
            event_tasks,
        },
    )
}

// ---------------------------------------------------------------------------
// Answering
// ---------------------------------------------------------------------------

/// What came of a request that was carried out.
pub open spec fn result_value(
    device: Seq<char>,
    endpoint: Seq<char>,
    revision: u64,
    started: bool,
) -> JsonV {
    JsonV::Object(
        seq![
            ("device_id"@, JsonV::String(device)),
            ("endpoint_id"@, JsonV::String(endpoint)),
            ("revision"@, count_value(revision)),
            ("started"@, JsonV::Bool(started)),
        ],
    )
}

/// The answer to a request whose endpoint could not be started.
pub open spec fn start_failed_reply(
    undone: bool,
    device: Seq<char>,
    endpoint: Seq<char>,
    m: Seq<char>,
) -> ReplyV {
    ReplyV {
        status: 502,
        body: JsonV::Object(
            seq![
                ("compensated"@, JsonV::Bool(undone)),
                ("device_id"@, JsonV::String(device)),
                ("endpoint_id"@, JsonV::String(endpoint)),
                (
                    "error"@,
                    JsonV::Object(
                        seq![
                            ("code"@, JsonV::String("START_FAILED"@)),
                            ("message"@, JsonV::String(m)),
                        ],
                    ),
                ),
                ("start_failed"@, JsonV::Bool(true)),
            ],
        ),
    }
}

/// The store after the endpoint of a request was started, or was not to be.
pub open spec fn ran(s: StoreV, endpoint: Seq<char>, started: bool, now: i64) -> StoreV {
    if started {
        desire_set(s, endpoint, true, now)
    } else {
        s
    }
}

/// Takes what came of starting the endpoint of a request, if it was to be started. Where it could
/// not be started, the device and the endpoint are taken out again, and the answer says whether
/// that went well; nothing is kept under the key of the request. Else the result is kept there.
pub fn bootstrap_finished(
    store: &mut ConfigStore,
    snapshot: &mut Snapshot,
    body: &BootstrapRequest,
    begun: &BootstrapBegun,
    revision: u64,
    outcome: Option<Result<(), String>>,
    now: i64,
) -> (r: ApiResponse)
    requires
        store_ok(old(store)@),
        snapshot_ok(old(snapshot)@),
    ensures
        match outcome {
            Some(Err(m)) => {
                &&& match compensated(old(store)@, body.device.id@, body.endpoint.id@) {
                    Ok(x) => final(store)@ == x.0 && r@ == start_failed_reply(
                        true,
                        body.device.id@,
                        body.endpoint.id@,
                        m@,
                    ),
                    Err(f) => final(store)@ == endpoint_deleted(old(store)@, body.endpoint.id@)
                        && r@ == start_failed_reply(
                        false,
                        body.device.id@,
                        body.endpoint.id@,
                        m@,
                    ),
                }
                &&& final(snapshot)@ == endpoint_removed(old(snapshot)@, body.endpoint.id@)
            },
            _ => {
                let result = result_value(
                    body.device.id@,
                    body.endpoint.id@,
                    revision,
                    outcome is Some,
                );
                let running = ran(old(store)@, body.endpoint.id@, outcome is Some, now);
                &&& r@ == (ReplyV { status: 201, body: result })
                &&& final(snapshot)@ == old(snapshot)@
                &&& match begun.key {
                    None => final(store)@ == running,
                    Some(k) => exists|at: i64|
                        final(store)@ == (StoreV {
                            idempotency: running.idempotency.insert(
                                k@,
                                #[trigger] result_row(
                                    begun.fingerprint@,
                                    body.device.id@,
                                    body.endpoint.id@,
                                    json_text(result),
                                    at,
                                ),
                            ),
                            ..running
                        }),
                }
            },
        },
        store_ok(final(store)@),
        snapshot_ok(final(snapshot)@),
{
    let device: &str = body.device.id.as_str();
    let endpoint: &str = body.endpoint.id.as_str();
    let started: bool = match outcome {
        Some(Err(m)) => {
            let undone: bool = match store.bootstrap_compensate(device, endpoint) {
                Ok(()) => true,
                Err(_) => false,
            };
            snapshot.remove_endpoint(endpoint);
            return reply(
                502,
                object5(
                    "compensated",
                    truth_json(undone),
                    "device_id",
                    text_json(device),
                    "endpoint_id",
                    text_json(endpoint),
                    "error",
                    object2("code", text_json("START_FAILED"), "message", text_json(m.as_str())),
                    "start_failed",
                    truth_json(true),
                ),
            );
        },
        Some(Ok(())) => {
            let _ = store.set_desired_running_at(endpoint, true, now);
            true
        },
        None => false,
    };
    assert(started == (outcome is Some));
    let result: Json = object4(
        "device_id",
        text_json(device),
        "endpoint_id",
        text_json(endpoint),
        "revision",
        count_json(revision),
        "started",
        truth_json(started),
    );
    match &begun.key {
        Some(k) => {
            let text: String = result.to_text();
            store.bootstrap_idempotency_put(
                k.as_str(),
                begun.fingerprint.as_str(),
                device,
                endpoint,
                text.as_str(),
            );
        },
        None => {},
    }
    reply(201, result)
}

/// What came of a request that was carried out can be read back from its text as it was.
pub proof fn results_are_plain(device: Seq<char>, endpoint: Seq<char>, revision: u64, started: bool)
    ensures
        plain(result_value(device, endpoint, revision, started), 127),
{
    let v = result_value(device, endpoint, revision, started);
    let o = v->Object_0;
    let keys = entry_keys(o);
    reveal_strlit("device_id");
    reveal_strlit("endpoint_id");
    reveal_strlit("revision");
    reveal_strlit("started");
    crate::json::other_keys_are_written_as_objects(o);
    assert(keys =~= seq!["device_id"@, "endpoint_id"@, "revision"@, "started"@]);
    assert forall|i: int, j: int| 0 <= i < j < keys.len() implies crate::text::text_before(
        #[trigger] keys[i],
        #[trigger] keys[j],
    ) by {
        crate::text::lemma_first_letters(keys[i], keys[j]);
    }
    let a = o.drop_last();
    let b = a.drop_last();
    let c = b.drop_last();
    assert(c.drop_last() =~= Seq::<(Seq<char>, JsonV)>::empty());
    assert(crate::json::plain_entries(c.drop_last(), 126));
    assert(c.last() == ("device_id"@, JsonV::String(device)));
    assert(plain(JsonV::String(device), 126));
    assert(plain(JsonV::String(endpoint), 126));
    assert(plain(count_value(revision), 126));
    assert(plain(JsonV::Bool(started), 126));
    assert(crate::json::plain_entries(c, 126));
    assert(crate::json::plain_entries(b, 126));
    assert(crate::json::plain_entries(a, 126));
    assert(crate::json::plain_entries(o, 126));
}

/// A request that is repeated under its key, after it was carried out, is answered with what came
/// of it the first time, marked as such: what is kept under the key is the text of a plain value,
/// and [`device_bootstrap`] answers with that value.
pub proof fn repeated_requests_get_the_first_answer(
    s: StoreV,
    key: Seq<char>,
    hash: Seq<char>,
    device: Seq<char>,
    endpoint: Seq<char>,
    revision: u64,
    started: bool,
    at: i64,
)
    requires
        s.idempotency.contains_key(key),
        s.idempotency[key] == result_row(
            hash,
            device,
            endpoint,
            json_text(result_value(device, endpoint, revision, started)),
            at,
        ),
    ensures
        ({
            let result = result_value(device, endpoint, revision, started);
            &&& repeated(s, Some(key), hash) is Some
            &&& repeated(s, Some(key), hash)->0.status == 200
            &&& s.idempotency[key].request_hash == hash
            &&& plain(result, 127)
            &&& json_text(result) == s.idempotency[key].result_json
            &&& again(result) == JsonV::Object(
                seq![
                    ("device_id"@, JsonV::String(device)),
                    ("endpoint_id"@, JsonV::String(endpoint)),
                    ("replayed"@, JsonV::Bool(true)),
                    ("revision"@, count_value(revision)),
                    ("started"@, JsonV::Bool(started)),
                ],
            )
        }),
{
    results_are_plain(device, endpoint, revision, started);
    let v = result_value(device, endpoint, revision, started);
    let o = v->Object_0;
    let new = ("replayed"@, JsonV::Bool(true));
    reveal_strlit("device_id");
    reveal_strlit("endpoint_id");
    reveal_strlit("replayed");
    reveal_strlit("revision");
    crate::text::lemma_first_letters("device_id"@, "replayed"@);
    crate::text::lemma_first_letters("endpoint_id"@, "replayed"@);
    crate::text::lemma_text_before_asymmetric("device_id"@, "replayed"@);
    crate::text::lemma_text_before_asymmetric("endpoint_id"@, "replayed"@);
    let p = "replayed"@;
    let q = "revision"@;
    crate::text::lemma_first_letters(p.drop_first().drop_first(), q.drop_first().drop_first());
    crate::text::lemma_shared_letter(p.drop_first(), q.drop_first());
    crate::text::lemma_shared_letter(p, q);
    crate::text::lemma_text_before_asymmetric(p, q);
    let o1 = o.drop_first();
    let o2 = o1.drop_first();
    assert(object_set(o2, "replayed"@, JsonV::Bool(true)) =~= seq![new] + o2);
    assert(object_set(o1, "replayed"@, JsonV::Bool(true)) =~= seq![o1[0]] + (seq![new] + o2));
    assert(object_set(o, "replayed"@, JsonV::Bool(true)) =~= seq![o[0]] + (seq![o1[0]] + (seq![new]
        + o2)));
    assert(again(v)->Object_0 =~= seq![o[0], o[1], new, o[2], o[3]]);
}

/// A request under a key that stands for another one is refused.
pub proof fn keys_stand_for_one_request(s: StoreV, key: Seq<char>, hash: Seq<char>)
    requires
        s.idempotency.contains_key(key),
        s.idempotency[key].request_hash != hash,
    ensures
        repeated(s, Some(key), hash) is Some,
        repeated(s, Some(key), hash)->0.status == 409,
{
}

/// What is asked for of the tasks and of the start: no tasks and a start where nothing is said.
pub proof fn requests_mean_what_they_say(req: BootstrapRequest)
    ensures
        req.acquisition is None ==> wanted_tasks(req).len() == 0,
        req.acquisition matches Some(a) ==> wanted_tasks(req) == tasks_view(a.tasks@),
        req.start is None ==> wants_start(req),
        req.start matches Some(b) ==> wants_start(req) == b,
{
}

/// The key of a request is the one in its header, without the space around it, and the one in its
/// body where the header has none.
pub proof fn keys_of_requests_stand_in_the_header_first(
    header: Option<Seq<char>>,
    body: Option<Seq<char>>,
)
    ensures
        header is Some && !blank(header->0) ==> key_given(header, body) == Some(trimmed(header->0)),
        (header is None || blank(header->0)) && body is Some && !blank(body->0) ==> key_given(
            header,
            body,
        ) == Some(trimmed(body->0)),
        (header is None || blank(header->0)) && (body is None || blank(body->0)) ==> key_given(
            header,
            body,
        ) is None,
{
    if header is Some {
        blank_means_trimmed_to_nothing(header->0);
        if trimmed(header->0).len() == 0 {
            assert(trimmed(header->0) =~= Seq::<char>::empty());
        }
    }
    if body is Some {
        blank_means_trimmed_to_nothing(body->0);
        if trimmed(body->0).len() == 0 {
            assert(trimmed(body->0) =~= Seq::<char>::empty());
        }
    }
}

/// A request with a key that is known is answered with the first answer where it asks for the same,
/// and refused where it asks for something else; any other request is gone through with.
pub proof fn requests_with_a_known_key_are_answered_at_once(
    s: StoreV,
    k: Seq<char>,
    hash: Seq<char>,
)
    ensures
        repeated(s, None, hash) is None,
        repeated(s, Some(k), hash) is None <==> !s.idempotency.contains_key(k),
        s.idempotency.contains_key(k) && s.idempotency[k].request_hash == hash ==> (repeated(
            s,
            Some(k),
            hash,
        ) matches Some(r) && r.status == 200),
        s.idempotency.contains_key(k) && s.idempotency[k].request_hash != hash ==> (repeated(
            s,
            Some(k),
            hash,
        ) matches Some(r) && r.status == 409),
{
}

/// An answer that is given again says so.
pub proof fn answers_that_are_given_again_say_so(v: JsonV, key: Seq<char>)
    ensures
        v matches JsonV::Object(o) ==> (again(v) matches JsonV::Object(p) && object_get(
            p,
            "replayed"@,
        ) == Some(JsonV::Bool(true)) && (key != "replayed"@ ==> object_get(p, key) == object_get(
            o,
            key,
        ))),
        !(v is Object) ==> again(v) == v,
{
    if v is Object {
        crate::json::object_get_after_set(
            v->Object_0,
            "replayed"@,
            JsonV::Bool(true),
            "replayed"@,
        );
        crate::json::object_get_after_set(v->Object_0, "replayed"@, JsonV::Bool(true), key);
    }
}

/// A device is planned exactly where its connection is an object that fits, the driver describes
/// itself, nothing stands for a secret, and its tasks are on offer; as it was asked for, with the
/// endpoint on it.
pub proof fn devices_are_planned_as_they_were_asked_for(
    req: BootstrapRequest,
    descriptor: Result<DriverDescriptor, DescriptorError>,
    bindings: Seq<Result<GenericBinding, String>>,
    now: i64,
)
    ensures
        !(req.endpoint.connection@ is Object) ==> (planned_bootstrap(
            req,
            descriptor,
            bindings,
            now,
        ) matches Err(r) && r.status == 400),
        req.endpoint.connection@ is Object && descriptor is Err ==> (planned_bootstrap(
            req,
            descriptor,
            bindings,
            now,
        ) matches Err(r) && r.status == 503),
        req.endpoint.connection@ is Object && descriptor is Ok ==> (planned_bootstrap(
            req,
            descriptor,
            bindings,
            now,
        ) is Ok <==> instance_issues(
            descriptor->Ok_0.connection.fields@,
            "connection"@,
            req.endpoint.connection@,
        ).len() == 0 && split_new(
            req.endpoint.connection@->Object_0,
            secret_keys(descriptor->Ok_0.connection.fields@),
            secret_keys(descriptor->Ok_0.connection.fields@).len() as int,
        ) is Ok && acquisition_issues(
            descriptor->Ok_0,
            "acquisition.tasks"@,
            wanted_tasks(req),
            bindings,
        ).len() == 0),
        planned_bootstrap(req, descriptor, bindings, now) matches Ok(p) ==> {
            let split = split_new(
                req.endpoint.connection@->Object_0,
                secret_keys(descriptor->Ok_0.connection.fields@),
                secret_keys(descriptor->Ok_0.connection.fields@).len() as int,
            )->Ok_0;
            &&& p.device.id == req.device.id@
            &&& p.device.name == req.device.name@
            &&& p.endpoint.id == req.endpoint.id@
            &&& p.endpoint.name == req.endpoint.name@
            &&& p.endpoint.device_id == req.device.id@
            &&& p.endpoint.driver_id == req.endpoint.driver_id@
            &&& p.endpoint.connection_json == json_text(JsonV::Object(split.entries))
            &&& req.start is None ==> p.endpoint.desired_running
            &&& req.start matches Some(b) ==> p.endpoint.desired_running == b
            &&& p.endpoint.updated_at_ns == now
            &&& p.secrets == split.secrets
        },
{
}

/// What is answered once a device is set up, and where its endpoint could not be started.
pub proof fn set_up_devices_are_answered_for(
    device: Seq<char>,
    endpoint: Seq<char>,
    revision: u64,
    started: bool,
    undone: bool,
    m: Seq<char>,
)
    ensures
        result_value(device, endpoint, revision, started) matches JsonV::Object(o) && o.len() == 4
            && o[0] == ("device_id"@, JsonV::String(device)) && o[1] == (
            "endpoint_id"@,
            JsonV::String(endpoint),
        ) && o[2] == ("revision"@, JsonV::Number(JsonNumber::PosInt(revision))) && o[3] == (
            "started"@,
            JsonV::Bool(started),
        ),
        start_failed_reply(undone, device, endpoint, m).status == 502,
        start_failed_reply(undone, device, endpoint, m).body matches JsonV::Object(o) && o.len()
            == 5 && o[0] == ("compensated"@, JsonV::Bool(undone)) && o[1] == (
            "device_id"@,
            JsonV::String(device),
        ) && o[2] == ("endpoint_id"@, JsonV::String(endpoint)) && o[4] == (
            "start_failed"@,
            JsonV::Bool(true),
        ),
{
}

/// An endpoint that was started is to run from then on; one that was not is left as it is.
pub proof fn started_endpoints_are_to_run(s: StoreV, endpoint: Seq<char>, now: i64)
    ensures
        ran(s, endpoint, false, now) == s,
        s.endpoints.contains_key(endpoint) ==> ran(
            s,
            endpoint,
            true,
            now,
        ).endpoints[endpoint].desired_running,
{
}

/// The fingerprint of a request has sixteen digits and depends on nothing but its canonical text.
pub proof fn fingerprints_follow_the_canonical_text(a: JsonV, b: JsonV)
    ensures
        canonical(a) == canonical(b) ==> fingerprint(a) == fingerprint(b),
        mixed(Seq::empty()) == 0xcbf29ce484222325,
{
}

/// How a fingerprint takes in one more byte.
pub proof fn fingerprints_take_in_bytes_one_by_one(bytes: Seq<u8>, b: u8)
    ensures
        mixed(bytes.push(b)) == ((mixed(bytes) ^ (b as u64)) * 0x100000001b3)
            % 0x1_0000_0000_0000_0000,
{
    assert(bytes.push(b).drop_last() =~= bytes);
}

/// The text that a value is told apart by: plain values as they are, lists in their order.
pub proof fn canonical_texts_keep_values_and_lists(v: JsonV, a: Seq<JsonV>)
    ensures
        !(v is Array) && !(v is Object) ==> canonical(v) == json_text(v),
        canonical(JsonV::Array(a)) == bracketed(canonical_items(a)),
        canonical_items(Seq::empty()).len() == 0,
        canonical_items(a.push(v)) == canonical_items(a).push(canonical(v)),
{
    assert(a.push(v).drop_last() =~= a);
}

/// The request that is told apart is all of what was asked for.
pub proof fn requests_are_told_apart_by_all_they_say(req: BootstrapRequest)
    ensures
        request_value(req) matches JsonV::Object(o) && {
            &&& o.len() == 4
            &&& o[0].0 == "acquisition"@
            &&& req.acquisition is None ==> o[0].1 is Null
            &&& o[1].0 == "device"@
            &&& o[1].1 matches JsonV::Object(d) && d.len() == 2 && d[0] == (
                "id"@,
                JsonV::String(req.device.id@),
            ) && d[1] == ("name"@, JsonV::String(req.device.name@))
            &&& o[2].0 == "endpoint"@
            &&& o[2].1 matches JsonV::Object(e) && e.len() == 4 && e[0] == (
                "connection"@,
                req.endpoint.connection@,
            ) && e[1] == ("driver_id"@, JsonV::String(req.endpoint.driver_id@)) && e[2] == (
                "id"@,
                JsonV::String(req.endpoint.id@),
            ) && e[3] == ("name"@, JsonV::String(req.endpoint.name@))
            &&& o[3].0 == "start"@
            &&& req.start is None ==> o[3].1 is Null
            &&& req.start matches Some(b) ==> o[3].1 == JsonV::Bool(b)
        },
{
}

/// What an endpoint that was just set up is started with: its connection, with its secrets where
/// there are some; and what stands in the way.
pub proof fn new_endpoints_are_started_with_their_connection(
    s: StoreV,
    id: Seq<char>,
    descriptor: Result<DriverDescriptor, DescriptorError>,
    bindings: Seq<Result<GenericBinding, String>>,
)
    ensures
        !s.endpoints.contains_key(id) ==> created_connection(s, id, descriptor, bindings) is Err,
        s.endpoints.contains_key(id) ==> (match descriptor {
            Ok(d) => {
                let keys = secret_keys(d.connection.fields@);
                let text = s.endpoints[id].connection_json;
                &&& acquisition_issues(d, "tasks"@, tasks_of(s, id), bindings).len() > 0
                    ==> created_connection(s, id, descriptor, bindings) is Err
                &&& acquisition_issues(d, "tasks"@, tasks_of(s, id), bindings).len() == 0
                    && keys.len() == 0 ==> created_connection(s, id, descriptor, bindings) == Ok::<
                    Seq<char>,
                    Seq<char>,
                >(text)
                &&& acquisition_issues(d, "tasks"@, tasks_of(s, id), bindings).len() == 0
                    && keys.len() > 0 ==> (created_connection(s, id, descriptor, bindings) is Ok
                    <==> crate::connection::materialized(s, id, text, keys) is Ok)
                &&& keys.len() > 0 ==> (created_connection(s, id, descriptor, bindings) matches Ok(
                    t,
                ) ==> crate::connection::materialized(s, id, text, keys) == Ok::<
                    Seq<char>,
                    StoreFault,
                >(t))
            },
            Err(e) => created_connection(s, id, descriptor, bindings) matches Ok(t) ==> t
                == s.endpoints[id].connection_json && !text_contains(t, "secret_set"@),
        }),
{
}

/// A set-up that failed changes nothing; one that went well left the device, its endpoint and its
/// tasks as they were planned.
pub proof fn set_ups_go_all_the_way_or_not_at_all(
    before: StoreV,
    after: StoreV,
    plan: PlanV,
    ts: Seq<TaskV>,
    r: Result<u64, ReplyV>,
)
    requires
        bootstrap_went(before, after, plan, ts, r),
    ensures
        r is Err ==> after == before,
        r matches Ok(n) ==> n == 1 && after.devices == before.devices.insert(
            plan.device.id,
            plan.device.name,
        ) && after.endpoints == before.endpoints.insert(plan.endpoint.id, plan.endpoint)
            && after.revisions == before.revisions.insert(plan.endpoint.id, 1),
        r is Ok ==> bootstrap_refused(before, plan.device, plan.endpoint, ts) is None,
{
}

/// The entries of an object are told apart by their names, whatever their order; the last one under
/// a name counts.
pub proof fn canonical_entries_are_kept_by_name(
    o: Seq<(Seq<char>, JsonV)>,
    k: Seq<char>,
    v: JsonV,
)
    ensures
        canonical_entries(Seq::empty()) == Map::<Seq<char>, Seq<char>>::empty(),
        canonical_entries(o.push((k, v))) == canonical_entries(o).insert(k, canonical(v)),
        canonical(JsonV::Object(o)) == braced(
            ordered_keys(canonical_entries(o)).map_values(
                |n: Seq<char>| member(n, canonical_entries(o)[n]),
            ),
        ),
{
    assert(o.push((k, v)).drop_last() =~= o);
    assert(ordered_keys(canonical_entries(o)).map_values(
        |n: Seq<char>| member(n, canonical_entries(o)[n]),
    ) =~= ordered_keys(canonical_entries(o)).map_values(
        |n: Seq<char>| member(n, canonical_entries(o)[n]),
    ));
}

/// What was answered is kept as a text, and read as an empty object where it cannot be.
pub proof fn kept_answers_are_read(text: Seq<char>)
    ensures
        json_parsed(text) matches Ok(v) ==> kept_result(text) == v,
        json_parsed(text) is Err ==> kept_result(text) == JsonV::Object(Seq::empty()),
{
}

} // verus!
