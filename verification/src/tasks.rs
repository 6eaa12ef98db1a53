//! Requests for the tasks of endpoints.
use vstd::prelude::*;

use crate::api::{
    complain, count_json, count_value, error_reply, list_json, object2, object3, object4, reply,
    store_err_to_response, store_reply, text_json, ApiResponse, ReplyV,
};
use crate::descriptor::DriverDescriptor;
use crate::gate::{gate, gate_data_tasks};
use crate::json::{items_view, json_get, lemma_json_view, Json, JsonNumber, JsonV};
use crate::event::EventTask;
use crate::manager::DescriptorError;
use crate::protocol::tasks_view;
use crate::resource::GenericBinding;
use crate::store::{
    config_reads_back, event_row_fault, event_rows_fault, event_tasks_view, kept_task,
    lemma_kept_task, lemma_listed, revision_of, rows_for, same_tasks, store_ok, task_ids, task_row,
    task_rows, tasks_fault, tasks_replaced, ConfigStore, StoreError, StoreFault, StoreV, TaskRowV,
};
use crate::table::ordered_keys;
use crate::text::{cat3, same_text};
use crate::types::{mode_name, AcquisitionTask, TaskV};

verus! {

/// A task as a value.
pub open spec fn task_value(t: TaskV) -> JsonV {
    JsonV::Object(
        seq![
            (
                "binding"@,
                JsonV::Object(seq![("config"@, t.config), ("kind"@, JsonV::String(t.kind))]),
            ),
            ("id"@, JsonV::String(t.id)),
            ("interval_ms"@, interval_value(t.interval_ms)),
            ("mode"@, JsonV::String(mode_name(t.mode))),
        ],
    )
}

/// An interval that may be missing as a value.
pub open spec fn interval_value(n: Option<u64>) -> JsonV {
    match n {
        Some(x) => count_value(x),
        None => JsonV::Null,
    }
}

pub(crate) fn task_json(t: &AcquisitionTask) -> (r: Json)
    ensures
        r@ == task_value(t@),
{
    broadcast use lemma_json_view;

    let interval: Json = match t.interval_ms {
        Some(n) => count_json(n),
        None => Json::Null,
    };
    object4(
        "binding",
        object2("config", t.binding.config.copy(), "kind", text_json(t.binding.kind.as_str())),
        "id",
        text_json(t.id.as_str()),
        "interval_ms",
        interval,
        "mode",
        text_json(t.mode.as_str()),
    )
}

/// The tasks that an endpoint has, in the order of their ids.
pub open spec fn tasks_of(s: StoreV, endpoint: Seq<char>) -> Seq<TaskV> {
    ordered_keys(rows_for(s.tasks, endpoint)).map_values(
        |id: Seq<char>| kept_task(id, rows_for(s.tasks, endpoint)[id]),
    )
}

/// After the tasks of an endpoint were replaced, the tasks that it has are those that were given,
/// in the order of their ids, and its revision is one up. Each is as it was given where its
/// configuration is read as it was written.
pub proof fn replaced_tasks_are_listed(s: StoreV, endpoint: Seq<char>, ts: Seq<TaskV>, now: i64)
    requires
        revision_of(s, endpoint) < i64::MAX,
    ensures
        tasks_replaced(s, endpoint, ts, now) is Err <==> tasks_fault(ts) is Some
            || !s.endpoints.contains_key(endpoint),
        tasks_replaced(s, endpoint, ts, now) matches Ok(r) ==> {
            &&& r.1 == revision_of(s, endpoint) + 1
            &&& revision_of(r.0, endpoint) == r.1
            &&& rows_for(r.0.tasks, endpoint) == task_rows(ts, ts.len() as int)
            &&& (forall|i: int| 0 <= i < ts.len() ==> config_reads_back(#[trigger] ts[i]))
                ==> same_tasks(tasks_of(r.0, endpoint), ts)
        },
{
    if tasks_replaced(s, endpoint, ts, now) is Ok {
        let after = tasks_replaced(s, endpoint, ts, now)->Ok_0.0;
        let rows = task_rows(ts, ts.len() as int);
        let listed = tasks_of(after, endpoint);
        crate::store::replaced_tasks_are_kept(ts);
        vstd::seq_lib::seq_to_set_is_finite(task_ids(ts));
        let keys = crate::table::lemma_order_exists(rows.dom());
        crate::table::lemma_order(keys, rows);
        assert(task_ids(listed) =~= keys);
        if forall|i: int| 0 <= i < ts.len() ==> config_reads_back(#[trigger] ts[i]) {
            assert forall|i: int| 0 <= i < ts.len() implies kept_task(
                (#[trigger] ts[i]).id,
                task_row(ts[i]),
            ) == ts[i] by {
                lemma_kept_task(ts[i]);
            }
            lemma_listed(listed, ts);
        }
    }
}

pub(crate) fn stored_tasks(store: &ConfigStore, endpoint_id: &str) -> (r: Vec<AcquisitionTask>)
    ensures
        tasks_view(r@) == tasks_of(store@, endpoint_id@),
{
    let list: Vec<AcquisitionTask> = store.list_tasks(endpoint_id);
    proof {
        let ids = task_ids(tasks_view(list@));
        let want = tasks_of(store@, endpoint_id@);
        assert(list@.len() == ids.len());
        assert forall|i: int| 0 <= i < list@.len() implies tasks_view(list@)[i] == want[i] by {
            assert(ids[i] == list@[i].id@);
        }
        assert(tasks_view(list@) =~= want);
    }
    list
}

/// The event tasks that an endpoint has, in the order of their ids, unless one was spoilt.
pub open spec fn event_tasks_of(s: StoreV, endpoint: Seq<char>) -> Result<Seq<TaskV>, StoreFault> {
    let rows = rows_for(s.event_tasks, endpoint);
    match event_rows_fault(rows, ordered_keys(rows), 0) {
        Some(f) => Err(f),
        None => Ok(ordered_keys(rows).map_values(|id: Seq<char>| kept_task(id, rows[id]))),
    }
}

pub(crate) fn stored_event_tasks(store: &ConfigStore, endpoint_id: &str) -> (r: Result<
    Vec<EventTask>,
    StoreError,
>)
    ensures
        match r {
            Ok(ts) => event_tasks_of(store@, endpoint_id@) == Ok::<Seq<TaskV>, StoreFault>(
                event_tasks_view(ts@),
            ),
            Err(e) => event_tasks_of(store@, endpoint_id@) == Err::<Seq<TaskV>, StoreFault>(e@),
        },
{
    match store.list_event_tasks(endpoint_id) {
        Ok(list) => {
            proof {
                let ids = task_ids(event_tasks_view(list@));
                let want = event_tasks_of(store@, endpoint_id@)->Ok_0;
                assert(list@.len() == ids.len());
                assert forall|i: int| 0 <= i < list@.len() implies event_tasks_view(list@)[i]
                    == want[i] by {
                    assert(ids[i] == list@[i].id@);
                }
                assert(event_tasks_view(list@) =~= want);
            }
            Ok(list)
        },
        Err(e) => Err(e),
    }
}

/// The answer to a request for the tasks of an endpoint.
pub open spec fn tasks_reply(s: StoreV, endpoint: Option<Seq<char>>) -> ReplyV {
    match endpoint {
        None => error_reply(400, "VALIDATION_ERROR"@, "缺少查询参数 endpoint"@),
        Some(ep) => ReplyV {
            status: 200,
            body: JsonV::Object(
                seq![
                    ("endpoint_id"@, JsonV::String(ep)),
                    ("revision"@, count_value(revision_of(s, ep))),
                    (
                        "tasks"@,
                        JsonV::Array(tasks_of(s, ep).map_values(|t: TaskV| task_value(t))),
                    ),
                ],
            ),
        },
    }
}

pub fn list_tasks(store: &ConfigStore, endpoint: &Option<String>) -> (r: ApiResponse)
    ensures
        r@ == tasks_reply(store@, crate::schema::maybe_text(*endpoint)),
{
    match endpoint {
        None => complain(400, "VALIDATION_ERROR", "缺少查询参数 endpoint"),
        Some(ep) => {
            let list: Vec<AcquisitionTask> = stored_tasks(store, ep.as_str());
            let mut items: Vec<Json> = Vec::new();
            let mut i: usize = 0;
            while i < list.len()
                invariant
                    i <= list.len(),
                    items@.len() == i,
                    forall|j: int| 0 <= j < i ==> (#[trigger] items@[j])@ == task_value(list@[j]@),
                decreases list.len() - i,
            {
                items.push(task_json(&list[i]));
                i = i + 1;
            }
            assert(items_view(items@) =~= tasks_view(list@).map_values(|t: TaskV| task_value(t)));
            reply(
                200,
                object3(
                    "endpoint_id",
                    text_json(ep.as_str()),
                    "revision",
                    count_json(store.current_revision(ep.as_str())),
                    "tasks",
                    list_json(items),
                ),
            )
        },
    }
}

/// The complaint that an endpoint runs while its tasks are to be changed.
pub open spec fn tasks_in_use() -> ReplyV {
    error_reply(409, "CONFLICT"@, "endpoint 正在运行，请先停止后再修改任务"@)
}

/// Whether tasks were given to an endpoint, and how that was answered. Tasks of an endpoint that
/// there is are held against what its driver offers.
pub open spec fn tasks_given(
    before: StoreV,
    after: StoreV,
    endpoint: Seq<char>,
    ts: Seq<TaskV>,
    refused: Option<ReplyV>,
    now: i64,
    r: ReplyV,
) -> bool {
    match tasks_replaced(before, endpoint, ts, now) {
        _ if before.endpoints.contains_key(endpoint) && refused is Some => after == before && Some(r)
            == refused,
        Ok(x) => after == x.0 && r == (ReplyV {
            status: 200,
            body: JsonV::Object(
                seq![
                    ("endpoint_id"@, JsonV::String(endpoint)),
                    ("revision"@, count_value(x.1)),
                ],
            ),
        }),
        Err(f) => after == before && r == store_reply(f),
    }
}

fn give_tasks(
    store: &mut ConfigStore,
    endpoint_id: &str,
    tasks: &[AcquisitionTask],
    descriptor: &Result<DriverDescriptor, DescriptorError>,
    bindings: &[Result<GenericBinding, String>],
    now: i64,
) -> (r: ApiResponse)
    requires
        store_ok(old(store)@),
        bindings@.len() == tasks@.len(),
        revision_of(old(store)@, endpoint_id@) < i64::MAX,
    ensures
        tasks_given(
            old(store)@,
            final(store)@,
            endpoint_id@,
            tasks_view(tasks@),
            gate(*descriptor, tasks_view(tasks@), bindings@),
            now,
            r@,
        ),
        store_ok(final(store)@),
{
    if store.get_endpoint(endpoint_id).is_some() {
        match gate_data_tasks(descriptor, tasks, bindings) {
            Some(e) => {
                return e;
            },
            None => {},
        }
    }
    match store.replace_tasks_at(endpoint_id, tasks, now) {
        Ok(rev) => reply(
            200,
            object2("endpoint_id", text_json(endpoint_id), "revision", count_json(rev)),
        ),
        Err(e) => store_err_to_response(e),
    }
}

/// Gives an endpoint other tasks, if its driver offers what they select. `bindings` says of each
/// task what it selects, or why that cannot be read; it counts only of tasks that select resources.
pub fn replace_tasks(
    store: &mut ConfigStore,
    running: bool,
    endpoint_id: &Option<String>,
    tasks: &[AcquisitionTask],
    descriptor: &Result<DriverDescriptor, DescriptorError>,
    bindings: &[Result<GenericBinding, String>],
    now: i64,
) -> (r: ApiResponse)
    requires
        store_ok(old(store)@),
        bindings@.len() == tasks@.len(),
        endpoint_id matches Some(ep) ==> revision_of(old(store)@, ep@) < i64::MAX,
    ensures
        match endpoint_id {
            None => r@ == error_reply(400, "VALIDATION_ERROR"@, "缺少 endpoint_id"@) && final(store)@
                == old(store)@,
            Some(ep) => if running {
                r@ == tasks_in_use() && final(store)@ == old(store)@
            } else {
                tasks_given(
                    old(store)@,
                    final(store)@,
                    ep@,
                    tasks_view(tasks@),
                    gate(*descriptor, tasks_view(tasks@), bindings@),
                    now,
                    r@,
                )
            },
        },
        store_ok(final(store)@),
{
    match endpoint_id {
        None => complain(400, "VALIDATION_ERROR", "缺少 endpoint_id"),
        Some(ep) => if running {
            complain(409, "CONFLICT", "endpoint 正在运行，请先停止后再修改任务")
        } else {
            give_tasks(store, ep.as_str(), tasks, descriptor, bindings, now)
        },
    }
}

/// Tasks that were given to an endpoint select what its driver offers.
pub proof fn given_tasks_are_on_offer(
    before: StoreV,
    after: StoreV,
    endpoint: Seq<char>,
    ts: Seq<TaskV>,
    descriptor: Result<DriverDescriptor, DescriptorError>,
    bindings: Seq<Result<GenericBinding, String>>,
    now: i64,
    r: ReplyV,
)
    requires
        tasks_given(before, after, endpoint, ts, gate(descriptor, ts, bindings), now, r),
        r.status == 200,
    ensures
        gate(descriptor, ts, bindings) is None,
        tasks_replaced(before, endpoint, ts, now) matches Ok(x) && after == x.0,
{
    crate::gate::the_gate_answers_with_an_error(descriptor, ts, bindings);
    assert forall|f: StoreFault| (#[trigger] store_reply(f)).status != 200 by {
        crate::api::refusals_are_errors(f);
    }
}

/// The part of a body that holds tasks: what it names so, or all of it where it is a list.
pub open spec fn tasks_part(body: JsonV) -> Option<JsonV> {
    match json_get(body, "tasks"@) {
        Some(v) => Some(v),
        None => if body is Array {
            Some(body)
        } else {
            None
        },
    }
}

pub fn tasks_in<'a>(body: &'a Json) -> (r: Option<&'a Json>)
    ensures
        match r {
            Some(v) => tasks_part(body@) == Some(v@),
            None => tasks_part(body@) is None,
        },
{
    broadcast use lemma_json_view;

    match body.get("tasks") {
        Some(v) => Some(v),
        None => match body {
            Json::Array(_) => Some(body),
            _ => None,
        },
    }
}

/// Tasks as they were read from a body: there were none, they could not be read, or here they are.
#[derive(Debug, PartialEq)]
pub enum ReadTasks {
    Missing,
    Unreadable(String),
    Tasks(Vec<AcquisitionTask>),
}

/// Gives an endpoint the tasks that were read from a body, if its driver offers what they select.
/// `bindings` says of each task what it selects, or why that cannot be read; it counts only of tasks
/// that select resources.
pub fn put_tasks_for_endpoint(
    store: &mut ConfigStore,
    running: bool,
    endpoint_id: &str,
    read: &ReadTasks,
    descriptor: &Result<DriverDescriptor, DescriptorError>,
    bindings: &[Result<GenericBinding, String>],
    now: i64,
) -> (r: ApiResponse)
    requires
        store_ok(old(store)@),
        read matches ReadTasks::Tasks(tasks) ==> bindings@.len() == tasks@.len(),
        revision_of(old(store)@, endpoint_id@) < i64::MAX,
    ensures
        match read {
            ReadTasks::Missing => r@ == error_reply(
                400,
                "VALIDATION_ERROR"@,
                "body 需为 {tasks:[...]} 或 [...]"@,
            ) && final(store)@ == old(store)@,
            ReadTasks::Unreadable(m) => r@ == error_reply(400, "VALIDATION_ERROR"@, m@)
                && final(store)@ == old(store)@,
            ReadTasks::Tasks(tasks) => if running {
                r@ == tasks_in_use() && final(store)@ == old(store)@
            } else {
                tasks_given(
                    old(store)@,
                    final(store)@,
                    endpoint_id@,
                    tasks_view(tasks@),
                    gate(*descriptor, tasks_view(tasks@), bindings@),
                    now,
                    r@,
                )
            },
        },
        store_ok(final(store)@),
{
    match read {
        ReadTasks::Missing => complain(
            400,
            "VALIDATION_ERROR",
            "body 需为 {tasks:[...]} 或 [...]",
        ),
        ReadTasks::Unreadable(m) => complain(400, "VALIDATION_ERROR", m.as_str()),
        ReadTasks::Tasks(tasks) => if running {
            complain(409, "CONFLICT", "endpoint 正在运行，请先停止后再修改任务")
        } else {
            give_tasks(store, endpoint_id, tasks.as_slice(), descriptor, bindings, now)
        },
    }
}

/// The first `n` of some tasks without those that have an id.
pub open spec fn without_task(ts: Seq<TaskV>, id: Seq<char>) -> Seq<TaskV>
    decreases ts.len(),
{
    if ts.len() == 0 {
        Seq::empty()
    } else if ts.last().id == id {
        without_task(ts.drop_last(), id)
    } else {
        without_task(ts.drop_last(), id).push(ts.last())
    }
}

fn drop_task(tasks: Vec<AcquisitionTask>, task_id: &str) -> (r: Vec<AcquisitionTask>)
    ensures
        tasks_view(r@) == without_task(tasks_view(tasks@), task_id@),
{
    let ghost all = tasks_view(tasks@);
    let ghost given = tasks@;
    let mut out: Vec<AcquisitionTask> = Vec::new();
    proof {
        assert(tasks_view(out@) =~= Seq::<TaskV>::empty());
        assert(all.subrange(0, 0) =~= Seq::<TaskV>::empty());
    }
    for t in it: tasks
        invariant
            it.seq() == given,
            all == tasks_view(given),
            tasks_view(out@) == without_task(all.subrange(0, it.index() as int), task_id@),
    {
        let ghost i = it.index() as int;
        let ghost part = all.subrange(0, i + 1);
        let ghost before = tasks_view(out@);
        proof {
            assert(t == given[i]);
            assert(part.drop_last() =~= all.subrange(0, i));
            assert(part.last() == t@);
        }
        let ghost tv = t@;
        if !same_text(t.id.as_str(), task_id) {
            out.push(t);
            assert(tasks_view(out@) =~= before.push(tv));
        }
    }
    assert(all.subrange(0, all.len() as int) =~= all);
    out
}

/// Takes a task from an endpoint.
pub fn delete_task(
    store: &mut ConfigStore,
    running: bool,
    endpoint_id: &str,
    task_id: &str,
    now: i64,
) -> (r: ApiResponse)
    requires
        store_ok(old(store)@),
        revision_of(old(store)@, endpoint_id@) < i64::MAX,
    ensures
        store_ok(final(store)@),
        ({
            let ts = tasks_of(old(store)@, endpoint_id@);
            let left = without_task(ts, task_id@);
            if running {
                r@ == tasks_in_use() && final(store)@ == old(store)@
            } else if left.len() == ts.len() {
                r@ == error_reply(404, "NOT_FOUND"@, "task `"@ + task_id@ + "`"@) && final(store)@
                    == old(store)@
            } else {
                match tasks_replaced(old(store)@, endpoint_id@, left, now) {
                    Ok(x) => final(store)@ == x.0 && r@ == (ReplyV {
                        status: 200,
                        body: JsonV::Object(
                            seq![
                                ("deleted"@, JsonV::String(task_id@)),
                                ("revision"@, count_value(x.1)),
                            ],
                        ),
                    }),
                    Err(f) => r@ == store_reply(f) && final(store)@ == old(store)@,
                }
            }
        }),
{
    if running {
        return complain(409, "CONFLICT", "endpoint 正在运行，请先停止后再修改任务");
    }
    let tasks: Vec<AcquisitionTask> = stored_tasks(store, endpoint_id);
    let before: usize = tasks.len();
    let left: Vec<AcquisitionTask> = drop_task(tasks, task_id);
    if left.len() == before {
        return complain(404, "NOT_FOUND", cat3("task `", task_id, "`").as_str());
    }
    match store.replace_tasks_at(endpoint_id, left.as_slice(), now) {
        Ok(rev) => reply(
            200,
            object2("deleted", text_json(task_id), "revision", count_json(rev)),
        ),
        Err(e) => store_err_to_response(e),
    }
}

/// A task that is taken is gone, and the others stay in their order.
pub proof fn taken_tasks_are_gone(ts: Seq<TaskV>, id: Seq<char>)
    ensures
        forall|i: int|
            0 <= i < without_task(ts, id).len() ==> (#[trigger] without_task(ts, id)[i]).id != id,
        forall|t: TaskV| t.id != id ==> (#[trigger] without_task(ts, id).contains(t)
            <==> ts.contains(t)),
    decreases ts.len(),
{
    if ts.len() > 0 {
        taken_tasks_are_gone(ts.drop_last(), id);
        let before = without_task(ts.drop_last(), id);
        let after = without_task(ts, id);
        assert forall|t: TaskV| t.id != id implies (#[trigger] after.contains(t)
            <==> ts.contains(t)) by {
            if ts.contains(t) {
                let j = choose|j: int| 0 <= j < ts.len() && ts[j] == t;
                if j < ts.len() - 1 {
                    assert(ts.drop_last()[j] == t);
                    assert(before.contains(t));
                    let k = choose|k: int| 0 <= k < before.len() && before[k] == t;
                    assert(after[k] == t);
                } else {
                    assert(after[after.len() - 1] == t);
                }
            }
            if after.contains(t) {
                let k = choose|k: int| 0 <= k < after.len() && after[k] == t;
                if k < before.len() {
                    assert(before[k] == t);
                    assert(before.contains(t));
                    assert(ts.drop_last().contains(t));
                    let j = choose|j: int| 0 <= j < ts.drop_last().len() && ts.drop_last()[j] == t;
                    assert(ts[j] == t);
                } else {
                    assert(ts[ts.len() - 1] == t);
                }
            }
        }
    }
}

/// A task is shown field by field, each under its name.
pub proof fn tasks_are_shown_field_by_field(t: TaskV)
    ensures
        task_value(t) matches JsonV::Object(o) && {
            &&& o.len() == 4
            &&& o[0].0 == "binding"@
            &&& o[0].1 matches JsonV::Object(b) && b.len() == 2 && b[0] == ("config"@, t.config)
                && b[1] == ("kind"@, JsonV::String(t.kind))
            &&& o[1] == ("id"@, JsonV::String(t.id))
            &&& o[2].0 == "interval_ms"@
            &&& t.interval_ms is None ==> o[2].1 is Null
            &&& t.interval_ms is Some ==> o[2].1 == JsonV::Number(
                JsonNumber::PosInt(t.interval_ms->0),
            )
            &&& o[3].0 == "mode"@
            &&& t.mode is Poll ==> o[3].1 == JsonV::String("poll"@)
            &&& t.mode is Subscribe ==> o[3].1 == JsonV::String("subscribe"@)
        },
{
}

/// The tasks of an endpoint are those that are kept for it, in the order of their ids.
pub proof fn tasks_are_those_that_are_kept(s: StoreV, endpoint: Seq<char>, i: int)
    requires
        s.tasks.contains_key(endpoint),
        0 <= i < ordered_keys(s.tasks[endpoint]).len(),
    ensures
        tasks_of(s, endpoint).len() == ordered_keys(s.tasks[endpoint]).len(),
        tasks_of(s, endpoint)[i] == kept_task(
            ordered_keys(s.tasks[endpoint])[i],
            s.tasks[endpoint][ordered_keys(s.tasks[endpoint])[i]],
        ),
{
}

/// The event tasks of an endpoint can be had exactly where each row can be read.
pub proof fn event_tasks_can_be_had_when_each_can_be_read(
    rows: Map<Seq<char>, TaskRowV>,
    keys: Seq<Seq<char>>,
    i: int,
)
    requires
        0 <= i <= keys.len(),
    ensures
        event_rows_fault(rows, keys, i) is None <==> forall|j: int|
            i <= j < keys.len() ==> event_row_fault(rows[#[trigger] keys[j]]) is None,
    decreases keys.len() - i,
{
    if i < keys.len() {
        event_tasks_can_be_had_when_each_can_be_read(rows, keys, i + 1);
    }
}

/// The tasks of an endpoint are asked for by the endpoint, and told with its revision.
pub proof fn tasks_are_told_with_their_revision(s: StoreV, ep: Seq<char>)
    ensures
        tasks_reply(s, None).status == 400,
        tasks_reply(s, Some(ep)).status == 200,
        tasks_reply(s, Some(ep)).body matches JsonV::Object(o) && {
            &&& o.len() == 3
            &&& o[0] == ("endpoint_id"@, JsonV::String(ep))
            &&& o[1] == ("revision"@, JsonV::Number(JsonNumber::PosInt(revision_of(s, ep))))
            &&& o[2].0 == "tasks"@
            &&& o[2].1 matches JsonV::Array(a) && a.len() == tasks_of(s, ep).len() && forall|i: int|
                0 <= i < a.len() ==> #[trigger] a[i] == task_value(tasks_of(s, ep)[i])
        },
{
}

/// Tasks that are refused change nothing; those that are taken are told with their revision.
pub proof fn refused_tasks_change_nothing(
    before: StoreV,
    after: StoreV,
    endpoint: Seq<char>,
    ts: Seq<TaskV>,
    refused: Option<ReplyV>,
    now: i64,
    r: ReplyV,
)
    requires
        tasks_given(before, after, endpoint, ts, refused, now, r),
    ensures
        before.endpoints.contains_key(endpoint) && refused is Some ==> after == before && Some(r)
            == refused,
        !before.endpoints.contains_key(endpoint) || refused is None ==> (match tasks_replaced(
            before,
            endpoint,
            ts,
            now,
        ) {
            Ok(x) => {
                &&& after == x.0
                &&& r.status == 200
                &&& r.body matches JsonV::Object(o) && o.len() == 2 && o[0] == (
                    "endpoint_id"@,
                    JsonV::String(endpoint),
                ) && o[1] == ("revision"@, JsonV::Number(JsonNumber::PosInt(x.1)))
            },
            Err(f) => after == before && r == store_reply(f),
        }),
{
}

/// The tasks in a body stand under their name, or are the body itself where that is a list.
pub proof fn tasks_stand_under_their_name(body: JsonV)
    ensures
        body is Array && json_get(body, "tasks"@) is None ==> tasks_part(body) == Some(body),
        json_get(body, "tasks"@) is Some ==> tasks_part(body) == json_get(body, "tasks"@),
        tasks_part(body) is None <==> !(body is Array) && json_get(body, "tasks"@) is None,
{
}

/// Tasks without one are all the others, in their order.
pub proof fn the_other_tasks_stay(ts: Seq<TaskV>, id: Seq<char>, t: TaskV)
    ensures
        without_task(Seq::empty(), id).len() == 0,
        t.id == id ==> without_task(ts.push(t), id) == without_task(ts, id),
        t.id != id ==> without_task(ts.push(t), id) == without_task(ts, id).push(t),
{
    assert(ts.push(t).drop_last() =~= ts);
}

/// Tasks of an endpoint that runs are not changed.
pub proof fn tasks_in_use_are_refused()
    ensures
        tasks_in_use().status == 409,
{
}

} // verus!
