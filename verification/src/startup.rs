//! What the program does when it starts: its arguments, the endpoints that ran when it stopped,
//! and the example that a new store begins with.
use vstd::prelude::*;

use crate::api::{count_json, count_value, integer_json, integer_value, list_json, object1, object3, object4, object5, text_json, truth_json};
use crate::endpoint::BuiltinEndpoint;
use crate::event::EventTask;
use crate::json::{items_view, lemma_json_view, Json, JsonV};
use crate::protocol::tasks_view;
use crate::store::{
    device_created, endpoint_created, event_tasks_view, revision_of, store_fault_text, store_ok,
    tasks_replaced, ConfigStore, DeviceRecord, DeviceV, EndpointRecord, EndpointV, StoreV,
};
use crate::table::ordered_keys;
use crate::tasks::{event_tasks_of, stored_event_tasks, stored_tasks, tasks_of};
use crate::text::{contains_text, parse_u16, parsed_u16, same_text, text_contains, texts_view};
use crate::types::{AcquisitionTask, DriverBinding, TaskMode, TaskV};

verus! {

/// The port on which the program listens, if nothing else is said.
pub const DEFAULT_HTTP_PORT: u16 = 8132;

// ---------------------------------------------------------------------------
// Arguments
// ---------------------------------------------------------------------------

/// What the arguments of the program say.
#[derive(Debug, Clone, PartialEq)]
pub struct Args {
    pub drivers_dir: String,
    pub http_port: u16,
    pub db_path: String,
    pub enable_control: bool,
}

/// What an [`Args`] is.
pub struct ArgsV {
    pub drivers_dir: Seq<char>,
    pub http_port: u16,
    pub db_path: Seq<char>,
    pub enable_control: bool,
}

impl View for Args {
    type V = ArgsV;

    open spec fn view(&self) -> ArgsV {
        ArgsV {
            drivers_dir: self.drivers_dir@,
            http_port: self.http_port,
            db_path: self.db_path@,
            enable_control: self.enable_control,
        }
    }
}

/// What holds where no argument says otherwise.
pub open spec fn default_args() -> ArgsV {
    ArgsV {
        drivers_dir: "drivers"@,
        http_port: DEFAULT_HTTP_PORT,
        db_path: "mesa.db"@,
        enable_control: false,
    }
}

/// What the arguments say and which of them are not known, once those before place `i` have said
/// `a`. An argument that lacks its value, and a port that is none, change nothing.
pub open spec fn args_from(a: ArgsV, unknown: Seq<Seq<char>>, argv: Seq<Seq<char>>, i: int) -> (
    ArgsV,
    Seq<Seq<char>>,
)
    decreases argv.len() + 1 - i,
{
    if i < 0 || i >= argv.len() {
        (a, unknown)
    } else if argv[i] == "--drivers-dir"@ {
        let dir = if i + 1 < argv.len() {
            argv[i + 1]
        } else {
            a.drivers_dir
        };
        args_from(ArgsV { drivers_dir: dir, ..a }, unknown, argv, i + 2)
    } else if argv[i] == "--http-port"@ {
        let port = if i + 1 < argv.len() && parsed_u16(argv[i + 1]) is Some {
            parsed_u16(argv[i + 1])->0 as u16
        } else {
            a.http_port
        };
        args_from(ArgsV { http_port: port, ..a }, unknown, argv, i + 2)
    } else if argv[i] == "--db"@ {
        let path = if i + 1 < argv.len() {
            argv[i + 1]
        } else {
            a.db_path
        };
        args_from(ArgsV { db_path: path, ..a }, unknown, argv, i + 2)
    } else if argv[i] == "--enable-control"@ {
        args_from(ArgsV { enable_control: true, ..a }, unknown, argv, i + 1)
    } else {
        args_from(a, unknown.push(argv[i]), argv, i + 1)
    }
}

/// What the arguments of the program say, and those that are not known. The first is the name of
/// the program.
pub fn parse_args(argv: &Vec<String>) -> (r: (Args, Vec<String>))
    ensures
        (r.0@, texts_view(r.1@)) == args_from(
            default_args(),
            Seq::empty(),
            texts_view(argv@),
            1,
        ),
{
    let ghost all = texts_view(argv@);
    let mut out: Args = Args {
        drivers_dir: "drivers".to_owned(),
        http_port: DEFAULT_HTTP_PORT,
        db_path: "mesa.db".to_owned(),
        enable_control: false,
    };
    let mut unknown: Vec<String> = Vec::new();
    assert(texts_view(unknown@) =~= Seq::<Seq<char>>::empty());
    let n: usize = argv.len();
    let mut i: usize = 1;
    while i < n
        invariant
            1 <= i,
            n == argv@.len(),
            all == texts_view(argv@),
            args_from(out@, texts_view(unknown@), all, i as int) == args_from(
                default_args(),
                Seq::empty(),
                all,
                1,
            ),
        decreases n - i,
    {
        assert(all[i as int] == argv@[i as int]@);
        let word: &str = argv[i].as_str();
        let given: bool = i < n - 1;
        if same_text(word, "--drivers-dir") {
            if given {
                assert(all[i + 1] == argv@[i + 1]@);
                out.drivers_dir = argv[i + 1].clone();
            }
        } else if same_text(word, "--http-port") {
            if given {
                assert(all[i + 1] == argv@[i + 1]@);
                match parse_u16(argv[i + 1].as_str()) {
                    Some(p) => {
                        out.http_port = p;
                    },
                    None => {},
                }
            }
        } else if same_text(word, "--db") {
            if given {
                assert(all[i + 1] == argv@[i + 1]@);
                out.db_path = argv[i + 1].clone();
            }
        } else if same_text(word, "--enable-control") {
            out.enable_control = true;
            i = i + 1;
            continue;
        } else {
            let ghost before = texts_view(unknown@);
            unknown.push(argv[i].clone());
            assert(texts_view(unknown@) =~= before.push(all[i as int]));
            i = i + 1;
            continue;
        }
        proof {
            let said = (out@, texts_view(unknown@));
            if !given {
                assert(args_from(said.0, said.1, all, i + 2) == said);
                assert(args_from(said.0, said.1, all, n as int) == said);
            }
        }
        i = if given {
            i + 2
        } else {
            n
        };
    }
    (out, unknown)
}

/// The control of drivers stays shut unless an argument opens it.
pub proof fn control_is_opened_by_argument_alone(argv: Seq<Seq<char>>)
    requires
        !argv.contains("--enable-control"@),
    ensures
        !args_from(default_args(), Seq::empty(), argv, 1).0.enable_control,
{
    lemma_control_stays_shut(default_args(), Seq::empty(), argv, 1);
}

proof fn lemma_control_stays_shut(
    a: ArgsV,
    unknown: Seq<Seq<char>>,
    argv: Seq<Seq<char>>,
    i: int,
)
    requires
        !argv.contains("--enable-control"@),
        !a.enable_control,
    ensures
        !args_from(a, unknown, argv, i).0.enable_control,
    decreases argv.len() + 1 - i,
{
    if 0 <= i < argv.len() {
        assert(argv.contains(argv[i]));
        let next = args_from(a, unknown, argv, i);
        if argv[i] == "--drivers-dir"@ {
            let dir = if i + 1 < argv.len() {
                argv[i + 1]
            } else {
                a.drivers_dir
            };
            lemma_control_stays_shut(ArgsV { drivers_dir: dir, ..a }, unknown, argv, i + 2);
        } else if argv[i] == "--http-port"@ {
            let port = if i + 1 < argv.len() && parsed_u16(argv[i + 1]) is Some {
                parsed_u16(argv[i + 1])->0 as u16
            } else {
                a.http_port
            };
            lemma_control_stays_shut(ArgsV { http_port: port, ..a }, unknown, argv, i + 2);
        } else if argv[i] == "--db"@ {
            let path = if i + 1 < argv.len() {
                argv[i + 1]
            } else {
                a.db_path
            };
            lemma_control_stays_shut(ArgsV { db_path: path, ..a }, unknown, argv, i + 2);
        } else {
            lemma_control_stays_shut(a, unknown.push(argv[i]), argv, i + 1);
        }
    }
}

// ---------------------------------------------------------------------------
// Endpoints that are to run
// ---------------------------------------------------------------------------

/// The ids among the first `n` of some endpoints that are to run.
pub open spec fn to_run(s: StoreV, ids: Seq<Seq<char>>, n: int) -> Seq<Seq<char>>
    decreases n,
{
    if n <= 0 {
        Seq::empty()
    } else if s.endpoints[ids[n - 1]].desired_running {
        to_run(s, ids, n - 1).push(ids[n - 1])
    } else {
        to_run(s, ids, n - 1)
    }
}

/// Whether what is to be run is what the store keeps of an endpoint. Event tasks that were spoilt
/// are left out.
pub open spec fn runs_as_kept(s: StoreV, id: Seq<char>, cfg: BuiltinEndpoint) -> bool {
    &&& cfg.endpoint_id@ == id
    &&& cfg.driver_id@ == s.endpoints[id].driver_id
    &&& cfg.connection_json@ == s.endpoints[id].connection_json
    &&& tasks_view(cfg.tasks@) == tasks_of(s, id)
    &&& match event_tasks_of(s, id) {
        Ok(ts) => event_tasks_view(cfg.event_tasks@) == ts,
        Err(f) => cfg.event_tasks@.len() == 0,
    }
}

/// What is to be run when the program starts: the endpoints that are to run, in the order of their
/// ids.
pub fn restored_endpoints(store: &ConfigStore) -> (r: Vec<BuiltinEndpoint>)
    requires
        store_ok(store@),
    ensures
        ({
            let ids = to_run(
                store@,
                ordered_keys(store@.endpoints),
                ordered_keys(store@.endpoints).len() as int,
            );
            &&& r@.len() == ids.len()
            &&& forall|i: int| 0 <= i < ids.len() ==> runs_as_kept(store@, ids[i], #[trigger] r@[i])
        }),
{
    let list: Vec<EndpointRecord> = store.list_endpoints();
    let ghost ids = list@.map_values(|e: EndpointRecord| e.id@);
    proof {
        crate::table::lemma_order(ids, store@.endpoints);
    }
    let mut out: Vec<BuiltinEndpoint> = Vec::new();
    let mut i: usize = 0;
    while i < list.len()
        invariant
            i <= list.len(),
            store_ok(store@),
            ids == list@.map_values(|e: EndpointRecord| e.id@),
            forall|j: int|
                0 <= j < list@.len() ==> (#[trigger] list@[j])@ == store@.endpoints[list@[j].id@],
            out@.len() == to_run(store@, ids, i as int).len(),
            forall|j: int|
                0 <= j < out@.len() ==> runs_as_kept(
                    store@,
                    to_run(store@, ids, i as int)[j],
                    #[trigger] out@[j],
                ),
        decreases list.len() - i,
    {
        let rec: &EndpointRecord = &list[i];
        assert(ids[i as int] == rec.id@);
        assert(rec@ == store@.endpoints[rec.id@]);
        if rec.desired_running {
            let tasks: Vec<AcquisitionTask> = stored_tasks(store, rec.id.as_str());
            let event_tasks: Vec<EventTask> = match stored_event_tasks(store, rec.id.as_str()) {
                Ok(v) => v,
                Err(_) => Vec::new(),
            };
            let cfg: BuiltinEndpoint = BuiltinEndpoint {
                endpoint_id: rec.id.clone(),
                driver_id: rec.driver_id.clone(),
                connection_json: rec.connection_json.clone(),
                tasks,
                event_tasks,
            };
            assert(runs_as_kept(store@, rec.id@, cfg));
            out.push(cfg);
        }
        i = i + 1;
    }
    out
}

// ---------------------------------------------------------------------------
// The example
// ---------------------------------------------------------------------------

/// What the task of the example reads.
pub open spec fn demo_config() -> JsonV {
    JsonV::Object(
        seq![
            (
                "points"@,
                JsonV::Array(
                    seq![
                        JsonV::Object(
                            seq![
                                ("key"@, JsonV::String("sim.counter"@)),
                                ("kind"@, JsonV::String("counter"@)),
                                ("start"@, count_value(0)),
                                ("step"@, count_value(1)),
                            ],
                        ),
                        JsonV::Object(
                            seq![
                                ("amplitude"@, count_value(100)),
                                ("key"@, JsonV::String("sim.sine"@)),
                                ("kind"@, JsonV::String("sine"@)),
                                ("offset"@, count_value(50)),
                                ("period_ms"@, count_value(5000)),
                            ],
                        ),
                        JsonV::Object(
                            seq![
                                ("initial"@, JsonV::Bool(false)),
                                ("key"@, JsonV::String("sim.toggle"@)),
                                ("kind"@, JsonV::String("toggle"@)),
                            ],
                        ),
                        JsonV::Object(
                            seq![
                                ("key"@, JsonV::String("sim.const"@)),
                                ("kind"@, JsonV::String("constant"@)),
                                ("value"@, count_value(42)),
                            ],
                        ),
                        JsonV::Object(
                            seq![
                                ("key"@, JsonV::String("sim.random"@)),
                                ("kind"@, JsonV::String("random"@)),
                                ("max"@, count_value(5)),
                                ("min"@, integer_value((-5) as i64)),
                                ("seed"@, count_value(7)),
                            ],
                        ),
                    ],
                ),
            ),
        ],
    )
}

/// The task of the example.
pub open spec fn demo_task() -> TaskV {
    TaskV {
        id: "default"@,
        mode: TaskMode::Poll,
        interval_ms: Some(200),
        kind: "simulator.points"@,
        config: demo_config(),
    }
}

/// The tasks of the example: one, which reads five simulated points.
pub fn demo_tasks() -> (r: Vec<AcquisitionTask>)
    ensures
        tasks_view(r@) == seq![demo_task()],
{
    broadcast use lemma_json_view;

    let mut points: Vec<Json> = Vec::new();
    points.push(
        object4(
            "key",
            text_json("sim.counter"),
            "kind",
            text_json("counter"),
            "start",
            count_json(0),
            "step",
            count_json(1),
        ),
    );
    points.push(
        object5(
            "amplitude",
            count_json(100),
            "key",
            text_json("sim.sine"),
            "kind",
            text_json("sine"),
            "offset",
            count_json(50),
            "period_ms",
            count_json(5000),
        ),
    );
    points.push(
        object3(
            "initial",
            truth_json(false),
            "key",
            text_json("sim.toggle"),
            "kind",
            text_json("toggle"),
        ),
    );
    points.push(
        object3(
            "key",
            text_json("sim.const"),
            "kind",
            text_json("constant"),
            "value",
            count_json(42),
        ),
    );
    points.push(
        object5(
            "key",
            text_json("sim.random"),
            "kind",
            text_json("random"),
            "max",
            count_json(5),
            "min",
            integer_json(-5),
            "seed",
            count_json(7),
        ),
    );
    let ghost shown = items_view(points@);
    let config: Json = object1("points", list_json(points));
    proof {
        let want = demo_config()->Object_0[0].1->Array_0;
        assert(shown =~= want);
        assert(config@->Object_0 =~= demo_config()->Object_0);
    }
    let task: AcquisitionTask = AcquisitionTask {
        id: "default".to_owned(),
        mode: TaskMode::Poll,
        interval_ms: Some(200),
        binding: DriverBinding { kind: "simulator.points".to_owned(), config },
    };
    let mut out: Vec<AcquisitionTask> = Vec::new();
    out.push(task);
    assert(tasks_view(out@) =~= seq![demo_task()]);
    out
}

/// The device of the example.
pub open spec fn demo_device() -> DeviceV {
    DeviceV { id: "sim-device"@, name: "Simulator Device"@ }
}

/// The endpoint of the example.
pub open spec fn demo_endpoint(now: i64) -> EndpointV {
    EndpointV {
        id: "sim-001"@,
        name: "sim-001"@,
        device_id: "sim-device"@,
        driver_id: "simulator"@,
        connection_json: "{}"@,
        desired_running: true,
        updated_at_ns: now,
    }
}

/// The store with the device of the example, if it can be added.
pub open spec fn with_demo_device(s: StoreV) -> StoreV {
    match device_created(s, demo_device()) {
        Ok(x) => x.0,
        Err(f) => s,
    }
}

/// The store after the example was put in, and whether it was. A store with an endpoint is left
/// alone.
pub open spec fn seeded(s: StoreV, now: i64) -> (StoreV, Result<bool, Seq<char>>) {
    if ordered_keys(s.endpoints).len() > 0 {
        (s, Ok(false))
    } else {
        let d = with_demo_device(s);
        match endpoint_created(d, demo_endpoint(now), Seq::empty(), 0) {
            Err(f) => if text_contains(store_fault_text(f), "已存在"@) {
                (d, Ok(false))
            } else {
                (d, Err(store_fault_text(f)))
            },
            Ok(e) => match tasks_replaced(e.0, "sim-001"@, seq![demo_task()], now) {
                Err(f) => (e.0, Err(store_fault_text(f))),
                Ok(t) => (t.0, Ok(true)),
            },
        }
    }
}

/// Puts the example into a store without endpoints: a device, an endpoint that is to run, and its
/// task.
pub fn maybe_seed_demo(store: &mut ConfigStore, now: i64) -> (r: Result<bool, String>)
    requires
        store_ok(old(store)@),
        revision_of(old(store)@, "sim-001"@) < i64::MAX,
    ensures
        final(store)@ == seeded(old(store)@, now).0,
        (match r {
            Ok(b) => Ok::<bool, Seq<char>>(b),
            Err(m) => Err(m@),
        }) == seeded(old(store)@, now).1,
        store_ok(final(store)@),
{
    let list: Vec<EndpointRecord> = store.list_endpoints();
    proof {
        crate::table::lemma_order(
            list@.map_values(|e: EndpointRecord| e.id@),
            store@.endpoints,
        );
    }
    if list.len() > 0 {
        return Ok(false);
    }
    let device: DeviceRecord = DeviceRecord {
        id: "sim-device".to_owned(),
        name: "Simulator Device".to_owned(),
    };
    assert(device@ == demo_device());
    let _ = store.create_device(&device);
    assert(store@ == with_demo_device(old(store)@));
    let rec: EndpointRecord = EndpointRecord {
        id: "sim-001".to_owned(),
        name: "sim-001".to_owned(),
        device_id: "sim-device".to_owned(),
        driver_id: "simulator".to_owned(),
        connection_json: "{}".to_owned(),
        desired_running: true,
        updated_at_ns: now,
    };
    assert(rec@ == demo_endpoint(now));
    match store.create_endpoint(&rec) {
        Ok(()) => {},
        Err(e) => {
            let m: String = e.message();
            return if contains_text(m.as_str(), "已存在") {
                Ok(false)
            } else {
                Err(m)
            };
        },
    }
    let tasks: Vec<AcquisitionTask> = demo_tasks();
    match store.replace_tasks_at("sim-001", tasks.as_slice(), now) {
        Ok(_) => Ok(true),
        Err(e) => Err(e.message()),
    }
}

/// A store with an endpoint is left alone.
pub proof fn stores_in_use_get_no_example(s: StoreV, id: Seq<char>, now: i64)
    requires
        s.endpoints.dom().finite(),
        s.endpoints.contains_key(id),
    ensures
        seeded(s, now) == (s, Ok::<bool, Seq<char>>(false)),
{
    let keys = crate::table::lemma_order_exists(s.endpoints.dom());
    crate::table::lemma_order(keys, s.endpoints);
    assert(keys.to_set().contains(id));
}

/// What the program does without arguments.
pub proof fn programs_start_like_this_by_themselves()
    ensures
        default_args().drivers_dir == "drivers"@,
        default_args().http_port == DEFAULT_HTTP_PORT,
        default_args().db_path == "mesa.db"@,
        !default_args().enable_control,
{
}

/// Each argument sets its own part, with the word behind it where it takes one; a port that is no
/// number sets nothing, and what is not known is told.
pub proof fn arguments_set_their_own_part(
    a: ArgsV,
    unknown: Seq<Seq<char>>,
    argv: Seq<Seq<char>>,
    i: int,
)
    requires
        0 <= i,
    ensures
        i >= argv.len() ==> args_from(a, unknown, argv, i) == (a, unknown),
        i + 1 < argv.len() && argv[i] == "--drivers-dir"@ ==> args_from(a, unknown, argv, i)
            == args_from((ArgsV { drivers_dir: argv[i + 1], ..a }), unknown, argv, i + 2),
        i + 1 < argv.len() && argv[i] == "--db"@ ==> args_from(a, unknown, argv, i) == args_from(
            (ArgsV { db_path: argv[i + 1], ..a }),
            unknown,
            argv,
            i + 2,
        ),
        i + 1 < argv.len() && argv[i] == "--http-port"@ && parsed_u16(argv[i + 1]) is Some
            ==> args_from(a, unknown, argv, i) == args_from(
            (ArgsV { http_port: parsed_u16(argv[i + 1])->0 as u16, ..a }),
            unknown,
            argv,
            i + 2,
        ),
        i + 1 < argv.len() && argv[i] == "--http-port"@ && parsed_u16(argv[i + 1]) is None
            ==> args_from(a, unknown, argv, i) == args_from(a, unknown, argv, i + 2),
        i < argv.len() && argv[i] == "--enable-control"@ ==> args_from(a, unknown, argv, i)
            == args_from((ArgsV { enable_control: true, ..a }), unknown, argv, i + 1),
        i < argv.len() && argv[i] != "--drivers-dir"@ && argv[i] != "--db"@ && argv[i]
            != "--http-port"@ && argv[i] != "--enable-control"@ ==> args_from(a, unknown, argv, i)
            == args_from(a, unknown.push(argv[i]), argv, i + 1),
{
    reveal_strlit("--drivers-dir");
    reveal_strlit("--db");
    reveal_strlit("--http-port");
    reveal_strlit("--enable-control");
    assert("--drivers-dir"@.len() == 13);
    assert("--db"@.len() == 4);
    assert("--http-port"@.len() == 11);
    assert("--enable-control"@.len() == 16);
}

/// The endpoints that are started again are those that are to run, in the order of their ids.
pub proof fn endpoints_that_are_to_run_are_started_again(
    s: StoreV,
    ids: Seq<Seq<char>>,
    n: int,
    k: Seq<char>,
)
    requires
        0 <= n <= ids.len(),
    ensures
        to_run(s, ids, n).contains(k) <==> s.endpoints[k].desired_running && exists|i: int|
            0 <= i < n && #[trigger] ids[i] == k,
    decreases n,
{
    if n > 0 {
        endpoints_that_are_to_run_are_started_again(s, ids, n - 1, k);
        let a = to_run(s, ids, n - 1);
        let b = to_run(s, ids, n);
        if a.contains(k) {
            let i = choose|i: int| 0 <= i < a.len() && a[i] == k;
            assert(b[i] == k);
        }
        if b.contains(k) {
            let i = choose|i: int| 0 <= i < b.len() && b[i] == k;
            if i < a.len() {
                assert(a[i] == k);
            } else {
                assert(ids[n - 1] == k);
            }
        }
        if ids[n - 1] == k && s.endpoints[k].desired_running {
            assert(b[a.len() as int] == k);
        }
    }
}

/// The example is one device with one endpoint of the simulator that is to run and is polled.
pub proof fn the_example_is_a_simulator(now: i64)
    ensures
        demo_device().id == "sim-device"@,
        demo_endpoint(now).id == "sim-001"@,
        demo_endpoint(now).device_id == "sim-device"@,
        demo_endpoint(now).driver_id == "simulator"@,
        demo_endpoint(now).connection_json == "{}"@,
        demo_endpoint(now).desired_running,
        demo_endpoint(now).updated_at_ns == now,
        demo_task().id == "default"@,
        demo_task().mode is Poll,
        demo_task().interval_ms == Some(200u64),
        demo_task().kind == "simulator.points"@,
{
}

/// A store without endpoints gets the example; one with endpoints is left as it is.
pub proof fn empty_stores_get_the_example(s: StoreV, now: i64)
    ensures
        ordered_keys(s.endpoints).len() > 0 ==> seeded(s, now) == (
            s,
            Ok::<bool, Seq<char>>(false),
        ),
        seeded(s, now).1 == Ok::<bool, Seq<char>>(true) ==> {
            let after = seeded(s, now).0;
            &&& after.endpoints.contains_key("sim-001"@)
            &&& after.endpoints["sim-001"@].driver_id == "simulator"@
            &&& after.endpoints["sim-001"@].desired_running
            &&& after.tasks.contains_key("sim-001"@)
        },
{
}

/// An endpoint is run as it is kept: its driver, its connection and its tasks.
pub proof fn endpoints_are_run_as_they_are_kept(s: StoreV, id: Seq<char>, cfg: BuiltinEndpoint)
    requires
        runs_as_kept(s, id, cfg),
    ensures
        cfg.endpoint_id@ == id,
        cfg.driver_id@ == s.endpoints[id].driver_id,
        cfg.connection_json@ == s.endpoints[id].connection_json,
        tasks_view(cfg.tasks@) == tasks_of(s, id),
{
}

/// The port on which the program listens where none is named.
pub proof fn programs_listen_here_by_themselves()
    ensures
        DEFAULT_HTTP_PORT == 8132,
{
}

} // verus!
