//! How an endpoint runs: how a driver is started and configured, what ends a session, and what
//! comes after it.
use vstd::prelude::*;

use crate::event::EventTask;
use crate::ingress::{fatal_code, fatal_text, IngressFatal};
use crate::pb::{AcquisitionTaskProto, DetailV, ErrorDetail, GenericResult, PointDescriptorProto};
use crate::protocol::{
    convert_fault_text, descriptor_from_pb, task_encoded, task_msgs_view, tasks_to_pb, tasks_view,
    ConvertFault,
};
use crate::session::{
    detail_of, detail_or_nothing, detail_text, session_error_text, FrameBody, SessionError,
    SessionEvent,
};
use crate::snapshot::{
    batch_applied, communication_lost, delay_kept, points_registered, snapshot_ok, EndpointStatus,
    Snapshot, SnapshotV, StatusV,
};
use crate::source::{duplicate_key_text, PointIdSource};
use crate::table::Table;
use crate::text::{cat2, cat3, cat4, cat5, first_repeat, lowered, same_text};
use crate::types::{
    data_type_name, ensure_unique_point_keys, point_keys, state_name, AcquisitionTask,
    ConnectionState, DataBatch, DataType, PointDefinition, PointDescriptor, TaskV,
};

verus! {

/// An endpoint as it is run.
#[derive(Debug, PartialEq)]
pub struct BuiltinEndpoint {
    pub endpoint_id: String,
    pub driver_id: String,
    pub connection_json: String,
    pub tasks: Vec<AcquisitionTask>,
    pub event_tasks: Vec<EventTask>,
}

// ---------------------------------------------------------------------------
// Waiting
// ---------------------------------------------------------------------------

/// How many seconds to wait after a failure, by how many there were before it.
pub open spec fn backoff(fast: bool, idx: int) -> u64 {
    if fast || idx <= 0 {
        1
    } else if idx == 1 {
        2
    } else if idx == 2 {
        5
    } else if idx == 3 {
        10
    } else {
        30
    }
}

pub fn reconnect_backoff_secs(fast: bool, idx: usize) -> (r: u64)
    ensures
        r == backoff(fast, idx as int),
{
    if fast || idx == 0 {
        1
    } else if idx == 1 {
        2
    } else if idx == 2 {
        5
    } else if idx == 3 {
        10
    } else {
        30
    }
}

/// The wait grows from failure to failure, and is never longer than half a minute.
pub proof fn waits_grow_to_a_limit(fast: bool, a: int, b: int)
    requires
        a <= b,
    ensures
        1 <= backoff(fast, a) <= backoff(fast, b) <= 30,
{
}

// ---------------------------------------------------------------------------
// What comes of an attempt
// ---------------------------------------------------------------------------

/// What came of an attempt to run an endpoint.
#[derive(Debug, Clone, PartialEq)]
pub enum AttemptOutcome {
    Shutdown,
    ConfigurationFailed(String),
    Lost { reason: String, had_running_session: bool },
}

/// What an [`AttemptOutcome`] is.
pub enum AttemptV {
    Shutdown,
    ConfigurationFailed(Seq<char>),
    Lost { reason: Seq<char>, had_running_session: bool },
}

impl View for AttemptOutcome {
    type V = AttemptV;

    open spec fn view(&self) -> AttemptV {
        match self {
            AttemptOutcome::Shutdown => AttemptV::Shutdown,
            AttemptOutcome::ConfigurationFailed(m) => AttemptV::ConfigurationFailed(m@),
            AttemptOutcome::Lost { reason, had_running_session } => AttemptV::Lost {
                reason: reason@,
                had_running_session: *had_running_session,
            },
        }
    }
}

/// A connection that is lost before it ran.
pub open spec fn lost_early(reason: Seq<char>) -> AttemptV {
    AttemptV::Lost { reason, had_running_session: false }
}

/// A connection that is lost after it ran.
pub open spec fn lost_late(reason: Seq<char>) -> AttemptV {
    AttemptV::Lost { reason, had_running_session: true }
}

fn lost(reason: String) -> (r: AttemptOutcome)
    ensures
        r@ == lost_early(reason@),
{
    AttemptOutcome::Lost { reason, had_running_session: false }
}

fn lost_running(reason: String) -> (r: AttemptOutcome)
    ensures
        r@ == lost_late(reason@),
{
    AttemptOutcome::Lost { reason, had_running_session: true }
}

/// How an endpoint is doing.
pub open spec fn status_of(
    cfg: BuiltinEndpoint,
    state: ConnectionState,
    detail: Seq<char>,
    points: usize,
    epoch: u64,
    revision: u64,
) -> StatusV {
    StatusV {
        endpoint_id: cfg.endpoint_id@,
        driver_id: cfg.driver_id@,
        state: state_name(state),
        detail,
        revision,
        points,
        epoch,
    }
}

/// The snapshot with a word on how an endpoint is doing.
pub open spec fn status_set(s: SnapshotV, v: StatusV) -> SnapshotV {
    SnapshotV { endpoints: s.endpoints.insert(v.endpoint_id, v), ..s }
}

pub fn set_status(
    snapshot: &mut Snapshot,
    cfg: &BuiltinEndpoint,
    state: ConnectionState,
    detail: &str,
    points: usize,
    epoch: u64,
    revision: u64,
)
    requires
        snapshot_ok(old(snapshot)@),
    ensures
        final(snapshot)@ == status_set(
            old(snapshot)@,
            status_of(*cfg, state, detail@, points, epoch, revision),
        ),
        snapshot_ok(final(snapshot)@),
{
    snapshot.upsert_endpoint(
        EndpointStatus {
            endpoint_id: cfg.endpoint_id.clone(),
            driver_id: cfg.driver_id.clone(),
            state: state.as_str().to_owned(),
            detail: detail.to_owned(),
            revision,
            points,
            epoch,
        },
    );
}

/// What to do after an attempt: stop, or wait for some seconds and try again.
#[derive(Debug, Clone, Copy, PartialEq, Eq, Structural)]
pub enum RunStep {
    Stop,
    Retry { delay_secs: u64 },
}

/// How many failures count after an attempt: none before it, where the endpoint ran.
pub open spec fn failures_counted(idx: usize, had_running_session: bool) -> usize {
    if had_running_session {
        0
    } else {
        idx
    }
}

/// Decides what comes after an attempt, and says so in the snapshot. An endpoint whose
/// configuration is wrong is given up; one that is lost is tried again after a wait.
pub fn run_endpoint(
    backoff_idx: &mut usize,
    fast: bool,
    snapshot: &mut Snapshot,
    cfg: &BuiltinEndpoint,
    outcome: &AttemptOutcome,
    points: usize,
    epoch: u64,
    revision: u64,
) -> (r: RunStep)
    requires
        snapshot_ok(old(snapshot)@),
        *old(backoff_idx) <= 10,
    ensures
        snapshot_ok(final(snapshot)@),
        *final(backoff_idx) <= 10,
        match outcome@ {
            AttemptV::Shutdown => {
                &&& r == RunStep::Stop
                &&& *final(backoff_idx) == *old(backoff_idx)
                &&& final(snapshot)@ == status_set(
                    old(snapshot)@,
                    status_of(
                        *cfg,
                        ConnectionState::Stopped,
                        "stopped"@,
                        points,
                        epoch,
                        revision,
                    ),
                )
            },
            AttemptV::ConfigurationFailed(detail) => {
                &&& r == RunStep::Stop
                &&& *final(backoff_idx) == *old(backoff_idx)
                &&& final(snapshot)@ == status_set(
                    old(snapshot)@,
                    status_of(*cfg, ConnectionState::Failed, detail, points, epoch, revision),
                )
            },
            AttemptV::Lost { reason, had_running_session } => {
                let idx = failures_counted(*old(backoff_idx), had_running_session);
                &&& r == (RunStep::Retry { delay_secs: backoff(fast, idx as int) })
                &&& *final(backoff_idx) == (if idx < 10 {
                    (idx + 1) as usize
                } else {
                    idx
                })
                &&& final(snapshot)@ == status_set(
                    communication_lost(old(snapshot)@, cfg.endpoint_id@),
                    status_of(
                        *cfg,
                        ConnectionState::Reconnecting,
                        reason,
                        points,
                        epoch,
                        revision,
                    ),
                )
            },
        },
{
    match outcome {
        AttemptOutcome::Shutdown => {
            set_status(
                snapshot,
                cfg,
                ConnectionState::Stopped,
                "stopped",
                points,
                epoch,
                revision,
            );
            RunStep::Stop
        },
        AttemptOutcome::ConfigurationFailed(detail) => {
            set_status(
                snapshot,
                cfg,
                ConnectionState::Failed,
                detail.as_str(),
                points,
                epoch,
                revision,
            );
            RunStep::Stop
        },
        AttemptOutcome::Lost { reason, had_running_session } => {
            snapshot.mark_communication_lost(cfg.endpoint_id.as_str());
            set_status(
                snapshot,
                cfg,
                ConnectionState::Reconnecting,
                reason.as_str(),
                points,
                epoch,
                revision,
            );
            if *had_running_session {
                *backoff_idx = 0;
            }
            let delay_secs: u64 = reconnect_backoff_secs(fast, *backoff_idx);
            if *backoff_idx < 10 {
                *backoff_idx = *backoff_idx + 1;
            }
            RunStep::Retry { delay_secs }
        },
    }
}

// ---------------------------------------------------------------------------
// An attempt
// ---------------------------------------------------------------------------

/// How far an attempt got.
#[derive(Debug, Clone, Copy, PartialEq, Eq, Structural)]
pub enum AttemptStage {
    Spawning,
    Connecting,
    Configuring,
    Running,
}

/// What happens to an attempt.
#[derive(Debug, Clone, PartialEq)]
pub enum AttemptEvent {
    Spawned,
    SpawnFailed(String),
    Connected,
    ConnectFailed(String),
    Configured,
    ConfigurationEnded(AttemptOutcome),
    LoopEnded(AttemptOutcome),
}

/// What is to be done to clean up.
#[derive(Debug, Clone, Copy, PartialEq, Eq, Structural)]
pub enum Cleanup {
    StopIngress,
    PostShutdown,
    InvalidateSession,
    Unregister,
    TerminateProcess,
}

/// What to do next in an attempt.
#[derive(Debug, Clone, PartialEq)]
pub enum AttemptAction {
    Connect,
    Configure { take_events: bool },
    Serve,
    Finish { outcome: AttemptOutcome, cleanup: Vec<Cleanup> },
}

/// Whether an event can happen at a stage.
pub open spec fn can_happen(stage: AttemptStage, event: AttemptEvent) -> bool {
    match event {
        AttemptEvent::Spawned => stage is Spawning,
        AttemptEvent::SpawnFailed(_) => stage is Spawning,
        AttemptEvent::Connected => stage is Connecting,
        AttemptEvent::ConnectFailed(_) => stage is Connecting,
        AttemptEvent::Configured => stage is Configuring,
        AttemptEvent::ConfigurationEnded(_) => stage is Configuring,
        AttemptEvent::LoopEnded(_) => stage is Running,
    }
}

/// What is to be cleaned up after an event that ends an attempt, in order.
pub open spec fn cleanup_after(event: AttemptEvent, unresponsive: bool) -> Seq<Cleanup> {
    match event {
        AttemptEvent::ConnectFailed(_) => seq![Cleanup::TerminateProcess],
        AttemptEvent::ConfigurationEnded(_) => seq![
            Cleanup::StopIngress,
            Cleanup::InvalidateSession,
            Cleanup::Unregister,
            Cleanup::TerminateProcess,
        ],
        AttemptEvent::LoopEnded(_) => if unresponsive {
            seq![
                Cleanup::StopIngress,
                Cleanup::InvalidateSession,
                Cleanup::Unregister,
                Cleanup::TerminateProcess,
            ]
        } else {
            seq![
                Cleanup::StopIngress,
                Cleanup::PostShutdown,
                Cleanup::InvalidateSession,
                Cleanup::Unregister,
                Cleanup::TerminateProcess,
            ]
        },
        _ => Seq::empty(),
    }
}

/// What an event that ends an attempt makes of it.
pub open spec fn outcome_after(event: AttemptEvent) -> Option<AttemptV> {
    match event {
        AttemptEvent::SpawnFailed(m) => Some(lost_early("spawn failed: "@ + m@)),
        AttemptEvent::ConnectFailed(m) => Some(lost_early("connect failed: "@ + m@)),
        AttemptEvent::ConfigurationEnded(o) => Some(o@),
        AttemptEvent::LoopEnded(o) => Some(o@),
        _ => None,
    }
}

/// Goes on with an attempt: the driver is spawned, connected and configured, and serves. Where a
/// step fails, all that the steps before it began is cleaned up. Events are taken where there are
/// event tasks and a place to store events.
pub fn attempt_session(
    stage: &mut AttemptStage,
    event: AttemptEvent,
    cfg: &BuiltinEndpoint,
    has_event_store: bool,
    unresponsive: bool,
) -> (r: AttemptAction)
    requires
        can_happen(*old(stage), event),
    ensures
        match outcome_after(event) {
            Some(o) => *final(stage) == *old(stage) && (r matches AttemptAction::Finish {
                outcome,
                cleanup,
            } && outcome@ == o && cleanup@ == cleanup_after(event, unresponsive)),
            None => match *old(stage) {
                AttemptStage::Spawning => r is Connect && *final(stage) is Connecting,
                AttemptStage::Connecting => r == (AttemptAction::Configure {
                    take_events: has_event_store && cfg.event_tasks@.len() > 0,
                }) && *final(stage) is Configuring,
                _ => r is Serve && *final(stage) is Running,
            },
        },
{
    match event {
        AttemptEvent::Spawned => {
            *stage = AttemptStage::Connecting;
            AttemptAction::Connect
        },
        AttemptEvent::SpawnFailed(m) => {
            let cleanup: Vec<Cleanup> = Vec::new();
            assert(cleanup@ =~= Seq::<Cleanup>::empty());
            AttemptAction::Finish { outcome: lost(cat2("spawn failed: ", m.as_str())), cleanup }
        },
        AttemptEvent::Connected => {
            *stage = AttemptStage::Configuring;
            AttemptAction::Configure {
                take_events: has_event_store && cfg.event_tasks.len() > 0,
            }
        },
        AttemptEvent::ConnectFailed(m) => {
            let mut cleanup: Vec<Cleanup> = Vec::new();
            cleanup.push(Cleanup::TerminateProcess);
            assert(cleanup@ =~= seq![Cleanup::TerminateProcess]);
            AttemptAction::Finish { outcome: lost(cat2("connect failed: ", m.as_str())), cleanup }
        },
        AttemptEvent::Configured => {
            *stage = AttemptStage::Running;
            AttemptAction::Serve
        },
        AttemptEvent::ConfigurationEnded(outcome) => {
            let mut cleanup: Vec<Cleanup> = Vec::new();
            cleanup.push(Cleanup::StopIngress);
            cleanup.push(Cleanup::InvalidateSession);
            cleanup.push(Cleanup::Unregister);
            cleanup.push(Cleanup::TerminateProcess);
            assert(cleanup@ =~= cleanup_after(event, unresponsive));
            AttemptAction::Finish { outcome, cleanup }
        },
        AttemptEvent::LoopEnded(outcome) => {
            let mut cleanup: Vec<Cleanup> = Vec::new();
            cleanup.push(Cleanup::StopIngress);
            if !unresponsive {
                cleanup.push(Cleanup::PostShutdown);
            }
            cleanup.push(Cleanup::InvalidateSession);
            cleanup.push(Cleanup::Unregister);
            cleanup.push(Cleanup::TerminateProcess);
            assert(cleanup@ =~= cleanup_after(event, unresponsive));
            AttemptAction::Finish { outcome, cleanup }
        },
    }
}

/// However an attempt ends once a driver was spawned, its process is terminated last; and once a
/// session was registered, it is taken out.
pub proof fn no_driver_is_left_behind(
    stage: AttemptStage,
    event: AttemptEvent,
    unresponsive: bool,
)
    requires
        can_happen(stage, event),
        outcome_after(event) is Some,
        !(stage is Spawning),
    ensures
        cleanup_after(event, unresponsive).len() > 0,
        cleanup_after(event, unresponsive).last() is TerminateProcess,
        !(stage is Connecting) ==> cleanup_after(event, unresponsive).contains(Cleanup::Unregister)
            && cleanup_after(event, unresponsive).contains(Cleanup::StopIngress),
{
    let list = cleanup_after(event, unresponsive);
    if !(stage is Connecting) {
        assert(list[list.len() - 2] is Unregister);
        assert(list[0] is StopIngress);
    }
}

// ---------------------------------------------------------------------------
// Configuring a driver
// ---------------------------------------------------------------------------

/// The handle of the connection that an endpoint has.
pub const HANDLE: u32 = 1;

/// What an error of a driver makes of an attempt: an error of configuration is final.
pub open spec fn driver_failure(d: DetailV) -> AttemptV {
    if d.kind == "ConfigurationError"@ {
        AttemptV::ConfigurationFailed(detail_text(d))
    } else {
        lost_early(detail_text(d))
    }
}

fn config_fail(d: ErrorDetail) -> (r: AttemptOutcome)
    ensures
        r@ == driver_failure(d@),
{
    let text: String = cat5(d.kind.as_str(), "/", d.code.as_str(), ": ", d.message.as_str());
    if same_text(d.kind.as_str(), "ConfigurationError") {
        AttemptOutcome::ConfigurationFailed(text)
    } else {
        lost(text)
    }
}

/// The result that an answer holds, if it is one that does.
pub open spec fn ack_of(body: FrameBody) -> Option<GenericResult> {
    match body {
        FrameBody::OpenConnectionAck(r) => r,
        FrameBody::ConfigApplied(r) => r,
        FrameBody::StartConnectionAck { handle, result } => result,
        _ => None,
    }
}

fn expect_ack(body: FrameBody) -> (r: Option<GenericResult>)
    ensures
        r == ack_of(body),
{
    match body {
        FrameBody::OpenConnectionAck(r) => r,
        FrameBody::ConfigApplied(r) => r,
        FrameBody::StartConnectionAck { handle: _, result } => result,
        _ => None,
    }
}

/// What an answer to a step makes of an attempt, if it ends it.
pub open spec fn ack_failure(body: FrameBody, what: Seq<char>) -> Option<AttemptV> {
    match ack_of(body) {
        None => Some(lost_early(what)),
        Some(r) => if r.ok {
            None
        } else {
            match r.error {
                Some(d) => Some(driver_failure(d@)),
                None => Some(lost_early(what + ": failed without detail"@)),
            }
        },
    }
}

fn config_gate(body: FrameBody, what: &str) -> (r: Result<(), AttemptOutcome>)
    ensures
        match r {
            Ok(()) => ack_failure(body, what@) is None,
            Err(o) => ack_failure(body, what@) == Some(o@),
        },
{
    match expect_ack(body) {
        None => Err(lost(what.to_owned())),
        Some(r) => if r.ok {
            Ok(())
        } else {
            match r.error {
                Some(d) => Err(config_fail(d)),
                None => Err(lost(cat2(what, ": failed without detail"))),
            }
        },
    }
}

/// What a failure to configure event tasks makes of an attempt: a driver that will not do so is
/// not asked again.
pub open spec fn event_failure(e: SessionError) -> AttemptV {
    match e {
        SessionError::Driver { kind, code, message } => {
            let text = kind@ + "/"@ + code@ + ": "@ + message@;
            if kind@ == "ConfigurationError"@ || kind@ == "Unsupported"@ {
                AttemptV::ConfigurationFailed(text)
            } else {
                lost_early("configure-events: "@ + text)
            }
        },
        SessionError::EventPlaneUnsupported { negotiated, required } =>
            AttemptV::ConfigurationFailed("configure-events: "@ + session_error_text(e)),
        _ => lost_early("configure-events rpc: "@ + session_error_text(e)),
    }
}

pub fn event_config_fail(e: SessionError) -> (r: AttemptOutcome)
    ensures
        r@ == event_failure(e),
{
    let whole: String = e.message();
    match e {
        SessionError::Driver { kind, code, message } => {
            let text: String = cat5(kind.as_str(), "/", code.as_str(), ": ", message.as_str());
            if same_text(kind.as_str(), "ConfigurationError") || same_text(
                kind.as_str(),
                "Unsupported",
            ) {
                AttemptOutcome::ConfigurationFailed(text)
            } else {
                lost(cat2("configure-events: ", text.as_str()))
            }
        },
        SessionError::EventPlaneUnsupported { .. } => AttemptOutcome::ConfigurationFailed(
            cat2("configure-events: ", whole.as_str()),
        ),
        _ => lost(cat2("configure-events rpc: ", whole.as_str())),
    }
}

/// Whether the data type of a point is known.
pub open spec fn is_known_type(d: PointDescriptorProto) -> bool {
    exists|t: DataType| lowered(d.data_type@) == #[trigger] data_type_name(t)
}

/// Which of the first `n` points is the first whose data type is not known.
pub open spec fn first_unknown(ds: Seq<PointDescriptorProto>, n: int) -> Option<int>
    decreases n,
{
    if n <= 0 {
        None
    } else {
        match first_unknown(ds, n - 1) {
            Some(i) => Some(i),
            None => if is_known_type(ds[n - 1]) {
                None
            } else {
                Some(n - 1)
            },
        }
    }
}

/// The keys of the points that a driver describes.
pub open spec fn described_keys(ds: Seq<PointDescriptorProto>) -> Seq<Seq<char>> {
    ds.map_values(|d: PointDescriptorProto| d.point_key@)
}

/// What the points that a driver describes make of an attempt, if they end it.
pub open spec fn points_failure(ds: Seq<PointDescriptorProto>) -> Option<AttemptV> {
    match first_unknown(ds, ds.len() as int) {
        Some(i) => Some(
            AttemptV::ConfigurationFailed(
                convert_fault_text(ConvertFault::DataType(ds[i].data_type@)),
            ),
        ),
        None => match first_repeat(described_keys(ds)) {
            Some(p) => Some(
                AttemptV::ConfigurationFailed(duplicate_key_text(described_keys(ds)[p])),
            ),
            None => None,
        },
    }
}

proof fn lemma_first_unknown(ds: Seq<PointDescriptorProto>, n: int, m: int)
    requires
        0 <= n <= m,
        first_unknown(ds, n) is Some,
    ensures
        first_unknown(ds, m) == first_unknown(ds, n),
    decreases m - n,
{
    if n < m {
        lemma_first_unknown(ds, n, m - 1);
    }
}

fn read_points(ds: Vec<PointDescriptorProto>) -> (r: Result<Vec<PointDescriptor>, AttemptOutcome>)
    ensures
        match r {
            Ok(ps) => {
                &&& points_failure(ds@) is None
                &&& point_keys(ps@) == described_keys(ds@)
                &&& forall|i: int|
                    0 <= i < ps@.len() ==> lowered(ds@[i].data_type@) == data_type_name(
                        (#[trigger] ps@[i]).data_type,
                    ) && ps@[i].unit == ds@[i].unit && ps@[i].source_label is None
            },
            Err(o) => points_failure(ds@) == Some(o@),
        },
{
    let ghost all = ds@;
    let mut out: Vec<PointDescriptor> = Vec::new();
    for d in it: ds
        invariant
            it.seq() == all,
            out@.len() == it.index(),
            first_unknown(all, it.index() as int) is None,
            forall|j: int|
                0 <= j < out@.len() ==> (#[trigger] out@[j]).point_key == all[j].point_key
                    && lowered(all[j].data_type@) == data_type_name(out@[j].data_type)
                    && out@[j].unit == all[j].unit && out@[j].source_label is None,
    {
        let ghost i = it.index() as int;
        assert(d == all[i]);
        match descriptor_from_pb(d) {
            Ok(p) => {
                assert(is_known_type(all[i]));
                out.push(p);
            },
            Err(e) => {
                proof {
                    assert(!is_known_type(all[i]));
                    lemma_first_unknown(all, i + 1, all.len() as int);
                }
                return Err(AttemptOutcome::ConfigurationFailed(e.message()));
            },
        }
    }
    assert(point_keys(out@) =~= described_keys(all));
    match ensure_unique_point_keys(out.as_slice()) {
        Ok(()) => Ok(out),
        Err(e) => Err(AttemptOutcome::ConfigurationFailed(e.message())),
    }
}

/// Whether definitions are the points that a driver describes, with their ids.
pub open spec fn defines_points(
    defs: Seq<PointDefinition>,
    ds: Seq<PointDescriptorProto>,
    known: Map<Seq<char>, u32>,
) -> bool {
    defs.len() == ds.len() && forall|i: int|
        0 <= i < defs.len() ==> {
            &&& (#[trigger] defs[i]).point_key@ == ds[i].point_key@
            &&& known.contains_key(ds[i].point_key@)
            &&& defs[i].point_id == known[ds[i].point_key@]
            &&& lowered(ds[i].data_type@) == data_type_name(defs[i].data_type)
            &&& crate::schema::maybe_text(defs[i].unit) == crate::schema::maybe_text(ds[i].unit)
            &&& defs[i].source_label is None
            &&& defs[i].display_name is None
        }
}

/// Ids by key, with those of the first `n` definitions put in.
pub open spec fn ids_put(
    map: Map<Seq<char>, u32>,
    defs: Seq<PointDefinition>,
    n: int,
) -> Map<Seq<char>, u32>
    decreases n,
{
    if n <= 0 {
        map
    } else {
        ids_put(map, defs, n - 1).insert(defs[n - 1].point_key@, defs[n - 1].point_id)
    }
}

/// A request that configures a driver.
#[derive(Debug, PartialEq)]
pub enum ConfigRequest {
    OpenConnection { handle: u32, endpoint_id: String, config_json: String },
    ConfigureTasks { handle: u32, revision: u64, tasks: Vec<AcquisitionTaskProto> },
    ApplyPointMap { handle: u32, revision: u64, key_to_point_id: Table<u32> },
    ConfigureEventTasks { handle: u32, revision: u64 },
    StartConnection { handle: u32, stream_epoch: u64 },
}

/// Which request is to be answered.
#[derive(Debug, Clone, Copy, PartialEq, Eq, Structural)]
pub enum ConfigStep {
    Open,
    Configure,
    Apply,
    Events,
    Start,
}

/// An answer to a request that configures a driver.
#[derive(Debug, PartialEq)]
pub enum FlowReply {
    Failed(SessionError),
    Frame { body: FrameBody, shown: String },
    EventsConfigured,
}

/// What comes after an answer: another request, or the connection has started.
#[derive(Debug, PartialEq)]
pub enum FlowNext {
    Request(ConfigRequest),
    Started,
}

/// How a failed request is told.
pub open spec fn step_failure(step: ConfigStep, e: SessionError) -> AttemptV {
    match step {
        ConfigStep::Open => lost_early("open rpc: "@ + session_error_text(e)),
        ConfigStep::Configure => lost_early("configure rpc: "@ + session_error_text(e)),
        ConfigStep::Apply => lost_early("apply rpc: "@ + session_error_text(e)),
        ConfigStep::Events => event_failure(e),
        ConfigStep::Start => lost_early("start rpc: "@ + session_error_text(e)),
    }
}

fn fail_step(step: ConfigStep, e: SessionError) -> (r: AttemptOutcome)
    ensures
        r@ == step_failure(step, e),
{
    let text: String = e.message();
    match step {
        ConfigStep::Open => lost(cat2("open rpc: ", text.as_str())),
        ConfigStep::Configure => lost(cat2("configure rpc: ", text.as_str())),
        ConfigStep::Apply => lost(cat2("apply rpc: ", text.as_str())),
        ConfigStep::Events => event_config_fail(e),
        ConfigStep::Start => lost(cat2("start rpc: ", text.as_str())),
    }
}

/// The name of a step that is answered by a plain result.
pub open spec fn step_name(step: ConfigStep) -> Seq<char> {
    match step {
        ConfigStep::Open => "OpenConnection"@,
        ConfigStep::Apply => "ApplyPointMap"@,
        _ => "StartConnection"@,
    }
}

/// Whether an answer can come at a step: event tasks are configured by a call of their own.
pub open spec fn can_answer(step: ConfigStep, reply: FlowReply) -> bool {
    match reply {
        FlowReply::Failed(_) => true,
        FlowReply::Frame { body, shown } => !(step is Events),
        FlowReply::EventsConfigured => step is Events,
    }
}

/// What an answer makes of an attempt, if it ends it. That there are no ids is another reason.
pub open spec fn flow_failure(step: ConfigStep, reply: FlowReply) -> Option<AttemptV> {
    match reply {
        FlowReply::Failed(e) => Some(step_failure(step, e)),
        FlowReply::EventsConfigured => None,
        FlowReply::Frame { body, shown } => match step {
            ConfigStep::Configure => match body {
                FrameBody::PointDescriptors(ds) => points_failure(ds@),
                FrameBody::DriverError { handle, detail } => Some(
                    driver_failure(detail_or_nothing(detail)),
                ),
                _ => Some(lost_early("unexpected configure reply: "@ + shown@)),
            },
            _ => ack_failure(body, step_name(step)),
        },
    }
}

/// The first request: to open the connection.
pub fn open_request(cfg: &BuiltinEndpoint) -> (r: ConfigRequest)
    ensures
        r matches ConfigRequest::OpenConnection { handle, endpoint_id, config_json } && handle
            == HANDLE && endpoint_id@ == cfg.endpoint_id@ && config_json@
            == cfg.connection_json@,
{
    ConfigRequest::OpenConnection {
        handle: HANDLE,
        endpoint_id: cfg.endpoint_id.clone(),
        config_json: cfg.connection_json.clone(),
    }
}

fn define(ps: &Vec<PointDescriptor>, ids: &Vec<u32>) -> (r: Vec<PointDefinition>)
    requires
        ids@.len() == ps@.len(),
    ensures
        r@.len() == ps@.len(),
        forall|i: int|
            0 <= i < r@.len() ==> (#[trigger] r@[i]).point_id == ids@[i] && r@[i].point_key@
                == ps@[i].point_key@ && r@[i].data_type == ps@[i].data_type
                && crate::schema::maybe_text(r@[i].unit) == crate::schema::maybe_text(ps@[i].unit)
                && (r@[i].source_label is None <==> ps@[i].source_label is None)
                && r@[i].display_name is None,
{
    let mut defs: Vec<PointDefinition> = Vec::new();
    let mut i: usize = 0;
    while i < ps.len()
        invariant
            i <= ps.len(),
            ids@.len() == ps@.len(),
            defs@.len() == i,
            forall|j: int|
                0 <= j < i ==> (#[trigger] defs@[j]).point_id == ids@[j] && defs@[j].point_key@
                    == ps@[j].point_key@ && defs@[j].data_type == ps@[j].data_type
                    && crate::schema::maybe_text(defs@[j].unit) == crate::schema::maybe_text(
                    ps@[j].unit,
                ) && (defs@[j].source_label is None <==> ps@[j].source_label is None)
                    && defs@[j].display_name is None,
        decreases ps.len() - i,
    {
        let p: &PointDescriptor = &ps[i];
        defs.push(
            PointDefinition {
                point_id: ids[i],
                point_key: p.point_key.clone(),
                data_type: p.data_type,
                unit: match &p.unit {
                    Some(u) => Some(u.clone()),
                    None => None,
                },
                source_label: match &p.source_label {
                    Some(l) => Some(l.clone()),
                    None => None,
                },
                display_name: None,
            },
        );
        i = i + 1;
    }
    defs
}

fn put_ids(map: &mut Table<u32>, defs: &Vec<PointDefinition>)
    ensures
        final(map)@ == ids_put(old(map)@, defs@, defs@.len() as int),
{
    let ghost first = map@;
    let mut i: usize = 0;
    while i < defs.len()
        invariant
            i <= defs.len(),
            map@ == ids_put(first, defs@, i as int),
        decreases defs.len() - i,
    {
        map.set(defs[i].point_key.clone(), defs[i].point_id);
        i = i + 1;
    }
}

/// Takes the points that a driver describes: they get their ids, and the snapshot knows them.
fn take_points<S: PointIdSource>(
    ds: Vec<PointDescriptorProto>,
    cfg: &BuiltinEndpoint,
    source: &mut S,
    id_map: &mut Table<u32>,
    snapshot: &mut Snapshot,
) -> (r: Result<Vec<PointDefinition>, AttemptOutcome>)
    requires
        snapshot_ok(old(snapshot)@),
        old(source).ready(cfg.endpoint_id@, described_keys(ds@)),
    ensures
        snapshot_ok(final(snapshot)@),
        match r {
            Ok(defs) => {
                &&& points_failure(ds@) is None
                &&& old(source).refuses(cfg.endpoint_id@, described_keys(ds@)) is None
                &&& defines_points(defs@, ds@, final(source).known(cfg.endpoint_id@))
                &&& final(id_map)@ == ids_put(old(id_map)@, defs@, defs@.len() as int)
                &&& final(snapshot)@ == points_registered(
                    old(snapshot)@,
                    cfg.endpoint_id@,
                    defs@,
                )
            },
            Err(o) => {
                &&& final(id_map)@ == old(id_map)@
                &&& final(snapshot)@ == old(snapshot)@
                &&& match points_failure(ds@) {
                    Some(f) => o@ == f,
                    None => old(source).refuses(cfg.endpoint_id@, described_keys(ds@)) matches Some(
                        m,
                    ) && o@ == AttemptV::ConfigurationFailed(m),
                }
            },
        },
{
    let ghost all = ds@;
    let ps: Vec<PointDescriptor> = match read_points(ds) {
        Ok(ps) => ps,
        Err(o) => {
            return Err(o);
        },
    };
    let ids: Vec<u32> = match source.assign(cfg.endpoint_id.as_str(), ps.as_slice()) {
        Ok(ids) => ids,
        Err(m) => {
            return Err(AttemptOutcome::ConfigurationFailed(m));
        },
    };
    let defs: Vec<PointDefinition> = define(&ps, &ids);
    proof {
        assert(ps@.len() == all.len()) by {
            assert(point_keys(ps@).len() == described_keys(all).len());
        }
        assert forall|i: int| 0 <= i < defs@.len() implies {
            &&& (#[trigger] defs@[i]).point_key@ == all[i].point_key@
            &&& source.known(cfg.endpoint_id@).contains_key(all[i].point_key@)
            &&& defs@[i].point_id == source.known(cfg.endpoint_id@)[all[i].point_key@]
            &&& lowered(all[i].data_type@) == data_type_name(defs@[i].data_type)
            &&& crate::schema::maybe_text(defs@[i].unit) == crate::schema::maybe_text(
                all[i].unit,
            )
            &&& defs@[i].source_label is None
            &&& defs@[i].display_name is None
        } by {
            assert(point_keys(ps@)[i] == described_keys(all)[i]);
            assert(ps@[i].point_key@ == all[i].point_key@);
        }
    }
    put_ids(id_map, &defs);
    snapshot.register_points(cfg.endpoint_id.as_str(), defs.as_slice());
    Ok(defs)
}

/// How far the configuration of a driver got, which revision it is of, and the number of the stream
/// that the driver was last told to start.
#[derive(Debug, Clone, Copy, PartialEq, Eq, Structural)]
pub struct ConfigFlow {
    pub step: ConfigStep,
    pub revision: u64,
    pub epoch: u64,
}

/// Takes the answer to a request that configures a driver, and says what comes next. The
/// connection is opened, its tasks are configured, the points that the driver describes get their
/// ids and are told to it, its event tasks are configured, and it is started.
pub fn run_config_flow<S: PointIdSource>(
    flow: &mut ConfigFlow,
    reply: FlowReply,
    cfg: &BuiltinEndpoint,
    source: &mut S,
    id_map: &mut Table<u32>,
    snapshot: &mut Snapshot,
    last_epoch: &mut u64,
    new_epoch: u64,
) -> (r: Result<FlowNext, AttemptOutcome>)
    requires
        snapshot_ok(old(snapshot)@),
        can_answer(old(flow).step, reply),
        reply matches FlowReply::Frame { body: FrameBody::PointDescriptors(ds), shown } ==> old(source).ready(cfg.endpoint_id@, described_keys(ds@)),
    ensures
        snapshot_ok(final(snapshot)@),
        match r {
            Ok(next) => {
                &&& flow_failure(old(flow).step, reply) is None
                &&& match old(flow).step {
                    ConfigStep::Open => {
                        &&& final(flow).step is Configure
                        &&& next matches FlowNext::Request(
                            ConfigRequest::ConfigureTasks { handle, revision, tasks },
                        ) && handle == HANDLE && revision == old(source).revision_at(
                            cfg.endpoint_id@,
                        ) && final(flow).revision == revision && task_msgs_view(tasks@) == tasks_view(cfg.tasks@).map_values(
                            |t: TaskV| task_encoded(t),
                        )
                    },
                    ConfigStep::Configure => {
                        &&& final(flow).step is Apply
                        &&& reply matches FlowReply::Frame {
                            body: FrameBody::PointDescriptors(ds),
                            shown,
                        } && old(source).refuses(cfg.endpoint_id@, described_keys(ds@)) is None
                            && exists|defs: Seq<PointDefinition>|
                            {
                                &&& #[trigger] defines_points(
                                    defs,
                                    ds@,
                                    final(source).known(cfg.endpoint_id@),
                                )
                                &&& final(id_map)@ == ids_put(
                                    old(id_map)@,
                                    defs,
                                    defs.len() as int,
                                )
                                &&& final(snapshot)@ == points_registered(
                                    old(snapshot)@,
                                    cfg.endpoint_id@,
                                    defs,
                                )
                                &&& next matches FlowNext::Request(
                                    ConfigRequest::ApplyPointMap {
                                        handle,
                                        revision,
                                        key_to_point_id,
                                    },
                                ) && handle == HANDLE && revision == old(flow).revision && key_to_point_id@ == ids_put(
                                    Map::empty(),
                                    defs,
                                    defs.len() as int,
                                )
                            }
                    },
                    ConfigStep::Apply => final(flow).step is Events && (next matches FlowNext::Request(
                        ConfigRequest::ConfigureEventTasks { handle, revision },
                    ) && handle == HANDLE && revision == old(flow).revision),
                    ConfigStep::Events => final(flow).step is Start && (next
                        matches FlowNext::Request(
                        ConfigRequest::StartConnection { handle, stream_epoch },
                    ) && handle == HANDLE && stream_epoch == new_epoch && final(flow).epoch == new_epoch),
                    ConfigStep::Start => final(flow).step is Start && next is Started,
                }
                &&& *final(last_epoch) == (if old(flow).step is Start {
                    old(flow).epoch
                } else {
                    *old(last_epoch)
                })
            },
            Err(o) => {
                &&& match flow_failure(old(flow).step, reply) {
                    Some(f) => o@ == f,
                    None => {
                        &&& old(flow).step is Configure
                        &&& reply matches FlowReply::Frame {
                            body: FrameBody::PointDescriptors(ds),
                            shown,
                        } && (old(source).refuses(cfg.endpoint_id@, described_keys(ds@)) matches Some(
                            m,
                        ) && o@ == AttemptV::ConfigurationFailed(m))
                    },
                }
                &&& final(snapshot)@ == old(snapshot)@
                &&& final(id_map)@ == old(id_map)@
                &&& *final(last_epoch) == *old(last_epoch)
            },
        },
        !(old(flow).step is Open) ==> final(flow).revision == old(flow).revision,
        !(old(flow).step is Events) ==> final(flow).epoch == old(flow).epoch,
        !(old(flow).step is Configure) ==> final(snapshot)@ == old(snapshot)@ && final(id_map)@ == old(id_map)@,
{
    let endpoint_id: &str = cfg.endpoint_id.as_str();
    let (body, shown): (FrameBody, String) = match reply {
        FlowReply::Failed(e) => {
            return Err(fail_step(flow.step, e));
        },
        FlowReply::EventsConfigured => {
            flow.step = ConfigStep::Start;
            flow.epoch = new_epoch;
            return Ok(
                FlowNext::Request(
                    ConfigRequest::StartConnection { handle: HANDLE, stream_epoch: new_epoch },
                ),
            );
        },
        FlowReply::Frame { body, shown } => (body, shown),
    };
    match flow.step {
        ConfigStep::Open => {
            match config_gate(body, "OpenConnection") {
                Ok(()) => {},
                Err(o) => {
                    return Err(o);
                },
            }
            flow.step = ConfigStep::Configure;
            flow.revision = source.revision(endpoint_id);
            Ok(
                FlowNext::Request(
                    ConfigRequest::ConfigureTasks {
                        handle: HANDLE,
                        revision: flow.revision,
                        tasks: tasks_to_pb(cfg.tasks.as_slice()),
                    },
                ),
            )
        },
        ConfigStep::Configure => {
            let ds: Vec<PointDescriptorProto> = match body {
                FrameBody::PointDescriptors(ds) => ds,
                FrameBody::DriverError { handle: _, detail } => {
                    return Err(config_fail(detail_of(detail)));
                },
                _ => {
                    return Err(lost(cat2("unexpected configure reply: ", shown.as_str())));
                },
            };
            let defs: Vec<PointDefinition> = match take_points(
                ds,
                cfg,
                source,
                id_map,
                snapshot,
            ) {
                Ok(defs) => defs,
                Err(o) => {
                    return Err(o);
                },
            };
            let mut key_to_point_id: Table<u32> = Table::new();
            put_ids(&mut key_to_point_id, &defs);
            flow.step = ConfigStep::Apply;
            assert(defines_points(defs@, ds@, source.known(cfg.endpoint_id@)));
            Ok(
                FlowNext::Request(
                    ConfigRequest::ApplyPointMap {
                        handle: HANDLE,
                        revision: flow.revision,
                        key_to_point_id,
                    },
                ),
            )
        },
        ConfigStep::Apply => {
            match config_gate(body, "ApplyPointMap") {
                Ok(()) => {},
                Err(o) => {
                    return Err(o);
                },
            }
            flow.step = ConfigStep::Events;
            Ok(
                FlowNext::Request(
                    ConfigRequest::ConfigureEventTasks {
                        handle: HANDLE,
                        revision: flow.revision,
                    },
                ),
            )
        },
        ConfigStep::Events | ConfigStep::Start => {
            match config_gate(body, "StartConnection") {
                Ok(()) => {},
                Err(o) => {
                    return Err(o);
                },
            }
            *last_epoch = flow.epoch;
            Ok(FlowNext::Started)
        },
    }
}

// ---------------------------------------------------------------------------
// Serving
// ---------------------------------------------------------------------------

/// How the intake of events ended.
#[derive(Debug, Clone, PartialEq)]
pub enum IngressEnd {
    Finished,
    Fatal(IngressFatal),
    Panicked(String),
}

/// What happens while an endpoint runs.
#[derive(Debug, Clone, PartialEq)]
pub enum LoopEvent {
    Ingress(IngressEnd),
    Session(SessionEvent),
    ChannelClosed,
    Watchdog { unresponsive: bool },
    Shutdown,
}

/// What to do about it.
#[derive(Debug, Clone, PartialEq)]
pub enum LoopAction {
    Apply(DataBatch),
    Continue,
    End(AttemptOutcome),
}

/// The name of a state as it is shown for debugging.
pub open spec fn state_debug(s: ConnectionState) -> Seq<char> {
    match s {
        ConnectionState::Stopped => "Stopped"@,
        ConnectionState::Connecting => "Connecting"@,
        ConnectionState::Running => "Running"@,
        ConnectionState::Reconnecting => "Reconnecting"@,
        ConnectionState::Failed => "Failed"@,
    }
}

/// What ends the run of an endpoint, and how.
pub open spec fn loop_end(event: LoopEvent) -> Option<AttemptV> {
    match event {
        LoopEvent::Ingress(IngressEnd::Finished) => Some(lost_late("event ingress exited"@)),
        LoopEvent::Ingress(IngressEnd::Fatal(f)) => Some(
            lost_late(fatal_code(f@) + ": "@ + fatal_text(f@)),
        ),
        LoopEvent::Ingress(IngressEnd::Panicked(m)) => Some(
            lost_late("event ingress panicked: "@ + m@),
        ),
        LoopEvent::Session(SessionEvent::Batch(_)) => None,
        LoopEvent::Session(SessionEvent::State { handle, state, detail }) => if state is Stopped
            || state is Failed {
            Some(lost_late("driver reported "@ + state_debug(state) + " "@ + detail@))
        } else {
            None
        },
        LoopEvent::Session(SessionEvent::DriverError { handle, kind, code, message }) => if kind@
            == "ConfigurationError"@ || code@ == "DUPLICATE_POINT_KEY"@ {
            Some(AttemptV::ConfigurationFailed(kind@ + "/"@ + code@ + ": "@ + message@))
        } else {
            None
        },
        LoopEvent::ChannelClosed => Some(lost_late("event channel closed"@)),
        LoopEvent::Watchdog { unresponsive } => if unresponsive {
            Some(lost_late("heartbeat dead"@))
        } else {
            None
        },
        LoopEvent::Shutdown => Some(AttemptV::Shutdown),
    }
}

fn end_of_ingress(end: IngressEnd) -> (r: AttemptOutcome)
    ensures
        Some(r@) == loop_end(LoopEvent::Ingress(end)),
{
    match end {
        IngressEnd::Finished => lost_running("event ingress exited".to_owned()),
        IngressEnd::Fatal(f) => lost_running(cat3(f.code(), ": ", f.message().as_str())),
        IngressEnd::Panicked(m) => lost_running(cat2("event ingress panicked: ", m.as_str())),
    }
}

/// Decides about what happens while an endpoint runs.
pub fn event_loop(event: LoopEvent) -> (r: LoopAction)
    ensures
        match loop_end(event) {
            Some(o) => r matches LoopAction::End(x) && x@ == o,
            None => match event {
                LoopEvent::Session(SessionEvent::Batch(b)) => r == LoopAction::Apply(b),
                _ => r is Continue,
            },
        },
{
    match event {
        LoopEvent::Ingress(end) => LoopAction::End(end_of_ingress(end)),
        LoopEvent::Session(SessionEvent::Batch(b)) => LoopAction::Apply(b),
        LoopEvent::Session(SessionEvent::State { handle: _, state, detail }) => {
            let name: &str = match state {
                ConnectionState::Stopped => "Stopped",
                ConnectionState::Failed => "Failed",
                _ => {
                    return LoopAction::Continue;
                },
            };
            LoopAction::End(
                lost_running(cat4("driver reported ", name, " ", detail.as_str())),
            )
        },
        LoopEvent::Session(SessionEvent::DriverError { handle: _, kind, code, message }) => {
            if same_text(kind.as_str(), "ConfigurationError") || same_text(
                code.as_str(),
                "DUPLICATE_POINT_KEY",
            ) {
                LoopAction::End(
                    AttemptOutcome::ConfigurationFailed(
                        cat5(kind.as_str(), "/", code.as_str(), ": ", message.as_str()),
                    ),
                )
            } else {
                LoopAction::Continue
            }
        },
        LoopEvent::ChannelClosed => LoopAction::End(
            lost_running("event channel closed".to_owned()),
        ),
        LoopEvent::Watchdog { unresponsive } => if unresponsive {
            LoopAction::End(lost_running("heartbeat dead".to_owned()))
        } else {
            LoopAction::Continue
        },
        LoopEvent::Shutdown => LoopAction::End(AttemptOutcome::Shutdown),
    }
}

/// How long a batch was under way, if that can be told: not where the clocks do not agree.
pub open spec fn time_under_way(sent: Option<u64>, now: u64) -> Option<u64> {
    match sent {
        Some(t) => if t <= now && now - t < 10_000_000_000 {
            Some((now - t) as u64)
        } else {
            None
        },
        None => None,
    }
}

/// The snapshot with what is known of how long a batch was under way.
pub open spec fn delay_noted(s: SnapshotV, delay: Option<u64>) -> SnapshotV {
    match delay {
        Some(ns) => SnapshotV { ipc_latencies_ns: delay_kept(s.ipc_latencies_ns, ns), ..s },
        None => s,
    }
}

/// Puts a batch into the snapshot, and keeps how long it was under way.
pub fn apply_batch_logged(
    snapshot: &mut Snapshot,
    cfg: &BuiltinEndpoint,
    batch: &DataBatch,
    now_mono_ns: u64,
)
    requires
        snapshot_ok(old(snapshot)@),
    ensures
        final(snapshot)@ == batch_applied(
            delay_noted(old(snapshot)@, time_under_way(batch.mono_ns, now_mono_ns)),
            *batch,
            cfg.endpoint_id@,
        ),
        snapshot_ok(final(snapshot)@),
{
    match batch.mono_ns {
        Some(t) => {
            if now_mono_ns >= t {
                let delta: u64 = now_mono_ns - t;
                if delta < 10_000_000_000 {
                    snapshot.record_ipc_latency_ns(delta);
                }
            }
        },
        None => {},
    }
    snapshot.apply_batch(batch, cfg.endpoint_id.as_str());
}

/// What tells streams apart that begin at the same time.
pub const EPOCH_STEP: u64 = 0x9E37_79B9_7F4A_7C15;

/// A number that is hard to guess, mixed from a time, a process and how many streams it began.
pub open spec fn mixed_epoch(now: u64, pid: u32, count: u64) -> u64 {
    now ^ ((pid as u64) << 32) ^ ((count * EPOCH_STEP) % 0x1_0000_0000_0000_0000) as u64
}

/// The number of a stream that begins at a time, in a process, after some others, the last of which
/// got the number `last`: a mixed one, unless it is not above the last.
pub open spec fn stream_epoch(now: u64, pid: u32, count: u64, last: u64) -> u64 {
    if mixed_epoch(now, pid, count) > last {
        mixed_epoch(now, pid, count)
    } else {
        (last + 1) as u64
    }
}

/// The number of a new stream. It is above that of the last one, so that a stream is never taken
/// for an earlier one.
pub fn new_stream_epoch(now: u64, pid: u32, count: u64, last: u64) -> (r: u64)
    requires
        last < u64::MAX,
    ensures
        r == stream_epoch(now, pid, count, last),
        r > last,
{
    let process: u64 = (pid as u64) << 32;
    let mixed: u64 = now ^ process ^ count.wrapping_mul(EPOCH_STEP);
    if mixed > last {
        mixed
    } else {
        last + 1
    }
}

/// The number of the last of the first `n` streams, each begun at a time, in a process, after some
/// others; zero where there is none.
pub open spec fn epoch_in_turn(begun: Seq<(u64, u32, u64)>, n: int) -> u64
    decreases n,
{
    if n <= 0 {
        0
    } else {
        stream_epoch(
            begun[n - 1].0,
            begun[n - 1].1,
            begun[n - 1].2,
            epoch_in_turn(begun, n - 1),
        )
    }
}

/// The numbers of streams rise from one to the next, whatever the times at which they begin, as
/// long as there are numbers left; so no two streams have the same.
pub proof fn epochs_rise(begun: Seq<(u64, u32, u64)>, a: int, b: int)
    requires
        0 <= a < b <= begun.len(),
        forall|n: int| 0 <= n < begun.len() ==> #[trigger] epoch_in_turn(begun, n) < u64::MAX,
    ensures
        epoch_in_turn(begun, a) < epoch_in_turn(begun, b),
    decreases b,
{
    assert(epoch_in_turn(begun, b - 1) < u64::MAX);
    if a < b - 1 {
        epochs_rise(begun, a, b - 1);
    }
}

// ---------------------------------------------------------------------------
// Laws
// ---------------------------------------------------------------------------

/// A driver that reports its state ends the run exactly where it stopped or failed. What ran is
/// lost, and the report is the reason.
pub proof fn only_stopped_and_failed_drivers_end_the_run(
    handle: u32,
    state: ConnectionState,
    detail: String,
)
    ensures
        ({
            let end = loop_end(LoopEvent::Session(SessionEvent::State { handle, state, detail }));
            &&& end is Some <==> (state is Stopped || state is Failed)
            &&& end is None <==> (state is Connecting || state is Running || state is Reconnecting)
            &&& end matches Some(o) ==> (o matches AttemptV::Lost { reason, had_running_session }
                && had_running_session && (state is Stopped ==> reason == "driver reported "@
                + "Stopped"@ + " "@ + detail@) && (state is Failed ==> reason == "driver reported "@
                + "Failed"@ + " "@ + detail@))
        }),
{
}

/// An error of a driver ends the run for good exactly where it is one of configuration or a point
/// has two definitions; any other is passed over.
pub proof fn only_errors_of_configuration_end_the_run(
    handle: Option<u32>,
    kind: String,
    code: String,
    message: String,
)
    ensures
        ({
            let end = loop_end(
                LoopEvent::Session(SessionEvent::DriverError { handle, kind, code, message }),
            );
            &&& end is Some <==> (kind@ == "ConfigurationError"@ || code@ == "DUPLICATE_POINT_KEY"@)
            &&& end matches Some(o) ==> (o matches AttemptV::ConfigurationFailed(m) && m == kind@
                + "/"@ + code@ + ": "@ + message@)
        }),
{
}

/// Whatever ends the intake of events ends the run, as does a channel that is closed or a driver
/// that does not answer; what ran is lost, so that the endpoint is tried again. A batch never ends
/// the run, nor does a driver that answers. Only a shutdown ends it for good and without a fault.
pub proof fn runs_end_for_these_reasons(event: LoopEvent)
    ensures
        event is Ingress ==> loop_end(event) is Some,
        event is ChannelClosed ==> loop_end(event) is Some,
        event matches LoopEvent::Watchdog { unresponsive } ==> (loop_end(event) is Some
            <==> unresponsive),
        event matches LoopEvent::Session(SessionEvent::Batch(b)) ==> loop_end(event) is None,
        event is Shutdown <==> loop_end(event) == Some(AttemptV::Shutdown),
        event is Ingress || event is ChannelClosed || event is Watchdog ==> (loop_end(event)
            matches Some(o) ==> (o matches AttemptV::Lost { reason, had_running_session }
            && had_running_session)),
        event == LoopEvent::Ingress(IngressEnd::Finished) ==> loop_end(event)->0->reason
            == "event ingress exited"@,
        event matches LoopEvent::Ingress(IngressEnd::Panicked(m)) ==> loop_end(event)->0->reason
            == "event ingress panicked: "@ + m@,
        event matches LoopEvent::Ingress(IngressEnd::Fatal(f)) ==> loop_end(event)->0->reason
            == fatal_code(f@) + ": "@ + fatal_text(f@),
        event is ChannelClosed ==> loop_end(event)->0->reason == "event channel closed"@,
        event == (LoopEvent::Watchdog { unresponsive: true }) ==> loop_end(event)->0->reason
            == "heartbeat dead"@,
{
}

/// A configuration that a driver calls wrong is given up; after any other error of it the endpoint
/// is tried again. Both tell the kind, the code and the message.
pub proof fn only_errors_of_configuration_are_final(d: DetailV)
    ensures
        driver_failure(d) is ConfigurationFailed <==> d.kind == "ConfigurationError"@,
        driver_failure(d) matches AttemptV::ConfigurationFailed(m) ==> m == d.kind + "/"@ + d.code
            + ": "@ + d.message,
        !(driver_failure(d) is ConfigurationFailed) ==> (driver_failure(d) matches AttemptV::Lost {
            reason,
            had_running_session,
        } && !had_running_session && reason == d.kind + "/"@ + d.code + ": "@ + d.message),
{
}

/// A step goes on exactly where its answer is the acknowledgement of a step and says that it went
/// well. Where it says that it did not, its error decides; an answer of another kind loses the
/// connection, so that the endpoint is tried again.
pub proof fn steps_go_on_when_they_are_acknowledged(body: FrameBody, what: Seq<char>)
    ensures
        ({
            let result = match body {
                FrameBody::OpenConnectionAck(r) => r,
                FrameBody::ConfigApplied(r) => r,
                FrameBody::StartConnectionAck { handle, result } => result,
                _ => None,
            };
            let f = ack_failure(body, what);
            &&& f is None <==> (result matches Some(r) && r.ok)
            &&& result is None ==> (f matches Some(AttemptV::Lost { reason, had_running_session })
                && !had_running_session && reason == what)
            &&& result matches Some(r) ==> (!r.ok ==> match r.error {
                Some(d) => f == Some(driver_failure(d@)),
                None => f matches Some(AttemptV::Lost { reason, had_running_session })
                    && !had_running_session && reason == what + ": failed without detail"@,
            })
        }),
{
}

/// A driver that cannot or will not take event tasks is given up; where it could not be asked, the
/// endpoint is tried again.
pub proof fn drivers_without_events_are_given_up(e: SessionError)
    ensures
        event_failure(e) is ConfigurationFailed <==> (e is EventPlaneUnsupported || (
        e matches SessionError::Driver { kind, code, message } && (kind@ == "ConfigurationError"@
            || kind@ == "Unsupported"@))),
        !(event_failure(e) is ConfigurationFailed) ==> (event_failure(e) matches AttemptV::Lost {
            reason,
            had_running_session,
        } && !had_running_session),
        e matches SessionError::Driver { kind, code, message } ==> (event_failure(e)
            matches AttemptV::ConfigurationFailed(m) ==> m == kind@ + "/"@ + code@ + ": "@
            + message@),
{
}

/// A request that fails before the endpoint runs loses the connection and tells the step, but for
/// event tasks, where the error decides.
pub proof fn failed_requests_are_told_by_their_step(step: ConfigStep, e: SessionError)
    ensures
        step is Events ==> step_failure(step, e) == event_failure(e),
        !(step is Events) ==> (step_failure(step, e) matches AttemptV::Lost {
            reason,
            had_running_session,
        } && !had_running_session && (step is Open ==> reason == "open rpc: "@
            + session_error_text(e)) && (step is Configure ==> reason == "configure rpc: "@
            + session_error_text(e)) && (step is Apply ==> reason == "apply rpc: "@
            + session_error_text(e)) && (step is Start ==> reason == "start rpc: "@
            + session_error_text(e))),
{
}

/// Tasks are configured only by points that are described: no other answer goes on. An error of
/// the driver decides whether the endpoint is tried again.
pub proof fn only_described_points_configure_tasks(body: FrameBody, shown: String)
    ensures
        ({
            let f = flow_failure(ConfigStep::Configure, FlowReply::Frame { body, shown });
            &&& f is None ==> body is PointDescriptors
            &&& body matches FrameBody::DriverError { handle, detail } ==> f is Some
            &&& !(body is PointDescriptors) && !(body is DriverError) ==> (f matches Some(
                AttemptV::Lost { reason, had_running_session },
            ) && !had_running_session && reason == "unexpected configure reply: "@ + shown@)
        }),
{
}

/// An answer to opening, applying or starting goes on exactly where the step is acknowledged, and
/// a failed request never goes on.
pub proof fn answers_are_held_against_their_step(step: ConfigStep, reply: FlowReply)
    requires
        can_answer(step, reply),
    ensures
        reply is Failed ==> flow_failure(step, reply) is Some,
        reply is EventsConfigured ==> flow_failure(step, reply) is None,
        reply matches FlowReply::Frame { body, shown } ==> (step is Open ==> flow_failure(step, reply)
            == ack_failure(body, "OpenConnection"@)) && (step is Apply ==> flow_failure(step, reply)
            == ack_failure(body, "ApplyPointMap"@)) && (step is Start ==> flow_failure(step, reply)
            == ack_failure(body, "StartConnection"@)),
{
}

proof fn lemma_unknown_found(ds: Seq<PointDescriptorProto>, n: int)
    requires
        0 <= n <= ds.len(),
    ensures
        first_unknown(ds, n) matches Some(i) ==> 0 <= i < n && !is_known_type(ds[i]) && forall|
            j: int,
        |
            0 <= j < i ==> is_known_type(#[trigger] ds[j]),
        first_unknown(ds, n) is None ==> forall|j: int|
            0 <= j < n ==> is_known_type(#[trigger] ds[j]),
    decreases n,
{
    if n > 0 {
        lemma_unknown_found(ds, n - 1);
    }
}

/// Points are taken exactly where each is of a known type and no two have the same key; otherwise
/// the endpoint is given up.
pub proof fn points_are_taken_when_they_are_sound(ds: Seq<PointDescriptorProto>)
    ensures
        points_failure(ds) is None <==> (forall|i: int|
            0 <= i < ds.len() ==> exists|t: DataType|
                lowered((#[trigger] ds[i]).data_type@) == #[trigger] data_type_name(t)) && (forall|
            i: int,
            j: int,
        |
            0 <= i < j < ds.len() ==> (#[trigger] ds[i]).point_key@ != (
            #[trigger] ds[j]).point_key@),
        points_failure(ds) is Some ==> points_failure(ds)->0 is ConfigurationFailed,
{
    let n = ds.len() as int;
    let keys = described_keys(ds);
    lemma_unknown_found(ds, n);
    crate::text::first_repeat_is_first(keys);
    if points_failure(ds) is None {
        assert forall|i: int| 0 <= i < ds.len() implies exists|t: DataType|
            lowered((#[trigger] ds[i]).data_type@) == #[trigger] data_type_name(t) by {
            assert(is_known_type(ds[i]));
        }
        assert forall|i: int, j: int| 0 <= i < j < ds.len() implies (#[trigger] ds[i]).point_key@ != (
        #[trigger] ds[j]).point_key@ by {
            assert(keys[i] != keys[j]);
        }
    } else if first_unknown(ds, n) is Some {
        let i = first_unknown(ds, n)->0;
        assert(!is_known_type(ds[i]));
    } else {
        assert(!keys.no_duplicates());
        let (i, j) = choose|i: int, j: int|
            0 <= i < keys.len() && 0 <= j < keys.len() && i != j && #[trigger] keys[i]
                == #[trigger] keys[j];
        if i < j {
            assert(ds[i].point_key@ == ds[j].point_key@);
        } else {
            assert(ds[j].point_key@ == ds[i].point_key@);
        }
    }
}

/// The id of a point is told under its key, as the last word on it has it; keys of which nothing
/// is said keep theirs.
pub proof fn ids_are_told_by_key(map: Map<Seq<char>, u32>, defs: Seq<PointDefinition>, n: int, i: int, key: Seq<char>)
    requires
        0 <= i < n <= defs.len(),
        forall|j: int| i < j < n ==> (#[trigger] defs[j]).point_key@ != defs[i].point_key@,
    ensures
        ids_put(map, defs, n).contains_key(defs[i].point_key@),
        ids_put(map, defs, n)[defs[i].point_key@] == defs[i].point_id,
        (forall|j: int| 0 <= j < n ==> (#[trigger] defs[j]).point_key@ != key) ==> {
            &&& ids_put(map, defs, n).contains_key(key) <==> map.contains_key(key)
            &&& ids_put(map, defs, n)[key] == map[key]
        },
    decreases n,
{
    if forall|j: int| 0 <= j < n ==> (#[trigger] defs[j]).point_key@ != key {
        lemma_ids_put_others(map, defs, n, key);
    }
    if i < n - 1 {
        assert(defs[n - 1].point_key@ != defs[i].point_key@);
        ids_are_told_by_key(map, defs, n - 1, i, key);
    }
}

proof fn lemma_ids_put_others(
    map: Map<Seq<char>, u32>,
    defs: Seq<PointDefinition>,
    n: int,
    key: Seq<char>,
)
    requires
        0 <= n <= defs.len(),
        forall|j: int| 0 <= j < n ==> (#[trigger] defs[j]).point_key@ != key,
    ensures
        ids_put(map, defs, n).contains_key(key) <==> map.contains_key(key),
        ids_put(map, defs, n)[key] == map[key],
    decreases n,
{
    if n > 0 {
        assert(defs[n - 1].point_key@ != key);
        lemma_ids_put_others(map, defs, n - 1, key);
    }
}

/// The waits after failures in a row: one second, two, five, ten, and half a minute from then on. A
/// machine that is to be fast waits a second each time.
pub proof fn waits_are_these(idx: int)
    ensures
        backoff(true, idx) == 1,
        idx <= 0 ==> backoff(false, idx) == 1,
        backoff(false, 1) == 2,
        backoff(false, 2) == 5,
        backoff(false, 3) == 10,
        idx >= 4 ==> backoff(false, idx) == 30,
{
}

/// An endpoint that ran is tried again as if it had never failed; one that did not goes on counting.
pub proof fn a_run_makes_up_for_failures(idx: usize)
    ensures
        failures_counted(idx, true) == 0,
        failures_counted(idx, false) == idx,
{
}

/// The state that is shown of an endpoint says all that is known of it, and of others nothing
/// changes.
pub proof fn states_are_shown_as_they_are(
    s: SnapshotV,
    cfg: BuiltinEndpoint,
    state: ConnectionState,
    detail: Seq<char>,
    points: usize,
    epoch: u64,
    revision: u64,
    other: Seq<char>,
)
    ensures
        ({
            let v = status_of(cfg, state, detail, points, epoch, revision);
            let after = status_set(s, v);
            &&& after.endpoints.contains_key(cfg.endpoint_id@)
            &&& after.endpoints[cfg.endpoint_id@] == (StatusV {
                endpoint_id: cfg.endpoint_id@,
                driver_id: cfg.driver_id@,
                state: state_name(state),
                detail,
                revision,
                points,
                epoch,
            })
            &&& other != cfg.endpoint_id@ ==> after.endpoints.contains_key(other)
                == s.endpoints.contains_key(other) && after.endpoints[other] == s.endpoints[other]
            &&& after.latest == s.latest
            &&& after.point_meta == s.point_meta
            &&& after.drivers == s.drivers
        }),
{
}

/// A driver that could not be spawned or reached is lost before it ran, and tried again; how the
/// configuration or the run ended is how the attempt ends. Nothing else ends an attempt.
pub proof fn attempts_end_as_they_went(event: AttemptEvent)
    ensures
        outcome_after(event) is None <==> (event is Spawned || event is Connected
            || event is Configured),
        event matches AttemptEvent::SpawnFailed(m) ==> (outcome_after(event) matches Some(
            AttemptV::Lost { reason, had_running_session },
        ) && !had_running_session && reason == "spawn failed: "@ + m@),
        event matches AttemptEvent::ConnectFailed(m) ==> (outcome_after(event) matches Some(
            AttemptV::Lost { reason, had_running_session },
        ) && !had_running_session && reason == "connect failed: "@ + m@),
        event matches AttemptEvent::ConfigurationEnded(o) ==> outcome_after(event) == Some(o@),
        event matches AttemptEvent::LoopEnded(o) ==> outcome_after(event) == Some(o@),
{
}

/// Nothing is cleaned up that was not begun, and nothing twice. A driver is told to shut down
/// exactly where it served and still answers, and before its session is made invalid; the intake
/// of events is stopped before all else, and the process ends last.
pub proof fn cleaning_up_undoes_what_was_begun(event: AttemptEvent, unresponsive: bool)
    ensures
        ({
            let list = cleanup_after(event, unresponsive);
            &&& event is SpawnFailed ==> list.len() == 0
            &&& event is ConnectFailed ==> list.len() == 1 && list[0] is TerminateProcess
            &&& event is ConfigurationEnded || event is LoopEnded ==> {
                &&& list.first() is StopIngress
                &&& list.last() is TerminateProcess
                &&& list[list.len() - 2] is Unregister
                &&& list[list.len() - 3] is InvalidateSession
                &&& list.len() == (if event is LoopEnded && !unresponsive {
                    5int
                } else {
                    4int
                })
                &&& event is LoopEnded && !unresponsive ==> list[1] is PostShutdown
            }
        }),
{
}

/// An event can happen only at the stage that it is of.
pub proof fn events_belong_to_their_stage(stage: AttemptStage, event: AttemptEvent)
    ensures
        can_happen(stage, event) <==> match stage {
            AttemptStage::Spawning => event is Spawned || event is SpawnFailed,
            AttemptStage::Connecting => event is Connected || event is ConnectFailed,
            AttemptStage::Configuring => event is Configured || event is ConfigurationEnded,
            AttemptStage::Running => event is LoopEnded,
        },
{
}

/// A delay is told exactly where a batch says when it was sent, that is not after now, and it is
/// less than ten seconds; and it is the time between the two.
pub proof fn delays_are_told_when_they_make_sense(sent: Option<u64>, now: u64)
    ensures
        time_under_way(sent, now) is Some <==> (sent matches Some(t) && t <= now && now - t
            < 10_000_000_000),
        time_under_way(sent, now) matches Some(d) ==> sent->0 + d == now,
{
}

/// What a driver acknowledges stands in its answer to the step.
pub proof fn acknowledgements_stand_in_the_answer(
    r: Option<GenericResult>,
    handle: u32,
    s: SnapshotV,
    ns: u64,
)
    ensures
        ack_of(FrameBody::OpenConnectionAck(r)) == r,
        ack_of(FrameBody::ConfigApplied(r)) == r,
        ack_of(FrameBody::StartConnectionAck { handle, result: r }) == r,
        delay_noted(s, None) == s,
        delay_noted(s, Some(ns)).ipc_latencies_ns == delay_kept(s.ipc_latencies_ns, ns),
        delay_noted(s, Some(ns)).endpoints == s.endpoints,
{
}

/// What ends an attempt before it ran and what ends it after are told apart.
pub proof fn early_and_late_ends_are_told_apart(reason: Seq<char>)
    ensures
        lost_early(reason) == (AttemptV::Lost { reason, had_running_session: false }),
        lost_late(reason) == (AttemptV::Lost { reason, had_running_session: true }),
{
}

/// The epoch of a stream is mixed from the time, the process and how many streams there were, and
/// is above the last in any case.
pub proof fn epochs_are_mixed_from_time_process_and_count(
    now: u64,
    pid: u32,
    count: u64,
    last: u64,
)
    requires
        last < u64::MAX,
    ensures
        ({
            let mixed = now ^ ((pid as u64) << 32) ^ ((count * 0x9E37_79B9_7F4A_7C15)
                % 0x1_0000_0000_0000_0000) as u64;
            &&& mixed > last ==> stream_epoch(now, pid, count, last) == mixed
            &&& mixed <= last ==> stream_epoch(now, pid, count, last) == last + 1
        }),
        HANDLE == 1,
{
}

/// Points are defined as they were described, each under the id that is kept for its key.
pub proof fn points_are_defined_as_they_were_described(
    defs: Seq<PointDefinition>,
    ds: Seq<PointDescriptorProto>,
    known: Map<Seq<char>, u32>,
    i: int,
)
    requires
        defines_points(defs, ds, known),
        0 <= i < ds.len(),
    ensures
        defs.len() == ds.len(),
        defs[i].point_key@ == ds[i].point_key@,
        known.contains_key(ds[i].point_key@),
        defs[i].point_id == known[ds[i].point_key@],
        data_type_name(defs[i].data_type) == lowered(ds[i].data_type@),
        crate::schema::maybe_text(defs[i].unit) == crate::schema::maybe_text(ds[i].unit),
{
}

} // verus!
