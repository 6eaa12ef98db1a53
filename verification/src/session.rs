//! Sessions with drivers: the handshake, the heartbeat, where frames go, and what replies say.
use vstd::prelude::*;

use crate::event::{EventBatch, EventTask};
use crate::event_protocol::{event_batch_decoded, event_batch_from_pb, EventBatchV};
use crate::ids::IdTable;
use crate::pb::{
    DataBatchMsg, DetailV, ErrorDetail, EventBatchMsg, EventTaskProto, GenericResult,
    PointDescriptorProto, ValueMsg,
};
use crate::protocol::{
    batch_decoded, batch_from_pb, connection_state_from_pb, event_task_to_pb, negotiate,
    protocol_error_text, task_encoded, value_decoded, value_from_pb, BatchV, ProtocolError,
    EVENT_PLANE_MIN_MINOR, PROTOCOL_MAJOR, PROTOCOL_MINOR,
};
use crate::report::{report_read, ProbeReport};
use crate::text::{byte_len, byte_length, cat2, cat5, decimal, decimal_text, same_text};
use crate::types::{state_name, ConnectionState, DataBatch, TypedValue};

verus! {

// ---------------------------------------------------------------------------
// What can go wrong
// ---------------------------------------------------------------------------

/// What kind of failure the system reports of a connection.
#[derive(Debug, Clone, Copy, PartialEq, Eq, Structural)]
pub enum IoKind {
    ConnectionRefused,
    TimedOut,
    ConnectionReset,
    Other,
}

/// A failure that the system reports of a connection.
#[derive(Debug, Clone, PartialEq)]
pub struct IoFailure {
    pub kind: IoKind,
    pub message: String,
}

/// Why a session cannot be had, or a request was not answered.
#[derive(Debug, Clone, PartialEq)]
pub enum SessionError {
    Handshake(String),
    Timeout,
    Closed,
    Io(IoFailure),
    Protocol(ProtocolError),
    Driver { kind: String, code: String, message: String },
    EventPlaneUnsupported { negotiated: u32, required: u32 },
}

/// How an error of a driver reads.
pub open spec fn detail_text(d: DetailV) -> Seq<char> {
    d.kind + "/"@ + d.code + ": "@ + d.message
}

/// How a [`SessionError`] reads.
pub open spec fn session_error_text(e: SessionError) -> Seq<char> {
    match e {
        SessionError::Handshake(m) => "handshake failed: "@ + m@,
        SessionError::Timeout => "request timed out"@,
        SessionError::Closed => "session closed"@,
        SessionError::Io(f) => "io error: "@ + f.message@,
        SessionError::Protocol(p) => "protocol error: "@ + protocol_error_text(p),
        SessionError::Driver { kind, code, message } => "driver error "@ + (kind@ + "/"@ + code@
            + ": "@ + message@),
        SessionError::EventPlaneUnsupported { negotiated, required } =>
            "event plane unsupported (negotiated minor "@ + decimal(negotiated as nat) + " < "@
                + decimal(required as nat) + ")"@,
    }
}

impl SessionError {
    pub fn message(&self) -> (r: String)
        ensures
            r@ == session_error_text(*self),
    {
        match self {
            SessionError::Handshake(m) => cat2("handshake failed: ", m.as_str()),
            SessionError::Timeout => "request timed out".to_owned(),
            SessionError::Closed => "session closed".to_owned(),
            SessionError::Io(f) => cat2("io error: ", f.message.as_str()),
            SessionError::Protocol(p) => cat2("protocol error: ", p.message().as_str()),
            SessionError::Driver { kind, code, message } => {
                let detail: String = cat5(
                    kind.as_str(),
                    "/",
                    code.as_str(),
                    ": ",
                    message.as_str(),
                );
                cat2("driver error ", detail.as_str())
            },
            SessionError::EventPlaneUnsupported { negotiated, required } => cat5(
                "event plane unsupported (negotiated minor ",
                decimal_text(*negotiated as u64).as_str(),
                " < ",
                decimal_text(*required as u64).as_str(),
                ")",
            ),
        }
    }
}

/// How far a driver got when it failed to start.
#[derive(Debug, Clone, Copy, PartialEq, Eq, Structural)]
pub enum StartupStage {
    Spawn,
    Bind,
    Connect,
    Hello,
    Welcome,
}

/// The name of a [`StartupStage`].
pub open spec fn stage_name(s: StartupStage) -> Seq<char> {
    match s {
        StartupStage::Spawn => "spawn"@,
        StartupStage::Bind => "bind"@,
        StartupStage::Connect => "connect"@,
        StartupStage::Hello => "hello"@,
        StartupStage::Welcome => "welcome"@,
    }
}

impl StartupStage {
    pub fn as_str(&self) -> (r: &'static str)
        ensures
            r@ == stage_name(*self),
    {
        match self {
            StartupStage::Spawn => "spawn",
            StartupStage::Bind => "bind",
            StartupStage::Connect => "connect",
            StartupStage::Hello => "hello",
            StartupStage::Welcome => "welcome",
        }
    }
}

/// Why a session cannot be had, and how far it got.
#[derive(Debug, Clone, PartialEq)]
pub struct ConnectError {
    pub stage: StartupStage,
    pub source: SessionError,
}

// ---------------------------------------------------------------------------
// Connecting
// ---------------------------------------------------------------------------

/// How many events wait at most.
pub const EVENT_CAPACITY: usize = 1024;

/// How many batches of events wait at most.
pub const EVENT_BATCH_CAPACITY: usize = 128;

/// How long a request waits for its answer, in milliseconds.
pub const REQUEST_TIMEOUT_MS: u64 = 10_000;

/// How long a driver may take until it listens, in milliseconds.
pub const DRIVER_STARTUP_TIMEOUT_MS: u64 = 6_000;

/// How long a probe may take, in milliseconds.
pub const PROBE_TIMEOUT_MS: u64 = 12_000;

/// How the heartbeat goes.
#[derive(Debug, Clone, Copy, PartialEq, Eq, Structural)]
pub struct HeartbeatParams {
    pub ping_period_ms: u64,
    pub pong_deadline_ms: u64,
    pub max_missed: u32,
}

/// How the heartbeat goes, in haste or not.
pub open spec fn heartbeat_for(fast: bool) -> HeartbeatParams {
    if fast {
        HeartbeatParams { ping_period_ms: 1_000, pong_deadline_ms: 1_000, max_missed: 2 }
    } else {
        HeartbeatParams { ping_period_ms: 5_000, pong_deadline_ms: 3_000, max_missed: 3 }
    }
}

impl HeartbeatParams {
    /// How the heartbeat goes, in haste or not.
    pub fn for_haste(fast: bool) -> (r: HeartbeatParams)
        ensures
            r == heartbeat_for(fast),
    {
        if fast {
            HeartbeatParams { ping_period_ms: 1_000, pong_deadline_ms: 1_000, max_missed: 2 }
        } else {
            HeartbeatParams { ping_period_ms: 5_000, pong_deadline_ms: 3_000, max_missed: 3 }
        }
    }
}

impl Default for HeartbeatParams {
    fn default() -> (r: HeartbeatParams)
        ensures
            r == heartbeat_for(false),
    {
        HeartbeatParams::for_haste(false)
    }
}

/// The first frame of a driver.
#[derive(Debug, Clone, PartialEq)]
pub struct HelloMsg {
    pub session_token: String,
    pub protocol_major: u32,
    pub protocol_minor: u32,
    pub driver_id: String,
    pub instance_id: String,
    pub driver_version: String,
}

/// The answer to the first frame of a driver.
#[derive(Debug, Clone, PartialEq)]
pub struct WelcomeMsg {
    pub core_version: String,
    pub accepted_protocol_major: u32,
    pub accepted_protocol_minor: u32,
}

/// What comes of trying to connect and of waiting for the first frame.
#[derive(Debug, Clone, PartialEq)]
pub enum ConnectEvent {
    ConnectTimedOut,
    ConnectFailed(IoFailure),
    HelloTimedOut,
    HelloUnreadable(ProtocolError),
    NoHello,
    Hello(HelloMsg),
}

/// Whether an error is a failed handshake for a reason.
pub open spec fn is_handshake(e: SessionError, reason: Seq<char>) -> bool {
    e matches SessionError::Handshake(m) && m@ == reason
}

/// The minor version that is common to a driver and to this core.
pub open spec fn common_minor(hello: HelloMsg) -> u32 {
    if hello.protocol_minor < PROTOCOL_MINOR {
        hello.protocol_minor
    } else {
        PROTOCOL_MINOR
    }
}

/// Answers the first frame of a driver: its token must be the one that was handed to it, and its
/// major version must be ours.
pub fn connect_with_heartbeat(event: ConnectEvent, expected_token: &str, version: &str) -> (r: Result<
    (u32, WelcomeMsg),
    SessionError,
>)
    ensures
        match event {
            ConnectEvent::ConnectTimedOut => r is Err && r->Err_0 is Timeout,
            ConnectEvent::ConnectFailed(f) => r is Err && r->Err_0 == SessionError::Io(f),
            ConnectEvent::HelloTimedOut => r is Err && is_handshake(r->Err_0, "hello timeout"@),
            ConnectEvent::HelloUnreadable(p) => r is Err && r->Err_0 == SessionError::Protocol(p),
            ConnectEvent::NoHello => r is Err && is_handshake(
                r->Err_0,
                "first frame must be Hello"@,
            ),
            ConnectEvent::Hello(h) => if h.session_token@ != expected_token@ {
                r is Err && is_handshake(r->Err_0, "token mismatch"@)
            } else if h.protocol_major != PROTOCOL_MAJOR {
                r is Err && is_handshake(
                    r->Err_0,
                    "incompatible protocol major: driver="@ + decimal(h.protocol_major as nat)
                        + ", core="@ + decimal(PROTOCOL_MAJOR as nat),
                )
            } else {
                &&& r is Ok
                &&& r->Ok_0.0 == common_minor(h)
                &&& r->Ok_0.1.core_version@ == "Mesad v"@ + version@
                &&& r->Ok_0.1.accepted_protocol_major == PROTOCOL_MAJOR
                &&& r->Ok_0.1.accepted_protocol_minor == common_minor(h)
            },
        },
{
    let hello: HelloMsg = match event {
        ConnectEvent::ConnectTimedOut => {
            return Err(SessionError::Timeout);
        },
        ConnectEvent::ConnectFailed(f) => {
            return Err(SessionError::Io(f));
        },
        ConnectEvent::HelloTimedOut => {
            return Err(SessionError::Handshake("hello timeout".to_owned()));
        },
        ConnectEvent::HelloUnreadable(p) => {
            return Err(SessionError::Protocol(p));
        },
        ConnectEvent::NoHello => {
            return Err(SessionError::Handshake("first frame must be Hello".to_owned()));
        },
        ConnectEvent::Hello(h) => h,
    };
    if !same_text(hello.session_token.as_str(), expected_token) {
        return Err(SessionError::Handshake("token mismatch".to_owned()));
    }
    match negotiate(
        (hello.protocol_major, hello.protocol_minor),
        (PROTOCOL_MAJOR, PROTOCOL_MINOR),
    ) {
        Ok(v) => Ok(
            (
                v.1,
                WelcomeMsg {
                    core_version: cat2("Mesad v", version),
                    accepted_protocol_major: PROTOCOL_MAJOR,
                    accepted_protocol_minor: v.1,
                },
            ),
        ),
        Err(e) => Err(SessionError::Handshake(e.message())),
    }
}

/// Whether to try once more to connect: only where the driver may not listen yet, and as long as
/// there is time.
pub fn connect_retry(e: &SessionError, past_deadline: bool) -> (again: bool)
    ensures
        again <==> !past_deadline && (*e matches SessionError::Io(f) && !(f.kind is Other)),
{
    if past_deadline {
        return false;
    }
    match e {
        SessionError::Io(f) => match f.kind {
            IoKind::Other => false,
            _ => true,
        },
        _ => false,
    }
}

/// What a heartbeat comes to: how many answers were missed in a row, and whether the driver is
/// given up.
pub fn heartbeat(misses: u32, answered: bool, max_missed: u32) -> (r: (u32, bool))
    requires
        misses < u32::MAX,
    ensures
        answered ==> r == (0u32, false),
        !answered ==> r.0 == misses + 1 && r.1 == (misses + 1 >= max_missed),
{
    if answered {
        (0, false)
    } else {
        (misses + 1, misses + 1 >= max_missed)
    }
}

// ---------------------------------------------------------------------------
// Where frames go
// ---------------------------------------------------------------------------

/// What a driver tells of itself.
#[derive(Debug, Clone, PartialEq)]
pub enum SessionEvent {
    Batch(DataBatch),
    State { handle: u32, state: ConnectionState, detail: String },
    DriverError { handle: Option<u32>, kind: String, code: String, message: String },
}

/// What a [`SessionEvent`] is.
pub enum SessionEventV {
    Batch(BatchV),
    State { handle: u32, state: ConnectionState, detail: Seq<char> },
    DriverError { handle: Option<u32>, kind: Seq<char>, code: Seq<char>, message: Seq<char> },
}

impl View for SessionEvent {
    type V = SessionEventV;

    open spec fn view(&self) -> SessionEventV {
        match self {
            SessionEvent::Batch(b) => SessionEventV::Batch(b@),
            SessionEvent::State { handle, state, detail } => SessionEventV::State {
                handle: *handle,
                state: *state,
                detail: detail@,
            },
            SessionEvent::DriverError { handle, kind, code, message } =>
                SessionEventV::DriverError {
                handle: *handle,
                kind: kind@,
                code: code@,
                message: message@,
            },
        }
    }
}

/// A node that a driver offers for browsing.
#[derive(Debug, Clone, PartialEq)]
pub struct BrowseNode {
    pub id: String,
    pub label: String,
    pub kind: String,
    pub data_type: String,
    pub access: String,
    pub has_children: bool,
    pub binding_json: String,
}

/// What a frame of a driver holds.
#[derive(Debug, Clone, PartialEq)]
pub enum FrameBody {
    DataBatch(DataBatchMsg),
    EventBatch(EventBatchMsg),
    ConnectionStateChanged { handle: u32, state: String, detail: String },
    DriverError { handle: Option<u32>, detail: Option<ErrorDetail> },
    OpenConnectionAck(Option<GenericResult>),
    ConfigApplied(Option<GenericResult>),
    PointDescriptors(Vec<PointDescriptorProto>),
    StartConnectionAck { handle: u32, result: Option<GenericResult> },
    StopConnectionAck { handle: u32, result: Option<GenericResult> },
    CloseConnectionAck { handle: u32, result: Option<GenericResult> },
    EventConfigApplied(Option<GenericResult>),
    MetadataReport { driver_id: String, name: String, version: String },
    DescriptorReport { major: u32, minor: u32, descriptor_json: String },
    ProbeResponse(String),
    WriteResponse { result: Option<GenericResult>, readback: Option<ValueMsg> },
    CommandResponse { status: String, result_json: String, error: String },
    BrowseResponse { result: Option<GenericResult>, nodes: Vec<BrowseNode>, next_cursor: String },
    Other,
}

/// An error of a driver that may say nothing.
pub open spec fn detail_or_nothing(d: Option<ErrorDetail>) -> DetailV {
    match d {
        Some(x) => x@,
        None => DetailV { kind: Seq::empty(), code: Seq::empty(), message: Seq::empty() },
    }
}

pub(crate) fn detail_of(d: Option<ErrorDetail>) -> (r: ErrorDetail)
    ensures
        r@ == detail_or_nothing(d),
{
    match d {
        Some(x) => x,
        None => {
            let r: ErrorDetail = ErrorDetail {
                kind: String::new(),
                code: String::new(),
                message: String::new(),
            };
            assert(r@.kind =~= Seq::<char>::empty());
            assert(r@.code =~= Seq::<char>::empty());
            assert(r@.message =~= Seq::<char>::empty());
            r
        },
    }
}

/// Whether a result says that all went well.
pub open spec fn went_well(r: Option<GenericResult>) -> bool {
    r matches Some(x) && x.ok
}

fn all_well(r: &Option<GenericResult>) -> (b: bool)
    ensures
        b == went_well(*r),
{
    match r {
        Some(x) => x.ok,
        None => false,
    }
}

/// What a session keeps track of: which requests wait for an answer, which streams of events are
/// to begin and which have begun, and how the stream of events is doing.
pub struct SessionState {
    pending: IdTable<bool>,
    starts: IdTable<(u32, u64)>,
    epochs: IdTable<u64>,
    event_stream_dead: bool,
    event_overflow_drops: u64,
    event_decode_errors: u64,
    dropped_events: u64,
}

/// What a [`SessionState`] holds.
#[verifier::ext_equal]
pub struct SessionV {
    pub pending: Map<u64, bool>,
    pub starts: Map<u64, (u32, u64)>,
    pub epochs: Map<u64, u64>,
    pub event_stream_dead: bool,
    pub event_overflow_drops: u64,
    pub event_decode_errors: u64,
    pub dropped_events: u64,
}

impl View for SessionState {
    type V = SessionV;

    closed spec fn view(&self) -> SessionV {
        SessionV {
            pending: self.pending@,
            starts: self.starts@,
            epochs: self.epochs@,
            event_stream_dead: self.event_stream_dead,
            event_overflow_drops: self.event_overflow_drops,
            event_decode_errors: self.event_decode_errors,
            dropped_events: self.dropped_events,
        }
    }
}

/// The session after an answer was seen that begins or ends a stream of events. Only an answer
/// that says that all went well counts, and a stream begins only for the connection that it was
/// asked for.
pub open spec fn snooped(s: SessionV, msg_id: u64, body: FrameBody) -> SessionV {
    match body {
        FrameBody::StartConnectionAck { handle, result } => {
            let after = SessionV { starts: s.starts.remove(msg_id), ..s };
            if went_well(result) && s.starts.contains_key(msg_id) && s.starts[msg_id].0 == handle {
                SessionV { epochs: s.epochs.insert(handle as u64, s.starts[msg_id].1), ..after }
            } else {
                after
            }
        },
        FrameBody::StopConnectionAck { handle, result } => if went_well(result) {
            SessionV { epochs: s.epochs.remove(handle as u64), ..s }
        } else {
            s
        },
        FrameBody::CloseConnectionAck { handle, result } => if went_well(result) {
            SessionV { epochs: s.epochs.remove(handle as u64), ..s }
        } else {
            s
        },
        _ => s,
    }
}

/// Where a frame goes.
pub enum Routed {
    Reply(Option<SessionEvent>),
    Events(EventBatch),
    Event(SessionEvent),
    Nothing,
}

/// What a [`Routed`] is.
pub enum RoutedV {
    Reply(Option<SessionEventV>),
    Events(EventBatchV),
    Event(SessionEventV),
    Nothing,
}

impl View for Routed {
    type V = RoutedV;

    open spec fn view(&self) -> RoutedV {
        match self {
            Routed::Reply(Some(e)) => RoutedV::Reply(Some(e@)),
            Routed::Reply(None) => RoutedV::Reply(None),
            Routed::Events(b) => RoutedV::Events(b@),
            Routed::Event(e) => RoutedV::Event(e@),
            Routed::Nothing => RoutedV::Nothing,
        }
    }
}

/// The event that an error of a driver makes.
pub open spec fn error_event(handle: Option<u32>, detail: Option<ErrorDetail>) -> SessionEventV {
    let d = detail_or_nothing(detail);
    SessionEventV::DriverError { handle, kind: d.kind, code: d.code, message: d.message }
}

/// Whether a request waits for the answer that a frame is.
pub open spec fn is_awaited(s: SessionV, msg_id: u64) -> bool {
    msg_id != 0 && s.pending.contains_key(msg_id)
}

/// Where a frame goes. An answer goes to who waits for it, and an error also to who listens. A
/// batch of events goes its own way, unless the stream is dead or the batch cannot be read. Data,
/// states and errors go to who listens. All else goes nowhere.
pub open spec fn routed(s: SessionV, msg_id: u64, body: FrameBody) -> RoutedV {
    if is_awaited(s, msg_id) {
        match body {
            FrameBody::DriverError { handle, detail } => RoutedV::Reply(
                Some(error_event(handle, detail)),
            ),
            _ => RoutedV::Reply(None),
        }
    } else {
        match body {
            FrameBody::EventBatch(b) => if s.event_stream_dead {
                RoutedV::Nothing
            } else {
                match event_batch_decoded(b@) {
                    Ok(x) => RoutedV::Events(x),
                    Err(e) => RoutedV::Nothing,
                }
            },
            FrameBody::DataBatch(b) => match batch_decoded(b@) {
                Ok(x) => RoutedV::Event(SessionEventV::Batch(x)),
                Err(e) => RoutedV::Nothing,
            },
            FrameBody::ConnectionStateChanged { handle, state, detail } => match state_of(
                state@,
            ) {
                Some(c) => RoutedV::Event(
                    SessionEventV::State { handle, state: c, detail: detail@ },
                ),
                None => RoutedV::Nothing,
            },
            FrameBody::DriverError { handle, detail } => RoutedV::Event(
                error_event(handle, detail),
            ),
            _ => RoutedV::Nothing,
        }
    }
}

/// The state that a name stands for.
pub open spec fn state_of(name: Seq<char>) -> Option<ConnectionState> {
    if name == state_name(ConnectionState::Stopped) {
        Some(ConnectionState::Stopped)
    } else if name == state_name(ConnectionState::Connecting) {
        Some(ConnectionState::Connecting)
    } else if name == state_name(ConnectionState::Running) {
        Some(ConnectionState::Running)
    } else if name == state_name(ConnectionState::Reconnecting) {
        Some(ConnectionState::Reconnecting)
    } else if name == state_name(ConnectionState::Failed) {
        Some(ConnectionState::Failed)
    } else {
        None
    }
}

proof fn lemma_state_of(c: ConnectionState)
    ensures
        state_of(state_name(c)) == Some(c),
{
    reveal_strlit("STOPPED");
    reveal_strlit("CONNECTING");
    reveal_strlit("RUNNING");
    reveal_strlit("RECONNECTING");
    reveal_strlit("FAILED");
    assert("STOPPED"@[0] == 'S');
    assert("CONNECTING"@[0] == 'C');
    assert("RUNNING"@[1] == 'U');
    assert("RECONNECTING"@[1] == 'E');
    assert("RUNNING"@[0] == 'R');
    assert("RECONNECTING"@[0] == 'R');
    assert("FAILED"@[0] == 'F');
}

/// A count that starts again at zero when there is no room.
pub open spec fn one_more(n: u64) -> u64 {
    ((n + 1) % 0x1_0000_0000_0000_0000) as u64
}

/// The session after a frame.
pub open spec fn after_frame(s: SessionV, msg_id: u64, body: FrameBody) -> SessionV {
    if is_awaited(s, msg_id) {
        snooped(SessionV { pending: s.pending.remove(msg_id), ..s }, msg_id, body)
    } else {
        match body {
            FrameBody::EventBatch(b) => if !s.event_stream_dead && event_batch_decoded(b@) is Err {
                SessionV { event_decode_errors: one_more(s.event_decode_errors), ..s }
            } else {
                s
            },
            _ => s,
        }
    }
}

/// What became of a batch of events that was handed on.
#[derive(Debug, Clone, Copy, PartialEq, Eq, Structural)]
pub enum SendOutcome {
    Sent,
    Full,
    Closed,
}

/// The session after a batch of events was handed on. Where it could not be, the stream is dead.
pub open spec fn after_send(s: SessionV, outcome: SendOutcome) -> SessionV {
    match outcome {
        SendOutcome::Sent => s,
        SendOutcome::Full => SessionV {
            event_stream_dead: true,
            event_overflow_drops: one_more(s.event_overflow_drops),
            ..s
        },
        SendOutcome::Closed => SessionV { event_stream_dead: true, ..s },
    }
}

/// Whether a batch of events belongs to the stream that has begun for its connection.
pub open spec fn is_current(s: SessionV, handle: u32, epoch: u64) -> bool {
    s.epochs.contains_key(handle as u64) && s.epochs[handle as u64] == epoch
}

fn error_of(handle: Option<u32>, detail: Option<ErrorDetail>) -> (r: SessionEvent)
    ensures
        r@ == error_event(handle, detail),
{
    let d: ErrorDetail = detail_of(detail);
    SessionEvent::DriverError { handle, kind: d.kind, code: d.code, message: d.message }
}

impl SessionState {
    /// The state of a new session.
    pub fn new() -> (r: SessionState)
        ensures
            r@ == (SessionV {
                pending: Map::empty(),
                starts: Map::empty(),
                epochs: Map::empty(),
                event_stream_dead: false,
                event_overflow_drops: 0,
                event_decode_errors: 0,
                dropped_events: 0,
            }),
    {
        SessionState {
            pending: IdTable::new(),
            starts: IdTable::new(),
            epochs: IdTable::new(),
            event_stream_dead: false,
            event_overflow_drops: 0,
            event_decode_errors: 0,
            dropped_events: 0,
        }
    }

    /// Says that a request waits for its answer.
    pub fn register(&mut self, id: u64)
        ensures
            final(self)@ == (SessionV { pending: old(self)@.pending.insert(id, true), ..old(self)@ }),
    {
        self.pending.set(id, true);
    }

    /// Says that a request no longer waits.
    pub fn unregister(&mut self, id: u64)
        ensures
            final(self)@ == (SessionV { pending: old(self)@.pending.remove(id), ..old(self)@ }),
    {
        let _ = self.pending.remove(id);
    }

    /// Says that a stream of events is asked for by a request.
    pub fn register_start(&mut self, id: u64, handle: u32, epoch: u64)
        ensures
            final(self)@ == (SessionV {
                starts: old(self)@.starts.insert(id, (handle, epoch)),
                ..old(self)@
            }),
    {
        self.starts.set(id, (handle, epoch));
    }

    fn snoop_lifecycle_ack(&mut self, msg_id: u64, body: &FrameBody)
        ensures
            final(self)@ == snooped(old(self)@, msg_id, *body),
    {
        let ghost before = self@;
        match body {
            FrameBody::StartConnectionAck { handle, result } => {
                let start: Option<(u32, u64)> = self.starts.take(msg_id);
                if all_well(result) {
                    match start {
                        Some(x) => {
                            if x.0 == *handle {
                                self.epochs.set(*handle as u64, x.1);
                            }
                        },
                        None => {},
                    }
                }
            },
            FrameBody::StopConnectionAck { handle, result } => {
                if all_well(result) {
                    let _ = self.epochs.remove(*handle as u64);
                }
            },
            FrameBody::CloseConnectionAck { handle, result } => {
                if all_well(result) {
                    let _ = self.epochs.remove(*handle as u64);
                }
            },
            _ => {},
        }
        assert(self@ =~= snooped(before, msg_id, *body));
    }

    /// Takes a frame and says where it goes.
    pub fn reader_loop(&mut self, msg_id: u64, body: FrameBody) -> (r: Routed)
        ensures
            r@ == routed(old(self)@, msg_id, body),
            final(self)@ == after_frame(old(self)@, msg_id, body),
    {
        if msg_id != 0 && self.pending.has(msg_id) {
            let _ = self.pending.remove(msg_id);
            self.snoop_lifecycle_ack(msg_id, &body);
            return match body {
                FrameBody::DriverError { handle, detail } => Routed::Reply(
                    Some(error_of(handle, detail)),
                ),
                _ => Routed::Reply(None),
            };
        }
        match body {
            FrameBody::EventBatch(b) => {
                if self.event_stream_dead {
                    return Routed::Nothing;
                }
                match event_batch_from_pb(b) {
                    Ok(batch) => Routed::Events(batch),
                    Err(_) => {
                        self.event_decode_errors = self.event_decode_errors.wrapping_add(1);
                        Routed::Nothing
                    },
                }
            },
            FrameBody::DataBatch(b) => match batch_from_pb(b) {
                Ok(batch) => Routed::Event(SessionEvent::Batch(batch)),
                Err(_) => Routed::Nothing,
            },
            FrameBody::ConnectionStateChanged { handle, state, detail } => {
                match connection_state_from_pb(state.as_str()) {
                    Ok(c) => {
                        proof {
                            lemma_state_of(c);
                        }
                        Routed::Event(SessionEvent::State { handle, state: c, detail })
                    },
                    Err(_) => Routed::Nothing,
                }
            },
            FrameBody::DriverError { handle, detail } => Routed::Event(error_of(handle, detail)),
            _ => Routed::Nothing,
        }
    }

    /// Says what became of a batch of events that was handed on.
    pub fn events_sent(&mut self, outcome: SendOutcome)
        ensures
            final(self)@ == after_send(old(self)@, outcome),
    {
        match outcome {
            SendOutcome::Sent => {},
            SendOutcome::Full => {
                self.event_overflow_drops = self.event_overflow_drops.wrapping_add(1);
                self.event_stream_dead = true;
            },
            SendOutcome::Closed => {
                self.event_stream_dead = true;
            },
        }
    }

    /// Says that an event found nobody who takes it, and tells whether that is worth a word.
    pub fn event_dropped(&mut self) -> (warn: bool)
        ensures
            final(self)@ == (SessionV {
                dropped_events: one_more(old(self)@.dropped_events),
                ..old(self)@
            }),
            warn == (one_more(old(self)@.dropped_events) % 1000 == 1),
    {
        self.dropped_events = self.dropped_events.wrapping_add(1);
        self.dropped_events % 1000 == 1
    }

    /// Whether a batch of events belongs to the stream that has begun for its connection.
    pub fn batch_active(&self, b: &EventBatch) -> (r: bool)
        ensures
            r == is_current(self@, b.connection_handle, b.stream_epoch),
    {
        match self.epochs.get(b.connection_handle as u64) {
            Some(e) => *e == b.stream_epoch,
            None => false,
        }
    }

    /// Whether the stream of events is dead.
    pub fn event_stream_failed(&self) -> (r: bool)
        ensures
            r == self@.event_stream_dead,
    {
        self.event_stream_dead
    }

    pub fn event_overflow_drops(&self) -> (r: u64)
        ensures
            r == self@.event_overflow_drops,
    {
        self.event_overflow_drops
    }

    pub fn event_decode_errors(&self) -> (r: u64)
        ensures
            r == self@.event_decode_errors,
    {
        self.event_decode_errors
    }
}

/// Once a connection is known to have stopped or to be closed, no batch of events of it is
/// current.
pub proof fn nothing_is_current_after_a_stop(
    s: SessionV,
    msg_id: u64,
    handle: u32,
    result: Option<GenericResult>,
    epoch: u64,
)
    requires
        is_awaited(s, msg_id),
        went_well(result),
    ensures
        !is_current(
            after_frame(s, msg_id, FrameBody::StopConnectionAck { handle, result }),
            handle,
            epoch,
        ),
        !is_current(
            after_frame(s, msg_id, FrameBody::CloseConnectionAck { handle, result }),
            handle,
            epoch,
        ),
{
}

/// Once a connection is known to have started, the stream that was asked for is current, and no
/// other one of that connection.
pub proof fn the_started_stream_is_current(
    s: SessionV,
    msg_id: u64,
    handle: u32,
    epoch: u64,
    result: Option<GenericResult>,
    other: u64,
)
    requires
        is_awaited(s, msg_id),
        s.starts.contains_key(msg_id),
        s.starts[msg_id] == (handle, epoch),
        went_well(result),
    ensures
        is_current(
            after_frame(s, msg_id, FrameBody::StartConnectionAck { handle, result }),
            handle,
            other,
        ) <==> other == epoch,
{
}

/// An answer that says that something failed changes no stream of events.
pub proof fn failed_answers_change_no_stream(
    s: SessionV,
    msg_id: u64,
    handle: u32,
    result: Option<GenericResult>,
)
    requires
        !went_well(result),
    ensures
        after_frame(s, msg_id, FrameBody::StartConnectionAck { handle, result }).epochs == s.epochs,
        after_frame(s, msg_id, FrameBody::StopConnectionAck { handle, result }).epochs == s.epochs,
        after_frame(s, msg_id, FrameBody::CloseConnectionAck { handle, result }).epochs
            == s.epochs,
{
}

/// A dead stream of events stays dead, and nothing is handed on any more.
pub proof fn dead_streams_stay_dead(
    s: SessionV,
    msg_id: u64,
    body: FrameBody,
    outcome: SendOutcome,
)
    requires
        s.event_stream_dead,
    ensures
        after_frame(s, msg_id, body).event_stream_dead,
        after_send(s, outcome).event_stream_dead,
        !(routed(s, msg_id, body) is Events),
{
}

/// A batch of events is never handed to who listens for data.
pub proof fn events_go_their_own_way(s: SessionV, msg_id: u64, b: EventBatchMsg)
    ensures
        !(routed(s, msg_id, FrameBody::EventBatch(b)) is Event),
{
}

// ---------------------------------------------------------------------------
// What replies say
// ---------------------------------------------------------------------------

/// Whether an error is what a driver says.
pub open spec fn is_driver_error(e: SessionError, d: DetailV) -> bool {
    e matches SessionError::Driver { kind, code, message } && kind@ == d.kind && code@ == d.code
        && message@ == d.message
}

fn driver_error(d: ErrorDetail) -> (r: SessionError)
    ensures
        is_driver_error(r, d@),
{
    SessionError::Driver { kind: d.kind, code: d.code, message: d.message }
}

/// What some event tasks are to a driver.
pub open spec fn event_tasks_encoded(msgs: Seq<EventTaskProto>, tasks: Seq<EventTask>) -> bool {
    msgs.len() == tasks.len() && forall|i: int|
        0 <= i < msgs.len() ==> (#[trigger] msgs[i])@ == task_encoded(tasks[i]@)
}

/// What to ask of a driver so that it delivers events: nothing where there are no tasks. A driver
/// that is too old is not asked.
pub fn configure_events(negotiated_minor: u32, tasks: &[EventTask]) -> (r: Result<
    Option<Vec<EventTaskProto>>,
    SessionError,
>)
    ensures
        match r {
            Ok(None) => tasks@.len() == 0,
            Ok(Some(msgs)) => tasks@.len() > 0 && negotiated_minor >= EVENT_PLANE_MIN_MINOR
                && event_tasks_encoded(msgs@, tasks@),
            Err(e) => tasks@.len() > 0 && negotiated_minor < EVENT_PLANE_MIN_MINOR && e
                == (SessionError::EventPlaneUnsupported {
                negotiated: negotiated_minor,
                required: EVENT_PLANE_MIN_MINOR,
            }),
        },
{
    if tasks.len() == 0 {
        return Ok(None);
    }
    if negotiated_minor < EVENT_PLANE_MIN_MINOR {
        return Err(
            SessionError::EventPlaneUnsupported {
                negotiated: negotiated_minor,
                required: EVENT_PLANE_MIN_MINOR,
            },
        );
    }
    let mut out: Vec<EventTaskProto> = Vec::new();
    let mut i: usize = 0;
    while i < tasks.len()
        invariant
            i <= tasks.len(),
            out@.len() == i,
            forall|j: int| 0 <= j < i ==> (#[trigger] out@[j])@ == task_encoded(tasks@[j]@),
        decreases tasks.len() - i,
    {
        out.push(event_task_to_pb(&tasks[i]));
        i = i + 1;
    }
    Ok(Some(out))
}

/// What an answer to the configuration of event tasks says.
pub fn events_configured(body: FrameBody) -> (r: Result<(), SessionError>)
    ensures
        match body {
            FrameBody::EventConfigApplied(Some(x)) => if x.ok {
                r is Ok
            } else {
                r is Err && is_driver_error(r->Err_0, detail_or_nothing(x.error))
            },
            _ => r is Err && r->Err_0 is Closed,
        },
{
    match body {
        FrameBody::EventConfigApplied(Some(x)) => if x.ok {
            Ok(())
        } else {
            Err(driver_error(detail_of(x.error)))
        },
        _ => Err(SessionError::Closed),
    }
}

/// What a driver says of itself.
pub fn metadata(body: FrameBody) -> (r: Result<(String, String, String), SessionError>)
    ensures
        match body {
            FrameBody::MetadataReport { driver_id, name, version } => r == Ok::<
                (String, String, String),
                SessionError,
            >((driver_id, name, version)),
            _ => r is Err && r->Err_0 is Closed,
        },
{
    match body {
        FrameBody::MetadataReport { driver_id, name, version } => Ok((driver_id, name, version)),
        _ => Err(SessionError::Closed),
    }
}

/// How long a descriptor may be, in bytes.
pub const DESCRIPTOR_MAX_BYTES: usize = 262_144;

/// The descriptor that a driver gives.
pub fn get_descriptor(body: FrameBody) -> (r: Result<(u32, u32, String), SessionError>)
    ensures
        match body {
            FrameBody::DescriptorReport { major, minor, descriptor_json } => if byte_length(
                descriptor_json@,
            ) > DESCRIPTOR_MAX_BYTES {
                r is Err && is_handshake(r->Err_0, "descriptor too large"@)
            } else {
                r == Ok::<(u32, u32, String), SessionError>((major, minor, descriptor_json))
            },
            _ => r is Err && r->Err_0 is Closed,
        },
{
    match body {
        FrameBody::DescriptorReport { major, minor, descriptor_json } => if byte_len(
            descriptor_json.as_str(),
        ) > DESCRIPTOR_MAX_BYTES {
            Err(SessionError::Handshake("descriptor too large".to_owned()))
        } else {
            Ok((major, minor, descriptor_json))
        },
        _ => Err(SessionError::Closed),
    }
}

/// The report that a driver gives of a device.
pub fn probe(body: FrameBody) -> (r: Result<ProbeReport, SessionError>)
    ensures
        match body {
            FrameBody::ProbeResponse(json) => match report_read(json@) {
                Ok(v) => r is Ok && r->Ok_0@ == v,
                Err(e) => r is Err && is_handshake(r->Err_0, e),
            },
            FrameBody::DriverError { handle, detail } => r is Err && is_driver_error(
                r->Err_0,
                detail_or_nothing(detail),
            ),
            _ => r is Err && r->Err_0 is Closed,
        },
{
    match body {
        FrameBody::ProbeResponse(json) => match ProbeReport::from_report_json(json.as_str()) {
            Ok(v) => Ok(v),
            Err(e) => Err(SessionError::Handshake(e)),
        },
        FrameBody::DriverError { handle: _, detail } => Err(driver_error(detail_of(detail))),
        _ => Err(SessionError::Closed),
    }
}

/// Whether a result says that something failed.
pub open spec fn went_wrong(r: Option<GenericResult>) -> bool {
    r matches Some(x) && !x.ok
}

/// What went wrong according to a result.
pub open spec fn wrong_text(r: Option<GenericResult>) -> Seq<char> {
    match r {
        Some(x) => detail_text(detail_or_nothing(x.error)),
        None => Seq::empty(),
    }
}

fn refusal(r: Option<GenericResult>) -> (e: Option<SessionError>)
    ensures
        match e {
            Some(x) => went_wrong(r) && is_handshake(x, wrong_text(r)),
            None => !went_wrong(r),
        },
{
    match r {
        Some(x) => if x.ok {
            None
        } else {
            let d: ErrorDetail = detail_of(x.error);
            Some(
                SessionError::Handshake(
                    cat5(d.kind.as_str(), "/", d.code.as_str(), ": ", d.message.as_str()),
                ),
            )
        },
        None => None,
    }
}

/// What a driver read back after a write, if it did.
pub fn write(body: FrameBody) -> (r: Result<Option<TypedValue>, SessionError>)
    ensures
        match body {
            FrameBody::WriteResponse { result, readback } => if went_wrong(result) {
                r is Err && is_handshake(r->Err_0, wrong_text(result))
            } else {
                match readback {
                    None => r is Ok && r->Ok_0 is None,
                    Some(v) => match value_decoded(v@) {
                        Ok(x) => r is Ok && (r->Ok_0 matches Some(y) && y@ == x),
                        Err(f) => r is Err && is_handshake(
                            r->Err_0,
                            crate::protocol::convert_fault_text(f),
                        ),
                    },
                }
            },
            _ => r is Err && r->Err_0 is Closed,
        },
{
    match body {
        FrameBody::WriteResponse { result, readback } => {
            match refusal(result) {
                Some(e) => {
                    return Err(e);
                },
                None => {},
            }
            match readback {
                None => Ok(None),
                Some(v) => match value_from_pb(v) {
                    Ok(x) => Ok(Some(x)),
                    Err(e) => Err(SessionError::Handshake(e.message())),
                },
            }
        },
        _ => Err(SessionError::Closed),
    }
}

/// What came of a command: how it ended, its result, and its error.
pub fn command(body: FrameBody) -> (r: Result<(String, String, String), SessionError>)
    ensures
        match body {
            FrameBody::CommandResponse { status, result_json, error } => r == Ok::<
                (String, String, String),
                SessionError,
            >((status, result_json, error)),
            _ => r is Err && r->Err_0 is Closed,
        },
{
    match body {
        FrameBody::CommandResponse { status, result_json, error } => Ok(
            (status, result_json, error),
        ),
        _ => Err(SessionError::Closed),
    }
}

/// The nodes that a driver offers, and where to go on.
pub fn browse(body: FrameBody) -> (r: Result<(Vec<BrowseNode>, Option<String>), SessionError>)
    ensures
        match body {
            FrameBody::BrowseResponse { result, nodes, next_cursor } => if went_wrong(result) {
                r is Err && is_handshake(r->Err_0, wrong_text(result))
            } else {
                &&& r is Ok
                &&& r->Ok_0.0 == nodes
                &&& r->Ok_0.1 is None <==> next_cursor@.len() == 0
                &&& r->Ok_0.1 matches Some(c) ==> c == next_cursor
            },
            _ => r is Err && r->Err_0 is Closed,
        },
{
    match body {
        FrameBody::BrowseResponse { result, nodes, next_cursor } => {
            match refusal(result) {
                Some(e) => {
                    return Err(e);
                },
                None => {},
            }
            let next: Option<String> = if same_text(next_cursor.as_str(), "") {
                None
            } else {
                Some(next_cursor)
            };
            proof {
                reveal_strlit("");
                assert(next_cursor@.len() == 0 ==> next_cursor@ =~= ""@);
            }
            Ok((nodes, next))
        },
        _ => Err(SessionError::Closed),
    }
}

/// How a session that failed reads, and how a stage of the start is called.
pub proof fn failed_sessions_read_so(m: String, f: IoFailure, p: ProtocolError)
    ensures
        session_error_text(SessionError::Handshake(m)) == "handshake failed: "@ + m@,
        session_error_text(SessionError::Timeout) == "request timed out"@,
        session_error_text(SessionError::Closed) == "session closed"@,
        session_error_text(SessionError::Io(f)) == "io error: "@ + f.message@,
        session_error_text(SessionError::Protocol(p)) == "protocol error: "@ + protocol_error_text(
            p,
        ),
        session_error_text((SessionError::Driver { kind: m, code: m, message: m }))
            == "driver error "@ + (m@ + "/"@ + m@ + ": "@ + m@),
        stage_name(StartupStage::Spawn) == "spawn"@,
        stage_name(StartupStage::Bind) == "bind"@,
        stage_name(StartupStage::Connect) == "connect"@,
        stage_name(StartupStage::Hello) == "hello"@,
        stage_name(StartupStage::Welcome) == "welcome"@,
{
}

/// How often a driver is asked whether it is there, how long it may take, and how often it may
/// miss.
pub proof fn heartbeats_are_these()
    ensures
        heartbeat_for(true).ping_period_ms == 1_000,
        heartbeat_for(true).pong_deadline_ms == 1_000,
        heartbeat_for(true).max_missed == 2,
        heartbeat_for(false).ping_period_ms == 5_000,
        heartbeat_for(false).pong_deadline_ms == 3_000,
        heartbeat_for(false).max_missed == 3,
{
}

/// Both sides speak the smaller of the two minor versions.
pub proof fn the_smaller_version_is_spoken(hello: HelloMsg)
    ensures
        common_minor(hello) <= hello.protocol_minor,
        common_minor(hello) <= PROTOCOL_MINOR,
        common_minor(hello) == hello.protocol_minor || common_minor(hello) == PROTOCOL_MINOR,
{
}

/// An error that says nothing has nothing to say.
pub proof fn errors_say_what_they_hold(x: ErrorDetail)
    ensures
        detail_or_nothing(Some(x)) == x@,
        detail_or_nothing(None).kind.len() == 0,
        detail_or_nothing(None).code.len() == 0,
        detail_or_nothing(None).message.len() == 0,
{
}

/// Streams are begun and ended by what the driver acknowledges: a start that was asked for on that
/// handle makes its epoch the current one, a stop or a close ends it, and a refusal ends nothing.
pub proof fn streams_begin_and_end_when_they_are_acknowledged(
    s: SessionV,
    msg_id: u64,
    handle: u32,
    result: Option<GenericResult>,
)
    ensures
        ({
            let ok = result is Some && result->Some_0.ok;
            let started = snooped(s, msg_id, FrameBody::StartConnectionAck { handle, result });
            let stopped = snooped(s, msg_id, FrameBody::StopConnectionAck { handle, result });
            let closed = snooped(s, msg_id, FrameBody::CloseConnectionAck { handle, result });
            &&& started.starts == s.starts.remove(msg_id)
            &&& ok && s.starts.contains_key(msg_id) && s.starts[msg_id].0 == handle
                ==> started.epochs == s.epochs.insert(handle as u64, s.starts[msg_id].1)
            &&& !(ok && s.starts.contains_key(msg_id) && s.starts[msg_id].0 == handle)
                ==> started.epochs == s.epochs
            &&& ok ==> stopped.epochs == s.epochs.remove(handle as u64)
            &&& ok ==> closed.epochs == s.epochs.remove(handle as u64)
            &&& !ok ==> stopped == s && closed == s
            &&& stopped.starts == s.starts
            &&& closed.starts == s.starts
            &&& started.pending == s.pending
            &&& started.event_stream_dead == s.event_stream_dead
        }),
{
}

/// Any other answer changes nothing of the streams.
pub proof fn other_answers_change_no_stream(s: SessionV, msg_id: u64, body: FrameBody)
    requires
        !(body is StartConnectionAck),
        !(body is StopConnectionAck),
        !(body is CloseConnectionAck),
    ensures
        snooped(s, msg_id, body) == s,
{
}

/// A frame is an answer exactly where it has a number and somebody waits for that number.
pub proof fn answers_go_to_those_who_wait(s: SessionV, msg_id: u64, body: FrameBody)
    ensures
        is_awaited(s, msg_id) <==> msg_id != 0 && s.pending.contains_key(msg_id),
        routed(s, msg_id, body) is Reply <==> is_awaited(s, msg_id),
        is_awaited(s, msg_id) && !(body is DriverError) ==> routed(s, msg_id, body)
            == RoutedV::Reply(None),
        is_awaited(s, msg_id) ==> !after_frame(s, msg_id, body).pending.contains_key(msg_id),
        !is_awaited(s, msg_id) ==> after_frame(s, msg_id, body).pending == s.pending,
        !is_awaited(s, msg_id) ==> after_frame(s, msg_id, body).epochs == s.epochs,
{
}

/// Where what a driver says of itself goes: values, states and errors to those who follow the
/// connection, events their own way; what cannot be read goes nowhere.
pub proof fn what_drivers_say_goes_its_way(
    s: SessionV,
    msg_id: u64,
    handle: u32,
    state: String,
    detail: String,
    h: Option<u32>,
    e: Option<ErrorDetail>,
)
    requires
        !is_awaited(s, msg_id),
    ensures
        forall|b: DataBatchMsg|
            #![trigger routed(s, msg_id, FrameBody::DataBatch(b))]
            match batch_decoded(b@) {
                Ok(x) => routed(s, msg_id, FrameBody::DataBatch(b)) == RoutedV::Event(
                    SessionEventV::Batch(x),
                ),
                Err(_) => routed(s, msg_id, FrameBody::DataBatch(b)) is Nothing,
            },
        state_of(state@) matches Some(c) ==> routed(
            s,
            msg_id,
            FrameBody::ConnectionStateChanged { handle, state, detail },
        ) == RoutedV::Event((SessionEventV::State { handle, state: c, detail: detail@ })),
        state_of(state@) is None ==> routed(
            s,
            msg_id,
            FrameBody::ConnectionStateChanged { handle, state, detail },
        ) is Nothing,
        routed(s, msg_id, FrameBody::DriverError { handle: h, detail: e }) == RoutedV::Event(
            (SessionEventV::DriverError {
                handle: h,
                kind: detail_or_nothing(e).kind,
                code: detail_or_nothing(e).code,
                message: detail_or_nothing(e).message,
            }),
        ),
{
}

/// Each state is told by its name, and no other text is a state.
pub proof fn states_are_told_by_name(name: Seq<char>)
    ensures
        name == "STOPPED"@ ==> state_of(name) == Some(ConnectionState::Stopped),
        name == "CONNECTING"@ ==> state_of(name) == Some(ConnectionState::Connecting),
        name == "RUNNING"@ ==> state_of(name) == Some(ConnectionState::Running),
        name == "RECONNECTING"@ ==> state_of(name) == Some(ConnectionState::Reconnecting),
        name == "FAILED"@ ==> state_of(name) == Some(ConnectionState::Failed),
        name != "STOPPED"@ && name != "CONNECTING"@ && name != "RUNNING"@ && name
            != "RECONNECTING"@ && name != "FAILED"@ ==> state_of(name) is None,
{
    reveal_strlit("STOPPED");
    reveal_strlit("CONNECTING");
    reveal_strlit("RUNNING");
    reveal_strlit("RECONNECTING");
    reveal_strlit("FAILED");
    assert("STOPPED"@.len() == 7);
    assert("CONNECTING"@.len() == 10);
    assert("RUNNING"@.len() == 7);
    assert("RECONNECTING"@.len() == 12);
    assert("FAILED"@.len() == 6);
    assert("STOPPED"@[0] == 'S');
    assert("RUNNING"@[0] == 'R');
}

/// Events that overflow or whose reader is gone end their stream; those that are sent do not.
pub proof fn streams_end_when_events_cannot_be_sent(s: SessionV)
    ensures
        after_send(s, SendOutcome::Sent) == s,
        after_send(s, SendOutcome::Full).event_stream_dead,
        after_send(s, SendOutcome::Closed).event_stream_dead,
        s.event_overflow_drops < u64::MAX ==> after_send(s, SendOutcome::Full).event_overflow_drops
            == s.event_overflow_drops + 1,
        after_send(s, SendOutcome::Closed).event_overflow_drops == s.event_overflow_drops,
{
}

/// Events are of the current stream exactly where their handle has an epoch and it is theirs.
pub proof fn events_are_current_by_handle_and_epoch(s: SessionV, handle: u32, epoch: u64)
    ensures
        is_current(s, handle, epoch) <==> s.epochs.contains_key(handle as u64) && s.epochs[handle as u64]
            == epoch,
{
}

/// What went wrong with a request is what the driver says of it, where it says that it did.
pub proof fn refused_requests_are_told_by_the_driver(x: GenericResult, e: SessionError, d: DetailV)
    ensures
        went_wrong(Some(x)) <==> !x.ok,
        !went_wrong(None),
        went_well(Some(x)) <==> x.ok,
        !went_well(None),
        wrong_text(Some(x)) == detail_or_nothing(x.error).kind + "/"@ + detail_or_nothing(
            x.error,
        ).code + ": "@ + detail_or_nothing(x.error).message,
        is_driver_error(e, d) <==> (e matches SessionError::Driver { kind, code, message } && kind@
            == d.kind && code@ == d.code && message@ == d.message),
        forall|m: Seq<char>| #[trigger]
            is_handshake(e, m) <==> (e matches SessionError::Handshake(t) && t@ == m),
{
}

/// Tasks for events are sent one by one, each as itself.
pub proof fn event_tasks_are_sent_one_by_one(
    msgs: Seq<EventTaskProto>,
    tasks: Seq<EventTask>,
    i: int,
)
    requires
        event_tasks_encoded(msgs, tasks),
        0 <= i < tasks.len(),
    ensures
        msgs.len() == tasks.len(),
        msgs[i]@ == task_encoded(tasks[i]@),
{
}

/// How much a session holds back, and how long it waits.
pub proof fn sessions_keep_to_these_limits()
    ensures
        EVENT_CAPACITY == 1024,
        EVENT_BATCH_CAPACITY == 128,
        REQUEST_TIMEOUT_MS == 10_000,
        DRIVER_STARTUP_TIMEOUT_MS == 6_000,
        PROBE_TIMEOUT_MS == 12_000,
        DESCRIPTOR_MAX_BYTES == 262_144,
{
}

} // verus!
