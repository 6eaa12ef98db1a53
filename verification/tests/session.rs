use mesa::endpoint::{
    attempt_session, event_loop, new_stream_epoch, open_request, reconnect_backoff_secs,
    run_config_flow, run_endpoint, AttemptAction, AttemptEvent, AttemptOutcome, AttemptStage,
    BuiltinEndpoint, Cleanup, ConfigFlow, ConfigRequest, ConfigStep, FlowNext, FlowReply,
    IngressEnd, LoopAction, LoopEvent, RunStep,
};
use mesa::event::{EventBatch, EventTask};
use mesa::ingress::{BatchProcessor, CommitOutcome, IngressFatal};
use mesa::json::Json;
use mesa::pb::{ErrorDetail, GenericResult, PointDescriptorProto};
use mesa::process::{session_token, generate_session_token, LeaseStep, PortLeases, SpawnError};
use mesa::protocol::{err_result, ok_result, PROTOCOL_MAJOR, PROTOCOL_MINOR};
use mesa::session::{
    configure_events, connect_retry, connect_with_heartbeat, events_configured, heartbeat,
    metadata, ConnectEvent, FrameBody, HelloMsg, IoFailure, IoKind, Routed, SendOutcome, SessionError,
    SessionState,
};
use mesa::snapshot::Snapshot;
use mesa::source::{PointIdAllocator, PointIdSource, StorePointIdSource};
use mesa::store::ConfigStore;
use mesa::table::Table;
use mesa::types::{
    AcquisitionTask, DataType, DriverBinding, ErrorKind, PointDescriptor, TaskMode,
};

fn task(id: &str) -> EventTask {
    EventTask {
        id: id.to_string(),
        mode: TaskMode::Subscribe,
        interval_ms: None,
        binding: DriverBinding { kind: "k".to_string(), config: Json::Null },
    }
}

#[test]
fn configure_events_empty_tasks_needs_no_rpc() {
    assert!(configure_events(2, &[]).expect("empty tasks must succeed without RPC").is_none());
}

#[test]
fn configure_events_minor_gate_rejects_before_io() {
    let err = configure_events(2, &[task("e1")]).unwrap_err();
    assert!(
        matches!(err, SessionError::EventPlaneUnsupported { negotiated: 2, required: 3 }),
        "must fail fast with precise variant, got {}",
        err.message()
    );
}

#[test]
fn configure_events_roundtrip_success() {
    let sent = configure_events(3, &[task("e1")]).unwrap().unwrap();
    assert_eq!(sent.len(), 1);
    assert_eq!((sent[0].id.as_str(), sent[0].mode.as_str()), ("e1", "subscribe"));
    let reply = FrameBody::EventConfigApplied(Some(GenericResult { ok: true, error: None }));
    events_configured(reply).expect("minor-3 roundtrip must succeed");
}

#[test]
fn configure_events_driver_rejection_is_precise() {
    let reply = FrameBody::EventConfigApplied(Some(GenericResult {
        ok: false,
        error: Some(ErrorDetail {
            kind: "Unsupported".to_string(),
            code: "EVENT_NOT_SUPPORTED".to_string(),
            message: "no".to_string(),
        }),
    }));
    let err = events_configured(reply).unwrap_err();
    assert!(
        matches!(err, SessionError::Driver { ref code, .. } if code == "EVENT_NOT_SUPPORTED"),
        "must surface precise driver code, got {}",
        err.message()
    );
}

fn events(handle: u32, epoch: u64, sequence: u64) -> EventBatch {
    EventBatch {
        connection_handle: handle,
        stream_epoch: epoch,
        sequence,
        timestamp_ns: 1,
        events: Vec::new(),
        mono_ns: None,
    }
}

#[test]
fn lifecycle_ack_snoop_drives_event_epoch_gate() {
    let mut s = SessionState::new();
    s.register(100);
    s.register_start(100, 7, 4242);
    let ack = FrameBody::StartConnectionAck { handle: 7, result: Some(ok_result()) };
    assert!(matches!(s.reader_loop(100, ack), Routed::Reply(_)));
    assert!(s.batch_active(&events(7, 4242, 1)), "Start Ack 必须激活 epoch 门");
    assert!(!s.batch_active(&events(7, 4241, 1)));
    s.register(101);
    let ack = FrameBody::StopConnectionAck { handle: 7, result: Some(ok_result()) };
    assert!(matches!(s.reader_loop(101, ack), Routed::Reply(_)));
    assert!(!s.batch_active(&events(7, 4242, 1)), "Stop Ack 必须去活 epoch 门");
}

#[test]
fn failed_answers_do_not_open_the_gate() {
    let mut s = SessionState::new();
    s.register(1);
    s.register_start(1, 7, 5);
    let no = err_result(ErrorKind::Device, "X", "no");
    s.reader_loop(1, FrameBody::StartConnectionAck { handle: 7, result: Some(no) });
    assert!(!s.batch_active(&events(7, 5, 1)));
}

#[test]
fn a_full_queue_of_events_ends_the_stream() {
    let mut s = SessionState::new();
    s.events_sent(SendOutcome::Sent);
    assert!(!s.event_stream_failed());
    s.events_sent(SendOutcome::Full);
    assert!(s.event_stream_failed());
    assert_eq!(s.event_overflow_drops(), 1);
}

fn hello(token: &str, major: u32, minor: u32) -> ConnectEvent {
    ConnectEvent::Hello(HelloMsg {
        session_token: token.to_string(),
        protocol_major: major,
        protocol_minor: minor,
        driver_id: "d".to_string(),
        instance_id: "i".to_string(),
        driver_version: "1".to_string(),
    })
}

#[test]
fn drivers_must_know_the_token_and_the_protocol() {
    let (minor, welcome) =
        connect_with_heartbeat(hello("t", PROTOCOL_MAJOR, 2), "t", "0.1.0").unwrap();
    assert_eq!(minor, 2);
    assert_eq!(welcome.accepted_protocol_major, PROTOCOL_MAJOR);
    assert_eq!(welcome.accepted_protocol_minor, 2);
    let (minor, _) = connect_with_heartbeat(hello("t", PROTOCOL_MAJOR, 99), "t", "v").unwrap();
    assert_eq!(minor, PROTOCOL_MINOR);
    assert!(matches!(
        connect_with_heartbeat(hello("x", PROTOCOL_MAJOR, 2), "t", "v"),
        Err(SessionError::Handshake(_))
    ));
    assert!(matches!(
        connect_with_heartbeat(hello("t", 9, 2), "t", "v"),
        Err(SessionError::Handshake(_))
    ));
    assert_eq!(
        connect_with_heartbeat(ConnectEvent::HelloTimedOut, "t", "v").unwrap_err(),
        SessionError::Handshake("hello timeout".to_string())
    );
}

#[test]
fn connections_are_tried_again_until_the_deadline() {
    let refused = SessionError::Io(IoFailure {
        kind: IoKind::ConnectionRefused,
        message: "refused".to_string(),
    });
    assert!(connect_retry(&refused, false));
    assert!(!connect_retry(&refused, true));
    assert!(!connect_retry(&SessionError::Handshake("token".to_string()), false));
}

#[test]
fn drivers_that_miss_their_beats_are_given_up() {
    assert_eq!(heartbeat(0, false, 2), (1, false));
    assert_eq!(heartbeat(1, false, 2), (2, true));
    assert_eq!(heartbeat(1, true, 2), (0, false));
}

fn cfg() -> BuiltinEndpoint {
    BuiltinEndpoint {
        endpoint_id: "e1".to_string(),
        driver_id: "sim".to_string(),
        connection_json: "{}".to_string(),
        tasks: vec![AcquisitionTask {
            id: "t".to_string(),
            mode: TaskMode::Poll,
            interval_ms: Some(100),
            binding: DriverBinding { kind: "k".to_string(), config: Json::Null },
        }],
        event_tasks: Vec::new(),
    }
}

#[test]
fn waits_between_attempts_grow_and_stay() {
    let waits: Vec<u64> = (0..8).map(|i| reconnect_backoff_secs(false, i)).collect();
    for pair in waits.windows(2) {
        assert!(pair[0] <= pair[1]);
    }
    assert_eq!(waits[6], waits[7]);
}

#[test]
fn lost_sessions_are_retried_and_bad_configurations_are_not() {
    let mut snap = Snapshot::new();
    let mut idx: usize = 2;
    let lost = AttemptOutcome::Lost { reason: "gone".to_string(), had_running_session: true };
    let r = run_endpoint(&mut idx, false, &mut snap, &cfg(), &lost, 1, 2, 3);
    assert_eq!(r, RunStep::Retry { delay_secs: reconnect_backoff_secs(false, 0) });
    assert_eq!(snap.endpoint("e1").unwrap().state, "RECONNECTING");
    let bad = AttemptOutcome::ConfigurationFailed("bad".to_string());
    run_endpoint(&mut idx, false, &mut snap, &cfg(), &bad, 1, 2, 3);
    assert_eq!(snap.endpoint("e1").unwrap().state, "FAILED");
    assert!(matches!(
        run_endpoint(&mut idx, false, &mut snap, &cfg(), &AttemptOutcome::Shutdown, 1, 2, 3),
        RunStep::Stop
    ));
}

#[test]
fn attempts_leave_no_driver_behind() {
    let mut stage = AttemptStage::Spawning;
    assert!(matches!(
        attempt_session(&mut stage, AttemptEvent::Spawned, &cfg(), false, false),
        AttemptAction::Connect
    ));
    let end =
        attempt_session(&mut stage, AttemptEvent::ConnectFailed("no".to_string()), &cfg(), false, false);
    match end {
        AttemptAction::Finish { outcome, cleanup } => {
            assert!(matches!(outcome, AttemptOutcome::Lost { .. }));
            assert!(cleanup.contains(&Cleanup::TerminateProcess));
        }
        other => panic!("{other:?}"),
    }
}

#[test]
fn configurations_go_from_opening_to_starting() {
    let mut flow = ConfigFlow { step: ConfigStep::Open, revision: 1, epoch: 0 };
    let mut source = PointIdAllocator::new();
    let mut ids: Table<u32> = Table::new();
    let mut snap = Snapshot::new();
    let mut epoch: u64 = 0;
    assert!(matches!(open_request(&cfg()), ConfigRequest::OpenConnection { handle: 1, .. }));
    let frame = |body: FrameBody| FlowReply::Frame { body, shown: String::new() };
    let mut step = |reply: FlowReply| {
        run_config_flow(&mut flow, reply, &cfg(), &mut source, &mut ids, &mut snap, &mut epoch, 77)
    };
    assert!(matches!(
        step(frame(FrameBody::OpenConnectionAck(Some(ok_result())))),
        Ok(FlowNext::Request(ConfigRequest::ConfigureTasks { .. }))
    ));
    let points = vec![PointDescriptorProto {
        point_key: "a".to_string(),
        data_type: "f64".to_string(),
        unit: None,
    }];
    match step(frame(FrameBody::PointDescriptors(points))) {
        Ok(FlowNext::Request(ConfigRequest::ApplyPointMap { key_to_point_id, .. })) => {
            assert_eq!(key_to_point_id.get("a"), Some(&1));
        }
        other => panic!("{:?}", other.is_ok()),
    }
    assert!(matches!(
        step(frame(FrameBody::ConfigApplied(Some(ok_result())))),
        Ok(FlowNext::Request(ConfigRequest::ConfigureEventTasks { .. }))
    ));
    assert!(matches!(
        step(FlowReply::EventsConfigured),
        Ok(FlowNext::Request(ConfigRequest::StartConnection { stream_epoch: 77, .. }))
    ));
    // The stream that runs is the one that was asked for.
    let ack = frame(FrameBody::StartConnectionAck { handle: 1, result: Some(ok_result()) });
    let r = run_config_flow(&mut flow, ack, &cfg(), &mut source, &mut ids, &mut snap, &mut epoch, 99);
    assert!(matches!(r, Ok(FlowNext::Started)));
    assert_eq!(epoch, 77);
}

#[test]
fn loops_end_when_the_driver_is_gone() {
    assert!(matches!(
        event_loop(LoopEvent::Watchdog { unresponsive: false }),
        LoopAction::Continue
    ));
    assert!(matches!(
        event_loop(LoopEvent::Watchdog { unresponsive: true }),
        LoopAction::End(AttemptOutcome::Lost { .. })
    ));
    assert!(matches!(
        event_loop(LoopEvent::ChannelClosed),
        LoopAction::End(AttemptOutcome::Lost { .. })
    ));
    assert!(matches!(
        event_loop(LoopEvent::Shutdown),
        LoopAction::End(AttemptOutcome::Shutdown)
    ));
    assert!(matches!(
        event_loop(LoopEvent::Ingress(IngressEnd::Fatal(IngressFatal::StreamClosed))),
        LoopAction::End(_)
    ));
}

#[test]
fn streams_get_epochs_of_their_own() {
    let a = new_stream_epoch(1, 2, 3, 0);
    assert_eq!(a, 1 ^ (2 << 32) ^ 3u64.wrapping_mul(0x9E37_79B9_7F4A_7C15));
    // A stream that begins later has a greater number, whatever the clock says.
    assert_eq!(new_stream_epoch(0, 0, 0, a), a + 1);
    assert_eq!(new_stream_epoch(0x3C6E_F372_FE94_F82A, 0, 2, 0), 1);
    let mut last: u64 = 0;
    for count in 0..100u64 {
        let next = new_stream_epoch(1_000 - count, 7, count, last);
        assert!(next > last);
        last = next;
    }
}

#[test]
fn batches_of_events_are_stored_once_and_in_order() {
    let mut p = BatchProcessor::new();
    assert_eq!(p.process(&events(1, 9, 1)), Ok(true));
    assert_eq!(p.committed(1, CommitOutcome::Committed { inserted: 2, duplicates: 1 }), Ok(()));
    assert_eq!((p.stats.persisted_events, p.stats.event_duplicates), (2, 1));
    assert_eq!(p.process(&events(1, 9, 1)), Ok(false));
    assert_eq!(p.process(&events(1, 9, 4)), Ok(true));
    assert_eq!(p.stats.gaps, 1);
    let err = p.process(&events(1, 9, 2)).unwrap_err();
    assert!(matches!(err, IngressFatal::SequenceRegression { .. }));
    let broken = p.committed(1, CommitOutcome::Unavailable("disk".to_string())).unwrap_err();
    assert!(matches!(broken, IngressFatal::StoreUnavailable(_)));
}

#[test]
fn ports_are_leased_one_by_one() {
    let mut ports = PortLeases::new();
    assert_eq!(ports.lease_port(0, Some(4000)), LeaseStep::Leased(4000));
    assert_eq!(ports.lease_port(0, Some(4000)), LeaseStep::Again);
    ports.release(4000);
    assert_eq!(ports.lease_port(1, Some(4000)), LeaseStep::Leased(4000));
}

#[test]
fn tokens_are_hexadecimal_and_new_each_time() {
    assert_eq!(session_token(&[0, 255, 16]), "00ff10");
    let a = generate_session_token().unwrap();
    assert_eq!(a.len(), 64);
    assert_ne!(a, generate_session_token().unwrap());
    assert!(!SpawnError::NoPort.message().is_empty());
}

#[test]
fn allocated_ids_are_given_once() {
    let mut source = PointIdAllocator::new();
    let d = |k: &str| PointDescriptor {
        point_key: k.to_string(),
        data_type: DataType::I32,
        unit: None,
        source_label: None,
    };
    assert_eq!(source.assign("e", &[d("a"), d("b")]).unwrap(), vec![1, 2]);
    assert_eq!(source.assign("e", &[d("b"), d("c")]).unwrap(), vec![2, 3]);
    assert_eq!(source.assign("f", &[d("a")]).unwrap(), vec![4]);
    assert_eq!(source.known_map("e").get("c"), Some(&3));
}

#[test]
fn drivers_tell_who_they_are() {
    let body = FrameBody::MetadataReport {
        driver_id: "sim".to_string(),
        name: "Simulator".to_string(),
        version: "1.2.3".to_string(),
    };
    let (id, name, version) = metadata(body).unwrap();
    assert_eq!((id.as_str(), name.as_str(), version.as_str()), ("sim", "Simulator", "1.2.3"));
    assert_eq!(metadata(FrameBody::Other), Err(SessionError::Closed));
}

#[test]
fn points_that_get_no_ids_end_the_configuration() {
    let mut flow = ConfigFlow { step: ConfigStep::Configure, revision: 1, epoch: 0 };
    let mut source = StorePointIdSource::new(ConfigStore::open_in_memory());
    let mut ids: Table<u32> = Table::new();
    let mut snap = Snapshot::new();
    let mut epoch: u64 = 0;
    let point = PointDescriptorProto {
        point_key: "a".to_string(),
        data_type: "f64".to_string(),
        unit: None,
    };
    let reply = FlowReply::Frame {
        body: FrameBody::PointDescriptors(vec![point]),
        shown: String::new(),
    };
    let r = run_config_flow(
        &mut flow, reply, &cfg(), &mut source, &mut ids, &mut snap, &mut epoch, 77,
    );
    match r {
        Err(AttemptOutcome::ConfigurationFailed(m)) => {
            assert_eq!(m, format!("not found: endpoint `{}` 不存在", cfg().endpoint_id));
        }
        _ => panic!("ids for an endpoint that there is not"),
    }
    assert!(PointIdAllocator::new().is_ready(&vec!["a".to_string()]));
}
