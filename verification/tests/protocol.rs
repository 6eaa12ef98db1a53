use mesa::event::{ConditionTransition, EventBatch, EventCondition, EventRecord, EventTask};
use mesa::event_protocol::{
    event_batch_from_pb, event_batch_to_pb, event_record_from_pb, event_record_to_pb,
};
use mesa::float::{Double, Single};
use mesa::json::Json;
use mesa::pb::{
    EventAttributeMsg, EventBatchMsg, EventTaskProto, PointDescriptorProto, PointValueMsg, ValueMsg,
    ORIGIN_CURRENT,
};
use mesa::protocol::{
    batch_from_pb, batch_to_pb, connection_state_from_pb, data_type_from_pb, data_type_to_pb,
    descriptor_from_pb, err_result, error_detail, event_task_from_pb, event_task_to_pb, negotiate, ok_result, point_value_from_pb,
    point_value_to_pb, quality_from_pb, quality_to_pb, read_envelope, result_into_error,
    task_from_pb, task_to_pb, tasks_from_pb, tasks_to_pb, value_from_pb, value_to_pb,
    write_envelope, ConvertError, ErrorDetailBox, ProtocolError, MAX_FRAME_LEN,
};
use mesa::types::{
    AcquisitionTask, ConnectionState, DataBatch, DataType, DriverBinding, ErrorKind, PointValue,
    Quality, TaskMode, TypedValue, ValueOrigin,
};

fn double(x: f64) -> Double {
    Double { bits: x.to_bits() }
}

fn single(x: f32) -> Single {
    Single { bits: x.to_bits() }
}

#[test]
fn value_roundtrip_all_variants() {
    let samples = vec![
        TypedValue::Bool(true),
        TypedValue::I32(-5),
        TypedValue::U32(7),
        TypedValue::I64(i64::MIN),
        TypedValue::U64(u64::MAX),
        TypedValue::F32(single(1.5)),
        TypedValue::F64(double(-2.25)),
        TypedValue::String("中文值".to_string()),
        TypedValue::Bytes(vec![0, 1, 255]),
        TypedValue::DateTime(1_700_000_000_123_456_789),
        TypedValue::BoolArray(vec![true, false]),
        TypedValue::I32Array(vec![-1, 2]),
        TypedValue::U32Array(vec![3]),
        TypedValue::I64Array(vec![]),
        TypedValue::U64Array(vec![9, 10]),
        TypedValue::F32Array(vec![single(0.5)]),
        TypedValue::F64Array(vec![double(1.0 / 3.0), double(2.5)]),
        TypedValue::StringArray(vec!["a".to_string(), "".to_string()]),
        TypedValue::DateTimeArray(vec![1, -1]),
    ];
    for v in samples {
        assert_eq!(value_from_pb(value_to_pb(&v)).unwrap(), v);
    }
    assert!(matches!(value_from_pb(ValueMsg { kind: None }), Err(ConvertError::EmptyValue)));
}

fn flat_record() -> EventRecord {
    EventRecord {
        event_id: "e".to_string(),
        category: "c".to_string(),
        kind: "k".to_string(),
        source: "s".to_string(),
        severity: 1,
        code: None,
        message: None,
        message_locale: None,
        occurred_at_ns: None,
        condition: None,
        correlation_id: None,
        attributes: Vec::new(),
    }
}

#[test]
fn event_record_proto_roundtrip() {
    let rec = EventRecord {
        event_id: "A700012:raised:7".to_string(),
        category: "alarm".to_string(),
        kind: "alarm.condition".to_string(),
        source: "Channel1".to_string(),
        severity: 700,
        code: Some("700012".to_string()),
        message: Some("overtemp".to_string()),
        message_locale: None,
        occurred_at_ns: Some(1_700_000_000_000_000_000),
        condition: Some(EventCondition {
            condition_id: "A700012".to_string(),
            transition: ConditionTransition::Raised,
            active: Some(true),
            acknowledged: None,
            confirmed: None,
            retain: Some(true),
        }),
        correlation_id: None,
        attributes: vec![
            ("axis".to_string(), TypedValue::I32(1)),
            ("temp".to_string(), TypedValue::F64(double(89.5))),
        ],
    };
    let back = event_record_from_pb(event_record_to_pb(&rec).unwrap()).unwrap();
    assert_eq!(back, rec);
    let mut bad = event_record_to_pb(&rec).unwrap();
    bad.condition.as_mut().unwrap().transition = "exploded".to_string();
    assert!(event_record_from_pb(bad).is_err());
    let mut flat = rec.clone();
    flat.condition = None;
    flat.occurred_at_ns = None;
    assert_eq!(event_record_from_pb(event_record_to_pb(&flat).unwrap()).unwrap(), flat);
}

#[test]
fn event_record_overflow_and_dupkey_rejected() {
    let rec = flat_record();
    let mut wire = event_record_to_pb(&rec).unwrap();
    wire.severity = 999_999;
    assert!(matches!(event_record_from_pb(wire), Err(ConvertError::InvalidEventRecord(_))));
    let mut wire = event_record_to_pb(&rec).unwrap();
    wire.severity = 5000;
    assert!(event_record_from_pb(wire).is_err());
    let mut wire = event_record_to_pb(&rec).unwrap();
    let attr = || EventAttributeMsg {
        key: "axis".to_string(),
        value: Some(value_to_pb(&TypedValue::I32(1))),
    };
    wire.attributes = vec![attr(), attr()];
    assert!(matches!(event_record_from_pb(wire), Err(ConvertError::InvalidEventRecord(_))));
}

#[test]
fn event_task_proto_roundtrip() {
    let t = EventTask {
        id: "alarms".to_string(),
        mode: TaskMode::Subscribe,
        interval_ms: None,
        binding: DriverBinding {
            kind: "ac".to_string(),
            config: Json::parse(r#"{"area": "NCK"}"#).unwrap(),
        },
    };
    assert_eq!(event_task_from_pb(event_task_to_pb(&t)).unwrap(), t);
    let bad = EventTaskProto {
        id: "e1".to_string(),
        mode: "poll".to_string(),
        interval_ms: None,
        binding_kind: "k".to_string(),
        binding_config_json: "{}".to_string(),
    };
    assert!(matches!(event_task_from_pb(bad), Err(ConvertError::InvalidEventTask(_))));
}

#[test]
fn event_batch_size_cap_enforced_both_directions() {
    let mut big = flat_record();
    big.message = Some("z".repeat(4000));
    let batch = EventBatch {
        connection_handle: 7,
        stream_epoch: 99,
        sequence: 5,
        timestamp_ns: 1_700_000_000_000_000_000,
        events: vec![big; 70],
        mono_ns: Some(123),
    };
    assert!(matches!(event_batch_to_pb(&batch), Err(ConvertError::EventBatchTooLarge(_))));
    let wire = |n: usize| EventBatchMsg {
        connection_handle: 7,
        stream_epoch: 99,
        sequence: 5,
        timestamp_ns: 1_700_000_000_000_000_000,
        mono_ns: Some(123),
        events: batch.events.iter().take(n).map(|e| event_record_to_pb(e).unwrap()).collect(),
    };
    assert!(event_batch_from_pb(wire(70)).is_err());
    let back = event_batch_from_pb(wire(2)).unwrap();
    assert_eq!(back.connection_handle, 7);
    assert_eq!(back.stream_epoch, 99);
    assert_eq!(back.sequence, 5);
    assert_eq!(back.timestamp_ns, 1_700_000_000_000_000_000);
    assert_eq!(back.mono_ns, Some(123));
    assert_eq!(back.events.len(), 2);
}

#[test]
fn quality_default_is_good() {
    assert_eq!(quality_from_pb("").unwrap(), Quality::Good);
    assert!(quality_from_pb("EXCELLENT").is_err());
}

#[test]
fn qualities_and_types_survive_the_wire() {
    for q in [Quality::Good, Quality::Uncertain, Quality::Bad] {
        assert_eq!(quality_from_pb(&quality_to_pb(q)).unwrap(), q);
    }
    assert_eq!(data_type_from_pb("i32[]").unwrap(), DataType::I32Array);
    assert!(matches!(data_type_from_pb("int"), Err(ConvertError::DataType(_))));
    assert_eq!(connection_state_from_pb("RUNNING").unwrap(), ConnectionState::Running);
    assert!(matches!(connection_state_from_pb("ASLEEP"), Err(ConvertError::InvalidState(_))));
    let d = PointDescriptorProto {
        point_key: "k".to_string(),
        data_type: "BOOL".to_string(),
        unit: Some("mm".to_string()),
    };
    let p = descriptor_from_pb(d).unwrap();
    assert_eq!((p.point_key.as_str(), p.data_type, p.unit.as_deref()), ("k", DataType::Bool, Some("mm")));
}

#[test]
fn frames_carry_their_length() {
    let frame = write_envelope(&vec![1, 2, 3]);
    assert_eq!(frame, vec![3, 0, 0, 0, 1, 2, 3]);
    assert_eq!(read_envelope([3, 0, 0, 0]).unwrap(), 3);
    assert_eq!(read_envelope([0x44, 0x33, 0x22, 0x00]).unwrap(), 0x223344);
    assert_eq!(read_envelope(MAX_FRAME_LEN.to_le_bytes()).unwrap(), MAX_FRAME_LEN);
}

#[test]
fn oversized_frame_is_rejected_without_allocation() {
    match read_envelope((MAX_FRAME_LEN + 1).to_le_bytes()) {
        Err(ProtocolError::FrameTooLarge { size, .. }) => {
            assert_eq!(size, (MAX_FRAME_LEN + 1) as u64)
        }
        other => panic!("expected FrameTooLarge, got {other:?}"),
    }
}

#[test]
fn negotiate_major_mismatch_rejected_and_minor_minimized() {
    assert_eq!(negotiate((1, 5), (1, 2)).unwrap(), (1, 2));
    assert_eq!(negotiate((1, 0), (1, 9)).unwrap(), (1, 0));
    assert!(negotiate((2, 0), (1, 0)).is_err());
}

#[test]
fn task_conversion_preserves_binding_json() {
    let t = AcquisitionTask {
        id: "fast".to_string(),
        mode: TaskMode::Poll,
        interval_ms: Some(100),
        binding: DriverBinding {
            kind: "sim.points".to_string(),
            config: Json::parse(r#"{ "points": [ { "key": "a", "kind": "counter" } ] }"#).unwrap(),
        },
    };
    let back = task_from_pb(task_to_pb(&t)).unwrap();
    assert_eq!(back, t);
    let mut bad = task_to_pb(&t);
    bad.mode = "push".to_string();
    assert!(matches!(task_from_pb(bad), Err(ConvertError::InvalidMode(_))));
    let mut bad = task_to_pb(&t);
    bad.binding_config_json = "{".to_string();
    assert!(matches!(task_from_pb(bad), Err(ConvertError::Json(_))));
}

#[test]
fn legacy_proto_unspecified_maps_to_current_or_placeholder() {
    let pv_good = PointValue {
        point_id: 1,
        value: TypedValue::I32(5),
        quality: Quality::Good,
        quality_code: None,
        source_timestamp_ns: None,
        value_origin: ValueOrigin::Unspecified,
    };
    let pb_good = point_value_to_pb(&pv_good);
    assert_eq!(pb_good.value_origin, ORIGIN_CURRENT);
    let legacy_pb = PointValueMsg {
        point_id: 2,
        value: Some(value_to_pb(&TypedValue::I32(0))),
        quality: "BAD".to_string(),
        quality_code: Some(1),
        source_timestamp_ns: None,
        value_origin: 0,
    };
    let decoded = point_value_from_pb(legacy_pb).unwrap();
    assert_eq!(decoded.value_origin, ValueOrigin::Placeholder);
    assert_eq!(decoded.quality, Quality::Bad);
    let legacy_good_pb = PointValueMsg {
        point_id: 3,
        value: Some(value_to_pb(&TypedValue::I32(7))),
        quality: "".to_string(),
        quality_code: None,
        source_timestamp_ns: None,
        value_origin: 0,
    };
    let decoded_good = point_value_from_pb(legacy_good_pb).unwrap();
    assert_eq!(decoded_good.value_origin, ValueOrigin::Current);
    assert_eq!(decoded_good.quality, Quality::Good);
}

#[test]
fn batches_survive_the_wire() {
    let b = DataBatch {
        connection_handle: 1,
        stream_epoch: 2,
        sequence: 3,
        timestamp_ns: 4,
        values: vec![PointValue::good(5, TypedValue::String("x".to_string()))],
        mono_ns: Some(6),
    };
    let back = batch_from_pb(batch_to_pb(&b)).unwrap();
    assert_eq!(back.values, b.values);
    assert_eq!((back.stream_epoch, back.sequence, back.mono_ns), (2, 3, Some(6)));
}

#[test]
fn results_tell_what_went_wrong() {
    assert!(result_into_error(ok_result()).is_none());
    let e = result_into_error(err_result(ErrorKind::Timeout, "T", "slow")).unwrap();
    assert_eq!((e.code.as_str(), e.message.as_str()), ("T", "slow"));
}

#[test]
fn lists_of_tasks_survive_the_wire() {
    let task = |id: &str| AcquisitionTask {
        id: id.to_string(),
        mode: TaskMode::Subscribe,
        interval_ms: None,
        binding: DriverBinding { kind: "k".to_string(), config: Json::parse("[1]").unwrap() },
    };
    let tasks = vec![task("a"), task("b")];
    assert_eq!(tasks_from_pb(tasks_to_pb(&tasks)).unwrap(), tasks);
    let mut msgs = tasks_to_pb(&tasks);
    msgs[1].mode = "push".to_string();
    assert!(matches!(tasks_from_pb(msgs), Err(ConvertError::InvalidMode(_))));
}

#[test]
fn types_are_named_on_the_wire() {
    assert_eq!(data_type_to_pb(DataType::F64Array), "f64[]");
    assert_eq!(data_type_from_pb(&data_type_to_pb(DataType::DateTime)).unwrap(), DataType::DateTime);
}

#[test]
fn errors_of_the_configuration_are_told_apart() {
    let detail = |kind: ErrorKind| ErrorDetailBox::of(&error_detail(kind, "C", "m"));
    assert!(detail(ErrorKind::Configuration).is_configuration_error());
    assert!(!detail(ErrorKind::Connection).is_configuration_error());
    assert_eq!(detail(ErrorKind::Device).code, "C");
}
