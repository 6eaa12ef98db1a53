use mesa::event::{
    ConditionTransition, EventCatalog, EventCondition, EventFieldDescriptor, EventRecord,
    EventRecordError, EventSequenceTracker, EventStreamDescriptor, EventTask, EventTaskError,
    SequenceVerdict,
};
use mesa::float::{Double, Single};
use mesa::json::Json;
use mesa::report::{
    check_report_size, CapabilityItem, CapabilityState, ProbeReport, ProbeWarning,
    PROBE_REPORT_MAX_BYTES,
};
use mesa::schema::{LocalizedText, SchemaDescriptor};
use mesa::types::{
    ensure_unique_point_keys, timestamp_of, AcquisitionTask, DataType, DriverBinding,
    DuplicatePointKey, PointDescriptor, PointValue, Quality, TaskMode, TaskValidationError,
    TypedValue, UnknownDataType, ValueOrigin,
};

fn double(x: f64) -> TypedValue {
    TypedValue::F64(Double { bits: x.to_bits() })
}

#[test]
fn data_type_parse_roundtrip_is_case_insensitive() {
    assert_eq!("f64".parse::<DataType>().unwrap(), DataType::F64);
    assert_eq!("F64".parse::<DataType>().unwrap(), DataType::F64);
    assert_eq!("STRING[]".parse::<DataType>().unwrap(), DataType::StringArray);
    assert_eq!(DataType::DateTime.as_str().parse::<DataType>().unwrap(), DataType::DateTime);
    assert_eq!("int".parse::<DataType>().unwrap_err(), UnknownDataType("int".to_string()));
}

fn acquisition(mode: TaskMode, interval: Option<u64>) -> AcquisitionTask {
    AcquisitionTask {
        id: "t1".to_string(),
        mode,
        interval_ms: interval,
        binding: DriverBinding { kind: "sim".to_string(), config: Json::Object(Vec::new()) },
    }
}

#[test]
fn poll_task_requires_interval_but_subscribe_does_not() {
    assert_eq!(
        acquisition(TaskMode::Poll, None).validate(),
        Err(TaskValidationError::PollRequiresInterval { task: "t1".to_string() })
    );
    assert_eq!(
        acquisition(TaskMode::Poll, Some(0)).validate(),
        Err(TaskValidationError::PollRequiresInterval { task: "t1".to_string() })
    );
    acquisition(TaskMode::Poll, Some(100)).validate().unwrap();
    acquisition(TaskMode::Subscribe, None).validate().unwrap();
}

#[test]
fn empty_task_id_rejected() {
    let t = AcquisitionTask {
        id: "  ".to_string(),
        mode: TaskMode::Subscribe,
        interval_ms: None,
        binding: DriverBinding { kind: "k".to_string(), config: Json::Object(Vec::new()) },
    };
    assert_eq!(t.validate(), Err(TaskValidationError::EmptyTaskId));
}

#[test]
fn duplicate_point_key_detection_hits_second_occurrence() {
    let d = |k: &str| PointDescriptor {
        point_key: k.to_string(),
        data_type: DataType::F64,
        unit: None,
        source_label: None,
    };
    ensure_unique_point_keys(&[d("a"), d("b")]).unwrap();
    assert_eq!(
        ensure_unique_point_keys(&[d("a"), d("a")]),
        Err(DuplicatePointKey("a".to_string()))
    );
}

#[test]
fn value_data_type_matches_variant() {
    assert_eq!(double(1.0).data_type(), DataType::F64);
    assert_eq!(TypedValue::DateTimeArray(vec![1]).data_type(), DataType::DateTimeArray);
}

#[test]
fn every_type_has_a_placeholder_of_its_own() {
    for t in [
        DataType::Bool,
        DataType::I32,
        DataType::U64,
        DataType::F32,
        DataType::F64,
        DataType::String,
        DataType::Bytes,
        DataType::DateTime,
        DataType::F64Array,
        DataType::StringArray,
    ] {
        assert_eq!(TypedValue::typed_placeholder(t).data_type(), t);
        assert_eq!(DataType::parse(t.as_str()).unwrap(), t);
    }
    assert_eq!(TypedValue::typed_placeholder(DataType::F32), TypedValue::F32(Single { bits: 0 }));
}

#[test]
fn origins_that_say_nothing_follow_the_quality() {
    let o = ValueOrigin::Unspecified;
    assert_eq!(o.normalize_unspecified(Quality::Good), ValueOrigin::Current);
    assert_eq!(o.normalize_unspecified(Quality::Bad), ValueOrigin::Placeholder);
    assert_eq!(
        ValueOrigin::LastKnown.normalize_unspecified(Quality::Good),
        ValueOrigin::LastKnown
    );
    let good = PointValue::good(7, TypedValue::I32(1));
    assert_eq!((good.quality, good.value_origin), (Quality::Good, ValueOrigin::Current));
}

#[test]
fn times_outside_the_range_are_bounded() {
    assert_eq!(timestamp_of(Some(5)), 5);
    assert_eq!(timestamp_of(None), 0);
}

fn record() -> EventRecord {
    EventRecord {
        event_id: "A700012:raised:7".to_string(),
        category: "alarm".to_string(),
        kind: "alarm.condition".to_string(),
        source: "Channel1".to_string(),
        severity: 700,
        code: Some("700012".to_string()),
        message: Some("overtemp".to_string()),
        message_locale: Some("en".to_string()),
        occurred_at_ns: Some(1_700_000_000_000_000_000),
        condition: Some(EventCondition {
            condition_id: "A700012".to_string(),
            transition: ConditionTransition::Raised,
            active: Some(true),
            acknowledged: None,
            confirmed: None,
            retain: Some(true),
        }),
        correlation_id: None,
        attributes: vec![("axis".to_string(), TypedValue::I32(1))],
    }
}

#[test]
fn records_are_written_as_json() {
    let v: serde_json::Value = serde_json::from_str(&record().json_text()).unwrap();
    assert_eq!(v["event_id"], "A700012:raised:7");
    assert_eq!(v["severity"], 700);
    assert_eq!(v["condition"]["transition"], "raised");
    assert_eq!(v["condition"]["active"], true);
    assert_eq!(v["occurred_at_ns"], 1_700_000_000_000_000_000i64);
}

#[test]
fn alarm_lifecycle_is_three_immutable_records() {
    let mut ack = record();
    ack.event_id = "A700012:ack:9".to_string();
    ack.condition.as_mut().unwrap().transition = ConditionTransition::Acknowledged;
    ack.condition.as_mut().unwrap().acknowledged = Some(true);
    let mut clr = record();
    clr.event_id = "A700012:cleared:12".to_string();
    clr.condition.as_mut().unwrap().transition = ConditionTransition::Cleared;
    clr.condition.as_mut().unwrap().active = Some(false);
    for r in [&record(), &ack, &clr] {
        r.validate().unwrap();
    }
    assert_ne!(record().event_id, ack.event_id);
    assert_ne!(ack.event_id, clr.event_id);
}

#[test]
fn size_limits_are_fail_closed() {
    let mut r = record();
    r.message = Some("x".repeat(4097));
    assert_eq!(
        r.validate(),
        Err(EventRecordError::TooLarge("message 超过 4096 bytes".to_string()))
    );
    let mut r = record();
    r.severity = 1001;
    assert!(matches!(r.validate(), Err(EventRecordError::Invalid(_))));
    let mut r = record();
    for i in 0..70 {
        r.attributes.push((format!("k{i}"), TypedValue::I32(i)));
    }
    assert!(matches!(r.validate(), Err(EventRecordError::TooLarge(_))));
    let mut r = record();
    r.attributes.push(("big".to_string(), TypedValue::String("y".repeat(20_000))));
    assert!(matches!(r.validate(), Err(EventRecordError::TooLarge(_))));
}

fn event_task(id: &str, mode: TaskMode) -> EventTask {
    EventTask {
        id: id.to_string(),
        mode,
        interval_ms: None,
        binding: DriverBinding { kind: "k".to_string(), config: Json::Null },
    }
}

#[test]
fn event_task_validate_mirrors_acquisition_task() {
    let bad = event_task("  ", TaskMode::Subscribe);
    assert_eq!(bad.validate(), Err(EventTaskError::EmptyTaskId));
    let bad = event_task("e1", TaskMode::Poll);
    assert!(matches!(bad.validate(), Err(EventTaskError::PollRequiresInterval { .. })));
    let ok = event_task("e1", TaskMode::Subscribe);
    assert!(ok.validate().is_ok());
}

fn stream() -> EventStreamDescriptor {
    EventStreamDescriptor {
        id: "alarms".to_string(),
        label: LocalizedText { default: "Alarms".to_string(), zh_cn: None },
        modes: vec![TaskMode::Subscribe],
        parameters: SchemaDescriptor::new(Vec::new()),
        fields: vec![EventFieldDescriptor {
            key: "code".to_string(),
            label: LocalizedText { default: "Code".to_string(), zh_cn: None },
            data_type: Some("string".to_string()),
        }],
    }
}

#[test]
fn catalog_validates_stream_and_field_uniqueness() {
    let mut c = EventCatalog { streams: Vec::new() };
    assert!(c.validate().is_ok());
    c.streams.push(stream());
    assert!(c.validate().is_ok());
    c.streams.push(stream());
    assert!(c.validate().is_err());
}

#[test]
fn sequences_are_followed_epoch_by_epoch() {
    let mut t = EventSequenceTracker::new();
    assert_eq!(t.check(1, 1), SequenceVerdict::Accept);
    assert_eq!(t.check(1, 2), SequenceVerdict::Accept);
    assert_eq!(t.check(1, 2), SequenceVerdict::Duplicate);
    assert_eq!(t.check(1, 1), SequenceVerdict::Regression);
    assert_eq!(t.check(1, 5), SequenceVerdict::Gap { expected: 3, got: 5 });
    assert_eq!(t.check(2, 1), SequenceVerdict::Accept);
}

fn capability(id: &str, state: CapabilityState, detail: Option<&str>) -> CapabilityItem {
    CapabilityItem { id: id.to_string(), state, detail: detail.map(|s| s.to_string()) }
}

fn plain_report() -> ProbeReport {
    ProbeReport {
        reachable: true,
        vendor: None,
        family: None,
        model: None,
        firmware: None,
        model_confidence: None,
        capabilities: Vec::new(),
        warnings: Vec::new(),
    }
}

#[test]
fn full_report_json_roundtrip() {
    let r = ProbeReport {
        reachable: true,
        vendor: Some("FANUC".to_string()),
        family: Some("0i-F".to_string()),
        model: Some("0i-F Plus".to_string()),
        firmware: Some("V1.0".to_string()),
        model_confidence: Some("high".to_string()),
        capabilities: vec![
            capability("tool", CapabilityState::Available, None),
            capability("alarm", CapabilityState::AccessDenied, Some("BadUserAccessDenied")),
            capability("drive", CapabilityState::NotPresent, None),
            capability("gud", CapabilityState::Unknown, None),
        ],
        warnings: vec![ProbeWarning {
            code: "NAMESPACE_PARTIAL".to_string(),
            message: "partial".to_string(),
        }],
    };
    let s = r.to_report_json().expect("序列化 Ok");
    let back = ProbeReport::from_report_json(&s).expect("回读 Ok");
    assert_eq!(r, back);
    assert!(s.contains("\"access_denied\""));
    assert!(s.contains("\"not_present\""));
}

#[test]
fn unknown_device_allows_all_none_and_empty_lists() {
    let r = plain_report();
    let back = ProbeReport::from_report_json(&r.to_report_json().unwrap()).unwrap();
    assert_eq!(r, back);
}

#[test]
fn unreachable_helper_carries_code_only_in_warnings() {
    let r = ProbeReport::unreachable("CONNECTION_FAILED", "timeout");
    assert!(!r.reachable);
    assert!(r.capabilities.is_empty());
    assert_eq!(r.warnings.len(), 1);
    assert_eq!(r.warnings[0].code, "CONNECTION_FAILED");
}

#[test]
fn missing_optional_fields_stay_compatible() {
    let back = ProbeReport::from_report_json(r#"{"reachable":true}"#).unwrap();
    assert!(back.reachable);
    assert!(back.capabilities.is_empty());
    assert!(back.warnings.is_empty());
}

#[test]
fn oversized_report_rejected() {
    let big = "x".repeat(PROBE_REPORT_MAX_BYTES + 1);
    assert!(check_report_size(&big).is_err());
}

#[test]
fn empty_ids_rejected() {
    let mut r = ProbeReport::unreachable("C", "m");
    r.capabilities.push(capability("  ", CapabilityState::Unknown, None));
    assert!(r.validate().is_err());
    r.capabilities.clear();
    r.warnings[0].code = String::new();
    assert!(r.validate().is_err());
}

#[test]
fn duplicate_capability_id_rejected() {
    let r = ProbeReport::unreachable("C", "m");
    let mut ok_report = plain_report();
    ok_report.capabilities = vec![
        capability("read", CapabilityState::Available, None),
        capability("read", CapabilityState::NotPresent, None),
    ];
    assert!(ok_report.validate().is_err());
    assert!(r.validate().is_ok());
}

#[test]
fn unreachable_canonical_form_enforced() {
    let mut r = ProbeReport::unreachable("C", "m");
    r.vendor = Some("Siemens".to_string());
    assert!(r.validate().is_err());
    let mut r = ProbeReport::unreachable("C", "m");
    r.capabilities.push(capability("read", CapabilityState::Available, None));
    assert!(r.validate().is_err());
    let mut r = ProbeReport::unreachable("C", "m");
    r.warnings.clear();
    assert!(r.validate().is_err());
}

#[test]
fn reports_that_are_no_reports_are_refused() {
    assert!(ProbeReport::from_report_json("not json").is_err());
    assert!(ProbeReport::from_report_json("{}").is_err());
    assert!(ProbeReport::from_report_json(r#"{"reachable":"yes"}"#).is_err());
    let unknown = r#"{"reachable":true,"color":"blue"}"#;
    assert!(ProbeReport::from_report_json(unknown).is_ok());
}

#[test]
fn samples_get_the_origin_that_their_quality_has() {
    let mut p = PointValue::good(1, TypedValue::Bool(true));
    p.value_origin = ValueOrigin::Unspecified;
    p.quality = Quality::Bad;
    let n = p.normalized();
    assert_eq!(n.value_origin, ValueOrigin::Placeholder);
    assert_eq!(n.value, TypedValue::Bool(true));
}

#[test]
fn reports_can_say_their_fields_one_after_the_other() {
    let text = r#"[true,"V",null,"M",null,null,[["tool",{"available":null}],{"id":"x","state":"unknown"}],[["c","m"]]]"#;
    let r = ProbeReport::from_report_json(text).unwrap();
    assert_eq!((r.reachable, r.vendor.as_deref(), r.family.as_deref()), (true, Some("V"), None));
    assert_eq!(r.model.as_deref(), Some("M"));
    assert_eq!(r.capabilities[0].state, CapabilityState::Available);
    assert_eq!(r.capabilities[1].state, CapabilityState::Unknown);
    assert_eq!(r.warnings[0].message, "m");
    assert!(ProbeReport::from_report_json("[true]").is_ok());
    assert!(ProbeReport::from_report_json("[]").is_err());
    assert!(ProbeReport::from_report_json("[true,null,null,null,null,null,[],[],1]").is_err());
    assert!(ProbeReport::from_report_json(r#"{"reachable":true,"warnings":[["c"]]}"#).is_err());
}

#[test]
fn fields_of_a_report_are_said_once() {
    let read = |s: &str| ProbeReport::from_report_json(s);
    let item = |c: &str| format!(r#"{{"reachable":true,"capabilities":[{c}]}}"#);
    assert!(read(r#"{"reachable":true,"other":1,"other":[2,"}"]}"#).unwrap().reachable);
    let twice = read(r#"{"reachable":true,"reachable":true}"#).unwrap_err();
    assert!(twice.starts_with("ProbeReport 解析失败: "));
    assert!(read(r#" { "reachable" : true , "reachable" : false } "#).is_err());
    assert!(read(r#"{"reachable":true,"vendor":"a\"}","vendor":"b"}"#).is_err());
    assert!(read(r#"{"reachable":true,"reach\u0061ble":false}"#).is_err());
    assert!(read(r#"{"reachable":true,"reach\u0161ble":false}"#).is_ok());
    assert!(read(r#"{"reachable":true,"warnings":[],"x":{"warnings":[]},"warnings":[]}"#).is_err());
    assert!(read(r#"{"reachable":true,"x":{"warnings":1,"warnings":2}}"#).is_ok());
    let one = r#"{"id":"a","state":"available","x":1,"x":2}"#;
    assert_eq!(read(&item(one)).unwrap().capabilities[0].id, "a");
    assert!(read(&item(r#"{"id":"a","id":"a","state":"available"}"#)).is_err());
    assert!(read(&item(r#"{"id":"a","state":{"available":null}}"#)).is_ok());
    assert!(read(&item(r#"{"id":"a","state":{"available":null,"available":null}}"#)).is_err());
    assert!(read(&item(r#"["a",{"available":null,"available":null}]"#)).is_err());
    let warned = r#"{"reachable":true,"warnings":[{"code":"c","message":"m","code":"d"}]}"#;
    assert!(read(warned).is_err());
    assert!(read(r#"[true,null,null,null,null,null,[["a","available"]],[]]"#).is_ok());
}
