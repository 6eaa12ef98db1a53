use mesa::float::Double;
use mesa::json::{Json, JsonNumber};
use mesa::snapshot::{EndpointStatus, Snapshot, LATENCY_CAPACITY};
use mesa::types::{
    DataBatch, DataType, PointDefinition, PointValue, Quality, TypedValue, ValueOrigin,
};

fn double(x: f64) -> TypedValue {
    TypedValue::F64(Double { bits: x.to_bits() })
}

fn definition(id: u32, key: &str, data_type: DataType, label: Option<&str>) -> PointDefinition {
    PointDefinition {
        point_id: id,
        point_key: key.to_string(),
        data_type,
        unit: None,
        source_label: label.map(|s| s.to_string()),
        display_name: None,
    }
}

fn batch(sequence: u64, timestamp_ns: i64, values: Vec<PointValue>) -> DataBatch {
    DataBatch {
        connection_handle: 1,
        stream_epoch: 1,
        sequence,
        timestamp_ns,
        values,
        mono_ns: None,
    }
}

#[test]
fn placeholder_visible_in_rest_and_no_source_timestamp() {
    let mut snap = Snapshot::new();
    snap.register_points("ep1", &[definition(1, "k1", DataType::F64, None)]);
    let b = batch(
        1,
        1_000_000,
        vec![PointValue {
            point_id: 1,
            value: double(0.0),
            quality: Quality::Bad,
            quality_code: Some(0x80340000u32 as i32),
            source_timestamp_ns: Some(999_999),
            value_origin: ValueOrigin::Placeholder,
        }],
    );
    snap.apply_batch(&b, "ep1");
    let e = &snap.latest_all()[0];
    assert_eq!(e.value_origin, "PLACEHOLDER");
    assert_eq!(e.source_timestamp_ns, None, "Placeholder 必须无 source");
    assert_eq!(e.quality, "BAD");
    let json = e.to_json();
    assert_eq!(json.get("value_origin").unwrap().as_str(), Some("PLACEHOLDER"));
}

#[test]
fn last_known_rest_and_communication_lost_transition() {
    let mut snap = Snapshot::new();
    snap.register_points("ep1", &[definition(1, "k1", DataType::F64, None)]);
    let pv_current = PointValue {
        point_id: 1,
        value: double(12.5),
        quality: Quality::Good,
        quality_code: None,
        source_timestamp_ns: Some(1_000),
        value_origin: ValueOrigin::Current,
    };
    snap.apply_batch(&batch(1, 1_000_000, vec![pv_current]), "ep1");
    let pv_last = PointValue {
        point_id: 1,
        value: double(12.5),
        quality: Quality::Bad,
        quality_code: Some(1),
        source_timestamp_ns: Some(1_000),
        value_origin: ValueOrigin::LastKnown,
    };
    snap.apply_batch(&batch(2, 2_000_000, vec![pv_last]), "ep1");
    let e = snap.latest_all()[0].copy();
    assert_eq!(e.value_origin, "LAST_KNOWN");
    assert_eq!(e.source_timestamp_ns, Some(1_000));
    snap.mark_communication_lost("ep1");
    let e2 = &snap.latest_all()[0];
    assert_eq!(e2.quality, "BAD");
    assert_eq!(e2.quality_code.as_deref(), Some("COMMUNICATION_LOST"));
    assert_eq!(e2.value_origin, "LAST_KNOWN");
    assert_eq!(e2.source_timestamp_ns, Some(1_000));
    let mut snap2 = Snapshot::new();
    snap2.register_points("ep2", &[definition(2, "k2", DataType::I32, None)]);
    snap2.apply_batch(
        &batch(
            1,
            1_000_000,
            vec![PointValue {
                point_id: 2,
                value: TypedValue::I32(0),
                quality: Quality::Bad,
                quality_code: Some(1),
                source_timestamp_ns: Some(123),
                value_origin: ValueOrigin::Placeholder,
            }],
        ),
        "ep2",
    );
    snap2.mark_communication_lost("ep2");
    let e3 = &snap2.latest_all()[0];
    assert_eq!(e3.value_origin, "PLACEHOLDER");
    assert_eq!(e3.source_timestamp_ns, None);
}

fn current(id: u32, x: f64) -> PointValue {
    PointValue {
        point_id: id,
        value: double(x),
        quality: Quality::Good,
        quality_code: None,
        source_timestamp_ns: None,
        value_origin: ValueOrigin::Current,
    }
}

#[test]
fn source_label_flows_from_register_to_latest() {
    let mut snap = Snapshot::new();
    snap.register_points(
        "ep1",
        &[
            definition(1, "k1", DataType::F64, Some("DB10.DBD20")),
            definition(2, "k2", DataType::F64, None),
        ],
    );
    snap.apply_batch(&batch(1, 1_000_000, vec![current(1, 1.0), current(2, 2.0)]), "ep1");
    let all = snap.latest_all();
    let e1 = all.iter().find(|e| e.point_id == 1).unwrap();
    let e2 = all.iter().find(|e| e.point_id == 2).unwrap();
    assert_eq!(e1.source_label.as_deref(), Some("DB10.DBD20"));
    assert_eq!(e2.source_label, None);
    let json = e1.to_json();
    assert_eq!(json.get("source_label").unwrap().as_str(), Some("DB10.DBD20"));
}

#[test]
fn register_refreshes_existing_latest_labels_without_new_batch() {
    let mut snap = Snapshot::new();
    let def = |label: Option<&str>| vec![definition(1, "motor.speed", DataType::F64, label)];
    snap.register_points("ep1", &def(Some("DB10.DBD20")));
    snap.apply_batch(&batch(1, 1_000_000, vec![current(1, 1500.0)]), "ep1");
    assert_eq!(snap.latest_all()[0].source_label.as_deref(), Some("DB10.DBD20"));
    snap.register_points("ep1", &def(Some("DB20.DBD40")));
    assert_eq!(snap.latest_all()[0].source_label.as_deref(), Some("DB20.DBD40"));
    snap.register_points("ep1", &def(None));
    assert_eq!(snap.latest_all()[0].source_label, None);
    assert_eq!(
        snap.latest_all()[0].value.value,
        Json::Number(JsonNumber::Float(Double { bits: 1500.0f64.to_bits() }))
    );
}

#[test]
fn entries_are_listed_by_endpoint_and_by_point() {
    let mut snap = Snapshot::new();
    snap.apply_batch(&batch(1, 1, vec![current(9, 0.0), current(2, 0.0)]), "b");
    snap.apply_batch(&batch(1, 1, vec![current(5, 0.0)]), "a");
    let list: Vec<(String, u32)> =
        snap.latest_all().iter().map(|e| (e.endpoint_id.clone(), e.point_id)).collect();
    assert_eq!(list, vec![("a".to_string(), 5), ("b".to_string(), 2), ("b".to_string(), 9)]);
    assert_eq!(snap.envelopes_total(), 2);
    assert_eq!(snap.point_value_total(), 3);
    snap.remove_endpoint("b");
    assert_eq!(snap.latest_all().len(), 1);
}

#[test]
fn losing_an_endpoint_leaves_the_others_alone() {
    let mut snap = Snapshot::new();
    snap.apply_batch(&batch(1, 1, vec![current(1, 1.5)]), "a");
    snap.apply_batch(&batch(1, 1, vec![current(1, 2.5)]), "b");
    snap.mark_communication_lost("a");
    let once = snap.latest_all();
    assert_eq!((once[0].quality.as_str(), once[1].quality.as_str()), ("BAD", "GOOD"));
    snap.mark_communication_lost("a");
    assert_eq!(snap.latest_all(), once);
    assert_eq!(
        once[0].value.value,
        Json::Number(JsonNumber::Float(Double { bits: 1.5f64.to_bits() }))
    );
}

#[test]
fn endpoints_report_how_they_are_doing() {
    let mut snap = Snapshot::new();
    assert!(snap.endpoint("e").is_none());
    let status = |state: &str| EndpointStatus {
        endpoint_id: "e".to_string(),
        driver_id: "d".to_string(),
        state: state.to_string(),
        detail: String::new(),
        revision: 3,
        points: 2,
        epoch: 9,
    };
    snap.upsert_endpoint(status("CONNECTING"));
    snap.upsert_endpoint(status("RUNNING"));
    assert_eq!(snap.endpoints().len(), 1);
    assert_eq!(snap.endpoint("e").unwrap().state, "RUNNING");
    assert_eq!(
        snap.endpoint("e").unwrap().to_json().to_text(),
        r#"{"detail":"","driver_id":"d","endpoint_id":"e","epoch":9,"points":2,"revision":3,"state":"RUNNING"}"#
    );
}

#[test]
fn delays_are_kept_up_to_a_number() {
    let mut snap = Snapshot::new();
    for ns in 0..5000u64 {
        snap.record_ipc_latency_ns(ns);
        snap.record_latency_ns(ns);
    }
    assert_eq!(snap.ipc_latencies_snapshot().len(), LATENCY_CAPACITY);
    assert_eq!(snap.ipc_latencies_snapshot()[0], 5000 - LATENCY_CAPACITY as u64);
    assert_eq!(snap.latencies_snapshot(), snap.snapshot_apply_latencies_snapshot());
    assert_eq!(snap.latencies_snapshot().last(), Some(&4999));
}

#[test]
fn points_can_be_called_otherwise() {
    let mut snap = Snapshot::new();
    snap.register_points("e", &[definition(1, "k", DataType::F64, None)]);
    snap.apply_batch(&batch(1, 10, vec![current(1, 2.0)]), "e");
    assert_eq!(snap.latest_all()[0].display_name, None);
    snap.update_display_name("e", 1, Some("Speed".to_string()));
    assert_eq!(snap.latest_all()[0].display_name.as_deref(), Some("Speed"));
    snap.update_display_name("e", 2, Some("Nothing".to_string()));
    assert_eq!(snap.latest_all().len(), 1);
}
