use mesa::audit::ControlAuditRecord;
use mesa::event::EventTask;
use mesa::json::Json;
use mesa::migration::{migrate, migrated_name, MigrationStep, SchemaFacts, SCHEMA_VERSION};
use mesa::secrets::{
    aead_decrypt, aead_encrypt, aead_encrypt_drawn, generate_key, key_from_environment,
    key_from_file, memory_key,
};
use mesa::source::StorePointIdSource;
use mesa::store::{
    ConfigStore, DeviceRecord, EndpointRecord, SealedSecret, SecretRow, StoreError,
};
use mesa::types::{
    AcquisitionTask, DataType, DriverBinding, PointDefinition, PointDescriptor, TaskMode,
};

fn mem() -> ConfigStore {
    ConfigStore::open_in_memory()
}

fn dev(id: &str) -> DeviceRecord {
    DeviceRecord { id: id.to_string(), name: format!("{id} 名称") }
}

fn ep(id: &str, device: &str) -> EndpointRecord {
    EndpointRecord {
        id: id.to_string(),
        name: format!("{id} 名称"),
        device_id: device.to_string(),
        driver_id: "simulator".to_string(),
        connection_json: "{}".to_string(),
        desired_running: false,
        updated_at_ns: 0,
    }
}

fn empty() -> Json {
    Json::Object(Vec::new())
}

fn task(id: &str, interval: u64) -> AcquisitionTask {
    AcquisitionTask {
        id: id.to_string(),
        mode: TaskMode::Poll,
        interval_ms: Some(interval),
        binding: DriverBinding { kind: "simulator.points".to_string(), config: empty() },
    }
}

fn desc(key: &str, ty: DataType) -> PointDescriptor {
    PointDescriptor { point_key: key.to_string(), data_type: ty, unit: None, source_label: None }
}

fn desc_label(key: &str, ty: DataType, label: Option<&str>) -> PointDescriptor {
    PointDescriptor {
        point_key: key.to_string(),
        data_type: ty,
        unit: None,
        source_label: label.map(|s| s.to_string()),
    }
}

fn def<'a>(defs: &'a [PointDefinition], key: &str) -> &'a PointDefinition {
    defs.iter().find(|d| d.point_key == key).unwrap()
}

#[test]
fn device_crud_roundtrip() {
    let mut s = mem();
    assert!(s.get_device("d1").is_none());
    s.create_device(&dev("d1")).unwrap();
    assert!(matches!(s.create_device(&dev("d1")), Err(StoreError::Duplicate(_))));
    let list = s.list_devices();
    assert_eq!(list.len(), 1);
    assert_eq!(list[0].id, "d1");
    let mut d = dev("d1");
    d.name = "new".to_string();
    assert!(s.update_device(&d).unwrap());
    assert_eq!(s.get_device("d1").unwrap().name, "new");
    assert!(s.delete_device("d1").unwrap());
    assert!(!s.delete_device("d1").unwrap());
}

#[test]
fn device_delete_restricted_when_endpoint_exists() {
    let mut s = mem();
    s.create_device(&dev("plc001")).unwrap();
    s.create_endpoint(&ep("ep1", "plc001")).unwrap();
    assert!(matches!(s.delete_device("plc001"), Err(StoreError::Conflict(_))));
    assert!(s.delete_endpoint("ep1"));
    assert!(s.delete_device("plc001").unwrap());
}

#[test]
fn endpoint_crud_and_desired_state() {
    let mut s = mem();
    s.create_device(&dev("d1")).unwrap();
    s.create_endpoint(&ep("e1", "d1")).unwrap();
    assert!(matches!(s.create_endpoint(&ep("e1", "d1")), Err(StoreError::Duplicate(_))));
    let mut bad = ep("e2", "d1");
    bad.connection_json = "not json".to_string();
    assert!(s.create_endpoint(&bad).is_err());
    assert!(s.set_desired_running("e1", true));
    assert!(s.get_endpoint("e1").unwrap().desired_running);
    assert_eq!(s.list_endpoints().len(), 1);
    assert!(s.delete_endpoint("e1"));
}

#[test]
fn replace_tasks_full_snapshot_and_revision() {
    let mut s = mem();
    s.create_device(&dev("d1")).unwrap();
    s.create_endpoint(&ep("e1", "d1")).unwrap();
    assert_eq!(s.current_revision("e1"), 0);
    let r1 = s.replace_tasks("e1", &[task("t1", 100)]).unwrap();
    assert_eq!(r1, 1);
    assert_eq!(s.current_revision("e1"), 1);
    assert_eq!(s.list_tasks("e1").len(), 1);
    let r2 = s.replace_tasks("e1", &[task("t2", 200), task("t3", 300)]).unwrap();
    assert_eq!(r2, 2);
    let tasks = s.list_tasks("e1");
    assert_eq!(tasks.len(), 2);
    assert!(tasks.iter().any(|t| t.id == "t2"));
    assert!(!tasks.iter().any(|t| t.id == "t1"));
    s.replace_tasks("e1", &[]).unwrap();
    assert!(s.list_tasks("e1").is_empty());
    assert_eq!(s.current_revision("e1"), 3);
}

#[test]
fn replace_tasks_rejects_invalid_and_duplicate_ids() {
    let mut s = mem();
    s.create_device(&dev("d1")).unwrap();
    s.create_endpoint(&ep("e1", "d1")).unwrap();
    let bad = AcquisitionTask {
        id: "t1".to_string(),
        mode: TaskMode::Poll,
        interval_ms: None,
        binding: DriverBinding { kind: "k".to_string(), config: empty() },
    };
    assert!(matches!(s.replace_tasks("e1", &[bad]), Err(StoreError::Validation(_))));
    assert_eq!(s.current_revision("e1"), 0);
    assert!(matches!(
        s.replace_tasks("e1", &[task("dup", 100), task("dup", 200)]),
        Err(StoreError::Validation(_))
    ));
}

fn event_task(id: &str) -> EventTask {
    EventTask {
        id: id.to_string(),
        mode: TaskMode::Subscribe,
        interval_ms: None,
        binding: DriverBinding {
            kind: "simulator.events".to_string(),
            config: Json::parse(r#"{"stream": "sim.events.alarm-cycle"}"#).unwrap(),
        },
    }
}

/// What the steps make of a database, as the statements behind them do.
fn stepped(facts: &SchemaFacts) -> SchemaFacts {
    let mut out = facts.clone();
    for step in migrate(facts) {
        match step {
            MigrationStep::RecordInitial => out.recorded.push(1),
            MigrationStep::NameVersion { version } => {
                if out.version.is_none() {
                    out.version = Some(version.to_string());
                }
            }
            MigrationStep::Apply { version, run_sql } => {
                if run_sql && version == 4 {
                    out.device_profile = false;
                }
                if run_sql && version == 5 {
                    out.endpoint_name = true;
                }
                if run_sql && version == 7 {
                    out.point_source_label = true;
                }
                out.recorded.push(version);
                out.version = Some(version.to_string());
            }
            MigrationStep::SetVersion { version } => out.version = Some(version.to_string()),
        }
    }
    out
}

fn new_database() -> SchemaFacts {
    SchemaFacts {
        version: None,
        recorded: Vec::new(),
        device_profile: true,
        endpoint_name: false,
        point_source_label: false,
    }
}

#[test]
fn migration_003_event_tasks_table() {
    let db = stepped(&new_database());
    assert_eq!(db.version.as_deref(), Some("7"));
    assert!(db.recorded.contains(&3));
    let mut s = mem();
    s.create_device(&dev("d1")).unwrap();
    s.create_endpoint(&ep("e1", "d1")).unwrap();
    assert!(s.list_event_tasks("e1").unwrap().is_empty());
    let r1 = s.replace_event_tasks("e1", &[event_task("al")]).unwrap();
    assert_eq!(r1, 1);
    let tasks = s.list_event_tasks("e1").unwrap();
    assert_eq!(tasks.len(), 1);
    assert_eq!(tasks[0].id, "al");
    assert_eq!(tasks[0].mode, TaskMode::Subscribe);
    s.replace_tasks("e1", &[task("t1", 100)]).unwrap();
    assert_eq!(s.current_revision("e1"), 2);
    let bad = EventTask {
        id: "bad".to_string(),
        mode: TaskMode::Poll,
        interval_ms: None,
        binding: DriverBinding { kind: "k".to_string(), config: empty() },
    };
    assert!(matches!(s.replace_event_tasks("e1", &[bad]), Err(StoreError::Validation(_))));
    assert_eq!(s.current_revision("e1"), 2);
    assert_eq!(s.list_event_tasks("e1").unwrap().len(), 1);
    assert!(matches!(
        s.replace_event_tasks("e1", &[event_task("d"), event_task("d")]),
        Err(StoreError::Validation(_))
    ));
    assert!(s.delete_endpoint("e1"));
    assert!(s.list_event_tasks("e1").unwrap().is_empty());
}

#[test]
fn migration_chain_intact_through_003() {
    let db = stepped(&new_database());
    let ver = db.version.clone().unwrap();
    assert!(ver == "7", "新库应为 v7，got {ver}");
    assert!(db.recorded.contains(&2), "002 迁移记录不得丢失");
    assert!(db.recorded.len() >= 4, "至少 4 条迁移");
    assert!(db.recorded.contains(&7), "007 迁移记录不得丢失");
    assert!(db.point_source_label, "point_registry 必须含 source_label 列");
    let s = mem();
    assert_eq!(s.all_secrets().len(), 0);
    assert_eq!(s.all_audits().len(), 0);
}

#[test]
fn databases_of_any_age_reach_the_version_of_the_schema() {
    for named in 1..=7i64 {
        let db = SchemaFacts {
            version: Some(named.to_string()),
            recorded: (1..=named).collect(),
            device_profile: named < 4,
            endpoint_name: named >= 5,
            point_source_label: named >= 7,
        };
        let new = stepped(&db);
        assert_eq!(new.version, Some(SCHEMA_VERSION.to_string()));
        assert_eq!(new.recorded, (1..=7).collect::<Vec<i64>>());
        assert!(!new.device_profile);
        assert!(new.endpoint_name);
        assert!(new.point_source_label);
        assert!(migrate(&new).is_empty());
    }
}

#[test]
fn point_source_label_snapshot_semantics() {
    let mut s = mem();
    s.create_device(&dev("d1")).unwrap();
    s.create_endpoint(&ep("e1", "d1")).unwrap();
    let defs1 = s
        .assign_point_ids(
            "e1",
            &[
                desc_label("a", DataType::F64, Some("DB10.DBD20")),
                desc_label("b", DataType::Bool, None),
            ],
        )
        .unwrap();
    let id_a = def(&defs1, "a").point_id;
    assert_eq!(def(&defs1, "a").source_label.as_deref(), Some("DB10.DBD20"));
    let defs2 = s
        .assign_point_ids(
            "e1",
            &[
                desc_label("a", DataType::F64, Some("DB20.DBD40")),
                desc_label("b", DataType::Bool, Some("M10.0")),
            ],
        )
        .unwrap();
    assert_eq!(def(&defs2, "a").point_id, id_a);
    assert_eq!(def(&defs2, "a").source_label.as_deref(), Some("DB20.DBD40"));
    let defs3 = s.assign_point_ids("e1", &[desc_label("a", DataType::F64, None)]).unwrap();
    assert_eq!(def(&defs3, "a").point_id, id_a);
    assert_eq!(def(&defs3, "a").source_label, None);
}

#[test]
fn point_id_stable_and_tombstone_reuse() {
    let mut s = mem();
    s.create_device(&dev("d1")).unwrap();
    s.create_endpoint(&ep("e1", "d1")).unwrap();
    let defs1 =
        s.assign_point_ids("e1", &[desc("a", DataType::F64), desc("b", DataType::Bool)]).unwrap();
    let id_a1 = def(&defs1, "a").point_id;
    let id_b1 = def(&defs1, "b").point_id;
    assert_ne!(id_a1, id_b1);
    let defs2 = s
        .assign_point_ids(
            "e1",
            &[desc("a", DataType::F64), desc("b", DataType::Bool), desc("c", DataType::I32)],
        )
        .unwrap();
    assert_eq!(def(&defs2, "a").point_id, id_a1);
    assert_eq!(def(&defs2, "b").point_id, id_b1);
    let id_c = def(&defs2, "c").point_id;
    s.assign_point_ids("e1", &[desc("a", DataType::F64), desc("c", DataType::I32)]).unwrap();
    let all = s.point_registry_all("e1");
    let b_entry = all.iter().find(|row| row.0 == "b").unwrap();
    assert!(b_entry.3, "b 应为墓碑");
    let defs3 = s
        .assign_point_ids(
            "e1",
            &[
                desc("a", DataType::F64),
                desc("b", DataType::Bool),
                desc("c", DataType::I32),
                desc("d", DataType::String),
            ],
        )
        .unwrap();
    assert_eq!(def(&defs3, "b").point_id, id_b1);
    let id_d = def(&defs3, "d").point_id;
    assert!(id_d > id_c && id_d != id_b1, "新 key 不得复用墓碑 id");
    let map = s.point_map("e1");
    assert_eq!(map.len(), 4);
}

#[test]
fn point_id_rejects_duplicate_key() {
    let mut s = mem();
    s.create_device(&dev("d1")).unwrap();
    s.create_endpoint(&ep("e1", "d1")).unwrap();
    let err = s
        .assign_point_ids("e1", &[desc("a", DataType::F64), desc("a", DataType::Bool)])
        .unwrap_err();
    assert!(matches!(err, StoreError::Validation(_)));
}

#[test]
fn point_id_cross_endpoint_isolation() {
    let mut s = mem();
    s.create_device(&dev("d1")).unwrap();
    s.create_endpoint(&ep("e1", "d1")).unwrap();
    s.create_endpoint(&ep("e2", "d1")).unwrap();
    let d1 = s.assign_point_ids("e1", &[desc("x", DataType::F64)]).unwrap();
    let d2 = s.assign_point_ids("e2", &[desc("x", DataType::F64)]).unwrap();
    assert_eq!(d1[0].point_id, 1);
    assert_eq!(d2[0].point_id, 1);
}

fn secret_row<'a>(s: &'a ConfigStore, endpoint: &str, field: &str) -> &'a SecretRow {
    s.all_secrets().get(endpoint).unwrap().get(field).unwrap()
}

#[test]
fn secret_not_plaintext_and_roundtrip() {
    let mut s = mem();
    s.create_device(&dev("d1")).unwrap();
    s.create_endpoint(&ep("e1", "d1")).unwrap();
    s.put_secret("e1", "password", "s3cr3t", "k1").unwrap();
    assert_ne!(secret_row(&s, "e1", "password").ciphertext, b"s3cr3t".to_vec());
    let pt = s.get_secret("e1", "password").unwrap().unwrap();
    assert_eq!(pt, "s3cr3t");
    s.put_secret("e1", "password", "another", "k2").unwrap();
    let pt2 = s.get_secret("e1", "password").unwrap().unwrap();
    assert_eq!(pt2, "another");
    assert!(
        !std::path::Path::new("data/master.key").exists(),
        "in-memory secret must not create data/master.key under CWD"
    );
    assert!(
        !std::path::Path::new("./master.key").exists(),
        "in-memory secret must not create ./master.key under CWD"
    );
}

#[test]
fn each_store_has_its_own_master_key() {
    let mut a = ConfigStore::with_key(generate_key().unwrap());
    let mut b = ConfigStore::with_key(generate_key().unwrap());
    let mut m = mem();
    for (s, text) in [(&mut a, "a-secret"), (&mut b, "b-secret"), (&mut m, "mem-secret")] {
        s.create_device(&dev("d0")).unwrap();
        s.create_endpoint(&ep("e0", "d0")).unwrap();
        s.put_secret("e0", "password", text, "k").unwrap();
    }
    assert_eq!(a.get_secret("e0", "password").unwrap().as_deref(), Some("a-secret"));
    assert_eq!(b.get_secret("e0", "password").unwrap().as_deref(), Some("b-secret"));
    assert_eq!(m.get_secret("e0", "password").unwrap().as_deref(), Some("mem-secret"));
    // What one store sealed another one cannot open.
    let row = secret_row(&a, "e0", "password").clone();
    b.load_secret("e0", "password".to_string(), row).unwrap();
    assert_ne!(b.get_secret("e0", "password").ok().flatten().as_deref(), Some("a-secret"));
}

#[test]
fn secrets_go_with_their_endpoint() {
    let mut s = mem();
    s.create_device(&dev("d1")).unwrap();
    let secrets = [("password".to_string(), "pw".to_string()), ("pin".to_string(), "1234".to_string())];
    s.create_endpoint_with_secrets(&ep("e1", "d1"), &secrets).unwrap();
    assert_eq!(s.list_secret_fields("e1"), vec!["password".to_string(), "pin".to_string()]);
    assert_eq!(s.get_secret("e1", "pin").unwrap().as_deref(), Some("1234"));
    assert!(s.delete_secret("e1", "pin"));
    assert!(!s.delete_secret("e1", "pin"));
    assert_eq!(s.get_secret("e1", "pin").unwrap(), None);
    assert!(s.delete_endpoint("e1"));
    assert!(s.list_secret_fields("e1").is_empty());
    assert_eq!(s.get_secret("e1", "password").unwrap(), None);
}

#[test]
fn sealed_text_opens_to_the_text_under_its_key_alone() {
    let key = memory_key();
    assert_eq!(key, vec![0xA5u8; 32]);
    let (sealed, nonce) = aead_encrypt("中文 secret", &key).unwrap();
    assert_eq!(nonce.len(), 24);
    assert_ne!(sealed, "中文 secret".as_bytes().to_vec());
    assert_eq!(sealed.len(), "中文 secret".len() + 16);
    assert_eq!(aead_decrypt(&sealed, &nonce, &key).unwrap(), "中文 secret".as_bytes());
    let other = generate_key().unwrap();
    assert_eq!(other.len(), 32);
    assert!(aead_decrypt(&sealed, &nonce, &other).is_err());
    let (again, other_nonce) = aead_encrypt("中文 secret", &key).unwrap();
    assert_ne!(nonce, other_nonce);
    assert_ne!(sealed, again);
}

#[test]
fn texts_are_sealed_under_the_nonce_that_was_drawn() {
    let key = memory_key();
    let nonce: Vec<u8> = (0..24).collect();
    let (sealed, used) = aead_encrypt_drawn("pw", &key, Ok(nonce.clone())).unwrap();
    assert_eq!(used, nonce);
    assert_eq!(aead_decrypt(&sealed, &nonce, &key).unwrap(), b"pw");
    let again = aead_encrypt_drawn("pw", &key, Ok(nonce)).unwrap();
    assert_eq!(again.0, sealed);
    let none = aead_encrypt_drawn("pw", &key, Err("no entropy".to_string()));
    assert_eq!(none, Err("no entropy".to_string()));
}

#[test]
fn master_keys_are_read_from_the_environment_and_from_files() {
    assert_eq!(key_from_environment(None).unwrap(), None);
    let text = "AAECAwQFBgcICQoLDA0ODxAREhMUFRYXGBkaGxwdHh8=";
    let key = key_from_environment(Some(text)).unwrap().unwrap();
    assert_eq!(key, (0..32).collect::<Vec<u8>>());
    assert!(key_from_environment(Some("c2hvcnQ=")).is_err());
    assert_eq!(key_from_file((0..32).collect()), Some((0..32).collect()));
    assert_eq!(key_from_file(vec![1, 2, 3]), None);
}

#[test]
fn control_audit_insert_and_query() {
    let mut s = mem();
    let rec = ControlAuditRecord {
        request_id: "req-1".to_string(),
        endpoint_id: "ep1".to_string(),
        actor: "local-console".to_string(),
        operation_type: "write".to_string(),
        operation_id: "opcua.write".to_string(),
        request_json: r#"{"value":42}"#.to_string(),
        result_json: Some(r#"{"ok":true}"#.to_string()),
        status: "Succeeded".to_string(),
        started_at_ns: 1000,
        finished_at_ns: Some(2000),
    };
    s.insert_control_audit(&rec).unwrap();
    let got = s.get_control_audit("req-1").unwrap();
    assert_eq!(got.request_id, "req-1");
    assert_eq!(got.actor, "local-console");
    assert_eq!(got.status, "Succeeded");
}

fn audit(id: &str, endpoint: &str, status: &str, at: i64) -> ControlAuditRecord {
    ControlAuditRecord {
        request_id: id.to_string(),
        endpoint_id: endpoint.to_string(),
        actor: "a".to_string(),
        operation_type: "write".to_string(),
        operation_id: "o".to_string(),
        request_json: "{}".to_string(),
        result_json: None,
        status: status.to_string(),
        started_at_ns: at,
        finished_at_ns: None,
    }
}

#[test]
fn audits_are_listed_from_the_latest_on() {
    let mut s = mem();
    for (id, endpoint, status, at) in
        [("a", "e1", "Succeeded", 10), ("b", "e2", "Failed", 30), ("c", "e1", "Failed", 20)]
    {
        s.insert_control_audit(&audit(id, endpoint, status, at)).unwrap();
    }
    assert!(matches!(
        s.insert_control_audit(&audit("a", "e9", "x", 1)),
        Err(StoreError::Sqlite(_))
    ));
    let ids = |list: Vec<ControlAuditRecord>| -> Vec<String> {
        list.into_iter().map(|r| r.request_id).collect()
    };
    assert_eq!(ids(s.list_control_audit(None, None, None, None, 50, None)), ["b", "c", "a"]);
    assert_eq!(ids(s.list_control_audit(Some("e1"), None, None, None, 50, None)), ["c", "a"]);
    assert_eq!(ids(s.list_control_audit(None, Some("Failed"), None, None, 50, None)), ["b", "c"]);
    assert_eq!(ids(s.list_control_audit(None, None, Some(15), Some(25), 50, None)), ["b", "c"]);
    assert_eq!(ids(s.list_control_audit(None, None, None, None, 1, None)), ["b"]);
    assert_eq!(ids(s.list_control_audit(None, None, None, None, 50, Some("30"))), ["c", "a"]);
    s.update_control_audit("c", "Succeeded", Some("{}"), 99);
    let c = s.get_control_audit("c").unwrap();
    // What ended after the time is left out; what has not ended is not.
    assert_eq!(ids(s.list_control_audit(None, None, Some(15), Some(25), 50, None)), ["b"]);
    assert_eq!((c.status.as_str(), c.result_json.as_deref(), c.finished_at_ns), ("Succeeded", Some("{}"), Some(99)));
}

fn bootstrap_ep(id: &str, device: &str) -> EndpointRecord {
    let mut e = ep(id, device);
    e.desired_running = true;
    e
}

#[test]
fn bootstrap_tx_all_or_nothing() {
    let mut s = mem();
    let rev = s
        .bootstrap_device_tx_with_plaintext(
            &dev("d1"),
            &bootstrap_ep("e1", "d1"),
            &[],
            &[task("t1", 1000)],
        )
        .unwrap();
    assert_eq!(rev, 1);
    assert!(s.get_device("d1").is_some());
    assert!(s.get_endpoint("e1").is_some());
    assert_eq!(s.list_tasks("e1").len(), 1);
}

#[test]
fn bootstrap_tx_duplicate_device_rolls_back_endpoint() {
    let mut s = mem();
    s.create_device(&dev("d1")).unwrap();
    let r = s.bootstrap_device_tx_with_plaintext(
        &dev("d1"),
        &bootstrap_ep("e2", "d1"),
        &[],
        &[task("t1", 1000)],
    );
    assert!(matches!(r, Err(StoreError::Duplicate(_))));
    assert!(s.get_endpoint("e2").is_none());
    assert!(s.list_tasks("e2").is_empty());
}

#[test]
fn bootstrap_tx_bad_tasks_rolls_back_all() {
    let mut s = mem();
    let mut bad = task("", 1000);
    bad.id = "".to_string();
    let r = s.bootstrap_device_tx_with_plaintext(
        &dev("d9"),
        &bootstrap_ep("e9", "d9"),
        &[],
        &[bad],
    );
    assert!(matches!(r, Err(StoreError::Validation(_))));
    assert!(s.get_device("d9").is_none());
    assert!(s.get_endpoint("e9").is_none());
}

#[test]
fn bootstrap_idempotency_put_get_roundtrip() {
    let mut s = mem();
    assert!(s.bootstrap_idempotency_get("k1").is_none());
    s.bootstrap_idempotency_put("k1", "hash-a", "d1", "e1", r#"{"ok":true}"#);
    let row = s.bootstrap_idempotency_get("k1").unwrap();
    assert_eq!(row.0, "hash-a");
    assert_eq!(row.1, r#"{"ok":true}"#);
}

#[test]
fn bootstrap_compensate_removes_endpoint_then_device() {
    let mut s = mem();
    s.bootstrap_device_tx_with_plaintext(
        &dev("d1"),
        &bootstrap_ep("e1", "d1"),
        &[],
        &[task("t1", 1000)],
    )
    .unwrap();
    s.bootstrap_compensate("d1", "e1").unwrap();
    assert!(s.get_endpoint("e1").is_none());
    assert!(s.get_device("d1").is_none());
    s.bootstrap_compensate("d1", "e1").unwrap();
}

#[test]
fn bootstrap_idempotency_delete_by_device() {
    let mut s = mem();
    s.bootstrap_idempotency_put("k1", "h", "d1", "e1", "{}");
    s.bootstrap_idempotency_put("k2", "h", "d1", "e2", "{}");
    s.bootstrap_idempotency_put("k3", "h", "d9", "e9", "{}");
    assert_eq!(s.bootstrap_idempotency_delete_by_device("d1"), 2);
    assert!(s.bootstrap_idempotency_get("k1").is_none());
    assert!(s.bootstrap_idempotency_get("k2").is_none());
    assert!(s.bootstrap_idempotency_get("k3").is_some());
    assert_eq!(s.bootstrap_idempotency_delete_by_device("ghost"), 0);
}

#[test]
fn blank_and_long_ids_are_refused() {
    let mut s = mem();
    assert_eq!(
        s.create_device(&dev(" ")).unwrap_err().message(),
        "validation: id 不能为空"
    );
    assert!(matches!(s.create_device(&dev(&"x".repeat(129))), Err(StoreError::Validation(_))));
    s.create_device(&dev(&"x".repeat(128))).unwrap();
    assert!(matches!(s.create_endpoint(&ep("e1", "none")), Err(StoreError::NotFound(_))));
    let mut list = ep("e1", &"x".repeat(128));
    list.connection_json = "[]".to_string();
    assert!(matches!(s.create_endpoint(&list), Err(StoreError::Validation(_))));
    list.connection_json = "{".to_string();
    assert!(matches!(s.create_endpoint(&list), Err(StoreError::Json(_))));
    assert!(matches!(s.replace_tasks("ghost", &[]), Err(StoreError::NotFound(_))));
}

#[test]
fn devices_are_set_up_with_secrets_that_are_sealed_already() {
    let mut s = mem();
    let (ciphertext, nonce) = aead_encrypt("pw", &memory_key()).unwrap();
    let sealed = SealedSecret { field: "password".to_string(), ciphertext, nonce };
    let rev = s
        .bootstrap_device_tx(&dev("d1"), &bootstrap_ep("e1", "d1"), &vec![sealed], &[])
        .unwrap();
    assert_eq!(rev, 1);
    assert_eq!(s.get_secret("e1", "password").unwrap().as_deref(), Some("pw"));
}

#[test]
fn endpoints_without_a_name_are_named_by_their_id() {
    assert_eq!(migrated_name("e1", " \t"), "e1");
    assert_eq!(migrated_name("e1", ""), "e1");
    assert_eq!(migrated_name("e1", " Line "), " Line ");
}

#[test]
fn tasks_are_listed_as_they_were_given() {
    let mut s = mem();
    s.create_device(&dev("d1")).unwrap();
    s.create_endpoint(&ep("e1", "d1")).unwrap();
    let mut b = task("b", 200);
    b.binding.config = Json::parse(r#"{"a":[1,-2,null],"z":{"k":"v"}}"#).unwrap();
    let a = AcquisitionTask { mode: TaskMode::Subscribe, interval_ms: None, ..task("a", 1) };
    assert_eq!(s.replace_tasks("e1", &[b.clone(), a.clone()]).unwrap(), 1);
    assert_eq!(s.list_tasks("e1"), vec![a, b.clone()]);
    let e = EventTask { id: "b".to_string(), mode: b.mode, interval_ms: b.interval_ms, binding: b.binding };
    assert_eq!(s.replace_event_tasks("e1", &[e.clone()]).unwrap(), 2);
    assert_eq!(s.list_event_tasks("e1").unwrap(), vec![e]);
}

#[test]
fn ids_suffice_for_new_points_until_they_are_used_up() {
    let mut s = mem();
    s.create_device(&dev("d1")).unwrap();
    s.create_endpoint(&ep("e1", "d1")).unwrap();
    s.assign_point_ids("e1", &[desc("a", DataType::I32)]).unwrap();
    let keys = vec!["a".to_string(), "b".to_string()];
    assert!(s.has_room_for("e1", &keys));
    let source = StorePointIdSource::new(s);
    assert!(source.is_ready("e1", &keys));
    assert!(source.is_ready("e2", &Vec::new()));
}

fn nonces(list: &[Result<u8, &str>]) -> Vec<Result<Vec<u8>, String>> {
    list.iter().map(|x| x.map(|b| vec![b; 24]).map_err(|e| e.to_string())).collect()
}

#[test]
fn what_was_drawn_decides_what_is_stored() {
    let secrets = vec![("a".to_string(), "A".to_string()), ("b".to_string(), "B".to_string())];
    let good = nonces(&[Ok(1), Ok(2)]);
    let bad = nonces(&[Ok(1), Err("no entropy")]);
    let lost = Err(StoreError::Validation("no entropy".to_string()));

    let mut s = mem();
    s.create_device(&dev("d1")).unwrap();
    assert_eq!(s.create_endpoint_drawn(&ep("e1", "d1"), &secrets, &bad, 5), lost);
    assert!(s.get_endpoint("e1").is_none());
    let blank = s.create_endpoint_drawn(&ep("", "d1"), &secrets, &bad, 5);
    assert_eq!(blank, Err(StoreError::Validation("id 不能为空".to_string())));
    s.create_endpoint_drawn(&ep("e1", "d1"), &secrets, &good, 5).unwrap();
    assert_eq!(s.get_secret("e1", "b").unwrap().as_deref(), Some("B"));
    let row = s.all_secrets().get("e1").unwrap().get("b").unwrap();
    assert_eq!((row.nonce.as_slice(), row.key_id.as_str()), ([2u8; 24].as_slice(), "master"));

    let other = vec![("a".to_string(), "C".to_string())];
    let gone = vec!["b".to_string()];
    let none = nonces(&[Err("no entropy")]);
    let one = nonces(&[Ok(9)]);
    let renamed = EndpointRecord { name: "other".to_string(), ..ep("e1", "d1") };
    assert_eq!(s.update_endpoint_drawn(&renamed, &other, &gone, &none, 6), lost.map(|()| true));
    assert_eq!(s.get_endpoint("e1").unwrap().name, "e1 名称");
    assert_eq!(s.get_secret("e1", "b").unwrap().as_deref(), Some("B"));
    assert_eq!(s.update_endpoint_drawn(&renamed, &other, &gone, &one, 6), Ok(true));
    assert_eq!(s.get_secret("e1", "a").unwrap().as_deref(), Some("C"));
    assert_eq!(s.get_secret("e1", "b").unwrap(), None);
    assert_eq!(s.update_endpoint_drawn(&ep("e9", "d1"), &other, &gone, &one, 6), Ok(false));

    let mut s = mem();
    let tasks = [task("t1", 100)];
    let (d, e) = (dev("d2"), ep("e2", "d2"));
    let r = s.bootstrap_device_tx_drawn(&d, &e, &secrets, &tasks, &bad, 7);
    assert_eq!(r, Err(StoreError::Validation("no entropy".to_string())));
    assert!(s.get_device("d2").is_none());
    assert_eq!(s.bootstrap_device_tx_drawn(&d, &e, &secrets, &tasks, &good, 7), Ok(1));
    assert_eq!(s.get_secret("e2", "a").unwrap().as_deref(), Some("A"));
    assert_eq!(s.list_tasks("e2").len(), 1);
}

#[test]
fn a_secret_is_kept_under_the_nonce_that_was_drawn() {
    let mut s = mem();
    s.create_device(&dev("d1")).unwrap();
    s.create_endpoint(&ep("e1", "d1")).unwrap();
    s.put_secret_drawn("e1", "p", "x", "k2", Ok(vec![3; 24]), 8).unwrap();
    assert_eq!(s.get_secret("e1", "p").unwrap().as_deref(), Some("x"));
    let row = s.all_secrets().get("e1").unwrap().get("p").unwrap();
    assert_eq!((row.key_id.as_str(), row.nonce.as_slice()), ("k2", [3u8; 24].as_slice()));
    let e = s.put_secret_drawn("e1", "p", "y", "k2", Err("no".to_string()), 9).unwrap_err();
    assert_eq!(e, StoreError::Validation("no".to_string()));
    assert_eq!(s.get_secret("e1", "p").unwrap().as_deref(), Some("x"));
    assert!(matches!(
        s.put_secret_drawn("gone", "p", "y", "k2", Ok(vec![3; 24]), 9),
        Err(StoreError::Sqlite(_))
    ));
}
