use mesa::api::ApiResponse;
use mesa::bootstrap::{
    bootstrap_device, bootstrap_device_drawn, bootstrap_finished, canonical_json, device_bootstrap, idempotency_key,
    request_fingerprint, start_created_endpoint, BootstrapAcquisition, BootstrapDevice,
    BootstrapEndpoint, BootstrapRequest,
};
use mesa::capability::{ControlCatalog, DriverCapabilities};
use mesa::connection::{
    materialize_connection, process_connection_drawn, process_connection_for_store,
    redact_connection_for_response, secret_field_keys,
};
use mesa::control::{
    control_command, control_write, finish_command, finish_write, json_to_value, CommandOutcome,
    ControlError, ControlWriteReq, GivenValue,
};
use mesa::descriptor::{DriverDescriptor, DriverIdentity};
use mesa::devices;
use mesa::endpoints::{
    create_endpoint, create_endpoint_drawn, delete_endpoint, endpoint_started, get_endpoint,
    list_endpoints, start_endpoint, stop_endpoint, update_endpoint, update_endpoint_drawn,
    CreateEndpointReq, UpdateEndpointReq,
};
use mesa::event::EventCatalog;
use mesa::float::Double;
use mesa::json::{Json, JsonNumber};
use mesa::manager::DescriptorError;
use mesa::queries::{
    browse_endpoint, browse_finished, diagnostics, endpoint_diagnostics, endpoint_state,
    get_control_audit, get_driver, get_driver_descriptor, import_endpoint, latest_points,
    list_control_audit, list_drivers, probe_driver, probe_finished, validate_connection, AuditQuery,
    BrowseReq,
};
use mesa::resource::{
    AccessMode, GenericBinding, OutputDescriptor, OutputTypeSpec, ResourceDescriptor,
    ResourceSelection, SelectedOutput, GENERIC_BINDING_KIND,
};
use mesa::schema::{FieldDescriptor, FieldType, LocalizedText, SchemaDescriptor};
use mesa::session::BrowseNode;
use mesa::snapshot::{DriverInfo, EndpointStatus, Snapshot};
use mesa::startup::{demo_tasks, maybe_seed_demo, parse_args, restored_endpoints};
use mesa::store::{ConfigStore, DeviceRecord, StoreError};
use mesa::tasks::{delete_task, list_tasks, put_tasks_for_endpoint, replace_tasks, ReadTasks};
use mesa::types::{AcquisitionTask, DataType, DriverBinding, TaskMode, TypedValue};

fn json(text: &str) -> Json {
    Json::parse(text).unwrap()
}

fn body(r: &ApiResponse) -> String {
    r.body.to_text()
}

fn concat(parts: &[&str]) -> String {
    parts.concat()
}

fn code(r: &ApiResponse) -> (u16, String) {
    let c = r.body.get("error").unwrap().get("code").unwrap().as_str().unwrap().to_string();
    (r.status, c)
}

fn schema() -> SchemaDescriptor {
    SchemaDescriptor::new(vec![
        FieldDescriptor::new("host", "Host", FieldType::Host).required(true),
        FieldDescriptor::new("password", "Password", FieldType::Secret),
    ])
}

fn described() -> Result<SchemaDescriptor, DescriptorError> {
    Ok(schema())
}

fn silent() -> Result<SchemaDescriptor, DescriptorError> {
    Err(DescriptorError::new("DRIVER_UNAVAILABLE", "gone".to_string()))
}

fn gone() -> Result<DriverDescriptor, DescriptorError> {
    Err(DescriptorError::new("DRIVER_UNAVAILABLE", "gone".to_string()))
}

fn create(id: &str, connection: &str) -> CreateEndpointReq {
    CreateEndpointReq {
        id: id.to_string(),
        name: id.to_string(),
        device_id: "d".to_string(),
        driver_id: "sim".to_string(),
        connection: json(connection),
    }
}

fn store_with_endpoint() -> ConfigStore {
    let mut s = ConfigStore::open_in_memory();
    let d = DeviceRecord { id: "d".to_string(), name: "D".to_string() };
    assert_eq!(devices::create_device(&mut s, &d).status, 201);
    let r = create_endpoint(
        &mut s,
        create("e", r#"{"host":"h","password":"s3cr3t"}"#),
        &described(),
        7,
    );
    assert_eq!((r.status, body(&r)), (201, r#"{"id":"e"}"#.to_string()));
    s
}

#[test]
fn secrets_are_sealed_hidden_and_put_back() {
    let s = store_with_endpoint();
    let kept = s.get_endpoint("e").unwrap().connection_json;
    assert_eq!(kept, r#"{"host":"h","password":{"secret_set":true}}"#);
    assert_eq!(s.get_secret("e", "password").unwrap().as_deref(), Some("s3cr3t"));
    let shown = get_endpoint(&s, &Snapshot::new(), "e", &described());
    assert!(!body(&shown).contains("s3cr3t"));
    assert_eq!(
        shown.body.get("connection").unwrap().to_text(),
        r#"{"host":"h","password":{"secret_set":true}}"#
    );
    let cfg = start_endpoint(&s, false, "e", &descriptor(), &[]).unwrap();
    assert_eq!(cfg.connection_json, r#"{"host":"h","password":"s3cr3t"}"#);
    let refused = start_endpoint(&s, false, "e", &gone(), &[]).unwrap_err();
    assert_eq!(code(&refused), (503, "DRIVER_UNAVAILABLE".to_string()));
    assert_eq!(code(&start_endpoint(&s, true, "e", &descriptor(), &[]).unwrap_err()).0, 409);
    assert_eq!(code(&start_endpoint(&s, false, "x", &descriptor(), &[]).unwrap_err()).0, 404);
}

#[test]
fn plain_secrets_of_old_are_hidden_too() {
    let mut s = ConfigStore::open_in_memory();
    s.create_device(&DeviceRecord { id: "d".to_string(), name: "D".to_string() }).unwrap();
    let keys = secret_field_keys(&schema());
    assert_eq!(keys, vec!["password".to_string()]);
    let shown =
        redact_connection_for_response(json(r#"{"host":"h","password":"pw"}"#), "e", &s, &keys);
    assert!(!shown.to_text().contains("pw"));
    let lost = materialize_connection(r#"{"password":{"secret_set":true}}"#, "e", &s, &keys);
    assert!(lost.is_err());
    let plain = materialize_connection(r#"{"password":"pw"}"#, "e", &s, &keys).unwrap();
    assert_eq!(plain, r#"{"password":"pw"}"#);
}

#[test]
fn new_connections_need_plain_secrets() {
    let mut s = store_with_endpoint();
    let r = create_endpoint(
        &mut s,
        create("e2", r#"{"host":"h","password":{"secret_set":true}}"#),
        &described(),
        7,
    );
    assert_eq!(code(&r), (400, "VALIDATION_ERROR".to_string()));
    let r = create_endpoint(&mut s, create("e2", "[]"), &described(), 7);
    assert_eq!(code(&r).0, 400);
    let r = create_endpoint(&mut s, create("e2", "{}"), &silent(), 7);
    assert_eq!(code(&r).0, 503);
    let r = create_endpoint(&mut s, create("e", r#"{"host":"h"}"#), &described(), 7);
    assert_eq!(code(&r), (409, "CONFLICT".to_string()));
}

fn change(connection: &str) -> UpdateEndpointReq {
    UpdateEndpointReq {
        name: None,
        device_id: "d".to_string(),
        driver_id: "sim".to_string(),
        connection: json(connection),
    }
}

#[test]
fn drivers_get_the_connection_that_was_changed_with_the_secrets_that_were_kept() {
    let mut s = store_with_endpoint();
    let keep = change(r#"{"host":"h2","password":{"secret_set":true}}"#);
    assert_eq!(update_endpoint(&mut s, false, "e", keep, &described(), 8).status, 200);
    let cfg = start_endpoint(&s, false, "e", &descriptor(), &[]).unwrap();
    assert_eq!(cfg.connection_json, r#"{"host":"h2","password":"s3cr3t"}"#);
    let other = change(r#"{"host":"h3","password":"new"}"#);
    assert_eq!(update_endpoint(&mut s, false, "e", other, &described(), 9).status, 200);
    let cfg = start_endpoint(&s, false, "e", &descriptor(), &[]).unwrap();
    assert_eq!(cfg.connection_json, r#"{"host":"h3","password":"new"}"#);
}

#[test]
fn secrets_are_kept_changed_and_dropped() {
    let mut s = store_with_endpoint();
    let keep = change(r#"{"host":"h2","password":{"secret_set":true}}"#);
    assert_eq!(update_endpoint(&mut s, false, "e", keep, &described(), 8).status, 200);
    assert_eq!(s.get_secret("e", "password").unwrap().as_deref(), Some("s3cr3t"));
    let other = change(r#"{"host":"h2","password":"new"}"#);
    assert_eq!(update_endpoint(&mut s, false, "e", other, &described(), 9).status, 200);
    assert_eq!(s.get_secret("e", "password").unwrap().as_deref(), Some("new"));
    let none = change(r#"{"host":"h2"}"#);
    assert_eq!(update_endpoint(&mut s, false, "e", none, &described(), 10).status, 200);
    assert_eq!(s.get_secret("e", "password").unwrap(), None);
    let running = update_endpoint(&mut s, true, "e", change("{}"), &described(), 11);
    assert_eq!(code(&running).0, 409);
    let moved = UpdateEndpointReq { driver_id: "other".to_string(), ..change(r#"{"host":"h3"}"#) };
    let refused = update_endpoint(&mut s, false, "e", moved, &described(), 11);
    assert_eq!(code(&refused), (400, "VALIDATION_ERROR".to_string()));
    let kept = s.get_endpoint("e").unwrap();
    assert_eq!((kept.driver_id.as_str(), kept.updated_at_ns), ("sim", 10));
    assert_eq!(kept.connection_json, r#"{"host":"h2"}"#);
    let missing = update_endpoint(&mut s, false, "x", change("{}"), &described(), 11);
    assert_eq!(code(&missing).0, 404);
}

#[test]
fn unknown_connections_show_no_text() {
    let mut s = store_with_endpoint();
    assert!(s.delete_secret("e", "password"));
    let r = get_endpoint(&s, &Snapshot::new(), "e", &silent());
    assert_eq!(r.body.get("connection").unwrap(), &Json::Null);
    let known = vec![("sim".to_string(), Some(vec!["password".to_string()]))];
    let all = list_endpoints(&s, &Snapshot::new(), &known);
    assert!(body(&all).contains(r#""host":"h""#));
    let none = list_endpoints(&s, &Snapshot::new(), &Vec::new());
    assert!(!body(&none).contains(r#""host":"h""#));
}

#[test]
fn endpoints_are_started_stopped_and_deleted() {
    let mut s = store_with_endpoint();
    let mut snap = Snapshot::new();
    assert_eq!(body(&endpoint_started(&mut s, "e", Ok(()), 9)), r#"{"started":"e"}"#);
    assert!(s.get_endpoint("e").unwrap().desired_running);
    assert_eq!(code(&endpoint_started(&mut s, "e", Err("x".to_string()), 9)).0, 400);
    let r = stop_endpoint(&mut s, "e", true, 9);
    assert_eq!(body(&r), r#"{"stopped":"e","was_running":true}"#);
    assert!(!s.get_endpoint("e").unwrap().desired_running);
    assert_eq!(code(&delete_endpoint(&mut s, &mut snap, true, "e")).0, 409);
    assert_eq!(delete_endpoint(&mut s, &mut snap, false, "e").status, 200);
    assert_eq!(code(&delete_endpoint(&mut s, &mut snap, false, "e")).0, 404);
}

#[test]
fn devices_are_managed() {
    let mut s = store_with_endpoint();
    assert_eq!(body(&devices::list_devices(&s)), r#"{"devices":[{"id":"d","name":"D"}]}"#);
    assert_eq!(devices::get_device(&s, "d").status, 200);
    assert_eq!(code(&devices::get_device(&s, "x")).0, 404);
    let d = DeviceRecord { id: "d".to_string(), name: "E".to_string() };
    assert_eq!(devices::update_device(&mut s, &d).status, 200);
    assert_eq!(code(&devices::create_device(&mut s, &d)).0, 409);
    assert_eq!(code(&devices::delete_device(&mut s, "d")).0, 409);
    assert_eq!(code(&devices::delete_device(&mut s, "x")).0, 404);
}

fn task(id: &str, kind: &str) -> AcquisitionTask {
    AcquisitionTask {
        id: id.to_string(),
        mode: TaskMode::Poll,
        interval_ms: Some(100),
        binding: DriverBinding { kind: kind.to_string(), config: Json::Object(Vec::new()) },
    }
}

#[test]
fn tasks_are_replaced_and_taken_out() {
    let mut s = store_with_endpoint();
    let id = Some("e".to_string());
    assert_eq!(code(&list_tasks(&s, &None)).0, 400);
    let given = [task("a", "k"), task("b", "k")];
    let none = || Err("unused".to_string());
    let r = replace_tasks(&mut s, false, &id, &given, &gone(), &[none(), none()], 1);
    assert_eq!(r.status, 200);
    assert_eq!(code(&replace_tasks(&mut s, true, &id, &[], &descriptor(), &[], 1)).0, 409);
    assert_eq!(code(&replace_tasks(&mut s, false, &None, &[], &descriptor(), &[], 1)).0, 400);
    assert_eq!(delete_task(&mut s, false, "e", "a", 2).status, 200);
    assert_eq!(s.list_tasks("e").len(), 1);
    assert_eq!(code(&delete_task(&mut s, false, "e", "a", 2)).0, 404);
    let missing = ReadTasks::Missing;
    let r = put_tasks_for_endpoint(&mut s, false, "e", &missing, &descriptor(), &[], 3);
    assert_eq!(code(&r).0, 400);
    let empty = ReadTasks::Tasks(Vec::new());
    let r = put_tasks_for_endpoint(&mut s, false, "e", &empty, &descriptor(), &[], 3);
    assert_eq!(r.status, 200);
    let r = put_tasks_for_endpoint(&mut s, false, "x", &empty, &gone(), &[], 3);
    assert_eq!(code(&r).0, 404);
    let r = list_tasks(&s, &id);
    assert_eq!(body(&r), r#"{"endpoint_id":"e","revision":3,"tasks":[]}"#);
}

fn selection(resource: &str, point_key: &str) -> Result<GenericBinding, String> {
    Ok(GenericBinding {
        selections: vec![ResourceSelection {
            resource_id: resource.to_string(),
            parameters: Json::Null,
            outputs: vec![SelectedOutput {
                output: "value".to_string(),
                point_key: point_key.to_string(),
            }],
        }],
    })
}

fn offering() -> Result<DriverDescriptor, DescriptorError> {
    let text = |s: &str| LocalizedText { default: s.to_string(), zh_cn: None };
    let mut d = descriptor().unwrap();
    d.resources = vec![ResourceDescriptor {
        id: "register".to_string(),
        label: text("Register"),
        parameters: SchemaDescriptor::new(Vec::new()),
        outputs: vec![OutputDescriptor {
            id: "value".to_string(),
            label: text("Value"),
            type_spec: OutputTypeSpec::Fixed { data_type: DataType::I32 },
            unit: None,
            access: AccessMode::Read,
        }],
        modes: vec![TaskMode::Poll],
    }];
    Ok(d)
}

#[test]
fn tasks_are_kept_only_where_their_driver_offers_what_they_select() {
    let mut s = store_with_endpoint();
    let id = Some("e".to_string());
    let two = [task("a", GENERIC_BINDING_KIND), task("b", GENERIC_BINDING_KIND)];
    let fine = [selection("register", "k1"), selection("register", "k2")];
    let twice = [selection("register", "k"), selection("register", "k")];
    let unknown = [selection("register", "k1"), selection("coil", "k2")];
    let unread = [selection("register", "k1"), Err("missing field".to_string())];
    let r = replace_tasks(&mut s, false, &id, &two, &gone(), &fine, 1);
    assert_eq!(code(&r), (503, "DRIVER_UNAVAILABLE".to_string()));
    let r = replace_tasks(&mut s, false, &id, &two, &offering(), &unread, 1);
    assert_eq!(r.status, 400);
    assert!(body(&r).contains(r#""code":"INVALID_BINDING_CONFIG""#));
    assert!(body(&r).contains(r#""path":"tasks[1].binding""#));
    let r = replace_tasks(&mut s, false, &id, &two, &offering(), &unknown, 1);
    assert!(body(&r).contains(r#""path":"tasks[1].selections[0].resource_id""#));
    let read = ReadTasks::Tasks(two.to_vec());
    let r = put_tasks_for_endpoint(&mut s, false, "e", &read, &offering(), &twice, 1);
    assert_eq!((r.status, r.body.get("valid").unwrap()), (400, &Json::Bool(false)));
    assert!(s.list_tasks("e").is_empty());
    let r = put_tasks_for_endpoint(&mut s, false, "e", &read, &offering(), &fine, 1);
    assert_eq!(r.status, 200);
    assert_eq!(s.list_tasks("e").len(), 2);
    assert_eq!(start_endpoint(&s, false, "e", &offering(), &fine).unwrap().tasks.len(), 2);
    assert_eq!(start_endpoint(&s, false, "e", &offering(), &twice).unwrap_err().status, 400);
    assert_eq!(start_endpoint(&s, false, "e", &descriptor(), &fine).unwrap_err().status, 400);
    assert_eq!(start_endpoint(&s, false, "e", &gone(), &fine).unwrap_err().status, 503);
    let r = replace_tasks(&mut s, false, &Some("x".to_string()), &two, &gone(), &fine, 1);
    assert_eq!(code(&r).0, 404);
}

#[test]
fn connections_that_do_not_fit_are_refused() {
    let mut s = store_with_endpoint();
    let r = create_endpoint(&mut s, create("e2", "{}"), &described(), 7);
    assert_eq!(r.status, 400);
    assert_eq!(
        body(&r),
        concat(&[
            r#"{"issues":[{"code":"REQUIRED","message":"field `host` is required","#,
            r#""path":"connection.host"}],"valid":false}"#,
        ])
    );
    assert!(s.get_endpoint("e2").is_none());
    let odd = r#"{"host":"h","hots":"h"}"#;
    assert_eq!(create_endpoint(&mut s, create("e2", odd), &described(), 7).status, 400);
    let before = s.get_endpoint("e").unwrap();
    for c in ["{}", odd, r#"{"host":7,"password":{"secret_set":true}}"#] {
        let r = update_endpoint(&mut s, false, "e", change(c), &described(), 8);
        assert_eq!((r.status, r.body.get("valid").unwrap()), (400, &Json::Bool(false)));
    }
    assert_eq!(s.get_endpoint("e").unwrap(), before);
    assert_eq!(s.get_secret("e", "password").unwrap().as_deref(), Some("s3cr3t"));
}

#[test]
fn a_kept_secret_that_does_not_fit_is_not_told() {
    let mut s = store_with_endpoint();
    let mut strict = schema();
    strict.fields[1].validation.pattern = Some("^[0-9]+$".to_string());
    let keep = change(r#"{"host":"h","password":{"secret_set":true}}"#);
    let r = update_endpoint(&mut s, false, "e", keep, &Ok(strict), 8);
    assert_eq!(r.status, 400);
    assert!(body(&r).contains(r#""code":"PATTERN_MISMATCH""#));
    assert!(body(&r).contains(r#""path":"connection.password""#));
    assert!(!body(&r).contains("s3cr3t"));
}

fn given(text: &str) -> GivenValue {
    GivenValue { value: json(text), tagged: Err("not tagged".to_string()) }
}

#[test]
fn values_are_taken_as_they_are_meant() {
    assert_eq!(json_to_value(given("true")).unwrap(), TypedValue::Bool(true));
    assert_eq!(json_to_value(given("5")).unwrap(), TypedValue::I32(5));
    assert_eq!(json_to_value(given("\"x\"")).unwrap(), TypedValue::String("x".to_string()));
    assert_eq!(
        json_to_value(given("1.5")).unwrap(),
        TypedValue::F64(Double { bits: 1.5f64.to_bits() })
    );
    assert_eq!(json_to_value(given("3000000000")).unwrap(), TypedValue::I64(3_000_000_000));
    assert_eq!(json_to_value(given("null")).unwrap_err(), "null value not allowed");
    assert!(json_to_value(given("[1]")).unwrap_err().contains("Number(1)"));
    assert_eq!(json_to_value(given("{}")).unwrap_err(), "not tagged");
}

fn write() -> ControlWriteReq {
    ControlWriteReq {
        target: "t".to_string(),
        value: given("5"),
        expected_value: None,
        value_typed: None,
    }
}

#[test]
fn control_is_logged_whatever_comes_of_it() {
    let mut s = store_with_endpoint();
    let shut = control_write(false, &mut s, "e", write(), 5, 5).unwrap_err();
    assert_eq!(code(&shut), (503, "CONTROL_DISABLED".to_string()));
    assert_eq!(s.all_audits().len(), 0);
    let w = control_write(true, &mut s, "e", write(), 5, 5).unwrap();
    assert_eq!(w.value, TypedValue::I32(5));
    assert_eq!(s.all_audits().len(), 1);
    let r = finish_write(&mut s, &w.request_id, Ok(None), 9);
    assert_eq!(r.status, 200);
    let done = s.get_control_audit(&w.request_id).unwrap();
    assert_eq!((done.status.as_str(), done.finished_at_ns), ("COMPLETED", Some(9)));
    let c = control_command(true, &mut s, "e", "reset", &json("{}"), 6, 6).unwrap();
    let lost = ControlError { code: "ENDPOINT_NOT_RUNNING".to_string(), message: "x".to_string() };
    let r = finish_command(&mut s, &c.request_id, Err(lost), 9);
    assert!(r.status >= 400);
    assert_eq!(s.all_audits().len(), 2);
    let c = control_command(true, &mut s, "e", "reset", &json("{}"), 7, 7).unwrap();
    let ok = CommandOutcome {
        status: "Succeeded".to_string(),
        result_json: "{}".to_string(),
        error: String::new(),
    };
    assert_eq!(finish_command(&mut s, &c.request_id, Ok(ok), 9).status, 200);
    let q = AuditQuery {
        endpoint_id: Some("e".to_string()),
        status: None,
        from_ns: None,
        to_ns: None,
        limit: Some(2),
        cursor: None,
    };
    let r = list_control_audit(&s, &q);
    assert_eq!(r.body.get("count").unwrap().to_text(), "2");
    assert_eq!(r.body.get("next_cursor").unwrap().as_str(), Some("6"));
    assert_eq!(get_control_audit(&s, &w.request_id).status, 200);
    assert_eq!(code(&get_control_audit(&s, "none")).0, 404);
}

fn driver() -> DriverInfo {
    DriverInfo {
        id: "sim".to_string(),
        name: "Sim".to_string(),
        version: "0.1.0".to_string(),
        protocol: "1.3".to_string(),
        launchable: true,
        reason: None,
    }
}

#[test]
fn drivers_are_asked_about() {
    let mut snap = Snapshot::new();
    snap.set_drivers(vec![driver()]);
    let shown = r#"{"id":"sim","launchable":true,"name":"Sim","protocol":"1.3","reason":null,"version":"0.1.0"}"#;
    assert_eq!(body(&list_drivers(&snap.drivers())), format!(r#"{{"drivers":[{shown}]}}"#));
    assert_eq!(body(&get_driver(&snap, "sim")), shown);
    assert_eq!(code(&get_driver(&snap, "x")).0, 404);
    let bad = DescriptorError::new("DRIVER_DESCRIPTOR_VALIDATION_FAILED", "m".to_string());
    assert_eq!(
        body(&get_driver_descriptor(&bad)),
        r#"{"error":{"code":"DRIVER_DESCRIPTOR_VALIDATION_FAILED","issues":[],"message":"m"}}"#
    );
    let inner = json(r#"{"connection":{"host":"h"}}"#);
    let r = validate_connection(&snap, "sim", &described(), &inner);
    assert_eq!((r.status, body(&r)), (200, r#"{"issues":[],"valid":true}"#.to_string()));
    assert_eq!(validate_connection(&snap, "sim", &described(), &json("{}")).status, 400);
    let odd = json(r#"{"connection":{"host":"h","hots":"h"}}"#);
    let r = validate_connection(&snap, "sim", &described(), &odd);
    assert_eq!(r.status, 400);
    assert!(body(&r).contains(r#""code":"UNKNOWN_FIELD""#));
    assert!(body(&r).contains(r#""path":"connection.hots""#));
    assert_eq!(validate_connection(&snap, "sim", &silent(), &inner).status, 503);
    assert_eq!(validate_connection(&snap, "x", &described(), &inner).status, 404);
}

#[test]
fn connections_are_tried() {
    assert_eq!(
        probe_driver(true, "sim", &json(r#"{"connection":{"a":1}}"#)).unwrap(),
        r#"{"a":1}"#
    );
    assert_eq!(probe_driver(true, "sim", &json(r#"{"a":1}"#)).unwrap(), r#"{"a":1}"#);
    assert_eq!(code(&probe_driver(true, "sim", &json("[]")).unwrap_err()).0, 400);
    assert_eq!(code(&probe_driver(false, "sim", &json("{}")).unwrap_err()).0, 404);
    assert_eq!(code(&probe_finished(None)), (504, "TIMEOUT".to_string()));
    assert_eq!(body(&probe_finished(Some(Ok(())))), r#"{"reachable":true,"warnings":[]}"#);
    assert_eq!(
        body(&probe_finished(Some(Err("no".to_string())))),
        r#"{"error":"no","reachable":false,"warnings":[]}"#
    );
}

#[test]
fn endpoints_are_browsed_with_their_secrets() {
    let s = store_with_endpoint();
    let req = |limit: Option<u32>| BrowseReq { parent: None, filter: None, cursor: None, limit };
    let p = browse_endpoint(&s, "e", &described(), req(None)).unwrap();
    assert_eq!((p.limit, p.parent.as_str()), (50, ""));
    assert_eq!(p.connection_json, r#"{"host":"h","password":"s3cr3t"}"#);
    assert_eq!(browse_endpoint(&s, "e", &described(), req(Some(9999))).unwrap().limit, 1000);
    assert_eq!(code(&browse_endpoint(&s, "x", &described(), req(None)).unwrap_err()).0, 404);
    let node = BrowseNode {
        id: "i".to_string(),
        label: "l".to_string(),
        kind: "k".to_string(),
        data_type: "t".to_string(),
        access: "a".to_string(),
        has_children: true,
        binding_json: "{}".to_string(),
    };
    let r = browse_finished(Ok((vec![node], None)));
    assert_eq!(
        body(&r),
        r#"{"next_cursor":null,"nodes":[{"access":"a","binding_json":"{}","data_type":"t","has_children":true,"id":"i","kind":"k","label":"l"}]}"#
    );
    let e = |c: &str| browse_finished(Err(DescriptorError::new(c, "m".to_string()))).status;
    assert_eq!((e("BROWSE_FAILED"), e("DRIVER_UNAVAILABLE"), e("BAD")), (503, 503, 400));
    assert_eq!(code(&import_endpoint()).0, 501);
}

#[test]
fn all_is_told_of_how_things_are_doing() {
    let s = store_with_endpoint();
    let mut snap = Snapshot::new();
    snap.set_drivers(vec![driver()]);
    let r = endpoint_diagnostics(&s, &snap, "e");
    assert_eq!(r.body.get("connection_state").unwrap().as_str(), Some("UNKNOWN"));
    assert_eq!(r.body.get("driver_version").unwrap().as_str(), Some("0.1.0"));
    assert_eq!(r.body.get("point_count").unwrap().to_text(), "0");
    assert_eq!(code(&endpoint_diagnostics(&s, &snap, "x")).0, 404);
    assert_eq!(code(&endpoint_state(&snap, "e")).0, 200);
    snap.upsert_endpoint(EndpointStatus {
        endpoint_id: "e".to_string(),
        driver_id: "sim".to_string(),
        state: "RUNNING".to_string(),
        detail: String::new(),
        revision: 1,
        points: 0,
        epoch: 1,
    });
    assert_eq!(endpoint_state(&snap, "e").body.get("state").unwrap().as_str(), Some("RUNNING"));
    assert_eq!(body(&latest_points(&snap)), r#"{"count":0,"points":[]}"#);
    let d = diagnostics(&s, &snap, 1.5f64.to_bits(), json("{}"), "0.1.0");
    assert_eq!(d.body.get("uptime_secs").unwrap().to_text(), "1.5");
    assert_eq!(
        d.body.get("uptime_secs").unwrap(),
        &Json::Number(JsonNumber::Float(Double { bits: 1.5f64.to_bits() }))
    );
    assert_eq!(d.body.get("devices").unwrap().to_text(), r#"{"stored":1}"#);
    assert_eq!(d.body.get("endpoints").unwrap().get("runtime").unwrap().to_text(), "1");
}

fn descriptor() -> Result<DriverDescriptor, DescriptorError> {
    Ok(DriverDescriptor {
        contract_major: 2,
        contract_minor: 0,
        identity: DriverIdentity {
            driver_id: "sim".to_string(),
            name: "Sim".to_string(),
            version: "0.1.0".to_string(),
        },
        connection: schema(),
        resources: Vec::new(),
        controls: ControlCatalog { commands: Vec::new() },
        resource_selection_methods: Vec::new(),
        capabilities: DriverCapabilities {
            poll: true,
            subscribe: true,
            write: false,
            method: false,
            events: false,
        },
        events: EventCatalog { streams: Vec::new() },
    })
}

fn request(connection: &str, tasks: Vec<AcquisitionTask>, key: Option<&str>) -> BootstrapRequest {
    BootstrapRequest {
        device: BootstrapDevice { id: "d".to_string(), name: "D".to_string() },
        endpoint: BootstrapEndpoint {
            id: "e".to_string(),
            name: "E".to_string(),
            driver_id: "sim".to_string(),
            connection: json(connection),
        },
        acquisition: Some(BootstrapAcquisition { tasks }),
        start: None,
        idempotency_key: key.map(|s| s.to_string()),
    }
}

const CONNECTION: &str = r#"{"host":"h","password":"pw"}"#;

#[test]
fn fingerprints_follow_what_is_said_not_how() {
    let a = Json::Object(vec![
        ("b".to_string(), json("1")),
        ("a".to_string(), json("[true,{\"y\":1,\"x\":2}]")),
    ]);
    assert_eq!(canonical_json(&a), r#"{"a":[true,{"x":2,"y":1}],"b":1}"#);
    assert_eq!(request_fingerprint(&a), request_fingerprint(&json(r#"{"a":[true,{"x":2,"y":1}],"b":1}"#)));
    assert_eq!(request_fingerprint(&json("\"\"")), "07cc7607b4949e25".to_string());
    assert_ne!(request_fingerprint(&json("1")), request_fingerprint(&json("2")));
}

#[test]
fn requests_in_another_order_are_the_same() {
    let s = ConfigStore::open_in_memory();
    let sent = |connection: Json| {
        let mut r = request(CONNECTION, vec![task("t", "k")], Some("key"));
        r.endpoint.connection = connection;
        device_bootstrap(&s, None, &r).unwrap().fingerprint
    };
    let deep = |first: &str, second: &str| {
        Json::Object(vec![
            ("o".to_string(), Json::Object(vec![
                (first.to_string(), json("1")),
                (second.to_string(), json("1")),
            ])),
            ("a".to_string(), json("[]")),
        ])
    };
    assert_eq!(sent(deep("x", "y")), sent(deep("y", "x")));
    assert_ne!(sent(deep("x", "y")), sent(deep("x", "z")));
}

#[test]
fn keys_come_from_the_header_first() {
    let r = request(CONNECTION, Vec::new(), Some(" body "));
    assert_eq!(idempotency_key(Some(" head "), &r).as_deref(), Some("head"));
    assert_eq!(idempotency_key(Some("  "), &r).as_deref(), Some("body"));
    assert_eq!(idempotency_key(None, &request(CONNECTION, Vec::new(), Some(" "))), None);
}

#[test]
fn requests_are_carried_out_once_under_their_key() {
    let mut s = ConfigStore::open_in_memory();
    let mut snap = Snapshot::new();
    let req = request(CONNECTION, vec![task("t", "k")], Some("key"));
    let begun = device_bootstrap(&s, None, &req).unwrap();
    let none = || Err("unused".to_string());
    let n = bootstrap_device(&mut s, &req, &descriptor(), &[none()], 5).unwrap();
    assert_eq!(n, 1);
    let cfg = start_created_endpoint(&s, "e", &descriptor(), &[none()]).unwrap();
    assert_eq!(cfg.connection_json, CONNECTION);
    assert_eq!(cfg.tasks.len(), 1);
    let r = bootstrap_finished(&mut s, &mut snap, &req, &begun, n, Some(Ok(())), 6);
    let done = r#"{"device_id":"d","endpoint_id":"e","revision":1,"started":true}"#;
    assert_eq!((r.status, body(&r)), (201, done.to_string()));
    let again = device_bootstrap(&s, None, &req).unwrap_err();
    let replayed =
        r#"{"device_id":"d","endpoint_id":"e","replayed":true,"revision":1,"started":true}"#;
    assert_eq!((again.status, body(&again)), (200, replayed.to_string()));
    let other = request(r#"{"host":"h","password":"other"}"#, vec![task("t", "k")], Some("key"));
    let conflict = device_bootstrap(&s, None, &other).unwrap_err();
    assert_eq!(code(&conflict), (409, "IDEMPOTENCY_CONFLICT".to_string()));
    assert!(device_bootstrap(&s, Some("fresh"), &req).is_ok());
}

#[test]
fn failed_starts_leave_nothing() {
    let mut s = ConfigStore::open_in_memory();
    let mut snap = Snapshot::new();
    let req = request(CONNECTION, Vec::new(), Some("key"));
    let begun = device_bootstrap(&s, None, &req).unwrap();
    let n = bootstrap_device(&mut s, &req, &descriptor(), &[], 5).unwrap();
    let failed = Some(Err("boom".to_string()));
    let r = bootstrap_finished(&mut s, &mut snap, &req, &begun, n, failed, 6);
    assert_eq!(code(&r), (502, "START_FAILED".to_string()));
    assert_eq!(
        body(&r),
        concat(&[
            r#"{"compensated":true,"device_id":"d","endpoint_id":"e","#,
            r#""error":{"code":"START_FAILED","message":"boom"},"start_failed":true}"#,
        ])
    );
    assert!(s.get_device("d").is_none());
    assert!(s.get_endpoint("e").is_none());
    assert!(s.list_secret_fields("e").is_empty());
    assert!(device_bootstrap(&s, None, &req).is_ok());
}

#[test]
fn bad_requests_create_nothing() {
    let mut s = ConfigStore::open_in_memory();
    let list = device_bootstrap(&s, None, &request("[]", Vec::new(), None)).unwrap_err();
    assert_eq!(code(&list).0, 400);
    let no_host = request("{}", Vec::new(), None);
    let r = bootstrap_device(&mut s, &no_host, &descriptor(), &[], 5).unwrap_err();
    assert_eq!((r.status, r.body.get("valid").unwrap()), (400, &Json::Bool(false)));
    let fine = request(CONNECTION, Vec::new(), None);
    assert_eq!(bootstrap_device(&mut s, &fine, &gone(), &[], 5).unwrap_err().status, 503);
    let generic = request(CONNECTION, vec![task("t", GENERIC_BINDING_KIND)], None);
    let unread = [Err("missing field".to_string())];
    let r = bootstrap_device(&mut s, &generic, &descriptor(), &unread, 5).unwrap_err();
    assert!(body(&r).contains("acquisition.tasks[0].binding"));
    let unknown = [Ok(GenericBinding {
        selections: vec![ResourceSelection {
            resource_id: "r".to_string(),
            parameters: Json::Null,
            outputs: vec![SelectedOutput { output: "o".to_string(), point_key: "k".to_string() }],
        }],
    })];
    let r = bootstrap_device(&mut s, &generic, &descriptor(), &unknown, 5).unwrap_err();
    assert!(body(&r).contains("acquisition.tasks[0].selections[0].resource_id"));
    assert!(s.get_device("d").is_none());
}

fn words(list: &[&str]) -> Vec<String> {
    list.iter().map(|s| s.to_string()).collect()
}

#[test]
fn arguments_are_read() {
    let (a, unknown) = parse_args(&words(&["mesad"]));
    assert_eq!((a.drivers_dir.as_str(), a.http_port, a.db_path.as_str()), ("drivers", 8132, "mesa.db"));
    assert!(!a.enable_control && unknown.is_empty());
    let (a, unknown) = parse_args(&words(&[
        "mesad", "--db", "x.db", "--what", "--http-port", "9000", "--enable-control", "--drivers-dir",
    ]));
    assert_eq!((a.drivers_dir.as_str(), a.http_port, a.db_path.as_str()), ("drivers", 9000, "x.db"));
    assert!(a.enable_control);
    assert_eq!(unknown, words(&["--what"]));
    assert_eq!(parse_args(&words(&["mesad", "--http-port", "70000"])).0.http_port, 8132);
}

#[test]
fn new_stores_get_an_example_that_is_restored() {
    let mut s = ConfigStore::open_in_memory();
    assert_eq!(maybe_seed_demo(&mut s, 5), Ok(true));
    assert_eq!(maybe_seed_demo(&mut s, 6), Ok(false));
    let list = restored_endpoints(&s);
    assert_eq!(list.len(), 1);
    assert_eq!((list[0].endpoint_id.as_str(), list[0].driver_id.as_str()), ("sim-001", "simulator"));
    assert_eq!(list[0].tasks, demo_tasks());
    assert!(s.set_desired_running("sim-001", false));
    assert!(restored_endpoints(&s).is_empty());
}

#[test]
fn secrets_of_a_connection_are_kept_one_by_one() {
    let mut store = store_with_endpoint();
    let mut entries = vec![
        ("host".to_string(), json("\"h\"")),
        ("password".to_string(), json("\"pw\"")),
    ];
    let keys = vec!["password".to_string(), "token".to_string()];
    process_connection_for_store(&mut entries, "e", &mut store, &keys).unwrap();
    assert_eq!(Json::Object(entries).to_text(), r#"{"host":"h","password":{"secret_set":true}}"#);
    assert_eq!(store.get_secret("e", "password").unwrap().as_deref(), Some("pw"));
    assert_eq!(store.get_secret("e", "token").unwrap(), None);
    let mut entries = vec![("password".to_string(), json("\"pw\""))];
    let e = process_connection_for_store(&mut entries, "gone", &mut store, &keys).unwrap_err();
    assert!(matches!(e, StoreError::Sqlite(_) | StoreError::Validation(_)));
    assert_eq!(Json::Object(entries).to_text(), r#"{"password":"pw"}"#);
}

#[test]
fn what_was_drawn_decides_how_requests_are_answered() {
    let good = vec![Ok(vec![7u8; 24])];
    let bad = vec![Err("no more".to_string())];
    let given = r#"{"host":"h","password":"pw"}"#;
    let mut s = store_with_endpoint();
    let r = create_endpoint_drawn(&mut s, create("e2", given), &described(), &bad, 7);
    assert_eq!(code(&r), (400, "VALIDATION_ERROR".to_string()));
    assert!(body(&r).contains("no more") && s.get_endpoint("e2").is_none());
    let r = create_endpoint_drawn(&mut s, create("e2", given), &described(), &good, 7);
    assert_eq!((r.status, body(&r)), (201, r#"{"id":"e2"}"#.to_string()));
    assert_eq!(s.get_secret("e2", "password").unwrap().as_deref(), Some("pw"));
    let to = || change(r#"{"host":"h9","password":"new"}"#);
    let r = update_endpoint_drawn(&mut s, false, "e", to(), &described(), &bad, 8);
    assert_eq!(code(&r), (400, "VALIDATION_ERROR".to_string()));
    assert_eq!(s.get_secret("e", "password").unwrap().as_deref(), Some("s3cr3t"));
    let r = update_endpoint_drawn(&mut s, false, "e", to(), &described(), &good, 8);
    assert_eq!((r.status, body(&r)), (200, r#"{"updated":"e"}"#.to_string()));
    assert_eq!(s.get_secret("e", "password").unwrap().as_deref(), Some("new"));

    let mut s = ConfigStore::open_in_memory();
    let req = request(CONNECTION, Vec::new(), None);
    let r = bootstrap_device_drawn(&mut s, &req, &descriptor(), &[], &bad, 5).unwrap_err();
    assert_eq!(code(&r), (400, "VALIDATION_ERROR".to_string()));
    assert!(s.get_device("d").is_none());
    assert_eq!(bootstrap_device_drawn(&mut s, &req, &descriptor(), &[], &good, 5).unwrap(), 1);
    assert_eq!(s.get_secret("e", "password").unwrap().as_deref(), Some("pw"));
}

#[test]
fn what_was_drawn_decides_which_secrets_are_kept() {
    let keys = vec!["password".to_string(), "token".to_string(), "password".to_string()];
    let given = || vec![
        ("password".to_string(), json("\"pw\"")),
        ("token".to_string(), json("\"tk\"")),
    ];
    let mut store = store_with_endpoint();
    let mut entries = given();
    let drawn = vec![Ok(vec![7u8; 24]), Ok(vec![8u8; 24])];
    process_connection_drawn(&mut entries, "e", &mut store, &keys, drawn, 9).unwrap();
    let both = r#"{"password":{"secret_set":true},"token":{"secret_set":true}}"#;
    assert_eq!(Json::Object(entries).to_text(), both);
    assert_eq!(store.get_secret("e", "password").unwrap().as_deref(), Some("pw"));
    assert_eq!(store.get_secret("e", "token").unwrap().as_deref(), Some("tk"));
    let row = store.all_secrets().get("e").unwrap().get("token").unwrap();
    assert_eq!((row.key_id.as_str(), row.nonce.as_slice()), ("master", [8u8; 24].as_slice()));

    let mut store = store_with_endpoint();
    let mut entries = given();
    let drawn = vec![Ok(vec![7u8; 24]), Err("no more".to_string())];
    let e = process_connection_drawn(&mut entries, "e", &mut store, &keys, drawn, 9).unwrap_err();
    assert!(matches!(e, StoreError::Validation(m) if m.contains("no more")));
    assert_eq!(
        Json::Object(entries).to_text(),
        r#"{"password":{"secret_set":true},"token":"tk"}"#
    );
    assert_eq!(store.get_secret("e", "password").unwrap().as_deref(), Some("pw"));
    assert_eq!(store.get_secret("e", "token").unwrap(), None);

    let mut entries = given();
    let drawn = vec![Ok(vec![7u8; 24]), Ok(vec![8u8; 24])];
    assert!(process_connection_drawn(&mut entries, "x", &mut store, &keys, drawn, 9).is_err());
    assert_eq!(Json::Object(entries).to_text(), r#"{"password":"pw","token":"tk"}"#);
    let mut entries = vec![("host".to_string(), json("\"h\""))];
    process_connection_drawn(&mut entries, "x", &mut store, &keys, Vec::new(), 9).unwrap();
    assert_eq!(Json::Object(entries).to_text(), r#"{"host":"h"}"#);
}
