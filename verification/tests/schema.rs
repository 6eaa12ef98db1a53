use mesa::capability::{
    gate_command_against, gate_command_result_against, gate_write_against, CommandDescriptor,
    ControlCatalog, DriverCapabilities, ResourceSelectionMethod, RiskLevel, WriteTarget,
};
use mesa::descriptor::{DriverDescriptor, DriverIdentity};
use mesa::event::EventCatalog;
use mesa::float::{less, Double, Single};
use mesa::json::Json;
use mesa::resource::{
    validate_selections_against, validate_selections_structure, validate_task_set_against,
    AccessMode, OutputDescriptor, OutputTypeSpec, ResourceDescriptor, ResourceSelection,
    SelectedOutput,
};
use mesa::schema::{FieldDescriptor, FieldType, LocalizedText, SchemaDescriptor, ValidationIssue};
use mesa::types::{DataType, TaskMode, TypedValue};

fn json(text: &str) -> Json {
    Json::parse(text).unwrap()
}

fn codes(issues: &[ValidationIssue]) -> Vec<&str> {
    issues.iter().map(|i| i.code.as_str()).collect()
}

fn port() -> FieldDescriptor {
    FieldDescriptor::new("port", "Port", FieldType::Port).required(true)
}

#[test]
fn instances_are_held_against_their_schema() {
    let mut mode = FieldDescriptor::new("mode", "Mode", FieldType::Enum);
    mode.validation.enum_options = Some(vec!["a".to_string(), "b".to_string()]);
    let mut name = FieldDescriptor::new("name", "Name", FieldType::String);
    name.validation.pattern = Some("^[a-z]+$".to_string());
    let mut rate = FieldDescriptor::new("rate", "Rate", FieldType::Number);
    rate.validation.min = Some(Double { bits: 0.5f64.to_bits() });
    rate.validation.max = Some(Double { bits: 2.5f64.to_bits() });
    let s = SchemaDescriptor::new(vec![port(), mode, name, rate]);
    assert!(s.validate_definition().is_ok());
    let ok = json(r#"{"port": 502, "mode": "a", "name": "abc", "rate": 1.5}"#);
    assert!(s.validate_instance("c", &ok).is_empty());
    let missing = s.validate_instance("c", &json("{}"));
    assert_eq!(missing.len(), 1);
    assert_eq!(missing[0].path, "c.port");
    for bad in [
        r#"{"port": 70000}"#,
        r#"{"port": "502"}"#,
        r#"{"port": 1, "mode": "z"}"#,
        r#"{"port": 1, "name": "ABC"}"#,
        r#"{"port": 1, "rate": 0.25}"#,
        r#"{"port": 1, "rate": 3}"#,
        r#"{"port": 1, "other": true}"#,
    ] {
        assert_eq!(s.validate_instance("c", &json(bad)).len(), 1, "{bad}");
    }
    assert_eq!(s.validate_instance("c", &json("[]")).len(), 1);
}

#[test]
fn schemas_that_make_no_sense_are_refused() {
    assert!(SchemaDescriptor::new(vec![port(), port()]).validate_definition().is_err());
    let blank = FieldDescriptor::new(" ", "x", FieldType::String);
    assert!(SchemaDescriptor::new(vec![blank]).validate_definition().is_err());
    let choice = FieldDescriptor::new("m", "x", FieldType::Enum);
    assert!(SchemaDescriptor::new(vec![choice]).validate_definition().is_err());
    let mut broken = FieldDescriptor::new("m", "x", FieldType::String);
    broken.validation.pattern = Some("(".to_string());
    assert!(SchemaDescriptor::new(vec![broken]).validate_definition().is_err());
    let unfit = FieldDescriptor::new("m", "x", FieldType::Integer).default_value(json("\"a\""));
    assert!(SchemaDescriptor::new(vec![unfit]).validate_definition().is_err());
}

fn text(s: &str) -> LocalizedText {
    LocalizedText { default: s.to_string(), zh_cn: None }
}

fn descriptor() -> DriverDescriptor {
    let address = FieldDescriptor::new("address", "Address", FieldType::Integer).required(true);
    DriverDescriptor {
        contract_major: 2,
        contract_minor: 0,
        identity: DriverIdentity {
            driver_id: "sim".to_string(),
            name: "Sim".to_string(),
            version: "0.1.0".to_string(),
        },
        connection: SchemaDescriptor::new(vec![port()]),
        resources: vec![ResourceDescriptor {
            id: "register".to_string(),
            label: text("Register"),
            parameters: SchemaDescriptor::new(vec![address]),
            outputs: vec![
                OutputDescriptor {
                    id: "value".to_string(),
                    label: text("Value"),
                    type_spec: OutputTypeSpec::Fixed { data_type: DataType::I32 },
                    unit: None,
                    access: AccessMode::ReadWrite,
                },
                OutputDescriptor {
                    id: "raw".to_string(),
                    label: text("Raw"),
                    type_spec: OutputTypeSpec::DriverResolved,
                    unit: None,
                    access: AccessMode::Read,
                },
            ],
            modes: vec![TaskMode::Poll],
        }],
        controls: ControlCatalog {
            commands: vec![CommandDescriptor {
                id: "reset".to_string(),
                label: text("Reset"),
                description: None,
                input_schema: SchemaDescriptor::new(vec![port()]),
                result_schema: SchemaDescriptor::new(Vec::new()),
                risk: RiskLevel::Low,
                confirmation: false,
                timeout_ms: None,
                idempotent: true,
            }],
        },
        resource_selection_methods: vec![ResourceSelectionMethod::Manual],
        capabilities: DriverCapabilities {
            poll: true,
            subscribe: false,
            write: true,
            method: true,
            events: false,
        },
        events: EventCatalog { streams: Vec::new() },
    }
}

fn selection(resource: &str, output: &str, key: &str) -> ResourceSelection {
    ResourceSelection {
        resource_id: resource.to_string(),
        parameters: json(r#"{"address": 3}"#),
        outputs: vec![SelectedOutput { output: output.to_string(), point_key: key.to_string() }],
    }
}

#[test]
fn descriptors_are_checked() {
    assert!(descriptor().validate().is_ok());
    let mut d = descriptor();
    d.resources.push(d.resources[0].clone());
    assert!(d.validate().is_err());
}

#[test]
fn selections_are_held_against_the_driver() {
    let d = descriptor();
    let ok = [selection("register", "value", "k")];
    assert!(validate_selections_against(&d, TaskMode::Poll, &ok, "s").is_empty());
    let unknown = [selection("coil", "value", "k")];
    let issues = validate_selections_against(&d, TaskMode::Poll, &unknown, "s");
    assert_eq!(codes(&issues), vec!["UNKNOWN_RESOURCE"]);
    assert_eq!(issues[0].path, "s[0].resource_id");
    let subscribe = validate_selections_against(&d, TaskMode::Subscribe, &ok, "s");
    assert_eq!(codes(&subscribe), vec!["MODE_NOT_SUPPORTED", "MODE_NOT_SUPPORTED"]);
    let output = [selection("register", "other", "k")];
    assert_eq!(validate_selections_against(&d, TaskMode::Poll, &output, "s").len(), 1);
}

#[test]
fn point_keys_are_unique_over_all_tasks() {
    let d = descriptor();
    let a = [selection("register", "value", "k")];
    let b = [selection("register", "raw", "k")];
    let c = [selection("register", "raw", "other")];
    let set = |x: &[ResourceSelection], y: &[ResourceSelection]| {
        validate_task_set_against(&d, &[(TaskMode::Poll, x, "t0"), (TaskMode::Poll, y, "t1")])
    };
    assert!(set(&a, &c).is_empty());
    let issues = set(&a, &b);
    assert_eq!(issues.len(), 1);
    assert!(issues[0].path.starts_with("t1"));
    assert!(validate_selections_structure(&[selection("register", "value", " ")]).is_err());
    assert!(validate_selections_structure(&a).is_ok());
}

#[test]
fn writes_are_gated() {
    let d = descriptor();
    let target = |output: &str| WriteTarget {
        resource_id: "register".to_string(),
        parameters: json(r#"{"address": 3}"#),
        output: output.to_string(),
    };
    let (issues, ty) = gate_write_against(&d, &target("value"), &TypedValue::I32(1), &None, "w");
    assert!(issues.is_empty());
    assert_eq!(ty, Some(DataType::I32));
    let (issues, _) = gate_write_against(&d, &target("value"), &TypedValue::Bool(true), &None, "w");
    assert_eq!(issues.len(), 1);
    let (issues, _) = gate_write_against(&d, &target("raw"), &TypedValue::I32(1), &None, "w");
    assert!(!issues.is_empty());
    let bad = |output: &str| WriteTarget { parameters: json(r#"{"odd": 3}"#), ..target(output) };
    let (issues, _) = gate_write_against(&d, &bad("none"), &TypedValue::I32(1), &None, "w");
    assert_eq!(codes(&issues), vec!["UNKNOWN_OUTPUT"]);
    let (issues, _) = gate_write_against(&d, &bad("raw"), &TypedValue::I32(1), &None, "w");
    assert_eq!(codes(&issues), vec!["ACCESS_NOT_SUPPORTED"]);
    let (issues, _) = gate_write_against(&d, &bad("value"), &TypedValue::I32(1), &None, "w");
    assert!(codes(&issues).contains(&"UNKNOWN_FIELD"));
    let mut mute = descriptor();
    mute.capabilities.write = false;
    let (issues, _) = gate_write_against(&mute, &target("value"), &TypedValue::I32(1), &None, "w");
    assert!(!issues.is_empty());
}

#[test]
fn commands_are_gated() {
    let d = descriptor();
    assert!(gate_command_against(&d, "reset", &json(r#"{"port": 1}"#), "c").is_empty());
    assert!(!gate_command_against(&d, "reset", &json("{}"), "c").is_empty());
    assert!(!gate_command_against(&d, "explode", &json("{}"), "c").is_empty());
    assert!(gate_command_result_against(&d, "reset", &json("{}"), "c").is_empty());
}

#[test]
fn floats_are_ordered_by_value() {
    let values = [f64::NEG_INFINITY, -2.5, -0.0, 1e-300, 1.0, 2.5, f64::INFINITY];
    for (i, a) in values.iter().enumerate() {
        for (j, b) in values.iter().enumerate() {
            assert_eq!(less(a.to_bits(), b.to_bits()), i < j);
        }
    }
    assert!(!less((-0.0f64).to_bits(), 0.0f64.to_bits()));
    assert!(!less(f64::NAN.to_bits(), 1.0f64.to_bits()));
}

#[test]
fn values_are_shown_as_their_kind_has_it() {
    let f = |x: f64| TypedValue::F64(Double { bits: x.to_bits() });
    assert_eq!(f(1.5).to_json().to_text(), r#"{"F64":1.5}"#);
    assert_eq!(f(1.5).debug_text(), "F64(1.5)");
    let s = TypedValue::F32(Single { bits: 0.5f32.to_bits() });
    assert_eq!(s.to_json().to_text(), r#"{"F32":0.5}"#);
    assert_eq!(s.debug_text(), "F32(0.5)");
    assert_eq!(TypedValue::String("a\"b".to_string()).debug_text(), "String(\"a\\\"b\")");
    assert_eq!(TypedValue::I32Array(vec![1, 2]).debug_text(), "I32Array([1, 2])");
}

#[test]
fn json_is_read_and_written() {
    for text in [
        "null",
        "true",
        "-7",
        "18446744073709551615",
        "1.5",
        r#""a\"b\n中""#,
        "[1,[],{}]",
        r#"{"a":1,"b":[true,null]}"#,
    ] {
        assert_eq!(json(text).to_text(), text);
    }
    assert_eq!(json(r#"{"b":1,"a":2}"#).to_text(), r#"{"a":2,"b":1}"#);
    assert!(Json::parse("{").is_err());
    let v = json(r#"{"a":{"b":"c"}}"#);
    assert_eq!(v.get("a").unwrap().get("b").unwrap().as_str(), Some("c"));
    assert!(v.get("x").is_none());
}

#[test]
fn targets_are_logged_by_resource_and_output() {
    let target = WriteTarget {
        resource_id: "register".to_string(),
        parameters: json("{}"),
        output: "value".to_string(),
    };
    assert_eq!(target.audit_id(), "register/value");
}

#[test]
fn texts_have_a_chinese_version() {
    let t = LocalizedText::new("Port").with_zh("端口");
    assert_eq!((t.default.as_str(), t.zh_cn.as_deref()), ("Port", Some("端口")));
}

#[test]
fn fitting_parameters_give_outputs_their_type() {
    let mut d = descriptor();
    let mut kind = FieldDescriptor::new("kind", "Kind", FieldType::Enum).required(true);
    kind.validation.enum_options = Some(vec!["w".to_string(), "f".to_string()]);
    let r = &mut d.resources[0];
    r.parameters = SchemaDescriptor::new(vec![kind]);
    r.outputs[0].type_spec = OutputTypeSpec::FromParameter {
        parameter: "kind".to_string(),
        mapping: vec![("w".to_string(), DataType::I32), ("f".to_string(), DataType::F64)],
    };
    assert!(r.validate().is_ok());
    for (text, want) in [("w", DataType::I32), ("f", DataType::F64)] {
        let params = json(&format!(r#"{{"kind":"{text}"}}"#));
        assert!(r.parameters.validate_instance("p", &params).is_empty());
        let Json::Object(entries) = params else { unreachable!() };
        assert_eq!(r.outputs[0].type_spec.resolve(&entries), Some(want));
    }
    assert!(!r.parameters.validate_instance("p", &json(r#"{"kind":"x"}"#)).is_empty());
}

#[test]
fn texts_are_escaped_as_json_wants_it() {
    let odd = "\"\\/\u{8}\u{c}\n\r\t\u{0}\u{1f}\u{7f} 中";
    let text = Json::String(odd.to_string()).to_text();
    assert_eq!(text, "\"\\\"\\\\/\\b\\f\\n\\r\\t\\u0000\\u001f\u{7f} 中\"");
    assert_eq!(json(&text), Json::String(odd.to_string()));
}

#[test]
fn integers_are_rounded_to_the_nearest_double() {
    let bits = |text: &str| match json(text) {
        Json::Number(n) => n.double_bits(),
        _ => unreachable!(),
    };
    let nearest: [(&str, f64); 9] = [
        ("0", 0.0),
        ("1", 1.0),
        ("65535", 65535.0),
        ("9007199254740993", 9007199254740992.0),
        ("9007199254740995", 9007199254740996.0),
        ("18446744073709551615", 18446744073709551616.0),
        ("18446744073709550591", 18446744073709549568.0),
        ("-1", -1.0),
        ("-9223372036854775807", -9223372036854775808.0),
    ];
    for (text, want) in nearest {
        assert_eq!(bits(text), want.to_bits(), "{text}");
    }
    let schema = SchemaDescriptor::new(vec![port()]);
    for (text, ok) in [("0", false), ("1", true), ("65535", true), ("65536", false), ("-1", false)] {
        let issues = schema.validate_instance("c", &json(&format!(r#"{{"port":{text}}}"#)));
        assert_eq!(issues.is_empty(), ok, "{text}");
    }
}

#[test]
fn objects_that_stand_for_raw_values_are_read_otherwise() {
    let odd = r#"{"$serde_json::private::RawValue":1}"#;
    assert!(Json::parse(odd).is_err());
    let second = r#"{"z":1,"$serde_json::private::RawValue":1}"#;
    let Ok(Json::Object(entries)) = Json::parse(second) else { unreachable!() };
    assert_eq!(entries.len(), 2);
}

#[test]
fn single_precision_values_keep_their_number() {
    let same: [(u32, u64); 6] = [
        (0x0000_0000, 0x0000_0000_0000_0000),
        (0x8000_0000, 0x8000_0000_0000_0000),
        (0x0000_0001, 0x36a0_0000_0000_0000),
        (0x007f_ffff, 0x380f_ffff_c000_0000),
        (0xbf80_0000, 0xbff0_0000_0000_0000),
        (0x7f7f_ffff, 0x47ef_ffff_e000_0000),
    ];
    for (bits, want) in same {
        match (TypedValue::F32(Single { bits })).payload_json() {
            Json::Number(n) => assert_eq!(n.double_bits(), want, "{bits:x}"),
            other => panic!("{other:?}"),
        }
    }
}
