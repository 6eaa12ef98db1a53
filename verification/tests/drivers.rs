use mesa::json::Json;
use mesa::manager::{driver_infos, DescriptorError, Lookup, MesaManager};
use mesa::manifest::{
    is_semver_like, resolve_executable, scan_drivers, DriverManifest, FoundManifest, Host,
};
use mesa::probe::{
    check_probe_supported, classify_connect_error, driver_error_to_probe_error, probe,
    probe_inner, probe_supported, AttemptOutcome, ProbeError,
};
use mesa::process::{executable_of, SpawnError};
use mesa::profile::{
    expand_preset, load_profiles, match_profiles, rule_matches, DeviceProfile, MatchRule,
};
use mesa::protocol::{ProtocolError, PROTOCOL_MAJOR};
use mesa::report::ProbeReport;
use mesa::session::{ConnectError, IoFailure, IoKind, SessionError, StartupStage};

fn json(text: &str) -> Json {
    Json::parse(text).unwrap()
}

fn rule(field: &str, op: &str, value: &str) -> MatchRule {
    MatchRule { field: field.to_string(), op: op.to_string(), value: json(value) }
}

fn profile(id: &str, rules: Vec<MatchRule>) -> DeviceProfile {
    DeviceProfile {
        profile_version: 1,
        id: id.to_string(),
        version: "1.0.0".to_string(),
        vendor: String::new(),
        family: String::new(),
        model: String::new(),
        driver_id: String::new(),
        match_rules: rules,
        connection_defaults: Json::Null,
        rate_classes: Vec::new(),
        presets: Vec::new(),
    }
}

fn report(model: Option<&str>) -> ProbeReport {
    ProbeReport {
        reachable: true,
        vendor: Some("FANUC".to_string()),
        family: Some("0i".to_string()),
        model: model.map(str::to_string),
        firmware: None,
        model_confidence: None,
        capabilities: Vec::new(),
        warnings: Vec::new(),
    }
}

#[test]
fn eq_in_prefix_ops() {
    let r = report(Some("0i-F Plus"));
    assert!(rule_matches("focas2", &r, &rule("probe.model", "eq", "\"0i-F Plus\"")));
    assert!(!rule_matches("focas2", &r, &rule("probe.model", "eq", "\"0i-F\"")));
    assert!(rule_matches("focas2", &r, &rule("probe.vendor", "in", "[\"SIEMENS\", \"FANUC\"]")));
    assert!(!rule_matches("focas2", &r, &rule("probe.vendor", "in", "[\"SIEMENS\"]")));
    assert!(rule_matches("focas2", &r, &rule("probe.model", "prefix", "\"0i-F\"")));
    assert!(!rule_matches("focas2", &r, &rule("probe.model", "prefix", "\"16i\"")));
    assert!(!rule_matches("focas2", &r, &rule("probe.model", "regex", "\".*\"")));
    assert!(!rule_matches("focas2", &r, &rule("probe.model", "eq", "42")));
    assert!(!rule_matches("focas2", &r, &rule("probe.model", "in", "\"0i-F Plus\"")));
}

#[test]
fn none_fact_never_matches() {
    let r = report(Some("0i-F Plus"));
    assert!(!rule_matches("focas2", &r, &rule("probe.firmware", "eq", "\"\"")));
    assert!(!rule_matches("focas2", &r, &rule("probe.firmware", "prefix", "\"\"")));
}

fn ids(hits: &[mesa::profile::ProfileMatch]) -> Vec<&str> {
    hits.iter().map(|h| h.profile_id.as_str()).collect()
}

#[test]
fn all_rules_must_match_and_specificity_orders() {
    let profiles = vec![
        profile("driver-only", vec![rule("driver_id", "eq", "\"focas2\"")]),
        profile(
            "model-exact",
            vec![
                rule("driver_id", "eq", "\"focas2\""),
                rule("probe.model", "eq", "\"0i-F Plus\""),
            ],
        ),
        profile(
            "family-wide",
            vec![rule("driver_id", "eq", "\"focas2\""), rule("probe.family", "eq", "\"0i\"")],
        ),
        profile("other-driver", vec![rule("driver_id", "eq", "\"s7\"")]),
    ];
    let hits = match_profiles("focas2", &report(Some("0i-F Plus")), &profiles);
    assert_eq!(ids(&hits), vec!["model-exact", "family-wide", "driver-only"]);
}

#[test]
fn tie_breaks_by_profile_id_for_determinism() {
    let profiles = vec![
        profile("zzz", vec![rule("driver_id", "eq", "\"s\"")]),
        profile("aaa", vec![rule("driver_id", "eq", "\"s\"")]),
    ];
    let hits = match_profiles("s", &report(None), &profiles);
    assert_eq!(ids(&hits), vec!["aaa", "zzz"]);
}

#[test]
fn no_match_returns_empty() {
    let profiles =
        vec![profile("model-exact", vec![rule("probe.model", "eq", "\"0i-F Plus\"")])];
    assert!(match_profiles("focas2", &report(Some("other")), &profiles).is_empty());
    assert!(match_profiles("focas2", &report(None), &profiles).is_empty());
}

#[test]
fn profiles_without_sense_are_not_loaded() {
    let mut sound = profile("a", Vec::new());
    sound.driver_id = "focas2".to_string();
    let kept =
        load_profiles(vec![Ok(profile("b", Vec::new())), Err("no json".to_string()), Ok(sound)]);
    assert_eq!(kept.len(), 1);
    assert_eq!(kept[0].id, "a");
}

fn manifest(id: &str, executable: &str, major: u32) -> DriverManifest {
    DriverManifest {
        id: id.to_string(),
        name: id.to_string(),
        version: "0.1.0".to_string(),
        executable: executable.to_string(),
        protocol_major: major,
        protocol_minor: 0,
        sdk: None,
        os: None,
        arch: None,
    }
}

fn host() -> Host {
    Host { os: "linux".to_string(), arch: "x86_64".to_string() }
}

fn found(m: DriverManifest, there: bool) -> FoundManifest {
    let path = if there { Some(format!("/drivers/{}", m.executable)) } else { None };
    FoundManifest { manifest: m, dir: "/drivers".to_string(), executable_path: path }
}

#[test]
fn scan_finds_valid_and_skips_invalid() {
    let mut good = manifest("sim", "sim-driver", PROTOCOL_MAJOR);
    good.os = Some(vec!["linux".to_string()]);
    good.arch = Some(vec!["x86_64".to_string()]);
    let wrong = manifest("wp", "w", 99);
    let list = scan_drivers(vec![found(good, true), found(wrong, false)], &host());
    assert_eq!(list.len(), 2, "good + wrongproto, badtoml skipped");
    let sim = list.iter().find(|d| d.manifest.id == "sim").unwrap();
    assert!(sim.launchable(), "sim must be launchable: {:?}", sim.platform_reason);
    let wp = list.iter().find(|d| d.manifest.id == "wp").unwrap();
    assert!(!wp.protocol_ok);
    let infos = driver_infos(&list);
    assert!(infos.iter().find(|d| d.id == "sim").unwrap().launchable);
    assert!(infos.iter().find(|d| d.id == "wp").unwrap().reason.is_some());
}

#[test]
fn drivers_for_other_machines_are_not_launched() {
    let mut other = manifest("win", "w", PROTOCOL_MAJOR);
    other.os = Some(vec!["windows".to_string()]);
    let list = scan_drivers(vec![found(other, true)], &host());
    assert!(!list[0].platform_ok);
    assert!(!list[0].launchable());
    let lost = scan_drivers(vec![found(manifest("x", "x", PROTOCOL_MAJOR), false)], &host());
    assert!(!lost[0].launchable());
}

#[test]
fn executables_are_looked_for_next_to_their_manifest_first() {
    let places = resolve_executable("sim-driver", 3);
    assert_eq!(places[0].up, 0);
    assert_eq!(places[0].target, None);
    assert!(places.iter().any(|p| p.file == "sim-driver.exe"));
    assert!(places.iter().any(|p| p.target.as_deref() == Some("debug")));
}

#[test]
fn semver_shape_check() {
    assert!(is_semver_like("0.1.0"));
    assert!(is_semver_like("10.20.30"));
    assert!(!is_semver_like("1.2"));
    assert!(!is_semver_like("a.b.c"));
    assert!(!is_semver_like("1.2.x"));
}

#[test]
fn old_minor_is_gated_before_any_rpc() {
    assert!(!probe_supported(0));
    assert!(!probe_supported(1));
    assert!(probe_supported(2));
    assert!(probe_supported(u32::MAX));
    assert!(matches!(check_probe_supported(1), Err(ProbeError::Unsupported(_))));
    assert!(check_probe_supported(2).is_ok());
}

#[test]
fn driver_error_routes_by_code_not_substring() {
    assert!(matches!(
        driver_error_to_probe_error("UnsupportedError", "PROBE_UNSUPPORTED", "x".to_string()),
        ProbeError::Unsupported(_)
    ));
    assert!(matches!(
        driver_error_to_probe_error("ConfigurationError", "BAD_CONFIG", "boom".to_string()),
        ProbeError::InvalidInput { .. }
    ));
    assert!(matches!(
        driver_error_to_probe_error("ConnectionError", "CONNECT_FAIL", "x".to_string()),
        ProbeError::Rpc(_)
    ));
    assert!(matches!(
        driver_error_to_probe_error("", "", "x".to_string()),
        ProbeError::Rpc(_)
    ));
}

#[test]
fn probe_error_display_is_stable() {
    assert_eq!(ProbeError::DriverNotFound("x".to_string()).message(), "driver `x` not found");
    assert_eq!(ProbeError::Timeout.message(), "probe timed out");
    assert_eq!(ProbeError::RpcTimeout.message(), "probe rpc timed out");
}

fn reset_io() -> IoFailure {
    IoFailure { kind: IoKind::ConnectionReset, message: "test-reset-marker".to_string() }
}

#[test]
fn classify_connect_error_routes_by_stage_and_variant() {
    for stage in [StartupStage::Connect, StartupStage::Hello, StartupStage::Welcome] {
        for source in [
            SessionError::Io(reset_io()),
            SessionError::Timeout,
            SessionError::Protocol(ProtocolError::Io("test-reset-marker".to_string())),
        ] {
            let r = classify_connect_error(ConnectError { stage, source });
            assert!(matches!(r, AttemptOutcome::RetryTransient(_)), "stage={stage:?} 必须可重建");
        }
    }
    for source in [
        SessionError::Handshake("token mismatch".to_string()),
        SessionError::Handshake("first frame must be Hello".to_string()),
        SessionError::Closed,
    ] {
        let r = classify_connect_error(ConnectError { stage: StartupStage::Hello, source });
        assert!(matches!(r, AttemptOutcome::Fail(_)), "语义失败必须一次判死");
    }
    let r = classify_connect_error(ConnectError {
        stage: StartupStage::Hello,
        source: SessionError::Protocol(ProtocolError::Io("test-reset-marker".to_string())),
    });
    match r {
        AttemptOutcome::RetryTransient(ProbeError::Handshake { stage, message }) => {
            assert_eq!(stage, StartupStage::Hello);
            assert!(message.contains("test-reset-marker"), "实际: {message}");
        }
        other => panic!("分类错误，实际: {other:?}"),
    }
}

#[test]
fn transient_failures_are_tried_again_once() {
    let again = || AttemptOutcome::RetryTransient(ProbeError::RpcTimeout);
    assert!(probe_inner(0, again()).is_none());
    assert!(matches!(probe_inner(1, again()), Some(Err(ProbeError::RpcTimeout))));
    assert!(matches!(
        probe_inner(1, AttemptOutcome::Fail(ProbeError::Timeout)),
        Some(Err(ProbeError::Timeout))
    ));
    assert!(matches!(probe_inner(1, AttemptOutcome::Report(report(None))), Some(Ok(_))));
}

#[test]
fn probes_come_with_the_profiles_that_fit() {
    let profiles = vec![profile("p", vec![rule("driver_id", "eq", "\"s\"")])];
    let r = probe("s", report(None), &profiles);
    assert_eq!(ids(&r.profile_hints), vec!["p"]);
    let gone = probe("s", ProbeReport::unreachable("C", "m"), &profiles);
    assert!(gone.profile_hints.is_empty());
}

#[test]
fn managers_know_their_drivers_and_run_endpoints_once() {
    let mut snapshot = mesa::snapshot::Snapshot::new();
    let list = scan_drivers(
        vec![found(manifest("sim", "sim-driver", PROTOCOL_MAJOR), true)],
        &host(),
    );
    let mut m = MesaManager::discover(list, Vec::new(), &mut snapshot);
    assert!(m.find_driver("sim").is_some());
    assert!(m.find_driver("no-such-driver").is_none());
    assert_eq!(snapshot.drivers().len(), 1);
    let cfg = |id: &str, driver: &str| mesa::endpoint::BuiltinEndpoint {
        endpoint_id: id.to_string(),
        driver_id: driver.to_string(),
        connection_json: "{}".to_string(),
        tasks: Vec::new(),
        event_tasks: Vec::new(),
    };
    assert!(m.start_endpoint(&cfg("e1", "ghost")).is_err());
    assert!(m.start_endpoint(&cfg("e1", "sim")).is_ok());
    assert!(m.start_endpoint(&cfg("e1", "sim")).is_err());
    assert_eq!(m.running_ids(), vec!["e1".to_string()]);
    assert!(m.is_running("e1"));
    assert!(m.stop_endpoint("e1"));
    assert!(!m.stop_endpoint("e1"));
    let e: Result<Lookup, DescriptorError> = m.get_descriptor("ghost");
    assert!(e.is_err());
}

#[test]
fn descriptors_are_known_until_the_drivers_are_looked_for_again() {
    let mut snapshot = mesa::snapshot::Snapshot::new();
    let list = || {
        scan_drivers(vec![found(manifest("sim", "sim-driver", PROTOCOL_MAJOR), true)], &host())
    };
    let mut m = MesaManager::discover(list(), Vec::new(), &mut snapshot);
    let descriptor = mesa::descriptor::DriverDescriptor {
        contract_major: 2,
        contract_minor: 0,
        identity: mesa::descriptor::DriverIdentity {
            driver_id: "sim".to_string(),
            name: "Simulator".to_string(),
            version: "1.0.0".to_string(),
        },
        connection: mesa::schema::SchemaDescriptor::new(Vec::new()),
        resources: Vec::new(),
        controls: mesa::capability::ControlCatalog { commands: Vec::new() },
        resource_selection_methods: Vec::new(),
        capabilities: mesa::capability::DriverCapabilities::default(),
        events: mesa::event::EventCatalog { streams: Vec::new() },
    };
    assert!(matches!(m.get_descriptor("sim"), Ok(Lookup::Ask(_))));
    m.descriptor_given("sim", "0.1.0", "{}", Ok(descriptor), 7).unwrap();
    assert!(matches!(m.get_descriptor("sim"), Ok(Lookup::Known(_))));
    assert_eq!(m.descriptor_cache_snapshot(), vec!["sim@0.1.0".to_string()]);
    let e = m.descriptor_given("sim", "0.1.0", "{", Err("eof".to_string()), 8).unwrap_err();
    assert_eq!(e.code, "DRIVER_DESCRIPTOR_INVALID_JSON");
    m.rescan(list(), Vec::new(), &mut snapshot);
    assert!(m.descriptor_cache_snapshot().is_empty());
}

#[test]
fn presets_expand_to_their_selections() {
    let preset = mesa::profile::Preset {
        id: "basic".to_string(),
        label: mesa::schema::LocalizedText::new("Basic"),
        selections: vec![mesa::resource::ResourceSelection {
            resource_id: "r".to_string(),
            parameters: json("{}"),
            outputs: Vec::new(),
        }],
        rate_class: None,
    };
    assert_eq!(expand_preset(&preset).len(), 1);
    assert_eq!(expand_preset(&preset)[0].resource_id, "r");
}

#[test]
fn probe_unknown_driver_is_not_found_without_spawn() {
    let mut snapshot = mesa::snapshot::Snapshot::new();
    let m = MesaManager::discover(Vec::new(), Vec::new(), &mut snapshot);
    let err = m.driver_to_probe("no-such-driver").expect_err("未知 Driver 必须 Err");
    assert!(matches!(err, ProbeError::DriverNotFound(_)), "实际: {}", err.message());
}

#[test]
fn drivers_without_a_binary_are_not_spawned() {
    let list = scan_drivers(
        vec![found(manifest("ghost", "ghost-nobin-bin", PROTOCOL_MAJOR), true)],
        &host(),
    );
    let mut d = list[0].clone();
    assert_eq!(executable_of(&d).unwrap(), d.executable_path.as_ref().unwrap());
    d.executable_path = None;
    let err = executable_of(&d).unwrap_err();
    assert_eq!(err, SpawnError::MissingBinary("ghost-nobin-bin".to_string()));
    assert_eq!(err.message(), "driver executable missing: ghost-nobin-bin");
}
