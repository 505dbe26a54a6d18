use openshell_driver_lxd::config::{LxdComputeConfig, DEFAULT_SSH_PORT};
use openshell_driver_lxd::driver::{
    agent_fd, build_instance_request, build_supervisor_env, capabilities, complete_create,
    begin_delete, delete_outcome, initial_events, prepare_create, provisioning_condition, select_image,
    stop_target, stopped_condition, stopped_condition_with_status, validate_sandbox_create,
    watch_step, SandboxRecord, SandboxRegistry, WatchSandboxesEvent, WatchState,
};
use openshell_driver_lxd::lxd::client::LxdApiError;
use openshell_driver_lxd::lxd::models::{InstanceState, InterfaceAddress, InterfaceState};
use openshell_driver_lxd::sandbox::{
    ComputeDriverError, DriverSandbox, DriverSandboxSpec, SandboxTemplate,
};
use openshell_driver_lxd::strmap::StrMap;

fn sandbox(id: &str, name: &str, image: Option<&str>, gpu: bool) -> DriverSandbox {
    DriverSandbox {
        id: id.into(),
        name: name.into(),
        namespace: String::new(),
        spec: Some(DriverSandboxSpec {
            gpu,
            template: image.map(|i| SandboxTemplate { image: i.into() }),
        }),
        status: None,
    }
}

fn running_state(status: &str, ip: Option<&str>) -> InstanceState {
    let mut net: StrMap<InterfaceState> = StrMap::new();
    if let Some(ip) = ip {
        net.insert(
            "eth0".into(),
            InterfaceState {
                addresses: vec![InterfaceAddress {
                    family: "inet".into(),
                    address: ip.into(),
                    scope: "global".into(),
                }],
                state: "up".into(),
            },
        );
    }
    InstanceState { status: status.into(), network: Some(net) }
}

fn precondition(r: Result<(), ComputeDriverError>) -> String {
    match r {
        Err(ComputeDriverError::Precondition(m)) => m,
        other => panic!("unexpected {:?}", other),
    }
}

#[test]
fn sandbox_validation() {
    assert!(validate_sandbox_create(&sandbox("1", "box", None, false)).is_ok());
    assert_eq!(
        precondition(validate_sandbox_create(&sandbox("1", "", None, false))),
        "sandbox name must not be empty"
    );
    assert_eq!(
        precondition(validate_sandbox_create(&sandbox("1", "box", None, true))),
        "LXD driver does not support GPU sandboxes"
    );
    let mut no_spec = sandbox("1", "box", None, false);
    no_spec.spec = None;
    assert_eq!(precondition(validate_sandbox_create(&no_spec)), "sandbox spec is required");
}

#[test]
fn capabilities_report_default_image() {
    let c = capabilities(&LxdComputeConfig::default(), "1.2.3").unwrap();
    assert_eq!(c.driver_name, "lxd");
    assert_eq!(c.driver_version, "1.2.3");
    assert_eq!(c.default_image, "24.04");
    assert!(!c.supports_gpu);
}

#[test]
fn image_selection() {
    assert_eq!(select_image(&sandbox("1", "b", Some("22.04"), false), "24.04"), "22.04");
    assert_eq!(select_image(&sandbox("1", "b", Some(""), false), "24.04"), "24.04");
    assert_eq!(select_image(&sandbox("1", "b", None, false), "24.04"), "24.04");
}

#[test]
fn supervisor_environment() {
    let mut config = LxdComputeConfig::default();
    config.grpc_endpoint = "http://10.0.0.1:8080".into();
    config.ssh_handshake_secret = "s3".into();
    config.ssh_handshake_skew_secs = 45;
    let env = build_supervisor_env(&config, "id-1", "box");
    let got: Vec<(&str, &str)> =
        env.entries().iter().map(|(k, v)| (k.as_str(), v.as_str())).collect();
    assert_eq!(
        got,
        vec![
            ("OPENSHELL_SANDBOX_ID", "id-1"),
            ("OPENSHELL_SANDBOX", "box"),
            ("OPENSHELL_ENDPOINT", "http://10.0.0.1:8080"),
            ("OPENSHELL_SSH_SOCKET_PATH", "/run/openshell/ssh.sock"),
            ("OPENSHELL_SSH_HANDSHAKE_SECRET", "s3"),
            ("OPENSHELL_SSH_HANDSHAKE_SKEW_SECS", "45"),
            ("OPENSHELL_SANDBOX_COMMAND", "tail -f /dev/null"),
            ("OPENSHELL_LOG_LEVEL", "info"),
        ]
    );
}

#[test]
fn instance_request() {
    let config = LxdComputeConfig::default();
    let env = build_supervisor_env(&config, "id-1", "box");
    let req = build_instance_request(&config, "box", "24.04", "id-1", "box", &env);
    assert_eq!(req.name, "box");
    assert_eq!(req.instance_type, "virtual-machine");
    assert_eq!(req.source.source_type, "image");
    assert_eq!(req.source.alias, "24.04");
    assert_eq!(req.source.server.as_deref(), Some("https://cloud-images.ubuntu.com/releases"));
    assert_eq!(req.source.protocol.as_deref(), Some("simplestreams"));
    assert_eq!(req.source.mode.as_deref(), Some("pull"));
    assert_eq!(req.profiles, vec!["default".to_string()]);
    assert_eq!(req.config.get("user.openshell.managed").map(|s| s.as_str()), Some("true"));
    assert_eq!(req.config.get("user.openshell.sandbox_id").map(|s| s.as_str()), Some("id-1"));
    assert!(req.config.get("user.user-data").unwrap().contains("      OPENSHELL_LOG_LEVEL=info\n"));
    let root = req.devices.get("root").unwrap();
    assert_eq!(root.get("pool").map(|s| s.as_str()), Some("openshell-pool"));
    let eth0 = req.devices.get("eth0").unwrap();
    assert_eq!(eth0.get("parent").map(|s| s.as_str()), Some("openshell-br0"));
    assert_eq!(eth0.get("nictype").map(|s| s.as_str()), Some("bridged"));
}

#[test]
fn agent_fd_text() {
    assert_eq!(agent_fd(Some("10.0.0.5".into()), 2222), "10.0.0.5:2222");
    assert_eq!(agent_fd(None, 2222), "");
}

#[test]
fn conditions() {
    let p = provisioning_condition();
    assert_eq!(
        (p.condition_type.as_str(), p.status.as_str(), p.reason.as_str(), p.message.as_str()),
        ("Ready", "False", "Starting", "VM is running, waiting for supervisor connection")
    );
    let s = stopped_condition();
    assert_eq!((s.reason.as_str(), s.message.as_str()), ("VmStopped", "VM is stopped"));
    let n = stopped_condition_with_status("Frozen");
    assert_eq!((n.reason.as_str(), n.message.as_str()), ("VmNotRunning", "VM status: Frozen"));
}

#[test]
fn create_then_get_and_list() {
    let config = LxdComputeConfig::default();
    let mut reg = SandboxRegistry::new();
    let sb = sandbox("id-1", "my_box", Some("22.04"), false);
    let plan = prepare_create(&reg, &config, &sb).unwrap();
    assert_eq!(plan.vm_name, "my-box");
    assert_eq!(plan.request.source.alias, "22.04");
    assert_eq!(plan.op_timeout_secs, 600);
    complete_create(&mut reg, &config, &sb, plan.vm_name, &running_state("Running", Some("10.1.1.1")));
    let got = reg.get_sandbox("my_box").unwrap();
    assert_eq!(got.namespace, "openshell");
    let st = got.status.unwrap();
    assert_eq!(st.instance_id, "my-box");
    assert_eq!(st.agent_fd, format!("10.1.1.1:{}", DEFAULT_SSH_PORT));
    assert_eq!(st.conditions.len(), 1);
    assert_eq!(st.conditions[0].reason, "Starting");
    assert!(!st.deleting);
    // A second create of the same name is refused.
    assert!(matches!(prepare_create(&reg, &config, &sb), Err(ComputeDriverError::AlreadyExists)));
    assert_eq!(reg.list_sandboxes().len(), 1);
    assert!(reg.get_sandbox("other").is_none());
    // Invalid sandboxes are refused before anything else.
    assert!(matches!(
        prepare_create(&reg, &config, &sandbox("id-2", "", None, false)),
        Err(ComputeDriverError::Precondition(_))
    ));
}

#[test]
fn stop_and_delete() {
    let config = LxdComputeConfig::default();
    let mut reg = SandboxRegistry::new();
    let sb = sandbox("id-1", "box", None, false);
    complete_create(&mut reg, &config, &sb, "box".into(), &running_state("Running", None));
    assert_eq!(stop_target(&reg, "box").unwrap(), "box");
    match stop_target(&reg, "nope") {
        Err(ComputeDriverError::Message(m)) => assert_eq!(m, "sandbox not found: nope"),
        other => panic!("unexpected {:?}", other),
    }
    reg.mark_stopped("box");
    let st = reg.get_sandbox("box").unwrap().status.unwrap();
    assert_eq!(st.conditions[0].reason, "VmStopped");
    assert_eq!(st.agent_fd, "");
    assert!(begin_delete(&mut reg, "nope").is_none());
    assert_eq!(reg.list_sandboxes().len(), 1);
    assert_eq!(begin_delete(&mut reg, "box").unwrap(), "box");
    assert!(reg.get_sandbox("box").unwrap().status.unwrap().deleting);
    assert!(matches!(delete_outcome::<()>(None), Ok(false)));
    assert!(matches!(delete_outcome::<()>(Some(Ok(()))), Ok(true)));
    match delete_outcome::<()>(Some(Err(LxdApiError::NotFound("vm".into())))) {
        Err(ComputeDriverError::Message(m)) => assert_eq!(m, "not found: vm"),
        other => panic!("unexpected {:?}", other),
    }
    assert!(matches!(
        delete_outcome::<()>(Some(Err(LxdApiError::Conflict("c".into())))),
        Err(ComputeDriverError::AlreadyExists)
    ));
    match delete_outcome::<()>(Some(Err(LxdApiError::Timeout(600)))) {
        Err(ComputeDriverError::Message(m)) => assert_eq!(m, "timeout after 600s"),
        other => panic!("unexpected {:?}", other),
    }
}

#[test]
fn watching() {
    let config = LxdComputeConfig::default();
    let mut reg = SandboxRegistry::new();
    let sb = sandbox("id-1", "box", None, false);
    complete_create(&mut reg, &config, &sb, "vm-box".into(), &running_state("Running", None));
    let initial = initial_events(&reg);
    assert_eq!(initial.len(), 1);
    assert!(matches!(&initial[0], WatchSandboxesEvent::Sandbox(s) if s.name == "box"));

    let mut watch = WatchState::new();
    let record: SandboxRecord = reg.snapshot().remove(0);
    // First observation reports.
    let ev = watch_step(&mut reg, &mut watch, &record, Ok(running_state("Running", Some("10.0.0.9"))), 22);
    match ev {
        Some(WatchSandboxesEvent::Sandbox(s)) => {
            let st = s.status.unwrap();
            assert_eq!(st.agent_fd, "10.0.0.9:22");
            assert_eq!(st.conditions[0].reason, "Starting");
        }
        other => panic!("unexpected {:?}", other),
    }
    // The same status again reports nothing.
    let ev = watch_step(&mut reg, &mut watch, &record, Ok(running_state("Running", Some("10.0.0.9"))), 22);
    assert!(ev.is_none());
    // A different status reports again.
    let ev = watch_step(&mut reg, &mut watch, &record, Ok(running_state("Stopped", None)), 22);
    match ev {
        Some(WatchSandboxesEvent::Sandbox(s)) => {
            assert_eq!(s.status.unwrap().conditions[0].message, "VM status: Stopped")
        }
        other => panic!("unexpected {:?}", other),
    }
    assert_eq!(
        reg.get_sandbox("box").unwrap().status.unwrap().conditions[0].reason,
        "VmNotRunning"
    );
    // Polling errors change nothing.
    let ev = watch_step(&mut reg, &mut watch, &record, Err(LxdApiError::Connection("x".into())), 22);
    assert!(ev.is_none());
    // A sandbox being deleted gets no updates, and is forgotten once gone.
    reg.mark_deleting("box");
    let record = reg.snapshot().remove(0);
    let ev = watch_step(&mut reg, &mut watch, &record, Ok(running_state("Running", None)), 22);
    assert!(ev.is_none());
    assert!(reg.get_sandbox("box").is_some());
    let ev = watch_step(&mut reg, &mut watch, &record, Err(LxdApiError::NotFound("gone".into())), 22);
    assert!(matches!(ev, Some(WatchSandboxesEvent::Deleted(ref id)) if id == "id-1"));
    assert!(reg.get_sandbox("box").is_none());
    assert!(reg.list_sandboxes().is_empty());
}
