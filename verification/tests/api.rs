use openshell_driver_lxd::lxd::api::{
    agent_ready, cloud_init_done, deadline_check, ensure_network_outcome, ensure_outcome,
    exec_request, extract_ipv4, instance_exec_path, instance_item_path, instance_name_from_url,
    instance_names, instance_state_path, instances_path, network_post, networks_path,
    project_post, projects_path, start_request, stop_request, storage_pool_post,
    storage_pools_path,
};
use openshell_driver_lxd::lxd::client::{
    check_error, require_metadata, LxdApiError,
};
use openshell_driver_lxd::lxd::models::{
    InstanceState, InterfaceAddress, InterfaceState, LxdResponse, Operation,
};
use openshell_driver_lxd::lxd::operations::{finish_wait, wait_http_timeout, wait_path};
use openshell_driver_lxd::strmap::StrMap;

fn addr(family: &str, address: &str, scope: &str) -> InterfaceAddress {
    InterfaceAddress { family: family.into(), address: address.into(), scope: scope.into() }
}

fn iface(addrs: Vec<InterfaceAddress>) -> InterfaceState {
    InterfaceState { addresses: addrs, state: "up".into() }
}

fn pairs(m: &StrMap<String>) -> Vec<(String, String)> {
    let mut v: Vec<(String, String)> =
        m.entries().iter().map(|(k, v)| (k.clone(), v.clone())).collect();
    v.sort();
    v
}

#[test]
fn paths() {
    assert_eq!(projects_path(), "/1.0/projects");
    assert_eq!(storage_pools_path(), "/1.0/storage-pools");
    assert_eq!(networks_path(), "/1.0/networks");
    assert_eq!(instances_path("openshell"), "/1.0/instances?project=openshell");
    assert_eq!(instance_item_path("vm1", "p"), "/1.0/instances/vm1?project=p");
    assert_eq!(instance_state_path("vm1", "p"), "/1.0/instances/vm1/state?project=p");
    assert_eq!(instance_exec_path("vm1", "p"), "/1.0/instances/vm1/exec?project=p");
}

#[test]
fn bodies() {
    let p = project_post("openshell");
    assert_eq!(p.name, "openshell");
    assert_eq!(
        pairs(&p.config),
        vec![
            ("features.images".to_string(), "false".to_string()),
            ("features.profiles".to_string(), "false".to_string())
        ]
    );
    let zfs = storage_pool_post("pool", "zfs", "50GiB");
    assert_eq!(pairs(&zfs.config), vec![("size".to_string(), "50GiB".to_string())]);
    assert_eq!(zfs.driver, "zfs");
    assert_eq!(storage_pool_post("pool", "zfs", "").config.len(), 0);
    assert_eq!(storage_pool_post("pool", "dir", "50GiB").config.len(), 0);
    let n = network_post("br0", "10.0.0.1/24");
    assert_eq!(n.network_type, "bridge");
    assert_eq!(
        pairs(&n.config),
        vec![
            ("ipv4.address".to_string(), "10.0.0.1/24".to_string()),
            ("ipv4.nat".to_string(), "true".to_string()),
            ("ipv6.address".to_string(), "none".to_string())
        ]
    );
    let s = start_request();
    assert_eq!((s.action.as_str(), s.timeout, s.force), ("start", 60, false));
    let s = stop_request(30);
    assert_eq!((s.action.as_str(), s.timeout, s.force), ("stop", 30, false));
    let e = exec_request(vec!["ls".into()], StrMap::new());
    assert!(!e.interactive && !e.wait_for_websocket && !e.record_output);
    assert_eq!(e.command, vec!["ls".to_string()]);
}

#[test]
fn ensure_outcomes_swallow_existing() {
    assert!(ensure_outcome::<()>(Ok(())).is_ok());
    assert!(ensure_outcome::<()>(Err(LxdApiError::Conflict("x".into()))).is_ok());
    assert!(matches!(
        ensure_outcome::<()>(Err(LxdApiError::Api { status: 400, message: "already exists".into() })),
        Err(LxdApiError::Api { .. })
    ));
    assert!(ensure_network_outcome::<()>(Err(LxdApiError::Api {
        status: 400,
        message: "Network already exists".into()
    }))
    .is_ok());
    assert!(ensure_network_outcome::<()>(Err(LxdApiError::Conflict("x".into()))).is_ok());
    assert!(matches!(
        ensure_network_outcome::<()>(Err(LxdApiError::Api { status: 400, message: "bad".into() })),
        Err(LxdApiError::Api { status: 400, .. })
    ));
    assert!(matches!(
        ensure_network_outcome::<()>(Err(LxdApiError::Connection("down".into()))),
        Err(LxdApiError::Connection(_))
    ));
}

#[test]
fn instance_names_from_urls() {
    assert_eq!(instance_name_from_url("/1.0/instances/vm1"), "vm1");
    assert_eq!(instance_name_from_url("vm2"), "vm2");
    assert_eq!(instance_name_from_url("/1.0/instances/"), "");
    assert_eq!(
        instance_names(vec!["/1.0/instances/a".into(), "/1.0/instances/b?x".into()]),
        vec!["a".to_string(), "b?x".to_string()]
    );
}

#[test]
fn extract_ipv4_finds_first_global_inet() {
    let mut net: StrMap<InterfaceState> = StrMap::new();
    net.insert(
        "lo".into(),
        iface(vec![addr("inet", "127.0.0.1", "local"), addr("inet6", "::1", "local")]),
    );
    net.insert(
        "eth0".into(),
        iface(vec![
            addr("inet6", "fe80::1", "link"),
            addr("inet", "10.100.200.5", "global"),
            addr("inet", "10.100.200.6", "global"),
        ]),
    );
    let state = InstanceState { status: "Running".into(), network: Some(net) };
    assert_eq!(extract_ipv4(&state), Some("10.100.200.5".to_string()));
    let none = InstanceState { status: "Running".into(), network: None };
    assert_eq!(extract_ipv4(&none), None);
    let mut lo_only: StrMap<InterfaceState> = StrMap::new();
    lo_only.insert("lo".into(), iface(vec![addr("inet", "127.0.0.1", "local")]));
    let s = InstanceState { status: "Running".into(), network: Some(lo_only) };
    assert_eq!(extract_ipv4(&s), None);
    assert!(agent_ready(Ok(s)).is_none());
    assert!(agent_ready(Ok(state)).is_some());
    assert!(agent_ready(Err(LxdApiError::Connection("x".into()))).is_none());
}

#[test]
fn polling_decisions() {
    assert!(deadline_check(false, 600).is_ok());
    assert!(matches!(deadline_check(true, 600), Err(LxdApiError::Timeout(600))));
    assert!(cloud_init_done(Ok(true)));
    assert!(!cloud_init_done(Ok(false)));
    assert!(!cloud_init_done(Err(LxdApiError::Connection("x".into()))));
}

fn envelope(kind: &str, error: &str, code: u16) -> LxdResponse {
    LxdResponse {
        response_type: kind.into(),
        status_code: 200,
        operation: String::new(),
        metadata: None,
        error: error.into(),
        error_code: code,
    }
}

fn op(status: &str, code: u16, err: &str) -> Operation {
    Operation { id: "1".into(), status: status.into(), status_code: code, err: err.into() }
}

#[test]
fn envelopes_and_metadata() {
    assert!(check_error(&envelope("sync", "", 0)).is_ok());
    match check_error(&envelope("error", "boom", 500)) {
        Err(LxdApiError::Api { status, message }) => {
            assert_eq!((status, message.as_str()), (500, "boom"))
        }
        other => panic!("unexpected {:?}", other),
    }
    assert_eq!(require_metadata(Some(5)).unwrap(), 5);
    match require_metadata::<u8>(None) {
        Err(LxdApiError::Json(m)) => assert_eq!(m, "missing metadata in sync response"),
        other => panic!("unexpected {:?}", other),
    }
}

#[test]
fn operation_status() {
    assert!(op("Success", 200, "").is_success());
    assert!(op("Success", 0, "").is_success());
    assert!(op("Other", 200, "").is_success());
    assert!(!op("Running", 103, "").is_success());
    assert!(op("Failure", 400, "").is_failure());
    assert!(op("Other", 400, "").is_failure());
    assert!(!op("Success", 200, "").is_failure());
}

#[test]
fn waiting_for_operations() {
    assert_eq!(wait_path("/1.0/operations/abc", 600), "/1.0/operations/abc/wait?timeout=600");
    assert_eq!(wait_http_timeout(600), 610);
    let url = "/1.0/operations/abc";
    let ok = finish_wait(url, 600, &envelope("sync", "", 0), Ok(Some(op("Success", 200, ""))));
    assert_eq!(ok.unwrap().status, "Success");
    match finish_wait(url, 600, &envelope("error", "nope", 404), Ok(None)) {
        Err(LxdApiError::Api { status, message }) => {
            assert_eq!((status, message.as_str()), (404, "nope"))
        }
        other => panic!("unexpected {:?}", other),
    }
    match finish_wait(url, 600, &envelope("sync", "", 0), Ok(None)) {
        Err(LxdApiError::Json(m)) => assert_eq!(m, "missing operation metadata in wait response"),
        other => panic!("unexpected {:?}", other),
    }
    match finish_wait(url, 600, &envelope("sync", "", 0), Err("bad json".to_string())) {
        Err(LxdApiError::Json(m)) => assert_eq!(m, "bad json"),
        other => panic!("unexpected {:?}", other),
    }
    match finish_wait(url, 600, &envelope("sync", "", 0), Ok(Some(op("Failure", 400, "")))) {
        Err(LxdApiError::OperationFailed(m)) => {
            assert_eq!(m, "operation /1.0/operations/abc failed with status Failure")
        }
        other => panic!("unexpected {:?}", other),
    }
    match finish_wait(url, 600, &envelope("sync", "", 0), Ok(Some(op("Failure", 400, "disk full")))) {
        Err(LxdApiError::OperationFailed(m)) => assert_eq!(m, "disk full"),
        other => panic!("unexpected {:?}", other),
    }
    // An operation still running when the wait returns: the wait timed out.
    match finish_wait(url, 600, &envelope("sync", "", 0), Ok(Some(op("Running", 103, "")))) {
        Err(LxdApiError::Timeout(secs)) => assert_eq!(secs, 600),
        other => panic!("unexpected {:?}", other),
    }
    // A cancelled operation did not complete.
    match finish_wait(url, 600, &envelope("sync", "", 0), Ok(Some(op("Cancelled", 401, "")))) {
        Err(LxdApiError::OperationFailed(m)) => {
            assert_eq!(m, "operation /1.0/operations/abc did not complete, status Cancelled")
        }
        other => panic!("unexpected {:?}", other),
    }
}
