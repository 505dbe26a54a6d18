use openshell_driver_lxd::config::{
    LxdComputeConfig, DEFAULT_BASE_IMAGE, DEFAULT_LXD_PROJECT, DEFAULT_LXD_SOCKET,
    DEFAULT_OPERATION_TIMEOUT_SECS,
};
use openshell_driver_lxd::grpc::{
    check_delete_request, get_sandbox_response, require_sandbox, require_sandbox_name,
    status_from_driver_error, RpcCode,
};
use openshell_driver_lxd::sandbox::{ComputeDriverError, DriverSandbox};

#[test]
fn config_defaults() {
    let c = LxdComputeConfig::default();
    assert_eq!(c.socket_path, DEFAULT_LXD_SOCKET);
    assert_eq!(c.lxd_project, DEFAULT_LXD_PROJECT);
    assert_eq!(c.storage_pool, "openshell-pool");
    assert_eq!(c.storage_driver, "zfs");
    assert_eq!(c.storage_pool_size, "50GiB");
    assert_eq!(c.network_name, "openshell-br0");
    assert_eq!(c.network_cidr, "10.100.200.1/24");
    assert_eq!(c.base_image_alias, DEFAULT_BASE_IMAGE);
    assert_eq!(c.image_server, "https://cloud-images.ubuntu.com/releases");
    assert_eq!(c.supervisor_path, "/opt/openshell/supervisor");
    assert_eq!(c.grpc_endpoint, "");
    assert_eq!(c.ssh_handshake_secret, "");
    assert_eq!(c.operation_timeout_secs, DEFAULT_OPERATION_TIMEOUT_SECS);
    assert_eq!(c.operation_timeout_secs, 600);
}

#[test]
fn debug_redacts_secret() {
    let mut c = LxdComputeConfig::default();
    c.ssh_handshake_secret = "top-secret".into();
    let text = c.debug_string();
    assert!(!text.contains("top-secret"));
    assert!(text.contains("ssh_handshake_secret: \"[REDACTED]\""));
    assert!(text.starts_with("LxdComputeConfig { socket_path: \"/var/snap/lxd/common/lxd/unix.socket\", "));
    assert!(text.ends_with("operation_timeout_secs: 600 }"));
    let mut d = LxdComputeConfig::default();
    d.ssh_handshake_secret = "other".into();
    assert_eq!(text, d.debug_string());
}

fn sb(id: &str) -> DriverSandbox {
    DriverSandbox { id: id.into(), name: "box".into(), namespace: String::new(), spec: None, status: None }
}

#[test]
fn rpc_checks() {
    let e = status_from_driver_error(ComputeDriverError::AlreadyExists);
    assert_eq!((e.code, e.message.as_str()), (RpcCode::AlreadyExists, "sandbox already exists"));
    let e = status_from_driver_error(ComputeDriverError::Precondition("p".into()));
    assert_eq!((e.code, e.message.as_str()), (RpcCode::FailedPrecondition, "p"));
    let e = status_from_driver_error(ComputeDriverError::Message("m".into()));
    assert_eq!((e.code, e.message.as_str()), (RpcCode::Internal, "m"));

    assert!(require_sandbox(Some(sb("1"))).is_ok());
    let e = require_sandbox(None).unwrap_err();
    assert_eq!((e.code, e.message.as_str()), (RpcCode::InvalidArgument, "sandbox is required"));
    assert!(require_sandbox_name("box").is_ok());
    let e = require_sandbox_name("").unwrap_err();
    assert_eq!(e.message, "sandbox_name is required");
    let e = check_delete_request("", "").unwrap_err();
    assert_eq!(e.message, "sandbox_id is required");
    let e = check_delete_request("1", "").unwrap_err();
    assert_eq!(e.message, "sandbox_name is required");
    assert!(check_delete_request("1", "box").is_ok());

    let e = get_sandbox_response("", None).unwrap_err();
    assert_eq!((e.code, e.message.as_str()), (RpcCode::NotFound, "sandbox not found"));
    assert_eq!(get_sandbox_response("", Some(sb("1"))).unwrap().id, "1");
    assert_eq!(get_sandbox_response("1", Some(sb("1"))).unwrap().id, "1");
    let e = get_sandbox_response("2", Some(sb("1"))).unwrap_err();
    assert_eq!(
        (e.code, e.message.as_str()),
        (RpcCode::FailedPrecondition, "sandbox_id did not match the fetched sandbox")
    );
}
