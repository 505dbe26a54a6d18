//! Configuration of the LXD compute driver.

use vstd::prelude::*;
use crate::text::{append_decimal, append_str, debug_quoted, debug_str, dec_string, owned};

verus! {

broadcast use vstd::string::group_string_axioms;

pub const DEFAULT_LXD_SOCKET: &'static str = "/var/snap/lxd/common/lxd/unix.socket";
pub const DEFAULT_LXD_PROJECT: &'static str = "openshell";
pub const DEFAULT_STORAGE_POOL: &'static str = "openshell-pool";
pub const DEFAULT_STORAGE_DRIVER: &'static str = "zfs";
pub const DEFAULT_STORAGE_POOL_SIZE: &'static str = "50GiB";
pub const DEFAULT_NETWORK_NAME: &'static str = "openshell-br0";
pub const DEFAULT_NETWORK_CIDR: &'static str = "10.100.200.1/24";
pub const DEFAULT_BASE_IMAGE: &'static str = "24.04";
pub const DEFAULT_IMAGE_SERVER: &'static str = "https://cloud-images.ubuntu.com/releases";
pub const DEFAULT_SUPERVISOR_PATH: &'static str = "/opt/openshell/supervisor";
pub const DEFAULT_OPERATION_TIMEOUT_SECS: u64 = 600;
/// Default maximum clock skew accepted in the SSH handshake, in seconds.
pub const DEFAULT_SSH_HANDSHAKE_SKEW_SECS: u64 = 300;
/// Default port the in-VM supervisor serves SSH on.
pub const DEFAULT_SSH_PORT: u16 = 2222;

/// Settings of the driver. Its debug rendering is [`LxdComputeConfig::debug_string`],
/// which keeps the SSH handshake secret out.
#[derive(Clone)]
pub struct LxdComputeConfig {
    /// Path to the LXD Unix socket.
    pub socket_path: String,
    /// LXD project used to namespace all managed instances.
    pub lxd_project: String,
    /// Name of the ZFS storage pool for instance root disks.
    pub storage_pool: String,
    /// LXD storage driver ("zfs" or "dir").
    pub storage_driver: String,
    /// Size of the loopback file when using the ZFS driver.
    pub storage_pool_size: String,
    /// Name of the bridge network attached to instances.
    pub network_name: String,
    /// Gateway address and prefix length for the bridge (e.g. "10.100.200.1/24").
    pub network_cidr: String,
    /// LXD image alias for new sandbox VMs.
    pub base_image_alias: String,
    /// Simplestreams image server URL.
    pub image_server: String,
    /// Host path of the openshell-sandbox supervisor binary to inject into VMs.
    pub supervisor_path: String,
    /// Gateway gRPC endpoint the in-VM supervisor connects back to.
    pub grpc_endpoint: String,
    /// Shared secret for the SSH handshake.
    pub ssh_handshake_secret: String,
    /// Maximum clock skew in seconds for SSH handshake validation.
    pub ssh_handshake_skew_secs: u64,
    /// SSH port the supervisor listens on inside the VM.
    pub ssh_port: u16,
    /// Timeout in seconds for LXD async operations (VM create, start, delete).
    pub operation_timeout_secs: u64,
}

impl Default for LxdComputeConfig {
    fn default() -> (c: Self)
        ensures
            c.socket_path@ == DEFAULT_LXD_SOCKET@,
            c.lxd_project@ == DEFAULT_LXD_PROJECT@,
            c.storage_pool@ == DEFAULT_STORAGE_POOL@,
            c.storage_driver@ == DEFAULT_STORAGE_DRIVER@,
            c.storage_pool_size@ == DEFAULT_STORAGE_POOL_SIZE@,
            c.network_name@ == DEFAULT_NETWORK_NAME@,
            c.network_cidr@ == DEFAULT_NETWORK_CIDR@,
            c.base_image_alias@ == DEFAULT_BASE_IMAGE@,
            c.image_server@ == DEFAULT_IMAGE_SERVER@,
            c.supervisor_path@ == DEFAULT_SUPERVISOR_PATH@,
            c.grpc_endpoint@.len() == 0,
            c.ssh_handshake_secret@.len() == 0,
            c.ssh_handshake_skew_secs == DEFAULT_SSH_HANDSHAKE_SKEW_SECS,
            c.ssh_port == DEFAULT_SSH_PORT,
            c.operation_timeout_secs == DEFAULT_OPERATION_TIMEOUT_SECS,
    {
        LxdComputeConfig {
            socket_path: owned(DEFAULT_LXD_SOCKET),
            lxd_project: owned(DEFAULT_LXD_PROJECT),
            storage_pool: owned(DEFAULT_STORAGE_POOL),
            storage_driver: owned(DEFAULT_STORAGE_DRIVER),
            storage_pool_size: owned(DEFAULT_STORAGE_POOL_SIZE),
            network_name: owned(DEFAULT_NETWORK_NAME),
            network_cidr: owned(DEFAULT_NETWORK_CIDR),
            base_image_alias: owned(DEFAULT_BASE_IMAGE),
            image_server: owned(DEFAULT_IMAGE_SERVER),
            supervisor_path: owned(DEFAULT_SUPERVISOR_PATH),
            grpc_endpoint: String::new(),
            ssh_handshake_secret: String::new(),
            ssh_handshake_skew_secs: DEFAULT_SSH_HANDSHAKE_SKEW_SECS,
            ssh_port: DEFAULT_SSH_PORT,
            operation_timeout_secs: DEFAULT_OPERATION_TIMEOUT_SECS,
        }
    }
}

/// One `name: value` field of a debug rendering, the value quoted.
pub open spec fn quoted_field(name: Seq<char>, value: Seq<char>) -> Seq<char> {
    name + ": "@ + debug_quoted(value)
}

/// The debug rendering of a configuration. The SSH handshake secret is not
/// part of it: a fixed placeholder stands in its place.
pub open spec fn config_debug_text(c: &LxdComputeConfig) -> Seq<char> {
    "LxdComputeConfig { "@ + quoted_field("socket_path"@, c.socket_path@) + ", "@ + quoted_field(
        "lxd_project"@,
        c.lxd_project@,
    ) + ", "@ + quoted_field("storage_pool"@, c.storage_pool@) + ", "@ + quoted_field(
        "storage_driver"@,
        c.storage_driver@,
    ) + ", "@ + quoted_field("storage_pool_size"@, c.storage_pool_size@) + ", "@ + quoted_field(
        "network_name"@,
        c.network_name@,
    ) + ", "@ + quoted_field("network_cidr"@, c.network_cidr@) + ", "@ + quoted_field(
        "base_image_alias"@,
        c.base_image_alias@,
    ) + ", "@ + quoted_field("image_server"@, c.image_server@) + ", "@ + quoted_field(
        "supervisor_path"@,
        c.supervisor_path@,
    ) + ", "@ + quoted_field("grpc_endpoint"@, c.grpc_endpoint@) + ", "@ + quoted_field(
        "ssh_handshake_secret"@,
        "[REDACTED]"@,
    ) + ", "@ + "ssh_handshake_skew_secs: "@ + dec_string(c.ssh_handshake_skew_secs as nat)
        + ", "@ + "ssh_port: "@ + dec_string(c.ssh_port as nat) + ", "@
        + "operation_timeout_secs: "@ + dec_string(c.operation_timeout_secs as nat) + " }"@
}

fn push_quoted_field(out: &mut String, name: &str, value: &str)
    ensures
        final(out)@ == old(out)@ + quoted_field(name@, value@),
{
    append_str(out, name);
    append_str(out, ": ");
    append_str(out, debug_str(value).as_str());
}

impl LxdComputeConfig {
    /// The debug rendering of the configuration, with the SSH handshake
    /// secret redacted.
    pub fn debug_string(&self) -> (r: String)
        ensures
            r@ == config_debug_text(self),
    {
        let mut s = owned("LxdComputeConfig { ");
        push_quoted_field(&mut s, "socket_path", self.socket_path.as_str());
        append_str(&mut s, ", ");
        push_quoted_field(&mut s, "lxd_project", self.lxd_project.as_str());
        append_str(&mut s, ", ");
        push_quoted_field(&mut s, "storage_pool", self.storage_pool.as_str());
        append_str(&mut s, ", ");
        push_quoted_field(&mut s, "storage_driver", self.storage_driver.as_str());
        append_str(&mut s, ", ");
        push_quoted_field(&mut s, "storage_pool_size", self.storage_pool_size.as_str());
        append_str(&mut s, ", ");
        push_quoted_field(&mut s, "network_name", self.network_name.as_str());
        append_str(&mut s, ", ");
        push_quoted_field(&mut s, "network_cidr", self.network_cidr.as_str());
        append_str(&mut s, ", ");
        push_quoted_field(&mut s, "base_image_alias", self.base_image_alias.as_str());
        append_str(&mut s, ", ");
        push_quoted_field(&mut s, "image_server", self.image_server.as_str());
        append_str(&mut s, ", ");
        push_quoted_field(&mut s, "supervisor_path", self.supervisor_path.as_str());
        append_str(&mut s, ", ");
        push_quoted_field(&mut s, "grpc_endpoint", self.grpc_endpoint.as_str());
        append_str(&mut s, ", ");
        push_quoted_field(&mut s, "ssh_handshake_secret", "[REDACTED]");
        append_str(&mut s, ", ");
        append_str(&mut s, "ssh_handshake_skew_secs: ");
        append_decimal(&mut s, self.ssh_handshake_skew_secs);
        append_str(&mut s, ", ");
        append_str(&mut s, "ssh_port: ");
        append_decimal(&mut s, self.ssh_port as u64);
        append_str(&mut s, ", ");
        append_str(&mut s, "operation_timeout_secs: ");
        append_decimal(&mut s, self.operation_timeout_secs);
        append_str(&mut s, " }");
        s
    }
}

/// Two configurations that differ at most in their SSH handshake secret.
pub open spec fn same_but_secret(a: &LxdComputeConfig, b: &LxdComputeConfig) -> bool {
    &&& a.socket_path@ == b.socket_path@
    &&& a.lxd_project@ == b.lxd_project@
    &&& a.storage_pool@ == b.storage_pool@
    &&& a.storage_driver@ == b.storage_driver@
    &&& a.storage_pool_size@ == b.storage_pool_size@
    &&& a.network_name@ == b.network_name@
    &&& a.network_cidr@ == b.network_cidr@
    &&& a.base_image_alias@ == b.base_image_alias@
    &&& a.image_server@ == b.image_server@
    &&& a.supervisor_path@ == b.supervisor_path@
    &&& a.grpc_endpoint@ == b.grpc_endpoint@
    &&& a.ssh_handshake_skew_secs == b.ssh_handshake_skew_secs
    &&& a.ssh_port == b.ssh_port
    &&& a.operation_timeout_secs == b.operation_timeout_secs
}

/// The debug rendering never reveals the SSH handshake secret: two
/// configurations that differ only in the secret render the same.
pub proof fn debug_text_hides_secret(a: &LxdComputeConfig, b: &LxdComputeConfig)
    requires
        same_but_secret(a, b),
    ensures
        config_debug_text(a) == config_debug_text(b),
{
}

} // verus!
