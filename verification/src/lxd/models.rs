//! Typed payloads of the LXD 1.0 REST API. JSON encoding and decoding of
//! these happens at the edge of the program; here they are plain values.

use vstd::prelude::*;
use crate::strmap::StrMap;
use crate::text::str_eq;

verus! {

broadcast use vstd::string::group_string_axioms;

/// A JSON document, as produced by `serde_json`.
#[verifier::external_type_specification]
#[verifier::external_body]
pub struct ExJsonValue(serde_json::Value);

/// Standard LXD response envelope wrapping all API responses. The
/// `metadata` payload stays a raw JSON document.
#[derive(Debug)]
pub struct LxdResponse {
    /// "sync", "async", or "error".
    pub response_type: String,
    /// HTTP-style status code (200 = success, 202 = async, 400 = failure, 404 = not found).
    pub status_code: u16,
    /// For async responses, the URL of the created operation.
    pub operation: String,
    /// Response payload for sync responses; absent for async/error responses.
    pub metadata: Option<serde_json::Value>,
    /// Error message when the type is "error".
    pub error: String,
    /// Numeric error code when the type is "error".
    pub error_code: u16,
}

// ── Projects, storage pools, networks ─────────────────────────────────────

#[derive(Debug)]
pub struct ProjectsPost {
    pub name: String,
    pub config: StrMap<String>,
}

#[derive(Debug)]
pub struct StoragePoolsPost {
    pub name: String,
    pub driver: String,
    pub config: StrMap<String>,
}

#[derive(Debug)]
pub struct NetworksPost {
    pub name: String,
    pub network_type: String,
    pub config: StrMap<String>,
}

// ── Instances ─────────────────────────────────────────────────────────────

#[derive(Debug)]
pub struct InstancesPost {
    pub name: String,
    pub instance_type: String,
    pub source: InstanceSource,
    pub config: StrMap<String>,
    pub devices: StrMap<StrMap<String>>,
    pub profiles: Vec<String>,
}

#[derive(Debug)]
pub struct InstanceSource {
    pub source_type: String,
    pub alias: String,
    pub server: Option<String>,
    pub protocol: Option<String>,
    pub mode: Option<String>,
}

/// PUT /1.0/instances/{name}/state — change instance power state.
#[derive(Debug)]
pub struct InstanceStatePut {
    pub action: String,
    pub timeout: u32,
    pub force: bool,
}

/// GET /1.0/instances/{name}/state — current instance state.
#[derive(Debug)]
pub struct InstanceState {
    /// "Running", "Stopped", "Starting", "Stopping", etc.
    pub status: String,
    /// Network interface state by interface name. Populated when the
    /// instance is running.
    pub network: Option<StrMap<InterfaceState>>,
}

#[derive(Debug)]
pub struct InterfaceState {
    pub addresses: Vec<InterfaceAddress>,
    pub state: String,
}

#[derive(Debug)]
pub struct InterfaceAddress {
    pub family: String,
    pub address: String,
    pub scope: String,
}

/// The text of an interface address.
pub struct AddressView {
    pub family: Seq<char>,
    pub address: Seq<char>,
    pub scope: Seq<char>,
}

impl View for InterfaceAddress {
    type V = AddressView;

    open spec fn view(&self) -> AddressView {
        AddressView { family: self.family@, address: self.address@, scope: self.scope@ }
    }
}

impl View for InterfaceState {
    type V = Seq<AddressView>;

    /// An interface is seen through its addresses.
    open spec fn view(&self) -> Seq<AddressView> {
        self.addresses@.map_values(|a: InterfaceAddress| a@)
    }
}

/// POST /1.0/instances/{name}/exec — run a command inside the instance.
#[derive(Debug)]
pub struct InstanceExecPost {
    pub command: Vec<String>,
    pub environment: StrMap<String>,
    pub interactive: bool,
    pub wait_for_websocket: bool,
    pub record_output: bool,
}

/// LXD async operation as returned by /1.0/operations/{id}/wait.
#[derive(Debug)]
pub struct Operation {
    pub id: String,
    /// "Running", "Success", "Failure", "Cancelled".
    pub status: String,
    /// Numeric status code: 103=Running, 200=Success, 400=Failure.
    pub status_code: u16,
    /// Error message when the status is Failure.
    pub err: String,
}

impl Operation {
    pub open spec fn spec_is_success(&self) -> bool {
        self.status@ == "Success"@ || self.status_code == 200
    }

    pub open spec fn spec_is_failure(&self) -> bool {
        self.status@ == "Failure"@ || self.status_code == 400
    }

    /// The operation succeeded: its status reads "Success" or its code is 200.
    pub fn is_success(&self) -> (r: bool)
        ensures
            r == self.spec_is_success(),
    {
        str_eq(self.status.as_str(), "Success") || self.status_code == 200
    }

    /// The operation failed: its status reads "Failure" or its code is 400.
    pub fn is_failure(&self) -> (r: bool)
        ensures
            r == self.spec_is_failure(),
    {
        str_eq(self.status.as_str(), "Failure") || self.status_code == 400
    }
}

} // verus!
