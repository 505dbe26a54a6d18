//! Sandboxes as the compute-driver protocol describes them, and the errors
//! a compute driver reports.

use vstd::prelude::*;
use crate::lxd::client::{ApiErrorView, LxdApiError};
use crate::text::{append_str, owned};

verus! {

broadcast use vstd::string::group_string_axioms;

/// The template a sandbox is created from.
#[derive(Debug)]
pub struct SandboxTemplate {
    /// Image alias; empty means the driver's default image.
    pub image: String,
}

/// What the gateway asks for in a sandbox.
#[derive(Debug)]
pub struct DriverSandboxSpec {
    pub gpu: bool,
    pub template: Option<SandboxTemplate>,
}

/// One condition of a sandbox's status.
#[derive(Debug)]
pub struct DriverCondition {
    pub condition_type: String,
    pub status: String,
    pub reason: String,
    pub message: String,
    pub last_transition_time: String,
}

/// The observed status of a sandbox.
#[derive(Debug)]
pub struct DriverSandboxStatus {
    pub sandbox_name: String,
    pub instance_id: String,
    pub agent_fd: String,
    pub sandbox_fd: String,
    pub conditions: Vec<DriverCondition>,
    pub deleting: bool,
}

/// A sandbox: identity, requested spec and observed status.
#[derive(Debug)]
pub struct DriverSandbox {
    pub id: String,
    pub name: String,
    pub namespace: String,
    pub spec: Option<DriverSandboxSpec>,
    pub status: Option<DriverSandboxStatus>,
}

/// What the driver can do.
#[derive(Debug)]
pub struct GetCapabilitiesResponse {
    pub driver_name: String,
    pub driver_version: String,
    pub default_image: String,
    pub supports_gpu: bool,
}

pub struct SpecView {
    pub gpu: bool,
    pub template_image: Option<Seq<char>>,
}

pub struct ConditionView {
    pub condition_type: Seq<char>,
    pub status: Seq<char>,
    pub reason: Seq<char>,
    pub message: Seq<char>,
    pub last_transition_time: Seq<char>,
}

pub struct StatusView {
    pub sandbox_name: Seq<char>,
    pub instance_id: Seq<char>,
    pub agent_fd: Seq<char>,
    pub sandbox_fd: Seq<char>,
    pub conditions: Seq<ConditionView>,
    pub deleting: bool,
}

pub struct SandboxView {
    pub id: Seq<char>,
    pub name: Seq<char>,
    pub namespace: Seq<char>,
    pub spec: Option<SpecView>,
    pub status: Option<StatusView>,
}

impl View for DriverSandboxSpec {
    type V = SpecView;

    open spec fn view(&self) -> SpecView {
        SpecView {
            gpu: self.gpu,
            template_image: match &self.template {
                Some(t) => Some(t.image@),
                None => None,
            },
        }
    }
}

impl View for DriverCondition {
    type V = ConditionView;

    open spec fn view(&self) -> ConditionView {
        ConditionView {
            condition_type: self.condition_type@,
            status: self.status@,
            reason: self.reason@,
            message: self.message@,
            last_transition_time: self.last_transition_time@,
        }
    }
}

impl View for DriverSandboxStatus {
    type V = StatusView;

    open spec fn view(&self) -> StatusView {
        StatusView {
            sandbox_name: self.sandbox_name@,
            instance_id: self.instance_id@,
            agent_fd: self.agent_fd@,
            sandbox_fd: self.sandbox_fd@,
            conditions: self.conditions@.map_values(|c: DriverCondition| c@),
            deleting: self.deleting,
        }
    }
}

impl View for DriverSandbox {
    type V = SandboxView;

    open spec fn view(&self) -> SandboxView {
        SandboxView {
            id: self.id@,
            name: self.name@,
            namespace: self.namespace@,
            spec: match &self.spec {
                Some(s) => Some(s@),
                None => None,
            },
            status: match &self.status {
                Some(s) => Some(s@),
                None => None,
            },
        }
    }
}

impl DriverSandboxSpec {
    /// A copy with the same content.
    pub fn duplicate(&self) -> (r: Self)
        ensures
            r@ == self@,
    {
        DriverSandboxSpec {
            gpu: self.gpu,
            template: match &self.template {
                Some(t) => Some(SandboxTemplate { image: t.image.clone() }),
                None => None,
            },
        }
    }
}

impl DriverCondition {
    /// A copy with the same content.
    pub fn duplicate(&self) -> (r: Self)
        ensures
            r@ == self@,
    {
        DriverCondition {
            condition_type: self.condition_type.clone(),
            status: self.status.clone(),
            reason: self.reason.clone(),
            message: self.message.clone(),
            last_transition_time: self.last_transition_time.clone(),
        }
    }
}

/// A copy of a list of conditions.
pub fn duplicate_conditions(cs: &Vec<DriverCondition>) -> (r: Vec<DriverCondition>)
    ensures
        r@.map_values(|c: DriverCondition| c@) == cs@.map_values(|c: DriverCondition| c@),
{
    let mut out: Vec<DriverCondition> = Vec::new();
    let n = cs.len();
    let mut i: usize = 0;
    while i < n
        invariant
            n == cs@.len(),
            i <= n,
            out@.map_values(|c: DriverCondition| c@) == cs@.map_values(|c: DriverCondition| c@).take(
                i as int,
            ),
        decreases n - i,
    {
        let ghost before = out@;
        let d = cs[i].duplicate();
        let ghost dv = d@;
        out.push(d);
        assert(out@.map_values(|c: DriverCondition| c@) =~= before.map_values(
            |c: DriverCondition| c@,
        ).push(dv));
        assert(cs@.map_values(|c: DriverCondition| c@).take(i + 1) =~= cs@.map_values(
            |c: DriverCondition| c@,
        ).take(i as int).push(dv));
        i = i + 1;
    }
    assert(cs@.map_values(|c: DriverCondition| c@).take(n as int) =~= cs@.map_values(
        |c: DriverCondition| c@,
    ));
    out
}

impl DriverSandboxStatus {
    /// A copy with the same content.
    pub fn duplicate(&self) -> (r: Self)
        ensures
            r@ == self@,
    {
        DriverSandboxStatus {
            sandbox_name: self.sandbox_name.clone(),
            instance_id: self.instance_id.clone(),
            agent_fd: self.agent_fd.clone(),
            sandbox_fd: self.sandbox_fd.clone(),
            conditions: duplicate_conditions(&self.conditions),
            deleting: self.deleting,
        }
    }
}

impl DriverSandbox {
    /// A copy with the same content.
    pub fn duplicate(&self) -> (r: Self)
        ensures
            r@ == self@,
    {
        DriverSandbox {
            id: self.id.clone(),
            name: self.name.clone(),
            namespace: self.namespace.clone(),
            spec: match &self.spec {
                Some(s) => Some(s.duplicate()),
                None => None,
            },
            status: match &self.status {
                Some(s) => Some(s.duplicate()),
                None => None,
            },
        }
    }
}

// ── Errors ───────────────────────────────────────────────────────────────

/// The errors a compute driver reports to the gateway.
#[derive(Debug)]
pub enum ComputeDriverError {
    AlreadyExists,
    Precondition(String),
    Message(String),
}

pub enum DriverErrorView {
    AlreadyExists,
    Precondition(Seq<char>),
    Message(Seq<char>),
}

impl View for ComputeDriverError {
    type V = DriverErrorView;

    open spec fn view(&self) -> DriverErrorView {
        match self {
            ComputeDriverError::AlreadyExists => DriverErrorView::AlreadyExists,
            ComputeDriverError::Precondition(m) => DriverErrorView::Precondition(m@),
            ComputeDriverError::Message(m) => DriverErrorView::Message(m@),
        }
    }
}

/// How an LXD error reaches the gateway: a conflict means the sandbox exists
/// already, "not found" keeps its message, any other error its rendering.
pub open spec fn driver_error_of(e: ApiErrorView) -> DriverErrorView {
    match e {
        ApiErrorView::Conflict(_) => DriverErrorView::AlreadyExists,
        ApiErrorView::NotFound(m) => DriverErrorView::Message("not found: "@ + m),
        _ => DriverErrorView::Message(e.display()),
    }
}

impl ComputeDriverError {
    /// Converts an LXD error into the error reported to the gateway.
    pub fn from_api_error(e: LxdApiError) -> (r: Self)
        ensures
            r@ == driver_error_of(e@),
    {
        match e {
            LxdApiError::Conflict(_) => ComputeDriverError::AlreadyExists,
            LxdApiError::NotFound(msg) => {
                let mut m = owned("not found: ");
                append_str(&mut m, msg.as_str());
                ComputeDriverError::Message(m)
            },
            other => ComputeDriverError::Message(other.to_string()),
        }
    }
}

} // verus!
