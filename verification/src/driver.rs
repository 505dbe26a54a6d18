//! The LXD compute driver's own state and decisions: which sandboxes it
//! manages, how a sandbox request becomes an LXD instance request, and what
//! each observation of an instance does to the registry. Talking to LXD
//! happens at the edge of the program, between these steps.

use vstd::prelude::*;
use crate::cloud_init::{cloud_init_user_data, env_lines, user_data_text};
use crate::config::LxdComputeConfig;
use crate::lxd::api::{extract_ipv4, state_ipv4};
use crate::lxd::client::{sanitize_instance_name, sanitized_name, ApiErrorView, LxdApiError};
use crate::lxd::models::{InstanceSource, InstanceState, InstancesPost};
use crate::sandbox::{
    driver_error_of, ComputeDriverError, ConditionView, DriverCondition, DriverErrorView,
    DriverSandbox, DriverSandboxStatus, GetCapabilitiesResponse, SandboxView, StatusView,
};
use crate::strmap::{lemma_map_of_dom, lemma_map_of_index, lemma_map_of_len, map_of, StrMap};
use crate::text::{append_decimal, append_str, dec_string, owned, str_eq};

verus! {

broadcast use vstd::string::group_string_axioms;

// ── Conditions ───────────────────────────────────────────────────────────

/// A "Ready: False" condition with the given reason and message.
pub open spec fn not_ready(reason: Seq<char>, message: Seq<char>) -> ConditionView {
    ConditionView {
        condition_type: "Ready"@,
        status: "False"@,
        reason,
        message,
        last_transition_time: Seq::empty(),
    }
}

pub open spec fn provisioning_view() -> ConditionView {
    not_ready("Starting"@, "VM is running, waiting for supervisor connection"@)
}

pub open spec fn stopped_view() -> ConditionView {
    not_ready("VmStopped"@, "VM is stopped"@)
}

pub open spec fn not_running_view(status: Seq<char>) -> ConditionView {
    not_ready("VmNotRunning"@, "VM status: "@ + status)
}

fn not_ready_condition(reason: String, message: String) -> (c: DriverCondition)
    ensures
        c@ == not_ready(reason@, message@),
{
    DriverCondition {
        condition_type: owned("Ready"),
        status: owned("False"),
        reason,
        message,
        last_transition_time: String::new(),
    }
}

/// The VM runs and the supervisor has yet to connect.
pub fn provisioning_condition() -> (c: DriverCondition)
    ensures
        c@ == provisioning_view(),
{
    not_ready_condition(owned("Starting"), owned("VM is running, waiting for supervisor connection"))
}

/// The VM was stopped.
pub fn stopped_condition() -> (c: DriverCondition)
    ensures
        c@ == stopped_view(),
{
    not_ready_condition(owned("VmStopped"), owned("VM is stopped"))
}

/// The VM is in some state other than running.
pub fn stopped_condition_with_status(status: &str) -> (c: DriverCondition)
    ensures
        c@ == not_running_view(status@),
{
    let mut m = owned("VM status: ");
    append_str(&mut m, status);
    not_ready_condition(owned("VmNotRunning"), m)
}

// ── Records ──────────────────────────────────────────────────────────────

/// In-memory record of a managed sandbox instance.
#[derive(Debug)]
pub struct SandboxRecord {
    /// Last known snapshot of this sandbox.
    pub sandbox: DriverSandbox,
    /// LXD instance name (derived from the sandbox name).
    pub vm_name: String,
}

pub struct RecordView {
    pub sandbox: SandboxView,
    pub vm_name: Seq<char>,
}

impl View for SandboxRecord {
    type V = RecordView;

    open spec fn view(&self) -> RecordView {
        RecordView { sandbox: self.sandbox@, vm_name: self.vm_name@ }
    }
}

impl SandboxRecord {
    /// A copy with the same content.
    pub fn duplicate(&self) -> (r: Self)
        ensures
            r@ == self@,
    {
        SandboxRecord { sandbox: self.sandbox.duplicate(), vm_name: self.vm_name.clone() }
    }
}

/// The record of a sandbox whose status conditions are replaced by "stopped";
/// a record without a status stays as it is.
pub open spec fn stopped_record(r: RecordView) -> RecordView {
    match r.sandbox.status {
        Some(st) => RecordView {
            sandbox: SandboxView {
                status: Some(StatusView { conditions: seq![stopped_view()], ..st }),
                ..r.sandbox
            },
            ..r
        },
        None => r,
    }
}

/// The record of a sandbox marked as being deleted; a record without a
/// status stays as it is.
pub open spec fn deleting_record(r: RecordView) -> RecordView {
    match r.sandbox.status {
        Some(st) => RecordView {
            sandbox: SandboxView { status: Some(StatusView { deleting: true, ..st }), ..r.sandbox },
            ..r
        },
        None => r,
    }
}

/// Whether a record is marked as being deleted.
pub open spec fn is_deleting(r: RecordView) -> bool {
    match r.sandbox.status {
        Some(st) => st.deleting,
        None => false,
    }
}

/// Some name is registered with this record.
pub open spec fn is_registered(m: Map<Seq<char>, RecordView>, x: RecordView) -> bool {
    exists|k: Seq<char>| #[trigger] m.contains_key(k) && m[k] == x
}

/// Some name is registered with this sandbox.
pub open spec fn sandbox_registered(m: Map<Seq<char>, RecordView>, x: SandboxView) -> bool {
    exists|k: Seq<char>| #[trigger] m.contains_key(k) && m[k].sandbox == x
}

/// The registry of managed sandboxes, keyed by the gateway-assigned name.
#[derive(Debug)]
pub struct SandboxRegistry {
    records: StrMap<SandboxRecord>,
}

impl View for SandboxRegistry {
    type V = Map<Seq<char>, RecordView>;

    closed spec fn view(&self) -> Map<Seq<char>, RecordView> {
        self.records@
    }
}

/// `names` lists each key of `m` exactly once, and `recs` lists the record
/// of each of those names, in the same order.
pub open spec fn enumerates(
    m: Map<Seq<char>, RecordView>,
    names: Seq<Seq<char>>,
    recs: Seq<RecordView>,
) -> bool {
    &&& names.len() == m.len()
    &&& recs.len() == names.len()
    &&& names.no_duplicates()
    &&& forall|k: Seq<char>| #[trigger] m.contains_key(k) <==> names.contains(k)
    &&& forall|i: int| 0 <= i < names.len() ==> #[trigger] recs[i] == m[names[i]]
}

impl SandboxRegistry {
    /// The records, in the order they were registered.
    pub closed spec fn record_seq(&self) -> Seq<RecordView> {
        self.records.entry_seq().map_values(|e: (String, SandboxRecord)| e.1@)
    }

    /// The names of the sandboxes, in the order they were registered.
    pub closed spec fn name_seq(&self) -> Seq<Seq<char>> {
        self.records.entry_seq().map_values(|e: (String, SandboxRecord)| e.0@)
    }

    /// The registration order lists every registered sandbox exactly once.
    fn order_facts(&self)
        ensures
            enumerates(self@, self.name_seq(), self.record_seq()),
    {
        let entries = self.records.entries();
        proof {
            let es = entries@;
            let names = self.name_seq();
            let recs = self.record_seq();
            lemma_map_of_len(es);
            lemma_map_of_dom(es);
            assert forall|i: int, j: int|
                0 <= i < names.len() && 0 <= j < names.len() && i != j implies names[i]
                != names[j] by {
                assert(names[i] == es[i].0@ && names[j] == es[j].0@);
            }
            assert forall|k: Seq<char>| #[trigger] self@.contains_key(k) <==> names.contains(k) by {
                if self@.contains_key(k) {
                    let i = choose|i: int| 0 <= i < es.len() && #[trigger] es[i].0@ == k;
                    assert(names[i] == k);
                }
                if names.contains(k) {
                    let i = choose|i: int| 0 <= i < names.len() && names[i] == k;
                    assert(es[i].0@ == k);
                }
            }
            assert forall|i: int| 0 <= i < names.len() implies #[trigger] recs[i]
                == self@[names[i]] by {
                lemma_map_of_index(es, i);
                assert(recs[i] == es[i].1@ && names[i] == es[i].0@);
            }
        }
    }

    /// An empty registry.
    pub fn new() -> (r: Self)
        ensures
            r@ == Map::<Seq<char>, RecordView>::empty(),
    {
        SandboxRegistry { records: StrMap::new() }
    }

    /// Whether a sandbox of this name is registered.
    pub fn contains(&self, name: &str) -> (r: bool)
        ensures
            r == self@.contains_key(name@),
    {
        self.records.contains_key(name)
    }

    /// Registers a record under a name, replacing any earlier one.
    pub fn insert(&mut self, name: String, record: SandboxRecord)
        ensures
            final(self)@ == old(self)@.insert(name@, record@),
    {
        self.records.insert(name, record);
    }

    /// Forgets a sandbox.
    pub fn remove(&mut self, name: &str)
        ensures
            final(self)@ == old(self)@.remove(name@),
    {
        self.records.remove(name);
    }

    /// The last known snapshot of a sandbox.
    pub fn get_sandbox(&self, name: &str) -> (r: Option<DriverSandbox>)
        ensures
            r is Some == self@.contains_key(name@),
            r matches Some(s) ==> s@ == self@[name@].sandbox,
    {
        match self.records.get(name) {
            Some(rec) => Some(rec.sandbox.duplicate()),
            None => None,
        }
    }

    /// The LXD instance name of a sandbox.
    pub fn vm_name_of(&self, name: &str) -> (r: Option<String>)
        ensures
            r is Some == self@.contains_key(name@),
            r matches Some(v) ==> v@ == self@[name@].vm_name,
    {
        match self.records.get(name) {
            Some(rec) => Some(rec.vm_name.clone()),
            None => None,
        }
    }

    /// Copies of all records, in registration order.
    pub fn snapshot(&self) -> (r: Vec<SandboxRecord>)
        ensures
            r@.map_values(|x: SandboxRecord| x@) == self.record_seq(),
            enumerates(self@, self.name_seq(), self.record_seq()),
            r@.len() == self@.len(),
            forall|i: int| 0 <= i < r@.len() ==> is_registered(self@, #[trigger] r@[i]@),
            forall|k: Seq<char>|
                #[trigger] self@.contains_key(k) ==> exists|i: int|
                    0 <= i < r@.len() && r@[i]@ == self@[k],
    {
        self.order_facts();
        let entries = self.records.entries();
        let n = entries.len();
        let mut out: Vec<SandboxRecord> = Vec::new();
        let mut i: usize = 0;
        while i < n
            invariant
                n == entries@.len(),
                entries@ == self.records.entry_seq(),
                i <= n,
                out@.map_values(|x: SandboxRecord| x@) == self.record_seq().take(i as int),
            decreases n - i,
        {
            let ghost before = out@;
            let d = entries[i].1.duplicate();
            let ghost dv = d@;
            out.push(d);
            assert(out@.map_values(|x: SandboxRecord| x@) =~= before.map_values(
                |x: SandboxRecord| x@,
            ).push(dv));
            assert(self.record_seq().take(i + 1) =~= self.record_seq().take(i as int).push(dv));
            i = i + 1;
        }
        assert(self.record_seq().take(n as int) =~= self.record_seq());
        proof {
            let es = self.records.entry_seq();
            assert(map_of(es) == self@);
            lemma_map_of_dom(es);
            assert forall|j: int| 0 <= j < out@.len() implies is_registered(self@, #[trigger] out@[j]@) by {
                assert(out@.map_values(|x: SandboxRecord| x@)[j] == out@[j]@);
                assert(self.record_seq()[j] == es[j].1@);
                lemma_map_of_index(es, j);
                let k = es[j].0@;
                assert(self@.contains_key(k) && self@[k] == out@[j]@);
            }
            assert forall|k: Seq<char>| #[trigger] self@.contains_key(k) implies exists|j: int|
                0 <= j < out@.len() && out@[j]@ == self@[k] by {
                assert(map_of(es).contains_key(k));
                let j = choose|j: int| 0 <= j < es.len() && #[trigger] es[j].0@ == k;
                lemma_map_of_index(es, j);
                assert(out@.map_values(|x: SandboxRecord| x@)[j] == out@[j]@);
                assert(self.record_seq()[j] == es[j].1@);
                assert(out@[j]@ == self@[k]);
            }
        }
        out
    }

    /// The last known snapshots of all sandboxes, in registration order:
    /// each registered sandbox appears, and nothing else.
    pub fn list_sandboxes(&self) -> (r: Vec<DriverSandbox>)
        ensures
            r@.map_values(|s: DriverSandbox| s@) == self.record_seq().map_values(
                |x: RecordView| x.sandbox,
            ),
            enumerates(self@, self.name_seq(), self.record_seq()),
            r@.len() == self@.len(),
            forall|i: int| 0 <= i < r@.len() ==> sandbox_registered(self@, #[trigger] r@[i]@),
            forall|k: Seq<char>|
                #[trigger] self@.contains_key(k) ==> exists|i: int|
                    0 <= i < r@.len() && r@[i]@ == self@[k].sandbox,
    {
        let records = self.snapshot();
        let n = records.len();
        let mut out: Vec<DriverSandbox> = Vec::new();
        let mut i: usize = 0;
        while i < n
            invariant
                n == records@.len(),
                i <= n,
                out@.len() == i,
                forall|j: int| 0 <= j < i ==> #[trigger] out@[j]@ == records@[j]@.sandbox,
            decreases n - i,
        {
            out.push(records[i].sandbox.duplicate());
            i = i + 1;
        }
        proof {
            assert(out@.map_values(|s: DriverSandbox| s@) =~= self.record_seq().map_values(
                |x: RecordView| x.sandbox,
            )) by {
                assert forall|j: int| 0 <= j < n implies self.record_seq()[j] == records@[j]@ by {
                    assert(records@.map_values(|x: SandboxRecord| x@)[j] == records@[j]@);
                }
            }
            assert forall|j: int| 0 <= j < out@.len() implies sandbox_registered(self@, #[trigger] out@[j]@) by {
                assert(is_registered(self@, records@[j]@));
                let k = choose|k: Seq<char>| #[trigger] self@.contains_key(k) && self@[k] == records@[j]@;
                assert(self@.contains_key(k) && self@[k].sandbox == out@[j]@);
            }
            assert forall|k: Seq<char>| #[trigger] self@.contains_key(k) implies exists|j: int|
                0 <= j < out@.len() && out@[j]@ == self@[k].sandbox by {
                let j = choose|j: int| 0 <= j < records@.len() && records@[j]@ == self@[k];
                assert(out@[j]@ == records@[j]@.sandbox);
            }
        }
        out
    }

    /// Replaces the conditions of a sandbox by "stopped".
    pub fn mark_stopped(&mut self, name: &str)
        ensures
            old(self)@.contains_key(name@) ==> final(self)@ == old(self)@.insert(
                name@,
                stopped_record(old(self)@[name@]),
            ),
            !old(self)@.contains_key(name@) ==> final(self)@ == old(self)@,
    {
        let updated = match self.records.get(name) {
            Some(rec) => {
                let mut r = rec.duplicate();
                match r.sandbox.status {
                    Some(mut st) => {
                        st.conditions = vec![stopped_condition()];
                        assert(st@.conditions =~= seq![stopped_view()]);
                        r.sandbox.status = Some(st);
                    },
                    None => {},
                }
                Some(r)
            },
            None => None,
        };
        match updated {
            Some(r) => {
                assert(r@ == stopped_record(self@[name@]));
                self.records.insert(owned(name), r);
            },
            None => {},
        }
    }

    /// Marks a sandbox as being deleted.
    pub fn mark_deleting(&mut self, name: &str)
        ensures
            old(self)@.contains_key(name@) ==> final(self)@ == old(self)@.insert(
                name@,
                deleting_record(old(self)@[name@]),
            ),
            !old(self)@.contains_key(name@) ==> final(self)@ == old(self)@,
    {
        let updated = match self.records.get(name) {
            Some(rec) => {
                let mut r = rec.duplicate();
                match r.sandbox.status {
                    Some(mut st) => {
                        st.deleting = true;
                        r.sandbox.status = Some(st);
                    },
                    None => {},
                }
                Some(r)
            },
            None => None,
        };
        match updated {
            Some(r) => {
                assert(r@ == deleting_record(self@[name@]));
                self.records.insert(owned(name), r);
            },
            None => {},
        }
    }
}


impl SandboxRegistry {
    /// Replaces the snapshot of a registered sandbox, keeping its instance
    /// name; an unknown name changes nothing.
    pub fn replace_sandbox(&mut self, name: &str, sandbox: DriverSandbox)
        ensures
            old(self)@.contains_key(name@) ==> final(self)@ == old(self)@.insert(
                name@,
                RecordView { sandbox: sandbox@, ..old(self)@[name@] },
            ),
            !old(self)@.contains_key(name@) ==> final(self)@ == old(self)@,
    {
        let vm = match self.records.get(name) {
            Some(rec) => Some(rec.vm_name.clone()),
            None => None,
        };
        match vm {
            Some(vm_name) => {
                self.records.insert(owned(name), SandboxRecord { sandbox, vm_name });
            },
            None => {},
        }
    }
}

// ── Capabilities and validation ──────────────────────────────────────────

/// The driver's capabilities: LXD VMs from the configured default image,
/// without GPUs.
pub fn capabilities(config: &LxdComputeConfig, version: &str) -> (r: Result<
    GetCapabilitiesResponse,
    ComputeDriverError,
>)
    ensures
        r matches Ok(c) && c.driver_name@ == "lxd"@ && c.driver_version@ == version@
            && c.default_image@ == config.base_image_alias@ && !c.supports_gpu,
{
    Ok(
        GetCapabilitiesResponse {
            driver_name: owned("lxd"),
            driver_version: owned(version),
            default_image: config.base_image_alias.clone(),
            supports_gpu: false,
        },
    )
}

/// Why a sandbox cannot be created, checked in this order: no name, a name
/// that yields no instance name, no spec, a GPU request.
pub open spec fn create_rejection(s: SandboxView) -> Option<Seq<char>> {
    if s.name.len() == 0 {
        Some("sandbox name must not be empty"@)
    } else if sanitized_name(s.name).len() == 0 {
        Some(
            ApiErrorView::InvalidInput(
                "sandbox name produces empty instance name after sanitization"@,
            ).display(),
        )
    } else if s.spec is None {
        Some("sandbox spec is required"@)
    } else if s.spec->0.gpu {
        Some("LXD driver does not support GPU sandboxes"@)
    } else {
        None
    }
}

/// Checks that a sandbox can be created by this driver.
pub fn validate_sandbox_create(sandbox: &DriverSandbox) -> (r: Result<(), ComputeDriverError>)
    ensures
        r is Ok <==> create_rejection(sandbox@) is None,
        r matches Err(e) ==> e@ == DriverErrorView::Precondition(create_rejection(sandbox@)->0),
{
    if sandbox.name.as_str().is_empty() {
        return Err(ComputeDriverError::Precondition(owned("sandbox name must not be empty")));
    }
    // The name must sanitize to a valid LXD instance name.
    match sanitize_instance_name(sandbox.name.as_str()) {
        Ok(_) => {},
        Err(e) => {
            return Err(ComputeDriverError::Precondition(e.to_string()));
        },
    }
    match &sandbox.spec {
        None => Err(ComputeDriverError::Precondition(owned("sandbox spec is required"))),
        Some(spec) => {
            if spec.gpu {
                Err(
                    ComputeDriverError::Precondition(
                        owned("LXD driver does not support GPU sandboxes"),
                    ),
                )
            } else {
                Ok(())
            }
        },
    }
}

/// The image of a sandbox: its template's, unless empty or missing, else the
/// default.
pub open spec fn image_for(s: SandboxView, default: Seq<char>) -> Seq<char> {
    match s.spec {
        Some(sp) => match sp.template_image {
            Some(img) => if img.len() > 0 {
                img
            } else {
                default
            },
            None => default,
        },
        None => default,
    }
}

/// Chooses the image a sandbox VM is created from.
pub fn select_image(sandbox: &DriverSandbox, default_image: &str) -> (r: String)
    ensures
        r@ == image_for(sandbox@, default_image@),
{
    match &sandbox.spec {
        Some(spec) => match &spec.template {
            Some(t) => if t.image.as_str().is_empty() {
                owned(default_image)
            } else {
                t.image.clone()
            },
            None => owned(default_image),
        },
        None => owned(default_image),
    }
}

// ── The supervisor's environment ─────────────────────────────────────────

/// The environment of the in-VM supervisor, in the order it is written.
pub open spec fn supervisor_env_pairs(c: &LxdComputeConfig, id: Seq<char>, name: Seq<char>) -> Seq<
    (Seq<char>, Seq<char>),
> {
    seq![
        ("OPENSHELL_SANDBOX_ID"@, id),
        ("OPENSHELL_SANDBOX"@, name),
        ("OPENSHELL_ENDPOINT"@, c.grpc_endpoint@),
        ("OPENSHELL_SSH_SOCKET_PATH"@, "/run/openshell/ssh.sock"@),
        ("OPENSHELL_SSH_HANDSHAKE_SECRET"@, c.ssh_handshake_secret@),
        ("OPENSHELL_SSH_HANDSHAKE_SKEW_SECS"@, dec_string(c.ssh_handshake_skew_secs as nat)),
        ("OPENSHELL_SANDBOX_COMMAND"@, "tail -f /dev/null"@),
        ("OPENSHELL_LOG_LEVEL"@, "info"@),
    ]
}

/// The environment of the in-VM supervisor, as a map.
pub open spec fn supervisor_env(c: &LxdComputeConfig, id: Seq<char>, name: Seq<char>) -> Map<
    Seq<char>,
    Seq<char>,
> {
    Map::empty().insert("OPENSHELL_SANDBOX_ID"@, id).insert("OPENSHELL_SANDBOX"@, name).insert(
        "OPENSHELL_ENDPOINT"@,
        c.grpc_endpoint@,
    ).insert("OPENSHELL_SSH_SOCKET_PATH"@, "/run/openshell/ssh.sock"@).insert(
        "OPENSHELL_SSH_HANDSHAKE_SECRET"@,
        c.ssh_handshake_secret@,
    ).insert(
        "OPENSHELL_SSH_HANDSHAKE_SKEW_SECS"@,
        dec_string(c.ssh_handshake_skew_secs as nat),
    ).insert("OPENSHELL_SANDBOX_COMMAND"@, "tail -f /dev/null"@).insert(
        "OPENSHELL_LOG_LEVEL"@,
        "info"@,
    )
}

/// Builds the supervisor's environment: sandbox identity, the gateway
/// endpoint, the SSH socket and handshake settings, a command that keeps
/// the entrypoint alive, and the log level.
pub fn build_supervisor_env(config: &LxdComputeConfig, sandbox_id: &str, sandbox_name: &str) -> (r:
    StrMap<String>)
    ensures
        r@ == supervisor_env(config, sandbox_id@, sandbox_name@),
        r.view_pairs() == supervisor_env_pairs(config, sandbox_id@, sandbox_name@),
{
    proof {
        reveal_strlit("OPENSHELL_SANDBOX_ID");
        reveal_strlit("OPENSHELL_SANDBOX");
        reveal_strlit("OPENSHELL_ENDPOINT");
        reveal_strlit("OPENSHELL_SSH_SOCKET_PATH");
        reveal_strlit("OPENSHELL_SSH_HANDSHAKE_SECRET");
        reveal_strlit("OPENSHELL_SSH_HANDSHAKE_SKEW_SECS");
        reveal_strlit("OPENSHELL_SANDBOX_COMMAND");
        reveal_strlit("OPENSHELL_LOG_LEVEL");
        assert("OPENSHELL_SANDBOX_ID"@.len() == 20);
        assert("OPENSHELL_SANDBOX"@.len() == 17);
        assert("OPENSHELL_ENDPOINT"@.len() == 18);
        assert("OPENSHELL_SSH_SOCKET_PATH"@.len() == 25);
        assert("OPENSHELL_SSH_HANDSHAKE_SECRET"@.len() == 30);
        assert("OPENSHELL_SSH_HANDSHAKE_SKEW_SECS"@.len() == 33);
        assert("OPENSHELL_SANDBOX_COMMAND"@.len() == 25);
        assert("OPENSHELL_LOG_LEVEL"@.len() == 19);
        assert("OPENSHELL_SSH_SOCKET_PATH"@[14] != "OPENSHELL_SANDBOX_COMMAND"@[14]);
    }
    let mut env: StrMap<String> = StrMap::new();
    assert(env.view_pairs() =~= Seq::<(Seq<char>, Seq<char>)>::empty());
    assert(!env@.contains_key("OPENSHELL_SANDBOX_ID"@));
    env.insert(owned("OPENSHELL_SANDBOX_ID"), owned(sandbox_id));
    assert(!env@.contains_key("OPENSHELL_SANDBOX"@));
    env.insert(owned("OPENSHELL_SANDBOX"), owned(sandbox_name));
    assert(!env@.contains_key("OPENSHELL_ENDPOINT"@));
    env.insert(owned("OPENSHELL_ENDPOINT"), config.grpc_endpoint.clone());
    assert(!env@.contains_key("OPENSHELL_SSH_SOCKET_PATH"@));
    env.insert(owned("OPENSHELL_SSH_SOCKET_PATH"), owned("/run/openshell/ssh.sock"));
    assert(!env@.contains_key("OPENSHELL_SSH_HANDSHAKE_SECRET"@));
    env.insert(owned("OPENSHELL_SSH_HANDSHAKE_SECRET"), config.ssh_handshake_secret.clone());
    assert(!env@.contains_key("OPENSHELL_SSH_HANDSHAKE_SKEW_SECS"@));
    env.insert(
        owned("OPENSHELL_SSH_HANDSHAKE_SKEW_SECS"),
        crate::text::decimal(config.ssh_handshake_skew_secs),
    );
    // Keep the entrypoint process alive so the supervisor does not exit when
    // a non-interactive shell returns at once.
    assert(!env@.contains_key("OPENSHELL_SANDBOX_COMMAND"@));
    env.insert(owned("OPENSHELL_SANDBOX_COMMAND"), owned("tail -f /dev/null"));
    assert(!env@.contains_key("OPENSHELL_LOG_LEVEL"@));
    env.insert(owned("OPENSHELL_LOG_LEVEL"), owned("info"));
    assert(env.view_pairs() =~= supervisor_env_pairs(config, sandbox_id@, sandbox_name@));
    env
}


// ── The instance request ─────────────────────────────────────────────────

/// The root disk of a VM, in the configured storage pool.
pub open spec fn root_device(c: &LxdComputeConfig) -> Map<Seq<char>, Seq<char>> {
    Map::empty().insert("type"@, "disk"@).insert("path"@, "/"@).insert("pool"@, c.storage_pool@)
}

/// The VM's network card, bridged to the configured network.
pub open spec fn eth0_device(c: &LxdComputeConfig) -> Map<Seq<char>, Seq<char>> {
    Map::empty().insert("type"@, "nic"@).insert("nictype"@, "bridged"@).insert(
        "parent"@,
        c.network_name@,
    ).insert("name"@, "eth0"@)
}

/// A request for a VM named `vm` from `image` on the configured image
/// server, tagged as managed by this driver and as the given sandbox, with
/// `user_data` for cloud-init, a root disk, one bridged network card and the
/// default profile.
pub open spec fn instance_request_is(
    r: &InstancesPost,
    c: &LxdComputeConfig,
    vm: Seq<char>,
    image: Seq<char>,
    id: Seq<char>,
    name: Seq<char>,
    user_data: Seq<char>,
) -> bool {
    &&& r.name@ == vm
    &&& r.instance_type@ == "virtual-machine"@
    &&& r.source.source_type@ == "image"@
    &&& r.source.alias@ == image
    &&& r.source.server matches Some(s) && s@ == c.image_server@
    &&& r.source.protocol matches Some(p) && p@ == "simplestreams"@
    &&& r.source.mode matches Some(m) && m@ == "pull"@
    &&& r.config@ == Map::<Seq<char>, Seq<char>>::empty().insert("user.user-data"@, user_data).insert(
        "user.openshell.managed"@,
        "true"@,
    ).insert("user.openshell.sandbox_id"@, id).insert("user.openshell.sandbox_name"@, name)
    &&& r.devices@ == Map::<Seq<char>, Map<Seq<char>, Seq<char>>>::empty().insert(
        "root"@,
        root_device(c),
    ).insert("eth0"@, eth0_device(c))
    &&& r.profiles@.map_values(|p: String| p@) == seq!["default"@]
}

/// Builds the request that creates a sandbox's VM.
pub fn build_instance_request(
    config: &LxdComputeConfig,
    vm_name: &str,
    image: &str,
    sandbox_id: &str,
    sandbox_name: &str,
    supervisor_env: &StrMap<String>,
) -> (r: InstancesPost)
    ensures
        instance_request_is(
            &r,
            config,
            vm_name@,
            image@,
            sandbox_id@,
            sandbox_name@,
            user_data_text(env_lines(supervisor_env.view_pairs()).to_multiset()),
        ),
{
    let mut instance_config: StrMap<String> = StrMap::new();
    instance_config.insert(owned("user.user-data"), cloud_init_user_data(supervisor_env));
    // Tag the instance as managed by this driver.
    instance_config.insert(owned("user.openshell.managed"), owned("true"));
    instance_config.insert(owned("user.openshell.sandbox_id"), owned(sandbox_id));
    instance_config.insert(owned("user.openshell.sandbox_name"), owned(sandbox_name));

    let mut root_dev: StrMap<String> = StrMap::new();
    root_dev.insert(owned("type"), owned("disk"));
    root_dev.insert(owned("path"), owned("/"));
    root_dev.insert(owned("pool"), config.storage_pool.clone());

    let mut eth0_dev: StrMap<String> = StrMap::new();
    eth0_dev.insert(owned("type"), owned("nic"));
    eth0_dev.insert(owned("nictype"), owned("bridged"));
    eth0_dev.insert(owned("parent"), config.network_name.clone());
    eth0_dev.insert(owned("name"), owned("eth0"));

    let mut devices: StrMap<StrMap<String>> = StrMap::new();
    devices.insert(owned("root"), root_dev);
    devices.insert(owned("eth0"), eth0_dev);

    let profiles = vec![owned("default")];
    assert(profiles@.map_values(|p: String| p@) =~= seq!["default"@]);
    InstancesPost {
        name: owned(vm_name),
        instance_type: owned("virtual-machine"),
        source: InstanceSource {
            source_type: owned("image"),
            alias: owned(image),
            server: Some(config.image_server.clone()),
            protocol: Some(owned("simplestreams")),
            mode: Some(owned("pull")),
        },
        config: instance_config,
        devices,
        profiles,
    }
}

// ── Creating ─────────────────────────────────────────────────────────────

/// Where the gateway reaches a sandbox's SSH: the VM's address and the
/// configured port; nothing when the VM has no address.
pub open spec fn agent_fd_text(ip: Option<Seq<char>>, port: u16) -> Seq<char> {
    match ip {
        Some(a) => a + ":"@ + dec_string(port as nat),
        None => Seq::empty(),
    }
}

/// `{ip}:{port}`, or empty without an address.
pub fn agent_fd(ip: Option<String>, port: u16) -> (r: String)
    ensures
        r@ == agent_fd_text(
            match ip {
                Some(a) => Some(a@),
                None => None,
            },
            port,
        ),
{
    match ip {
        Some(a) => {
            let mut s = a;
            append_str(&mut s, ":");
            append_decimal(&mut s, port as u64);
            s
        },
        None => String::new(),
    }
}

/// What creating a sandbox asks of LXD.
#[derive(Debug)]
pub struct CreatePlan {
    /// The LXD instance name.
    pub vm_name: String,
    /// The instance to create.
    pub request: InstancesPost,
    /// The timeout of each LXD operation, in seconds.
    pub op_timeout_secs: u64,
}

/// Decides whether a sandbox can be created and, if so, what to ask of LXD:
/// a valid, not yet registered sandbox gets a VM named after it, from its
/// template's image or the default one, whose cloud-init installs the
/// supervisor with its environment.
pub fn prepare_create(
    registry: &SandboxRegistry,
    config: &LxdComputeConfig,
    sandbox: &DriverSandbox,
) -> (r: Result<CreatePlan, ComputeDriverError>)
    ensures
        create_rejection(sandbox@) matches Some(m) ==> (r matches Err(e) && e@
            == DriverErrorView::Precondition(m)),
        create_rejection(sandbox@) is None && registry@.contains_key(sandbox@.name) ==> (r matches Err(
            e,
        ) && e@ == DriverErrorView::AlreadyExists),
        r is Ok <==> create_rejection(sandbox@) is None && !registry@.contains_key(sandbox@.name),
        r matches Ok(plan) ==> {
            &&& plan.vm_name@ == sanitized_name(sandbox@.name)
            &&& plan.op_timeout_secs == config.operation_timeout_secs
            &&& instance_request_is(
                &plan.request,
                config,
                sanitized_name(sandbox@.name),
                image_for(sandbox@, config.base_image_alias@),
                sandbox@.id,
                sandbox@.name,
                user_data_text(
                    env_lines(supervisor_env_pairs(config, sandbox@.id, sandbox@.name)).to_multiset(),
                ),
            )
        },
{
    validate_sandbox_create(sandbox)?;
    let vm_name = match sanitize_instance_name(sandbox.name.as_str()) {
        Ok(v) => v,
        Err(e) => {
            return Err(ComputeDriverError::Precondition(e.to_string()));
        },
    };
    // Reject if already tracked.
    if registry.contains(sandbox.name.as_str()) {
        return Err(ComputeDriverError::AlreadyExists);
    }
    let image = select_image(sandbox, config.base_image_alias.as_str());
    let env = build_supervisor_env(config, sandbox.id.as_str(), sandbox.name.as_str());
    let request = build_instance_request(
        config,
        vm_name.as_str(),
        image.as_str(),
        sandbox.id.as_str(),
        sandbox.name.as_str(),
        &env,
    );
    Ok(CreatePlan { vm_name, request, op_timeout_secs: config.operation_timeout_secs })
}

/// The snapshot of a freshly created sandbox: in the configured project,
/// reachable at its VM's address, provisioning.
pub open spec fn created_sandbox(
    c: &LxdComputeConfig,
    s: SandboxView,
    vm: Seq<char>,
    ip: Option<Seq<char>>,
) -> SandboxView {
    SandboxView {
        id: s.id,
        name: s.name,
        namespace: c.lxd_project@,
        spec: s.spec,
        status: Some(
            StatusView {
                sandbox_name: s.name,
                instance_id: vm,
                agent_fd: agent_fd_text(ip, c.ssh_port),
                sandbox_fd: Seq::empty(),
                conditions: seq![provisioning_view()],
                deleting: false,
            },
        ),
    }
}

/// Registers a sandbox whose VM is up, with what its state shows.
pub fn complete_create(
    registry: &mut SandboxRegistry,
    config: &LxdComputeConfig,
    sandbox: &DriverSandbox,
    vm_name: String,
    state: &InstanceState,
)
    ensures
        final(registry)@ == old(registry)@.insert(
            sandbox@.name,
            RecordView {
                sandbox: created_sandbox(config, sandbox@, vm_name@, state_ipv4(state)),
                vm_name: vm_name@,
            },
        ),
{
    let ip = extract_ipv4(state);
    let fd = agent_fd(ip, config.ssh_port);
    let conditions = vec![provisioning_condition()];
    assert(conditions@.map_values(|c: DriverCondition| c@) =~= seq![provisioning_view()]);
    let created = DriverSandbox {
        id: sandbox.id.clone(),
        name: sandbox.name.clone(),
        namespace: config.lxd_project.clone(),
        spec: match &sandbox.spec {
            Some(s) => Some(s.duplicate()),
            None => None,
        },
        status: Some(
            DriverSandboxStatus {
                sandbox_name: sandbox.name.clone(),
                instance_id: vm_name.clone(),
                agent_fd: fd,
                sandbox_fd: String::new(),
                conditions,
                deleting: false,
            },
        ),
    };
    registry.insert(sandbox.name.clone(), SandboxRecord { sandbox: created, vm_name });
}

// ── Stopping and deleting ────────────────────────────────────────────────

/// Seconds LXD is given to stop a VM on request.
pub const STOP_TIMEOUT_SECS: u32 = 30;

/// Seconds LXD is given to stop a VM before it is deleted.
pub const STOP_BEFORE_DELETE_TIMEOUT_SECS: u32 = 10;

/// Seconds between two polls of the watched instances.
pub const WATCH_INTERVAL_SECS: u64 = 5;

/// Where the supervisor binary lands inside each VM, owned by root.
pub const SUPERVISOR_REMOTE_PATH: &'static str = "/opt/openshell/supervisor";

/// Permission bits of the supervisor binary inside each VM.
pub const SUPERVISOR_MODE: u32 = 0o755;

/// The instance to stop for a sandbox; an unknown sandbox is an error.
pub fn stop_target(registry: &SandboxRegistry, sandbox_name: &str) -> (r: Result<
    String,
    ComputeDriverError,
>)
    ensures
        registry@.contains_key(sandbox_name@) ==> (r matches Ok(v) && v@
            == registry@[sandbox_name@].vm_name),
        !registry@.contains_key(sandbox_name@) ==> (r matches Err(e) && e@
            == DriverErrorView::Message("sandbox not found: "@ + sandbox_name@)),
{
    match registry.vm_name_of(sandbox_name) {
        Some(v) => Ok(v),
        None => {
            let mut m = owned("sandbox not found: ");
            append_str(&mut m, sandbox_name);
            Err(ComputeDriverError::Message(m))
        },
    }
}

/// Starts deleting a sandbox: the instance to delete, with the sandbox
/// marked as being deleted so that the watcher reports it once LXD no longer
/// knows the instance. An unknown sandbox has nothing to delete and changes
/// nothing.
pub fn begin_delete(registry: &mut SandboxRegistry, sandbox_name: &str) -> (r: Option<String>)
    ensures
        old(registry)@.contains_key(sandbox_name@) ==> (r matches Some(v) && v@ == old(
            registry,
        )@[sandbox_name@].vm_name && final(registry)@ == old(registry)@.insert(
            sandbox_name@,
            deleting_record(old(registry)@[sandbox_name@]),
        )),
        !old(registry)@.contains_key(sandbox_name@) ==> r is None && final(registry)@ == old(
            registry,
        )@,
{
    let vm_name = registry.vm_name_of(sandbox_name);
    if vm_name.is_some() {
        registry.mark_deleting(sandbox_name);
    }
    vm_name
}

/// The answer to a delete request: `false` when there was nothing to delete,
/// `true` when LXD deleted the instance, or the error of its deletion.
pub fn delete_outcome<T>(deleted: Option<Result<T, LxdApiError>>) -> (r: Result<
    bool,
    ComputeDriverError,
>)
    ensures
        match deleted {
            None => r == Ok::<bool, ComputeDriverError>(false),
            Some(Ok(_)) => r == Ok::<bool, ComputeDriverError>(true),
            Some(Err(e)) => r matches Err(d) && d@ == driver_error_of(e@),
        },
{
    match deleted {
        None => Ok(false),
        Some(Ok(_)) => Ok(true),
        Some(Err(e)) => Err(ComputeDriverError::from_api_error(e)),
    }
}


// ── Watching ─────────────────────────────────────────────────────────────

/// What a watcher of sandboxes is told.
#[derive(Debug)]
pub enum WatchSandboxesEvent {
    /// A new snapshot of a sandbox.
    Sandbox(DriverSandbox),
    /// The sandbox with this id is gone.
    Deleted(String),
}

pub enum EventView {
    Sandbox(SandboxView),
    Deleted(Seq<char>),
}

impl View for WatchSandboxesEvent {
    type V = EventView;

    open spec fn view(&self) -> EventView {
        match self {
            WatchSandboxesEvent::Sandbox(s) => EventView::Sandbox(s@),
            WatchSandboxesEvent::Deleted(id) => EventView::Deleted(id@),
        }
    }
}

pub open spec fn event_option_view(e: Option<WatchSandboxesEvent>) -> Option<EventView> {
    match e {
        Some(ev) => Some(ev@),
        None => None,
    }
}

/// The events that open a watch: one snapshot per registered sandbox.
pub fn initial_events(registry: &SandboxRegistry) -> (r: Vec<WatchSandboxesEvent>)
    ensures
        r@.map_values(|e: WatchSandboxesEvent| e@) == registry.record_seq().map_values(
            |x: RecordView| EventView::Sandbox(x.sandbox),
        ),
        enumerates(registry@, registry.name_seq(), registry.record_seq()),
        r@.len() == registry@.len(),
        forall|i: int|
            0 <= i < r@.len() ==> #[trigger] r@[i]@ == EventView::Sandbox(
                registry@[registry.name_seq()[i]].sandbox,
            ),
{
    let sandboxes = registry.list_sandboxes();
    let n = sandboxes.len();
    let mut out: Vec<WatchSandboxesEvent> = Vec::new();
    let mut i: usize = 0;
    while i < n
        invariant
            n == sandboxes@.len(),
            i <= n,
            out@.len() == i,
            forall|j: int| 0 <= j < i ==> #[trigger] out@[j]@ == EventView::Sandbox(sandboxes@[j]@),
        decreases n - i,
    {
        out.push(WatchSandboxesEvent::Sandbox(sandboxes[i].duplicate()));
        i = i + 1;
    }
    proof {
        let rs = registry.record_seq();
        assert(sandboxes@.map_values(|s: DriverSandbox| s@).len() == rs.map_values(
            |x: RecordView| x.sandbox,
        ).len());
        assert forall|j: int| 0 <= j < n implies sandboxes@[j]@ == rs[j].sandbox by {
            assert(sandboxes@.map_values(|s: DriverSandbox| s@)[j] == sandboxes@[j]@);
            assert(rs.map_values(|x: RecordView| x.sandbox)[j] == rs[j].sandbox);
        }
        assert(out@.map_values(|e: WatchSandboxesEvent| e@) =~= registry.record_seq().map_values(
            |x: RecordView| EventView::Sandbox(x.sandbox),
        ));
        assert forall|j: int| 0 <= j < out@.len() implies #[trigger] out@[j]@ == EventView::Sandbox(
            registry@[registry.name_seq()[j]].sandbox,
        ) by {
            assert(sandboxes@[j]@ == rs[j].sandbox);
            assert(rs[j] == registry@[registry.name_seq()[j]]);
        }
    }
    out
}

/// One observation of a sandbox's instance.
pub enum PollView {
    /// The instance exists, in this status, with this address if any.
    Observed { status: Seq<char>, ipv4: Option<Seq<char>> },
    /// LXD no longer knows the instance.
    Gone,
    /// The instance could not be read.
    Failed,
}

pub open spec fn poll_view(p: Result<InstanceState, LxdApiError>) -> PollView {
    match p {
        Ok(s) => PollView::Observed { status: s.status@, ipv4: state_ipv4(&s) },
        Err(e) => match e@ {
            ApiErrorView::NotFound(_) => PollView::Gone,
            _ => PollView::Failed,
        },
    }
}

/// The snapshot of a sandbox after its instance was seen in `status`: a
/// running VM is provisioning, any other status reports that status.
pub open spec fn observed_sandbox(
    r: RecordView,
    status: Seq<char>,
    ip: Option<Seq<char>>,
    port: u16,
) -> SandboxView {
    SandboxView {
        id: r.sandbox.id,
        name: r.sandbox.name,
        namespace: r.sandbox.namespace,
        spec: r.sandbox.spec,
        status: Some(
            StatusView {
                sandbox_name: r.sandbox.name,
                instance_id: r.vm_name,
                agent_fd: agent_fd_text(ip, port),
                sandbox_fd: Seq::empty(),
                conditions: seq![
                    if status == "Running"@ {
                        provisioning_view()
                    } else {
                        not_running_view(status)
                    },
                ],
                deleting: false,
            },
        ),
    }
}

/// The status last reported for an instance (empty before the first).
pub open spec fn last_reported(last: Map<Seq<char>, Seq<char>>, vm: Seq<char>) -> Seq<char> {
    if last.contains_key(vm) {
        last[vm]
    } else {
        Seq::empty()
    }
}

/// One step of watching: the registry, the last reported statuses and the
/// event after observing the instance of a record. A changed status of a
/// sandbox not being deleted is reported and stored; an instance gone from
/// LXD makes its sandbox forgotten and reported deleted; nothing else
/// changes anything.
pub open spec fn watch_next(
    reg: Map<Seq<char>, RecordView>,
    last: Map<Seq<char>, Seq<char>>,
    r: RecordView,
    poll: PollView,
    port: u16,
) -> (Map<Seq<char>, RecordView>, Map<Seq<char>, Seq<char>>, Option<EventView>) {
    match poll {
        PollView::Observed { status, ipv4 } => if is_deleting(r) || status == last_reported(
            last,
            r.vm_name,
        ) {
            (reg, last, None)
        } else {
            let updated = observed_sandbox(r, status, ipv4, port);
            let reg2 = if reg.contains_key(r.sandbox.name) {
                reg.insert(r.sandbox.name, RecordView { sandbox: updated, ..reg[r.sandbox.name] })
            } else {
                reg
            };
            (reg2, last.insert(r.vm_name, status), Some(EventView::Sandbox(updated)))
        },
        PollView::Gone => (
            reg.remove(r.sandbox.name),
            last.remove(r.vm_name),
            Some(EventView::Deleted(r.sandbox.id)),
        ),
        PollView::Failed => (reg, last, None),
    }
}

/// The statuses last reported to a watcher, by instance name.
#[derive(Debug)]
pub struct WatchState {
    last_status: StrMap<String>,
}

impl View for WatchState {
    type V = Map<Seq<char>, Seq<char>>;

    closed spec fn view(&self) -> Map<Seq<char>, Seq<char>> {
        self.last_status@
    }
}

impl WatchState {
    /// A watch that has reported nothing yet.
    pub fn new() -> (w: Self)
        ensures
            w@ == Map::<Seq<char>, Seq<char>>::empty(),
    {
        WatchState { last_status: StrMap::new() }
    }
}

/// Takes in one observation of a record's instance; see [`watch_next`].
pub fn watch_step(
    registry: &mut SandboxRegistry,
    watch: &mut WatchState,
    record: &SandboxRecord,
    poll: Result<InstanceState, LxdApiError>,
    ssh_port: u16,
) -> (r: Option<WatchSandboxesEvent>)
    ensures
        (final(registry)@, final(watch)@, event_option_view(r)) == watch_next(
            old(registry)@,
            old(watch)@,
            record@,
            poll_view(poll),
            ssh_port,
        ),
{
    let is_deleting = match &record.sandbox.status {
        Some(s) => s.deleting,
        None => false,
    };
    match poll {
        Ok(state) => {
            // Entries being deleted get no status updates; the next poll sees
            // them gone.
            if is_deleting {
                return None;
            }
            let prev = match watch.last_status.get(record.vm_name.as_str()) {
                Some(p) => p.clone(),
                None => String::new(),
            };
            if str_eq(state.status.as_str(), prev.as_str()) {
                return None;
            }
            watch.last_status.insert(record.vm_name.clone(), state.status.clone());
            let ip = extract_ipv4(&state);
            let fd = agent_fd(ip, ssh_port);
            let condition = if str_eq(state.status.as_str(), "Running") {
                provisioning_condition()
            } else {
                stopped_condition_with_status(state.status.as_str())
            };
            let ghost cv = condition@;
            let conditions = vec![condition];
            assert(conditions@.map_values(|c: DriverCondition| c@) =~= seq![cv]);
            let updated = DriverSandbox {
                id: record.sandbox.id.clone(),
                name: record.sandbox.name.clone(),
                namespace: record.sandbox.namespace.clone(),
                spec: match &record.sandbox.spec {
                    Some(s) => Some(s.duplicate()),
                    None => None,
                },
                status: Some(
                    DriverSandboxStatus {
                        sandbox_name: record.sandbox.name.clone(),
                        instance_id: record.vm_name.clone(),
                        agent_fd: fd,
                        sandbox_fd: String::new(),
                        conditions,
                        deleting: false,
                    },
                ),
            };
            registry.replace_sandbox(record.sandbox.name.as_str(), updated.duplicate());
            Some(WatchSandboxesEvent::Sandbox(updated))
        },
        Err(LxdApiError::NotFound(_)) => {
            // The instance disappeared: forget the sandbox and report it.
            registry.remove(record.sandbox.name.as_str());
            watch.last_status.remove(record.vm_name.as_str());
            Some(WatchSandboxesEvent::Deleted(record.sandbox.id.clone()))
        },
        Err(_) => None,
    }
}


// ── Laws of the lifecycle ────────────────────────────────────────────────

/// A freshly created sandbox is reported provisioning and nothing else: its
/// status has exactly one condition, "Ready" is "False" with reason
/// "Starting", it is not being deleted, and it names its instance.
pub proof fn created_sandboxes_are_provisioning(
    c: &LxdComputeConfig,
    s: SandboxView,
    vm: Seq<char>,
    ip: Option<Seq<char>>,
)
    ensures
        ({
            let x = created_sandbox(c, s, vm, ip);
            &&& x.id == s.id
            &&& x.name == s.name
            &&& x.namespace == c.lxd_project@
            &&& x.spec == s.spec
            &&& x.status matches Some(st) && {
                &&& st.conditions == seq![
                    ConditionView {
                        condition_type: "Ready"@,
                        status: "False"@,
                        reason: "Starting"@,
                        message: "VM is running, waiting for supervisor connection"@,
                        last_transition_time: Seq::empty(),
                    },
                ]
                &&& !st.deleting
                &&& st.instance_id == vm
                &&& st.sandbox_name == s.name
                &&& st.sandbox_fd.len() == 0
            }
        }),
{
}

/// Stopping replaces every earlier condition of a sandbox by the single
/// condition "Ready" "False" with reason "VmStopped"; nothing else of its
/// status changes.
pub proof fn stopping_leaves_one_stopped_condition(r: RecordView)
    requires
        r.sandbox.status is Some,
    ensures
        stopped_record(r).vm_name == r.vm_name,
        stopped_record(r).sandbox.id == r.sandbox.id,
        stopped_record(r).sandbox.name == r.sandbox.name,
        stopped_record(r).sandbox.namespace == r.sandbox.namespace,
        stopped_record(r).sandbox.spec == r.sandbox.spec,
        stopped_record(r).sandbox.status == Some(
            StatusView {
                conditions: seq![
                    ConditionView {
                        condition_type: "Ready"@,
                        status: "False"@,
                        reason: "VmStopped"@,
                        message: "VM is stopped"@,
                        last_transition_time: Seq::empty(),
                    },
                ],
                ..r.sandbox.status->0
            },
        ),
{
}

/// Every named sandbox that asks for a GPU is refused with "LXD driver does
/// not support GPU sandboxes", whatever its template or image.
pub proof fn gpu_sandboxes_are_refused(s: SandboxView)
    requires
        s.name.len() > 0,
        s.spec matches Some(sp) && sp.gpu,
    ensures
        create_rejection(s) == Some("LXD driver does not support GPU sandboxes"@),
{
    crate::lxd::client::named_sandboxes_have_instance_names(s.name);
}

/// The condition reported for an instance seen in `status`.
pub open spec fn reported_condition(status: Seq<char>) -> ConditionView {
    if status == "Running"@ {
        ConditionView {
            condition_type: "Ready"@,
            status: "False"@,
            reason: "Starting"@,
            message: "VM is running, waiting for supervisor connection"@,
            last_transition_time: Seq::empty(),
        }
    } else {
        ConditionView {
            condition_type: "Ready"@,
            status: "False"@,
            reason: "VmNotRunning"@,
            message: "VM status: "@ + status,
            last_transition_time: Seq::empty(),
        }
    }
}

/// A registered sandbox that is not being deleted and whose instance shows
/// a status other than the one last reported gets a new snapshot: it is
/// reported and stored, with one condition for that status, still not
/// being deleted, and the status is remembered.
pub proof fn watch_updates_keep_sandboxes_live(
    reg: Map<Seq<char>, RecordView>,
    last: Map<Seq<char>, Seq<char>>,
    r: RecordView,
    status: Seq<char>,
    ip: Option<Seq<char>>,
    port: u16,
)
    requires
        reg.contains_key(r.sandbox.name),
        reg[r.sandbox.name] == r,
        r.sandbox.status matches Some(st) ==> !st.deleting,
        status != (if last.contains_key(r.vm_name) {
            last[r.vm_name]
        } else {
            Seq::<char>::empty()
        }),
    ensures
        ({
            let (reg1, last1, ev) = watch_next(
                reg,
                last,
                r,
                PollView::Observed { status, ipv4: ip },
                port,
            );
            &&& ev matches Some(EventView::Sandbox(x)) && {
                &&& x.id == r.sandbox.id
                &&& x.name == r.sandbox.name
                &&& x.status matches Some(st) && {
                    &&& !st.deleting
                    &&& st.conditions == seq![reported_condition(status)]
                    &&& st.instance_id == r.vm_name
                }
                &&& reg1 == reg.insert(r.sandbox.name, RecordView { sandbox: x, vm_name: r.vm_name })
            }
            &&& last1 == last.insert(r.vm_name, status)
        }),
{
}

/// After a status was reported for a sandbox not being deleted, observing
/// its stored record in another status reports that status too.
pub proof fn watch_reports_each_change(
    reg: Map<Seq<char>, RecordView>,
    last: Map<Seq<char>, Seq<char>>,
    r: RecordView,
    s1: Seq<char>,
    s2: Seq<char>,
    ip1: Option<Seq<char>>,
    ip2: Option<Seq<char>>,
    port: u16,
)
    requires
        reg.contains_key(r.sandbox.name),
        reg[r.sandbox.name] == r,
        r.sandbox.status matches Some(st) ==> !st.deleting,
        s1 != (if last.contains_key(r.vm_name) {
            last[r.vm_name]
        } else {
            Seq::<char>::empty()
        }),
        s1 != s2,
    ensures
        ({
            let (reg1, last1, _) = watch_next(
                reg,
                last,
                r,
                PollView::Observed { status: s1, ipv4: ip1 },
                port,
            );
            let r1 = reg1[r.sandbox.name];
            let (reg2, _, ev) = watch_next(
                reg1,
                last1,
                r1,
                PollView::Observed { status: s2, ipv4: ip2 },
                port,
            );
            &&& ev matches Some(EventView::Sandbox(x)) && x.status matches Some(st)
                && !st.deleting && st.conditions == seq![reported_condition(s2)]
            &&& reg2.contains_key(r.sandbox.name)
        }),
{
    watch_updates_keep_sandboxes_live(reg, last, r, s1, ip1, port);
    let (reg1, last1, _) = watch_next(reg, last, r, PollView::Observed { status: s1, ipv4: ip1 }, port);
    let r1 = reg1[r.sandbox.name];
    watch_updates_keep_sandboxes_live(reg1, last1, r1, s2, ip2, port);
}

// ── Laws of watching ─────────────────────────────────────────────────────

/// A status is reported once: observing the same status again right after
/// it was reported changes nothing and reports nothing.
pub proof fn watch_reports_each_status_once(
    reg: Map<Seq<char>, RecordView>,
    last: Map<Seq<char>, Seq<char>>,
    r: RecordView,
    status: Seq<char>,
    ip1: Option<Seq<char>>,
    ip2: Option<Seq<char>>,
    port: u16,
)
    ensures
        ({
            let (reg1, last1, _) = watch_next(
                reg,
                last,
                r,
                PollView::Observed { status, ipv4: ip1 },
                port,
            );
            watch_next(reg1, last1, r, PollView::Observed { status, ipv4: ip2 }, port) == (
                reg1,
                last1,
                None::<EventView>,
            )
        }),
{
}

/// A sandbox being deleted receives no status updates.
pub proof fn deleting_sandboxes_get_no_updates(
    reg: Map<Seq<char>, RecordView>,
    last: Map<Seq<char>, Seq<char>>,
    r: RecordView,
    status: Seq<char>,
    ip: Option<Seq<char>>,
    port: u16,
)
    requires
        is_deleting(r),
    ensures
        watch_next(reg, last, r, PollView::Observed { status, ipv4: ip }, port) == (
            reg,
            last,
            None::<EventView>,
        ),
{
}

/// An instance gone from LXD takes its sandbox out of the registry and is
/// reported as a deletion of that sandbox.
pub proof fn gone_instances_are_forgotten(
    reg: Map<Seq<char>, RecordView>,
    last: Map<Seq<char>, Seq<char>>,
    r: RecordView,
    port: u16,
)
    ensures
        ({
            let (reg1, last1, ev) = watch_next(reg, last, r, PollView::Gone, port);
            &&& !reg1.contains_key(r.sandbox.name)
            &&& !last1.contains_key(r.vm_name)
            &&& ev == Some(EventView::Deleted(r.sandbox.id))
        }),
{
}

/// Marking a sandbox as being deleted keeps it registered, and after that
/// every observation of its instance other than its disappearance leaves
/// the registry as it is.
pub proof fn deletion_waits_for_the_instance_to_go(
    reg: Map<Seq<char>, RecordView>,
    last: Map<Seq<char>, Seq<char>>,
    name: Seq<char>,
    poll: PollView,
    port: u16,
)
    requires
        reg.contains_key(name),
        reg[name].sandbox.status is Some,
        !(poll is Gone),
    ensures
        ({
            let marked = reg.insert(name, deleting_record(reg[name]));
            &&& marked.contains_key(name)
            &&& watch_next(marked, last, marked[name], poll, port).0 == marked
        }),
{
}

} // verus!
