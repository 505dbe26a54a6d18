//! The LXD endpoints the driver uses: their paths, their request bodies, and
//! how their answers are read. Sending and receiving happens at the edge of
//! the program.

use vstd::prelude::*;
use crate::lxd::client::{ApiErrorView, LxdApiError, API_PREFIX};
use crate::lxd::models::{
    AddressView, InstanceExecPost, InstanceState, InstanceStatePut, NetworksPost, ProjectsPost,
    StoragePoolsPost,
};
use crate::strmap::StrMap;
use crate::text::{append_str, chars_of, contains_text, owned, str_contains, str_eq, string_of};

verus! {

broadcast use vstd::string::group_string_axioms;

// ── Paths ────────────────────────────────────────────────────────────────

/// `/1.0/projects`.
pub fn projects_path() -> (r: String)
    ensures
        r@ == "/1.0"@ + "/projects"@,
{
    let mut p = owned(API_PREFIX);
    append_str(&mut p, "/projects");
    p
}

/// `/1.0/storage-pools`.
pub fn storage_pools_path() -> (r: String)
    ensures
        r@ == "/1.0"@ + "/storage-pools"@,
{
    let mut p = owned(API_PREFIX);
    append_str(&mut p, "/storage-pools");
    p
}

/// `/1.0/networks`.
pub fn networks_path() -> (r: String)
    ensures
        r@ == "/1.0"@ + "/networks"@,
{
    let mut p = owned(API_PREFIX);
    append_str(&mut p, "/networks");
    p
}

/// `/1.0/instances?project={project}`: creating and listing instances.
pub fn instances_path(project: &str) -> (r: String)
    ensures
        r@ == "/1.0"@ + "/instances?project="@ + project@,
{
    let mut p = owned(API_PREFIX);
    append_str(&mut p, "/instances?project=");
    append_str(&mut p, project);
    p
}

/// `/1.0/instances/{name}{suffix}?project={project}`.
pub open spec fn instance_path_spec(name: Seq<char>, suffix: Seq<char>, project: Seq<char>) -> Seq<
    char,
> {
    "/1.0"@ + "/instances/"@ + name + suffix + "?project="@ + project
}

fn instance_path(name: &str, suffix: &str, project: &str) -> (r: String)
    ensures
        r@ == instance_path_spec(name@, suffix@, project@),
{
    let mut p = owned(API_PREFIX);
    append_str(&mut p, "/instances/");
    append_str(&mut p, name);
    append_str(&mut p, suffix);
    append_str(&mut p, "?project=");
    append_str(&mut p, project);
    p
}

/// `/1.0/instances/{name}?project={project}`: deleting an instance.
pub fn instance_item_path(name: &str, project: &str) -> (r: String)
    ensures
        r@ == instance_path_spec(name@, ""@, project@),
{
    instance_path(name, "", project)
}

/// `/1.0/instances/{name}/state?project={project}`: reading and changing
/// the power state.
pub fn instance_state_path(name: &str, project: &str) -> (r: String)
    ensures
        r@ == instance_path_spec(name@, "/state"@, project@),
{
    instance_path(name, "/state", project)
}

/// `/1.0/instances/{name}/exec?project={project}`: running a command.
pub fn instance_exec_path(name: &str, project: &str) -> (r: String)
    ensures
        r@ == instance_path_spec(name@, "/exec"@, project@),
{
    instance_path(name, "/exec", project)
}

// ── Bodies ───────────────────────────────────────────────────────────────

/// The project to create: it inherits global images and profiles.
pub fn project_post(name: &str) -> (r: ProjectsPost)
    ensures
        r.name@ == name@,
        r.config@ == Map::<Seq<char>, Seq<char>>::empty().insert(
            "features.images"@,
            "false"@,
        ).insert("features.profiles"@, "false"@),
{
    let mut config: StrMap<String> = StrMap::new();
    config.insert(owned("features.images"), owned("false"));
    config.insert(owned("features.profiles"), owned("false"));
    ProjectsPost { name: owned(name), config }
}

/// The storage pool to create: a ZFS pool with a size gets a loopback file
/// of that size; any other pool no configuration.
pub fn storage_pool_post(name: &str, driver: &str, size: &str) -> (r: StoragePoolsPost)
    ensures
        r.name@ == name@,
        r.driver@ == driver@,
        driver@ == "zfs"@ && size@.len() > 0 ==> r.config@ == Map::<
            Seq<char>,
            Seq<char>,
        >::empty().insert("size"@, size@),
        !(driver@ == "zfs"@ && size@.len() > 0) ==> r.config@ == Map::<
            Seq<char>,
            Seq<char>,
        >::empty(),
{
    let mut config: StrMap<String> = StrMap::new();
    if str_eq(driver, "zfs") && !size.is_empty() {
        config.insert(owned("size"), owned(size));
    }
    StoragePoolsPost { name: owned(name), driver: owned(driver), config }
}

/// The bridge network to create: NAT on the given IPv4 gateway address, no
/// IPv6.
pub fn network_post(name: &str, cidr: &str) -> (r: NetworksPost)
    ensures
        r.name@ == name@,
        r.network_type@ == "bridge"@,
        r.config@ == Map::<Seq<char>, Seq<char>>::empty().insert("ipv4.address"@, cidr@).insert(
            "ipv4.nat"@,
            "true"@,
        ).insert("ipv6.address"@, "none"@),
{
    let mut config: StrMap<String> = StrMap::new();
    config.insert(owned("ipv4.address"), owned(cidr));
    config.insert(owned("ipv4.nat"), owned("true"));
    config.insert(owned("ipv6.address"), owned("none"));
    NetworksPost { name: owned(name), network_type: owned("bridge"), config }
}

/// Starting an instance: within 60 seconds, not forced.
pub fn start_request() -> (r: InstanceStatePut)
    ensures
        r.action@ == "start"@,
        r.timeout == 60,
        !r.force,
{
    InstanceStatePut { action: owned("start"), timeout: 60, force: false }
}

/// Stopping an instance within the given seconds, not forced.
pub fn stop_request(timeout_secs: u32) -> (r: InstanceStatePut)
    ensures
        r.action@ == "stop"@,
        r.timeout == timeout_secs,
        !r.force,
{
    InstanceStatePut { action: owned("stop"), timeout: timeout_secs, force: false }
}

/// A command to start inside an instance without waiting for it: not
/// interactive, no websockets, no recorded output.
pub fn exec_request(command: Vec<String>, env: StrMap<String>) -> (r: InstanceExecPost)
    ensures
        r.command == command,
        r.environment == env,
        !r.interactive,
        !r.wait_for_websocket,
        !r.record_output,
{
    InstanceExecPost {
        command,
        environment: env,
        interactive: false,
        wait_for_websocket: false,
        record_output: false,
    }
}

// ── Answers ──────────────────────────────────────────────────────────────

/// Creating something that exists already counts as success: a conflict is
/// swallowed, any other error stays.
pub fn ensure_outcome<T>(result: Result<T, LxdApiError>) -> (r: Result<(), LxdApiError>)
    ensures
        match result {
            Ok(_) => r is Ok,
            Err(e) => match e@ {
                ApiErrorView::Conflict(_) => r is Ok,
                _ => r == Err::<(), LxdApiError>(e),
            },
        },
{
    match result {
        Ok(_) => Ok(()),
        Err(LxdApiError::Conflict(_)) => Ok(()),
        Err(e) => Err(e),
    }
}

/// As [`ensure_outcome`], and an API error whose message says "already
/// exists" counts as success too (LXD 5.x answers 400, not 409, for a
/// duplicate network).
pub fn ensure_network_outcome<T>(result: Result<T, LxdApiError>) -> (r: Result<(), LxdApiError>)
    ensures
        match result {
            Ok(_) => r is Ok,
            Err(e) => match e@ {
                ApiErrorView::Conflict(_) => r is Ok,
                ApiErrorView::Api { status, message } => if contains_text(
                    message,
                    "already exists"@,
                ) {
                    r is Ok
                } else {
                    r == Err::<(), LxdApiError>(e)
                },
                _ => r == Err::<(), LxdApiError>(e),
            },
        },
{
    match result {
        Ok(_) => Ok(()),
        Err(LxdApiError::Conflict(_)) => Ok(()),
        Err(e) => {
            let exists = match &e {
                LxdApiError::Api { message, .. } => str_contains(message.as_str(), "already exists"),
                _ => false,
            };
            if exists {
                Ok(())
            } else {
                Err(e)
            }
        },
    }
}

/// The part of a URL after its last `/` (all of it when there is none).
pub open spec fn last_segment(s: Seq<char>) -> Seq<char>
    decreases s.len(),
{
    if s.len() == 0 {
        s
    } else if s.last() == '/' {
        Seq::empty()
    } else {
        last_segment(s.drop_last()).push(s.last())
    }
}

/// The short name of an instance URL: its last path segment.
pub fn instance_name_from_url(url: &str) -> (r: String)
    ensures
        r@ == last_segment(url@),
{
    let cs = chars_of(url);
    let n = cs.len();
    let mut seg: Vec<char> = Vec::new();
    let mut i: usize = 0;
    while i < n
        invariant
            n == cs@.len(),
            i <= n,
            seg@ == last_segment(cs@.take(i as int)),
        decreases n - i,
    {
        proof {
            assert(cs@.take(i + 1).drop_last() =~= cs@.take(i as int));
        }
        if cs[i] == '/' {
            seg = Vec::new();
        } else {
            seg.push(cs[i]);
        }
        assert(seg@ =~= last_segment(cs@.take(i + 1)));
        i = i + 1;
    }
    assert(cs@.take(n as int) =~= cs@);
    string_of(&seg)
}

/// The short names of instance URLs, in order.
pub fn instance_names(urls: Vec<String>) -> (r: Vec<String>)
    ensures
        r@.len() == urls@.len(),
        forall|i: int| 0 <= i < r@.len() ==> #[trigger] r@[i]@ == last_segment(urls@[i]@),
{
    let mut out: Vec<String> = Vec::new();
    let n = urls.len();
    let mut i: usize = 0;
    while i < n
        invariant
            n == urls@.len(),
            i <= n,
            out@.len() == i,
            forall|j: int| 0 <= j < i ==> #[trigger] out@[j]@ == last_segment(urls@[j]@),
        decreases n - i,
    {
        out.push(instance_name_from_url(urls[i].as_str()));
        i = i + 1;
    }
    out
}

// ── Addresses ────────────────────────────────────────────────────────────

/// A global IPv4 address.
pub open spec fn is_global_inet(a: AddressView) -> bool {
    a.family == "inet"@ && a.scope == "global"@
}

/// The first global IPv4 address among the addresses of one interface.
pub open spec fn first_global_inet(addrs: Seq<AddressView>) -> Option<Seq<char>>
    decreases addrs.len(),
{
    if addrs.len() == 0 {
        None
    } else if is_global_inet(addrs[0]) {
        Some(addrs[0].address)
    } else {
        first_global_inet(addrs.drop_first())
    }
}

/// The first global IPv4 address of the first interface that has one.
pub open spec fn first_interface_inet(ifaces: Seq<Seq<AddressView>>) -> Option<Seq<char>>
    decreases ifaces.len(),
{
    if ifaces.len() == 0 {
        None
    } else {
        match first_global_inet(ifaces[0]) {
            Some(a) => Some(a),
            None => first_interface_inet(ifaces.drop_first()),
        }
    }
}

/// The addresses of each interface, in the order the state lists them.
pub open spec fn interface_addresses(state: &InstanceState) -> Seq<Seq<AddressView>> {
    match &state.network {
        Some(net) => net.entry_seq().map_values(|e: (String, crate::lxd::models::InterfaceState)| e.1@),
        None => Seq::empty(),
    }
}

/// The address `extract_ipv4` reports for a state.
pub open spec fn state_ipv4(state: &InstanceState) -> Option<Seq<char>> {
    first_interface_inet(interface_addresses(state))
}

/// Extracts the first global IPv4 address from a running instance state.
pub fn extract_ipv4(state: &InstanceState) -> (r: Option<String>)
    ensures
        match r {
            Some(a) => state_ipv4(state) == Some(a@),
            None => state_ipv4(state) is None,
        },
{
    match &state.network {
        None => None,
        Some(net) => {
            let entries = net.entries();
            let ghost ifaces = interface_addresses(state);
            let n = entries.len();
            let mut i: usize = 0;
            assert(ifaces.skip(0) =~= ifaces);
            while i < n
                invariant
                    n == entries@.len(),
                    entries@ == net.entry_seq(),
                    ifaces == interface_addresses(state),
                    ifaces.len() == n,
                    ifaces == net.entry_seq().map_values(
                        |e: (String, crate::lxd::models::InterfaceState)| e.1@,
                    ),
                    i <= n,
                    first_interface_inet(ifaces) == first_interface_inet(ifaces.skip(i as int)),
                decreases n - i,
            {
                let addrs = &entries[i].1.addresses;
                let ghost av = ifaces[i as int];
                assert(av == addrs@.map_values(|a: crate::lxd::models::InterfaceAddress| a@));
                let m = addrs.len();
                let mut j: usize = 0;
                assert(av.skip(0) =~= av);
                while j < m
                    invariant
                        m == addrs@.len(),
                        n == entries@.len(),
                        i < n,
                        ifaces.len() == n,
                        ifaces == interface_addresses(state),
                        av == ifaces[i as int],
                        first_interface_inet(ifaces) == first_interface_inet(ifaces.skip(i as int)),
                        av == addrs@.map_values(|a: crate::lxd::models::InterfaceAddress| a@),
                        j <= m,
                        first_global_inet(av) == first_global_inet(av.skip(j as int)),
                    decreases m - j,
                {
                    let a = &addrs[j];
                    assert(av.skip(j as int).drop_first() =~= av.skip(j + 1));
                    if str_eq(a.family.as_str(), "inet") && str_eq(a.scope.as_str(), "global") {
                        proof {
                            assert(ifaces.skip(i as int)[0] == av);
                        }
                        return Some(a.address.clone());
                    }
                    j = j + 1;
                }
                assert(av.skip(m as int) =~= Seq::<AddressView>::empty());
                assert(ifaces.skip(i as int).drop_first() =~= ifaces.skip(i + 1));
                assert(ifaces.skip(i as int)[0] == av);
                i = i + 1;
            }
            assert(ifaces.skip(n as int) =~= Seq::<Seq<AddressView>>::empty());
            None
        },
    }
}

/// Some interface lists the address as a global IPv4 address.
pub open spec fn has_global_inet(ifaces: Seq<Seq<AddressView>>, a: Seq<char>) -> bool {
    exists|i: int, j: int|
        0 <= i < ifaces.len() && 0 <= j < ifaces[i].len() && is_global_inet(
            #[trigger] ifaces[i][j],
        ) && ifaces[i][j].address == a
}

proof fn lemma_first_global_inet(addrs: Seq<AddressView>)
    ensures
        first_global_inet(addrs) matches Some(a) ==> exists|j: int|
            0 <= j < addrs.len() && is_global_inet(#[trigger] addrs[j]) && addrs[j].address == a,
        first_global_inet(addrs) is None ==> forall|j: int|
            0 <= j < addrs.len() ==> !is_global_inet(#[trigger] addrs[j]),
    decreases addrs.len(),
{
    if addrs.len() > 0 && !is_global_inet(addrs[0]) {
        let rest = addrs.drop_first();
        lemma_first_global_inet(rest);
        if first_global_inet(rest) is Some {
            let j = choose|j: int|
                0 <= j < rest.len() && is_global_inet(#[trigger] rest[j]) && rest[j].address
                    == first_global_inet(rest)->0;
            assert(addrs[j + 1] == rest[j]);
        } else {
            assert forall|j: int| 0 <= j < addrs.len() implies !is_global_inet(
                #[trigger] addrs[j],
            ) by {
                if j > 0 {
                    assert(addrs[j] == rest[j - 1]);
                }
            }
        }
    } else if addrs.len() > 0 {
        assert(is_global_inet(addrs[0]));
    }
}

/// The address found is a global IPv4 address of some interface, and none
/// is found exactly when no interface has one.
pub proof fn extract_ipv4_is_sound_and_complete(ifaces: Seq<Seq<AddressView>>)
    ensures
        first_interface_inet(ifaces) matches Some(a) ==> has_global_inet(ifaces, a),
        first_interface_inet(ifaces) is None <==> forall|i: int, j: int|
            0 <= i < ifaces.len() && 0 <= j < ifaces[i].len() ==> !is_global_inet(
                #[trigger] ifaces[i][j],
            ),
    decreases ifaces.len(),
{
    if ifaces.len() > 0 {
        let rest = ifaces.drop_first();
        extract_ipv4_is_sound_and_complete(rest);
        lemma_first_global_inet(ifaces[0]);
        match first_global_inet(ifaces[0]) {
            Some(a) => {
                let j = choose|j: int|
                    0 <= j < ifaces[0].len() && is_global_inet(#[trigger] ifaces[0][j])
                        && ifaces[0][j].address == a;
                assert(is_global_inet(ifaces[0][j]));
            },
            None => {
                if first_interface_inet(rest) is Some {
                    let a = first_interface_inet(rest)->0;
                    let (i, j) = choose|i: int, j: int|
                        0 <= i < rest.len() && 0 <= j < rest[i].len() && is_global_inet(
                            #[trigger] rest[i][j],
                        ) && rest[i][j].address == a;
                    assert(ifaces[i + 1] == rest[i]);
                    assert(is_global_inet(ifaces[i + 1][j]));
                } else {
                    assert forall|i: int, j: int|
                        0 <= i < ifaces.len() && 0 <= j < ifaces[i].len() implies !is_global_inet(
                        #[trigger] ifaces[i][j],
                    ) by {
                        if i > 0 {
                            assert(ifaces[i] == rest[i - 1]);
                        }
                    }
                }
            },
        }
    }
}

// ── Polling ──────────────────────────────────────────────────────────────

/// A wait that has passed its deadline fails with a timeout of its length.
pub fn deadline_check(past_deadline: bool, timeout_secs: u64) -> (r: Result<(), LxdApiError>)
    ensures
        past_deadline ==> (r matches Err(e) && e@ == ApiErrorView::Timeout(timeout_secs)),
        !past_deadline ==> r is Ok,
{
    if past_deadline {
        Err(LxdApiError::Timeout(timeout_secs))
    } else {
        Ok(())
    }
}

/// A polled instance is reachable once it has a global IPv4 address; errors
/// while polling mean "try again".
pub fn agent_ready(poll: Result<InstanceState, LxdApiError>) -> (r: Option<InstanceState>)
    ensures
        match poll {
            Ok(s) => if state_ipv4(&s) is Some {
                r == Some(s)
            } else {
                r is None
            },
            Err(_) => r is None,
        },
{
    match poll {
        Ok(state) => {
            if extract_ipv4(&state).is_some() {
                Some(state)
            } else {
                None
            }
        },
        Err(_) => None,
    }
}

/// The marker file that cloud-init writes when it has finished.
pub const CLOUD_INIT_MARKER: &'static str = "/var/lib/cloud/instance/boot-finished";

/// Cloud-init is done once its marker file is known to exist; errors while
/// polling mean "try again".
pub fn cloud_init_done(poll: Result<bool, LxdApiError>) -> (r: bool)
    ensures
        r == (poll == Ok::<bool, LxdApiError>(true)),
{
    match poll {
        Ok(true) => true,
        _ => false,
    }
}

} // verus!
