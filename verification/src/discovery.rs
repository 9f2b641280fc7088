//! Service discovery: a static source built from `host:port` strings and a
//! container source that derives endpoints from a shared snapshot of
//! container records, plus the watcher decisions that keep the snapshot's
//! containers attached to bridge networks.

use vstd::prelude::*;
use crate::consts::DOCKER_LABEL_DOCKER_COMPOSE_SERVICE;
use crate::consts::DOCKER_LABEL_GATEWAY_CONNECT_NETWORK;
use crate::consts::DOCKER_LABEL_GATEWAY_HOST_IP;
use crate::consts::DOCKER_LABEL_GATEWAY_MODE;
use crate::endpoint::Endpoint;
use crate::endpoint::bag_get;
use crate::endpoint::bag_lookup;
use crate::endpoint::label_view;
use crate::text::host_of;
use crate::text::parse_host_port;
use crate::text::port_of;
use crate::text::str_eq;
use crate::text::valid_host_port;

verus! {

/// One declared port of a container.
pub struct ContainerPort {
    pub private_port: u16,
    pub public_port: u16,
}

/// What the gateway reads from one container of the runtime's snapshot.
pub struct ContainerRecord {
    pub id: String,
    pub labels: Vec<(String, String)>,
    /// Names of every network the container is attached to.
    pub network_names: Vec<String>,
    /// Network name and assigned IPv4 address, for attachments that hold an
    /// address.
    pub network_ips: Vec<(String, String)>,
    pub ports: Vec<ContainerPort>,
}

/// The logical service name a container belongs to, from its compose label.
pub open spec fn service_of(c: ContainerRecord) -> Option<Seq<char>> {
    bag_lookup(label_view(c.labels@), DOCKER_LABEL_DOCKER_COMPOSE_SERVICE@)
}

/// True when `names` holds a string equal to `target`.
pub open spec fn contains_name(names: Seq<String>, target: Seq<char>) -> bool {
    exists|i: int| 0 <= i < names.len() && (#[trigger] names[i])@ == target
}

/// Host-mode resolution: an explicit mode label wins; otherwise attachment
/// to the `host` network implies host mode, else bridge.
pub open spec fn is_host_mode(c: ContainerRecord) -> bool {
    match bag_lookup(label_view(c.labels@), DOCKER_LABEL_GATEWAY_MODE@) {
        Some(m) => if m == "host"@ {
            true
        } else if m == "bridge"@ {
            false
        } else {
            contains_name(c.network_names@, "host"@)
        },
        None => contains_name(c.network_names@, "host"@),
    }
}

/// The host IP of a host-mode backend: the override label, or the bridge
/// gateway IP handed in as `docker0`.
pub open spec fn host_ip_of(c: ContainerRecord, docker0: Seq<char>) -> Seq<char> {
    match bag_lookup(label_view(c.labels@), DOCKER_LABEL_GATEWAY_HOST_IP@) {
        Some(ip) => ip,
        None => docker0,
    }
}

/// Bridge-mode endpoints: one per non-host attached network that holds an
/// address, each at the container's private port.
pub open spec fn bridge_endpoints(ips: Seq<(String, String)>, port: u16) -> Seq<(Seq<char>, u16)>
    decreases ips.len(),
{
    if ips.len() == 0 {
        Seq::empty()
    } else {
        let rest = bridge_endpoints(ips.drop_first(), port);
        if ips[0].0@ == "host"@ {
            rest
        } else {
            seq![(ips[0].1@, port)] + rest
        }
    }
}

/// The endpoints one container contributes: none without a declared port;
/// in host mode one endpoint `<host_ip>:<public_port>`; in bridge mode one
/// endpoint per non-host attached network at the private port.
pub open spec fn container_endpoints(c: ContainerRecord, docker0: Seq<char>) -> Seq<
    (Seq<char>, u16),
> {
    if c.ports@.len() == 0 {
        Seq::empty()
    } else if is_host_mode(c) {
        seq![(host_ip_of(c, docker0), c.ports@[0].public_port)]
    } else {
        bridge_endpoints(c.network_ips@, c.ports@[0].private_port)
    }
}

/// Everything a discovery pass over the snapshot yields for one service:
/// the endpoints of the containers whose service label equals `service`, in
/// snapshot order.
pub open spec fn discovered_endpoints(
    cs: Seq<ContainerRecord>,
    service: Seq<char>,
    docker0: Seq<char>,
) -> Seq<(Seq<char>, u16)>
    decreases cs.len(),
{
    if cs.len() == 0 {
        Seq::empty()
    } else {
        let head = if service_of(cs[0]) == Some(service) {
            container_endpoints(cs[0], docker0)
        } else {
            Seq::empty()
        };
        head + discovered_endpoints(cs.drop_first(), service, docker0)
    }
}

/// Container discovery returns only endpoints derived from containers whose
/// service label matches the discovery's service name.
pub proof fn lemma_discovery_only_matching_containers(
    cs: Seq<ContainerRecord>,
    service: Seq<char>,
    docker0: Seq<char>,
)
    ensures
        forall|e: (Seq<char>, u16)|
            #[trigger] discovered_endpoints(cs, service, docker0).contains(e) ==> exists|i: int|
                0 <= i < cs.len() && service_of(#[trigger] cs[i]) == Some(service)
                    && container_endpoints(cs[i], docker0).contains(e),
    decreases cs.len(),
{
    if cs.len() > 0 {
        lemma_discovery_only_matching_containers(cs.drop_first(), service, docker0);
        let d = discovered_endpoints(cs, service, docker0);
        let rest = discovered_endpoints(cs.drop_first(), service, docker0);
        let head = if service_of(cs[0]) == Some(service) {
            container_endpoints(cs[0], docker0)
        } else {
            Seq::<(Seq<char>, u16)>::empty()
        };
        assert forall|e: (Seq<char>, u16)| #[trigger] d.contains(e) implies exists|i: int|
            0 <= i < cs.len() && service_of(#[trigger] cs[i]) == Some(service)
                && container_endpoints(cs[i], docker0).contains(e) by {
            let k = choose|k: int| 0 <= k < d.len() && d[k] == e;
            if k < head.len() {
                assert(service_of(cs[0]) == Some(service));
                assert(container_endpoints(cs[0], docker0).contains(e)) by {
                    assert(container_endpoints(cs[0], docker0)[k] == e);
                }
            } else {
                let j = k - head.len();
                assert(rest[j] == e);
                assert(rest.contains(e));
                let i0 = choose|i: int|
                    0 <= i < cs.drop_first().len() && service_of(
                        #[trigger] cs.drop_first()[i],
                    ) == Some(service) && container_endpoints(cs.drop_first()[i], docker0).contains(
                        e,
                    );
                assert(cs.drop_first()[i0] == cs[i0 + 1]);
                assert(service_of(cs[i0 + 1]) == Some(service));
            }
        }
    }
}

/// Looks for a string in a list of network names.
fn names_contain(names: &Vec<String>, target: &str) -> (r: bool)
    ensures
        r == contains_name(names@, target@),
{
    let mut i: usize = 0;
    let n = names.len();
    while i < n
        invariant
            n == names@.len(),
            i <= n,
            forall|j: int| 0 <= j < i ==> (#[trigger] names@[j])@ != target@,
        decreases n - i,
    {
        if str_eq(names[i].as_str(), target) {
            return true;
        }
        i = i + 1;
    }
    false
}

/// Whether a container's backend is reached through the host network.
pub fn container_is_host_mode(c: &ContainerRecord) -> (r: bool)
    ensures
        r == is_host_mode(*c),
{
    match bag_get(&c.labels, DOCKER_LABEL_GATEWAY_MODE) {
        Some(m) => {
            if str_eq(m.as_str(), "host") {
                true
            } else if str_eq(m.as_str(), "bridge") {
                false
            } else {
                names_contain(&c.network_names, "host")
            }
        },
        None => names_contain(&c.network_names, "host"),
    }
}

/// The host IP for a host-mode backend: override label or the given
/// bridge-gateway IP.
pub fn container_host_ip(c: &ContainerRecord, docker0: &str) -> (r: String)
    ensures
        r@ == host_ip_of(*c, docker0@),
{
    match bag_get(&c.labels, DOCKER_LABEL_GATEWAY_HOST_IP) {
        Some(ip) => ip,
        None => docker0.to_owned(),
    }
}

/// The gateway IP of the default bridge network, when the runtime reported
/// one; `172.17.0.1` otherwise.
pub fn docker0_or_default(reported: Option<String>) -> (r: String)
    ensures
        reported matches Some(ip) ==> r == ip,
        reported is None ==> r@ == "172.17.0.1"@,
{
    match reported {
        Some(ip) => ip,
        None => {
            let d: &str = "172.17.0.1";
            d.to_owned()
        },
    }
}

/// The endpoints one container contributes to its service.
pub fn container_endpoints_exec(c: &ContainerRecord, docker0: &str) -> (r: Vec<Endpoint>)
    ensures
        r@.map_values(|e: Endpoint| (e.host@, e.port)) == container_endpoints(*c, docker0@),
        forall|k: int| 0 <= k < r@.len() ==> (#[trigger] r@[k]).labels is None,
{
    let mut out: Vec<Endpoint> = Vec::new();
    if c.ports.len() == 0 {
        proof {
            assert(out@.map_values(|e: Endpoint| (e.host@, e.port)) =~= container_endpoints(
                *c,
                docker0@,
            ));
        }
        return out;
    }
    if container_is_host_mode(c) {
        let ip = container_host_ip(c, docker0);
        out.push(Endpoint::new(ip, c.ports[0].public_port));
        proof {
            assert(out@.map_values(|e: Endpoint| (e.host@, e.port)) =~= container_endpoints(
                *c,
                docker0@,
            ));
        }
        return out;
    }
    let port = c.ports[0].private_port;
    let n = c.network_ips.len();
    let mut i: usize = 0;
    proof {
        assert(c.network_ips@.skip(0) =~= c.network_ips@);
    }
    while i < n
        invariant
            n == c.network_ips@.len(),
            i <= n,
            bridge_endpoints(c.network_ips@, port) =~= out@.map_values(
                |e: Endpoint| (e.host@, e.port),
            ) + bridge_endpoints(c.network_ips@.skip(i as int), port),
            forall|k: int| 0 <= k < out@.len() ==> (#[trigger] out@[k]).labels is None,
        decreases n - i,
    {
        proof {
            assert(c.network_ips@.skip(i as int).drop_first() =~= c.network_ips@.skip(i + 1));
            assert(c.network_ips@.skip(i as int)[0] == c.network_ips@[i as int]);
        }
        let ghost prev = out@;
        if !str_eq(c.network_ips[i].0.as_str(), "host") {
            let ip = c.network_ips[i].1.clone();
            out.push(Endpoint::new(ip, port));
            proof {
                assert(out@.map_values(|e: Endpoint| (e.host@, e.port)) =~= prev.map_values(
                    |e: Endpoint| (e.host@, e.port),
                ) + seq![(c.network_ips@[i as int].1@, port)]);
            }
        }
        i = i + 1;
    }
    proof {
        assert(bridge_endpoints(c.network_ips@.skip(n as int), port) =~= Seq::<
            (Seq<char>, u16),
        >::empty());
        assert(out@.map_values(|e: Endpoint| (e.host@, e.port)) =~= container_endpoints(
            *c,
            docker0@,
        ));
    }
    out
}

/// Container-backed service discovery for one named service. Each discovery
/// pass reads the shared container snapshot; it never reports a readiness
/// opinion, so the load balancer's own health check gates liveness.
pub struct DockerServiceDiscovery {
    pub name: String,
}

impl DockerServiceDiscovery {
    pub fn new(name: &str) -> (r: DockerServiceDiscovery)
        ensures
            r.name@ == name@,
    {
        DockerServiceDiscovery { name: name.to_owned() }
    }

    /// Derives the endpoints of this service from the snapshot `containers`,
    /// using `docker0` as the host IP of host-mode containers without an
    /// override label.
    pub fn discover(&self, containers: &Vec<ContainerRecord>, docker0: &str) -> (r: Vec<Endpoint>)
        ensures
            r@.map_values(|e: Endpoint| (e.host@, e.port)) == discovered_endpoints(
                containers@,
                self.name@,
                docker0@,
            ),
            forall|k: int| 0 <= k < r@.len() ==> (#[trigger] r@[k]).labels is None,
    {
        let mut out: Vec<Endpoint> = Vec::new();
        let n = containers.len();
        let mut i: usize = 0;
        proof {
            assert(containers@.skip(0) =~= containers@);
        }
        while i < n
            invariant
                n == containers@.len(),
                i <= n,
                discovered_endpoints(containers@, self.name@, docker0@) =~= out@.map_values(
                    |e: Endpoint| (e.host@, e.port),
                ) + discovered_endpoints(containers@.skip(i as int), self.name@, docker0@),
                forall|k: int| 0 <= k < out@.len() ==> (#[trigger] out@[k]).labels is None,
            decreases n - i,
        {
            proof {
                assert(containers@.skip(i as int).drop_first() =~= containers@.skip(i + 1));
                assert(containers@.skip(i as int)[0] == containers@[i as int]);
            }
            let ghost prev = out@;
            let matches_service = match bag_get(
                &containers[i].labels,
                DOCKER_LABEL_DOCKER_COMPOSE_SERVICE,
            ) {
                Some(s) => str_eq(s.as_str(), self.name.as_str()),
                None => false,
            };
            if matches_service {
                let mut extra = container_endpoints_exec(&containers[i], docker0);
                let ghost extra_view = extra@;
                out.append(&mut extra);
                proof {
                    assert(out@.map_values(|e: Endpoint| (e.host@, e.port)) =~= prev.map_values(
                        |e: Endpoint| (e.host@, e.port),
                    ) + extra_view.map_values(|e: Endpoint| (e.host@, e.port)));
                }
            }
            i = i + 1;
        }
        proof {
            assert(discovered_endpoints(containers@.skip(n as int), self.name@, docker0@) =~= Seq::<
                (Seq<char>, u16),
            >::empty());
            assert(out@.map_values(|e: Endpoint| (e.host@, e.port)) =~= discovered_endpoints(
                containers@,
                self.name@,
                docker0@,
            ));
        }
        out
    }
}

/// The fixed endpoint set parsed from a list of `host:port` strings.
pub open spec fn static_endpoint_seq(upstreams: Seq<String>) -> Seq<(Seq<char>, u16)>
    decreases upstreams.len(),
{
    if upstreams.len() == 0 {
        Seq::empty()
    } else {
        seq![(host_of(upstreams[0]@), port_of(upstreams[0]@) as u16)] + static_endpoint_seq(
            upstreams.drop_first(),
        )
    }
}

/// Builds the endpoint set of a static discovery source from `host:port`
/// strings. Fails exactly when some entry is not a valid `host:port`
/// address, and never attaches labels.
pub fn static_endpoints(upstreams: &Vec<String>) -> (r: Option<Vec<Endpoint>>)
    ensures
        r is Some <==> (forall|i: int|
            0 <= i < upstreams@.len() ==> valid_host_port((#[trigger] upstreams@[i])@)),
        r matches Some(v) ==> v@.map_values(|e: Endpoint| (e.host@, e.port))
            == static_endpoint_seq(upstreams@) && (forall|k: int|
            0 <= k < v@.len() ==> (#[trigger] v@[k]).labels is None),
{
    let mut out: Vec<Endpoint> = Vec::new();
    let n = upstreams.len();
    let mut i: usize = 0;
    proof {
        assert(upstreams@.skip(0) =~= upstreams@);
    }
    while i < n
        invariant
            n == upstreams@.len(),
            i <= n,
            forall|j: int| 0 <= j < i ==> valid_host_port((#[trigger] upstreams@[j])@),
            static_endpoint_seq(upstreams@) =~= out@.map_values(|e: Endpoint| (e.host@, e.port))
                + static_endpoint_seq(upstreams@.skip(i as int)),
            forall|k: int| 0 <= k < out@.len() ==> (#[trigger] out@[k]).labels is None,
        decreases n - i,
    {
        proof {
            assert(upstreams@.skip(i as int).drop_first() =~= upstreams@.skip(i + 1));
            assert(upstreams@.skip(i as int)[0] == upstreams@[i as int]);
        }
        let ghost prev = out@;
        match parse_host_port(upstreams[i].as_str()) {
            Some(hp) => {
                out.push(Endpoint::new(hp.0, hp.1));
                proof {
                    assert(out@.map_values(|e: Endpoint| (e.host@, e.port)) =~= prev.map_values(
                        |e: Endpoint| (e.host@, e.port),
                    ) + seq![(host_of(upstreams@[i as int]@), port_of(upstreams@[i as int]@) as u16)]);
                }
            },
            None => {
                return None;
            },
        }
        i = i + 1;
    }
    proof {
        assert(static_endpoint_seq(upstreams@.skip(n as int)) =~= Seq::<(Seq<char>, u16)>::empty());
        assert(out@.map_values(|e: Endpoint| (e.host@, e.port)) =~= static_endpoint_seq(
            upstreams@,
        ));
    }
    Some(out)
}

/// One network of the runtime, as the watcher reads it.
pub struct NetworkRecord {
    pub name: String,
    pub driver: String,
}

/// True when a container asks the watcher to attach it to every bridge
/// network.
pub open spec fn wants_network_connect(c: ContainerRecord) -> bool {
    bag_lookup(label_view(c.labels@), DOCKER_LABEL_GATEWAY_CONNECT_NETWORK@) == Some("true"@)
}

/// Whether the watcher must manage this container's network attachments.
pub fn container_wants_network_connect(c: &ContainerRecord) -> (r: bool)
    ensures
        r == wants_network_connect(*c),
{
    match bag_get(&c.labels, DOCKER_LABEL_GATEWAY_CONNECT_NETWORK) {
        Some(v) => str_eq(v.as_str(), "true"),
        None => false,
    }
}

/// The named bridge networks a managed container still has to be connected
/// to: every bridge-driver network with a non-empty name that the container
/// is not already attached to.
pub open spec fn networks_to_connect(c: ContainerRecord, nets: Seq<NetworkRecord>) -> Seq<
    Seq<char>,
>
    decreases nets.len(),
{
    if nets.len() == 0 {
        Seq::empty()
    } else {
        let rest = networks_to_connect(c, nets.drop_first());
        if nets[0].name@.len() > 0 && nets[0].driver@ == "bridge"@ && !contains_name(
            c.network_names@,
            nets[0].name@,
        ) {
            seq![nets[0].name@] + rest
        } else {
            rest
        }
    }
}

/// Computes the bridge networks the watcher should connect `c` to.
pub fn missing_bridge_networks(c: &ContainerRecord, nets: &Vec<NetworkRecord>) -> (r: Vec<String>)
    ensures
        r@.map_values(|s: String| s@) == networks_to_connect(*c, nets@),
{
    let mut out: Vec<String> = Vec::new();
    let n = nets.len();
    let mut i: usize = 0;
    proof {
        assert(nets@.skip(0) =~= nets@);
    }
    while i < n
        invariant
            n == nets@.len(),
            i <= n,
            networks_to_connect(*c, nets@) =~= out@.map_values(|s: String| s@)
                + networks_to_connect(*c, nets@.skip(i as int)),
        decreases n - i,
    {
        proof {
            assert(nets@.skip(i as int).drop_first() =~= nets@.skip(i + 1));
            assert(nets@.skip(i as int)[0] == nets@[i as int]);
        }
        let ghost prev = out@;
        if nets[i].name.as_str().unicode_len() > 0 && str_eq(nets[i].driver.as_str(), "bridge")
            && !names_contain(&c.network_names, nets[i].name.as_str()) {
            out.push(nets[i].name.clone());
            proof {
                assert(out@.map_values(|s: String| s@) =~= prev.map_values(|s: String| s@) + seq![
                    nets@[i as int].name@,
                ]);
            }
        }
        i = i + 1;
    }
    proof {
        assert(networks_to_connect(*c, nets@.skip(n as int)) =~= Seq::<Seq<char>>::empty());
        assert(out@.map_values(|s: String| s@) =~= networks_to_connect(*c, nets@));
    }
    out
}

} // verus!
