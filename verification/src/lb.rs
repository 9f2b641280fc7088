//! The named load balancer: a match rule, an optional rewrite, a discovery
//! source, and a backend set served in round-robin order under an
//! affinity-aware selection predicate.

use vstd::prelude::*;
use crate::discovery::ContainerRecord;
use crate::discovery::DockerServiceDiscovery;
use crate::discovery::discovered_endpoints;
use crate::endpoint::Endpoint;
use crate::endpoint::EndpointModel;
use crate::endpoint::bag_get;
use crate::endpoint::bag_lookup;
use crate::endpoint::clone_endpoints;
use crate::rules::CompiledRegex;
use crate::rules::GatewayMatchRule;
use crate::rules::re_match;
use crate::rules::re_replace;
use crate::text::str_eq;

verus! {

/// Where a load balancer's backend set comes from: a fixed list, or the
/// container snapshot filtered by service name.
pub enum ServiceDiscoverySource {
    Static(Vec<Endpoint>),
    Docker(DockerServiceDiscovery),
}

/// What a route is built from.
pub struct GatewayLoadBalancerOptions {
    pub match_rule: GatewayMatchRule,
    pub service_discovery: ServiceDiscoverySource,
    pub health_check: bool,
    pub rewrite: Option<(CompiledRegex, String)>,
}

impl GatewayLoadBalancerOptions {
    pub fn new(
        match_rule: GatewayMatchRule,
        service_discovery: ServiceDiscoverySource,
        health_check: bool,
    ) -> (r: Self)
        ensures
            r.match_rule == match_rule,
            r.service_discovery == service_discovery,
            r.health_check == health_check,
            r.rewrite is None,
    {
        GatewayLoadBalancerOptions { match_rule, service_discovery, health_check, rewrite: None }
    }

    pub fn with_rewrite(self, regex: CompiledRegex, replacement: String) -> (r: Self)
        ensures
            r.match_rule == self.match_rule,
            r.service_discovery == self.service_discovery,
            r.health_check == self.health_check,
            r.rewrite == Some((regex, replacement)),
    {
        GatewayLoadBalancerOptions {
            match_rule: self.match_rule,
            service_discovery: self.service_discovery,
            health_check: self.health_check,
            rewrite: Some((regex, replacement)),
        }
    }
}

/// The selection predicate of the dispatcher: an unlabeled endpoint goes by
/// health alone; a labeled endpoint is eligible only for requests carrying
/// an affinity tag equal to its `ext` label.
pub open spec fn eligible(e: EndpointModel, healthy: bool, ext: Option<Seq<char>>) -> bool {
    match e.labels {
        None => healthy,
        Some(bag) => match ext {
            None => false,
            Some(x) => healthy && bag_lookup(bag, "ext"@) == Some(x),
        },
    }
}

/// The view of an optional affinity tag.
pub open spec fn opt_view(o: Option<String>) -> Option<Seq<char>> {
    match o {
        None => None,
        Some(s) => Some(s@),
    }
}

/// The health the selector sees: every backend counts as healthy while
/// health checking is off.
pub open spec fn effective_health(hs: Seq<bool>, hc: bool, i: int) -> bool {
    !hc || hs[i]
}

/// The next position of the round-robin cursor.
pub open spec fn wrap_index(i: int, n: int) -> int {
    if i + 1 == n {
        0
    } else {
        i + 1
    }
}

/// Scans `remaining` backends round-robin from `idx` and yields the first
/// eligible one.
pub open spec fn scan_from(
    bs: Seq<EndpointModel>,
    hs: Seq<bool>,
    hc: bool,
    ext: Option<Seq<char>>,
    idx: int,
    remaining: nat,
) -> Option<int>
    decreases remaining,
{
    if remaining == 0 {
        None
    } else if eligible(bs[idx], effective_health(hs, hc, idx), ext) {
        Some(idx)
    } else {
        scan_from(bs, hs, hc, ext, wrap_index(idx, bs.len() as int), (remaining - 1) as nat)
    }
}

/// What `select` returns: the first eligible backend in round-robin order
/// starting at the cursor, over one full turn of the backend set.
pub open spec fn spec_select(
    bs: Seq<EndpointModel>,
    hs: Seq<bool>,
    hc: bool,
    ext: Option<Seq<char>>,
    cursor: int,
) -> Option<int> {
    if bs.len() == 0 {
        None
    } else {
        scan_from(bs, hs, hc, ext, cursor % (bs.len() as int), bs.len() as nat)
    }
}

/// Position reached after stepping `t` places round-robin from `idx`.
pub open spec fn rotated(idx: int, t: int, n: int) -> int {
    if idx + t < n {
        idx + t
    } else {
        idx + t - n
    }
}

proof fn lemma_scan_from_props(
    bs: Seq<EndpointModel>,
    hs: Seq<bool>,
    hc: bool,
    ext: Option<Seq<char>>,
    idx: int,
    remaining: nat,
)
    requires
        bs.len() > 0,
        hs.len() == bs.len(),
        0 <= idx < bs.len(),
        remaining <= bs.len(),
    ensures
        match scan_from(bs, hs, hc, ext, idx, remaining) {
            Some(i) => 0 <= i < bs.len() && eligible(bs[i], effective_health(hs, hc, i), ext),
            None => forall|t: int|
                0 <= t < remaining ==> !eligible(
                    bs[rotated(idx, t, bs.len() as int)],
                    effective_health(hs, hc, rotated(idx, t, bs.len() as int)),
                    ext,
                ),
        },
    decreases remaining,
{
    if remaining > 0 {
        if !eligible(bs[idx], effective_health(hs, hc, idx), ext) {
            let next = wrap_index(idx, bs.len() as int);
            lemma_scan_from_props(bs, hs, hc, ext, next, (remaining - 1) as nat);
            if scan_from(bs, hs, hc, ext, idx, remaining) is None {
                assert forall|t: int| 0 <= t < remaining implies !eligible(
                    bs[rotated(idx, t, bs.len() as int)],
                    effective_health(hs, hc, rotated(idx, t, bs.len() as int)),
                    ext,
                ) by {
                    if t > 0 {
                        assert(rotated(idx, t, bs.len() as int) == rotated(
                            next,
                            t - 1,
                            bs.len() as int,
                        ));
                    }
                }
            }
        }
    }
}

/// A backend handed back by `select` is a real backend and passes the
/// selection predicate.
pub proof fn lemma_select_some_eligible(
    bs: Seq<EndpointModel>,
    hs: Seq<bool>,
    hc: bool,
    ext: Option<Seq<char>>,
    cursor: int,
    i: int,
)
    requires
        hs.len() == bs.len(),
        0 <= cursor,
        spec_select(bs, hs, hc, ext, cursor) == Some(i),
    ensures
        0 <= i < bs.len(),
        eligible(bs[i], effective_health(hs, hc, i), ext),
{
    lemma_scan_from_props(bs, hs, hc, ext, cursor % (bs.len() as int), bs.len() as nat);
}

/// When `select` comes back empty, no backend at all passes the selection
/// predicate; in particular an empty backend set selects nothing.
pub proof fn lemma_select_none_no_eligible(
    bs: Seq<EndpointModel>,
    hs: Seq<bool>,
    hc: bool,
    ext: Option<Seq<char>>,
    cursor: int,
)
    requires
        hs.len() == bs.len(),
        0 <= cursor,
        spec_select(bs, hs, hc, ext, cursor) is None,
    ensures
        forall|i: int|
            0 <= i < bs.len() ==> !eligible(bs[i], effective_health(hs, hc, i), ext),
{
    if bs.len() > 0 {
        let n = bs.len() as int;
        let start = cursor % n;
        lemma_scan_from_props(bs, hs, hc, ext, start, bs.len() as nat);
        assert forall|i: int| 0 <= i < n implies !eligible(
            bs[i],
            effective_health(hs, hc, i),
            ext,
        ) by {
            let t = if i >= start {
                i - start
            } else {
                i - start + n
            };
            assert(rotated(start, t, n) == i);
        }
    }
}

/// A load balancer with no backends selects nothing, whatever the health
/// map, the affinity tag and the cursor: before its first discovery pass
/// (or with an empty static upstream list) a route can serve no request.
pub proof fn lemma_empty_backends_select_none(
    hs: Seq<bool>,
    hc: bool,
    ext: Option<Seq<char>>,
    cursor: int,
)
    ensures
        spec_select(Seq::<EndpointModel>::empty(), hs, hc, ext, cursor) is None,
{
}

/// Whether one backend may serve a request with the given affinity tag.
fn endpoint_eligible(e: &Endpoint, healthy: bool, ext: &Option<String>) -> (r: bool)
    ensures
        r == eligible(e@, healthy, opt_view(*ext)),
{
    match &e.labels {
        None => healthy,
        Some(bag) => match ext {
            None => false,
            Some(x) => {
                if !healthy {
                    false
                } else {
                    match bag_get(bag, "ext") {
                        Some(v) => str_eq(v.as_str(), x.as_str()),
                        None => false,
                    }
                }
            },
        },
    }
}

/// Finds the first eligible backend, scanning the whole set once from
/// `start`.
fn scan_backends(
    backends: &Vec<Endpoint>,
    healthy: &Vec<bool>,
    hc: bool,
    ext: &Option<String>,
    start: usize,
) -> (r: Option<usize>)
    requires
        healthy@.len() == backends@.len(),
        backends@.len() > 0,
        start < backends@.len(),
    ensures
        (match r {
            Some(i) => Some(i as int),
            None => None::<int>,
        }) == scan_from(
            backends@.map_values(|e: Endpoint| e@),
            healthy@,
            hc,
            opt_view(*ext),
            start as int,
            backends@.len() as nat,
        ),
        r matches Some(i) ==> i < backends@.len(),
{
    let n = backends.len();
    let mut idx = start;
    let mut rem = n;
    while rem > 0
        invariant
            n == backends@.len(),
            healthy@.len() == n,
            n > 0,
            idx < n,
            rem <= n,
            scan_from(
                backends@.map_values(|e: Endpoint| e@),
                healthy@,
                hc,
                opt_view(*ext),
                idx as int,
                rem as nat,
            ) == scan_from(
                backends@.map_values(|e: Endpoint| e@),
                healthy@,
                hc,
                opt_view(*ext),
                start as int,
                n as nat,
            ),
        decreases rem,
    {
        let h = if hc {
            healthy[idx]
        } else {
            true
        };
        if endpoint_eligible(&backends[idx], h, ext) {
            proof {
                assert(backends@.map_values(|e: Endpoint| e@)[idx as int] == backends@[
                    idx as int
                ]@);
            }
            return Some(idx);
        }
        idx = if idx + 1 == n {
            0
        } else {
            idx + 1
        };
        rem = rem - 1;
    }
    None
}

/// A named unit pairing a match rule with an upstream set and a selection
/// policy. The backend set and health map are refreshed by a background
/// task; selection runs on the data plane.
pub struct GatewayLoadBalancer {
    pub name: String,
    pub match_rule: GatewayMatchRule,
    pub rewrite: Option<(CompiledRegex, String)>,
    pub service_discovery: ServiceDiscoverySource,
    pub health_check: bool,
    pub backends: Vec<Endpoint>,
    pub healthy: Vec<bool>,
    pub cursor: usize,
}

impl GatewayLoadBalancer {
    /// The health map always covers exactly the current backend set.
    pub open spec fn wf(&self) -> bool {
        self.healthy@.len() == self.backends@.len()
    }

    /// The backend set as mathematical values.
    pub open spec fn backend_models(&self) -> Seq<EndpointModel> {
        self.backends@.map_values(|e: Endpoint| e@)
    }

    /// A fresh load balancer starts with no backends: before its first
    /// discovery pass it can serve nothing.
    pub fn new(name: &str, options: GatewayLoadBalancerOptions) -> (r: Self)
        ensures
            r.wf(),
            r.name@ == name@,
            r.match_rule == options.match_rule,
            r.rewrite == options.rewrite,
            r.service_discovery == options.service_discovery,
            r.health_check == options.health_check,
            r.backends@.len() == 0,
            r.cursor == 0,
    {
        GatewayLoadBalancer {
            name: name.to_owned(),
            match_rule: options.match_rule,
            rewrite: options.rewrite,
            service_discovery: options.service_discovery,
            health_check: options.health_check,
            backends: Vec::new(),
            healthy: Vec::new(),
            cursor: 0,
        }
    }

    pub fn name(&self) -> (r: &str)
        ensures
            r@ == self.name@,
    {
        self.name.as_str()
    }

    pub fn matches_path(&self, path: &str) -> (r: bool)
        ensures
            r == self.match_rule.spec_matches(path@),
    {
        self.match_rule.matches_path(path)
    }

    /// The rewritten path when this route has a rewrite whose pattern
    /// matches, `None` otherwise.
    pub fn rewrite_path(&self, path: &str) -> (r: Option<String>)
        ensures
            r is Some <==> (self.rewrite matches Some(rw) && re_match(rw.0@, path@)),
            r matches Some(p) ==> (self.rewrite matches Some(rw) && p@ == re_replace(
                rw.0@,
                path@,
                rw.1@,
            )),
    {
        match &self.rewrite {
            Some(rw) => {
                if rw.0.is_match(path) {
                    Some(rw.0.replace(path, rw.1.as_str()))
                } else {
                    None
                }
            },
            None => None,
        }
    }

    /// Replaces the backend set wholesale, atomically from the selector's
    /// point of view. New backends start healthy; the probe task refines
    /// the map while health checking is on.
    pub fn refresh_backends(&mut self, endpoints: Vec<Endpoint>)
        ensures
            final(self).wf(),
            final(self).backends == endpoints,
            final(self).healthy@ =~= Seq::new(endpoints@.len(), |i: int| true),
            final(self).cursor == old(self).cursor,
            final(self).name == old(self).name,
            final(self).match_rule == old(self).match_rule,
            final(self).rewrite == old(self).rewrite,
            final(self).service_discovery == old(self).service_discovery,
            final(self).health_check == old(self).health_check,
    {
        let n = endpoints.len();
        self.backends = endpoints;
        self.healthy = vec![true; n];
    }

    /// Installs the outcome of one health-probe pass, one verdict per
    /// current backend.
    pub fn apply_health(&mut self, results: Vec<bool>)
        requires
            old(self).wf(),
            results@.len() == old(self).backends@.len(),
        ensures
            final(self).wf(),
            final(self).healthy == results,
            final(self).backends == old(self).backends,
            final(self).cursor == old(self).cursor,
            final(self).name == old(self).name,
            final(self).match_rule == old(self).match_rule,
            final(self).rewrite == old(self).rewrite,
            final(self).service_discovery == old(self).service_discovery,
            final(self).health_check == old(self).health_check,
    {
        self.healthy = results;
    }

    /// One discovery pass: a static source reproduces its fixed set, a
    /// container source derives endpoints from the snapshot.
    pub fn refresh_from_source(&mut self, containers: &Vec<ContainerRecord>, docker0: &str)
        ensures
            final(self).wf(),
            final(self).cursor == old(self).cursor,
            final(self).name == old(self).name,
            final(self).match_rule == old(self).match_rule,
            final(self).rewrite == old(self).rewrite,
            final(self).service_discovery == old(self).service_discovery,
            final(self).health_check == old(self).health_check,
            final(self).healthy@ =~= Seq::new(final(self).backends@.len(), |i: int| true),
            old(self).service_discovery matches ServiceDiscoverySource::Static(eps)
                ==> final(self).backend_models() == eps@.map_values(|e: Endpoint| e@),
            old(self).service_discovery matches ServiceDiscoverySource::Docker(d) ==> final(self).backends@.map_values(|e: Endpoint| (e.host@, e.port)) == discovered_endpoints(
                containers@,
                d.name@,
                docker0@,
            ),
    {
        let endpoints = match &self.service_discovery {
            ServiceDiscoverySource::Static(eps) => clone_endpoints(eps),
            ServiceDiscoverySource::Docker(d) => d.discover(containers, docker0),
        };
        self.refresh_backends(endpoints);
    }

    /// Round-robin selection: the first backend from the cursor onwards for
    /// which the affinity predicate holds, advancing the cursor past it.
    pub fn select(&mut self, ext: &Option<String>) -> (r: Option<usize>)
        requires
            old(self).wf(),
        ensures
            final(self).wf(),
            final(self).backends == old(self).backends,
            final(self).healthy == old(self).healthy,
            final(self).name == old(self).name,
            final(self).match_rule == old(self).match_rule,
            final(self).rewrite == old(self).rewrite,
            final(self).service_discovery == old(self).service_discovery,
            final(self).health_check == old(self).health_check,
            (match r {
                Some(i) => Some(i as int),
                None => None::<int>,
            }) == spec_select(
                old(self).backend_models(),
                old(self).healthy@,
                old(self).health_check,
                opt_view(*ext),
                old(self).cursor as int,
            ),
            r matches Some(i) ==> i < old(self).backends@.len() && final(self).cursor
                == wrap_index(i as int, old(self).backends@.len() as int),
            r is None ==> final(self).cursor == old(self).cursor,
    {
        let n = self.backends.len();
        if n == 0 {
            return None;
        }
        let start = self.cursor % n;
        match scan_backends(&self.backends, &self.healthy, self.health_check, ext, start) {
            Some(i) => {
                self.cursor = if i + 1 == n {
                    0
                } else {
                    i + 1
                };
                Some(i)
            },
            None => None,
        }
    }
}

} // verus!
