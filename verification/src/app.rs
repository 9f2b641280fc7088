//! The admin-facing data shapes and the construction of load balancers
//! from them: match-rule and rewrite compilation, discovery-source
//! selection, and the background-service name mapping.

use vstd::prelude::*;
use crate::config::GatewayApplicationConfig;
use crate::config::GatewayLoadBalancerConfig;
use crate::consts::DOCKER_BACKGROUND_SERVICE_NAME;
use crate::discovery::DockerServiceDiscovery;
use crate::discovery::static_endpoint_seq;
use crate::discovery::static_endpoints;
use crate::endpoint::Endpoint;
use crate::lb::GatewayLoadBalancerOptions;
use crate::lb::ServiceDiscoverySource;
use crate::rate_limit::RateLimiter;
use crate::rate_limit::new_rate;
use crate::rules::CompiledRegex;
use crate::rules::GatewayMatchRule;
use crate::rules::re_valid;
use crate::store::GatewayApplication;
use crate::text::str_eq;
use crate::text::valid_host_port;

verus! {

/// One tenant as the admin layer hands it in.
pub struct Application {
    pub app_id: String,
    pub limit_interval_seconds: u64,
    pub limit: u32,
}

impl Application {
    pub fn from_config(config: &GatewayApplicationConfig) -> (r: Application)
        ensures
            r.app_id@ == config.app_id@,
            r.limit_interval_seconds == config.limit_interval_seconds,
            r.limit == config.limit,
    {
        Application {
            app_id: config.app_id.clone(),
            limit_interval_seconds: config.limit_interval_seconds,
            limit: config.limit,
        }
    }

    /// The tenant entry the application table stores: a fresh rate limiter
    /// over the configured interval and limit.
    pub fn into_gateway_application(self) -> (r: GatewayApplication)
        ensures
            r.spec_limit() == self.limit as int,
    {
        GatewayApplication::new(
            RateLimiter::new(new_rate(self.limit_interval_seconds), self.limit),
        )
    }
}

/// The match rule of a requested load balancer, as type and value strings.
pub struct LbMatchRuleInfo {
    pub typ: String,
    pub value: String,
}

/// A requested path rewrite.
pub struct LbRewriteInfo {
    pub regex: String,
    pub replacement: String,
}

/// A requested load balancer.
pub struct LbInfo {
    pub name: String,
    pub match_rule: LbMatchRuleInfo,
    pub rewrite: Option<LbRewriteInfo>,
    pub service_discovery: String,
    pub upstream: Option<Vec<String>>,
}

/// Copies a list of strings, keeping their values.
fn clone_strings(v: &Vec<String>) -> (r: Vec<String>)
    ensures
        r@ == v@,
{
    let mut out: Vec<String> = Vec::new();
    let n = v.len();
    let mut i: usize = 0;
    while i < n
        invariant
            n == v@.len(),
            i <= n,
            out@.len() == i,
            forall|j: int| 0 <= j < i ==> out@[j] == v@[j],
        decreases n - i,
    {
        out.push(v[i].clone());
        i = i + 1;
    }
    proof {
        assert(out@ =~= v@);
    }
    out
}

impl LbInfo {
    pub fn from_config(config: &GatewayLoadBalancerConfig) -> (r: LbInfo)
        ensures
            r.name == config.name,
            r.match_rule.typ == config.match_rule.typ,
            r.match_rule.value == config.match_rule.value,
            (r.rewrite is Some) == (config.rewrite is Some),
            r.rewrite matches Some(rw) ==> (config.rewrite matches Some(c) && rw.regex == c.regex
                && rw.replacement == c.replacement),
            r.service_discovery == config.service_discovery,
            (r.upstream is Some) == (config.upstream is Some),
            r.upstream matches Some(u) ==> (config.upstream matches Some(cu) && u@ == cu@),
    {
        LbInfo {
            name: config.name.clone(),
            match_rule: LbMatchRuleInfo {
                typ: config.match_rule.typ.clone(),
                value: config.match_rule.value.clone(),
            },
            rewrite: match &config.rewrite {
                Some(rw) => Some(
                    LbRewriteInfo {
                        regex: rw.regex.clone(),
                        replacement: rw.replacement.clone(),
                    },
                ),
                None => None,
            },
            service_discovery: config.service_discovery.clone(),
            upstream: match &config.upstream {
                Some(u) => Some(clone_strings(u)),
                None => None,
            },
        }
    }
}

/// Why an admin request was rejected; no rejected request mutates state.
#[derive(Debug)]
pub enum AdminError {
    DuplicateApplication,
    ApplicationNotFound,
    DuplicateLb,
    InvalidMatchRule,
    InvalidMatchRegex,
    InvalidRewriteRegex,
    InvalidServiceDiscovery,
    InvalidUpstream,
}

impl AdminError {
    /// The short human-readable reason returned to the admin caller.
    pub fn message(&self) -> (r: &'static str)
        ensures
            match self {
                AdminError::DuplicateApplication => r@ == "Application already exists"@,
                AdminError::ApplicationNotFound => r@ == "Application not found"@,
                AdminError::DuplicateLb => r@ == "lb already exists"@,
                AdminError::InvalidMatchRule => r@ == "unknown match rule type"@,
                AdminError::InvalidMatchRegex => r@ == "invalid match regex"@,
                AdminError::InvalidRewriteRegex => r@ == "invalid rewrite regex"@,
                AdminError::InvalidServiceDiscovery => r@ == "unknown service discovery"@,
                AdminError::InvalidUpstream => r@ == "invalid upstream address"@,
            },
    {
        match self {
            AdminError::DuplicateApplication => "Application already exists",
            AdminError::ApplicationNotFound => "Application not found",
            AdminError::DuplicateLb => "lb already exists",
            AdminError::InvalidMatchRule => "unknown match rule type",
            AdminError::InvalidMatchRegex => "invalid match regex",
            AdminError::InvalidRewriteRegex => "invalid rewrite regex",
            AdminError::InvalidServiceDiscovery => "unknown service discovery",
            AdminError::InvalidUpstream => "invalid upstream address",
        }
    }
}

/// The upstream list of a request, an absent list reading as empty.
pub open spec fn upstream_list(lb: LbInfo) -> Seq<String> {
    match lb.upstream {
        Some(u) => u@,
        None => Seq::empty(),
    }
}

/// A request's match rule is accepted: a known type, and a compilable
/// pattern when the type is `path_regex`.
pub open spec fn valid_match_rule(lb: LbInfo) -> bool {
    ||| lb.match_rule.typ@ == "path_start_with"@
    ||| (lb.match_rule.typ@ == "path_regex"@ && re_valid(lb.match_rule.value@))
}

/// A request's rewrite is accepted: absent, or with a compilable pattern.
pub open spec fn valid_rewrite(lb: LbInfo) -> bool {
    match lb.rewrite {
        None => true,
        Some(rw) => re_valid(rw.regex@),
    }
}

/// A request's discovery source is accepted: `static` with well-formed
/// `host:port` upstreams, or `docker`.
pub open spec fn valid_discovery(lb: LbInfo) -> bool {
    ||| (lb.service_discovery@ == "static"@ && (forall|i: int|
        0 <= i < upstream_list(lb).len() ==> valid_host_port((#[trigger] upstream_list(lb)[i])@)))
    ||| lb.service_discovery@ == "docker"@
}

/// A whole load-balancer request is accepted.
pub open spec fn lb_request_valid(lb: LbInfo) -> bool {
    valid_match_rule(lb) && valid_rewrite(lb) && valid_discovery(lb)
}

/// The options built for an accepted request: the compiled match rule and
/// rewrite, and the discovery source with its default health-check flag
/// (off for static sources, on for container discovery).
pub open spec fn options_built_from(o: GatewayLoadBalancerOptions, lb: LbInfo) -> bool {
    &&& (lb.match_rule.typ@ == "path_start_with"@ ==> (o.match_rule matches
        GatewayMatchRule::PathStartsWith(p) && p@ == lb.match_rule.value@))
    &&& (lb.match_rule.typ@ != "path_start_with"@ ==> (o.match_rule matches
        GatewayMatchRule::PathRegex(c) && c@ == lb.match_rule.value@))
    &&& (lb.rewrite is None ==> o.rewrite is None)
    &&& (lb.rewrite matches Some(rw) ==> (o.rewrite matches Some(p) && p.0@ == rw.regex@ && p.1@
        == rw.replacement@))
    &&& (lb.service_discovery@ == "static"@ ==> (o.service_discovery matches
        ServiceDiscoverySource::Static(eps) && eps@.map_values(|e: Endpoint| (e.host@, e.port))
        == static_endpoint_seq(upstream_list(lb)) && o.health_check == false))
    &&& (lb.service_discovery@ != "static"@ ==> (o.service_discovery matches
        ServiceDiscoverySource::Docker(d) && d.name@ == lb.name@ && o.health_check == true))
}

/// Compiles a load-balancer request into options, validating the match
/// rule, then the rewrite, then the discovery source. Rejected requests
/// name the first fault found.
pub fn build_lb_options(lb: LbInfo) -> (r: Result<GatewayLoadBalancerOptions, AdminError>)
    ensures
        (r is Ok) == lb_request_valid(lb),
        r matches Ok(o) ==> options_built_from(o, lb),
        !(lb.match_rule.typ@ == "path_start_with"@ || lb.match_rule.typ@ == "path_regex"@) ==> r
            == Err::<GatewayLoadBalancerOptions, AdminError>(AdminError::InvalidMatchRule),
        (lb.match_rule.typ@ == "path_regex"@ && !re_valid(lb.match_rule.value@)) ==> r == Err::<
            GatewayLoadBalancerOptions,
            AdminError,
        >(AdminError::InvalidMatchRegex),
        (valid_match_rule(lb) && !valid_rewrite(lb)) ==> r == Err::<
            GatewayLoadBalancerOptions,
            AdminError,
        >(AdminError::InvalidRewriteRegex),
        (valid_match_rule(lb) && valid_rewrite(lb) && !(lb.service_discovery@ == "static"@
            || lb.service_discovery@ == "docker"@)) ==> r == Err::<
            GatewayLoadBalancerOptions,
            AdminError,
        >(AdminError::InvalidServiceDiscovery),
        (valid_match_rule(lb) && valid_rewrite(lb) && lb.service_discovery@ == "static"@
            && !valid_discovery(lb)) ==> r == Err::<GatewayLoadBalancerOptions, AdminError>(
            AdminError::InvalidUpstream,
        ),
{
    proof {
        reveal_strlit("path_start_with");
        reveal_strlit("path_regex");
        reveal_strlit("static");
        reveal_strlit("docker");
        assert("path_start_with"@.len() != "path_regex"@.len());
        assert("static"@[0] != "docker"@[0]);
    }
    let match_rule = if str_eq(lb.match_rule.typ.as_str(), "path_start_with") {
        GatewayMatchRule::PathStartsWith(lb.match_rule.value.clone())
    } else if str_eq(lb.match_rule.typ.as_str(), "path_regex") {
        match CompiledRegex::compile(lb.match_rule.value.as_str()) {
            Some(c) => GatewayMatchRule::PathRegex(c),
            None => {
                return Err(AdminError::InvalidMatchRegex);
            },
        }
    } else {
        return Err(AdminError::InvalidMatchRule);
    };
    let rewrite = match &lb.rewrite {
        Some(rw) => {
            match CompiledRegex::compile(rw.regex.as_str()) {
                Some(c) => Some((c, rw.replacement.clone())),
                None => {
                    return Err(AdminError::InvalidRewriteRegex);
                },
            }
        },
        None => None,
    };
    let (source, health_check) = if str_eq(lb.service_discovery.as_str(), "static") {
        let endpoints = match &lb.upstream {
            Some(u) => {
                let eps = static_endpoints(u);
                proof {
                    assert(upstream_list(lb) == u@);
                    if eps is Some {
                        assert forall|i: int|
                            0 <= i < upstream_list(lb).len() implies valid_host_port(
                            (#[trigger] upstream_list(lb)[i])@,
                        ) by {
                            assert(upstream_list(lb)[i] == u@[i]);
                        }
                    } else {
                        assert(!valid_discovery(lb));
                    }
                }
                eps
            },
            None => {
                let empty: Vec<String> = Vec::new();
                let r = static_endpoints(&empty);
                proof {
                    assert(upstream_list(lb) =~= Seq::<String>::empty());
                    assert(static_endpoint_seq(upstream_list(lb)) == static_endpoint_seq(empty@));
                }
                r
            },
        };
        match endpoints {
            Some(eps) => {
                proof {
                    assert(valid_discovery(lb));
                }
                (ServiceDiscoverySource::Static(eps), false)
            },
            None => {
                return Err(AdminError::InvalidUpstream);
            },
        }
    } else if str_eq(lb.service_discovery.as_str(), "docker") {
        proof {
            assert(valid_discovery(lb));
        }
        (
            ServiceDiscoverySource::Docker(DockerServiceDiscovery::new(lb.name.as_str())),
            true,
        )
    } else {
        return Err(AdminError::InvalidServiceDiscovery);
    };
    let mut options = GatewayLoadBalancerOptions::new(match_rule, source, health_check);
    if let Some(rw) = rewrite {
        options = options.with_rewrite(rw.0, rw.1);
    }
    Ok(options)
}

/// A background service named in the boot configuration.
pub struct BackgroundServer {
    pub name: String,
}

impl BackgroundServer {
    pub fn from_name(name: String) -> (r: BackgroundServer)
        ensures
            r.name == name,
    {
        BackgroundServer { name }
    }
}

/// The supervisor key of a named background service: only the container
/// watcher is known; any other name is rejected.
pub fn background_service_key(server: &BackgroundServer) -> (r: Option<&'static str>)
    ensures
        (r is Some) == (server.name@ == "docker"@),
        r matches Some(k) ==> k@ == DOCKER_BACKGROUND_SERVICE_NAME@,
{
    if str_eq(server.name.as_str(), "docker") {
        Some(DOCKER_BACKGROUND_SERVICE_NAME)
    } else {
        None
    }
}

} // verus!
