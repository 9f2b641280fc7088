//! The gateway's boot configuration: background services to start, tenant
//! applications, and load balancers. The boot layer reads the file and
//! hands these plain values in; they are applied as a sequence of admin
//! commands.

use vstd::prelude::*;

verus! {

/// The whole configuration document.
pub struct GatewayConfig {
    pub backgrounds: Option<Vec<String>>,
    pub applications: Option<Vec<GatewayApplicationConfig>>,
    pub load_balancers: Option<Vec<GatewayLoadBalancerConfig>>,
}

/// One tenant: its id and rate-limit settings.
pub struct GatewayApplicationConfig {
    pub app_id: String,
    pub limit_interval_seconds: u64,
    pub limit: u32,
}

/// One load balancer: name, match rule, optional rewrite, and its
/// discovery source.
pub struct GatewayLoadBalancerConfig {
    pub name: String,
    pub match_rule: GatewayLoadBalancerMatchRuleConfig,
    pub rewrite: Option<GatewayRewriteConfig>,
    pub service_discovery: String,
    pub upstream: Option<Vec<String>>,
}

/// The match rule of a configured load balancer: a type, either
/// `path_start_with` or `path_regex`, and its value.
pub struct GatewayLoadBalancerMatchRuleConfig {
    pub typ: String,
    pub value: String,
}

/// A configured path rewrite: a pattern and its replacement.
pub struct GatewayRewriteConfig {
    pub regex: String,
    pub replacement: String,
}

} // verus!
