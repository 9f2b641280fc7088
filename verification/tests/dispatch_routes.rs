use gateway_core::dispatch::select_upstream;
use gateway_core::dispatch::DispatchOutcome;
use gateway_core::discovery::static_endpoints;
use gateway_core::endpoint::Endpoint;
use gateway_core::lb::GatewayLoadBalancerOptions;
use gateway_core::lb::ServiceDiscoverySource;
use gateway_core::rules::CompiledRegex;
use gateway_core::rules::GatewayMatchRule;
use gateway_core::service::GlobalBackgroundCmd;
use gateway_core::service::GlobalBackgroundService;
use gateway_core::service::ProxyCmd;
use gateway_core::service::ProxyService;
use gateway_core::service::ServiceAction;
use gateway_core::store::RoutingTable;

fn static_options(prefix: &str, upstreams: &[&str]) -> GatewayLoadBalancerOptions {
    let ups: Vec<String> = upstreams.iter().map(|s| s.to_string()).collect();
    let eps = static_endpoints(&ups).unwrap();
    GatewayLoadBalancerOptions::new(
        GatewayMatchRule::PathStartsWith(prefix.to_string()),
        ServiceDiscoverySource::Static(eps),
        false,
    )
}

/// Installs a route and runs its first discovery pass, as the paired
/// background task would.
fn install(
    routes: &mut RoutingTable,
    bg: &mut GlobalBackgroundService,
    name: &str,
    options: GatewayLoadBalancerOptions,
) -> Vec<ServiceAction> {
    let mgr = ProxyService::new();
    let actions = mgr.apply_with_supervisor(routes, bg, ProxyCmd::Add(name.to_string(), options));
    let idx = routes.find_name(name).unwrap();
    routes.routes[idx].1.refresh_from_source(&Vec::new(), "172.17.0.1");
    actions
}

#[test]
fn prefix_route_round_robins_static_upstreams() {
    let mut routes = RoutingTable::new();
    let mut bg = GlobalBackgroundService::new();
    install(
        &mut routes,
        &mut bg,
        "api",
        static_options("/api", &["10.0.0.1:8080", "10.0.0.2:8080"]),
    );

    match select_upstream(&mut routes, "/api/v1/x", None, None) {
        DispatchOutcome::Forward { route, host, port, path_and_query } => {
            assert_eq!(route, "api");
            assert_eq!(host, "10.0.0.1");
            assert_eq!(port, 8080);
            assert_eq!(path_and_query, "/api/v1/x");
        },
        DispatchOutcome::NoRoute => panic!("expected a forward"),
    }
    match select_upstream(&mut routes, "/api/v1/x", None, None) {
        DispatchOutcome::Forward { host, port, .. } => {
            assert_eq!(host, "10.0.0.2");
            assert_eq!(port, 8080);
        },
        DispatchOutcome::NoRoute => panic!("expected a forward"),
    }
}

#[test]
fn rewrite_strips_prefix_and_keeps_query() {
    let mut routes = RoutingTable::new();
    let mut bg = GlobalBackgroundService::new();
    let options = static_options("/admin", &["127.0.0.1:3000"])
        .with_rewrite(CompiledRegex::compile("^/admin").unwrap(), String::new());
    install(&mut routes, &mut bg, "admin", options);

    match select_upstream(&mut routes, "/admin/status", Some("x=1"), None) {
        DispatchOutcome::Forward { path_and_query, .. } => {
            assert_eq!(path_and_query, "/status?x=1");
        },
        DispatchOutcome::NoRoute => panic!("expected a forward"),
    }
}

#[test]
fn affinity_tag_restricts_labeled_backends() {
    let mut routes = RoutingTable::new();
    let mut bg = GlobalBackgroundService::new();
    let red = Endpoint::labeled(
        "10.0.0.1".to_string(),
        1000,
        vec![("ext".to_string(), "red".to_string())],
    );
    let blue = Endpoint::labeled(
        "10.0.0.2".to_string(),
        1000,
        vec![("ext".to_string(), "blue".to_string())],
    );
    let options = GatewayLoadBalancerOptions::new(
        GatewayMatchRule::PathStartsWith("/svc".to_string()),
        ServiceDiscoverySource::Static(vec![red, blue]),
        false,
    );
    install(&mut routes, &mut bg, "svc", options);

    match select_upstream(&mut routes, "/svc/a", None, Some("red".to_string())) {
        DispatchOutcome::Forward { host, .. } => assert_eq!(host, "10.0.0.1"),
        DispatchOutcome::NoRoute => panic!("expected the red backend"),
    }
    // Without a tag no labeled backend is eligible.
    assert!(matches!(
        select_upstream(&mut routes, "/svc/a", None, None),
        DispatchOutcome::NoRoute
    ));
}

#[test]
fn ext_header_wins_over_query_parameter() {
    let mut routes = RoutingTable::new();
    let mut bg = GlobalBackgroundService::new();
    let red = Endpoint::labeled(
        "10.0.0.1".to_string(),
        1000,
        vec![("ext".to_string(), "red".to_string())],
    );
    let blue = Endpoint::labeled(
        "10.0.0.2".to_string(),
        1000,
        vec![("ext".to_string(), "blue".to_string())],
    );
    let options = GatewayLoadBalancerOptions::new(
        GatewayMatchRule::PathStartsWith("/svc".to_string()),
        ServiceDiscoverySource::Static(vec![red, blue]),
        false,
    );
    install(&mut routes, &mut bg, "svc", options);

    // The header names blue even though the query says red.
    match select_upstream(
        &mut routes,
        "/svc/a",
        Some("x-gateway-ext=red"),
        Some("blue".to_string()),
    ) {
        DispatchOutcome::Forward { host, .. } => assert_eq!(host, "10.0.0.2"),
        DispatchOutcome::NoRoute => panic!("expected the blue backend"),
    }
    // With only the query parameter, it decides.
    match select_upstream(&mut routes, "/svc/a", Some("x-gateway-ext=red"), None) {
        DispatchOutcome::Forward { host, .. } => assert_eq!(host, "10.0.0.1"),
        DispatchOutcome::NoRoute => panic!("expected the red backend"),
    }
}

#[test]
fn empty_static_upstream_yields_no_route() {
    let mut routes = RoutingTable::new();
    let mut bg = GlobalBackgroundService::new();
    install(&mut routes, &mut bg, "api", static_options("/api", &[]));
    assert!(matches!(
        select_upstream(&mut routes, "/api/v1/x", None, None),
        DispatchOutcome::NoRoute
    ));
}

#[test]
fn dynamic_remove_drops_route_and_task() {
    let mut routes = RoutingTable::new();
    let mut bg = GlobalBackgroundService::new();
    let mgr = ProxyService::new();
    install(
        &mut routes,
        &mut bg,
        "api",
        static_options("/api", &["10.0.0.1:8080"]),
    );
    assert!(bg.services.iter().any(|k| k == "api_hc"));

    let actions = mgr.apply_with_supervisor(&mut routes, &mut bg, ProxyCmd::Remove("api".to_string()));
    assert_eq!(actions.len(), 1);
    assert!(matches!(&actions[0], ServiceAction::Cancel(k) if k == "api_hc"));
    assert!(!bg.services.iter().any(|k| k == "api_hc"));
    assert!(matches!(
        select_upstream(&mut routes, "/api/v1/x", None, None),
        DispatchOutcome::NoRoute
    ));
}

#[test]
fn add_then_remove_restores_routing_table() {
    let mut routes = RoutingTable::new();
    let mut bg = GlobalBackgroundService::new();
    let mgr = ProxyService::new();
    install(
        &mut routes,
        &mut bg,
        "keep",
        static_options("/keep", &["10.0.0.9:80"]),
    );
    assert_eq!(routes.routes.len(), 1);

    mgr.apply_with_supervisor(
        &mut routes,
        &mut bg,
        ProxyCmd::Add("api".to_string(), static_options("/api", &["10.0.0.1:8080"])),
    );
    assert_eq!(routes.routes.len(), 2);
    mgr.apply_with_supervisor(&mut routes, &mut bg, ProxyCmd::Remove("api".to_string()));
    assert_eq!(routes.routes.len(), 1);
    assert_eq!(routes.routes[0].0, "keep");
    assert_eq!(bg.services, vec!["keep_hc".to_string()]);
}

#[test]
fn remove_of_unknown_route_is_a_no_op() {
    let mut routes = RoutingTable::new();
    let mut bg = GlobalBackgroundService::new();
    let mgr = ProxyService::new();
    install(
        &mut routes,
        &mut bg,
        "api",
        static_options("/api", &["10.0.0.1:8080"]),
    );
    let actions = mgr.apply_with_supervisor(&mut routes, &mut bg, ProxyCmd::Remove("ghost".to_string()));
    assert_eq!(actions.len(), 0);
    assert_eq!(routes.routes.len(), 1);
    assert_eq!(bg.services, vec!["api_hc".to_string()]);
}

#[test]
fn supervisor_supersedes_existing_key() {
    let mut bg = GlobalBackgroundService::new();
    let first = bg.apply_cmd(GlobalBackgroundCmd::Add("job".to_string()));
    assert_eq!(first.len(), 1);
    assert!(matches!(&first[0], ServiceAction::Spawn(k) if k == "job"));

    // The old task is cancelled before or as the new one is installed.
    let second = bg.apply_cmd(GlobalBackgroundCmd::Add("job".to_string()));
    assert_eq!(second.len(), 2);
    assert!(matches!(&second[0], ServiceAction::Cancel(k) if k == "job"));
    assert!(matches!(&second[1], ServiceAction::Spawn(k) if k == "job"));
    assert_eq!(bg.services, vec!["job".to_string()]);

    // Removing an unknown key is idempotent.
    let none = bg.apply_cmd(GlobalBackgroundCmd::Remove("ghost".to_string()));
    assert_eq!(none.len(), 0);

    let gone = bg.apply_cmd(GlobalBackgroundCmd::Remove("job".to_string()));
    assert_eq!(gone.len(), 1);
    assert!(matches!(&gone[0], ServiceAction::Cancel(k) if k == "job"));
    assert!(bg.services.is_empty());

    // Shutdown cancels every remaining task.
    bg.apply_cmd(GlobalBackgroundCmd::Add("a".to_string()));
    bg.apply_cmd(GlobalBackgroundCmd::Add("b".to_string()));
    let all = bg.cancel_all();
    assert_eq!(all.len(), 2);
    assert!(matches!(&all[0], ServiceAction::Cancel(k) if k == "a"));
    assert!(matches!(&all[1], ServiceAction::Cancel(k) if k == "b"));
}

#[test]
fn unhealthy_backends_are_skipped_when_probing_is_on() {
    let eps = static_endpoints(&vec!["10.0.0.1:80".to_string(), "10.0.0.2:80".to_string()])
        .unwrap();
    let options = GatewayLoadBalancerOptions::new(
        GatewayMatchRule::PathStartsWith("/api".to_string()),
        ServiceDiscoverySource::Static(eps),
        true,
    );
    let mut lb = gateway_core::lb::GatewayLoadBalancer::new("api", options);
    lb.refresh_from_source(&Vec::new(), "172.17.0.1");

    // A probe marks the first backend unreachable; selection skips it.
    lb.apply_health(vec![false, true]);
    assert_eq!(lb.select(&None), Some(1));
    // The cursor wrapped past the end and the scan skips the dead backend
    // again on the next request.
    assert_eq!(lb.select(&None), Some(1));
    // With every backend unhealthy nothing is selectable.
    lb.apply_health(vec![false, false]);
    assert_eq!(lb.select(&None), None);
}

#[test]
fn health_map_is_ignored_when_probing_is_off() {
    let eps = static_endpoints(&vec!["10.0.0.1:80".to_string()]).unwrap();
    let options = GatewayLoadBalancerOptions::new(
        GatewayMatchRule::PathStartsWith("/api".to_string()),
        ServiceDiscoverySource::Static(eps),
        false,
    );
    let mut lb = gateway_core::lb::GatewayLoadBalancer::new("api", options);
    lb.refresh_from_source(&Vec::new(), "172.17.0.1");
    lb.apply_health(vec![false]);
    assert_eq!(lb.select(&None), Some(0));
}

#[test]
fn first_matching_route_wins_in_insertion_order() {
    let mut routes = RoutingTable::new();
    let mut bg = GlobalBackgroundService::new();
    install(
        &mut routes,
        &mut bg,
        "wide",
        static_options("/a", &["10.0.0.1:1"]),
    );
    install(
        &mut routes,
        &mut bg,
        "narrow",
        static_options("/a/b", &["10.0.0.2:2"]),
    );
    match select_upstream(&mut routes, "/a/b/c", None, None) {
        DispatchOutcome::Forward { route, host, .. } => {
            assert_eq!(route, "wide");
            assert_eq!(host, "10.0.0.1");
        },
        DispatchOutcome::NoRoute => panic!("expected a forward"),
    }
}
