use gateway_core::admin::add_application;
use gateway_core::admin::add_lb;
use gateway_core::admin::get_application;
use gateway_core::admin::remove_application;
use gateway_core::admin::update_application;
use gateway_core::app::background_service_key;
use gateway_core::app::build_lb_options;
use gateway_core::app::AdminError;
use gateway_core::app::Application;
use gateway_core::app::BackgroundServer;
use gateway_core::app::LbInfo;
use gateway_core::app::LbMatchRuleInfo;
use gateway_core::app::LbRewriteInfo;
use gateway_core::config::GatewayConfig;
use gateway_core::consts::DOCKER_BACKGROUND_SERVICE_NAME;
use gateway_core::discovery::missing_bridge_networks;
use gateway_core::discovery::container_wants_network_connect;
use gateway_core::discovery::ContainerPort;
use gateway_core::discovery::ContainerRecord;
use gateway_core::discovery::DockerServiceDiscovery;
use gateway_core::discovery::NetworkRecord;
use gateway_core::dispatch::check_rate_limit;
use gateway_core::dispatch::RateDecision;
use gateway_core::rate_limit::new_rate;
use gateway_core::rate_limit::RateLimiter;
use gateway_core::store::config;
use gateway_core::store::init_config;
use gateway_core::store::AppTable;
use gateway_core::store::ConfigStore;
use gateway_core::store::RoutingTable;

fn lb_request(name: &str, typ: &str, value: &str, sd: &str, ups: Option<Vec<&str>>) -> LbInfo {
    LbInfo {
        name: name.to_string(),
        match_rule: LbMatchRuleInfo { typ: typ.to_string(), value: value.to_string() },
        rewrite: None,
        service_discovery: sd.to_string(),
        upstream: ups.map(|v| v.iter().map(|s| s.to_string()).collect()),
    }
}

fn tenant(id: &str, interval: u64, limit: u32) -> Application {
    Application { app_id: id.to_string(), limit_interval_seconds: interval, limit }
}

#[test]
fn rate_limit_allows_up_to_threshold_and_rejects_beyond() {
    let rl = RateLimiter::new(new_rate(60), 2);
    assert_eq!(rl.increase("t1"), 1);
    assert_eq!(rl.increase("t1"), 2);
    assert_eq!(rl.increase("t1"), 3);
    // count == limit passes; count == limit + 1 rejects.
    assert!(!rl.is_exceeded(2));
    assert!(rl.is_exceeded(3));
    assert_eq!(rl.max_req_per_second(), 2);
    // Another tenant's counter is independent.
    assert_eq!(rl.increase("t2"), 1);
}

#[test]
fn three_requests_within_interval_hit_the_limit() {
    let mut apps = AppTable::new();
    add_application(&mut apps, tenant("t1", 1, 2)).unwrap();
    let id = Some("t1".to_string());
    assert!(matches!(check_rate_limit(&apps, &id), RateDecision::Allowed));
    assert!(matches!(check_rate_limit(&apps, &id), RateDecision::Allowed));
    match check_rate_limit(&apps, &id) {
        RateDecision::Limited(limit) => assert_eq!(limit, 2),
        RateDecision::Allowed => panic!("third request should be limited"),
    }
}

#[test]
fn unknown_tenant_bypasses_the_limiter() {
    let apps = AppTable::new();
    for _ in 0..5 {
        assert!(matches!(
            check_rate_limit(&apps, &Some("ghost".to_string())),
            RateDecision::Allowed
        ));
    }
    assert!(matches!(check_rate_limit(&apps, &None), RateDecision::Allowed));
}

#[test]
fn application_admin_operations_validate() {
    let mut apps = AppTable::new();
    assert!(add_application(&mut apps, tenant("t1", 1, 2)).is_ok());
    assert!(matches!(
        add_application(&mut apps, tenant("t1", 1, 9)),
        Err(AdminError::DuplicateApplication)
    ));
    assert!(matches!(get_application(&apps, "t1"), Ok(2)));
    assert!(update_application(&mut apps, tenant("t1", 1, 5)).is_ok());
    assert!(matches!(get_application(&apps, "t1"), Ok(5)));
    assert!(matches!(
        update_application(&mut apps, tenant("t2", 1, 5)),
        Err(AdminError::ApplicationNotFound)
    ));
    remove_application(&mut apps, "t1");
    assert!(matches!(
        get_application(&apps, "t1"),
        Err(AdminError::ApplicationNotFound)
    ));
    // Removing an unknown tenant is a no-op.
    remove_application(&mut apps, "t1");
    assert_eq!(apps.apps.len(), 0);
}

#[test]
fn lb_requests_are_validated_in_order() {
    let routes = RoutingTable::new();
    assert!(matches!(
        add_lb(&routes, lb_request("a", "path_glob", "/x", "static", None)),
        Err(AdminError::InvalidMatchRule)
    ));
    assert!(matches!(
        add_lb(&routes, lb_request("a", "path_regex", "foo(bar", "static", None)),
        Err(AdminError::InvalidMatchRegex)
    ));
    let mut bad_rewrite = lb_request("a", "path_start_with", "/x", "static", None);
    bad_rewrite.rewrite = Some(LbRewriteInfo {
        regex: "foo(bar".to_string(),
        replacement: String::new(),
    });
    assert!(matches!(
        add_lb(&routes, bad_rewrite),
        Err(AdminError::InvalidRewriteRegex)
    ));
    assert!(matches!(
        build_lb_options(lb_request("a", "path_start_with", "/x", "consul", None)),
        Err(AdminError::InvalidServiceDiscovery)
    ));
    assert!(matches!(
        build_lb_options(lb_request("a", "path_start_with", "/x", "static", Some(vec!["noport"]))),
        Err(AdminError::InvalidUpstream)
    ));
    let ok = add_lb(
        &routes,
        lb_request("a", "path_start_with", "/x", "static", Some(vec!["10.0.0.1:80"])),
    );
    let (name, _options) = ok.unwrap();
    assert_eq!(name, "a");
}

#[test]
fn duplicate_route_name_is_rejected_with_its_message() {
    let mut routes = RoutingTable::new();
    let mut bg = gateway_core::service::GlobalBackgroundService::new();
    let mgr = gateway_core::service::ProxyService::new();
    let (name, options) = add_lb(
        &routes,
        lb_request("api", "path_start_with", "/api", "static", Some(vec!["10.0.0.1:80"])),
    )
    .unwrap();
    mgr.apply_with_supervisor(
        &mut routes,
        &mut bg,
        gateway_core::service::ProxyCmd::Add(name, options),
    );
    match add_lb(
        &routes,
        lb_request("api", "path_start_with", "/api", "static", Some(vec!["10.0.0.1:80"])),
    ) {
        Err(e) => {
            assert!(matches!(e, AdminError::DuplicateLb));
            assert_eq!(e.message(), "lb already exists");
        },
        Ok(_) => panic!("duplicate name must be rejected"),
    }
}

fn container(labels: Vec<(&str, &str)>, networks: Vec<(&str, &str)>, ports: Vec<(u16, u16)>) -> ContainerRecord {
    ContainerRecord {
        id: "c1".to_string(),
        labels: labels.iter().map(|(k, v)| (k.to_string(), v.to_string())).collect(),
        network_names: networks.iter().map(|(n, _)| n.to_string()).collect(),
        network_ips: networks.iter().map(|(n, ip)| (n.to_string(), ip.to_string())).collect(),
        ports: ports
            .iter()
            .map(|(private_port, public_port)| ContainerPort {
                private_port: *private_port,
                public_port: *public_port,
            })
            .collect(),
    }
}

#[test]
fn host_mode_container_uses_override_ip_and_public_port() {
    let c = container(
        vec![
            ("com.docker.compose.service", "svc"),
            ("com.gateway.mode", "host"),
            ("com.gateway.host.ip", "192.168.1.10"),
        ],
        vec![("bridge", "172.17.0.2")],
        vec![(8080, 32100)],
    );
    let discovery = DockerServiceDiscovery::new("svc");
    let endpoints = discovery.discover(&vec![c], "172.17.0.1");
    assert_eq!(endpoints.len(), 1);
    assert_eq!(endpoints[0].host, "192.168.1.10");
    assert_eq!(endpoints[0].port, 32100);
    assert!(endpoints[0].labels.is_none());
}

#[test]
fn host_mode_without_override_falls_back_to_gateway_ip() {
    let c = container(
        vec![
            ("com.docker.compose.service", "svc"),
            ("com.gateway.mode", "host"),
        ],
        vec![],
        vec![(8080, 32100)],
    );
    let discovery = DockerServiceDiscovery::new("svc");
    let endpoints = discovery.discover(&vec![c], "172.17.0.1");
    assert_eq!(endpoints.len(), 1);
    assert_eq!(endpoints[0].host, "172.17.0.1");
}

#[test]
fn bridge_mode_emits_one_endpoint_per_non_host_network() {
    let c = container(
        vec![("com.docker.compose.service", "svc"), ("com.gateway.mode", "bridge")],
        vec![("front", "172.18.0.2"), ("host", "10.0.0.1"), ("back", "172.19.0.2")],
        vec![(8080, 32100)],
    );
    let discovery = DockerServiceDiscovery::new("svc");
    let endpoints = discovery.discover(&vec![c], "172.17.0.1");
    assert_eq!(endpoints.len(), 2);
    assert_eq!(endpoints[0].host, "172.18.0.2");
    assert_eq!(endpoints[0].port, 8080);
    assert_eq!(endpoints[1].host, "172.19.0.2");
    assert_eq!(endpoints[1].port, 8080);
}

#[test]
fn discovery_filters_by_service_label() {
    let mine = container(
        vec![("com.docker.compose.service", "svc"), ("com.gateway.mode", "host")],
        vec![],
        vec![(1, 11)],
    );
    let other = container(
        vec![("com.docker.compose.service", "elsewhere"), ("com.gateway.mode", "host")],
        vec![],
        vec![(2, 22)],
    );
    let unlabeled = container(vec![], vec![], vec![(3, 33)]);
    let discovery = DockerServiceDiscovery::new("svc");
    let endpoints = discovery.discover(&vec![other, mine, unlabeled], "172.17.0.1");
    assert_eq!(endpoints.len(), 1);
    assert_eq!(endpoints[0].port, 11);
}

#[test]
fn container_without_ports_contributes_nothing() {
    let c = container(
        vec![("com.docker.compose.service", "svc"), ("com.gateway.mode", "host")],
        vec![],
        vec![],
    );
    let discovery = DockerServiceDiscovery::new("svc");
    assert!(discovery.discover(&vec![c], "172.17.0.1").is_empty());
}

#[test]
fn watcher_connects_missing_bridge_networks_only() {
    let c = container(
        vec![("com.gateway.connect.network", "true")],
        vec![("front", "172.18.0.2")],
        vec![],
    );
    assert!(container_wants_network_connect(&c));
    let nets = vec![
        NetworkRecord { name: "front".to_string(), driver: "bridge".to_string() },
        NetworkRecord { name: "back".to_string(), driver: "bridge".to_string() },
        NetworkRecord { name: "overlay1".to_string(), driver: "overlay".to_string() },
        NetworkRecord { name: String::new(), driver: "bridge".to_string() },
    ];
    assert_eq!(missing_bridge_networks(&c, &nets), vec!["back".to_string()]);

    let unmanaged = container(vec![("com.gateway.connect.network", "false")], vec![], vec![]);
    assert!(!container_wants_network_connect(&unmanaged));
}

#[test]
fn background_service_names_map_to_watcher_key() {
    let docker = BackgroundServer::from_name("docker".to_string());
    assert_eq!(background_service_key(&docker), Some(DOCKER_BACKGROUND_SERVICE_NAME));
    let other = BackgroundServer::from_name("cron".to_string());
    assert_eq!(background_service_key(&other), None);
}

#[test]
fn config_store_holds_the_boot_configuration() {
    let mut store = ConfigStore::new();
    init_config(
        &mut store,
        GatewayConfig {
            backgrounds: Some(vec!["docker".to_string()]),
            applications: None,
            load_balancers: None,
        },
    );
    let cfg = config(&store);
    assert_eq!(cfg.backgrounds.as_ref().unwrap().len(), 1);
    assert!(cfg.applications.is_none());
}
