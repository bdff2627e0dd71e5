use alternator_driver::client::try_from_conf;
use alternator_driver::discovery::{ClusterDiscovery, RefreshAction, RefreshOutcome};
use alternator_driver::live_nodes::{
    ensure_native_roots_are_usable, native_roots_are_usable, DiscoveryRegistration,
    LiveNodesBuildError, NativeRoots, NodeAddress, RefreshWait,
};
use alternator_driver::node_url::{build_node_url, build_seed_url, NodeUrl};
use alternator_driver::{AlternatorConfig, LiveNodes, RoutingScope};

fn roots() -> NativeRoots {
    NativeRoots {
        usable: true,
        errors: Vec::new(),
    }
}

fn try_new(config: &AlternatorConfig) -> Result<Option<LiveNodes>, LiveNodesBuildError> {
    let hosts = config.seed_hosts().unwrap_or_default();
    let ipv6 = hosts.iter().map(|h| h.contains("::")).collect();
    LiveNodes::try_new(config, &ipv6, &roots(), 0)
}

fn is_client_ok(config: &AlternatorConfig) -> bool {
    let hosts = config.seed_hosts().unwrap_or_default();
    let ipv6 = hosts.iter().map(|h| h.contains("::")).collect();
    try_from_conf(config, None, &ipv6, &roots(), 0).is_ok()
}

fn strings(hosts: &[&str]) -> Vec<String> {
    hosts.iter().map(|h| h.to_string()).collect()
}

fn test_config() -> AlternatorConfig {
    AlternatorConfig::builder()
        .behavior_version_latest()
        .endpoint_url("http://127.0.0.1:1")
        .build()
}

fn node(host: &str) -> NodeUrl {
    build_node_url("http", host, host.contains("::"), Some(8000)).unwrap()
}

fn hosts(nodes: &[NodeUrl]) -> Vec<&str> {
    nodes.iter().map(|n| n.host_str().unwrap()).collect()
}

fn addresses(addrs: &[&str]) -> Vec<NodeAddress> {
    addrs
        .iter()
        .map(|a| NodeAddress {
            addr: a.to_string(),
            ipv6: a.contains("::") && !a.starts_with('['),
        })
        .collect()
}

// ----- Set up -----

#[test]
fn empty_seed_hosts_with_an_endpoint_disable_discovery() {
    let config = AlternatorConfig::builder()
        .behavior_version_latest()
        .endpoint_url("http://127.0.0.1:8000")
        .seed_hosts(Vec::<String>::new())
        .build();

    assert!(try_new(&config).unwrap().is_none());
    assert!(is_client_ok(&config));
}

#[test]
fn direct_endpoint_validation_uses_the_endpoint_scheme() {
    for (endpoint, discovery_scheme, expected_scheme) in
        [("ftp://host", "http", "ftp"), ("ws://host", "https", "ws")]
    {
        let config = AlternatorConfig::builder()
            .behavior_version_latest()
            .endpoint_url(endpoint)
            .seed_hosts(Vec::<String>::new())
            .scheme(discovery_scheme)
            .build();

        assert!(matches!(
            try_new(&config),
            Err(LiveNodesBuildError::InvalidScheme(scheme))
                if scheme == expected_scheme
        ));
        assert!(!is_client_ok(&config));
    }

    let direct_http = AlternatorConfig::builder()
        .behavior_version_latest()
        .endpoint_url("http://host")
        .seed_hosts(Vec::<String>::new())
        .scheme("ftp")
        .build();
    assert!(try_new(&direct_http).unwrap().is_none());
    assert!(is_client_ok(&direct_http));
}

#[test]
fn custom_http_client_defers_direct_scheme_validation() {
    let mut builder = AlternatorConfig::builder()
        .behavior_version_latest()
        .endpoint_url("custom://host")
        .seed_hosts(Vec::<String>::new());
    builder.set_has_http_client(true);
    let config = builder.build();

    assert!(try_new(&config).unwrap().is_none());
    assert!(is_client_ok(&config));
}

#[test]
fn missing_seed_hosts_and_endpoint_are_rejected() {
    let config = AlternatorConfig::builder()
        .behavior_version_latest()
        .build();

    assert!(matches!(
        try_new(&config),
        Err(LiveNodesBuildError::MissingRoutingTarget)
    ));
}

#[test]
fn malformed_seed_host_is_refused_even_when_another_seed_is_valid() {
    let config = AlternatorConfig::builder()
        .behavior_version_latest()
        .scheme("http")
        .seed_hosts(strings(&["127.0.0.1", "127.0.0.1:invalid"]))
        .build();

    let error = try_new(&config).unwrap_err();
    assert!(matches!(
        &error,
        LiveNodesBuildError::InvalidSeedHost { seed_host, .. } if seed_host == "127.0.0.1:invalid"
    ));
    assert!(error
        .message()
        .starts_with("invalid seed host \"127.0.0.1:invalid\": "));
}

#[test]
fn seed_hosts_reject_url_components_and_ports() {
    for seed_host in [
        "127.0.0.1@dynamodb.us-east-1.amazonaws.com",
        "example.com/path",
        "example.com?query",
        "example.com#fragment",
        "example.com:8000",
    ] {
        let config = AlternatorConfig::builder()
            .behavior_version_latest()
            .scheme("http")
            .seed_hosts(strings(&[seed_host]))
            .build();

        assert!(matches!(
            try_new(&config),
            Err(LiveNodesBuildError::InvalidSeedHost { .. })
        ));
    }
}

#[test]
fn discovery_rejects_unsupported_and_url_shaped_schemes() {
    for scheme in ["ftp", "https://dynamodb.us-east-1.amazonaws.com/x"] {
        let config = AlternatorConfig::builder()
            .behavior_version_latest()
            .scheme(scheme)
            .seed_hosts(strings(&["127.0.0.1"]))
            .build();

        assert!(matches!(
            try_new(&config),
            Err(LiveNodesBuildError::InvalidScheme(invalid)) if invalid == scheme
        ));
    }
}

#[test]
fn ipv6_address_parsing() {
    let config = AlternatorConfig::builder()
        .behavior_version_latest()
        .endpoint_url("http://[::1]:8000")
        .build();
    let nodes = try_new(&config).unwrap().unwrap();
    let seed_urls = nodes.seed_urls();
    assert_eq!(seed_urls[0].scheme(), "http");
    assert_eq!(seed_urls[0].host_str(), Some("[::1]"));
    assert_eq!(seed_urls[0].port(), Some(8000));
    assert_eq!(seed_urls[0].as_str(), "http://[::1]:8000/");
}

#[test]
fn raw_ipv6_seed_host_is_bracketed() {
    let config = AlternatorConfig::builder()
        .behavior_version_latest()
        .scheme("http")
        .port(8000)
        .seed_hosts(strings(&["::1"]))
        .build();
    let nodes = try_new(&config).unwrap().unwrap();

    let seed_urls = nodes.seed_urls();
    assert_eq!(seed_urls[0].host_str(), Some("[::1]"));
    assert_eq!(seed_urls[0].as_str(), "http://[::1]:8000/");
}

#[test]
fn node_urls_carry_the_configured_port() {
    let url = build_node_url("http", "node-a.internal", false, Some(8000)).unwrap();
    assert_eq!(url.as_str(), "http://node-a.internal:8000/");
    assert_eq!(url.port_or_known_default(), Some(8000));
    // The default port is not written.
    let url = build_node_url("http", "node-a.internal", false, Some(80)).unwrap();
    assert_eq!(url.as_str(), "http://node-a.internal/");
    assert_eq!(url.port(), None);
    assert_eq!(url.port_or_known_default(), Some(80));
    let url = build_seed_url("https", "[::1]", true, None).unwrap();
    assert_eq!(url.as_str(), "https://[::1]/");
    assert_eq!(url.port_or_known_default(), Some(443));
    assert!(build_node_url("http", "", false, None).is_err());
}

#[test]
fn https_seeds_need_usable_certificates() {
    let config = AlternatorConfig::builder()
        .scheme("HTTPS")
        .seed_hosts(strings(&["127.0.0.1"]))
        .build();
    let unusable = NativeRoots {
        usable: false,
        errors: strings(&["one", "two"]),
    };
    let error = LiveNodes::try_new(&config, &vec![false], &unusable, 0).unwrap_err();
    assert_eq!(
        error.message(),
        "failed to configure discovery TLS: one; two"
    );
    let none = NativeRoots {
        usable: false,
        errors: Vec::new(),
    };
    let error = LiveNodes::try_new(&config, &vec![false], &none, 0).unwrap_err();
    assert_eq!(
        error.message(),
        "failed to configure discovery TLS: no usable native CA certificates were found"
    );
    // Over plain text they are not needed.
    let config = config.to_builder().scheme("http").build();
    let nodes = LiveNodes::try_new(&config, &vec![false], &none, 0)
        .unwrap()
        .unwrap();
    assert!(!nodes.has_usable_native_roots());
    assert_eq!(nodes.scheme(), "http");
    assert!(!native_roots_are_usable(&none));
    assert!(ensure_native_roots_are_usable(&none).is_err());
    assert!(ensure_native_roots_are_usable(&roots()).is_ok());
}

#[test]
fn messages_of_set_up_errors() {
    assert_eq!(
        LiveNodesBuildError::MissingRoutingTarget.message(),
        "no Alternator routing target configured; set endpoint_url or non-empty seed_hosts"
    );
    assert_eq!(
        LiveNodesBuildError::InvalidScheme("f\"tp".to_string()).message(),
        "invalid Alternator transport scheme \"f\\\"tp\": expected http or https"
    );
    assert_eq!(
        LiveNodesBuildError::HttpClient("boom".to_string()).message(),
        "failed to build the HTTP client for live-node discovery: boom"
    );
}

// ----- The discovery task -----

const FIRST: DiscoveryRegistration = DiscoveryRegistration {
    runtime: 1,
    token: 10,
};
const SECOND: DiscoveryRegistration = DiscoveryRegistration {
    runtime: 2,
    token: 11,
};

#[test]
fn start_without_runtime_does_not_panic() {
    let nodes = try_new(&test_config()).unwrap().unwrap();
    assert!(!nodes.ensure_discovery_started(None, false));
}

#[test]
fn start_on_first_access() {
    let mut nodes = try_new(&test_config()).unwrap().unwrap();
    assert!(!nodes.ensure_discovery_started(None, false));
    assert!(nodes.ensure_discovery_started(Some(1), false));
    assert_eq!(nodes.register_discovery(FIRST, 5), None);
    assert!(!nodes.ensure_discovery_started(Some(1), false));
}

#[test]
fn healthy_discovery_owner_is_stable_across_runtimes() {
    let mut nodes = try_new(&test_config()).unwrap().unwrap();
    nodes.register_discovery(FIRST, 0);
    for _ in 0..10 {
        assert!(!nodes.ensure_discovery_started(Some(2), false));
    }
}

#[test]
fn discovery_restarts_after_its_runtime_is_dropped() {
    let mut nodes = try_new(&test_config()).unwrap().unwrap();
    nodes.register_discovery(FIRST, 0);
    // The task's own end clears its registration.
    nodes.unregister_discovery(FIRST);
    assert!(nodes.ensure_discovery_started(Some(2), false));
}

#[test]
fn first_access_hands_discovery_off_after_background_runtime_shutdown() {
    let mut nodes = try_new(&test_config()).unwrap().unwrap();
    nodes.register_discovery(FIRST, 0);
    assert!(nodes.ensure_discovery_started(Some(2), true));
    assert_eq!(nodes.register_discovery(SECOND, 0), Some(FIRST));
    assert!(!nodes.ensure_discovery_started(Some(2), true));
}

#[test]
fn stale_task_guard_does_not_clear_replacement_registration() {
    let mut nodes = try_new(&test_config()).unwrap().unwrap();
    nodes.register_discovery(FIRST, 0);
    nodes.register_discovery(SECOND, 0);

    nodes.unregister_discovery(FIRST);
    assert!(!nodes.ensure_discovery_started(Some(2), false));

    nodes.unregister_discovery(SECOND);
    assert!(nodes.ensure_discovery_started(Some(2), false));
}

#[test]
fn the_refresh_slows_down_without_requests_and_is_woken_by_one() {
    let config = test_config()
        .to_builder()
        .active_interval(10)
        .idle_interval(100)
        .build();
    let mut nodes = try_new(&config).unwrap().unwrap();
    assert_eq!(nodes.wait_after_refresh(99), RefreshWait::Active(10));
    assert_eq!(nodes.wait_after_refresh(100), RefreshWait::Idle(100));
    nodes.mark_activity(100);
    assert!(!nodes.take_wake());
    nodes.mark_activity(201);
    assert!(nodes.take_wake());
    assert!(!nodes.take_wake());
    assert_eq!(nodes.wait_after_refresh(300), RefreshWait::Active(10));
    // A clock that went back counts as no time.
    nodes.mark_activity(0);
    assert!(!nodes.take_wake());
}

#[test]
fn every_read_path_counts_as_activity() {
    let config = test_config().to_builder().idle_interval(100).build();
    let mut nodes = try_new(&config).unwrap().unwrap();
    nodes.get_live_nodes(50);
    assert!(!nodes.take_wake());
    assert!(matches!(nodes.wait_after_refresh(149), RefreshWait::Active(_)));
    nodes.get_next_node_round_robin(&Vec::new(), 200);
    assert!(nodes.take_wake());
    assert!(matches!(nodes.wait_after_refresh(299), RefreshWait::Active(_)));
    nodes.get_live_nodes(301);
    assert!(nodes.take_wake());
    nodes.register_discovery(FIRST, 500);
    assert!(nodes.take_wake());
    assert!(matches!(nodes.wait_after_refresh(599), RefreshWait::Active(_)));
}

#[test]
fn default_intervals_are_a_second_and_a_minute() {
    let nodes = try_new(&test_config()).unwrap().unwrap();
    assert_eq!(
        nodes.wait_after_refresh(0),
        RefreshWait::Active(1_000_000_000)
    );
    assert_eq!(
        nodes.wait_after_refresh(60_000_000_000),
        RefreshWait::Idle(60_000_000_000)
    );
}

// ----- Round robin -----

#[test]
fn round_robin_skips_used_nodes() {
    let config = AlternatorConfig::builder()
        .seed_hosts(strings(&["a", "b", "c"]))
        .port(8000)
        .build();
    let mut nodes = try_new(&config).unwrap().unwrap();
    let live = nodes.get_live_nodes(0);
    assert_eq!(hosts(&live), vec!["a", "b", "c"]);
    let used = vec![live[0].href.clone()];
    assert_eq!(
        nodes
            .get_next_node_round_robin(&used, 0)
            .unwrap()
            .host_str(),
        Some("b")
    );
    assert_eq!(
        nodes
            .get_next_node_round_robin(&Vec::new(), 0)
            .unwrap()
            .host_str(),
        Some("b")
    );
    assert_eq!(
        nodes
            .get_next_node_round_robin(&used, 0)
            .unwrap()
            .host_str(),
        Some("c")
    );
    let all = live.iter().map(|n| n.href.clone()).collect();
    assert!(nodes.get_next_node_round_robin(&all, 0).is_none());
}

// ----- Answers -----

#[test]
fn raw_ipv6_seed_discovers_raw_ipv6_node() {
    let config = AlternatorConfig::builder()
        .scheme("http")
        .port(8000)
        .seed_hosts(strings(&["::1"]))
        .build();
    let nodes = try_new(&config).unwrap().unwrap();
    let found = nodes.nodes_from_answer(&addresses(&["::1"]));
    assert_eq!(found[0].as_str(), "http://[::1]:8000/");
}

#[test]
fn dns_entrypoint_discovers_dns_node_records() {
    let nodes = try_new(&test_config()).unwrap().unwrap();
    let found = nodes.nodes_from_answer(&addresses(&["node-a.internal", "localhost"]));
    assert_eq!(hosts(&found), vec!["localhost", "node-a.internal"]);
}

#[test]
fn dns_entrypoint_applies_configured_port_to_dns_node_records() {
    let config = AlternatorConfig::builder()
        .scheme("http")
        .port(8042)
        .seed_hosts(strings(&["localhost"]))
        .build();
    let nodes = try_new(&config).unwrap().unwrap();
    let found = nodes.nodes_from_answer(&addresses(&["localhost", "node-a.internal"]));
    assert_eq!(
        found
            .iter()
            .map(|url| (url.host_str().unwrap().to_string(), url.port()))
            .collect::<Vec<_>>(),
        vec![
            ("localhost".to_string(), Some(8042)),
            ("node-a.internal".to_string(), Some(8042))
        ]
    );
}

#[test]
fn addresses_that_make_no_url_are_left_out() {
    let nodes = try_new(&test_config()).unwrap().unwrap();
    let found = nodes.nodes_from_answer(&addresses(&["b", "a b", "a"]));
    assert_eq!(hosts(&found), vec!["a", "b"]);
}

#[test]
fn addresses_in_brackets_are_kept_as_they_are() {
    let nodes = try_new(&test_config()).unwrap().unwrap();
    let found = nodes.nodes_from_answer(&addresses(&["[::1]", "::2"]));
    assert_eq!(hosts(&found), vec!["[::2]", "[::1]"]);
}

// ----- Refresh -----

fn scoped_nodes(scope: RoutingScope, seeds: &[&str]) -> LiveNodes {
    let config = AlternatorConfig::builder()
        .scheme("http")
        .port(8000)
        .seed_hosts(strings(seeds))
        .routing_scope(scope)
        .build();
    try_new(&config).unwrap().unwrap()
}

#[test]
fn a_list_that_is_not_empty_ends_the_refresh() {
    let nodes = scoped_nodes(RoutingScope::from_datacenter("dc1"), &["a"]);
    let mut refresh = nodes.update_live_nodes();
    assert!(matches!(refresh.next_action(), RefreshAction::AskNode(n) if n.host_str() == Some("a")));
    assert_eq!(refresh.scope().dc(), Some("dc1"));
    let outcome = refresh.on_answer(Some(vec![node("x"), node("y")]));
    assert!(matches!(outcome, RefreshOutcome::Replace(found) if hosts(&found) == vec!["x", "y"]));
}

#[test]
fn an_empty_list_falls_back_to_the_next_scope() {
    let scope = RoutingScope::from_rack("dc1", "r1")
        .with_fallback(RoutingScope::from_datacenter("dc1"))
        .with_fallback(RoutingScope::from_cluster());
    let nodes = scoped_nodes(scope, &["a"]);
    let mut refresh = nodes.update_live_nodes();
    assert!(matches!(refresh.next_action(), RefreshAction::AskNode(_)));
    assert!(matches!(
        refresh.on_answer(Some(Vec::new())),
        RefreshOutcome::Continue
    ));
    assert_eq!(
        (refresh.scope().dc(), refresh.scope().rack()),
        (Some("dc1"), None)
    );
    assert!(matches!(refresh.next_action(), RefreshAction::AskNode(_)));
    assert!(matches!(
        refresh.on_answer(Some(Vec::new())),
        RefreshOutcome::Continue
    ));
    assert!(matches!(refresh.next_action(), RefreshAction::AskCluster));
    assert!(matches!(
        refresh.on_answer(Some(Vec::new())),
        RefreshOutcome::Unchanged
    ));
}

#[test]
fn a_failed_cluster_discovery_changes_nothing() {
    let nodes = scoped_nodes(RoutingScope::from_cluster(), &["a"]);
    let mut refresh = nodes.update_live_nodes();
    assert!(matches!(refresh.next_action(), RefreshAction::AskCluster));
    assert!(matches!(
        refresh.on_answer(None),
        RefreshOutcome::Unchanged
    ));
}

#[test]
fn refresh_recovers_through_original_raw_ipv6_seed() {
    let mut nodes = scoped_nodes(RoutingScope::from_datacenter("dc1"), &["::1"]);
    nodes.store_live_nodes(vec![node("dead-a"), node("dead-b")]);
    let mut refresh = nodes.update_live_nodes();
    let mut asked = Vec::new();
    loop {
        match refresh.next_action() {
            RefreshAction::AskNode(n) => {
                let host = n.host_str().unwrap().to_string();
                let answer = if host == "[::1]" {
                    Some(vec![node("::1")])
                } else {
                    None
                };
                asked.push(host);
                if let RefreshOutcome::Replace(found) = refresh.on_answer(answer) {
                    nodes.store_live_nodes(found);
                    break;
                }
            }
            _ => panic!("the refresh ended without asking the seed"),
        }
    }
    asked.sort();
    assert_eq!(asked, vec!["[::1]", "dead-a", "dead-b"]);
    assert_eq!(nodes.get_live_nodes(0)[0].host_str(), Some("[::1]"));
}

#[test]
fn all_unavailable_dns_records_return_without_clearing_seed() {
    let mut nodes = scoped_nodes(RoutingScope::from_datacenter("dc1"), &["dual.test"]);
    let mut refresh = nodes.update_live_nodes();
    // The node is asked as a live node, and once more as a seed.
    for _ in 0..2 {
        assert!(matches!(refresh.next_action(), RefreshAction::AskNode(_)));
        assert!(matches!(refresh.on_answer(None), RefreshOutcome::Continue));
    }
    assert!(matches!(refresh.next_action(), RefreshAction::End));
    assert_eq!(nodes.get_live_nodes(0)[0].host_str(), Some("dual.test"));
}

#[test]
fn cluster_discovery_unites_answers_and_passes_over_known_nodes() {
    let mut discovery = ClusterDiscovery::new(vec![node("a"), node("b"), node("c"), node("d")]);
    assert_eq!(
        discovery.next_candidate().unwrap().host_str(),
        Some("a")
    );
    discovery.on_answer(Some(vec![node("c"), node("b"), node("c")]));
    // The other two are known already.
    assert_eq!(
        discovery.next_candidate().unwrap().host_str(),
        Some("d")
    );
    discovery.on_answer(None);
    assert!(discovery.next_candidate().is_none());
    assert_eq!(hosts(&discovery.into_nodes().unwrap()), vec!["b", "c"]);
}

#[test]
fn cluster_discovery_without_answers_finds_nothing() {
    let mut discovery = ClusterDiscovery::new(vec![node("a")]);
    discovery.next_candidate();
    discovery.on_answer(None);
    assert!(discovery.next_candidate().is_none());
    assert!(discovery.into_nodes().is_none());
}

#[test]
fn cluster_candidates_are_the_live_nodes_and_the_seeds_each_once() {
    let mut nodes = scoped_nodes(RoutingScope::from_cluster(), &["a", "b"]);
    nodes.store_live_nodes(vec![node("c"), node("b")]);
    let candidates = nodes.cluster_discovery_candidates();
    let mut found = hosts(&candidates);
    found.sort();
    assert_eq!(found, vec!["a", "b", "c"]);
    let mut discovery = nodes.discover_cluster_live_nodes();
    let mut asked = Vec::new();
    while let Some(n) = discovery.next_candidate() {
        asked.push(n.host_str().unwrap().to_string());
    }
    asked.sort();
    assert_eq!(asked, vec!["a", "b", "c"]);
}
