use alternator_driver::client::{
    try_from_conf, AlternatorClientBuildError, ClientNodes, ClientPlan, Routing, Transport,
};
use alternator_driver::config::BehaviorVersion;
use alternator_driver::live_nodes::NativeRoots;
use alternator_driver::{
    AlternatorConfig, KeyRouteAffinityConfig, KeyRouteAffinityType, LiveNodes, UserAgent,
};

fn roots(usable: bool) -> NativeRoots {
    NativeRoots {
        usable,
        errors: Vec::new(),
    }
}

fn strings(hosts: &[&str]) -> Vec<String> {
    hosts.iter().map(|h| h.to_string()).collect()
}

fn plan_with(
    config: &AlternatorConfig,
    usable: bool,
) -> Result<ClientPlan, AlternatorClientBuildError> {
    let count = config.seed_hosts().map_or(0, |h| h.len());
    try_from_conf(config, None, &vec![false; count], &roots(usable), 0)
}

fn plan(config: &AlternatorConfig) -> Result<ClientPlan, AlternatorClientBuildError> {
    plan_with(config, true)
}

fn direct(endpoint: &str) -> AlternatorConfig {
    AlternatorConfig::builder()
        .behavior_version_latest()
        .endpoint_url(endpoint)
        .seed_hosts(Vec::new())
        .build()
}

#[test]
fn test_client_adds_hooks_to_inner_client() {
    let plan = plan(
        &AlternatorConfig::builder()
            .behavior_version_latest()
            .endpoint_url("http://127.0.0.1:8000")
            .build(),
    )
    .unwrap();

    assert!(plan.set_default_region);
    assert!(plan.interceptor.optimize_headers);
    assert!(plan.interceptor.request_compression.get().is_none());
    assert!(plan.interceptor.response_compression.get().is_none());
    assert!(matches!(plan.interceptor.user_agent, UserAgent::Default));
    assert!(!plan.interceptor.preserve_auth_headers);
    assert!(!plan.interceptor.preserve_float32_vectors);
    assert!(matches!(plan.routing, Routing::RoundRobin));
    assert!(matches!(plan.nodes, ClientNodes::Created(nodes) if nodes.scheme() == "http"));
    assert!(plan.allow_no_auth);
}

#[test]
fn try_from_conf_honors_sdk_behavior_version_default() {
    let plan = plan(
        &AlternatorConfig::builder()
            .endpoint_url("http://127.0.0.1:8000")
            .seed_hosts(Vec::new())
            .build(),
    )
    .unwrap();

    assert_eq!(plan.transport, Transport::Unchanged);
    assert!(matches!(plan.nodes, ClientNodes::Absent));
    assert!(matches!(plan.routing, Routing::Unrouted));
}

#[test]
fn try_from_conf_rejects_missing_or_invalid_routing_configuration() {
    let missing = plan(
        &AlternatorConfig::builder()
            .behavior_version_latest()
            .build(),
    )
    .err().unwrap();
    assert!(missing.message().contains("no Alternator routing target"));
    assert!(missing
        .message()
        .starts_with("failed to configure Alternator routing: "));

    let invalid = plan(
        &AlternatorConfig::builder()
            .behavior_version_latest()
            .scheme("http")
            .seed_hosts(strings(&["127.0.0.1:invalid"]))
            .build(),
    )
    .err().unwrap();
    assert!(invalid.message().contains("invalid seed host"));

    let invalid_scheme = plan(
        &AlternatorConfig::builder()
            .behavior_version_latest()
            .scheme("https://dynamodb.us-east-1.amazonaws.com/x")
            .seed_hosts(strings(&["127.0.0.1"]))
            .build(),
    )
    .err().unwrap();
    assert!(invalid_scheme
        .message()
        .contains("invalid Alternator transport scheme"));

    let invalid_direct = plan(&direct("not a URL")).err().unwrap();
    assert!(invalid_direct
        .message()
        .contains("no Alternator routing target"));

    for endpoint in ["ftp://host", "ws://host"] {
        let unsupported_direct = plan(&direct(endpoint)).err().unwrap();
        assert!(unsupported_direct
            .message()
            .contains("invalid Alternator transport scheme"));
    }
}

#[test]
fn unusable_native_roots_fail_https_construction_without_panicking() {
    let error = plan_with(&direct("https://127.0.0.1:8043"), false).err().unwrap();
    assert_eq!(
        error.message(),
        "failed to configure SDK TLS: no usable native CA certificates were found"
    );
    let error = plan_with(
        &AlternatorConfig::builder()
            .endpoint_url("https://127.0.0.1:8043")
            .build(),
        false,
    )
    .err().unwrap();
    assert!(error.message().contains("failed to configure discovery TLS"));
    // The caller's HTTP client has certificates of its own.
    let mut builder = direct("https://127.0.0.1:8043").to_builder();
    builder.set_has_http_client(true);
    let config = builder.build();
    assert_eq!(
        plan_with(&config, false).unwrap().transport,
        Transport::Unchanged
    );
}

#[test]
fn plain_text_without_certificates_gets_a_connector_without_tls() {
    for config in [
        direct("http://127.0.0.1:8000"),
        AlternatorConfig::builder()
            .endpoint_url("http://127.0.0.1:8000")
            .build(),
    ] {
        assert_eq!(
            plan_with(&config, false).unwrap().transport,
            Transport::Supplied {
                use_tls: false,
                proxy_from_env: true
            }
        );
        assert_eq!(
            plan_with(&config, true).unwrap().transport,
            Transport::Unchanged
        );
    }
}

#[test]
fn older_behavior_versions_get_a_connector() {
    for (version, proxy_from_env) in [
        (BehaviorVersion::V2023_11_09, false),
        (BehaviorVersion::V2024_03_28, false),
        (BehaviorVersion::V2025_01_17, false),
        (BehaviorVersion::V2025_08_07, true),
    ] {
        let config = direct("https://127.0.0.1:8043")
            .to_builder()
            .behavior_version(version)
            .build();
        assert_eq!(
            plan(&config).unwrap().transport,
            Transport::Supplied {
                use_tls: true,
                proxy_from_env
            }
        );
    }
}

#[test]
fn unsigned_requests_are_permitted_only_where_nothing_speaks_against_it() {
    let base = direct("http://127.0.0.1:8000");
    assert!(plan(&base).unwrap().allow_no_auth);
    let required = base.to_builder().require_auth().build();
    assert!(!plan(&required).unwrap().allow_no_auth);
    let allowed = base.to_builder().allow_no_auth().build();
    assert!(!plan(&allowed).unwrap().allow_no_auth);
    let signed = base.to_builder().with_credentials_provider().build();
    let plan = plan(&signed).unwrap();
    assert!(!plan.allow_no_auth);
    assert!(plan.interceptor.preserve_auth_headers);
}

#[test]
fn affinity_routes_by_partition_key_unless_it_is_disabled() {
    let with = |affinity_type| {
        let config = AlternatorConfig::builder()
            .endpoint_url("http://127.0.0.1:8000")
            .key_route_affinity(KeyRouteAffinityConfig::of_type(affinity_type))
            .build();
        plan(&config).unwrap().routing
    };
    assert!(matches!(
        with(KeyRouteAffinityType::Rmw),
        Routing::Affinity(c) if c.affinity_type == KeyRouteAffinityType::Rmw
    ));
    assert!(matches!(
        with(KeyRouteAffinityType::Disabled),
        Routing::RoundRobin
    ));
    let config = direct("http://127.0.0.1:8000")
        .to_builder()
        .key_route_affinity(KeyRouteAffinityConfig::of_type(KeyRouteAffinityType::Rmw))
        .build();
    assert!(matches!(plan(&config).unwrap().routing, Routing::Unrouted));
}

#[test]
fn test_live_nodes_sharing() {
    let config = AlternatorConfig::builder()
        .behavior_version_latest()
        .endpoint_url("http://127.0.0.1:8000")
        .build();
    let live_nodes = LiveNodes::try_new(&config, &vec![false], &roots(true), 0)
        .unwrap()
        .unwrap();

    // A configuration without any target is enough.
    let config2 = AlternatorConfig::builder()
        .behavior_version_latest()
        .build();
    let plan = try_from_conf(
        &config2,
        Some(&live_nodes),
        &Vec::new(),
        &roots(true),
        0,
    )
    .unwrap();
    assert!(matches!(plan.nodes, ClientNodes::Shared));
    assert!(matches!(plan.routing, Routing::RoundRobin));
}
