use alternator_driver::config::BehaviorVersion;
use alternator_driver::{
    AlternatorConfig, CompressionAlgorithm, CompressionLevel, KeyRouteAffinityConfig,
    KeyRouteAffinityType, RequestCompression, ResponseCompression, ResponseCompressionAlgorithm,
    RoutingScope, UserAgent,
};

#[test]
fn config_remembers_builder_and_vice_versa() {
    let config = AlternatorConfig::builder()
        .request_compression(RequestCompression::enabled(
            CompressionAlgorithm::Zlib,
            CompressionLevel::default(),
            0,
        ))
        .user_agent(UserAgent::value("custom-client/1.2.3"))
        .behavior_version_latest()
        .build();

    assert!(config.optimize_headers().is_none());

    assert_eq!(
        config
            .request_compression()
            .expect("request compression is not set"),
        RequestCompression::enabled(CompressionAlgorithm::Zlib, CompressionLevel::default(), 0)
    );
    assert!(matches!(
        config.user_agent().expect("user agent is not set"),
        UserAgent::Value(value) if value == "custom-client/1.2.3"
    ));

    let config = config.to_builder().build();

    assert!(config.optimize_headers().is_none());

    assert_eq!(
        config
            .request_compression()
            .expect("request compression is not set"),
        RequestCompression::enabled(CompressionAlgorithm::Zlib, CompressionLevel::default(), 0)
    );
    assert!(matches!(
        config.user_agent().expect("user agent is not set"),
        UserAgent::Value(value) if value == "custom-client/1.2.3"
    ));
}

#[test]
fn operation_builder_records_fluent_methods() {
    let request_compression = RequestCompression::disabled();
    let response_compression = ResponseCompression::enabled(ResponseCompressionAlgorithm::Deflate);

    let builder = AlternatorConfig::operation_builder()
        .request_compression(request_compression.clone())
        .response_compression(response_compression.clone());

    assert_eq!(builder.request_compression, Some(request_compression));
    assert_eq!(builder.response_compression, Some(response_compression));
    assert_eq!(builder.preserve_float32_vectors, None);
}

#[test]
fn explicit_builder_credentials_provider_is_remembered() {
    let config = AlternatorConfig::builder()
        .with_credentials_provider()
        .behavior_version_latest()
        .build();

    assert!(config.has_credentials_provider());

    let mut builder = config.to_builder();
    builder.set_credentials_provider(false);
    assert!(builder.build().has_credentials_provider());
}

#[test]
fn require_auth_requires_credentials() {
    let config = AlternatorConfig::builder()
        .require_auth()
        .behavior_version_latest()
        .build();

    assert!(config.requires_auth());
}

#[test]
fn set_require_auth_false_restores_implicit_no_auth() {
    let mut builder = AlternatorConfig::builder().require_auth();

    builder.set_require_auth(false);
    let config = builder.behavior_version_latest().build();

    assert!(!config.requires_auth());
}

#[test]
fn allow_no_auth_is_remembered() {
    let config = AlternatorConfig::builder()
        .allow_no_auth()
        .behavior_version_latest()
        .build();

    assert!(config.allows_no_auth());
}

#[test]
fn incompatible_auth_options_can_be_told() {
    let allowing = AlternatorConfig::builder().allow_no_auth();
    assert!(allowing.refuses_require_auth());
    assert!(!allowing.refuses_allow_no_auth());
    let requiring = AlternatorConfig::builder().require_auth();
    assert!(requiring.refuses_allow_no_auth());
    assert!(!requiring.refuses_require_auth());
}

#[test]
fn endpoint_url_sets_and_clears_correctly() {
    let config = AlternatorConfig::builder()
        .endpoint_url("http://127.0.0.1:8000")
        .behavior_version_latest()
        .build();
    assert_eq!(config.seed_hosts(), Some(vec!["127.0.0.1".to_string()]));
    assert_eq!(config.scheme(), Some("http".to_string()));
    assert_eq!(config.port(), Some(8000));

    let mut new_builder = config.to_builder();
    new_builder.set_endpoint_url(None);
    let new_config = new_builder.build();

    assert_eq!(new_config.seed_hosts(), None);
    assert_eq!(new_config.scheme(), None);
    assert_eq!(new_config.port(), None);
    assert_eq!(new_config.endpoint_url(), None);
}

#[test]
fn endpoint_url_leaves_nothing_of_an_earlier_one() {
    let config = AlternatorConfig::builder()
        .endpoint_url("https://one.example.com:8043")
        .endpoint_url("http://two.example.com")
        .build();
    assert_eq!(
        config.seed_hosts(),
        Some(vec!["two.example.com".to_string()])
    );
    assert_eq!(config.scheme(), Some("http".to_string()));
    assert_eq!(config.port(), None);

    let config = config.to_builder().endpoint_url("not a URL").build();
    assert_eq!(config.seed_hosts(), None);
    assert_eq!(config.scheme(), None);
    assert_eq!(config.endpoint_url(), Some("not a URL"));
}

#[test]
fn endpoint_url_without_a_host_gives_no_seed() {
    let config = AlternatorConfig::builder()
        .endpoint_url("mailto:someone@example.com")
        .build();
    assert_eq!(config.seed_hosts(), None);
    assert_eq!(config.scheme(), None);
}

#[test]
fn setting_scheme_test() {
    let config = AlternatorConfig::builder()
        .scheme("https://")
        .behavior_version_latest()
        .build();

    assert_eq!(config.scheme(), Some("https".to_string()));

    let config = AlternatorConfig::builder()
        .scheme("http:")
        .behavior_version_latest()
        .build();

    assert_eq!(config.scheme(), Some("http".to_string()));

    let config = AlternatorConfig::builder()
        .scheme("http")
        .behavior_version_latest()
        .build();

    assert_eq!(config.scheme(), Some("http".to_string()));
}

#[test]
fn config_remembers_response_compression() {
    let config = AlternatorConfig::builder()
        .response_compression(ResponseCompression::enabled(
            ResponseCompressionAlgorithm::Gzip,
        ))
        .behavior_version_latest()
        .build();

    assert_eq!(
        config
            .response_compression()
            .expect("response_compression not set"),
        ResponseCompression::enabled(ResponseCompressionAlgorithm::Gzip)
    );

    // round-trip through to_builder
    let config = config.to_builder().build();

    assert_eq!(
        config
            .response_compression()
            .expect("response_compression not set after round-trip"),
        ResponseCompression::enabled(ResponseCompressionAlgorithm::Gzip)
    );
}

#[test]
fn config_response_compression_disabled_roundtrip() {
    let config = AlternatorConfig::builder()
        .response_compression(ResponseCompression::disabled())
        .behavior_version_latest()
        .build();

    assert_eq!(
        config
            .response_compression()
            .expect("response_compression not set"),
        ResponseCompression::disabled()
    );

    let config = config.to_builder().build();

    assert_eq!(
        config
            .response_compression()
            .expect("response_compression not set after round-trip"),
        ResponseCompression::disabled()
    );
}

#[test]
fn config_response_compression_unset_is_none() {
    let config = AlternatorConfig::builder()
        .behavior_version_latest()
        .build();

    assert!(config.response_compression().is_none());
}

#[test]
fn config_response_compression_default_is_disabled() {
    let rc = ResponseCompression::default();
    assert_eq!(rc.get(), None);
}

#[test]
fn response_compression_enabled_many() {
    let rc = ResponseCompression::enabled_many(vec![
        ResponseCompressionAlgorithm::Gzip,
        ResponseCompressionAlgorithm::Deflate,
    ]);
    assert_eq!(
        rc.get(),
        Some(
            [
                ResponseCompressionAlgorithm::Gzip,
                ResponseCompressionAlgorithm::Deflate,
            ]
            .as_slice()
        )
    );
}

#[test]
fn config_remembers_every_other_setting() {
    let mut builder = AlternatorConfig::builder();
    builder
        .set_optimize_headers(false)
        .set_active_interval(5)
        .set_idle_interval(7)
        .set_port(9)
        .set_seed_hosts(vec!["a".to_string(), "b".to_string()])
        .set_scheme("https:")
        .set_preserve_float32_vectors(true)
        .set_has_http_client(true)
        .set_has_region(true)
        .set_behavior_version(Some(BehaviorVersion::V2024_03_28))
        .set_routing_scope(
            RoutingScope::from_rack("dc1", "r1").with_fallback(RoutingScope::from_cluster()),
        )
        .set_key_route_affinity(
            KeyRouteAffinityConfig::builder()
                .with_type(KeyRouteAffinityType::Rmw)
                .with_pk_info("users", "id")
                .build(),
        )
        .set_without_user_agent();
    let config = builder.build().to_builder().build();

    assert_eq!(config.optimize_headers(), Some(false));
    assert_eq!(config.active_interval(), Some(5));
    assert_eq!(config.idle_interval(), Some(7));
    assert_eq!(config.port(), Some(9));
    assert_eq!(
        config.seed_hosts(),
        Some(vec!["a".to_string(), "b".to_string()])
    );
    assert_eq!(config.scheme(), Some("https".to_string()));
    assert_eq!(config.preserve_float32_vectors(), Some(true));
    assert!(config.has_http_client());
    assert!(config.has_region());
    assert_eq!(
        config.behavior_version(),
        Some(BehaviorVersion::V2024_03_28)
    );
    assert!(matches!(config.user_agent(), Some(UserAgent::Disabled)));
    let affinity = config.key_route_affinity().unwrap();
    assert_eq!(affinity.affinity_type, KeyRouteAffinityType::Rmw);
    assert_eq!(
        affinity.pk_info_per_table.get("users").map(String::as_str),
        Some("id")
    );
    let scope = config.routing_scope().unwrap();
    assert_eq!(scope.dc(), Some("dc1"));
    assert_eq!(scope.rack(), Some("r1"));
    assert!(!scope.is_cluster());
    assert!(scope.fallback().unwrap().is_cluster());
}

#[test]
fn later_behavior_versions_are_at_least_earlier_ones() {
    let all = [
        BehaviorVersion::V2023_11_09,
        BehaviorVersion::V2024_03_28,
        BehaviorVersion::V2025_01_17,
        BehaviorVersion::V2025_08_07,
        BehaviorVersion::V2026_01_12,
    ];
    for (i, version) in all.iter().enumerate() {
        for (j, other) in all.iter().enumerate() {
            assert_eq!(version.is_at_least(*other), i >= j);
        }
    }
    assert_eq!(BehaviorVersion::latest(), BehaviorVersion::V2026_01_12);
}
