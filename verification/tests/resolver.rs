use alternator_driver::keyrouting::affinity_config::PartitionKeyNames;
use alternator_driver::keyrouting::resolver::{
    apply_jitter, calculate_jittered_delay, is_permanent_failure, DescribeFailure,
    DescribeOutcome, DiscoveryStep, FailureRecord, KeySchemaElement, PartitionKeyResolver,
    ServiceError, MAX_RETRIES, PERMANENT_FAILURE_COOLDOWN_MS,
};

fn make_resolver() -> PartitionKeyResolver {
    PartitionKeyResolver::new(&PartitionKeyNames::new())
}

fn transient() -> DescribeOutcome {
    DescribeOutcome::Failed(DescribeFailure {
        service_error: None,
        status: None,
    })
}

fn not_found() -> DescribeOutcome {
    DescribeOutcome::Failed(DescribeFailure {
        service_error: Some(ServiceError {
            is_resource_not_found: true,
            code: None,
        }),
        status: Some(400),
    })
}

fn described(schema: &[(&str, bool)]) -> DescribeOutcome {
    DescribeOutcome::Described(Some(
        schema
            .iter()
            .map(|(name, is_hash)| KeySchemaElement {
                attribute_name: name.to_string(),
                is_hash: *is_hash,
            })
            .collect(),
    ))
}

// ----- FailureRecord -----

#[test]
fn transient_failure_can_always_retry() {
    let rec = FailureRecord {
        timestamp_ms: 1000,
        permanent: false,
    };
    assert!(rec.can_retry(1000));
}

#[test]
fn fresh_permanent_failure_cannot_retry() {
    let rec = FailureRecord {
        timestamp_ms: 1000,
        permanent: true,
    };
    assert!(!rec.can_retry(1000));
}

#[test]
fn old_permanent_failure_can_retry() {
    let rec = FailureRecord {
        timestamp_ms: 1000,
        permanent: true,
    };
    assert!(rec.can_retry(1000 + PERMANENT_FAILURE_COOLDOWN_MS + 100));
    // The cooldown itself is not over yet at its end.
    assert!(!rec.can_retry(1000 + PERMANENT_FAILURE_COOLDOWN_MS));
    // A clock that went back counts as no time.
    assert!(!rec.can_retry(0));
}

// ----- Constructor / preconfigured map -----

#[test]
fn preconfigured_pk_info_populates_cache() {
    let mut pk_info = PartitionKeyNames::new();
    pk_info.insert("users".to_string(), "user_id".to_string());
    pk_info.insert("orders".to_string(), "order_id".to_string());

    let resolver = PartitionKeyResolver::new(&pk_info);

    assert_eq!(
        resolver.get_partition_key("users").as_deref(),
        Some("user_id"),
    );
    assert_eq!(
        resolver.get_partition_key("orders").as_deref(),
        Some("order_id"),
    );
    assert!(resolver.get_partition_key("unknown").is_none());
}

#[test]
fn empty_preconfigured_map_yields_empty_cache() {
    let resolver = PartitionKeyResolver::new(&PartitionKeyNames::new());
    assert!(resolver.get_partition_key("anything").is_none());
}

// ----- trigger_discovery -----

#[test]
fn trigger_discovery_no_op_when_cached() {
    let mut pk_info = PartitionKeyNames::new();
    pk_info.insert("users".to_string(), "user_id".to_string());
    let mut resolver = PartitionKeyResolver::new(&pk_info);
    assert!(resolver.trigger_discovery("users", 0, true).is_none());
    assert!(!resolver.is_in_progress("users"));
    assert!(resolver.failure_of("users").is_none());
}

#[test]
fn trigger_discovery_no_op_when_in_cooldown() {
    let mut resolver = make_resolver();
    let mut discovery = resolver.trigger_discovery("users", 0, true).unwrap();
    assert_eq!(
        resolver.discover_with_retry(&mut discovery, not_found(), 50),
        DiscoveryStep::Finished
    );
    assert!(resolver.trigger_discovery("users", 51, true).is_none());
    assert!(resolver
        .trigger_discovery("users", 50 + PERMANENT_FAILURE_COOLDOWN_MS, true)
        .is_none());
    assert!(!resolver.is_in_progress("users"));
    let failure = resolver.failure_of("users").unwrap();
    assert_eq!((failure.timestamp_ms, failure.permanent), (50, true));
}

#[test]
fn trigger_discovery_no_op_when_already_in_progress() {
    let mut resolver = make_resolver();
    assert!(resolver.trigger_discovery("users", 0, true).is_some());
    assert!(resolver.trigger_discovery("users", 0, true).is_none());
    assert!(resolver.is_in_progress("users"));
    assert!(resolver.failure_of("users").is_none());
    // Other tables are not held up.
    assert!(resolver.trigger_discovery("orders", 0, true).is_some());
}

#[test]
fn expired_cooldown_clears_failure_and_proceeds() {
    let mut resolver = make_resolver();
    let mut discovery = resolver.trigger_discovery("users", 0, true).unwrap();
    resolver.discover_with_retry(&mut discovery, not_found(), 0);
    assert!(resolver
        .trigger_discovery("users", PERMANENT_FAILURE_COOLDOWN_MS + 100, true)
        .is_some());
    assert!(resolver.failure_of("users").is_none());
    assert!(resolver.is_in_progress("users"));
    // The failure is forgotten: once given up, the table is eligible at once.
    resolver.abandon("users");
    assert!(resolver.trigger_discovery("users", 0, true).is_some());
}

#[test]
fn concurrent_triggers_for_same_table_dedup() {
    let mut resolver = make_resolver();
    let started = (0..10)
        .filter(|_| resolver.trigger_discovery("users", 0, true).is_some())
        .count();
    assert_eq!(started, 1);
}

#[test]
fn request_without_tokio_runtime_does_not_panic() {
    let mut resolver = make_resolver();
    assert!(resolver.trigger_discovery("fake-table", 0, false).is_none());
    // Nothing was claimed.
    assert!(resolver.trigger_discovery("fake-table", 0, true).is_some());
}

// ----- discover_with_retry -----

#[test]
fn discovered_partition_key_is_cached() {
    let mut resolver = make_resolver();
    let mut discovery = resolver.trigger_discovery("users", 0, true).unwrap();
    assert_eq!(discovery.table_name, "users");
    let step = resolver.discover_with_retry(
        &mut discovery,
        described(&[("sk", false), ("pk", true), ("other", true)]),
        0,
    );
    assert_eq!(step, DiscoveryStep::Finished);
    assert_eq!(resolver.get_partition_key("users").as_deref(), Some("pk"));
    assert!(resolver.trigger_discovery("users", 0, true).is_none());
}

#[test]
fn table_without_a_partition_key_fails_permanently() {
    for outcome in [
        described(&[("sk", false)]),
        described(&[]),
        DescribeOutcome::Described(None),
    ] {
        let mut resolver = make_resolver();
        let mut discovery = resolver.trigger_discovery("users", 0, true).unwrap();
        assert_eq!(
            resolver.discover_with_retry(&mut discovery, outcome, 0),
            DiscoveryStep::Finished
        );
        assert!(resolver.get_partition_key("users").is_none());
        assert!(resolver.trigger_discovery("users", 1, true).is_none());
    }
}

#[test]
fn transient_failures_are_retried_with_backoff_and_then_given_up() {
    let mut resolver = make_resolver();
    let mut discovery = resolver.trigger_discovery("users", 0, true).unwrap();
    for base in [100u64, 200, 400] {
        match resolver.discover_with_retry(&mut discovery, transient(), 0) {
            DiscoveryStep::RetryAfter(delay) => {
                assert!(delay >= base - base / 5 && delay <= base + base / 5);
            }
            DiscoveryStep::Finished => panic!("there are retries left"),
        }
        assert!(resolver.trigger_discovery("users", 0, true).is_none());
    }
    assert_eq!(discovery.attempt, MAX_RETRIES);
    assert_eq!(
        resolver.discover_with_retry(&mut discovery, transient(), 0),
        DiscoveryStep::Finished
    );
    // A transient failure does not keep the table from another discovery.
    assert!(resolver.trigger_discovery("users", 0, true).is_some());
}

#[test]
fn permanent_failures_are_told_from_transient_ones() {
    let failure = |code: Option<&str>, status| DescribeFailure {
        service_error: Some(ServiceError {
            is_resource_not_found: false,
            code: code.map(str::to_string),
        }),
        status,
    };
    assert!(is_permanent_failure(&failure(
        Some("AccessDeniedException"),
        Some(400)
    )));
    assert!(is_permanent_failure(&failure(
        Some("ValidationException"),
        Some(400)
    )));
    assert!(!is_permanent_failure(&failure(
        Some("ThrottlingException"),
        Some(400)
    )));
    assert!(!is_permanent_failure(&failure(None, Some(500))));
    assert!(is_permanent_failure(&DescribeFailure {
        service_error: None,
        status: Some(403),
    }));
    assert!(!is_permanent_failure(&DescribeFailure {
        service_error: None,
        status: None,
    }));
}

// ----- Jitter -----

#[test]
fn jittered_delay_within_bounds() {
    let base = 100u64;
    for _ in 0..1000 {
        let d = calculate_jittered_delay(base);
        assert!(d >= 1, "delay must be at least 1ms, got {d}");
        assert!(d <= 120, "delay must be within +20%, got {d}");
        assert!(d >= 80, "delay must be within -20%, got {d}");
    }
}

#[test]
fn jittered_delay_varies() {
    let first = calculate_jittered_delay(2000);
    assert!((0..1000).any(|_| calculate_jittered_delay(2000) != first));
}

#[test]
fn jittered_delay_handles_small_base() {
    // A fifth of these is less than a millisecond.
    assert_eq!(calculate_jittered_delay(1), 1);
    assert_eq!(calculate_jittered_delay(4), 4);
}

#[test]
fn jittered_delay_never_returns_zero() {
    // Even with negative jitter, the minimum is clamped to 1.
    for base in [1, 2, 4, 8, 16, 100, 1000] {
        let d = calculate_jittered_delay(base);
        assert!(d >= 1, "base {base} produced zero delay");
    }
}

#[test]
fn jitter_is_added_and_clamped() {
    assert_eq!(apply_jitter(100, -20), 80);
    assert_eq!(apply_jitter(100, 20), 120);
    assert_eq!(apply_jitter(5, -5), 1);
    assert_eq!(apply_jitter(5, -9), 1);
}
