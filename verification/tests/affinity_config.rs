use alternator_driver::{KeyRouteAffinityConfig, KeyRouteAffinityType};

#[test]
fn default_is_none_and_disabled() {
    let cfg: KeyRouteAffinityConfig = KeyRouteAffinityType::default().into();
    assert_eq!(cfg.affinity_type, KeyRouteAffinityType::Disabled);
    assert!(!cfg.is_enabled());
    assert!(cfg.pk_info_per_table.is_empty());
}

#[test]
fn is_enabled_reflects_affinity_type() {
    let none: KeyRouteAffinityConfig = KeyRouteAffinityType::Disabled.into();
    let rmw: KeyRouteAffinityConfig = KeyRouteAffinityType::Rmw.into();
    let any: KeyRouteAffinityConfig = KeyRouteAffinityType::AnyWrite.into();

    assert!(!none.is_enabled());
    assert!(rmw.is_enabled());
    assert!(any.is_enabled());
}

#[test]
fn from_type_produces_empty_pk_map() {
    let cfg: KeyRouteAffinityConfig = KeyRouteAffinityType::Rmw.into();
    assert_eq!(cfg.affinity_type, KeyRouteAffinityType::Rmw);
    assert!(cfg.pk_info_per_table.is_empty());
}

#[test]
fn builder_default_matches_none_type() {
    let cfg = KeyRouteAffinityConfig::builder().build();
    assert_eq!(cfg.affinity_type, KeyRouteAffinityType::Disabled);
    assert!(cfg.pk_info_per_table.is_empty());
}

#[test]
fn builder_sets_type() {
    let cfg = KeyRouteAffinityConfig::builder()
        .with_type(KeyRouteAffinityType::AnyWrite)
        .build();
    assert_eq!(cfg.affinity_type, KeyRouteAffinityType::AnyWrite);
}

#[test]
fn builder_accumulates_pk_info() {
    let cfg = KeyRouteAffinityConfig::builder()
        .with_type(KeyRouteAffinityType::Rmw)
        .with_pk_info("users", "user_id")
        .with_pk_info("orders", "order_id")
        .build();

    assert_eq!(cfg.affinity_type, KeyRouteAffinityType::Rmw);
    assert_eq!(cfg.pk_info_per_table.len(), 2);
    assert_eq!(
        cfg.pk_info_per_table.get("users").map(String::as_str),
        Some("user_id")
    );
    assert_eq!(
        cfg.pk_info_per_table.get("orders").map(String::as_str),
        Some("order_id")
    );
}

#[test]
fn builder_pk_info_overwrites_on_duplicate_table() {
    let cfg = KeyRouteAffinityConfig::builder()
        .with_pk_info("users", "old_pk")
        .with_pk_info("users", "new_pk")
        .build();
    assert_eq!(
        cfg.pk_info_per_table.get("users").map(String::as_str),
        Some("new_pk")
    );
    assert_eq!(cfg.pk_info_per_table.len(), 1);
}

