use alternator_driver::node_url::{build_node_url, NodeUrl};
use alternator_driver::RoutingScope;

#[test]
fn fallbacks_are_added_at_the_end_of_the_chain() {
    let scope = RoutingScope::from_rack("dc1", "r1")
        .with_fallback(RoutingScope::from_datacenter("dc1"))
        .with_fallback(RoutingScope::from_cluster());
    assert_eq!((scope.dc(), scope.rack()), (Some("dc1"), Some("r1")));
    let second = scope.fallback().unwrap();
    assert_eq!((second.dc(), second.rack()), (Some("dc1"), None));
    let third = second.fallback().unwrap();
    assert!(third.is_cluster());
    assert_eq!((third.dc(), third.rack()), (None, None));
    assert!(third.fallback().is_none());
}

#[test]
fn nodes_are_asked_by_datacenter_and_rack() {
    assert!(RoutingScope::from_cluster().localnodes_query().is_empty());
    assert_eq!(
        RoutingScope::from_datacenter("dc1").localnodes_query(),
        vec![("dc".to_string(), "dc1".to_string())]
    );
    assert_eq!(
        RoutingScope::from_rack("dc1", "r1").localnodes_query(),
        vec![
            ("dc".to_string(), "dc1".to_string()),
            ("rack".to_string(), "r1".to_string())
        ]
    );
}

fn node() -> NodeUrl {
    build_node_url("http", "127.0.0.1", false, Some(8000)).unwrap()
}

#[test]
fn nodes_are_asked_at_a_url_of_their_own() {
    assert_eq!(
        RoutingScope::from_cluster().build_localnodes_url(&node()),
        Some("http://127.0.0.1:8000/localnodes".to_string())
    );
    assert_eq!(
        RoutingScope::from_datacenter("dc1").build_localnodes_url(&node()),
        Some("http://127.0.0.1:8000/localnodes?dc=dc1".to_string())
    );
    assert_eq!(
        RoutingScope::from_rack("dc 1", "r&1").build_localnodes_url(&node()),
        Some("http://127.0.0.1:8000/localnodes?dc=dc+1&rack=r%261".to_string())
    );
}

#[test]
fn a_node_without_a_url_is_not_asked() {
    let mut node = node();
    node.href = "no url".to_string();
    assert_eq!(RoutingScope::from_cluster().build_localnodes_url(&node), None);
}
