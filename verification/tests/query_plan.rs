use alternator_driver::live_nodes::NativeRoots;
use alternator_driver::node_url::NodeUrl;
use alternator_driver::{AlternatorConfig, LiveNodes, QueryPlan};

fn roots() -> NativeRoots {
    NativeRoots {
        usable: true,
        errors: Vec::new(),
    }
}

fn make_live_nodes(count: usize) -> LiveNodes {
    let seed_hosts: Vec<String> = (1..=count)
        .map(|i| format!("node{i}.example.com"))
        .collect();

    let config = AlternatorConfig::builder()
        .scheme("http")
        .port(8000)
        .seed_hosts(seed_hosts)
        .build();

    let mut live = LiveNodes::try_new(&config, &vec![false; count], &roots(), 0)
        .unwrap()
        .unwrap();

    // Sanity check.
    let urls = live.get_live_nodes(0);
    assert_eq!(
        urls.len(),
        count,
        "LiveNodes lost or duplicated seed entries"
    );
    for (i, url) in urls.iter().enumerate() {
        let expected_host = format!("node{}.example.com", i + 1);
        assert_eq!(url.host_str(), Some(expected_host.as_str()));
    }

    live
}

/// Extract "node6" from "http://node6.example.com:8000".
fn short_name(url: &NodeUrl) -> String {
    let host = url.host_str().expect("url has host");
    host.strip_suffix(".example.com")
        .unwrap_or(host)
        .to_string()
}

/// Draw `count` nodes from the plan as short names. Stops early on exhaustion.
fn sequence(plan: &mut QueryPlan, nodes: &mut LiveNodes, count: usize) -> Vec<String> {
    let mut out = Vec::with_capacity(count);
    for _ in 0..count {
        match plan.next_node(nodes, 0) {
            Some(node) => out.push(short_name(&node)),
            None => break,
        }
    }
    out
}

// ----- Cross-language test vectors -----

#[test]
fn cross_lang_seed_42_10_nodes() {
    let mut nodes = make_live_nodes(10);
    let mut plan = QueryPlan::new_with_hash(42);
    assert_eq!(
        sequence(&mut plan, &mut nodes, 6),
        vec!["node6", "node9", "node5", "node2", "node7", "node1"],
    );
}

#[test]
fn cross_lang_seed_123_10_nodes() {
    let mut nodes = make_live_nodes(10);
    let mut plan = QueryPlan::new_with_hash(123);
    assert_eq!(
        sequence(&mut plan, &mut nodes, 6),
        vec!["node6", "node1", "node4", "node3", "node10", "node5"],
    );
}

#[test]
fn cross_lang_seed_999_10_nodes() {
    let mut nodes = make_live_nodes(10);
    let mut plan = QueryPlan::new_with_hash(999);
    assert_eq!(
        sequence(&mut plan, &mut nodes, 6),
        vec!["node5", "node10", "node4", "node1", "node2", "node3"],
    );
}

#[test]
fn cross_lang_seed_0_10_nodes() {
    let mut nodes = make_live_nodes(10);
    let mut plan = QueryPlan::new_with_hash(0);
    assert_eq!(
        sequence(&mut plan, &mut nodes, 6),
        vec!["node5", "node1", "node2", "node10", "node6", "node8"],
    );
}

#[test]
fn cross_lang_seed_neg1_10_nodes() {
    // Seed -1 as a u64 is 0xFFFF_FFFF_FFFF_FFFF; as a seed its
    // bits are read as i64 = -1.
    let mut nodes = make_live_nodes(10);
    let mut plan = QueryPlan::new_with_hash(u64::MAX);
    assert_eq!(
        sequence(&mut plan, &mut nodes, 6),
        vec!["node2", "node5", "node1", "node3", "node6", "node10"],
    );
}

#[test]
fn cross_lang_seed_42_6_active_nodes() {
    let mut nodes = make_live_nodes(6);
    let mut plan = QueryPlan::new_with_hash(42);
    assert_eq!(
        sequence(&mut plan, &mut nodes, 6),
        vec!["node6", "node3", "node1", "node4", "node2", "node5"],
    );
}

#[test]
fn cross_lang_seed_12345_10_nodes() {
    let mut nodes = make_live_nodes(10);
    let mut plan = QueryPlan::new_with_hash(12345);
    assert_eq!(
        sequence(&mut plan, &mut nodes, 6),
        vec!["node4", "node5", "node1", "node7", "node6", "node8"],
    );
}

#[test]
fn cross_lang_seed_max_i64_10_nodes() {
    // i64::MAX = 0x7FFF_FFFF_FFFF_FFFF — the largest positive int64.
    let mut nodes = make_live_nodes(10);
    let mut plan = QueryPlan::new_with_hash(i64::MAX as u64);
    assert_eq!(
        sequence(&mut plan, &mut nodes, 6),
        vec!["node2", "node7", "node8", "node1", "node10", "node4"],
    );
}

// ----- Property tests -----

#[test]
fn affinity_plan_exhausts_all_nodes_without_duplicates() {
    let mut nodes = make_live_nodes(10);
    let mut plan = QueryPlan::new_with_hash(42);
    let all = sequence(&mut plan, &mut nodes, 100); // ask for more than exist
    assert_eq!(all.len(), 10, "should produce exactly 10 nodes");
    let unique: std::collections::HashSet<_> = all.iter().collect();
    assert_eq!(unique.len(), 10, "all nodes should be distinct");
    assert!(plan.next_node(&mut nodes, 0).is_none(), "plan should be exhausted");
}

#[test]
fn affinity_plan_is_deterministic_for_same_seed() {
    let mut nodes = make_live_nodes(10);
    let mut p1 = QueryPlan::new_with_hash(42);
    let mut p2 = QueryPlan::new_with_hash(42);
    assert_eq!(
        sequence(&mut p1, &mut nodes, 10),
        sequence(&mut p2, &mut nodes, 10)
    );
}

// ----- Round robin -----

#[test]
fn round_robin_plan_visits_every_node_once_and_then_ends() {
    let mut nodes = make_live_nodes(5);
    let mut plan = QueryPlan::new_basic();
    // The counter moves on with every attempt, and used nodes are passed over.
    assert_eq!(
        sequence(&mut plan, &mut nodes, 10),
        vec!["node1", "node2", "node3", "node4", "node5"]
    );
    assert!(plan.next_node(&mut nodes, 0).is_none());
}

#[test]
fn round_robin_plans_start_one_node_apart() {
    let mut nodes = make_live_nodes(3);
    let firsts: Vec<String> = (0..6)
        .map(|_| {
            let mut plan = QueryPlan::new_basic();
            short_name(&plan.next_node(&mut nodes, 0).unwrap())
        })
        .collect();
    assert_eq!(
        firsts,
        vec!["node1", "node2", "node3", "node1", "node2", "node3"]
    );
}

// ----- Preferred nodes -----

#[test]
fn preferred_plan_gives_preferred_nodes_and_then_the_others_in_order() {
    let mut nodes = make_live_nodes(4);
    let live = nodes.get_live_nodes(0);
    let mut plan =
        QueryPlan::new_with_preferred_nodes(vec![live[2].duplicate(), live[0].duplicate()]);
    assert_eq!(
        sequence(&mut plan, &mut nodes, 10),
        vec!["node3", "node1", "node2", "node4"]
    );
}

#[test]
fn the_node_that_a_hash_prefers_is_drawn_from_the_sorted_nodes() {
    // In order these are node1, node10, node2, ..., node9.
    let mut nodes = make_live_nodes(10);
    let sorted = QueryPlan::sorted_affinity_nodes(&mut nodes, 0);
    // Seed 42 draws the sixth of ten nodes first.
    assert_eq!(
        short_name(&sorted.preferred_node_for_hash(42).unwrap()),
        "node5"
    );
}

#[test]
fn affinity_plan_keeps_to_the_nodes_it_started_with() {
    let mut nodes = make_live_nodes(3);
    let mut plan = QueryPlan::new_with_hash(7);
    let first = plan.next_node(&mut nodes, 0).unwrap();
    let others: Vec<NodeUrl> = nodes.get_live_nodes(0).into_iter().take(1).collect();
    nodes.store_live_nodes(others);
    let rest = sequence(&mut plan, &mut nodes, 10);
    assert_eq!(rest.len(), 2);
    assert!(!rest.contains(&short_name(&first)));
}

#[test]
fn a_plan_reads_the_live_nodes_when_it_starts() {
    let mut nodes = make_live_nodes(3);
    let idle = 60_000_000_000;
    let mut plan = QueryPlan::new_with_hash(7);
    plan.next_node(&mut nodes, 2 * idle);
    assert!(nodes.take_wake());
    // From then on it has its nodes.
    plan.next_node(&mut nodes, 4 * idle);
    assert!(!nodes.take_wake());
    QueryPlan::new_basic().next_node(&mut nodes, 4 * idle);
    assert!(nodes.take_wake());
}
