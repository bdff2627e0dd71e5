use alternator_driver::affinity_plan::{vote_preference_order, AffinityQueryPlanInterceptor};
use alternator_driver::keyrouting::classifier::{
    Attributes, BatchWriteItem, DynamoOp, PutItem, WriteRequest,
};
use alternator_driver::keyrouting::hasher;
use alternator_driver::keyrouting::resolver::{
    DescribeOutcome, Discovery, KeySchemaElement, PartitionKeyResolver,
};
use alternator_driver::live_nodes::NativeRoots;
use alternator_driver::node_url::NodeUrl;
use alternator_driver::{
    AlternatorConfig, AttributeValue, KeyRouteAffinityConfig, KeyRouteAffinityType, LiveNodes,
    QueryPlan,
};
use std::collections::HashMap;

fn s(value: &str) -> AttributeValue {
    AttributeValue::S(value.to_string())
}

fn make_live_nodes() -> LiveNodes {
    let seed_hosts: Vec<_> = (1..=10)
        .rev()
        .map(|i| format!("node{i}.example.com"))
        .collect();
    let config = AlternatorConfig::builder()
        .scheme("http")
        .port(8000)
        .seed_hosts(seed_hosts)
        .build();
    let roots = NativeRoots {
        usable: true,
        errors: Vec::new(),
    };

    LiveNodes::try_new(&config, &vec![false; 10], &roots, 0)
        .unwrap()
        .expect("live nodes")
}

struct Fixture {
    interceptor: AffinityQueryPlanInterceptor,
    resolver: PartitionKeyResolver,
    live_nodes: LiveNodes,
    started: Vec<Discovery>,
}

impl Fixture {
    fn with_type(affinity_type: KeyRouteAffinityType, pk_info: &[(&str, &str)]) -> Self {
        let mut config_builder = KeyRouteAffinityConfig::builder().with_type(affinity_type);
        for (table, pk) in pk_info {
            config_builder = config_builder.with_pk_info(table, pk);
        }
        let config = config_builder.build();
        let resolver = PartitionKeyResolver::new(&config.pk_info_per_table);
        Fixture {
            interceptor: AffinityQueryPlanInterceptor { config },
            resolver,
            live_nodes: make_live_nodes(),
            started: Vec::new(),
        }
    }

    fn plan(&mut self, op: DynamoOp) -> Option<QueryPlan> {
        self.interceptor.try_affinity_plan(
            &Some(op),
            &mut self.resolver,
            &mut self.live_nodes,
            0,
            0,
            true,
            &mut self.started,
        )
    }

    fn first_node(&mut self, op: DynamoOp) -> String {
        let mut plan = self.plan(op).expect("an affinity plan is selected");
        short_name(
            &plan
                .next_node(&mut self.live_nodes, 0)
                .expect("plan has first node"),
        )
    }

    fn node_sequence(&mut self, op: DynamoOp, count: usize) -> Vec<String> {
        let mut plan = self.plan(op).expect("an affinity plan is selected");
        let mut out = Vec::with_capacity(count);
        for _ in 0..count {
            let Some(node) = plan.next_node(&mut self.live_nodes, 0) else {
                break;
            };
            out.push(short_name(&node));
        }
        out
    }
}

fn make_interceptor(pk_info: &[(&str, &str)]) -> Fixture {
    Fixture::with_type(KeyRouteAffinityType::AnyWrite, pk_info)
}

fn attributes<const N: usize>(pairs: [(&str, AttributeValue); N]) -> Attributes {
    pairs
        .into_iter()
        .map(|(name, value)| (name.to_string(), value))
        .collect()
}

fn put_write(pk_name: &str, pk_value: AttributeValue, payload: &str) -> WriteRequest {
    WriteRequest {
        put: Some(attributes([(pk_name, pk_value), ("payload", s(payload))])),
        delete: None,
    }
}

fn delete_write(pk_name: &str, pk_value: AttributeValue) -> WriteRequest {
    WriteRequest {
        put: None,
        delete: Some(attributes([(pk_name, pk_value)])),
    }
}

fn batch_input(table_name: &str, writes: Vec<WriteRequest>) -> DynamoOp {
    DynamoOp::BatchWrite(BatchWriteItem {
        request_items: Some(vec![(table_name.to_string(), writes)]),
    })
}

fn multi_table_batch_input(
    first_table: &str,
    first_writes: Vec<WriteRequest>,
    second_table: &str,
    second_writes: Vec<WriteRequest>,
) -> DynamoOp {
    DynamoOp::BatchWrite(BatchWriteItem {
        request_items: Some(vec![
            (first_table.to_string(), first_writes),
            (second_table.to_string(), second_writes),
        ]),
    })
}

fn put_item(table: &str, pk: AttributeValue) -> DynamoOp {
    DynamoOp::Put(PutItem {
        table_name: Some(table.to_string()),
        item: Some(attributes([("pk", pk)])),
        condition_expression: None,
        expected: None,
        return_values: None,
    })
}

fn short_name(url: &NodeUrl) -> String {
    let host = url.host_str().expect("url has host");
    host.strip_suffix(".example.com")
        .unwrap_or(host)
        .to_string()
}

fn sorted_live_node_names(live_nodes: &mut LiveNodes) -> Vec<String> {
    let mut nodes = live_nodes.get_live_nodes(0);
    nodes.sort_unstable_by(|left, right| left.as_str().cmp(right.as_str()));
    nodes.iter().map(short_name).collect()
}

fn expected_preferred_order(
    live_nodes: &mut LiveNodes,
    voted_nodes: impl IntoIterator<Item = String>,
) -> Vec<String> {
    let mut expected: Vec<_> = voted_nodes.into_iter().collect();
    for node in sorted_live_node_names(live_nodes) {
        if !expected.contains(&node) {
            expected.push(node);
        }
    }
    expected
}

fn preferred_node_for_key(live_nodes: &mut LiveNodes, key: &str) -> String {
    let nodes = QueryPlan::sorted_affinity_nodes(live_nodes, 0);
    let hash = hasher::hash_attribute_value(&s(key)).expect("string key is supported");
    let node = nodes
        .preferred_node_for_hash(hash)
        .expect("nodes are present");
    short_name(&node)
}

fn find_two_keys_on_one_node_and_one_on_another(
    live_nodes: &mut LiveNodes,
) -> (String, String, String, String) {
    let mut buckets: HashMap<String, Vec<String>> = HashMap::new();

    for i in 0..1000 {
        let key = format!("key-{i}");
        let node = preferred_node_for_key(live_nodes, &key);
        buckets.entry(node).or_default().push(key);
    }

    let (majority_node, majority_keys) = buckets
        .iter()
        .find(|(_, keys)| keys.len() >= 2)
        .expect("test key space should contain two keys for one node");
    let other_key = buckets
        .iter()
        .find(|(node, keys)| *node != majority_node && !keys.is_empty())
        .map(|(_, keys)| keys[0].clone())
        .expect("test key space should contain another node");

    (
        majority_keys[0].clone(),
        majority_keys[1].clone(),
        other_key,
        majority_node.clone(),
    )
}

#[test]
fn batch_write_majority_preferred_node_wins() {
    let mut f = make_interceptor(&[("orders", "pk")]);
    let (majority_key_1, majority_key_2, other_key, expected_node) =
        find_two_keys_on_one_node_and_one_on_another(&mut f.live_nodes);
    let input = batch_input(
        "orders",
        vec![
            put_write("pk", s(&majority_key_1), "a"),
            put_write("pk", s(&other_key), "b"),
            put_write("pk", s(&majority_key_2), "c"),
        ],
    );

    assert_eq!(f.first_node(input), expected_node);
}

#[test]
fn batch_write_majority_votes_drive_full_retry_order() {
    let mut f = make_interceptor(&[("orders", "pk")]);
    let (majority_key_1, majority_key_2, other_key, majority_node) =
        find_two_keys_on_one_node_and_one_on_another(&mut f.live_nodes);
    let other_node = preferred_node_for_key(&mut f.live_nodes, &other_key);
    let input = batch_input(
        "orders",
        vec![
            put_write("pk", s(&majority_key_1), "a"),
            put_write("pk", s(&other_key), "b"),
            put_write("pk", s(&majority_key_2), "c"),
        ],
    );

    let expected = expected_preferred_order(&mut f.live_nodes, [majority_node, other_node]);
    assert_eq!(f.node_sequence(input, expected.len()), expected);
}

#[test]
fn batch_write_equal_top_votes_use_deterministic_tie_break() {
    let mut f = make_interceptor(&[("orders", "pk")]);
    let (majority_key, _, other_key, _) =
        find_two_keys_on_one_node_and_one_on_another(&mut f.live_nodes);
    let mut tied_nodes = vec![
        preferred_node_for_key(&mut f.live_nodes, &majority_key),
        preferred_node_for_key(&mut f.live_nodes, &other_key),
    ];
    tied_nodes.sort_unstable();
    let input = batch_input(
        "orders",
        vec![
            put_write("pk", s(&majority_key), "a"),
            put_write("pk", s(&other_key), "b"),
        ],
    );

    let expected = expected_preferred_order(&mut f.live_nodes, tied_nodes);
    assert_eq!(f.node_sequence(input, expected.len()), expected);
}

#[test]
fn batch_write_delete_majority_preferred_node_wins() {
    let mut f = make_interceptor(&[("orders", "pk")]);
    let (majority_key_1, majority_key_2, other_key, expected_node) =
        find_two_keys_on_one_node_and_one_on_another(&mut f.live_nodes);
    let input = batch_input(
        "orders",
        vec![
            delete_write("pk", s(&majority_key_1)),
            delete_write("pk", s(&other_key)),
            delete_write("pk", s(&majority_key_2)),
        ],
    );

    assert_eq!(f.first_node(input), expected_node);
}

#[test]
fn batch_write_mixed_put_and_delete_votes_select_majority() {
    let mut f = make_interceptor(&[("orders", "pk")]);
    let (majority_key_1, majority_key_2, other_key, expected_node) =
        find_two_keys_on_one_node_and_one_on_another(&mut f.live_nodes);
    let input = batch_input(
        "orders",
        vec![
            put_write("pk", s(&majority_key_1), "a"),
            delete_write("pk", s(&other_key)),
            delete_write("pk", s(&majority_key_2)),
        ],
    );

    assert_eq!(f.first_node(input), expected_node);
}

#[test]
fn batch_write_voting_is_invariant_to_write_request_order() {
    let mut f = make_interceptor(&[("orders", "pk")]);
    let (majority_key_1, majority_key_2, other_key, expected_node) =
        find_two_keys_on_one_node_and_one_on_another(&mut f.live_nodes);
    let first = batch_input(
        "orders",
        vec![
            put_write("pk", s(&majority_key_1), "a"),
            delete_write("pk", s(&other_key)),
            put_write("pk", s(&majority_key_2), "c"),
        ],
    );
    let second = batch_input(
        "orders",
        vec![
            put_write("pk", s(&majority_key_2), "c"),
            put_write("pk", s(&majority_key_1), "a"),
            delete_write("pk", s(&other_key)),
        ],
    );

    assert_eq!(f.first_node(first), expected_node);
    assert_eq!(f.first_node(second), expected_node);
}

#[test]
fn batch_write_voting_is_invariant_to_table_insertion_order() {
    let mut f = make_interceptor(&[("a_orders", "pk"), ("z_orders", "pk")]);
    let (majority_key_1, majority_key_2, other_key, expected_node) =
        find_two_keys_on_one_node_and_one_on_another(&mut f.live_nodes);
    let first = multi_table_batch_input(
        "a_orders",
        vec![put_write("pk", s(&majority_key_1), "a")],
        "z_orders",
        vec![
            delete_write("pk", s(&other_key)),
            put_write("pk", s(&majority_key_2), "c"),
        ],
    );
    let second = multi_table_batch_input(
        "z_orders",
        vec![
            put_write("pk", s(&majority_key_2), "c"),
            delete_write("pk", s(&other_key)),
        ],
        "a_orders",
        vec![put_write("pk", s(&majority_key_1), "a")],
    );

    assert_eq!(f.first_node(first), expected_node);
    assert_eq!(f.first_node(second), expected_node);
}

#[test]
fn batch_write_non_key_attributes_do_not_change_selected_node() {
    let mut f = make_interceptor(&[("orders", "pk")]);
    let (majority_key_1, majority_key_2, other_key, expected_node) =
        find_two_keys_on_one_node_and_one_on_another(&mut f.live_nodes);
    let first = batch_input(
        "orders",
        vec![
            put_write("pk", s(&majority_key_1), "payload-a"),
            put_write("pk", s(&other_key), "payload-b"),
            put_write("pk", s(&majority_key_2), "payload-c"),
        ],
    );
    let second = batch_input(
        "orders",
        vec![
            put_write("pk", s(&majority_key_1), "zzz"),
            put_write("pk", s(&other_key), "aaa"),
            put_write("pk", s(&majority_key_2), "mmm"),
        ],
    );

    assert_eq!(f.first_node(first), expected_node);
    assert_eq!(f.first_node(second), expected_node);
}

#[test]
fn batch_write_unknown_table_metadata_does_not_block_known_candidate() {
    let mut f = make_interceptor(&[("z_known", "pk")]);
    let known_key = "known-key";
    let expected_node = preferred_node_for_key(&mut f.live_nodes, known_key);
    let input = multi_table_batch_input(
        "a_unknown",
        vec![put_write("pk", s("unknown-key"), "a")],
        "z_known",
        vec![put_write("pk", s(known_key), "b")],
    );

    assert_eq!(f.first_node(input), expected_node);
    // The unknown table is discovered for the next time.
    assert_eq!(f.started.len(), 1);
    assert_eq!(f.started[0].table_name, "a_unknown");
}

#[test]
fn batch_write_unsupported_partition_key_type_is_skipped() {
    let mut f = make_interceptor(&[("orders", "pk")]);
    let supported_key = "supported-key";
    let expected_node = preferred_node_for_key(&mut f.live_nodes, supported_key);
    let input = batch_input(
        "orders",
        vec![
            put_write("pk", AttributeValue::Bool(true), "unsupported"),
            put_write("pk", s(supported_key), "supported"),
        ],
    );

    assert_eq!(f.first_node(input), expected_node);
}

#[test]
fn batch_write_without_usable_keys_has_no_plan() {
    let mut f = make_interceptor(&[("orders", "pk")]);
    let input = batch_input("orders", vec![put_write("other", s("x"), "a")]);
    assert!(f.plan(input).is_none());
}

// ----- Requests for one item -----

#[test]
fn one_key_always_has_the_same_plan() {
    let mut f = make_interceptor(&[("users", "pk")]);
    let first = f.node_sequence(put_item("users", s("alice")), 20);
    let second = f.node_sequence(put_item("users", s("alice")), 20);
    assert_eq!(first, second);
    assert_eq!(first.len(), 10);
    let mut all = first.clone();
    all.sort();
    all.dedup();
    assert_eq!(all.len(), 10);
}

#[test]
fn requests_that_do_not_qualify_have_no_plan_and_start_nothing() {
    let mut f = Fixture::with_type(KeyRouteAffinityType::Rmw, &[]);
    assert!(f.plan(put_item("users", s("alice"))).is_none());
    let mut f = Fixture::with_type(KeyRouteAffinityType::Disabled, &[("users", "pk")]);
    assert!(f.plan(put_item("users", s("alice"))).is_none());
    assert!(f.started.is_empty());
    let mut f = make_interceptor(&[("users", "pk")]);
    let plan = f.interceptor.try_affinity_plan(
        &None,
        &mut f.resolver,
        &mut f.live_nodes,
        0,
        0,
        true,
        &mut f.started,
    );
    assert!(plan.is_none());
}

#[test]
fn affinity_request_discovers_partition_key_once_and_reuses_cache() {
    let mut f = make_interceptor(&[]);
    for _ in 0..6 {
        assert!(f.plan(put_item("users", s("alice"))).is_none());
    }
    assert_eq!(f.started.len(), 1);
    let mut discovery = f.started.pop().unwrap();
    f.resolver.discover_with_retry(
        &mut discovery,
        DescribeOutcome::Described(Some(vec![KeySchemaElement {
            attribute_name: "pk".to_string(),
            is_hash: true,
        }])),
        0,
    );
    for _ in 0..3 {
        assert!(f.plan(put_item("users", s("alice"))).is_some());
    }
    assert!(f.started.is_empty());
}

#[test]
fn affinity_request_with_preconfigured_partition_key_skips_discovery() {
    let mut f = make_interceptor(&[("users", "pk")]);
    assert!(f.plan(put_item("users", s("alice"))).is_some());
    assert!(f.started.is_empty());
}

#[test]
fn requests_without_an_affinity_plan_go_round_the_nodes() {
    let mut f = make_interceptor(&[]);
    let mut plan = f.interceptor.get_query_plan(
        &None,
        &mut f.resolver,
        &mut f.live_nodes,
        0,
        0,
        true,
        &mut f.started,
    );
    // Seeds are used in the order in which they are configured.
    let first = plan.next_node(&mut f.live_nodes, 0).unwrap();
    assert_eq!(short_name(&first), "node10");
    let second = plan.next_node(&mut f.live_nodes, 0).unwrap();
    assert_eq!(short_name(&second), "node9");
}

#[test]
fn nodes_are_ranked_by_votes_and_then_by_url() {
    let live = make_live_nodes().get_live_nodes(0);
    let by_name = |name: &str| {
        live.iter()
            .find(|n| short_name(n) == name)
            .unwrap()
            .duplicate()
    };
    let votes = vec![
        (by_name("node3"), 1),
        (by_name("node2"), 2),
        (by_name("node1"), 1),
        (by_name("node4"), 3),
    ];
    let order = vote_preference_order(&votes).unwrap();
    let names: Vec<String> = order.iter().map(short_name).collect();
    assert_eq!(names, vec!["node4", "node2", "node1", "node3"]);
    assert!(vote_preference_order(&Vec::new()).is_none());
}
