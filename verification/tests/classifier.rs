use alternator_driver::keyrouting::classifier::{
    find_attribute, AttributeAction, AttributeUpdate, Attributes, BatchWriteItem, DeleteItem,
    DynamoOp, PartitionKeyCandidate, PutItem, ReturnValue, UpdateItem, WriteRequest,
};
use alternator_driver::{AttributeValue, KeyRouteAffinityType};

fn s(v: &str) -> AttributeValue {
    AttributeValue::S(v.to_string())
}

fn attributes<const N: usize>(pairs: [(&str, AttributeValue); N]) -> Attributes {
    pairs
        .into_iter()
        .map(|(name, value)| (name.to_string(), value))
        .collect()
}

fn put() -> PutItem {
    PutItem {
        table_name: Some("t".to_string()),
        item: Some(attributes([("pk", s("k"))])),
        condition_expression: None,
        expected: None,
        return_values: None,
    }
}

fn delete() -> DeleteItem {
    DeleteItem {
        table_name: Some("t".to_string()),
        key: Some(attributes([("pk", s("k"))])),
        condition_expression: None,
        expected: None,
        return_values: None,
    }
}

fn update() -> UpdateItem {
    UpdateItem {
        table_name: Some("t".to_string()),
        key: Some(attributes([("pk", s("k"))])),
        update_expression: None,
        condition_expression: None,
        expected: None,
        return_values: None,
        attribute_updates: None,
    }
}

fn should_apply_put(mode: KeyRouteAffinityType, r: PutItem) -> bool {
    DynamoOp::Put(r).should_apply(mode)
}

fn should_apply_delete(mode: KeyRouteAffinityType, r: DeleteItem) -> bool {
    DynamoOp::Delete(r).should_apply(mode)
}

fn should_apply_update(mode: KeyRouteAffinityType, r: UpdateItem) -> bool {
    DynamoOp::Update(r).should_apply(mode)
}

fn get<'a>(candidate: &PartitionKeyCandidate<'a>, name: &str) -> Option<&'a AttributeValue> {
    find_attribute(candidate.attributes, name)
}

// ----- PutItem -----

#[test]
fn put_rmw_plain_does_not_apply() {
    assert!(!should_apply_put(KeyRouteAffinityType::Rmw, put()));
}

#[test]
fn put_rmw_with_condition_applies() {
    let r = PutItem {
        condition_expression: Some("attribute_not_exists(pk)".to_string()),
        ..put()
    };
    assert!(should_apply_put(KeyRouteAffinityType::Rmw, r));
}

#[test]
fn put_rmw_with_empty_condition_does_not_apply() {
    let r = PutItem {
        condition_expression: Some("".to_string()),
        ..put()
    };
    assert!(!should_apply_put(KeyRouteAffinityType::Rmw, r));
}

#[test]
fn put_rmw_with_expected_applies() {
    let r = PutItem {
        expected: Some(1),
        ..put()
    };
    assert!(should_apply_put(KeyRouteAffinityType::Rmw, r));
}

#[test]
fn put_rmw_with_no_expected_entries_does_not_apply() {
    let r = PutItem {
        expected: Some(0),
        ..put()
    };
    assert!(!should_apply_put(KeyRouteAffinityType::Rmw, r));
}

#[test]
fn put_rmw_return_values_none_does_not_apply() {
    let r = PutItem {
        return_values: Some(ReturnValue::Nothing),
        ..put()
    };
    assert!(!should_apply_put(KeyRouteAffinityType::Rmw, r));
}

#[test]
fn put_rmw_return_values_all_old_applies() {
    let r = PutItem {
        return_values: Some(ReturnValue::AllOld),
        ..put()
    };
    assert!(should_apply_put(KeyRouteAffinityType::Rmw, r));
}

#[test]
fn put_any_write_always_applies() {
    assert!(should_apply_put(KeyRouteAffinityType::AnyWrite, put()));
}

// ----- DeleteItem -----

#[test]
fn delete_rmw_plain_does_not_apply() {
    assert!(!should_apply_delete(KeyRouteAffinityType::Rmw, delete()));
}

#[test]
fn delete_rmw_with_condition_applies() {
    let r = DeleteItem {
        condition_expression: Some("attribute_exists(pk)".to_string()),
        ..delete()
    };
    assert!(should_apply_delete(KeyRouteAffinityType::Rmw, r));
}

#[test]
fn delete_any_write_always_applies() {
    assert!(should_apply_delete(KeyRouteAffinityType::AnyWrite, delete()));
}

// ----- UpdateItem -----

#[test]
fn update_rmw_plain_does_not_apply() {
    assert!(!should_apply_update(KeyRouteAffinityType::Rmw, update()));
}

#[test]
fn update_rmw_with_update_expression_applies() {
    let r = UpdateItem {
        update_expression: Some("SET a = :v".to_string()),
        ..update()
    };
    assert!(should_apply_update(KeyRouteAffinityType::Rmw, r));
}

#[test]
fn update_rmw_with_empty_update_expression_does_not_apply() {
    let r = UpdateItem {
        update_expression: Some("".to_string()),
        ..update()
    };
    assert!(!should_apply_update(KeyRouteAffinityType::Rmw, r));
}

#[test]
fn update_rmw_with_empty_condition_does_not_apply() {
    let r = UpdateItem {
        condition_expression: Some("".to_string()),
        ..update()
    };
    assert!(!should_apply_update(KeyRouteAffinityType::Rmw, r));
}

#[test]
fn update_rmw_updated_new_does_not_apply() {
    // UPDATED_NEW is computable without a read.
    let r = UpdateItem {
        return_values: Some(ReturnValue::UpdatedNew),
        ..update()
    };
    assert!(!should_apply_update(KeyRouteAffinityType::Rmw, r));
}

#[test]
fn update_rmw_all_old_applies() {
    let r = UpdateItem {
        return_values: Some(ReturnValue::AllOld),
        ..update()
    };
    assert!(should_apply_update(KeyRouteAffinityType::Rmw, r));
}

fn with_attribute_update(action: AttributeAction, has_value: bool) -> UpdateItem {
    UpdateItem {
        attribute_updates: Some(vec![AttributeUpdate {
            action: Some(action),
            has_value,
        }]),
        ..update()
    }
}

#[test]
fn update_rmw_attribute_update_add_applies() {
    let r = with_attribute_update(AttributeAction::Add, true);
    assert!(should_apply_update(KeyRouteAffinityType::Rmw, r));
}

#[test]
fn update_rmw_attribute_update_delete_with_value_applies() {
    let r = with_attribute_update(AttributeAction::Delete, true);
    assert!(should_apply_update(KeyRouteAffinityType::Rmw, r));
}

#[test]
fn update_rmw_attribute_update_delete_without_value_does_not_apply() {
    let r = with_attribute_update(AttributeAction::Delete, false);
    assert!(!should_apply_update(KeyRouteAffinityType::Rmw, r));
}

#[test]
fn update_rmw_attribute_update_put_does_not_apply() {
    let r = with_attribute_update(AttributeAction::Put, true);
    assert!(!should_apply_update(KeyRouteAffinityType::Rmw, r));
}

#[test]
fn update_rmw_attribute_update_without_action_is_passed_over() {
    let r = UpdateItem {
        attribute_updates: Some(vec![
            AttributeUpdate {
                action: None,
                has_value: true,
            },
            AttributeUpdate {
                action: Some(AttributeAction::Add),
                has_value: true,
            },
        ]),
        ..update()
    };
    assert!(should_apply_update(KeyRouteAffinityType::Rmw, r));
}

#[test]
fn update_any_write_always_applies() {
    assert!(should_apply_update(KeyRouteAffinityType::AnyWrite, update()));
}

// ----- BatchWriteItem -----

fn put_write(pk_name: &str, value: &str) -> WriteRequest {
    WriteRequest {
        put: Some(attributes([(pk_name, s(value)), ("other", s("x"))])),
        delete: None,
    }
}

fn put_write_without_pk() -> WriteRequest {
    WriteRequest {
        put: Some(attributes([("other", s("x"))])),
        delete: None,
    }
}

fn delete_write(pk_name: &str, value: &str) -> WriteRequest {
    WriteRequest {
        put: None,
        delete: Some(attributes([(pk_name, s(value))])),
    }
}

fn batch(items: Vec<(&str, Vec<WriteRequest>)>) -> DynamoOp {
    DynamoOp::BatchWrite(BatchWriteItem {
        request_items: Some(
            items
                .into_iter()
                .map(|(table, writes)| (table.to_string(), writes))
                .collect(),
        ),
    })
}

#[test]
fn batch_write_applies_only_for_any_write() {
    let op = batch(vec![("t", vec![put_write("pk", "k")])]);

    assert!(!op.should_apply(KeyRouteAffinityType::Disabled));
    assert!(!op.should_apply(KeyRouteAffinityType::Rmw));
    assert!(op.should_apply(KeyRouteAffinityType::AnyWrite));
}

#[test]
fn batch_write_delete_applies_only_for_any_write() {
    let op = batch(vec![("t", vec![delete_write("pk", "k")])]);

    assert!(!op.should_apply(KeyRouteAffinityType::Disabled));
    assert!(!op.should_apply(KeyRouteAffinityType::Rmw));
    assert!(op.should_apply(KeyRouteAffinityType::AnyWrite));
}

#[test]
fn batch_write_partition_key_candidates_include_single_table_put() {
    let op = batch(vec![("t", vec![put_write("pk", "put_key")])]);

    let candidates = op.partition_key_candidates();

    assert_eq!(candidates.len(), 1);
    assert_eq!(candidates[0].table_name, "t");
    assert_eq!(get(&candidates[0], "pk"), Some(&s("put_key")));
}

#[test]
fn batch_write_partition_key_candidates_include_single_table_delete() {
    let op = batch(vec![("t", vec![delete_write("pk", "delete_key")])]);

    let candidates = op.partition_key_candidates();

    assert_eq!(candidates.len(), 1);
    assert_eq!(candidates[0].table_name, "t");
    assert_eq!(get(&candidates[0], "pk"), Some(&s("delete_key")));
}

#[test]
fn batch_write_partition_key_candidates_include_requests_without_pk() {
    let op = batch(vec![(
        "t",
        vec![
            put_write_without_pk(),
            delete_write("pk", "delete_key"),
            put_write("pk", "put_key"),
        ],
    )]);

    let candidates = op.partition_key_candidates();

    assert_eq!(candidates.len(), 3);
    assert!(candidates.iter().all(|candidate| candidate.table_name == "t"));
    assert!(candidates.iter().any(|candidate| get(candidate, "pk").is_none()));
    assert!(candidates
        .iter()
        .any(|candidate| get(candidate, "pk") == Some(&s("delete_key"))));
    assert!(candidates
        .iter()
        .any(|candidate| get(candidate, "pk") == Some(&s("put_key"))));
}

#[test]
fn batch_write_partition_key_candidates_include_multiple_tables() {
    for z_table_first in [true, false] {
        let z = ("z_table", vec![put_write("pk", "z_key")]);
        let a = ("a_table", vec![put_write("pk", "a_key")]);
        let op = if z_table_first {
            batch(vec![z, a])
        } else {
            batch(vec![a, z])
        };

        let candidates = op.partition_key_candidates();

        assert_eq!(candidates.len(), 2);
        assert!(candidates.iter().any(|candidate| {
            candidate.table_name == "a_table" && get(candidate, "pk") == Some(&s("a_key"))
        }));
        assert!(candidates.iter().any(|candidate| {
            candidate.table_name == "z_table" && get(candidate, "pk") == Some(&s("z_key"))
        }));
    }
}

#[test]
fn batch_write_empty_batch_returns_no_candidates() {
    let op = batch(vec![("t", Vec::new())]);
    assert!(op.partition_key_candidates().is_empty());
    let op = DynamoOp::BatchWrite(BatchWriteItem { request_items: None });
    assert!(op.partition_key_candidates().is_empty());
}

#[test]
fn batch_write_partition_key_candidates_use_put_items_and_delete_keys() {
    let op = batch(vec![(
        "orders",
        vec![put_write("pk", "put_key"), delete_write("pk", "delete_key")],
    )]);

    let candidates = op.partition_key_candidates();

    assert_eq!(candidates.len(), 2);
    assert!(candidates.iter().any(|candidate| {
        get(candidate, "pk") == Some(&s("put_key")) && get(candidate, "other") == Some(&s("x"))
    }));
    assert!(candidates.iter().any(|candidate| {
        get(candidate, "pk") == Some(&s("delete_key")) && get(candidate, "other").is_none()
    }));
}

#[test]
fn batch_write_ignores_empty_write_requests() {
    let op = batch(vec![(
        "t",
        vec![WriteRequest {
            put: None,
            delete: None,
        }],
    )]);
    assert!(op.partition_key_candidates().is_empty());
}

#[test]
fn batch_write_prefers_the_deleted_key_to_the_item() {
    let op = batch(vec![(
        "t",
        vec![WriteRequest {
            put: Some(attributes([("pk", s("put_key"))])),
            delete: Some(attributes([("pk", s("delete_key"))])),
        }],
    )]);
    let candidates = op.partition_key_candidates();
    assert_eq!(candidates.len(), 1);
    assert_eq!(get(&candidates[0], "pk"), Some(&s("delete_key")));
}

// ----- Modes -----

#[test]
fn none_mode_never_applies_even_for_conditional_writes() {
    let r = PutItem {
        condition_expression: Some("attribute_not_exists(pk)".to_string()),
        ..put()
    };
    assert!(!DynamoOp::Put(r).should_apply(KeyRouteAffinityType::Disabled));
}

// ----- Partition key + table name extraction -----

#[test]
fn put_partition_key_from_item() {
    let op = DynamoOp::Put(PutItem {
        item: Some(attributes([("pk", s("alice")), ("other", s("x"))])),
        ..put()
    });
    let candidates = op.partition_key_candidates();

    assert_eq!(candidates.len(), 1);
    assert_eq!(candidates[0].table_name, "t");
    assert_eq!(get(&candidates[0], "pk"), Some(&s("alice")));
}

#[test]
fn update_partition_key_from_key() {
    let op = DynamoOp::Update(UpdateItem {
        key: Some(attributes([("pk", s("bob"))])),
        ..update()
    });
    let candidates = op.partition_key_candidates();

    assert_eq!(candidates.len(), 1);
    assert_eq!(candidates[0].table_name, "t");
    assert_eq!(get(&candidates[0], "pk"), Some(&s("bob")));
}

#[test]
fn partition_key_missing_attribute_returns_none() {
    let op = DynamoOp::Put(PutItem {
        item: Some(attributes([("other", s("x"))])),
        ..put()
    });
    let candidates = op.partition_key_candidates();

    assert_eq!(candidates.len(), 1);
    assert!(get(&candidates[0], "pk").is_none());
}

#[test]
fn missing_table_name_returns_no_candidates() {
    let op = DynamoOp::Put(PutItem {
        table_name: None,
        item: Some(attributes([("pk", s("a"))])),
        ..put()
    });

    assert!(op.partition_key_candidates().is_empty());
}
