use rvt_native::physical_index::PhysicalIndex;
use rvt_native::sharding::{
    id_costs, plan_covers_exactly, requested_ids, selection_semantics, sharded_status, sorted_unique,
    ShardQueue,
};
use std::collections::BTreeMap;

fn index() -> PhysicalIndex {
    let mut index = PhysicalIndex::new();
    index.insert_group_offset("Partitions/0", 102, 9, 0);
    index.insert_group_offset("Partitions/0", 102, 3, 0);
    index.insert_group_offset("Partitions/1", 103, 3, 0);
    index.insert_record_bytes(102, 3, 100);
    index.insert_record_bytes(103, 3, 23);
    index.insert_record_bytes(102, 9, usize::MAX);
    index.insert_record_bytes(103, 9, 1);
    index
}

#[test]
fn requested_owners_are_sorted_distinct_or_all_current() {
    let index = index();
    assert_eq!(requested_ids(&index, &[]), vec![3, 9]);
    assert_eq!(requested_ids(&index, &[8, 2, 8, 5]), vec![2, 5, 8]);
    assert_eq!(sorted_unique(&[4, 4, 1]), vec![1, 4]);
}

#[test]
fn owner_costs_add_both_channels_saturating() {
    let costs = id_costs(&index(), &[3, 9, 4]);
    assert_eq!(costs, BTreeMap::from([(3, 123), (9, usize::MAX), (4, 0)]));
}

#[test]
fn budget_splits_keep_owner_order_and_singletons_fail() {
    let costs = BTreeMap::from([(1u64, 10usize), (2, 20), (3, 30), (4, 40)]);
    let mut queue = ShardQueue::new(&vec![vec![1, 2, 3], vec![4]], costs);
    let first = queue.next_shard().unwrap();
    assert_eq!((first.number, first.ids.clone(), first.estimated_cost_bytes), (0, vec![1, 2, 3], 60));
    // Without a worker budget the failure stands.
    assert!(!queue.split_on_budget(&first, false));
    assert!(queue.split_on_budget(&first, true));
    let left = queue.next_shard().unwrap();
    assert_eq!((left.number, left.ids.clone(), left.estimated_cost_bytes), (1, vec![1], 10));
    queue.completed();
    let right = queue.next_shard().unwrap();
    assert_eq!((right.number, right.ids.clone(), right.estimated_cost_bytes), (2, vec![2, 3], 50));
    queue.completed();
    let last = queue.next_shard().unwrap();
    assert_eq!((last.number, last.ids.clone()), (3, vec![4]));
    assert!(!queue.split_on_budget(&last, true));
    assert!(queue.next_shard().is_none());
}

#[test]
fn sharded_status_is_complete_only_when_every_shard_is() {
    assert_eq!(sharded_status(&[]), "empty");
    let complete = "complete_supported_subset".to_string();
    assert_eq!(sharded_status(&[complete.clone(), complete.clone()]), "complete_supported_subset");
    assert_eq!(sharded_status(&[complete, "partial".into()]), "partial");
    assert!(selection_semantics(true).contains("stored-body cost"));
    assert!(selection_semantics(false).contains("id ranges"));
}

#[test]
fn plans_must_cover_the_selection_exactly_once() {
    assert!(plan_covers_exactly(&vec![vec![1, 3], vec![2]], &[1, 2, 3]));
    assert!(!plan_covers_exactly(&vec![vec![1, 3], vec![3]], &[1, 3]));
    assert!(!plan_covers_exactly(&vec![vec![1]], &[1, 2]));
    assert!(!plan_covers_exactly(&vec![vec![1, 2]], &[1, 2, 2]));
}

use rvt_native::delivery::{Coverage, ShardEntry};
use rvt_native::sharding::{current_requested_ids, package_selection_semantics, package_shards_status, selected_ids_for_manifest};
use std::collections::BTreeSet;

fn entry(coverage: Coverage) -> ShardEntry {
    ShardEntry {
        uri: "shard-000000".into(),
        first_element_id: Some(1),
        last_element_id: Some(2),
        requested_ids: 2,
        tileset_uri: None,
        coverage,
        telemetry: None,
    }
}

#[test]
fn package_status_follows_shard_coverage() {
    assert_eq!(package_shards_status(&[]), "empty");
    assert_eq!(package_shards_status(&[entry(Coverage::default())]), "complete_supported_subset");
    let partial = Coverage { metadata_only_records: 1, ..Default::default() };
    assert_eq!(package_shards_status(&[entry(Coverage::default()), entry(partial)]), "partial");
    let diagnosed = Coverage { diagnostics: vec!["x".into()], ..Default::default() };
    assert_eq!(package_shards_status(&[entry(diagnosed)]), "partial");
    assert!(package_selection_semantics(true).contains("BuiltInCategory"));
    assert!(package_selection_semantics(false).contains("channel-102"));
}

#[test]
fn manifest_selected_ids_must_match_the_receipt() {
    let plan = vec![vec![5, 1], vec![3, 1]];
    assert_eq!(selected_ids_for_manifest(&plan, 3), Some(vec![1, 3, 5]));
    assert_eq!(selected_ids_for_manifest(&plan, 4), None);
}

#[test]
fn delivered_owners_prefer_the_metadata_filter() {
    let index = index();
    let filter = BTreeSet::from([7, 2]);
    let selected = BTreeSet::from([8]);
    assert_eq!(current_requested_ids(Some(&filter), &selected, &index), vec![2, 7]);
    assert_eq!(current_requested_ids(None, &selected, &index), vec![8]);
    assert_eq!(current_requested_ids(None, &BTreeSet::new(), &index), vec![3, 9]);
}
