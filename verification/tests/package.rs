use rvt_native::package_plan::{build_shards, effective_shard_size, estimated_cost, resolve_category_ids, channel};
use rvt_native::physical_index::PhysicalIndex;
use std::collections::BTreeMap;

#[test]
fn shard_planning_rejects_ids_without_physical_records() {
    let index = PhysicalIndex::new();
    assert!(build_shards(&[4, 8, 15], 0, 2, &index).is_err());
}

#[test]
fn owner_cap_is_composed_with_the_stored_cost_plan() {
    // --shard-size 4000 --shard-max-owners 500
    assert_eq!(effective_shard_size(4000, 500), 500);
}

#[test]
fn bul_profile_resolves_to_the_checked_native_category_set() {
    // --category-profile mep-bul-v1 --category OST_Walls
    let categories = resolve_category_ids(&[], Some("mep-bul-v1"), &["OST_Walls"]).unwrap();
    assert!(categories.contains(&-2_008_044)); // OST_PipeCurves
    assert!(categories.contains(&-2_000_011)); // requested OST_Walls
    assert_eq!(categories.len(), 35);
}

#[test]
fn shard_size_falls_back_to_each_nonzero_budget() {
    assert_eq!(effective_shard_size(0, 500), 500);
    assert_eq!(effective_shard_size(4000, 0), 4000);
    assert_eq!(effective_shard_size(300, 500), 300);
    assert_eq!(effective_shard_size(0, 0), 0);
}

#[test]
fn estimated_cost_sums_known_costs_only() {
    let costs = BTreeMap::from([(1u64, 10usize), (2, 32)]);
    assert_eq!(estimated_cost(&[1, 2, 3], &costs), 42);
    assert_eq!(estimated_cost(&[], &costs), 0);
}

#[test]
fn explicit_ids_profiles_and_labels_are_united() {
    let ids = resolve_category_ids(&[7, -2_000_011], None, &["OST_Walls", "OST_Floors"]).unwrap();
    assert_eq!(ids.len(), 3);
    assert!(ids.contains(&7));
    assert!(ids.contains(&-2_000_032));
    assert!(resolve_category_ids(&[], Some("not-a-profile"), &[]).is_err());
    assert!(resolve_category_ids(&[], None, &["OST_NotARevitCategory"]).is_err());
}

#[test]
fn channel_arguments_are_closed() {
    assert_eq!(channel("101"), Ok(101));
    assert_eq!(channel("102"), Ok(102));
    assert_eq!(channel("103"), Ok(103));
    assert_eq!(channel("104"), Err("channel must be 101, 102, or 103".to_string()));
}
