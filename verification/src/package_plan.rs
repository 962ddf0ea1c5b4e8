//! Argument-level planning of a delivery package run.
use vstd::prelude::*;
use std::collections::{BTreeMap, BTreeSet};

use crate::native_category_profile::{
    add_all, profile_resolution, resolve_label_ids, resolve_profile_ids, resolve_spec, resolved_as,
    set_of, str_views, CategoryError,
};
use crate::physical_index::{spec_partition_local_shards, shard_views, IndexError, PhysicalIndex};
use crate::text::str_eq;

verus! {

broadcast use vstd::std_specs::btree::group_btree_axioms;

/// Owners per shard: the shard size and the owner cap, each ignored when zero.
pub fn effective_shard_size(shard_size: usize, shard_max_owners: usize) -> (r: usize)
    ensures
        shard_size == 0 ==> r == shard_max_owners,
        shard_size != 0 && shard_max_owners == 0 ==> r == shard_size,
        shard_size != 0 && shard_max_owners != 0 ==> r == if shard_size < shard_max_owners {
            shard_size
        } else {
            shard_max_owners
        },
{
    if shard_size == 0 {
        shard_max_owners
    } else if shard_max_owners == 0 {
        shard_size
    } else if shard_size < shard_max_owners {
        shard_size
    } else {
        shard_max_owners
    }
}

/// Sum of the known costs of `ids`; unknown ids cost nothing.
pub open spec fn cost_sum(ids: Seq<u64>, costs: Map<u64, usize>) -> int
    decreases ids.len(),
{
    if ids.len() == 0 {
        0
    } else {
        cost_sum(ids.drop_last(), costs) + if costs.contains_key(ids.last()) {
            costs[ids.last()] as int
        } else {
            0
        }
    }
}

/// Sums the stored costs of `ids`.
pub fn estimated_cost(ids: &[u64], id_costs: &BTreeMap<u64, usize>) -> (r: usize)
    requires
        cost_sum(ids@, id_costs@) <= usize::MAX,
    ensures
        r == cost_sum(ids@, id_costs@),
{
    let mut total: usize = 0;
    let mut i: usize = 0;
    while i < ids.len()
        invariant
            i <= ids@.len(),
            cost_sum(ids@, id_costs@) <= usize::MAX,
            total == cost_sum(ids@.subrange(0, i as int), id_costs@),
        decreases ids@.len() - i,
    {
        proof {
            assert(ids@.subrange(0, i + 1).drop_last() =~= ids@.subrange(0, i as int));
            lemma_cost_sum_prefix(ids@, id_costs@, i + 1);
        }
        let c = match id_costs.get(&ids[i]) {
            Some(c) => *c,
            None => 0,
        };
        total = total + c;
        i += 1;
    }
    proof {
        assert(ids@.subrange(0, ids@.len() as int) =~= ids@);
    }
    total
}

proof fn lemma_cost_sum_prefix(ids: Seq<u64>, costs: Map<u64, usize>, n: int)
    requires
        0 <= n <= ids.len(),
    ensures
        cost_sum(ids.subrange(0, n), costs) <= cost_sum(ids, costs),
    decreases ids.len() - n,
{
    if n < ids.len() {
        assert(ids.drop_last().subrange(0, n) =~= ids.subrange(0, n));
        lemma_cost_sum_prefix(ids.drop_last(), costs, n);
    } else {
        assert(ids.subrange(0, n) =~= ids);
    }
}

/// The cost of a sequence is the cost of its prefix plus that of the rest.
pub proof fn lemma_cost_sum_split(ids: Seq<u64>, costs: Map<u64, usize>, m: int)
    requires
        0 <= m <= ids.len(),
    ensures
        cost_sum(ids, costs) == cost_sum(ids.subrange(0, m), costs) + cost_sum(
            ids.subrange(m, ids.len() as int),
            costs,
        ),
        0 <= cost_sum(ids.subrange(0, m), costs),
        0 <= cost_sum(ids.subrange(m, ids.len() as int), costs),
    decreases ids.len(),
{
    lemma_cost_sum_nonneg(ids.subrange(0, m), costs);
    lemma_cost_sum_nonneg(ids.subrange(m, ids.len() as int), costs);
    if ids.len() == m {
        assert(ids.subrange(0, m) =~= ids);
        assert(ids.subrange(m, ids.len() as int) =~= Seq::<u64>::empty());
    } else {
        lemma_cost_sum_split(ids.drop_last(), costs, m);
        assert(ids.drop_last().subrange(0, m) =~= ids.subrange(0, m));
        assert(ids.subrange(m, ids.len() as int).drop_last() =~= ids.drop_last().subrange(m, ids.len() - 1));
        assert(ids.subrange(m, ids.len() as int).last() == ids.last());
    }
}

proof fn lemma_cost_sum_nonneg(ids: Seq<u64>, costs: Map<u64, usize>)
    ensures
        cost_sum(ids, costs) >= 0,
    decreases ids.len(),
{
    if ids.len() > 0 {
        lemma_cost_sum_nonneg(ids.drop_last(), costs);
    }
}

/// The shard plan of a package run (see
/// [`PhysicalIndex::partition_local_shards`]).
pub fn build_shards(requested: &[u64], max_ids: usize, max_cost_bytes: usize, index: &PhysicalIndex) -> (r:
    Result<Vec<Vec<u64>>, IndexError>)
    requires
        index.wf(),
    ensures
        match spec_partition_local_shards(index.view(), requested@, max_ids, max_cost_bytes) {
            Ok(plan) => r matches Ok(shards) && shard_views(shards@) == plan,
            Err(e) => r == Err::<Vec<Vec<u64>>, IndexError>(e),
        },
{
    index.partition_local_shards(requested, max_ids, max_cost_bytes)
}

/// Category ids requested by a run: explicit ids, a checked profile and
/// checked labels.  The profile is resolved before the labels.
pub fn resolve_category_ids(
    category_ids: &[i64],
    category_profile: Option<&str>,
    categories: &[&str],
) -> (r: Result<BTreeSet<i64>, CategoryError>)
    ensures
        match category_profile {
            Some(name) => match profile_resolution(name@) {
                Err(e) => resolved_as(r, Err(e)),
                Ok(from_profile) => match resolve_spec(str_views(categories@)) {
                    Err(e) => resolved_as(r, Err(e)),
                    Ok(from_labels) => resolved_as(
                        r,
                        Ok(category_ids@.to_set().union(from_profile).union(from_labels)),
                    ),
                },
            },
            None => match resolve_spec(str_views(categories@)) {
                Err(e) => resolved_as(r, Err(e)),
                Ok(from_labels) => resolved_as(r, Ok(category_ids@.to_set().union(from_labels))),
            },
        },
{
    let explicit = vstd::slice::slice_to_vec(category_ids);
    let mut ids = set_of(&explicit);
    let ghost mut from_profile: Set<i64> = Set::empty();
    if let Some(name) = category_profile {
        let profile = resolve_profile_ids(name)?;
        proof {
            from_profile = profile@.to_set();
        }
        add_all(&mut ids, &profile);
    }
    let labels = resolve_label_ids(categories)?;
    add_all(&mut ids, &labels);
    proof {
        assert(ids@ =~= category_ids@.to_set().union(from_profile).union(labels@.to_set()));
    }
    Ok(ids)
}

/// Parses a native record channel argument.
pub fn channel(value: &str) -> (r: Result<u64, String>)
    ensures
        value@ == "101"@ ==> r == Ok::<u64, String>(101),
        value@ != "101"@ && value@ == "102"@ ==> r == Ok::<u64, String>(102),
        value@ != "101"@ && value@ != "102"@ && value@ == "103"@ ==> r == Ok::<u64, String>(103),
        value@ != "101"@ && value@ != "102"@ && value@ != "103"@ ==> (r matches Err(m) && m@
            == "channel must be 101, 102, or 103"@),
{
    if str_eq(value, "101") {
        Ok(101)
    } else if str_eq(value, "102") {
        Ok(102)
    } else if str_eq(value, "103") {
        Ok(103)
    } else {
        Err("channel must be 101, 102, or 103".to_owned())
    }
}

} // verus!
