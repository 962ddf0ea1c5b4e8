//! Properties of the shard plan produced by
//! [`PhysicalIndex::partition_local_shards`](crate::physical_index::PhysicalIndex::partition_local_shards).
use vstd::prelude::*;
use vstd::multiset::Multiset;

use crate::physical_index::{
    chunk_ids, lemma_without_min_key_shorter, min_key, owner_cost, plan, sat_add, spec_owner_key, with_key,
    without_key, IndexView,
};

verus! {

broadcast use vstd::multiset::group_multiset_axioms, vstd::seq_lib::group_to_multiset_ensures;

/// `x`, saturated at `usize::MAX`.
pub open spec fn capped(x: int) -> int {
    if x > usize::MAX {
        usize::MAX as int
    } else {
        x
    }
}

/// Sum of the owner costs of a shard.
pub open spec fn shard_cost(v: IndexView, s: Seq<u64>) -> int
    decreases s.len(),
{
    if s.len() == 0 {
        0
    } else {
        shard_cost(v, s.drop_last()) + owner_cost(v, s.last())
    }
}

proof fn lemma_flatten_concat(a: Seq<Seq<u64>>, b: Seq<Seq<u64>>)
    ensures
        (a + b).flatten() == a.flatten() + b.flatten(),
    decreases a.len(),
{
    if a.len() == 0 {
        assert(a + b =~= b);
        assert(a.flatten() + b.flatten() =~= b.flatten());
    } else {
        lemma_flatten_concat(a.drop_first(), b);
        assert((a + b).drop_first() =~= a.drop_first() + b);
        assert((a + b).first() == a.first());
        assert(a.first() + (a.drop_first().flatten() + b.flatten()) =~= (a.first()
            + a.drop_first().flatten()) + b.flatten());
    }
}

proof fn lemma_chunk_flatten(
    v: IndexView,
    ids: Seq<u64>,
    max_ids: nat,
    max_cost: nat,
    shard: Seq<u64>,
    cost: int,
)
    ensures
        chunk_ids(v, ids, max_ids, max_cost, shard, cost).flatten() == shard + ids,
    decreases ids.len(),
{
    if ids.len() == 0 {
        if shard.len() == 0 {
            assert(shard + ids =~= Seq::<u64>::empty());
        } else {
            seq![shard].lemma_flatten_one_element();
            assert(shard + ids =~= shard);
        }
    } else {
        let id = ids[0];
        let c = owner_cost(v, id);
        let exceeds = max_cost > 0 && shard.len() > 0 && sat_add(cost, c) > max_cost;
        if shard.len() > 0 && (shard.len() >= max_ids || exceeds) {
            let rest = chunk_ids(v, ids.drop_first(), max_ids, max_cost, seq![id], c);
            lemma_chunk_flatten(v, ids.drop_first(), max_ids, max_cost, seq![id], c);
            assert((seq![shard] + rest).first() == shard);
            assert((seq![shard] + rest).drop_first() =~= rest);
            assert(seq![id] + ids.drop_first() =~= ids);
        } else {
            lemma_chunk_flatten(v, ids.drop_first(), max_ids, max_cost, shard.push(id), sat_add(cost, c));
            assert(shard.push(id) + ids.drop_first() =~= shard + ids);
        }
    }
}

proof fn lemma_split_multiset(v: IndexView, ids: Seq<u64>, key: Seq<Seq<char>>)
    ensures
        with_key(v, ids, key).to_multiset().add(without_key(v, ids, key).to_multiset())
            == ids.to_multiset(),
    decreases ids.len(),
{
    if ids.len() == 0 {
        assert(with_key(v, ids, key).to_multiset() =~= Multiset::empty());
        assert(without_key(v, ids, key).to_multiset() =~= Multiset::empty());
        assert(ids.to_multiset() =~= Multiset::empty());
    } else {
        lemma_split_multiset(v, ids.drop_last(), key);
        assert(ids =~= ids.drop_last().push(ids.last()));
        assert(with_key(v, ids, key).to_multiset().add(without_key(v, ids, key).to_multiset())
            =~= ids.to_multiset());
    }
}

/// The shards of a plan, concatenated, hold every requested id exactly as
/// often as the request does.
pub proof fn lemma_plan_is_permutation(v: IndexView, ids: Seq<u64>, max_ids: nat, max_cost: nat)
    ensures
        plan(v, ids, max_ids, max_cost).flatten().to_multiset() == ids.to_multiset(),
    decreases ids.len(),
{
    if ids.len() == 0 {
        assert(ids.to_multiset() =~= Multiset::empty());
        assert(plan(v, ids, max_ids, max_cost).flatten() =~= Seq::<u64>::empty());
        assert(Seq::<u64>::empty().to_multiset() =~= Multiset::empty());
    } else {
        let key = min_key(v, ids);
        let same = with_key(v, ids, key);
        let others = without_key(v, ids, key);
        lemma_without_min_key_shorter(v, ids);
        lemma_plan_is_permutation(v, others, max_ids, max_cost);
        let chunks = chunk_ids(v, same, max_ids, max_cost, Seq::empty(), 0);
        lemma_chunk_flatten(v, same, max_ids, max_cost, Seq::empty(), 0);
        assert(Seq::<u64>::empty() + same =~= same);
        lemma_flatten_concat(chunks, plan(v, others, max_ids, max_cost));
        lemma_split_multiset(v, ids, key);
        vstd::seq_lib::lemma_multiset_commutative(same, plan(v, others, max_ids, max_cost).flatten());
    }
}

proof fn lemma_shard_cost_nonneg(v: IndexView, s: Seq<u64>)
    ensures
        shard_cost(v, s) >= 0,
    decreases s.len(),
{
    if s.len() > 0 {
        lemma_shard_cost_nonneg(v, s.drop_last());
    }
}

proof fn lemma_chunk_shapes(
    v: IndexView,
    ids: Seq<u64>,
    max_ids: nat,
    max_cost: nat,
    shard: Seq<u64>,
    cost: int,
)
    requires
        max_ids >= 1,
        max_cost <= usize::MAX,
        shard.len() <= max_ids,
        cost == if shard_cost(v, shard) > usize::MAX {
            usize::MAX as int
        } else {
            shard_cost(v, shard)
        },
        max_cost > 0 && shard.len() >= 2 ==> cost <= max_cost,
    ensures
        forall|i: int|
            0 <= i < chunk_ids(v, ids, max_ids, max_cost, shard, cost).len() ==> {
                let s = #[trigger] chunk_ids(v, ids, max_ids, max_cost, shard, cost)[i];
                &&& 0 < s.len() <= max_ids
                &&& max_cost > 0 && s.len() >= 2 ==> capped(shard_cost(v, s)) <= max_cost
                &&& forall|k: int| 0 <= k < s.len() ==> shard.contains(#[trigger] s[k]) || ids.contains(s[k])
            },
    decreases ids.len(),
{
    let out = chunk_ids(v, ids, max_ids, max_cost, shard, cost);
    if ids.len() == 0 {
        assert forall|i: int| 0 <= i < out.len() implies {
            let s = #[trigger] out[i];
            &&& 0 < s.len() <= max_ids
            &&& max_cost > 0 && s.len() >= 2 ==> capped(shard_cost(v, s)) <= max_cost
            &&& forall|k: int| 0 <= k < s.len() ==> shard.contains(#[trigger] s[k]) || ids.contains(s[k])
        } by {
            assert(out[i] == shard);
            assert forall|k: int| 0 <= k < shard.len() implies shard.contains(#[trigger] shard[k]) by {}
        }
    } else {
        let id = ids[0];
        let c = owner_cost(v, id);
        let exceeds = max_cost > 0 && shard.len() > 0 && sat_add(cost, c) > max_cost;
        let tail = ids.drop_first();
        assert(shard_cost(v, seq![id]) == c) by {
            reveal_with_fuel(shard_cost, 2);
            assert(seq![id].drop_last() =~= Seq::<u64>::empty());
        }
        if shard.len() > 0 && (shard.len() >= max_ids || exceeds) {
            lemma_chunk_shapes(v, tail, max_ids, max_cost, seq![id], c);
            let rest = chunk_ids(v, tail, max_ids, max_cost, seq![id], c);
            assert forall|i: int| 0 <= i < out.len() implies {
                let s = #[trigger] out[i];
                &&& 0 < s.len() <= max_ids
                &&& max_cost > 0 && s.len() >= 2 ==> capped(shard_cost(v, s)) <= max_cost
                &&& forall|k: int| 0 <= k < s.len() ==> shard.contains(#[trigger] s[k]) || ids.contains(s[k])
            } by {
                if i == 0 {
                    assert(out[i] == shard);
                    assert forall|k: int| 0 <= k < shard.len() implies shard.contains(#[trigger] shard[k]) by {}
                } else {
                    assert(out[i] == rest[i - 1]);
                    let s = rest[i - 1];
                    assert forall|k: int| 0 <= k < s.len() implies shard.contains(#[trigger] s[k]) || ids.contains(s[k]) by {
                        if seq![id].contains(s[k]) {
                            assert(ids[0] == s[k]);
                        } else {
                            let m = choose|m: int| 0 <= m < tail.len() && tail[m] == s[k];
                            assert(ids[m + 1] == s[k]);
                        }
                    }
                }
            }
        } else {
            let grown = shard.push(id);
            assert(grown.drop_last() =~= shard);
            assert(shard_cost(v, grown) == shard_cost(v, shard) + c);
            assert(c >= 1);
            assert(shard_cost(v, shard) >= 0) by {
                lemma_shard_cost_nonneg(v, shard);
            }
            lemma_chunk_shapes(v, tail, max_ids, max_cost, grown, sat_add(cost, c));
            let rest = chunk_ids(v, tail, max_ids, max_cost, grown, sat_add(cost, c));
            assert forall|i: int| 0 <= i < out.len() implies {
                let s = #[trigger] out[i];
                &&& 0 < s.len() <= max_ids
                &&& max_cost > 0 && s.len() >= 2 ==> capped(shard_cost(v, s)) <= max_cost
                &&& forall|k: int| 0 <= k < s.len() ==> shard.contains(#[trigger] s[k]) || ids.contains(s[k])
            } by {
                let s = rest[i];
                assert forall|k: int| 0 <= k < s.len() implies shard.contains(#[trigger] s[k]) || ids.contains(s[k]) by {
                    if grown.contains(s[k]) {
                        let m = choose|m: int| 0 <= m < grown.len() && grown[m] == s[k];
                        if m < shard.len() {
                            assert(shard[m] == s[k]);
                        } else {
                            assert(ids[0] == s[k]);
                        }
                    } else {
                        let m = choose|m: int| 0 <= m < tail.len() && tail[m] == s[k];
                        assert(ids[m + 1] == s[k]);
                    }
                }
            }
        }
    }
}

proof fn lemma_with_key_members(v: IndexView, ids: Seq<u64>, key: Seq<Seq<char>>)
    ensures
        forall|i: int|
            0 <= i < with_key(v, ids, key).len() ==> spec_owner_key(
                v,
                #[trigger] with_key(v, ids, key)[i],
            ) == key,
    decreases ids.len(),
{
    if ids.len() > 0 {
        lemma_with_key_members(v, ids.drop_last(), key);
        let prev = with_key(v, ids.drop_last(), key);
        let cur = with_key(v, ids, key);
        assert forall|i: int| 0 <= i < cur.len() implies spec_owner_key(v, #[trigger] cur[i]) == key by {
            if i < prev.len() {
                assert(cur[i] == prev[i]);
            }
        }
    }
}

/// Every shard of a plan is nonempty, holds at most `max_ids` owners, holds
/// owners of one stream set only, and, under a positive byte budget, holds
/// at most `max_cost` bytes of owner cost (summed with saturation at
/// `usize::MAX`) unless it is a single owner.
pub proof fn lemma_plan_shapes(v: IndexView, ids: Seq<u64>, max_ids: nat, max_cost: nat)
    requires
        max_ids >= 1,
        max_cost <= usize::MAX,
    ensures
        forall|i: int|
            0 <= i < plan(v, ids, max_ids, max_cost).len() ==> {
                let s = #[trigger] plan(v, ids, max_ids, max_cost)[i];
                &&& 0 < s.len() <= max_ids
                &&& max_cost > 0 && s.len() >= 2 ==> capped(shard_cost(v, s)) <= max_cost
                &&& forall|k: int|
                    0 <= k < s.len() ==> spec_owner_key(v, #[trigger] s[k]) == spec_owner_key(v, s[0])
            },
    decreases ids.len(),
{
    if ids.len() > 0 {
        let key = min_key(v, ids);
        let same = with_key(v, ids, key);
        let others = without_key(v, ids, key);
        lemma_without_min_key_shorter(v, ids);
        lemma_plan_shapes(v, others, max_ids, max_cost);
        assert(shard_cost(v, Seq::<u64>::empty()) == 0);
        lemma_chunk_shapes(v, same, max_ids, max_cost, Seq::empty(), 0);
        lemma_with_key_members(v, ids, key);
        let chunks = chunk_ids(v, same, max_ids, max_cost, Seq::empty(), 0);
        let whole = plan(v, ids, max_ids, max_cost);
        assert forall|i: int| 0 <= i < whole.len() implies {
            let s = #[trigger] whole[i];
            &&& 0 < s.len() <= max_ids
            &&& max_cost > 0 && s.len() >= 2 ==> capped(shard_cost(v, s)) <= max_cost
            &&& forall|k: int|
                0 <= k < s.len() ==> spec_owner_key(v, #[trigger] s[k]) == spec_owner_key(v, s[0])
        } by {
            if i < chunks.len() {
                let s = chunks[i];
                assert(whole[i] == s);
                assert forall|k: int| 0 <= k < s.len() implies spec_owner_key(v, #[trigger] s[k]) == key by {
                    let m = choose|m: int| 0 <= m < same.len() && same[m] == s[k];
                    assert(spec_owner_key(v, same[m]) == key);
                }
                assert(spec_owner_key(v, s[0]) == key);
            } else {
                assert(whole[i] == plan(v, others, max_ids, max_cost)[i - chunks.len()]);
            }
        }
    }
}

} // verus!
