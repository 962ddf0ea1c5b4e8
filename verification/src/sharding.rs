//! Planning a sharded package run: the owners to deliver, their stored
//! costs, the queue of shards with its worker-budget split rule, and the
//! aggregate status of the delivered shards.
use vstd::prelude::*;
use std::collections::{BTreeMap, BTreeSet, VecDeque};

use crate::delivery::{Coverage, ShardEntry};
use crate::package_plan::{cost_sum, estimated_cost, lemma_cost_sum_split};
use crate::physical_index::{shard_views, spec_current_ids, spec_record_bytes, PhysicalIndex};
use crate::text::str_eq;

verus! {

broadcast use vstd::std_specs::btree::group_btree_axioms;

/// Ids in strictly increasing order.
pub open spec fn increasing(s: Seq<u64>) -> bool {
    forall|i: int, j: int| 0 <= i < j < s.len() ==> s[i] < s[j]
}

fn insert_sorted(r: &mut Vec<u64>, x: u64)
    requires
        increasing(old(r)@),
    ensures
        increasing(final(r)@),
        final(r)@.to_set() == old(r)@.to_set().insert(x),
{
    let mut p: usize = 0;
    while p < r.len() && r[p] < x
        invariant
            p <= r@.len(),
            r@ == old(r)@,
            forall|k: int| 0 <= k < p ==> r@[k] < x,
        decreases r@.len() - p,
    {
        p += 1;
    }
    if p < r.len() && r[p] == x {
        proof {
            assert(r@[p as int] == x);
            assert(r@.contains(x));
            assert(r@.to_set() =~= old(r)@.to_set().insert(x));
        }
        return;
    }
    let ghost s = r@;
    r.insert(p, x);
    proof {
        let t = r@;
        assert(t =~= s.insert(p as int, x));
        assert forall|i: int, j: int| 0 <= i < j < t.len() implies t[i] < t[j] by {
            if j < p {
                assert(t[i] == s[i] && t[j] == s[j]);
            } else if j == p {
                assert(t[i] == s[i]);
            } else if i < p {
                assert(t[i] == s[i] && t[j] == s[j - 1]);
            } else if i == p {
                assert(t[j] == s[j - 1]);
                assert(s[p as int] >= x);
                if j - 1 > p {
                    assert(s[p as int] < s[j - 1]);
                }
            } else {
                assert(t[i] == s[i - 1] && t[j] == s[j - 1]);
            }
        }
        assert forall|y: u64| t.contains(y) <==> s.to_set().insert(x).contains(y) by {
            if t.contains(y) {
                let k = choose|k: int| 0 <= k < t.len() && t[k] == y;
                if k < p {
                    assert(s[k] == y);
                } else if k > p {
                    assert(s[k - 1] == y);
                }
            }
            if s.contains(y) {
                let k = choose|k: int| 0 <= k < s.len() && s[k] == y;
                if k < p {
                    assert(t[k] == y);
                } else {
                    assert(t[k + 1] == y);
                }
            }
            if y == x {
                assert(t[p as int] == x);
            }
        }
        assert(t.to_set() =~= s.to_set().insert(x));
    }
}

/// The distinct ids of `ids` in increasing order.
pub fn sorted_unique(ids: &[u64]) -> (r: Vec<u64>)
    ensures
        increasing(r@),
        r@.to_set() == ids@.to_set(),
{
    let mut r: Vec<u64> = Vec::new();
    let mut i: usize = 0;
    while i < ids.len()
        invariant
            i <= ids@.len(),
            increasing(r@),
            r@.to_set() == ids@.take(i as int).to_set(),
        decreases ids@.len() - i,
    {
        proof {
            assert(ids@.take(i + 1) =~= ids@.take(i as int).push(ids@[i as int]));
            assert(ids@.take(i as int).push(ids@[i as int]).to_set() =~= ids@.take(i as int).to_set().insert(ids@[i as int])) by {
                let t = ids@.take(i as int);
                assert forall|y: u64| t.push(ids@[i as int]).contains(y) <==> t.to_set().insert(ids@[i as int]).contains(y) by {
                    if t.push(ids@[i as int]).contains(y) {
                        let k = choose|k: int| 0 <= k < t.len() + 1 && t.push(ids@[i as int])[k] == y;
                        if k < t.len() {
                            assert(t[k] == y);
                        }
                    }
                    if t.contains(y) {
                        let k = choose|k: int| 0 <= k < t.len() && t[k] == y;
                        assert(t.push(ids@[i as int])[k] == y);
                    }
                    if y == ids@[i as int] {
                        assert(t.push(ids@[i as int])[t.len() as int] == y);
                    }
                }
            }
        }
        insert_sorted(&mut r, ids[i]);
        i += 1;
    }
    proof {
        assert(ids@.take(ids@.len() as int) =~= ids@);
    }
    r
}

fn set_to_vec(s: &BTreeSet<u64>) -> (r: Vec<u64>)
    ensures
        r@.to_set() == s@,
{
    let mut r: Vec<u64> = Vec::new();
    for id in it: s.iter()
        invariant
            it.seq().unref().to_set() == s@,
            forall|k: u64| #[trigger] s@.contains(k) ==> r@.contains(k) || exists|j: int| it.index() <= j < it.seq().len() && *it.seq()[j] == k,
            forall|k: u64| r@.contains(k) ==> #[trigger] s@.contains(k),
    {
        proof {
            assert(*it.seq()[it.index() as int] == *id);
            assert(it.seq().unref()[it.index() as int] == *id);
            assert(it.seq().unref().to_set().contains(*id));
        }
        let ghost before = r@;
        r.push(*id);
        proof {
            assert forall|k: u64| before.contains(k) implies r@.contains(k) by {
                let j = choose|j: int| 0 <= j < before.len() && before[j] == k;
                assert(r@[j] == k);
            }
            assert(r@[before.len() as int] == *id);
            assert forall|k: u64| r@.contains(k) implies #[trigger] s@.contains(k) by {
                let j = choose|j: int| 0 <= j < r@.len() && r@[j] == k;
                if j < before.len() {
                    assert(before[j] == k);
                }
            }
        }
    }
    proof {
        assert(r@.to_set() =~= s@);
    }
    r
}

/// The owners a run delivers, in increasing id order: the requested ids,
/// or every current channel-102 owner when none was requested.
pub fn requested_ids(index: &PhysicalIndex, ids: &[u64]) -> (r: Vec<u64>)
    requires
        index.wf(),
    ensures
        increasing(r@),
        ids@.len() == 0 ==> r@.to_set() == spec_current_ids(index.view(), 102),
        ids@.len() != 0 ==> r@.to_set() == ids@.to_set(),
{
    if ids.len() == 0 {
        let current = index.current_ids(102);
        let all = set_to_vec(&current);
        sorted_unique(all.as_slice())
    } else {
        sorted_unique(ids)
    }
}

/// The stored cost of an owner: its channel-102 and channel-103 record
/// bytes, saturating.
pub open spec fn owner_stored_cost(v: crate::physical_index::IndexView, id: u64) -> usize {
    let c = spec_record_bytes(v, 102, id) + spec_record_bytes(v, 103, id);
    if c > usize::MAX {
        usize::MAX
    } else {
        c as usize
    }
}

/// The stored cost of each requested owner.
pub fn id_costs(index: &PhysicalIndex, requested: &[u64]) -> (r: BTreeMap<u64, usize>)
    requires
        index.wf(),
    ensures
        r@.dom() == requested@.to_set(),
        forall|id: u64| #[trigger] r@.contains_key(id) ==> r@[id] == owner_stored_cost(index.view(), id),
{
    let mut m: BTreeMap<u64, usize> = BTreeMap::new();
    let mut i: usize = 0;
    while i < requested.len()
        invariant
            i <= requested@.len(),
            index.wf(),
            m@.dom() == requested@.take(i as int).to_set(),
            forall|id: u64| #[trigger] m@.contains_key(id) ==> m@[id] == owner_stored_cost(index.view(), id),
        decreases requested@.len() - i,
    {
        let id = requested[i];
        let c = index.record_bytes(102, id).saturating_add(index.record_bytes(103, id));
        m.insert(id, c);
        proof {
            let t = requested@.take(i as int);
            assert(requested@.take(i + 1) =~= t.push(id));
            assert forall|y: u64| m@.dom().contains(y) <==> t.push(id).to_set().contains(y) by {
                if t.push(id).contains(y) {
                    let k = choose|k: int| 0 <= k < t.len() + 1 && t.push(id)[k] == y;
                    if k < t.len() {
                        assert(t[k] == y);
                    }
                }
                if t.contains(y) {
                    let k = choose|k: int| 0 <= k < t.len() && t[k] == y;
                    assert(t.push(id)[k] == y);
                }
                if y == id {
                    assert(t.push(id)[t.len() as int] == y);
                }
            }
            assert(m@.dom() =~= requested@.take(i + 1).to_set());
        }
        i += 1;
    }
    proof {
        assert(requested@.take(requested@.len() as int) =~= requested@);
    }
    m
}

/// One shard handed to a worker.
#[derive(Clone, Debug)]
pub struct ShardTask {
    /// The shard's number, naming its directory.
    pub number: usize,
    pub ids: Vec<u64>,
    pub estimated_cost_bytes: usize,
}

/// The shards still to run, front first, with the split rule applied when
/// a worker exceeds its budget.
pub struct ShardQueue {
    pending: VecDeque<(Vec<u64>, usize)>,
    id_costs: BTreeMap<u64, usize>,
    shard_number: usize,
    split_count: usize,
}

/// The ids of a sequence of shards, in order.
pub open spec fn flatten(s: Seq<Seq<u64>>) -> Seq<u64>
    decreases s.len(),
{
    if s.len() == 0 {
        Seq::empty()
    } else {
        s[0] + flatten(s.drop_first())
    }
}

impl ShardQueue {
    /// The ids of the pending shards, front first.
    pub closed spec fn pending_ids(&self) -> Seq<Seq<u64>> {
        Seq::new(self.pending@.len(), |i: int| self.pending@[i].0@)
    }

    /// The number the next shard gets.
    pub closed spec fn number(&self) -> usize {
        self.shard_number
    }

    /// How many shards were split.
    pub closed spec fn splits(&self) -> usize {
        self.split_count
    }

    /// The stored cost of each owner.
    pub closed spec fn costs(&self) -> Map<u64, usize> {
        self.id_costs@
    }

    /// Every pending shard carries its estimated cost.
    pub closed spec fn wf(&self) -> bool {
        forall|i: int| 0 <= i < self.pending@.len() ==> (#[trigger] self.pending@[i]).1 == cost_sum(self.pending@[i].0@, self.id_costs@)
    }

    /// The queue of a shard plan, each shard with its estimated cost.
    pub fn new(shards: &Vec<Vec<u64>>, id_costs: BTreeMap<u64, usize>) -> (r: Self)
        requires
            forall|i: int| 0 <= i < shards@.len() ==> cost_sum(#[trigger] shards@[i]@, id_costs@) <= usize::MAX,
        ensures
            r.wf(),
            r.pending_ids() == shard_views(shards@),
            r.costs() == id_costs@,
            r.number() == 0,
            r.splits() == 0,
    {
        let mut pending: VecDeque<(Vec<u64>, usize)> = VecDeque::new();
        let mut i: usize = 0;
        while i < shards.len()
            invariant
                i <= shards@.len(),
                forall|k: int| 0 <= k < shards@.len() ==> cost_sum(#[trigger] shards@[k]@, id_costs@) <= usize::MAX,
                pending@.len() == i,
                forall|k: int| 0 <= k < i ==> (#[trigger] pending@[k]).0@ == shards@[k]@ && pending@[k].1 == cost_sum(shards@[k]@, id_costs@),
            decreases shards@.len() - i,
        {
            let ids = vstd::slice::slice_to_vec(shards[i].as_slice());
            let cost = estimated_cost(ids.as_slice(), &id_costs);
            pending.push_back((ids, cost));
            i += 1;
        }
        let r = ShardQueue { pending, id_costs, shard_number: 0, split_count: 0 };
        proof {
            assert(r.pending_ids() =~= shard_views(shards@));
        }
        r
    }

    /// Takes the front shard, numbered with the current shard number.
    pub fn next_shard(&mut self) -> (r: Option<ShardTask>)
        requires
            old(self).wf(),
        ensures
            final(self).wf(),
            final(self).costs() == old(self).costs(),
            final(self).number() == old(self).number(),
            final(self).splits() == old(self).splits(),
            old(self).pending_ids().len() == 0 ==> r is None && final(self).pending_ids() == old(self).pending_ids(),
            old(self).pending_ids().len() != 0 ==> (r matches Some(t) && t.number == old(self).number()
                && t.ids@ == old(self).pending_ids()[0]
                && t.estimated_cost_bytes == cost_sum(t.ids@, old(self).costs())
                && final(self).pending_ids() == old(self).pending_ids().drop_first()),
    {
        match self.pending.pop_front() {
            None => None,
            Some((ids, cost)) => {
                proof {
                    assert(self.pending_ids() =~= old(self).pending_ids().drop_first());
                    assert(old(self).pending@[0].1 == cost_sum(old(self).pending@[0].0@, old(self).id_costs@));
                }
                Some(ShardTask { number: self.shard_number, ids, estimated_cost_bytes: cost })
            },
        }
    }

    /// Records that the shard taken last was delivered.
    pub fn completed(&mut self)
        requires
            old(self).number() < usize::MAX,
        ensures
            final(self).number() == old(self).number() + 1,
            final(self).pending_ids() == old(self).pending_ids(),
            final(self).splits() == old(self).splits(),
            final(self).costs() == old(self).costs(),
            old(self).wf() ==> final(self).wf(),
    {
        self.shard_number = self.shard_number + 1;
    }

    /// A worker of `task` exceeded its resource budget. With a budget set
    /// and more than one owner, the shard's ordered ids are split at their
    /// midpoint and both halves run next, left first; a single owner is
    /// not split and the failure stands (`false`).
    pub fn split_on_budget(&mut self, task: &ShardTask, budgets_enabled: bool) -> (r: bool)
        requires
            old(self).wf(),
            old(self).number() < usize::MAX,
            old(self).splits() < usize::MAX,
            cost_sum(task.ids@, old(self).costs()) <= usize::MAX,
        ensures
            final(self).wf(),
            final(self).costs() == old(self).costs(),
            r == (budgets_enabled && task.ids@.len() > 1),
            !r ==> final(self).pending_ids() == old(self).pending_ids() && final(self).number() == old(self).number()
                && final(self).splits() == old(self).splits(),
            r ==> final(self).pending_ids() == seq![
                task.ids@.subrange(0, (task.ids@.len() / 2) as int),
                task.ids@.subrange((task.ids@.len() / 2) as int, task.ids@.len() as int),
            ] + old(self).pending_ids() && final(self).number() == old(self).number() + 1
                && final(self).splits() == old(self).splits() + 1,
    {
        if !(budgets_enabled && task.ids.len() > 1) {
            return false;
        }
        let midpoint = task.ids.len() / 2;
        let left = vstd::slice::slice_to_vec(vstd::slice::slice_subrange(task.ids.as_slice(), 0, midpoint));
        let right = vstd::slice::slice_to_vec(
            vstd::slice::slice_subrange(task.ids.as_slice(), midpoint, task.ids.len()),
        );
        proof {
            lemma_cost_sum_split(task.ids@, self.id_costs@, midpoint as int);
        }
        let right_cost = estimated_cost(right.as_slice(), &self.id_costs);
        let left_cost = estimated_cost(left.as_slice(), &self.id_costs);
        let ghost before = self.pending@;
        self.pending.push_front((right, right_cost));
        self.pending.push_front((left, left_cost));
        self.split_count = self.split_count + 1;
        self.shard_number = self.shard_number + 1;
        proof {
            assert(self.pending_ids() =~= seq![
                task.ids@.subrange(0, (task.ids@.len() / 2) as int),
                task.ids@.subrange((task.ids@.len() / 2) as int, task.ids@.len() as int),
            ] + old(self).pending_ids());
            assert forall|i: int| 0 <= i < self.pending@.len() implies (#[trigger] self.pending@[i]).1 == cost_sum(self.pending@[i].0@, self.id_costs@) by {
                if i >= 2 {
                    assert(self.pending@[i] == before[i - 2]);
                }
            }
        }
        true
    }
}

/// A split keeps the owners and their order: the two halves, then the
/// rest of the queue, flatten to the split shard's ids followed by the
/// rest; each half is nonempty and shorter than the shard.
pub proof fn lemma_split_keeps_owner_order(ids: Seq<u64>, rest: Seq<Seq<u64>>)
    requires
        ids.len() > 1,
    ensures
        ({
            let left = ids.subrange(0, (ids.len() / 2) as int);
            let right = ids.subrange((ids.len() / 2) as int, ids.len() as int);
            &&& flatten(seq![left, right] + rest) == ids + flatten(rest)
            &&& 0 < left.len() < ids.len()
            &&& 0 < right.len() < ids.len()
        }),
{
    let left = ids.subrange(0, (ids.len() / 2) as int);
    let right = ids.subrange((ids.len() / 2) as int, ids.len() as int);
    let s = seq![left, right] + rest;
    let t = seq![right] + rest;
    assert(s.drop_first() =~= t);
    assert(t.drop_first() =~= rest);
    assert(s[0] == left && t[0] == right);
    assert(flatten(t) == right + flatten(rest));
    assert(flatten(s) == left + flatten(t));
    assert(left + (right + flatten(rest)) =~= ids + flatten(rest));
}

/// The status of a sharded delivery: `empty` without shards, `partial`
/// when a shard is not a complete supported subset, else complete.
pub fn sharded_status(shard_statuses: &[String]) -> (r: &'static str)
    ensures
        shard_statuses@.len() == 0 ==> r@ == "empty"@,
        shard_statuses@.len() != 0 && (exists|i: int| 0 <= i < shard_statuses@.len() && (#[trigger] shard_statuses@[i])@ != "complete_supported_subset"@) ==> r@ == "partial"@,
        shard_statuses@.len() != 0 && (forall|i: int| 0 <= i < shard_statuses@.len() ==> (#[trigger] shard_statuses@[i])@ == "complete_supported_subset"@) ==> r@ == "complete_supported_subset"@,
{
    if shard_statuses.len() == 0 {
        return "empty";
    }
    let mut i: usize = 0;
    while i < shard_statuses.len()
        invariant
            i <= shard_statuses@.len(),
            forall|k: int| 0 <= k < i ==> (#[trigger] shard_statuses@[k])@ == "complete_supported_subset"@,
        decreases shard_statuses@.len() - i,
    {
        if !str_eq(shard_statuses[i].as_str(), "complete_supported_subset") {
            return "partial";
        }
        i += 1;
    }
    "complete_supported_subset"
}

/// How the shards of a run were formed.
pub fn selection_semantics(cost_budget: bool) -> (r: &'static str)
    ensures
        cost_budget ==> r@ == "shards are deterministic current channel-102 id order packed by validated channel-102/103 stored-body cost; worker-budget-pathological shards are recursively split into ordered child packages"@,
        !cost_budget ==> r@ == "shards are deterministic current channel-102 id ranges; worker-budget-pathological shards are recursively split into ordered child packages"@,
{
    if cost_budget {
        "shards are deterministic current channel-102 id order packed by validated channel-102/103 stored-body cost; worker-budget-pathological shards are recursively split into ordered child packages"
    } else {
        "shards are deterministic current channel-102 id ranges; worker-budget-pathological shards are recursively split into ordered child packages"
    }
}

/// Whether a shard plan covers the requested owners exactly once.
pub fn plan_covers_exactly(plan: &Vec<Vec<u64>>, requested: &[u64]) -> (r: bool)
    ensures
        r == (flatten(shard_views(plan@)).to_set() == requested@.to_set() && flatten(shard_views(plan@)).no_duplicates() && requested@.no_duplicates()),
{
    let mut all: Vec<u64> = Vec::new();
    let mut i: usize = 0;
    while i < plan.len()
        invariant
            i <= plan@.len(),
            all@ == flatten(shard_views(plan@).take(i as int)),
        decreases plan@.len() - i,
    {
        let mut j: usize = 0;
        let ghost base = all@;
        while j < plan[i].len()
            invariant
                i < plan@.len(),
                j <= plan@[i as int]@.len(),
                all@ == base + plan@[i as int]@.take(j as int),
            decreases plan@[i as int]@.len() - j,
        {
            all.push(plan[i][j]);
            proof {
                assert(plan@[i as int]@.take(j + 1) =~= plan@[i as int]@.take(j as int).push(plan@[i as int]@[j as int]));
            }
            j += 1;
        }
        proof {
            assert(plan@[i as int]@.take(plan@[i as int]@.len() as int) =~= plan@[i as int]@);
            lemma_flatten_push(shard_views(plan@).take(i as int), plan@[i as int]@);
            assert(shard_views(plan@).take(i + 1) =~= shard_views(plan@).take(i as int).push(plan@[i as int]@));
        }
        i += 1;
    }
    proof {
        assert(shard_views(plan@).take(plan@.len() as int) =~= shard_views(plan@));
    }
    let planned = sorted_unique(all.as_slice());
    let wanted = sorted_unique(requested);
    let same = planned.len() == wanted.len() && {
        let mut k: usize = 0;
        let mut eq = true;
        while k < planned.len()
            invariant
                planned@.len() == wanted@.len(),
                k <= planned@.len(),
                eq == forall|m: int| 0 <= m < k ==> planned@[m] == wanted@[m],
            decreases planned@.len() - k,
        {
            if planned[k] != wanted[k] {
                eq = false;
            }
            k += 1;
        }
        eq
    };
    proof {
        lemma_increasing_set_eq(planned@, wanted@);
        lemma_unique_len(all@, planned@);
        lemma_unique_len(requested@, wanted@);
        if same {
            assert(planned@ =~= wanted@);
        }
        if planned@ == wanted@ {
            assert(same);
        }
    }
    same && planned.len() == all.len() && wanted.len() == requested.len()
}

proof fn lemma_flatten_push(s: Seq<Seq<u64>>, x: Seq<u64>)
    ensures
        flatten(s.push(x)) == flatten(s) + x,
    decreases s.len(),
{
    if s.len() == 0 {
        assert(s.push(x).drop_first() =~= Seq::<Seq<u64>>::empty());
        assert(flatten(Seq::<Seq<u64>>::empty()) == Seq::<u64>::empty());
        assert(s.push(x)[0] == x);
        assert(flatten(s.push(x)) == x + Seq::<u64>::empty());
        assert(flatten(s) == Seq::<u64>::empty());
        assert(x + Seq::<u64>::empty() =~= x);
    } else {
        assert(s.push(x).drop_first() =~= s.drop_first().push(x));
        lemma_flatten_push(s.drop_first(), x);
        assert(flatten(s.push(x)) =~= s[0] + (flatten(s.drop_first()) + x));
    }
}

/// Two increasing sequences are equal exactly when their sets are.
proof fn lemma_increasing_set_eq(a: Seq<u64>, b: Seq<u64>)
    requires
        increasing(a),
        increasing(b),
    ensures
        (a == b) == (a.to_set() == b.to_set()),
    decreases a.len() + b.len(),
{
    if a.to_set() == b.to_set() && a != b {
        if a.len() == 0 || b.len() == 0 {
            if a.len() != 0 {
                assert(a.to_set().contains(a[0]));
            } else if b.len() != 0 {
                assert(b.to_set().contains(b[0]));
            } else {
                assert(a =~= b);
            }
        } else {
            // The least elements agree, then the rests.
            assert(a.to_set().contains(a[0]) && b.to_set().contains(b[0]));
            let ka = choose|k: int| 0 <= k < b.len() && b[k] == a[0];
            let kb = choose|k: int| 0 <= k < a.len() && a[k] == b[0];
            assert(a[0] == b[0]) by {
                if ka > 0 {
                    assert(b[0] < b[ka]);
                }
                if kb > 0 {
                    assert(a[0] < a[kb]);
                }
            }
            let ra = a.drop_first();
            let rb = b.drop_first();
            assert forall|y: u64| ra.to_set().contains(y) <==> rb.to_set().contains(y) by {
                if ra.contains(y) {
                    let k = choose|k: int| 0 <= k < ra.len() && ra[k] == y;
                    assert(a[k + 1] == y);
                    assert(a.to_set().contains(y));
                    let m = choose|m: int| 0 <= m < b.len() && b[m] == y;
                    assert(y > a[0]);
                    if m == 0 {
                        assert(false);
                    }
                    assert(rb[m - 1] == y);
                }
                if rb.contains(y) {
                    let k = choose|k: int| 0 <= k < rb.len() && rb[k] == y;
                    assert(b[k + 1] == y);
                    assert(b.to_set().contains(y));
                    let m = choose|m: int| 0 <= m < a.len() && a[m] == y;
                    assert(y > b[0]);
                    if m == 0 {
                        assert(false);
                    }
                    assert(ra[m - 1] == y);
                }
            }
            assert(ra.to_set() =~= rb.to_set());
            lemma_increasing_set_eq(ra, rb);
            assert(a =~= seq![a[0]] + ra);
            assert(b =~= seq![b[0]] + rb);
        }
    }
}

/// An increasing sequence with the set of `s` is as long as `s` exactly
/// when `s` has no duplicates.
proof fn lemma_unique_len(s: Seq<u64>, u: Seq<u64>)
    requires
        increasing(u),
        u.to_set() == s.to_set(),
    ensures
        (u.len() == s.len()) == s.no_duplicates(),
{
    assert(u.no_duplicates()) by {
        assert forall|i: int, j: int| 0 <= i < u.len() && 0 <= j < u.len() && i != j implies u[i] != u[j] by {
            if i < j {
                assert(u[i] < u[j]);
            } else {
                assert(u[j] < u[i]);
            }
        }
    }
    u.unique_seq_to_set();
    if u.len() == s.len() {
        s.lemma_no_dup_set_cardinality();
    }
    if s.no_duplicates() {
        s.unique_seq_to_set();
    }
}


/// Coverage that makes a package shard partial: diagnostics, partial,
/// metadata-only, non-renderable or geometry-only owners, or unresolved
/// materials.
pub open spec fn coverage_is_partial(c: Coverage) -> bool {
    c.diagnostics@.len() > 0 || c.partial_records > 0 || c.metadata_only_records > 0
        || c.nonrenderable_graphics_records > 0 || c.geometry_only_records > 0
        || c.unresolved_material_primitives > 0
}

fn coverage_is_partial_exec(c: &Coverage) -> (r: bool)
    ensures
        r == coverage_is_partial(*c),
{
    c.diagnostics.len() > 0 || c.partial_records > 0 || c.metadata_only_records > 0
        || c.nonrenderable_graphics_records > 0 || c.geometry_only_records > 0
        || c.unresolved_material_primitives > 0
}


/// A shard coverage with any diagnostic, partial, metadata-only,
/// non-renderable, geometry-only owner or unresolved material is partial,
/// and a coverage with none of them is not.
pub proof fn lemma_partial_coverage_causes(c: Coverage)
    ensures
        c.diagnostics@.len() > 0 ==> coverage_is_partial(c),
        c.partial_records > 0 ==> coverage_is_partial(c),
        c.metadata_only_records > 0 ==> coverage_is_partial(c),
        c.nonrenderable_graphics_records > 0 ==> coverage_is_partial(c),
        c.geometry_only_records > 0 ==> coverage_is_partial(c),
        c.unresolved_material_primitives > 0 ==> coverage_is_partial(c),
        c.diagnostics@.len() == 0 && c.partial_records == 0 && c.metadata_only_records == 0
            && c.nonrenderable_graphics_records == 0 && c.geometry_only_records == 0
            && c.unresolved_material_primitives == 0 ==> !coverage_is_partial(c),
{
}

/// The status of a package written shard by shard in one session:
/// `empty` without shards, `partial` when a shard's coverage is partial,
/// else a complete supported subset.
pub fn package_shards_status(shards: &[ShardEntry]) -> (r: &'static str)
    ensures
        shards@.len() == 0 ==> r@ == "empty"@,
        shards@.len() != 0 && (exists|i: int| 0 <= i < shards@.len() && coverage_is_partial((#[trigger] shards@[i]).coverage)) ==> r@ == "partial"@,
        shards@.len() != 0 && (forall|i: int| 0 <= i < shards@.len() ==> !coverage_is_partial((#[trigger] shards@[i]).coverage)) ==> r@ == "complete_supported_subset"@,
        r@ == "complete_supported_subset"@ ==> shards@.len() != 0 && forall|i: int| 0 <= i < shards@.len() ==> {
            let c = (#[trigger] shards@[i]).coverage;
            &&& c.diagnostics@.len() == 0
            &&& c.partial_records == 0
            &&& c.metadata_only_records == 0
            &&& c.nonrenderable_graphics_records == 0
            &&& c.geometry_only_records == 0
            &&& c.unresolved_material_primitives == 0
        },
        r@ == "empty"@ || r@ == "partial"@ || r@ == "complete_supported_subset"@,
{
    proof {
        reveal_strlit("empty");
        reveal_strlit("partial");
        reveal_strlit("complete_supported_subset");
        assert("empty"@.len() == 5 && "partial"@.len() == 7 && "complete_supported_subset"@.len() == 25);
    }
    if shards.len() == 0 {
        return "empty";
    }
    let mut i: usize = 0;
    while i < shards.len()
        invariant
            i <= shards@.len(),
            forall|k: int| 0 <= k < i ==> !coverage_is_partial((#[trigger] shards@[k]).coverage),
        decreases shards@.len() - i,
    {
        if coverage_is_partial_exec(&shards[i].coverage) {
            proof {
                reveal_strlit("partial");
                reveal_strlit("complete_supported_subset");
                assert("partial"@.len() == 7 && "complete_supported_subset"@.len() == 25);
            }
            return "partial";
        }
        i += 1;
    }
    "complete_supported_subset"
}

/// How the shards of a single-session package were formed.
pub fn package_selection_semantics(category_selected: bool) -> (r: &'static str)
    ensures
        category_selected ==> r@ == "shards are deterministic selected native BuiltInCategory id ranges; every selected owner has one prepared metadata row"@,
        !category_selected ==> r@ == "shards are deterministic current channel-102 id ranges; each child is a normal delivery package"@,
{
    if category_selected {
        "shards are deterministic selected native BuiltInCategory id ranges; every selected owner has one prepared metadata row"
    } else {
        "shards are deterministic current channel-102 id ranges; each child is a normal delivery package"
    }
}

/// The selected ids a category-selected manifest lists: the distinct ids
/// of its shards in increasing order, as many as the receipt selected.
pub fn selected_ids_for_manifest(shard_ids: &Vec<Vec<u64>>, receipt_selected_records: usize) -> (r: Option<Vec<u64>>)
    ensures
        match r {
            Some(ids) => increasing(ids@) && ids@.to_set() == flatten(shard_views(shard_ids@)).to_set()
                && ids@.len() == receipt_selected_records,
            None => flatten(shard_views(shard_ids@)).to_set().len() != receipt_selected_records,
        },
{
    let mut all: Vec<u64> = Vec::new();
    let mut i: usize = 0;
    while i < shard_ids.len()
        invariant
            i <= shard_ids@.len(),
            all@ == flatten(shard_views(shard_ids@).take(i as int)),
        decreases shard_ids@.len() - i,
    {
        let mut j: usize = 0;
        let ghost base = all@;
        while j < shard_ids[i].len()
            invariant
                i < shard_ids@.len(),
                j <= shard_ids@[i as int]@.len(),
                all@ == base + shard_ids@[i as int]@.take(j as int),
            decreases shard_ids@[i as int]@.len() - j,
        {
            all.push(shard_ids[i][j]);
            proof {
                assert(shard_ids@[i as int]@.take(j + 1) =~= shard_ids@[i as int]@.take(j as int).push(shard_ids@[i as int]@[j as int]));
            }
            j += 1;
        }
        proof {
            assert(shard_ids@[i as int]@.take(shard_ids@[i as int]@.len() as int) =~= shard_ids@[i as int]@);
            lemma_flatten_push(shard_views(shard_ids@).take(i as int), shard_ids@[i as int]@);
            assert(shard_views(shard_ids@).take(i + 1) =~= shard_views(shard_ids@).take(i as int).push(shard_ids@[i as int]@));
        }
        i += 1;
    }
    proof {
        assert(shard_views(shard_ids@).take(shard_ids@.len() as int) =~= shard_views(shard_ids@));
    }
    let ids = sorted_unique(all.as_slice());
    proof {
        lemma_increasing_set_len(ids@);
    }
    if ids.len() != receipt_selected_records {
        return None;
    }
    Some(ids)
}

proof fn lemma_increasing_set_len(u: Seq<u64>)
    requires
        increasing(u),
    ensures
        u.to_set().len() == u.len(),
{
    assert(u.no_duplicates()) by {
        assert forall|i: int, j: int| 0 <= i < u.len() && 0 <= j < u.len() && i != j implies u[i] != u[j] by {
            if i < j {
                assert(u[i] < u[j]);
            } else {
                assert(u[j] < u[i]);
            }
        }
    }
    u.unique_seq_to_set();
}

/// The owners a delivery covers, in increasing id order: the metadata
/// filter when given, else the selected ids when any, else every current
/// channel-102 owner.
pub fn current_requested_ids(
    metadata_ids: Option<&BTreeSet<u64>>,
    selected_ids: &BTreeSet<u64>,
    index: &PhysicalIndex,
) -> (r: Vec<u64>)
    requires
        index.wf(),
    ensures
        increasing(r@),
        r@.to_set() == match metadata_ids {
            Some(ids) => ids@,
            None => if selected_ids@.len() != 0 {
                selected_ids@
            } else {
                spec_current_ids(index.view(), 102)
            },
        },
{
    let set = match metadata_ids {
        Some(ids) => set_to_vec(ids),
        None => if selected_ids.len() != 0 {
            set_to_vec(selected_ids)
        } else {
            let current = index.current_ids(102);
            set_to_vec(&current)
        },
    };
    sorted_unique(set.as_slice())
}

} // verus!
