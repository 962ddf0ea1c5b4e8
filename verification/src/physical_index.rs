//! Validated physical locations of current native records.
//!
//! The index keeps, per partition stream, the group marker offset of every
//! current `(channel, id)` record, the stored body size of each record, and
//! for every owner the sorted set of streams that hold its records.
use vstd::prelude::*;
use std::collections::BTreeSet;

use crate::order::{keys_eq_exec, keys_lt, keys_lt_exec, lemma_name_lt_irreflexive, lemma_name_lt_total, lemma_name_lt_transitive, name_lt, name_lt_exec, names, strictly_sorted};
use crate::text::str_eq;
use crate::framing::{
    body_total, frames_body_total, id_at, le_u32, parse_frames, physical_fault, read_u32_le,
    read_u64_le, Frame, FramingError, GroupSource,
};

verus! {

broadcast use vstd::std_specs::btree::group_btree_axioms;

struct GroupEntry {
    stream: String,
    channel: u64,
    id: u64,
    offset: usize,
}

struct CostEntry {
    channel: u64,
    id: u64,
    bytes: usize,
}

struct OwnerEntry {
    id: u64,
    streams: Vec<String>,
}

/// Why an index update or a shard plan was refused.
#[derive(Clone, Copy, Debug, PartialEq, Eq)]
pub enum IndexError {
    /// A group payload failed its framing checks.
    Framing(crate::framing::FramingError),
    /// The same current record occurs twice in one stream.
    AmbiguousInStream { id: u64, channel: u64 },
    /// The same current record occurs in two streams.
    AmbiguousAcrossPartitions { id: u64, channel: u64 },
    /// Sharding was asked for with neither an id nor a byte budget.
    NoShardBudget,
    /// A requested owner has no current physical record.
    OwnerWithoutRecord(u64),
}

/// The abstract content of a [`PhysicalIndex`].
#[verifier::ext_equal]
pub struct IndexView {
    /// Group marker offset by `(stream, channel, id)`.
    pub groups: Map<(Seq<char>, u64, u64), usize>,
    /// Stored body size by `(channel, id)`.
    pub record_bytes: Map<(u64, u64), usize>,
    /// Streams holding each owner's records, in increasing name order.
    pub owner_streams: Map<u64, Seq<Seq<char>>>,
}

spec fn gkey(e: GroupEntry) -> (Seq<char>, u64, u64) {
    (e.stream@, e.channel, e.id)
}

spec fn groups_unique(s: Seq<GroupEntry>) -> bool {
    forall|i: int, j: int|
        0 <= i < s.len() && 0 <= j < s.len() && i != j ==> gkey(#[trigger] s[i]) != gkey(
            #[trigger] s[j],
        )
}

spec fn groups_map(s: Seq<GroupEntry>) -> Map<(Seq<char>, u64, u64), usize> {
    Map::new(
        |k: (Seq<char>, u64, u64)| exists|i: int| 0 <= i < s.len() && gkey(s[i]) == k,
        |k: (Seq<char>, u64, u64)| s[choose|i: int| 0 <= i < s.len() && gkey(s[i]) == k].offset,
    )
}

proof fn lemma_groups_at(s: Seq<GroupEntry>, j: int)
    requires
        groups_unique(s),
        0 <= j < s.len(),
    ensures
        groups_map(s).contains_key(gkey(s[j])),
        groups_map(s)[gkey(s[j])] == s[j].offset,
{
    let k = gkey(s[j]);
    assert(0 <= j < s.len() && gkey(s[j]) == k);
    let i = choose|i: int| 0 <= i < s.len() && gkey(s[i]) == k;
    assert(i == j);
}

proof fn lemma_groups_push(s: Seq<GroupEntry>, e: GroupEntry)
    requires
        groups_unique(s),
        !groups_map(s).contains_key(gkey(e)),
    ensures
        groups_unique(s.push(e)),
        groups_map(s.push(e)) == groups_map(s).insert(gkey(e), e.offset),
{
    let t = s.push(e);
    assert forall|i: int| 0 <= i < s.len() implies gkey(#[trigger] s[i]) != gkey(e) by {
        if gkey(s[i]) == gkey(e) {
            lemma_groups_at(s, i);
        }
    }
    assert(groups_unique(t)) by {
        assert forall|i: int, j: int|
            0 <= i < t.len() && 0 <= j < t.len() && i != j implies gkey(#[trigger] t[i]) != gkey(
            #[trigger] t[j],
        ) by {
            if i < s.len() && j < s.len() {
                assert(t[i] == s[i] && t[j] == s[j]);
            } else if i < s.len() {
                assert(t[i] == s[i]);
            } else {
                assert(t[j] == s[j]);
            }
        }
    }
    let m = groups_map(s).insert(gkey(e), e.offset);
    assert forall|k: (Seq<char>, u64, u64)| #[trigger] groups_map(t).contains_key(k) <==> m.contains_key(k) by {
        if k == gkey(e) {
            assert(0 <= s.len() < t.len() && gkey(t[s.len() as int]) == k);
        }
        if m.contains_key(k) && k != gkey(e) {
            let i = choose|i: int| 0 <= i < s.len() && gkey(s[i]) == k;
            assert(t[i] == s[i]);
        }
        if groups_map(t).contains_key(k) {
            let i = choose|i: int| 0 <= i < t.len() && gkey(t[i]) == k;
            if i < s.len() {
                assert(t[i] == s[i]);
            }
        }
    }
    assert forall|k: (Seq<char>, u64, u64)| groups_map(t).contains_key(k) implies #[trigger] groups_map(t)[k] == m[k] by {
        if k == gkey(e) {
            lemma_groups_at(t, s.len() as int);
        } else {
            let i = choose|i: int| 0 <= i < s.len() && gkey(s[i]) == k;
            lemma_groups_at(s, i);
            assert(t[i] == s[i]);
            lemma_groups_at(t, i);
        }
    }
    assert(groups_map(t) =~= m);
}

proof fn lemma_groups_update(s: Seq<GroupEntry>, j: int, e: GroupEntry)
    requires
        groups_unique(s),
        0 <= j < s.len(),
        gkey(s[j]) == gkey(e),
    ensures
        groups_unique(s.update(j, e)),
        groups_map(s.update(j, e)) == groups_map(s).insert(gkey(e), e.offset),
{
    let t = s.update(j, e);
    assert(groups_unique(t)) by {
        assert forall|a: int, b: int|
            0 <= a < t.len() && 0 <= b < t.len() && a != b implies gkey(#[trigger] t[a]) != gkey(
            #[trigger] t[b],
        ) by {
            assert(gkey(t[a]) == gkey(s[a]));
            assert(gkey(t[b]) == gkey(s[b]));
        }
    }
    let m = groups_map(s).insert(gkey(e), e.offset);
    assert forall|k: (Seq<char>, u64, u64)| #[trigger] groups_map(t).contains_key(k) <==> m.contains_key(k) by {
        if m.contains_key(k) {
            if k == gkey(e) {
                assert(gkey(t[j]) == k);
            } else {
                let i = choose|i: int| 0 <= i < s.len() && gkey(s[i]) == k;
                assert(gkey(t[i]) == k);
            }
        }
        if groups_map(t).contains_key(k) {
            let i = choose|i: int| 0 <= i < t.len() && gkey(t[i]) == k;
            assert(gkey(s[i]) == k);
        }
    }
    assert forall|k: (Seq<char>, u64, u64)| groups_map(t).contains_key(k) implies #[trigger] groups_map(t)[k] == m[k] by {
        if k == gkey(e) {
            lemma_groups_at(t, j);
        } else {
            let i = choose|i: int| 0 <= i < s.len() && gkey(s[i]) == k;
            lemma_groups_at(s, i);
            assert(t[i] == s[i]);
            lemma_groups_at(t, i);
        }
    }
    assert(groups_map(t) =~= m);
}

spec fn ckey(e: CostEntry) -> (u64, u64) {
    (e.channel, e.id)
}

spec fn costs_unique(s: Seq<CostEntry>) -> bool {
    forall|i: int, j: int|
        0 <= i < s.len() && 0 <= j < s.len() && i != j ==> ckey(#[trigger] s[i]) != ckey(
            #[trigger] s[j],
        )
}

spec fn costs_map(s: Seq<CostEntry>) -> Map<(u64, u64), usize> {
    Map::new(
        |k: (u64, u64)| exists|i: int| 0 <= i < s.len() && ckey(s[i]) == k,
        |k: (u64, u64)| s[choose|i: int| 0 <= i < s.len() && ckey(s[i]) == k].bytes,
    )
}

proof fn lemma_costs_at(s: Seq<CostEntry>, j: int)
    requires
        costs_unique(s),
        0 <= j < s.len(),
    ensures
        costs_map(s).contains_key(ckey(s[j])),
        costs_map(s)[ckey(s[j])] == s[j].bytes,
{
    let k = ckey(s[j]);
    assert(0 <= j < s.len() && ckey(s[j]) == k);
    let i = choose|i: int| 0 <= i < s.len() && ckey(s[i]) == k;
    assert(i == j);
}

proof fn lemma_costs_push(s: Seq<CostEntry>, e: CostEntry)
    requires
        costs_unique(s),
        !costs_map(s).contains_key(ckey(e)),
    ensures
        costs_unique(s.push(e)),
        costs_map(s.push(e)) == costs_map(s).insert(ckey(e), e.bytes),
{
    let t = s.push(e);
    assert forall|i: int| 0 <= i < s.len() implies ckey(#[trigger] s[i]) != ckey(e) by {
        if ckey(s[i]) == ckey(e) {
            lemma_costs_at(s, i);
        }
    }
    assert(costs_unique(t)) by {
        assert forall|i: int, j: int|
            0 <= i < t.len() && 0 <= j < t.len() && i != j implies ckey(#[trigger] t[i]) != ckey(
            #[trigger] t[j],
        ) by {
            if i < s.len() && j < s.len() {
                assert(t[i] == s[i] && t[j] == s[j]);
            } else if i < s.len() {
                assert(t[i] == s[i]);
            } else {
                assert(t[j] == s[j]);
            }
        }
    }
    let m = costs_map(s).insert(ckey(e), e.bytes);
    assert forall|k: (u64, u64)| #[trigger] costs_map(t).contains_key(k) <==> m.contains_key(k) by {
        if k == ckey(e) {
            assert(0 <= s.len() < t.len() && ckey(t[s.len() as int]) == k);
        }
        if m.contains_key(k) && k != ckey(e) {
            let i = choose|i: int| 0 <= i < s.len() && ckey(s[i]) == k;
            assert(t[i] == s[i]);
        }
        if costs_map(t).contains_key(k) {
            let i = choose|i: int| 0 <= i < t.len() && ckey(t[i]) == k;
            if i < s.len() {
                assert(t[i] == s[i]);
            }
        }
    }
    assert forall|k: (u64, u64)| costs_map(t).contains_key(k) implies #[trigger] costs_map(t)[k] == m[k] by {
        if k == ckey(e) {
            lemma_costs_at(t, s.len() as int);
        } else {
            let i = choose|i: int| 0 <= i < s.len() && ckey(s[i]) == k;
            lemma_costs_at(s, i);
            assert(t[i] == s[i]);
            lemma_costs_at(t, i);
        }
    }
    assert(costs_map(t) =~= m);
}

proof fn lemma_costs_update(s: Seq<CostEntry>, j: int, e: CostEntry)
    requires
        costs_unique(s),
        0 <= j < s.len(),
        ckey(s[j]) == ckey(e),
    ensures
        costs_unique(s.update(j, e)),
        costs_map(s.update(j, e)) == costs_map(s).insert(ckey(e), e.bytes),
{
    let t = s.update(j, e);
    assert(costs_unique(t)) by {
        assert forall|a: int, b: int|
            0 <= a < t.len() && 0 <= b < t.len() && a != b implies ckey(#[trigger] t[a]) != ckey(
            #[trigger] t[b],
        ) by {
            assert(ckey(t[a]) == ckey(s[a]));
            assert(ckey(t[b]) == ckey(s[b]));
        }
    }
    let m = costs_map(s).insert(ckey(e), e.bytes);
    assert forall|k: (u64, u64)| #[trigger] costs_map(t).contains_key(k) <==> m.contains_key(k) by {
        if m.contains_key(k) {
            if k == ckey(e) {
                assert(ckey(t[j]) == k);
            } else {
                let i = choose|i: int| 0 <= i < s.len() && ckey(s[i]) == k;
                assert(ckey(t[i]) == k);
            }
        }
        if costs_map(t).contains_key(k) {
            let i = choose|i: int| 0 <= i < t.len() && ckey(t[i]) == k;
            assert(ckey(s[i]) == k);
        }
    }
    assert forall|k: (u64, u64)| costs_map(t).contains_key(k) implies #[trigger] costs_map(t)[k] == m[k] by {
        if k == ckey(e) {
            lemma_costs_at(t, j);
        } else {
            let i = choose|i: int| 0 <= i < s.len() && ckey(s[i]) == k;
            lemma_costs_at(s, i);
            assert(t[i] == s[i]);
            lemma_costs_at(t, i);
        }
    }
    assert(costs_map(t) =~= m);
}

spec fn owners_unique(s: Seq<OwnerEntry>) -> bool {
    forall|i: int, j: int|
        0 <= i < s.len() && 0 <= j < s.len() && i != j ==> (#[trigger] s[i]).id != (
        #[trigger] s[j]).id
}

spec fn owners_map(s: Seq<OwnerEntry>) -> Map<u64, Seq<Seq<char>>> {
    Map::new(
        |k: u64| exists|i: int| 0 <= i < s.len() && s[i].id == k,
        |k: u64| names(s[choose|i: int| 0 <= i < s.len() && s[i].id == k].streams@),
    )
}

proof fn lemma_owners_at(s: Seq<OwnerEntry>, j: int)
    requires
        owners_unique(s),
        0 <= j < s.len(),
    ensures
        owners_map(s).contains_key(s[j].id),
        owners_map(s)[s[j].id] == names(s[j].streams@),
{
    let k = s[j].id;
    assert(0 <= j < s.len() && s[j].id == k);
    let i = choose|i: int| 0 <= i < s.len() && s[i].id == k;
    assert(i == j);
}

proof fn lemma_owners_push(s: Seq<OwnerEntry>, e: OwnerEntry)
    requires
        owners_unique(s),
        !owners_map(s).contains_key(e.id),
    ensures
        owners_unique(s.push(e)),
        owners_map(s.push(e)) == owners_map(s).insert(e.id, names(e.streams@)),
{
    let t = s.push(e);
    assert forall|i: int| 0 <= i < s.len() implies (#[trigger] s[i]).id != e.id by {
        if s[i].id == e.id {
            lemma_owners_at(s, i);
        }
    }
    assert(owners_unique(t)) by {
        assert forall|i: int, j: int|
            0 <= i < t.len() && 0 <= j < t.len() && i != j implies (#[trigger] t[i]).id != (
            #[trigger] t[j]).id by {
            if i < s.len() && j < s.len() {
                assert(t[i] == s[i] && t[j] == s[j]);
            } else if i < s.len() {
                assert(t[i] == s[i]);
            } else {
                assert(t[j] == s[j]);
            }
        }
    }
    let m = owners_map(s).insert(e.id, names(e.streams@));
    assert(t[s.len() as int].id == e.id);
    assert forall|k: u64| #[trigger] owners_map(t).contains_key(k) <==> m.contains_key(k) by {
        if k == e.id {
            assert(0 <= s.len() < t.len() && t[s.len() as int].id == k);
        }
        if m.contains_key(k) && k != e.id {
            let i = choose|i: int| 0 <= i < s.len() && s[i].id == k;
            assert(t[i] == s[i]);
        }
        if owners_map(t).contains_key(k) {
            let i = choose|i: int| 0 <= i < t.len() && t[i].id == k;
            if i < s.len() {
                assert(t[i] == s[i]);
            }
        }
    }
    assert forall|k: u64| owners_map(t).contains_key(k) implies #[trigger] owners_map(t)[k] == m[k] by {
        if k == e.id {
            lemma_owners_at(t, s.len() as int);
        } else {
            let i = choose|i: int| 0 <= i < s.len() && s[i].id == k;
            lemma_owners_at(s, i);
            assert(t[i] == s[i]);
            lemma_owners_at(t, i);
        }
    }
    assert(owners_map(t) =~= m);
}

proof fn lemma_owners_update(s: Seq<OwnerEntry>, j: int, e: OwnerEntry)
    requires
        owners_unique(s),
        0 <= j < s.len(),
        s[j].id == e.id,
    ensures
        owners_unique(s.update(j, e)),
        owners_map(s.update(j, e)) == owners_map(s).insert(e.id, names(e.streams@)),
{
    let t = s.update(j, e);
    assert(owners_unique(t)) by {
        assert forall|a: int, b: int|
            0 <= a < t.len() && 0 <= b < t.len() && a != b implies (#[trigger] t[a]).id != (
            #[trigger] t[b]).id by {
            assert(t[a].id == s[a].id);
            assert(t[b].id == s[b].id);
        }
    }
    let m = owners_map(s).insert(e.id, names(e.streams@));
    assert forall|k: u64| #[trigger] owners_map(t).contains_key(k) <==> m.contains_key(k) by {
        if m.contains_key(k) {
            if k == e.id {
                assert(t[j].id == k);
            } else {
                let i = choose|i: int| 0 <= i < s.len() && s[i].id == k;
                assert(t[i].id == k);
            }
        }
        if owners_map(t).contains_key(k) {
            let i = choose|i: int| 0 <= i < t.len() && t[i].id == k;
            assert(s[i].id == k);
        }
    }
    assert forall|k: u64| owners_map(t).contains_key(k) implies #[trigger] owners_map(t)[k] == m[k] by {
        if k == e.id {
            lemma_owners_at(t, j);
        } else {
            let i = choose|i: int| 0 <= i < s.len() && s[i].id == k;
            lemma_owners_at(s, i);
            assert(t[i] == s[i]);
            lemma_owners_at(t, i);
        }
    }
    assert(owners_map(t) =~= m);
}

/// `x` placed into the strictly increasing sequence `s`, unless already there.
pub open spec fn sorted_insert(s: Seq<Seq<char>>, x: Seq<char>) -> Seq<Seq<char>>
    decreases s.len(),
{
    if s.len() == 0 {
        seq![x]
    } else if s[0] == x {
        s
    } else if name_lt(x, s[0]) {
        seq![x] + s
    } else {
        seq![s[0]] + sorted_insert(s.drop_first(), x)
    }
}

proof fn lemma_sorted_insert_at(s: Seq<Seq<char>>, x: Seq<char>, j: int)
    requires
        0 <= j <= s.len(),
        forall|m: int| 0 <= m < j ==> s[m] != x && !name_lt(x, #[trigger] s[m]),
        j < s.len() ==> (s[j] == x || name_lt(x, s[j])),
    ensures
        sorted_insert(s, x) == if j < s.len() && s[j] == x {
            s
        } else {
            s.insert(j, x)
        },
    decreases j,
{
    if j == 0 {
        if s.len() == 0 {
            assert(s.insert(0, x) =~= seq![x]);
        } else if s[0] != x {
            assert(s.insert(0, x) =~= seq![x] + s);
        }
    } else {
        let t = s.drop_first();
        assert forall|m: int| 0 <= m < j - 1 implies t[m] != x && !name_lt(x, #[trigger] t[m]) by {
            assert(t[m] == s[m + 1]);
        }
        lemma_sorted_insert_at(t, x, j - 1);
        assert(s =~= seq![s[0]] + t);
        if !(j < s.len() && s[j] == x) {
            assert(s.insert(j, x) =~= seq![s[0]] + t.insert(j - 1, x));
        }
    }
}

proof fn lemma_sorted_insert_sorted(s: Seq<Seq<char>>, x: Seq<char>, j: int)
    requires
        strictly_sorted(s),
        0 <= j <= s.len(),
        forall|m: int| 0 <= m < j ==> s[m] != x && !name_lt(x, #[trigger] s[m]),
        j < s.len() ==> (s[j] == x || name_lt(x, s[j])),
    ensures
        strictly_sorted(sorted_insert(s, x)),
{
    lemma_sorted_insert_at(s, x, j);
    if !(j < s.len() && s[j] == x) {
        let t = s.insert(j, x);
        assert forall|a: int, b: int| 0 <= a < b < t.len() implies name_lt(#[trigger] t[a], #[trigger] t[b]) by {
            if a < j {
                lemma_name_lt_total(s[a], x);
                if b < j {
                    assert(t[a] == s[a] && t[b] == s[b]);
                } else if b == j {
                    assert(t[b] == x);
                } else {
                    assert(t[b] == s[b - 1]);
                    if a < b - 1 {
                        assert(name_lt(s[a], s[b - 1]));
                    }
                }
            } else if a == j {
                assert(t[b] == s[b - 1]);
                if b - 1 > j {
                    assert(name_lt(s[j], s[b - 1]));
                    lemma_name_lt_transitive(x, s[j], s[b - 1]);
                }
            } else {
                assert(t[a] == s[a - 1] && t[b] == s[b - 1]);
            }
        }
    }
}

/// Validated physical locations of current native records.
pub struct PhysicalIndex {
    groups: Vec<GroupEntry>,
    costs: Vec<CostEntry>,
    owners: Vec<OwnerEntry>,
}

impl PhysicalIndex {
    /// The abstract content of the index.
    pub closed spec fn view(&self) -> IndexView {
        IndexView {
            groups: groups_map(self.groups@),
            record_bytes: costs_map(self.costs@),
            owner_streams: owners_map(self.owners@),
        }
    }

    /// Internal consistency: entries are keyed uniquely and every owner's
    /// streams are strictly increasing.
    pub closed spec fn wf(&self) -> bool {
        &&& groups_unique(self.groups@)
        &&& costs_unique(self.costs@)
        &&& owners_unique(self.owners@)
        &&& forall|i: int|
            0 <= i < self.owners@.len() ==> strictly_sorted(
                names((#[trigger] self.owners@[i]).streams@),
            )
    }

    /// Every owner's stream sequence is strictly increasing.
    pub proof fn lemma_owner_streams_sorted(&self)
        requires
            self.wf(),
        ensures
            forall|id: u64|
                #[trigger] self.view().owner_streams.contains_key(id) ==> strictly_sorted(
                    self.view().owner_streams[id],
                ),
    {
        assert forall|id: u64| #[trigger] self.view().owner_streams.contains_key(id) implies strictly_sorted(
            self.view().owner_streams[id],
        ) by {
            let i = choose|i: int| 0 <= i < self.owners@.len() && self.owners@[i].id == id;
            lemma_owners_at(self.owners@, i);
        }
    }

    /// An empty index.
    pub fn new() -> (r: Self)
        ensures
            r.wf(),
            r.view().groups == Map::<(Seq<char>, u64, u64), usize>::empty(),
            r.view().record_bytes == Map::<(u64, u64), usize>::empty(),
            r.view().owner_streams == Map::<u64, Seq<Seq<char>>>::empty(),
    {
        let r = PhysicalIndex { groups: Vec::new(), costs: Vec::new(), owners: Vec::new() };
        assert(groups_map(r.groups@) =~= Map::empty());
        assert(costs_map(r.costs@) =~= Map::empty());
        assert(owners_map(r.owners@) =~= Map::empty());
        r
    }

    fn find_group(&self, stream: &str, channel: u64, id: u64) -> (r: Option<usize>)
        requires
            self.wf(),
        ensures
            match r {
                Some(j) => j < self.groups@.len() && gkey(self.groups@[j as int]) == (
                    stream@,
                    channel,
                    id,
                ),
                None => !self.view().groups.contains_key((stream@, channel, id)),
            },
    {
        let mut i: usize = 0;
        while i < self.groups.len()
            invariant
                i <= self.groups@.len(),
                forall|k: int| 0 <= k < i ==> gkey(#[trigger] self.groups@[k]) != (stream@, channel, id),
            decreases self.groups@.len() - i,
        {
            let g = &self.groups[i];
            if g.channel == channel && g.id == id && str_eq(g.stream.as_str(), stream) {
                return Some(i);
            }
            i += 1;
        }
        None
    }

    /// The validated group marker offset of the current `(channel, id)` record
    /// in `stream`.
    pub fn group_offset_for(&self, stream: &str, channel: u64, id: u64) -> (r: Option<usize>)
        requires
            self.wf(),
        ensures
            r == if self.view().groups.contains_key((stream@, channel, id)) {
                Some(self.view().groups[(stream@, channel, id)])
            } else {
                None::<usize>
            },
    {
        match self.find_group(stream, channel, id) {
            Some(j) => {
                proof {
                    lemma_groups_at(self.groups@, j as int);
                }
                Some(self.groups[j].offset)
            },
            None => None,
        }
    }

    fn find_cost(&self, channel: u64, id: u64) -> (r: Option<usize>)
        requires
            self.wf(),
        ensures
            match r {
                Some(j) => j < self.costs@.len() && ckey(self.costs@[j as int]) == (channel, id),
                None => !self.view().record_bytes.contains_key((channel, id)),
            },
    {
        let mut i: usize = 0;
        while i < self.costs.len()
            invariant
                i <= self.costs@.len(),
                forall|k: int| 0 <= k < i ==> ckey(#[trigger] self.costs@[k]) != (channel, id),
            decreases self.costs@.len() - i,
        {
            if self.costs[i].channel == channel && self.costs[i].id == id {
                return Some(i);
            }
            i += 1;
        }
        None
    }

    /// The stored body size of the current `(channel, id)` record; zero when
    /// the record is not indexed.
    pub fn record_bytes(&self, channel: u64, id: u64) -> (r: usize)
        requires
            self.wf(),
        ensures
            r == spec_record_bytes(self.view(), channel, id),
    {
        match self.find_cost(channel, id) {
            Some(j) => {
                proof {
                    lemma_costs_at(self.costs@, j as int);
                }
                self.costs[j].bytes
            },
            None => 0,
        }
    }

    fn find_owner(&self, id: u64) -> (r: Option<usize>)
        requires
            self.wf(),
        ensures
            match r {
                Some(j) => j < self.owners@.len() && self.owners@[j as int].id == id,
                None => !self.view().owner_streams.contains_key(id),
            },
    {
        let mut i: usize = 0;
        while i < self.owners.len()
            invariant
                i <= self.owners@.len(),
                forall|k: int| 0 <= k < i ==> (#[trigger] self.owners@[k]).id != id,
            decreases self.owners@.len() - i,
        {
            if self.owners[i].id == id {
                return Some(i);
            }
            i += 1;
        }
        None
    }

    /// The current record ids on `channel`, over all streams.
    pub fn current_ids(&self, channel: u64) -> (r: BTreeSet<u64>)
        requires
            self.wf(),
        ensures
            r@ == spec_current_ids(self.view(), channel),
    {
        let mut ids: BTreeSet<u64> = BTreeSet::new();
        let mut i: usize = 0;
        while i < self.groups.len()
            invariant
                i <= self.groups@.len(),
                ids@ == Set::new(
                    |id: u64|
                        exists|k: int|
                            0 <= k < i && (#[trigger] self.groups@[k]).channel == channel
                                && self.groups@[k].id == id,
                ),
            decreases self.groups@.len() - i,
        {
            if self.groups[i].channel == channel {
                ids.insert(self.groups[i].id);
            }
            i += 1;
            assert(ids@ =~= Set::new(
                |id: u64|
                    exists|k: int|
                        0 <= k < i && (#[trigger] self.groups@[k]).channel == channel
                            && self.groups@[k].id == id,
            ));
        }
        proof {
            let target = spec_current_ids(self.view(), channel);
            assert forall|id: u64| ids@.contains(id) <==> #[trigger] target.contains(id) by {
                if ids@.contains(id) {
                    let k = choose|k: int|
                        0 <= k < self.groups@.len() && (#[trigger] self.groups@[k]).channel
                            == channel && self.groups@[k].id == id;
                    lemma_groups_at(self.groups@, k);
                    assert(self.view().groups.contains_key((self.groups@[k].stream@, channel, id)));
                }
                if target.contains(id) {
                    let s = choose|s: Seq<char>| self.view().groups.contains_key((s, channel, id));
                    let k = choose|k: int|
                        0 <= k < self.groups@.len() && gkey(self.groups@[k]) == (s, channel, id);
                    assert(self.groups@[k].channel == channel && self.groups@[k].id == id);
                }
            }
            assert(ids@ =~= target);
        }
        ids
    }

    /// Records the group marker offset of `(channel, id)` in `stream`,
    /// returning the offset it replaces.
    pub fn insert_group_offset(&mut self, stream: &str, channel: u64, id: u64, offset: usize) -> (r:
        Option<usize>)
        requires
            old(self).wf(),
        ensures
            final(self).wf(),
            final(self).view().groups == old(self).view().groups.insert((stream@, channel, id), offset),
            final(self).view().record_bytes == old(self).view().record_bytes,
            final(self).view().owner_streams == old(self).view().owner_streams,
            r == if old(self).view().groups.contains_key((stream@, channel, id)) {
                Some(old(self).view().groups[(stream@, channel, id)])
            } else {
                None::<usize>
            },
    {
        let entry = GroupEntry { stream: stream.to_owned(), channel, id, offset };
        match self.find_group(stream, channel, id) {
            Some(j) => {
                proof {
                    lemma_groups_at(self.groups@, j as int);
                    lemma_groups_update(self.groups@, j as int, entry);
                }
                let previous = self.groups[j].offset;
                self.groups.set(j, entry);
                Some(previous)
            },
            None => {
                proof {
                    lemma_groups_push(self.groups@, entry);
                }
                self.groups.push(entry);
                None
            },
        }
    }

    /// Records the stored body size of `(channel, id)`, returning the size it
    /// replaces.
    pub fn insert_record_bytes(&mut self, channel: u64, id: u64, bytes: usize) -> (r: Option<usize>)
        requires
            old(self).wf(),
        ensures
            final(self).wf(),
            final(self).view().groups == old(self).view().groups,
            final(self).view().record_bytes == old(self).view().record_bytes.insert((channel, id), bytes),
            final(self).view().owner_streams == old(self).view().owner_streams,
            r == if old(self).view().record_bytes.contains_key((channel, id)) {
                Some(old(self).view().record_bytes[(channel, id)])
            } else {
                None::<usize>
            },
    {
        let entry = CostEntry { channel, id, bytes };
        match self.find_cost(channel, id) {
            Some(j) => {
                proof {
                    lemma_costs_at(self.costs@, j as int);
                    lemma_costs_update(self.costs@, j as int, entry);
                }
                let previous = self.costs[j].bytes;
                self.costs.set(j, entry);
                Some(previous)
            },
            None => {
                proof {
                    lemma_costs_push(self.costs@, entry);
                }
                self.costs.push(entry);
                None
            },
        }
    }

    /// Adds `stream` to the streams holding `id`'s records, returning whether
    /// it was new.
    pub fn insert_owner_stream(&mut self, id: u64, stream: &str) -> (r: bool)
        requires
            old(self).wf(),
        ensures
            final(self).wf(),
            final(self).view().groups == old(self).view().groups,
            final(self).view().record_bytes == old(self).view().record_bytes,
            final(self).view().owner_streams == old(self).view().owner_streams.insert(
                id,
                sorted_insert(spec_owner_key(old(self).view(), id), stream@),
            ),
            r == !spec_owner_key(old(self).view(), id).contains(stream@),
    {
        match self.find_owner(id) {
            None => {
                let mut streams: Vec<String> = Vec::new();
                streams.push(stream.to_owned());
                let entry = OwnerEntry { id, streams };
                proof {
                    assert(names(entry.streams@) =~= seq![stream@]);
                    assert(spec_owner_key(self.view(), id) =~= Seq::<Seq<char>>::empty());
                    lemma_owners_push(self.owners@, entry);
                }
                self.owners.push(entry);
                proof {
                    assert forall|i: int| 0 <= i < self.owners@.len() implies strictly_sorted(
                        names((#[trigger] self.owners@[i]).streams@),
                    ) by {
                        if i < old(self).owners@.len() {
                            assert(self.owners@[i] == old(self).owners@[i]);
                        }
                    }
                }
                true
            },
            Some(j) => {
                proof {
                    lemma_owners_at(self.owners@, j as int);
                }
                let ghost s = names(self.owners@[j as int].streams@);
                let mut k: usize = 0;
                let n = self.owners[j].streams.len();
                while k < n
                    invariant
                        self.wf(),
                        *self == *old(self),
                        j < self.owners@.len(),
                        self.owners@[j as int].id == id,
                        n == self.owners@[j as int].streams@.len(),
                        s == names(self.owners@[j as int].streams@),
                        k <= n,
                        forall|m: int| 0 <= m < k ==> s[m] != stream@ && !name_lt(stream@, #[trigger] s[m]),
                    ensures
                        k <= n,
                        k < n ==> name_lt(stream@, s[k as int]),
                        forall|m: int| 0 <= m < k ==> s[m] != stream@ && !name_lt(stream@, #[trigger] s[m]),
                    decreases n - k,
                {
                    let existing = self.owners[j].streams[k].as_str();
                    if str_eq(existing, stream) {
                        proof {
                            lemma_sorted_insert_at(s, stream@, k as int);
                            assert(s[k as int] == stream@);
                            assert(s.contains(stream@));
                            lemma_owners_at(self.owners@, j as int);
                            assert(spec_owner_key(self.view(), id) == s);
                            assert(self.view().owner_streams.insert(id, s) =~= self.view().owner_streams);
                        }
                        return false;
                    }
                    if name_lt_exec(stream, existing) {
                        break;
                    }
                    k += 1;
                }
                proof {
                    lemma_sorted_insert_at(s, stream@, k as int);
                    lemma_sorted_insert_sorted(s, stream@, k as int);
                    assert(!s.contains(stream@)) by {
                        if s.contains(stream@) {
                            let m = choose|m: int| 0 <= m < s.len() && s[m] == stream@;
                            if m >= k {
                                if m > k {
                                    assert(name_lt(s[k as int], s[m]));
                                    lemma_name_lt_transitive(stream@, s[k as int], stream@);
                                }
                                lemma_name_lt_irreflexive(stream@);
                            }
                        }
                    }
                }
                let mut entry = self.owners.remove(j);
                let ghost before = entry.streams@;
                entry.streams.insert(k, stream.to_owned());
                proof {
                    assert(names(entry.streams@) =~= names(before).insert(k as int, stream@));
                }
                self.owners.insert(j, entry);
                proof {
                    assert(self.owners@ =~= old(self).owners@.update(j as int, entry));
                    lemma_owners_update(old(self).owners@, j as int, entry);
                    assert forall|i: int| 0 <= i < self.owners@.len() implies strictly_sorted(
                        names((#[trigger] self.owners@[i]).streams@),
                    ) by {
                        if i != j {
                            assert(self.owners@[i] == old(self).owners@[i]);
                        }
                    }
                }
                true
            },
        }
    }

    fn any_stream_has(&self, channel: u64, id: u64) -> (r: bool)
        requires
            self.wf(),
        ensures
            r == exists|s: Seq<char>| self.view().groups.contains_key((s, channel, id)),
    {
        let mut i: usize = 0;
        while i < self.groups.len()
            invariant
                self.wf(),
                i <= self.groups@.len(),
                forall|k: int|
                    0 <= k < i ==> !((#[trigger] self.groups@[k]).channel == channel
                        && self.groups@[k].id == id),
            decreases self.groups@.len() - i,
        {
            if self.groups[i].channel == channel && self.groups[i].id == id {
                proof {
                    lemma_groups_at(self.groups@, i as int);
                    assert(self.view().groups.contains_key((self.groups@[i as int].stream@, channel, id)));
                }
                return true;
            }
            i += 1;
        }
        proof {
            assert forall|s: Seq<char>| !self.view().groups.contains_key((s, channel, id)) by {
                if self.view().groups.contains_key((s, channel, id)) {
                    let k = choose|k: int|
                        0 <= k < self.groups@.len() && gkey(self.groups@[k]) == (s, channel, id);
                    assert(self.groups@[k].channel == channel && self.groups@[k].id == id);
                }
            }
        }
        false
    }

    /// Registers one current record found at `group_offset` in `stream`:
    /// its location, its stored body size (at least one byte) and its stream.
    /// A record already indexed in any stream is refused.
    pub fn record_current(
        &mut self,
        stream: &str,
        channel: u64,
        id: u64,
        group_offset: usize,
        body_len: usize,
    ) -> (r: Result<(), IndexError>)
        requires
            old(self).wf(),
        ensures
            final(self).wf(),
            match spec_record_current(old(self).view(), stream@, channel, id, group_offset, body_len) {
                Ok(v) => r is Ok && final(self).view() == v,
                Err(e) => r == Err::<(), IndexError>(e) && final(self).view() == old(self).view(),
            },
    {
        if self.find_group(stream, channel, id).is_some() {
            return Err(IndexError::AmbiguousInStream { id, channel });
        }
        if self.any_stream_has(channel, id) {
            return Err(IndexError::AmbiguousAcrossPartitions { id, channel });
        }
        self.insert_group_offset(stream, channel, id, group_offset);
        self.insert_record_bytes(channel, id, if body_len == 0 { 1 } else { body_len });
        self.insert_owner_stream(id, stream);
        proof {
            assert(self.view() =~= spec_record_current(old(self).view(), stream@, channel, id, group_offset, body_len)->Ok_0);
        }
        Ok(())
    }

    /// Indexes the current records of one physical group of `stream`.
    ///
    /// Content-keyed groups and channels other than 102 and 103 are skipped.
    /// Every record is framed and dual-length checked; records whose ids are
    /// in `current` are registered with [`Self::record_current`]; finally the
    /// record count and body total must match the group's declaration.
    pub fn ingest_group(
        &mut self,
        stream: &str,
        source: &GroupSource,
        s: &[u8],
        id_bytes: usize,
        current: &BTreeSet<u64>,
    ) -> (r: Result<(), IndexError>)
        requires
            old(self).wf(),
            id_bytes <= usize::MAX - 12,
        ensures
            final(self).wf(),
            match spec_ingest_group(old(self).view(), stream@, *source, s@, id_bytes as nat, current@) {
                Ok(v) => r is Ok && final(self).view() == v,
                Err(e) => r == Err::<(), IndexError>(e),
            },
    {
        if source.content_key.is_some() || !(source.channel == 102 || source.channel == 103) {
            return Ok(());
        }
        let channel = source.channel;
        let group_offset = source.first_marker_offset;
        let header = id_bytes + 8;
        let ghost v0 = self.view();
        let mut frames: Vec<Frame> = Vec::new();
        let mut pos: usize = 0;
        while pos < s.len()
            invariant
                self.wf(),
                v0 == old(self).view(),
                source.content_key is None,
                source.channel == 102 || source.channel == 103,
                channel == source.channel,
                group_offset == source.first_marker_offset,
                header == id_bytes + 8,
                id_bytes <= usize::MAX - 12,
                pos <= s@.len(),
                parse_frames(s@, header as nat, id_bytes as nat, true, 0) == match parse_frames(
                    s@,
                    header as nat,
                    id_bytes as nat,
                    true,
                    pos as nat,
                ) {
                    Ok(rest) => Ok(frames@ + rest),
                    Err(e) => Err(e),
                },
                ingest_records(v0, stream@, channel, group_offset, s@, id_bytes as nat, current@, 0)
                    == ingest_records(
                    self.view(),
                    stream@,
                    channel,
                    group_offset,
                    s@,
                    id_bytes as nat,
                    current@,
                    pos as nat,
                ),
            decreases s@.len() - pos,
        {
            proof {
                reveal_with_fuel(parse_frames, 1);
                reveal_with_fuel(ingest_records, 1);
            }
            if s.len() - pos < header + 4 {
                return Err(IndexError::Framing(FramingError::TruncatedHeader));
            }
            let length = read_u32_le(s, pos + header - 4) as usize;
            let start = pos + header;
            let end = match start.checked_add(length) {
                Some(end) => end,
                None => return Err(IndexError::Framing(FramingError::SizeOverflow)),
            };
            if end > s.len() || s.len() - end < 4 || read_u32_le(s, end) as usize != length {
                return Err(IndexError::Framing(FramingError::DualLengthMismatch));
            }
            let id = if id_bytes == 4 {
                read_u32_le(s, pos) as u64
            } else {
                read_u64_le(s, pos)
            };
            if current.contains(&id) {
                self.record_current(stream, channel, id, group_offset, length)?;
            }
            let frame = Frame { id, offset: pos, body_start: start, body_end: end };
            proof {
                let ghost rest = parse_frames(s@, header as nat, id_bytes as nat, true, (end + 4) as nat);
                if let Ok(r) = rest {
                    assert(frames@.push(frame) + r =~= frames@ + (seq![frame] + r));
                }
            }
            frames.push(frame);
            pos = end + 4;
        }
        proof {
            crate::framing::lemma_frames_ordered_pub(s@, header as nat, id_bytes as nat, true, 0);
            assert(s@.len() == s.len());
            assert(frames@ + Seq::<Frame>::empty() =~= frames@);
        }
        let total = frames_body_total(&frames);
        if frames.len() as u64 != source.declared_objects || total != source.declared_body_bytes as u128 {
            return Err(IndexError::Framing(FramingError::GroupTotalsMismatch));
        }
        Ok(())
    }

    /// Group marker offsets in `stream` of records on one of `channels` whose
    /// ids are in `selected_ids`.
    pub fn offsets_for(
        &self,
        stream: &str,
        channels: &BTreeSet<u64>,
        selected_ids: &BTreeSet<u64>,
    ) -> (r: BTreeSet<usize>)
        requires
            self.wf(),
        ensures
            r@ == spec_offsets_for(self.view(), stream@, channels@, selected_ids@),
    {
        let mut offsets: BTreeSet<usize> = BTreeSet::new();
        let mut i: usize = 0;
        while i < self.groups.len()
            invariant
                self.wf(),
                i <= self.groups@.len(),
                offsets@ == Set::new(
                    |o: usize|
                        exists|k: int|
                            0 <= k < i && (#[trigger] self.groups@[k]).stream@ == stream@
                                && channels@.contains(self.groups@[k].channel)
                                && selected_ids@.contains(self.groups@[k].id)
                                && self.groups@[k].offset == o,
                ),
            decreases self.groups@.len() - i,
        {
            let g = &self.groups[i];
            if str_eq(g.stream.as_str(), stream) && channels.contains(&g.channel)
                && selected_ids.contains(&g.id) {
                offsets.insert(g.offset);
            }
            i += 1;
            assert(offsets@ =~= Set::new(
                |o: usize|
                    exists|k: int|
                        0 <= k < i && (#[trigger] self.groups@[k]).stream@ == stream@
                            && channels@.contains(self.groups@[k].channel)
                            && selected_ids@.contains(self.groups@[k].id)
                            && self.groups@[k].offset == o,
            ));
        }
        proof {
            let target = spec_offsets_for(self.view(), stream@, channels@, selected_ids@);
            assert forall|o: usize| offsets@.contains(o) <==> #[trigger] target.contains(o) by {
                if offsets@.contains(o) {
                    let k = choose|k: int|
                        0 <= k < self.groups@.len() && (#[trigger] self.groups@[k]).stream@
                            == stream@ && channels@.contains(self.groups@[k].channel)
                            && selected_ids@.contains(self.groups@[k].id)
                            && self.groups@[k].offset == o;
                    lemma_groups_at(self.groups@, k);
                    let c = self.groups@[k].channel;
                    let id = self.groups@[k].id;
                    assert(channels@.contains(c) && selected_ids@.contains(id)
                        && self.view().groups.contains_key((stream@, c, id))
                        && self.view().groups[(stream@, c, id)] == o);
                }
                if target.contains(o) {
                    let (c, id) = choose|c: u64, id: u64|
                        channels@.contains(c) && selected_ids@.contains(id)
                            && #[trigger] self.view().groups.contains_key((stream@, c, id))
                            && self.view().groups[(stream@, c, id)] == o;
                    let k = choose|k: int|
                        0 <= k < self.groups@.len() && gkey(self.groups@[k]) == (stream@, c, id);
                    lemma_groups_at(self.groups@, k);
                    assert(self.groups@[k].stream@ == stream@);
                }
            }
            assert(offsets@ =~= target);
        }
        offsets
    }

    fn owner_index(&self, id: u64) -> (j: usize)
        requires
            self.wf(),
            self.view().owner_streams.contains_key(id),
        ensures
            j < self.owners@.len(),
            self.owners@[j as int].id == id,
            names(self.owners@[j as int].streams@) == spec_owner_key(self.view(), id),
    {
        match self.find_owner(id) {
            Some(j) => {
                proof {
                    lemma_owners_at(self.owners@, j as int);
                }
                j
            },
            None => {
                proof {
                    assert(false);
                }
                0
            },
        }
    }

    fn owner_cost_exec(&self, id: u64) -> (c: usize)
        requires
            self.wf(),
        ensures
            c == owner_cost(self.view(), id),
    {
        let a = self.record_bytes(102, id);
        let b = self.record_bytes(103, id);
        let sum = if a > usize::MAX - b {
            usize::MAX
        } else {
            a + b
        };
        if sum < 1 {
            1
        } else {
            sum
        }
    }

    fn chunk_shards(&self, ids: &Vec<u64>, cap: usize, max_cost: usize) -> (r: Vec<Vec<u64>>)
        requires
            self.wf(),
            cap > 0,
        ensures
            shard_views(r@) == chunk_ids(self.view(), ids@, cap as nat, max_cost as nat, Seq::empty(), 0),
    {
        let ghost v = self.view();
        let mut result: Vec<Vec<u64>> = Vec::new();
        let mut shard: Vec<u64> = Vec::new();
        let mut cost: usize = 0;
        let mut t: usize = 0;
        assert(ids@.skip(0) =~= ids@);
        while t < ids.len()
            invariant
                self.wf(),
                v == self.view(),
                t <= ids@.len(),
                chunk_ids(v, ids@, cap as nat, max_cost as nat, Seq::empty(), 0) == shard_views(result@)
                    + chunk_ids(v, ids@.skip(t as int), cap as nat, max_cost as nat, shard@, cost as int),
            decreases ids@.len() - t,
        {
            let id = ids[t];
            let c = self.owner_cost_exec(id);
            let with_c = if cost > usize::MAX - c {
                usize::MAX
            } else {
                cost + c
            };
            let exceeds = max_cost > 0 && shard.len() > 0 && with_c > max_cost;
            proof {
                assert(ids@.skip(t as int).drop_first() =~= ids@.skip(t + 1));
                assert(ids@.skip(t as int)[0] == id);
            }
            if shard.len() > 0 && (shard.len() >= cap || exceeds) {
                let ghost closed = shard@;
                let ghost before = result@;
                result.push(shard);
                proof {
                    assert(shard_views(result@) =~= shard_views(before) + seq![closed]);
                    assert(shard_views(result@) + chunk_ids(v, ids@.skip(t + 1), cap as nat, max_cost as nat, seq![id], c as int)
                        =~= shard_views(before) + (seq![closed] + chunk_ids(v, ids@.skip(t + 1), cap as nat, max_cost as nat, seq![id], c as int)));
                }
                shard = Vec::new();
                shard.push(id);
                cost = c;
                proof {
                    assert(shard@ =~= seq![id]);
                }
            } else {
                shard.push(id);
                cost = with_c;
            }
            t += 1;
        }
        proof {
            assert(ids@.skip(t as int) =~= Seq::<u64>::empty());
        }
        if shard.len() > 0 {
            let ghost before = result@;
            let ghost last = shard@;
            result.push(shard);
            proof {
                assert(shard_views(result@) =~= shard_views(before) + seq![last]);
            }
        } else {
            proof {
                assert(shard_views(result@) + Seq::<Seq<u64>>::empty() =~= shard_views(result@));
            }
        }
        result
    }

    /// Plans deterministic, cost-bounded shards of `requested` without
    /// mixing owners held by different sets of partition streams.
    ///
    /// Owners are grouped by their stream set; groups come in increasing
    /// order of stream set, and within a group owners keep their requested
    /// order.  A group is split greedily: a shard is closed before an owner
    /// when it already holds `max_ids` owners (no limit when zero), or when
    /// `max_cost_bytes` is positive and the owner's cost would take the shard
    /// past it.  Refused when both budgets are zero or when a requested owner
    /// has no current record.
    pub fn partition_local_shards(&self, requested: &[u64], max_ids: usize, max_cost_bytes: usize) -> (r:
        Result<Vec<Vec<u64>>, IndexError>)
        requires
            self.wf(),
        ensures
            match spec_partition_local_shards(self.view(), requested@, max_ids, max_cost_bytes) {
                Ok(plan) => r matches Ok(shards) && shard_views(shards@) == plan,
                Err(e) => r == Err::<Vec<Vec<u64>>, IndexError>(e),
            },
    {
        let ghost v = self.view();
        if max_ids == 0 && max_cost_bytes == 0 {
            return Err(IndexError::NoShardBudget);
        }
        let mut remaining: Vec<u64> = Vec::new();
        let mut i: usize = 0;
        while i < requested.len()
            invariant
                self.wf(),
                v == self.view(),
                !(max_ids == 0 && max_cost_bytes == 0),
                i <= requested@.len(),
                remaining@ == requested@.subrange(0, i as int),
                first_unkeyed(v, requested@.subrange(0, i as int)) is None,
            decreases requested@.len() - i,
        {
            let id = requested[i];
            proof {
                assert(requested@.subrange(0, i + 1).drop_last() =~= requested@.subrange(0, i as int));
                lemma_first_unkeyed_push(v, requested@.subrange(0, i as int), id);
                assert(requested@.subrange(0, i + 1) =~= requested@.subrange(0, i as int).push(id));
            }
            let keyed = match self.find_owner(id) {
                Some(j) => {
                    proof {
                        lemma_owners_at(self.owners@, j as int);
                    }
                    self.owners[j].streams.len() > 0
                },
                None => false,
            };
            assert(keyed == (spec_owner_key(v, id).len() > 0));
            if !keyed {
                proof {
                    lemma_first_unkeyed_prefix(v, requested@, (i + 1) as int);
                }
                return Err(IndexError::OwnerWithoutRecord(id));
            }
            remaining.push(id);
            i += 1;
        }
        proof {
            assert(requested@.subrange(0, requested@.len() as int) =~= requested@);
            lemma_first_unkeyed_none(v, requested@);
        }
        let cap = if max_ids == 0 {
            usize::MAX
        } else {
            max_ids
        };
        let mut result: Vec<Vec<u64>> = Vec::new();
        while remaining.len() > 0
            invariant
                self.wf(),
                v == self.view(),
                cap > 0,
                all_keyed(v, remaining@),
                plan(v, requested@, cap as nat, max_cost_bytes as nat) == shard_views(result@) + plan(
                    v,
                    remaining@,
                    cap as nat,
                    max_cost_bytes as nat,
                ),
            decreases remaining@.len(),
        {
            let n = remaining.len();
            let mut best = self.owner_index(remaining[0]);
            let mut t: usize = 1;
            proof {
                assert(remaining@.subrange(0, 1).len() == 1);
            }
            while t < n
                invariant
                    self.wf(),
                    v == self.view(),
                    n == remaining@.len(),
                    1 <= t <= n,
                    all_keyed(v, remaining@),
                    best < self.owners@.len(),
                    names(self.owners@[best as int].streams@) == min_key(v, remaining@.subrange(0, t as int)),
                decreases n - t,
            {
                let j = self.owner_index(remaining[t]);
                proof {
                    assert(remaining@.subrange(0, t + 1).drop_last() =~= remaining@.subrange(0, t as int));
                    assert(remaining@.subrange(0, t + 1).last() == remaining@[t as int]);
                }
                if keys_lt_exec(&self.owners[j].streams, &self.owners[best].streams) {
                    best = j;
                }
                t += 1;
            }
            proof {
                assert(remaining@.subrange(0, n as int) =~= remaining@);
            }
            let ghost key = min_key(v, remaining@);
            let mut same: Vec<u64> = Vec::new();
            let mut others: Vec<u64> = Vec::new();
            let mut t: usize = 0;
            while t < n
                invariant
                    self.wf(),
                    v == self.view(),
                    n == remaining@.len(),
                    t <= n,
                    all_keyed(v, remaining@),
                    best < self.owners@.len(),
                    names(self.owners@[best as int].streams@) == key,
                    same@ == with_key(v, remaining@.subrange(0, t as int), key),
                    others@ == without_key(v, remaining@.subrange(0, t as int), key),
                decreases n - t,
            {
                let id = remaining[t];
                let j = self.owner_index(id);
                proof {
                    assert(remaining@.subrange(0, t + 1).drop_last() =~= remaining@.subrange(0, t as int));
                    assert(remaining@.subrange(0, t + 1).last() == id);
                }
                if keys_eq_exec(&self.owners[j].streams, &self.owners[best].streams) {
                    same.push(id);
                } else {
                    others.push(id);
                }
                t += 1;
            }
            proof {
                assert(remaining@.subrange(0, n as int) =~= remaining@);
                lemma_without_min_key_shorter(v, remaining@);
                lemma_all_keyed_without(v, remaining@, key);
            }
            let mut chunks = self.chunk_shards(&same, cap, max_cost_bytes);
            let ghost before = result@;
            let ghost added = chunks@;
            result.append(&mut chunks);
            proof {
                assert(shard_views(result@) =~= shard_views(before) + shard_views(added));
                assert(shard_views(result@) + plan(v, others@, cap as nat, max_cost_bytes as nat)
                    =~= shard_views(before) + (shard_views(added) + plan(v, others@, cap as nat, max_cost_bytes as nat)));
            }
            remaining = others;
        }
        proof {
            assert(shard_views(result@) + Seq::<Seq<u64>>::empty() =~= shard_views(result@));
        }
        Ok(result)
    }
}

/// Stored body size of `(channel, id)`, zero when absent.
pub open spec fn spec_record_bytes(v: IndexView, channel: u64, id: u64) -> usize {
    if v.record_bytes.contains_key((channel, id)) {
        v.record_bytes[(channel, id)]
    } else {
        0
    }
}

/// The ids with a current record on `channel` in some stream.
pub open spec fn spec_current_ids(v: IndexView, channel: u64) -> Set<u64> {
    Set::new(|id: u64| exists|s: Seq<char>| v.groups.contains_key((s, channel, id)))
}

/// The streams holding `id`'s records; empty when the owner is unknown.
pub open spec fn spec_owner_key(v: IndexView, id: u64) -> Seq<Seq<char>> {
    if v.owner_streams.contains_key(id) {
        v.owner_streams[id]
    } else {
        Seq::empty()
    }
}

/// Registering one current record; refused when `(channel, id)` is already
/// indexed in `stream` or in another stream.
pub open spec fn spec_record_current(
    v: IndexView,
    stream: Seq<char>,
    channel: u64,
    id: u64,
    group_offset: usize,
    body_len: usize,
) -> Result<IndexView, IndexError> {
    if v.groups.contains_key((stream, channel, id)) {
        Err(IndexError::AmbiguousInStream { id, channel })
    } else if exists|s: Seq<char>| v.groups.contains_key((s, channel, id)) {
        Err(IndexError::AmbiguousAcrossPartitions { id, channel })
    } else {
        Ok(
            IndexView {
                groups: v.groups.insert((stream, channel, id), group_offset),
                record_bytes: v.record_bytes.insert(
                    (channel, id),
                    if body_len == 0 {
                        1
                    } else {
                        body_len
                    },
                ),
                owner_streams: v.owner_streams.insert(id, sorted_insert(spec_owner_key(v, id), stream)),
            },
        )
    }
}

/// Registering the current records of a channel-102/103 group payload from
/// position `pos` on, one record at a time.
pub open spec fn ingest_records(
    v: IndexView,
    stream: Seq<char>,
    channel: u64,
    group_offset: usize,
    s: Seq<u8>,
    id_bytes: nat,
    current: Set<u64>,
    pos: nat,
) -> Result<IndexView, IndexError>
    decreases s.len() - pos,
{
    let header = id_bytes + 8;
    if pos >= s.len() {
        Ok(v)
    } else if (s.len() - pos) < header + 4 {
        Err(IndexError::Framing(FramingError::TruncatedHeader))
    } else {
        let length = le_u32(s, pos + header - 4);
        let end = pos + header + length;
        if end > usize::MAX {
            Err(IndexError::Framing(FramingError::SizeOverflow))
        } else if end + 4 > s.len() || le_u32(s, end) != length {
            Err(IndexError::Framing(FramingError::DualLengthMismatch))
        } else {
            let id = id_at(s, pos as int, id_bytes);
            if current.contains(id) {
                match spec_record_current(v, stream, channel, id, group_offset, length as usize) {
                    Err(e) => Err(e),
                    Ok(v2) => ingest_records(
                        v2,
                        stream,
                        channel,
                        group_offset,
                        s,
                        id_bytes,
                        current,
                        (end + 4) as nat,
                    ),
                }
            } else {
                ingest_records(v, stream, channel, group_offset, s, id_bytes, current, (end + 4) as nat)
            }
        }
    }
}

/// Indexing one physical group of `stream` (see [`PhysicalIndex::ingest_group`]).
pub open spec fn spec_ingest_group(
    v: IndexView,
    stream: Seq<char>,
    source: GroupSource,
    s: Seq<u8>,
    id_bytes: nat,
    current: Set<u64>,
) -> Result<IndexView, IndexError> {
    if source.content_key is Some || !(source.channel == 102 || source.channel == 103) {
        Ok(v)
    } else {
        match ingest_records(
            v,
            stream,
            source.channel,
            source.first_marker_offset,
            s,
            id_bytes,
            current,
            0,
        ) {
            Err(e) => Err(e),
            Ok(v2) => match parse_frames(s, id_bytes + 8, id_bytes, true, 0) {
                Err(e) => Err(IndexError::Framing(physical_fault(e))),
                Ok(frames) => if frames.len() == source.declared_objects && body_total(frames)
                    == source.declared_body_bytes {
                    Ok(v2)
                } else {
                    Err(IndexError::Framing(FramingError::GroupTotalsMismatch))
                },
            },
        }
    }
}

/// Group offsets in `stream` of records on `channels` with ids in `ids`.
pub open spec fn spec_offsets_for(
    v: IndexView,
    stream: Seq<char>,
    channels: Set<u64>,
    ids: Set<u64>,
) -> Set<usize> {
    Set::new(
        |o: usize|
            exists|c: u64, id: u64|
                channels.contains(c) && ids.contains(id) && #[trigger] v.groups.contains_key(
                    (stream, c, id),
                ) && v.groups[(stream, c, id)] == o,
    )
}

/// The views of a sequence of shards.
pub open spec fn shard_views(s: Seq<Vec<u64>>) -> Seq<Seq<u64>> {
    s.map_values(|x: Vec<u64>| x@)
}

/// `a + b`, saturating at `usize::MAX`.
pub open spec fn sat_add(a: int, b: int) -> int {
    if a + b > usize::MAX {
        usize::MAX as int
    } else {
        a + b
    }
}

/// Scheduling cost of an owner: its stored channel-102 and channel-103 body
/// sizes (saturating), and at least one.
pub open spec fn owner_cost(v: IndexView, id: u64) -> int {
    let sum = sat_add(spec_record_bytes(v, 102, id) as int, spec_record_bytes(v, 103, id) as int);
    if sum < 1 {
        1
    } else {
        sum
    }
}

/// Greedy shards of `ids` that continue the open `shard` of cost `cost`.
pub open spec fn chunk_ids(
    v: IndexView,
    ids: Seq<u64>,
    max_ids: nat,
    max_cost: nat,
    shard: Seq<u64>,
    cost: int,
) -> Seq<Seq<u64>>
    decreases ids.len(),
{
    if ids.len() == 0 {
        if shard.len() == 0 {
            Seq::empty()
        } else {
            seq![shard]
        }
    } else {
        let id = ids[0];
        let c = owner_cost(v, id);
        let exceeds = max_cost > 0 && shard.len() > 0 && sat_add(cost, c) > max_cost;
        if shard.len() > 0 && (shard.len() >= max_ids || exceeds) {
            seq![shard] + chunk_ids(v, ids.drop_first(), max_ids, max_cost, seq![id], c)
        } else {
            chunk_ids(v, ids.drop_first(), max_ids, max_cost, shard.push(id), sat_add(cost, c))
        }
    }
}

/// Every id of `ids` has a current record in some stream.
pub open spec fn all_keyed(v: IndexView, ids: Seq<u64>) -> bool {
    forall|i: int| 0 <= i < ids.len() ==> spec_owner_key(v, #[trigger] ids[i]).len() > 0
}

/// The first id of `ids` without a current record, if any.
pub open spec fn first_unkeyed(v: IndexView, ids: Seq<u64>) -> Option<u64>
    decreases ids.len(),
{
    if ids.len() == 0 {
        None
    } else if spec_owner_key(v, ids[0]).len() == 0 {
        Some(ids[0])
    } else {
        first_unkeyed(v, ids.drop_first())
    }
}

/// The least stream set among the owners of nonempty `ids`; the first wins ties.
pub open spec fn min_key(v: IndexView, ids: Seq<u64>) -> Seq<Seq<char>>
    decreases ids.len(),
{
    if ids.len() <= 1 {
        spec_owner_key(v, ids[0])
    } else {
        let m = min_key(v, ids.drop_last());
        let k = spec_owner_key(v, ids.last());
        if keys_lt(k, m) {
            k
        } else {
            m
        }
    }
}

/// The ids of `ids` held by exactly the streams `key`, in order.
pub open spec fn with_key(v: IndexView, ids: Seq<u64>, key: Seq<Seq<char>>) -> Seq<u64>
    decreases ids.len(),
{
    if ids.len() == 0 {
        Seq::empty()
    } else if spec_owner_key(v, ids.last()) == key {
        with_key(v, ids.drop_last(), key).push(ids.last())
    } else {
        with_key(v, ids.drop_last(), key)
    }
}

/// The ids of `ids` not held by exactly the streams `key`, in order.
pub open spec fn without_key(v: IndexView, ids: Seq<u64>, key: Seq<Seq<char>>) -> Seq<u64>
    decreases ids.len(),
{
    if ids.len() == 0 {
        Seq::empty()
    } else if spec_owner_key(v, ids.last()) != key {
        without_key(v, ids.drop_last(), key).push(ids.last())
    } else {
        without_key(v, ids.drop_last(), key)
    }
}

pub proof fn lemma_min_key_is_some_key(v: IndexView, ids: Seq<u64>) -> (i: int)
    requires
        ids.len() > 0,
    ensures
        0 <= i < ids.len(),
        spec_owner_key(v, ids[i]) == min_key(v, ids),
    decreases ids.len(),
{
    if ids.len() == 1 {
        0
    } else {
        let j = lemma_min_key_is_some_key(v, ids.drop_last());
        if keys_lt(spec_owner_key(v, ids.last()), min_key(v, ids.drop_last())) {
            ids.len() - 1
        } else {
            j
        }
    }
}

pub proof fn lemma_without_key_len(v: IndexView, ids: Seq<u64>, key: Seq<Seq<char>>)
    ensures
        without_key(v, ids, key).len() <= ids.len(),
        (exists|i: int| 0 <= i < ids.len() && spec_owner_key(v, ids[i]) == key) ==> without_key(
            v,
            ids,
            key,
        ).len() < ids.len(),
    decreases ids.len(),
{
    if ids.len() > 0 {
        lemma_without_key_len(v, ids.drop_last(), key);
        if exists|i: int| 0 <= i < ids.len() && spec_owner_key(v, ids[i]) == key {
            let i = choose|i: int| 0 <= i < ids.len() && spec_owner_key(v, ids[i]) == key;
            if i < ids.len() - 1 {
                assert(ids.drop_last()[i] == ids[i]);
            }
        }
    }
}

pub proof fn lemma_without_min_key_shorter(v: IndexView, ids: Seq<u64>)
    requires
        ids.len() > 0,
    ensures
        without_key(v, ids, min_key(v, ids)).len() < ids.len(),
{
    let i = lemma_min_key_is_some_key(v, ids);
    lemma_without_key_len(v, ids, min_key(v, ids));
}

pub proof fn lemma_all_keyed_without(v: IndexView, ids: Seq<u64>, key: Seq<Seq<char>>)
    requires
        all_keyed(v, ids),
    ensures
        all_keyed(v, without_key(v, ids, key)),
        all_keyed(v, with_key(v, ids, key)),
    decreases ids.len(),
{
    if ids.len() > 0 {
        assert(all_keyed(v, ids.drop_last())) by {
            assert forall|i: int| 0 <= i < ids.drop_last().len() implies spec_owner_key(
                v,
                #[trigger] ids.drop_last()[i],
            ).len() > 0 by {
                assert(ids.drop_last()[i] == ids[i]);
            }
        }
        lemma_all_keyed_without(v, ids.drop_last(), key);
        assert(spec_owner_key(v, ids[ids.len() - 1]).len() > 0);
    }
}

/// The shards of `ids`: stream-set groups in increasing order, each split
/// greedily.
pub open spec fn plan(v: IndexView, ids: Seq<u64>, max_ids: nat, max_cost: nat) -> Seq<Seq<u64>>
    decreases ids.len(),
{
    if ids.len() == 0 {
        Seq::empty()
    } else {
        let key = min_key(v, ids);
        proof {
            lemma_without_min_key_shorter(v, ids);
        }
        chunk_ids(v, with_key(v, ids, key), max_ids, max_cost, Seq::empty(), 0) + plan(
            v,
            without_key(v, ids, key),
            max_ids,
            max_cost,
        )
    }
}

/// Shard planning over the index (see [`PhysicalIndex::partition_local_shards`]).
pub open spec fn spec_partition_local_shards(
    v: IndexView,
    requested: Seq<u64>,
    max_ids: usize,
    max_cost_bytes: usize,
) -> Result<Seq<Seq<u64>>, IndexError> {
    if max_ids == 0 && max_cost_bytes == 0 {
        Err(IndexError::NoShardBudget)
    } else if first_unkeyed(v, requested) is Some {
        Err(IndexError::OwnerWithoutRecord(first_unkeyed(v, requested)->Some_0))
    } else {
        Ok(
            plan(
                v,
                requested,
                if max_ids == 0 {
                    usize::MAX as nat
                } else {
                    max_ids as nat
                },
                max_cost_bytes as nat,
            ),
        )
    }
}

proof fn lemma_first_unkeyed_push(v: IndexView, ids: Seq<u64>, id: u64)
    requires
        first_unkeyed(v, ids) is None,
    ensures
        first_unkeyed(v, ids.push(id)) == if spec_owner_key(v, id).len() == 0 {
            Some(id)
        } else {
            None::<u64>
        },
    decreases ids.len(),
{
    if ids.len() == 0 {
        assert(ids.push(id).drop_first() =~= Seq::<u64>::empty());
    } else {
        assert(ids.push(id).drop_first() =~= ids.drop_first().push(id));
        lemma_first_unkeyed_push(v, ids.drop_first(), id);
    }
}

proof fn lemma_first_unkeyed_prefix(v: IndexView, ids: Seq<u64>, n: int)
    requires
        0 < n <= ids.len(),
        first_unkeyed(v, ids.subrange(0, n)) is Some,
    ensures
        first_unkeyed(v, ids) == first_unkeyed(v, ids.subrange(0, n)),
    decreases n,
{
    if spec_owner_key(v, ids[0]).len() != 0 {
        assert(ids.subrange(0, n).drop_first() =~= ids.drop_first().subrange(0, n - 1));
        lemma_first_unkeyed_prefix(v, ids.drop_first(), n - 1);
    }
}

proof fn lemma_first_unkeyed_none(v: IndexView, ids: Seq<u64>)
    requires
        first_unkeyed(v, ids) is None,
    ensures
        all_keyed(v, ids),
    decreases ids.len(),
{
    if ids.len() > 0 {
        lemma_first_unkeyed_none(v, ids.drop_first());
        assert forall|i: int| 0 <= i < ids.len() implies spec_owner_key(v, #[trigger] ids[i]).len() > 0 by {
            if i > 0 {
                assert(ids[i] == ids.drop_first()[i - 1]);
            }
        }
    }
}


/// One partition stream as walked: its name, the ids whose current
/// revision is routed to it, and its physical groups in stream order.
#[derive(Clone, Debug)]
pub struct Partition {
    pub stream: String,
    pub current: BTreeSet<u64>,
    pub groups: Vec<(GroupSource, Vec<u8>)>,
}

/// The index with nothing recorded.
pub open spec fn empty_index_view() -> IndexView {
    IndexView { groups: Map::empty(), record_bytes: Map::empty(), owner_streams: Map::empty() }
}

/// Indexing the groups of one stream in order.
pub open spec fn groups_fold(
    v: IndexView,
    stream: Seq<char>,
    gs: Seq<(GroupSource, Vec<u8>)>,
    id_bytes: nat,
    current: Set<u64>,
) -> Result<IndexView, IndexError>
    decreases gs.len(),
{
    if gs.len() == 0 {
        Ok(v)
    } else {
        match groups_fold(v, stream, gs.drop_last(), id_bytes, current) {
            Err(e) => Err(e),
            Ok(v1) => spec_ingest_group(v1, stream, gs.last().0, gs.last().1@, id_bytes, current),
        }
    }
}

/// Indexing the partitions in order.
pub open spec fn partitions_fold(v: IndexView, ps: Seq<Partition>, id_bytes: nat) -> Result<IndexView, IndexError>
    decreases ps.len(),
{
    if ps.len() == 0 {
        Ok(v)
    } else {
        match partitions_fold(v, ps.drop_last(), id_bytes) {
            Err(e) => Err(e),
            Ok(v1) => groups_fold(v1, ps.last().stream@, ps.last().groups@, id_bytes, ps.last().current@),
        }
    }
}

proof fn lemma_groups_fold_err(v: IndexView, stream: Seq<char>, gs: Seq<(GroupSource, Vec<u8>)>, id_bytes: nat, current: Set<u64>, n: int)
    requires
        0 <= n <= gs.len(),
        groups_fold(v, stream, gs.take(n), id_bytes, current) is Err,
    ensures
        groups_fold(v, stream, gs, id_bytes, current) == groups_fold(v, stream, gs.take(n), id_bytes, current),
    decreases gs.len() - n,
{
    if n == gs.len() {
        assert(gs.take(n) =~= gs);
    } else {
        assert(gs.take(n + 1).drop_last() =~= gs.take(n));
        lemma_groups_fold_err(v, stream, gs, id_bytes, current, n + 1);
    }
}

proof fn lemma_partitions_fold_err(v: IndexView, ps: Seq<Partition>, id_bytes: nat, n: int)
    requires
        0 <= n <= ps.len(),
        partitions_fold(v, ps.take(n), id_bytes) is Err,
    ensures
        partitions_fold(v, ps, id_bytes) == partitions_fold(v, ps.take(n), id_bytes),
    decreases ps.len() - n,
{
    if n == ps.len() {
        assert(ps.take(n) =~= ps);
    } else {
        assert(ps.take(n + 1).drop_last() =~= ps.take(n));
        lemma_partitions_fold_err(v, ps, id_bytes, n + 1);
    }
}

/// Builds the physical index once from every walked partition: each
/// channel-102/103 group is framed and dual-length checked, and each record
/// of an id routed to that partition is registered; a current record seen
/// twice is refused. Locations are safe to reuse for selected passes.
pub fn build_physical_index(partitions: &[Partition], id_bytes: usize) -> (r: Result<PhysicalIndex, IndexError>)
    requires
        id_bytes <= usize::MAX - 12,
    ensures
        match partitions_fold(empty_index_view(), partitions@, id_bytes as nat) {
            Ok(v) => r matches Ok(ix) && ix.wf() && ix.view() == v,
            Err(e) => r == Err::<PhysicalIndex, IndexError>(e),
        },
{
    let mut index = PhysicalIndex::new();
    proof {
        assert(index.view() =~= empty_index_view());
        assert(partitions@.take(0) =~= Seq::<Partition>::empty());
    }
    let mut i: usize = 0;
    while i < partitions.len()
        invariant
            i <= partitions@.len(),
            id_bytes <= usize::MAX - 12,
            index.wf(),
            partitions_fold(empty_index_view(), partitions@.take(i as int), id_bytes as nat) == Ok::<IndexView, IndexError>(index.view()),
        decreases partitions@.len() - i,
    {
        let part = &partitions[i];
        proof {
            assert(partitions@.take(i + 1).drop_last() =~= partitions@.take(i as int));
        }
        let ghost v0 = index.view();
        proof {
            assert(part.groups@.take(0) =~= Seq::<(GroupSource, Vec<u8>)>::empty());
        }
        let mut j: usize = 0;
        while j < part.groups.len()
            invariant
                j <= part.groups@.len(),
                i < partitions@.len(),
                *part == partitions@[i as int],
                id_bytes <= usize::MAX - 12,
                index.wf(),
                partitions_fold(empty_index_view(), partitions@.take(i as int), id_bytes as nat) == Ok::<IndexView, IndexError>(v0),
                groups_fold(v0, part.stream@, part.groups@.take(j as int), id_bytes as nat, part.current@) == Ok::<IndexView, IndexError>(index.view()),
            decreases part.groups@.len() - j,
        {
            proof {
                assert(part.groups@.take(j + 1).drop_last() =~= part.groups@.take(j as int));
            }
            let group = &part.groups[j];
            match index.ingest_group(part.stream.as_str(), &group.0, group.1.as_slice(), id_bytes, &part.current) {
                Ok(()) => {},
                Err(e) => {
                    proof {
                        lemma_groups_fold_err(v0, part.stream@, part.groups@, id_bytes as nat, part.current@, j + 1);
                        assert(partitions@.take(i + 1).drop_last() =~= partitions@.take(i as int));
                        assert(partitions@.take(i + 1).last() == *part);
                        lemma_partitions_fold_err(empty_index_view(), partitions@, id_bytes as nat, i + 1);
                    }
                    return Err(e);
                },
            }
            j += 1;
        }
        proof {
            assert(part.groups@.take(part.groups@.len() as int) =~= part.groups@);
        }
        i += 1;
    }
    proof {
        assert(partitions@.take(partitions@.len() as int) =~= partitions@);
    }
    Ok(index)
}

} // verus!

verus! {

proof fn lemma_sorted_insert_contents(s: Seq<Seq<char>>, x: Seq<char>)
    ensures
        forall|y: Seq<char>| #[trigger] sorted_insert(s, x).contains(y) <==> (s.contains(y) || y == x),
        sorted_insert(s, x).len() > 0,
    decreases s.len(),
{
    if s.len() > 0 && s[0] != x && !name_lt(x, s[0]) {
        let t = s.drop_first();
        lemma_sorted_insert_contents(t, x);
        let r = sorted_insert(s, x);
        let u = sorted_insert(t, x);
        assert(r == seq![s[0]] + u);
        assert(r.len() == u.len() + 1);
        assert(forall|i: int| 0 <= i < u.len() ==> r[i + 1] == #[trigger] u[i]);
        assert(forall|i: int| 0 <= i < t.len() ==> s[i + 1] == #[trigger] t[i]);
        assert forall|y: Seq<char>| #[trigger] r.contains(y) <==> (s.contains(y) || y == x) by {
            if r.contains(y) {
                let i = choose|i: int| 0 <= i < r.len() && r[i] == y;
                if i > 0 {
                    assert(sorted_insert(t, x)[i - 1] == y);
                    assert(sorted_insert(t, x).contains(y));
                    if t.contains(y) {
                        let j = choose|j: int| 0 <= j < t.len() && t[j] == y;
                        assert(s[j + 1] == y);
                    }
                } else {
                    assert(s[0] == y);
                }
            }
            if s.contains(y) {
                let i = choose|i: int| 0 <= i < s.len() && s[i] == y;
                if i > 0 {
                    assert(t[i - 1] == y);
                    assert(t.contains(y));
                    assert(u.contains(y));
                    let j = choose|j: int| 0 <= j < sorted_insert(t, x).len() && sorted_insert(t, x)[j] == y;
                    assert(r[j + 1] == y);
                } else {
                    assert(r[0] == y);
                }
            }
            if y == x {
                assert(sorted_insert(t, x).contains(x));
                let j = choose|j: int| 0 <= j < sorted_insert(t, x).len() && sorted_insert(t, x)[j] == x;
                assert(r[j + 1] == x);
            }
        }
    } else if s.len() > 0 && s[0] != x {
        let r = sorted_insert(s, x);
        assert(r == seq![x] + s);
        assert(forall|i: int| 0 <= i < s.len() ==> r[i + 1] == #[trigger] s[i]);
        assert forall|y: Seq<char>| #[trigger] r.contains(y) <==> (s.contains(y) || y == x) by {
            if r.contains(y) {
                let i = choose|i: int| 0 <= i < r.len() && r[i] == y;
                if i > 0 {
                    assert(s[i - 1] == y);
                }
            }
            if s.contains(y) {
                let i = choose|i: int| 0 <= i < s.len() && s[i] == y;
                assert(r[i + 1] == y);
            }
            if y == x {
                assert(r[0] == x);
            }
        }
    } else if s.len() > 0 {
        assert(s[0] == x);
        assert(s.contains(x));
    } else {
        let r = sorted_insert(s, x);
        assert(r == seq![x]);
        assert(r[0] == x);
    }
}

/// What the index holds agrees with itself: every record is on channel 102
/// or 103, has a stored size of at least one byte, lies in one stream only,
/// and that stream is among its owner's streams; every owner with streams
/// has at least one, and each holds one of the owner's records.
pub open spec fn index_laws(v: IndexView) -> bool {
    &&& forall|k: (Seq<char>, u64, u64)| #[trigger] v.groups.contains_key(k) ==> (k.1 == 102 || k.1 == 103)
        && v.record_bytes.contains_key((k.1, k.2)) && v.record_bytes[(k.1, k.2)] >= 1
        && v.owner_streams.contains_key(k.2) && v.owner_streams[k.2].contains(k.0)
    &&& forall|s1: Seq<char>, s2: Seq<char>, ch: u64, id: u64|
        #[trigger] v.groups.contains_key((s1, ch, id)) && #[trigger] v.groups.contains_key((s2, ch, id)) ==> s1 == s2
    &&& forall|id: u64| #[trigger] v.owner_streams.contains_key(id) ==> v.owner_streams[id].len() > 0
        && forall|i: int| 0 <= i < v.owner_streams[id].len() ==> stream_holds(v, #[trigger] v.owner_streams[id][i], id)
}

/// The stream holds a record of the owner on some channel.
pub open spec fn stream_holds(v: IndexView, s: Seq<char>, id: u64) -> bool {
    exists|ch: u64| v.groups.contains_key((s, ch, id))
}

proof fn lemma_record_current_laws(v: IndexView, stream: Seq<char>, channel: u64, id: u64, group_offset: usize, body_len: usize)
    requires
        index_laws(v),
        channel == 102 || channel == 103,
        spec_record_current(v, stream, channel, id, group_offset, body_len) is Ok,
    ensures
        index_laws(spec_record_current(v, stream, channel, id, group_offset, body_len)->Ok_0),
{
    let w = spec_record_current(v, stream, channel, id, group_offset, body_len)->Ok_0;
    lemma_sorted_insert_contents(spec_owner_key(v, id), stream);
    let nk = (stream, channel, id);
    assert forall|k: (Seq<char>, u64, u64)| #[trigger] w.groups.contains_key(k) implies (k.1 == 102 || k.1 == 103)
        && w.record_bytes.contains_key((k.1, k.2)) && w.record_bytes[(k.1, k.2)] >= 1
        && w.owner_streams.contains_key(k.2) && w.owner_streams[k.2].contains(k.0) by {
        if k != nk {
            assert(v.groups.contains_key(k));
            if k.2 == id {
                assert(spec_owner_key(v, id) == v.owner_streams[id]);
            }
        }
    }
    assert forall|s1: Seq<char>, s2: Seq<char>, ch: u64, i: u64|
        #[trigger] w.groups.contains_key((s1, ch, i)) && #[trigger] w.groups.contains_key((s2, ch, i)) implies s1 == s2 by {
        if (s1, ch, i) != nk && (s2, ch, i) != nk {
            assert(v.groups.contains_key((s1, ch, i)) && v.groups.contains_key((s2, ch, i)));
        } else if (s1, ch, i) == nk && (s2, ch, i) != nk {
            assert(v.groups.contains_key((s2, channel, id)));
        } else if (s2, ch, i) == nk && (s1, ch, i) != nk {
            assert(v.groups.contains_key((s1, channel, id)));
        }
    }
    assert forall|o: u64| #[trigger] w.owner_streams.contains_key(o) implies w.owner_streams[o].len() > 0
        && forall|i: int| 0 <= i < w.owner_streams[o].len() ==> stream_holds(w, #[trigger] w.owner_streams[o][i], o) by {
        if o == id {
            assert(w.owner_streams[o] == sorted_insert(spec_owner_key(v, id), stream));
            assert forall|i: int| 0 <= i < w.owner_streams[o].len() implies stream_holds(w, #[trigger] w.owner_streams[o][i], o) by {
                let y = w.owner_streams[o][i];
                assert(sorted_insert(spec_owner_key(v, id), stream).contains(y));
                if y == stream {
                    assert(w.groups.contains_key((y, channel, o)));
                } else {
                    let old_s = spec_owner_key(v, id);
                    assert(old_s.contains(y));
                    let j = choose|j: int| 0 <= j < old_s.len() && old_s[j] == y;
                    assert(v.owner_streams.contains_key(id));
                    assert(old_s == v.owner_streams[id]);
                    assert(0 <= j < v.owner_streams[id].len());
                    assert(stream_holds(v, v.owner_streams[id][j], id));
                    let ch = choose|ch: u64| v.groups.contains_key((v.owner_streams[id][j], ch, id));
                    assert(v.groups.contains_key((y, ch, o)));
                    assert(w.groups.contains_key((y, ch, o)));
                }
            }
        } else {
            assert(v.owner_streams.contains_key(o));
            assert(w.owner_streams[o] == v.owner_streams[o]);
            assert forall|i: int| 0 <= i < w.owner_streams[o].len() implies stream_holds(w, #[trigger] w.owner_streams[o][i], o) by {
                assert(stream_holds(v, v.owner_streams[o][i], o));
                let ch = choose|ch: u64| v.groups.contains_key((v.owner_streams[o][i], ch, o));
                assert(w.groups.contains_key((w.owner_streams[o][i], ch, o)));
            }
        }
    }
}

proof fn lemma_ingest_records_laws(
    v: IndexView,
    stream: Seq<char>,
    channel: u64,
    group_offset: usize,
    s: Seq<u8>,
    id_bytes: nat,
    current: Set<u64>,
    pos: nat,
)
    requires
        index_laws(v),
        channel == 102 || channel == 103,
        ingest_records(v, stream, channel, group_offset, s, id_bytes, current, pos) is Ok,
    ensures
        index_laws(ingest_records(v, stream, channel, group_offset, s, id_bytes, current, pos)->Ok_0),
    decreases s.len() - pos,
{
    let header = id_bytes + 8;
    if pos < s.len() && !((s.len() - pos) < header + 4) {
        let length = le_u32(s, pos + header - 4);
        let end = pos + header + length;
        if !(end > usize::MAX) && !(end + 4 > s.len() || le_u32(s, end) != length) {
            let id = id_at(s, pos as int, id_bytes);
            if current.contains(id) {
                lemma_record_current_laws(v, stream, channel, id, group_offset, length as usize);
                let v2 = spec_record_current(v, stream, channel, id, group_offset, length as usize)->Ok_0;
                lemma_ingest_records_laws(v2, stream, channel, group_offset, s, id_bytes, current, (end + 4) as nat);
            } else {
                lemma_ingest_records_laws(v, stream, channel, group_offset, s, id_bytes, current, (end + 4) as nat);
            }
        }
    }
}

proof fn lemma_groups_fold_laws(v: IndexView, stream: Seq<char>, gs: Seq<(GroupSource, Vec<u8>)>, id_bytes: nat, current: Set<u64>)
    requires
        index_laws(v),
        groups_fold(v, stream, gs, id_bytes, current) is Ok,
    ensures
        index_laws(groups_fold(v, stream, gs, id_bytes, current)->Ok_0),
    decreases gs.len(),
{
    if gs.len() > 0 {
        lemma_groups_fold_laws(v, stream, gs.drop_last(), id_bytes, current);
        let v1 = groups_fold(v, stream, gs.drop_last(), id_bytes, current)->Ok_0;
        let src = gs.last().0;
        if !(src.content_key is Some || !(src.channel == 102 || src.channel == 103)) {
            lemma_ingest_records_laws(v1, stream, src.channel, src.first_marker_offset, gs.last().1@, id_bytes, current, 0);
        }
    }
}

proof fn lemma_partitions_fold_laws(v: IndexView, ps: Seq<Partition>, id_bytes: nat)
    requires
        index_laws(v),
        partitions_fold(v, ps, id_bytes) is Ok,
    ensures
        index_laws(partitions_fold(v, ps, id_bytes)->Ok_0),
    decreases ps.len(),
{
    if ps.len() > 0 {
        lemma_partitions_fold_laws(v, ps.drop_last(), id_bytes);
        let v1 = partitions_fold(v, ps.drop_last(), id_bytes)->Ok_0;
        lemma_groups_fold_laws(v1, ps.last().stream@, ps.last().groups@, id_bytes, ps.last().current@);
    }
}

proof fn lemma_all_keyed_first_unkeyed(v: IndexView, ids: Seq<u64>)
    requires
        all_keyed(v, ids),
    ensures
        first_unkeyed(v, ids) is None,
    decreases ids.len(),
{
    if ids.len() > 0 {
        assert(spec_owner_key(v, ids[0]).len() > 0);
        assert forall|i: int| 0 <= i < ids.drop_first().len() implies spec_owner_key(v, #[trigger] ids.drop_first()[i]).len() > 0 by {
            assert(ids.drop_first()[i] == ids[i + 1]);
        }
        lemma_all_keyed_first_unkeyed(v, ids.drop_first());
    }
}

/// A built index keeps its laws (see [`index_laws`]), and shard planning
/// succeeds for any request of current channel-102/103 owners under a
/// nonzero budget: every such owner has a nonempty stream set.
pub proof fn lemma_built_index_laws(ps: Seq<Partition>, id_bytes: nat, requested: Seq<u64>, max_ids: usize, max_cost_bytes: usize)
    requires
        partitions_fold(empty_index_view(), ps, id_bytes) is Ok,
    ensures
        index_laws(partitions_fold(empty_index_view(), ps, id_bytes)->Ok_0),
        ({
            let v = partitions_fold(empty_index_view(), ps, id_bytes)->Ok_0;
            (max_ids > 0 || max_cost_bytes > 0) && (forall|i: int| 0 <= i < requested.len() ==> spec_current_ids(v, 102).contains(
                #[trigger] requested[i],
            ) || spec_current_ids(v, 103).contains(requested[i])) ==> spec_partition_local_shards(v, requested, max_ids, max_cost_bytes) is Ok
        }),
{
    lemma_partitions_fold_laws(empty_index_view(), ps, id_bytes);
    let v = partitions_fold(empty_index_view(), ps, id_bytes)->Ok_0;
    if (max_ids > 0 || max_cost_bytes > 0) && (forall|i: int| 0 <= i < requested.len() ==> spec_current_ids(v, 102).contains(
        #[trigger] requested[i],
    ) || spec_current_ids(v, 103).contains(requested[i])) {
        assert forall|i: int| 0 <= i < requested.len() implies spec_owner_key(v, #[trigger] requested[i]).len() > 0 by {
            let id = requested[i];
            if spec_current_ids(v, 102).contains(id) {
                let s = choose|s: Seq<char>| v.groups.contains_key((s, 102u64, id));
                assert(v.groups.contains_key((s, 102u64, id)));
            } else {
                assert(spec_current_ids(v, 103).contains(id));
                let s = choose|s: Seq<char>| v.groups.contains_key((s, 103u64, id));
                assert(v.groups.contains_key((s, 103u64, id)));
            }
        }
        lemma_all_keyed_first_unkeyed(v, requested);
    }
}

} // verus!
