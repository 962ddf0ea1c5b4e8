//! Project display units applied to every recorded parameter definition.
use vstd::prelude::*;

use std::collections::BTreeMap;

use crate::parameter_definitions::{
    builtins_view, definitions_view, enrich, enrich_all, enrich_all_builtins, enrich_builtin,
    enrich_builtin_exec, enrich_exec, increasing_ids, named_view, Binding, BuiltinDefinition, Definition,
};
use crate::value_grammar::Token;

verus! {

broadcast use vstd::std_specs::btree::group_btree_axioms, vstd::laws_cmp::group_laws_cmp;

/// The keys of a map keyed by id, each once.
fn map_ids<V>(m: &BTreeMap<i64, V>) -> (r: Vec<i64>)
    ensures
        r@.to_set() == m@.dom(),
        r@.no_duplicates(),
{
    let mut r: Vec<i64> = Vec::new();
    for k in it: m.keys()
        invariant
            it.seq().unref().to_set() == m@.dom(),
            it.seq().unref().no_duplicates(),
            r@ == it.seq().unref().take(it.index() as int),
            r@.no_duplicates(),
            forall|x: i64| #[trigger] m@.dom().contains(x) ==> r@.contains(x) || exists|j: int|
                it.index() <= j < it.seq().len() && it.seq().unref()[j] == x,
            forall|x: i64| r@.contains(x) ==> #[trigger] m@.dom().contains(x),
    {
        let ghost s = it.seq().unref();
        let ghost idx = it.index() as int;
        proof {
            assert(s[idx] == *k);
            assert(s.to_set().contains(*k));
            assert(!r@.contains(*k)) by {
                if r@.contains(*k) {
                    let j = choose|j: int| 0 <= j < r@.len() && r@[j] == *k;
                    assert(s[j] == s[idx]);
                }
            }
        }
        let ghost before = r@;
        r.push(*k);
        proof {
            assert(r@ =~= s.take(idx + 1));
            assert forall|x: i64| #[trigger] m@.dom().contains(x) implies r@.contains(x) || exists|j: int|
                idx + 1 <= j < s.len() && s[j] == x by {
                if before.contains(x) {
                    let j = choose|j: int| 0 <= j < before.len() && before[j] == x;
                    assert(r@[j] == x);
                } else if x == *k {
                    assert(r@[idx] == x);
                } else {
                    let j = choose|j: int| idx <= j < s.len() && s[j] == x;
                    assert(j != idx);
                }
            }
            assert forall|x: i64| r@.contains(x) implies #[trigger] m@.dom().contains(x) by {
                let j = choose|j: int| 0 <= j < r@.len() && r@[j] == x;
                if j < before.len() {
                    assert(before[j] == x);
                }
            }
        }
    }
    proof {
        assert(r@.to_set() =~= m@.dom());
    }
    r
}

/// Every recorded definition enriched with the project display units.
pub fn enrich_definitions(m: &mut BTreeMap<i64, Definition>, formats: &Vec<(String, Vec<Token>)>)
    ensures
        definitions_view(final(m)@) == enrich_all(definitions_view(old(m)@), named_view(formats@)),
{
    let ids = map_ids(m);
    let ghost orig = m@;
    let ghost fv = named_view(formats@);
    let mut i: usize = 0;
    while i < ids.len()
        invariant
            i <= ids@.len(),
            ids@.to_set() == orig.dom(),
            ids@.no_duplicates(),
            fv == named_view(formats@),
            m@.dom() == orig.dom(),
            forall|j: int| 0 <= j < i ==> (#[trigger] m@[ids@[j]])@ == enrich(orig[ids@[j]]@, fv),
            forall|j: int| i <= j < ids@.len() ==> #[trigger] m@[ids@[j]] == orig[ids@[j]],
        decreases ids@.len() - i,
    {
        let k = ids[i];
        proof {
            assert(ids@.to_set().contains(k));
        }
        let ghost before = m@;
        match m.remove(&k) {
            Some(d) => {
                let e = enrich_exec(d, formats);
                m.insert(k, e);
                proof {
                    assert(m@ == before.insert(k, e));
                    assert forall|j: int| 0 <= j < i + 1 implies (#[trigger] m@[ids@[j]])@ == enrich(
                        orig[ids@[j]]@,
                        fv,
                    ) by {
                        if j < i {
                            assert(ids@[j] != k);
                        }
                    }
                    assert forall|j: int| i + 1 <= j < ids@.len() implies #[trigger] m@[ids@[j]]
                        == orig[ids@[j]] by {
                        assert(ids@[j] != k);
                    }
                    assert(m@.dom() =~= orig.dom());
                }
            },
            None => {
                proof {
                    assert(false);
                }
            },
        }
        i += 1;
    }
    proof {
        assert forall|k: i64| #[trigger] orig.contains_key(k) implies m@[k]@ == enrich(orig[k]@, fv) by {
            assert(ids@.to_set().contains(k));
            let j = choose|j: int| 0 <= j < ids@.len() && ids@[j] == k;
            assert(m@[ids@[j]]@ == enrich(orig[ids@[j]]@, fv));
        }
        assert(definitions_view(m@) =~= enrich_all(definitions_view(orig), fv));
    }
}


/// Places `x` in an increasing sequence that lacks it.
fn insert_increasing(v: &mut Vec<i64>, x: i64)
    requires
        increasing_ids(old(v)@),
        !old(v)@.contains(x),
    ensures
        increasing_ids(final(v)@),
        final(v)@.to_set() == old(v)@.to_set().insert(x),
{
    let ghost s = v@;
    let mut j: usize = 0;
    while j < v.len() && v[j] < x
        invariant
            j <= v@.len(),
            v@ == s,
            forall|k: int| 0 <= k < j ==> v@[k] < x,
        decreases v@.len() - j,
    {
        j += 1;
    }
    proof {
        if j < s.len() {
            assert(s[j as int] != x);
        }
    }
    v.insert(j, x);
    proof {
        let t = v@;
        assert(t =~= s.insert(j as int, x));
        assert forall|a: int, b: int| 0 <= a < b < t.len() implies t[a] < t[b] by {
            if b < j {
                assert(t[a] == s[a] && t[b] == s[b]);
            } else if b == j {
                assert(t[a] == s[a]);
            } else if a < j {
                assert(t[a] == s[a] && t[b] == s[b - 1]);
                if j < s.len() {
                    assert(x < s[j as int]);
                    if b - 1 > j {
                        assert(s[j as int] < s[b - 1]);
                    }
                }
            } else if a == j {
                assert(t[b] == s[b - 1]);
                assert(x < s[j as int]);
                if b - 1 > j {
                    assert(s[j as int] < s[b - 1]);
                }
            } else {
                assert(t[a] == s[a - 1] && t[b] == s[b - 1]);
            }
        }
        assert forall|y: i64| t.to_set().contains(y) <==> s.to_set().insert(x).contains(y) by {
            if t.to_set().contains(y) {
                let k = choose|k: int| 0 <= k < t.len() && t[k] == y;
                if k < j {
                    assert(s[k] == y);
                } else if k > j {
                    assert(s[k - 1] == y);
                }
            }
            if s.to_set().contains(y) {
                let k = choose|k: int| 0 <= k < s.len() && s[k] == y;
                if k < j {
                    assert(t[k] == y);
                } else {
                    assert(t[k + 1] == y);
                }
            }
            if y == x {
                assert(t[j as int] == x);
            }
        }
        assert(t.to_set() =~= s.to_set().insert(x));
    }
}

/// The keys of a map keyed by id, in increasing order.
pub fn sorted_ids<V>(m: &BTreeMap<i64, V>) -> (r: Vec<i64>)
    ensures
        increasing_ids(r@),
        r@.to_set() == m@.dom(),
{
    let ids = map_ids(m);
    let mut out: Vec<i64> = Vec::new();
    let mut i: usize = 0;
    proof {
        assert(out@.to_set() =~= ids@.take(0).to_set());
    }
    while i < ids.len()
        invariant
            i <= ids@.len(),
            ids@.no_duplicates(),
            increasing_ids(out@),
            out@.to_set() == ids@.take(i as int).to_set(),
        decreases ids@.len() - i,
    {
        let x = ids[i];
        proof {
            assert(!out@.contains(x)) by {
                if out@.contains(x) {
                    assert(out@.to_set().contains(x));
                    assert(ids@.take(i as int).to_set().contains(x));
                    let k = choose|k: int| 0 <= k < i && ids@.take(i as int)[k] == x;
                    assert(ids@[k] == ids@[i as int]);
                }
            }
        }
        insert_increasing(&mut out, x);
        proof {
            assert(ids@.take(i + 1) =~= ids@.take(i as int).push(x));
            assert(ids@.take(i + 1).to_set() =~= ids@.take(i as int).to_set().insert(x)) by {
                ids@.take(i as int).lemma_push_to_set_commute(x);
            }
        }
        i += 1;
    }
    proof {
        assert(ids@.take(ids@.len() as int) =~= ids@);
    }
    out
}


/// Every built-in definition enriched with the project display units.
pub fn enrich_builtins(m: &mut BTreeMap<i64, BuiltinDefinition>, formats: &Vec<(String, Vec<Token>)>)
    ensures
        builtins_view(final(m)@) == enrich_all_builtins(builtins_view(old(m)@), named_view(formats@)),
{
    let ids = map_ids(m);
    let ghost orig = m@;
    let ghost fv = named_view(formats@);
    let mut i: usize = 0;
    while i < ids.len()
        invariant
            i <= ids@.len(),
            ids@.to_set() == orig.dom(),
            ids@.no_duplicates(),
            fv == named_view(formats@),
            m@.dom() == orig.dom(),
            forall|j: int| 0 <= j < i ==> (#[trigger] m@[ids@[j]])@ == enrich_builtin(orig[ids@[j]]@, fv),
            forall|j: int| i <= j < ids@.len() ==> #[trigger] m@[ids@[j]] == orig[ids@[j]],
        decreases ids@.len() - i,
    {
        let k = ids[i];
        proof {
            assert(ids@.to_set().contains(k));
        }
        let ghost before = m@;
        match m.remove(&k) {
            Some(d) => {
                let e = enrich_builtin_exec(d, formats);
                m.insert(k, e);
                proof {
                    assert(m@ == before.insert(k, e));
                    assert forall|j: int| 0 <= j < i + 1 implies (#[trigger] m@[ids@[j]])@ == enrich_builtin(
                        orig[ids@[j]]@,
                        fv,
                    ) by {
                        if j < i {
                            assert(ids@[j] != k);
                        }
                    }
                    assert forall|j: int| i + 1 <= j < ids@.len() implies #[trigger] m@[ids@[j]]
                        == orig[ids@[j]] by {
                        assert(ids@[j] != k);
                    }
                    assert(m@.dom() =~= orig.dom());
                }
            },
            None => {
                proof {
                    assert(false);
                }
            },
        }
        i += 1;
    }
    proof {
        assert forall|k: i64| #[trigger] orig.contains_key(k) implies m@[k]@ == enrich_builtin(orig[k]@, fv) by {
            assert(ids@.to_set().contains(k));
            let j = choose|j: int| 0 <= j < ids@.len() && ids@[j] == k;
            assert(m@[ids@[j]]@ == enrich_builtin(orig[ids@[j]]@, fv));
        }
        assert(builtins_view(m@) =~= enrich_all_builtins(builtins_view(orig), fv));
    }
}


/// Adds `x` to an increasing sequence unless it is already there.
pub fn insert_unique_increasing(v: &mut Vec<i64>, x: i64)
    requires
        increasing_ids(old(v)@),
    ensures
        increasing_ids(final(v)@),
        final(v)@.to_set() == old(v)@.to_set().insert(x),
{
    let mut k: usize = 0;
    while k < v.len()
        invariant
            k <= v@.len(),
            v@ == old(v)@,
            increasing_ids(v@),
            forall|j: int| 0 <= j < k ==> v@[j] != x,
        decreases v@.len() - k,
    {
        if v[k] == x {
            proof {
                assert(v@.to_set().contains(x));
                assert(v@.to_set().insert(x) =~= v@.to_set());
            }
            return;
        }
        k += 1;
    }
    insert_increasing(v, x);
}

} // verus!
