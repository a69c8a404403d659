//! The diff engine: what changed between two manifest snapshots, per
//! category, and how a change is applied to a registry's map.
//!
//! A key present in both snapshots with a changed payload is treated as
//! remove-then-add; an unchanged payload produces no operation. Applying a
//! diff always performs the removals before the additions, so a replaced
//! entry never collides with itself in the target.
use crate::nmap::{entries_view, NamedMap, NEntry, Rec};
use crate::scan::insert_pairs;
use vstd::prelude::*;

verus! {

/// The set a run of names denotes.
pub open spec fn names_set(s: Seq<Seq<char>>) -> Set<Seq<char>> {
    Set::new(|k: Seq<char>| s.contains(k))
}

/// A name is removed when the old snapshot holds it and the new one either
/// lacks it or holds a different payload.
pub open spec fn is_removed<V>(p: Map<Seq<char>, V>, n: Map<Seq<char>, V>, k: Seq<char>) -> bool {
    p.contains_key(k) && (!n.contains_key(k) || n[k] != p[k])
}

/// A name is added when the new snapshot holds it and the old one either
/// lacked it or held a different payload.
pub open spec fn is_added<V>(p: Map<Seq<char>, V>, n: Map<Seq<char>, V>, k: Seq<char>) -> bool {
    n.contains_key(k) && (!p.contains_key(k) || p[k] != n[k])
}

/// The removed names among a run of keys, in that run's order.
pub open spec fn spec_removed<V>(
    p: Map<Seq<char>, V>,
    n: Map<Seq<char>, V>,
    keys: Seq<Seq<char>>,
) -> Seq<Seq<char>>
    decreases keys.len(),
{
    if keys.len() == 0 {
        Seq::empty()
    } else {
        let rest = spec_removed(p, n, keys.drop_last());
        if is_removed(p, n, keys.last()) {
            rest.push(keys.last())
        } else {
            rest
        }
    }
}

/// The added entries among a run of keys, with their new payloads, in order.
pub open spec fn spec_added<V>(
    p: Map<Seq<char>, V>,
    n: Map<Seq<char>, V>,
    keys: Seq<Seq<char>>,
) -> Seq<(Seq<char>, V)>
    decreases keys.len(),
{
    if keys.len() == 0 {
        Seq::empty()
    } else {
        let rest = spec_added(p, n, keys.drop_last());
        if is_added(p, n, keys.last()) {
            rest.push((keys.last(), n[keys.last()]))
        } else {
            rest
        }
    }
}

/// What the removed run holds: exactly the removed keys among the given run.
pub proof fn lemma_spec_removed_props<V>(
    p: Map<Seq<char>, V>,
    n: Map<Seq<char>, V>,
    keys: Seq<Seq<char>>,
)
    ensures
        forall|j: int|
            0 <= j < spec_removed(p, n, keys).len() ==> is_removed(
                p,
                n,
                #[trigger] spec_removed(p, n, keys)[j],
            ) && keys.contains(spec_removed(p, n, keys)[j]),
        forall|k: Seq<char>|
            #[trigger] keys.contains(k) && is_removed(p, n, k) ==> spec_removed(
                p,
                n,
                keys,
            ).contains(k),
    decreases keys.len(),
{
    if keys.len() > 0 {
        let t = keys.drop_last();
        lemma_spec_removed_props(p, n, t);
        let r = spec_removed(p, n, keys);
        let rt = spec_removed(p, n, t);
        assert forall|j: int| 0 <= j < r.len() implies is_removed(p, n, #[trigger] r[j])
            && keys.contains(r[j]) by {
            if j < rt.len() {
                assert(r[j] == rt[j]);
                assert(t.contains(rt[j]));
                let q = choose|q: int| 0 <= q < t.len() && t[q] == rt[j];
                assert(keys[q] == rt[j]);
            } else {
                assert(keys[keys.len() - 1] == keys.last());
            }
        }
        assert forall|k: Seq<char>| #[trigger] keys.contains(k) && is_removed(p, n, k) implies r
            .contains(k) by {
            let q = choose|q: int| 0 <= q < keys.len() && keys[q] == k;
            if q < keys.len() - 1 {
                assert(t[q] == k);
                assert(t.contains(k));
                assert(rt.contains(k));
                let j = choose|j: int| 0 <= j < rt.len() && rt[j] == k;
                assert(r[j] == k);
            } else {
                assert(r[r.len() - 1] == k);
            }
        }
    }
}

/// What the added run holds: exactly the added keys, with the new payloads.
pub proof fn lemma_spec_added_props<V>(
    p: Map<Seq<char>, V>,
    n: Map<Seq<char>, V>,
    keys: Seq<Seq<char>>,
)
    requires
        forall|i: int, j: int| 0 <= i < j < keys.len() ==> keys[i] != keys[j],
    ensures
        forall|j: int|
            0 <= j < spec_added(p, n, keys).len() ==> is_added(
                p,
                n,
                (#[trigger] spec_added(p, n, keys)[j]).0,
            ) && n.contains_key(spec_added(p, n, keys)[j].0) && n[spec_added(p, n, keys)[j].0]
                == spec_added(p, n, keys)[j].1,
        forall|k: Seq<char>|
            #[trigger] keys.contains(k) && is_added(p, n, k) ==> exists|j: int|
                0 <= j < spec_added(p, n, keys).len() && (#[trigger] spec_added(p, n, keys)[j]).0
                    == k,
        forall|j1: int, j2: int|
            0 <= j1 < j2 < spec_added(p, n, keys).len() ==> (#[trigger] spec_added(p, n, keys)[j1]).0
                != (#[trigger] spec_added(p, n, keys)[j2]).0,
    decreases keys.len(),
{
    if keys.len() > 0 {
        let t = keys.drop_last();
        assert(forall|i: int, j: int| 0 <= i < j < t.len() ==> t[i] != t[j]);
        lemma_spec_added_props(p, n, t);
        let r = spec_added(p, n, keys);
        let rt = spec_added(p, n, t);
        assert forall|j: int| 0 <= j < rt.len() implies exists|q: int|
            0 <= q < t.len() && (#[trigger] rt[j]).0 == t[q] by {
            lemma_spec_added_member(p, n, t, j);
        }
        assert forall|j: int| 0 <= j < r.len() implies is_added(p, n, (#[trigger] r[j]).0)
            && n.contains_key(r[j].0) && n[r[j].0] == r[j].1 by {
            if j < rt.len() {
                assert(r[j] == rt[j]);
            }
        }
        assert forall|k: Seq<char>| #[trigger] keys.contains(k) && is_added(p, n, k) implies exists|
            j: int,
        | 0 <= j < r.len() && (#[trigger] r[j]).0 == k by {
            let q = choose|q: int| 0 <= q < keys.len() && keys[q] == k;
            if q < keys.len() - 1 {
                assert(t[q] == k);
                assert(t.contains(k));
                let j = choose|j: int| 0 <= j < rt.len() && (#[trigger] rt[j]).0 == k;
                assert(r[j].0 == k);
            } else {
                assert(r[r.len() - 1].0 == k);
            }
        }
        assert forall|j1: int, j2: int| 0 <= j1 < j2 < r.len() implies (#[trigger] r[j1]).0 != (
        #[trigger] r[j2]).0 by {
            if j2 < rt.len() {
                assert(rt[j1].0 != rt[j2].0);
            } else if is_added(p, n, keys.last()) && j2 == r.len() - 1 {
                assert(r[j1] == rt[j1]);
                lemma_spec_added_member(p, n, t, j1);
                let q = choose|q: int| 0 <= q < t.len() && (#[trigger] rt[j1]).0 == t[q];
                assert(keys[q] == t[q]);
                assert(keys[q] != keys.last());
            }
        }
    }
}

/// Every added entry's key stands among the keys it was drawn from.
proof fn lemma_spec_added_member<V>(
    p: Map<Seq<char>, V>,
    n: Map<Seq<char>, V>,
    keys: Seq<Seq<char>>,
    j: int,
)
    requires
        0 <= j < spec_added(p, n, keys).len(),
    ensures
        exists|q: int|
            0 <= q < keys.len() && (#[trigger] spec_added(p, n, keys)[j]).0 == keys[q],
    decreases keys.len(),
{
    if keys.len() > 0 {
        let t = keys.drop_last();
        let rt = spec_added(p, n, t);
        if j < rt.len() {
            lemma_spec_added_member(p, n, t, j);
            let q = choose|q: int| 0 <= q < t.len() && (#[trigger] rt[j]).0 == t[q];
            assert(spec_added(p, n, keys)[j].0 == keys[q]);
        } else {
            assert(spec_added(p, n, keys)[j].0 == keys[keys.len() - 1]);
        }
    }
}

/// Computes one category's diff: the removed names and the added entries,
/// drawn from the two snapshots' key runs.
pub fn diff_category<T: Rec>(p: &NamedMap<T>, n: &NamedMap<T>) -> (r: (Vec<String>, Vec<NEntry<T>>))
    requires
        p.wf(),
        n.wf(),
    ensures
        r.0.deep_view() == spec_removed(p@, n@, p.keys_seq()),
        entries_view(r.1@) == spec_added(p@, n@, n.keys_seq()),
{
    proof {
        p.lemma_view_props();
        n.lemma_view_props();
    }
    let mut removed: Vec<String> = Vec::new();
    let pn = p.len();
    let mut i: usize = 0;
    proof {
        assert(removed.deep_view() =~= spec_removed(p@, n@, p.keys_seq().take(0)));
    }
    while i < pn
        invariant
            i <= pn,
            p.wf(),
            n.wf(),
            pn == p.keys_seq().len(),
            removed.deep_view() == spec_removed(p@, n@, p.keys_seq().take(i as int)),
        decreases pn - i,
    {
        proof {
            p.lemma_view_props();
            assert(p.keys_seq().take(i as int + 1).drop_last() =~= p.keys_seq().take(i as int));
        }
        let name = p.name_at(i);
        let pv = p.value_at(i);
        let gone = match n.get(name) {
            Some(nv) => !nv.data_eq(pv),
            None => true,
        };
        let ghost prev = removed.deep_view();
        if gone {
            removed.push(name.clone());
            proof {
                assert(is_removed(p@, n@, p.keys_seq()[i as int]));
                assert(removed.deep_view() =~= prev.push(p.keys_seq()[i as int]));
            }
        } else {
            proof {
                assert(!is_removed(p@, n@, p.keys_seq()[i as int]));
            }
        }
        i = i + 1;
    }
    proof {
        assert(p.keys_seq().take(pn as int) =~= p.keys_seq());
    }
    let mut added: Vec<NEntry<T>> = Vec::new();
    let nn = n.len();
    let mut i: usize = 0;
    proof {
        assert(entries_view(added@) =~= spec_added(p@, n@, n.keys_seq().take(0)));
    }
    while i < nn
        invariant
            i <= nn,
            p.wf(),
            n.wf(),
            nn == n.keys_seq().len(),
            entries_view(added@) == spec_added(p@, n@, n.keys_seq().take(i as int)),
        decreases nn - i,
    {
        proof {
            n.lemma_view_props();
            assert(n.keys_seq().take(i as int + 1).drop_last() =~= n.keys_seq().take(i as int));
        }
        let name = n.name_at(i);
        let nv = n.value_at(i);
        let fresh = match p.get(name) {
            Some(pv) => !pv.data_eq(nv),
            None => true,
        };
        let ghost prev = entries_view(added@);
        if fresh {
            added.push(NEntry { name: name.clone(), value: nv.dup() });
            proof {
                assert(is_added(p@, n@, n.keys_seq()[i as int]));
                assert(entries_view(added@) =~= prev.push(
                    (n.keys_seq()[i as int], n@[n.keys_seq()[i as int]]),
                ));
            }
        } else {
            proof {
                assert(!is_added(p@, n@, n.keys_seq()[i as int]));
            }
        }
        i = i + 1;
    }
    proof {
        assert(n.keys_seq().take(nn as int) =~= n.keys_seq());
    }
    (removed, added)
}

/// Takes the removed names out of a registry's map.
pub fn apply_removals<T: Rec>(t: &mut NamedMap<T>, removed: &Vec<String>)
    requires
        old(t).wf(),
    ensures
        final(t).wf(),
        final(t)@ == old(t)@.remove_keys(names_set(removed.deep_view())),
{
    let n = removed.len();
    let mut i: usize = 0;
    proof {
        assert(t@ =~= old(t)@.remove_keys(names_set(removed.deep_view().take(0))));
    }
    while i < n
        invariant
            i <= n,
            n == removed@.len(),
            t.wf(),
            t@ == old(t)@.remove_keys(names_set(removed.deep_view().take(i as int))),
        decreases n - i,
    {
        proof {
            assert(removed.deep_view()[i as int] == removed@[i as int]@);
        }
        t.remove(&removed[i]);
        proof {
            let dv = removed.deep_view();
            let t1 = dv.take(i as int + 1);
            let t0 = dv.take(i as int);
            let xi = dv[i as int];
            assert(t1 =~= t0.push(xi));
            assert forall|x: Seq<char>| #[trigger] t1.contains(x) <==> (t0.contains(x) || x
                == xi) by {
                if t1.contains(x) {
                    let j = choose|j: int| 0 <= j < i + 1 && t1[j] == x;
                    if j < i {
                        assert(t0[j] == x);
                    }
                }
                if t0.contains(x) {
                    let j = choose|j: int| 0 <= j < i && t0[j] == x;
                    assert(t1[j] == x);
                }
                if x == xi {
                    assert(t1[i as int] == x);
                }
            }
            assert(t@ =~= old(t)@.remove_keys(names_set(removed.deep_view().take(i as int + 1))));
        }
        i = i + 1;
    }
    proof {
        assert(removed.deep_view().take(n as int) =~= removed.deep_view());
    }
}

/// Puts the added entries into a registry's map, in order.
pub fn apply_additions<T: Rec>(t: &mut NamedMap<T>, added: &Vec<NEntry<T>>)
    requires
        old(t).wf(),
    ensures
        final(t).wf(),
        final(t)@ == insert_pairs(old(t)@, entries_view(added@)),
{
    let n = added.len();
    let mut i: usize = 0;
    proof {
        assert(entries_view(added@).take(0) =~= Seq::empty());
    }
    while i < n
        invariant
            i <= n,
            n == added@.len(),
            t.wf(),
            t@ == insert_pairs(old(t)@, entries_view(added@).take(i as int)),
        decreases n - i,
    {
        proof {
            assert(entries_view(added@).take(i as int + 1).drop_last() =~= entries_view(
                added@,
            ).take(i as int));
            assert(entries_view(added@)[i as int] == (added@[i as int].name@, added@[i as int].value@));
        }
        t.insert(NEntry { name: added[i].name.clone(), value: added[i].value.dup() });
        i = i + 1;
    }
    proof {
        assert(entries_view(added@).take(n as int) =~= entries_view(added@));
    }
}

/// What a run of inserted pairs holds, pair by pair, when names are distinct.
proof fn lemma_insert_pairs_props<V>(m: Map<Seq<char>, V>, s: Seq<(Seq<char>, V)>)
    requires
        forall|i: int, j: int| 0 <= i < j < s.len() ==> (#[trigger] s[i]).0 != (#[trigger] s[j]).0,
    ensures
        forall|k: Seq<char>|
            insert_pairs(m, s).contains_key(k) <==> (m.contains_key(k) || exists|i: int|
                0 <= i < s.len() && (#[trigger] s[i]).0 == k),
        forall|i: int|
            0 <= i < s.len() ==> insert_pairs(m, s).contains_key((#[trigger] s[i]).0)
                && insert_pairs(m, s)[s[i].0] == s[i].1,
        forall|k: Seq<char>|
            m.contains_key(k) && !(exists|i: int| 0 <= i < s.len() && (#[trigger] s[i]).0 == k)
                ==> insert_pairs(m, s).contains_key(k) && insert_pairs(m, s)[k] == m[k],
    decreases s.len(),
{
    if s.len() > 0 {
        let t = s.drop_last();
        lemma_insert_pairs_props(m, t);
        assert forall|i: int| 0 <= i < s.len() implies insert_pairs(m, s).contains_key(
            (#[trigger] s[i]).0,
        ) && insert_pairs(m, s)[s[i].0] == s[i].1 by {
            if i < s.len() - 1 {
                assert(t[i] == s[i]);
                assert(s[i].0 != s[s.len() - 1].0);
            }
        }
        assert forall|k: Seq<char>| insert_pairs(m, s).contains_key(k) implies (m.contains_key(k)
            || exists|i: int| 0 <= i < s.len() && (#[trigger] s[i]).0 == k) by {
            if k != s.last().0 {
                if !m.contains_key(k) {
                    let i = choose|i: int| 0 <= i < t.len() && (#[trigger] t[i]).0 == k;
                    assert(s[i].0 == k);
                }
            } else {
                assert(s[s.len() - 1].0 == k);
            }
        }
        assert forall|k: Seq<char>| (m.contains_key(k) || exists|i: int|
            0 <= i < s.len() && (#[trigger] s[i]).0 == k) implies insert_pairs(m, s).contains_key(
            k,
        ) by {
            if !m.contains_key(k) {
                let i = choose|i: int| 0 <= i < s.len() && (#[trigger] s[i]).0 == k;
                if i < s.len() - 1 {
                    assert(t[i].0 == k);
                }
            }
        }
    }
}

/// Applying a category's diff to a map that held the old snapshot yields
/// exactly the new snapshot: removals first, then additions. The key runs
/// must be the snapshots' own (each key once, covering the whole domain).
pub proof fn lemma_diff_apply_syncs<V>(
    p: Map<Seq<char>, V>,
    n: Map<Seq<char>, V>,
    pkeys: Seq<Seq<char>>,
    nkeys: Seq<Seq<char>>,
)
    requires
        forall|k: Seq<char>| p.contains_key(k) ==> #[trigger] pkeys.contains(k),
        forall|k: Seq<char>| n.contains_key(k) ==> #[trigger] nkeys.contains(k),
        forall|i: int, j: int|
            0 <= i < j < nkeys.len() ==> (#[trigger] nkeys[i]) != (#[trigger] nkeys[j]),
    ensures
        insert_pairs(
            p.remove_keys(names_set(spec_removed(p, n, pkeys))),
            spec_added(p, n, nkeys),
        ) == n,
{
    let removed = spec_removed(p, n, pkeys);
    let added = spec_added(p, n, nkeys);
    lemma_spec_removed_props(p, n, pkeys);
    lemma_spec_added_props(p, n, nkeys);
    let base = p.remove_keys(names_set(removed));
    lemma_insert_pairs_props(base, added);
    let out = insert_pairs(base, added);
    assert forall|k: Seq<char>| #[trigger] out.dom().contains(k) implies n.dom().contains(k)
        && out[k] == n[k] by {
        assert(out.contains_key(k));
        if exists|i: int| 0 <= i < added.len() && (#[trigger] added[i]).0 == k {
            let i = choose|i: int| 0 <= i < added.len() && (#[trigger] added[i]).0 == k;
            assert(out[k] == added[i].1);
            assert(is_added(p, n, k));
        } else {
            assert(base.contains_key(k));
            assert(!names_set(removed).contains(k));
            assert(!removed.contains(k));
            assert(p.contains_key(k));
            assert(pkeys.contains(k));
            assert(!is_removed(p, n, k));
            assert(n.contains_key(k) && n[k] == p[k]);
            assert(out[k] == base[k]);
        }
    }
    assert forall|k: Seq<char>| #[trigger] n.dom().contains(k) implies out.dom().contains(k) by {
        assert(n.contains_key(k));
        if is_added(p, n, k) {
            assert(nkeys.contains(k));
            let i = choose|i: int| 0 <= i < added.len() && (#[trigger] added[i]).0 == k;
        } else {
            assert(p.contains_key(k) && p[k] == n[k]);
            assert(!is_removed(p, n, k));
            assert forall|j: int| 0 <= j < removed.len() implies removed[j] != k by {
                assert(is_removed(p, n, removed[j]));
            }
            if removed.contains(k) {
                let j = choose|j: int| 0 <= j < removed.len() && removed[j] == k;
            }
            assert(!removed.contains(k));
            assert(base.contains_key(k));
        }
    }
    assert(out.dom() =~= n.dom());
    assert(out =~= n);
}

} // verus!
