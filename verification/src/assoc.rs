//! Association lists: a sequence of (key, value) pairs read as a map.
use vstd::prelude::*;

verus! {

/// The map that an association list stands for; a later pair wins over an
/// earlier one with the same key.
pub open spec fn assoc_map<K, V>(s: Seq<(K, V)>) -> Map<K, V>
    decreases s.len(),
{
    if s.len() == 0 {
        Map::empty()
    } else {
        assoc_map(s.drop_last()).insert(s.last().0, s.last().1)
    }
}

/// No two pairs of the list share a key.
pub open spec fn distinct_keys<K, V>(s: Seq<(K, V)>) -> bool {
    forall|i: int, j: int| 0 <= i < j < s.len() ==> (#[trigger] s[i]).0 != (#[trigger] s[j]).0
}

/// With distinct keys, the map holds exactly the list's keys, each with its
/// value, and has as many keys as the list has pairs.
pub proof fn lemma_assoc_map<K, V>(s: Seq<(K, V)>)
    requires
        distinct_keys(s),
    ensures
        forall|k: K| assoc_map(s).dom().contains(k) <==> exists|i: int| 0 <= i < s.len() && (#[trigger] s[i]).0 == k,
        forall|i: int| 0 <= i < s.len() ==> assoc_map(s)[(#[trigger] s[i]).0] == s[i].1,
        assoc_map(s).dom().finite(),
        assoc_map(s).dom().len() == s.len(),
    decreases s.len(),
{
    if s.len() > 0 {
        let w = s.drop_last();
        assert forall|i: int, j: int| 0 <= i < j < w.len() implies (#[trigger] w[i]).0 != (#[trigger] w[j]).0 by {
            assert(w[i] == s[i] && w[j] == s[j]);
        }
        lemma_assoc_map(w);
        let last = s.last();
        assert(!assoc_map(w).dom().contains(last.0)) by {
            if assoc_map(w).dom().contains(last.0) {
                let i = choose|i: int| 0 <= i < w.len() && (#[trigger] w[i]).0 == last.0;
                assert(s[i] == w[i]);
                assert(s[i].0 != s[s.len() - 1].0);
            }
        }
        assert forall|k: K| assoc_map(s).dom().contains(k) <==> exists|i: int| 0 <= i < s.len() && (#[trigger] s[i]).0 == k by {
            if assoc_map(s).dom().contains(k) {
                if k == last.0 {
                    assert(s[s.len() - 1].0 == k);
                } else {
                    let i = choose|i: int| 0 <= i < w.len() && (#[trigger] w[i]).0 == k;
                    assert(s[i] == w[i]);
                }
            }
            if exists|i: int| 0 <= i < s.len() && (#[trigger] s[i]).0 == k {
                let i = choose|i: int| 0 <= i < s.len() && (#[trigger] s[i]).0 == k;
                if i < s.len() - 1 {
                    assert(w[i] == s[i]);
                }
            }
        }
        assert forall|i: int| 0 <= i < s.len() implies assoc_map(s)[(#[trigger] s[i]).0] == s[i].1 by {
            if i < s.len() - 1 {
                assert(w[i] == s[i]);
                assert(s[i].0 != s[s.len() - 1].0);
            }
        }
    }
}

/// Appending a pair with a new key adds that key to the map.
pub proof fn lemma_assoc_map_push<K, V>(s: Seq<(K, V)>, k: K, v: V)
    requires
        distinct_keys(s),
        !assoc_map(s).dom().contains(k),
    ensures
        distinct_keys(s.push((k, v))),
        assoc_map(s.push((k, v))) == assoc_map(s).insert(k, v),
{
    lemma_assoc_map(s);
    let t = s.push((k, v));
    assert(t.drop_last() =~= s);
    assert forall|i: int, j: int| 0 <= i < j < t.len() implies (#[trigger] t[i]).0 != (#[trigger] t[j]).0 by {
        assert(t[i] == s[i]);
        if j < s.len() {
            assert(t[j] == s[j]);
        } else {
            if s[i].0 == k {
                assert(assoc_map(s).dom().contains(k));
            }
        }
    }
}

/// Replacing the value of the pair at `i` replaces the value of its key.
pub proof fn lemma_assoc_map_update<K, V>(s: Seq<(K, V)>, i: int, v: V)
    requires
        distinct_keys(s),
        0 <= i < s.len(),
    ensures
        distinct_keys(s.update(i, (s[i].0, v))),
        assoc_map(s.update(i, (s[i].0, v))) == assoc_map(s).insert(s[i].0, v),
{
    let t = s.update(i, (s[i].0, v));
    assert forall|a: int, b: int| 0 <= a < b < t.len() implies (#[trigger] t[a]).0 != (#[trigger] t[b]).0 by {
        assert(t[a].0 == s[a].0 && t[b].0 == s[b].0);
    }
    lemma_assoc_map(s);
    lemma_assoc_map(t);
    assert(assoc_map(t) =~= assoc_map(s).insert(s[i].0, v)) by {
        assert forall|k: K| assoc_map(t).dom().contains(k) <==> assoc_map(s).insert(s[i].0, v).dom().contains(k) by {
            if assoc_map(t).dom().contains(k) {
                let j = choose|j: int| 0 <= j < t.len() && (#[trigger] t[j]).0 == k;
                assert(s[j].0 == k);
            }
            if assoc_map(s).dom().contains(k) {
                let j = choose|j: int| 0 <= j < s.len() && (#[trigger] s[j]).0 == k;
                assert(t[j].0 == k);
            }
            if k == s[i].0 {
                assert(t[i].0 == k);
            }
        }
        assert forall|k: K| #[trigger] assoc_map(t).dom().contains(k) implies assoc_map(t)[k] == assoc_map(s).insert(s[i].0, v)[k] by {
            let j = choose|j: int| 0 <= j < t.len() && (#[trigger] t[j]).0 == k;
            assert(assoc_map(t)[t[j].0] == t[j].1);
            if j != i {
                assert(s[j].0 == k);
                assert(assoc_map(s)[s[j].0] == s[j].1);
            }
        }
    }
}

} // verus!
