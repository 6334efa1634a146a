//! Keyed tables built from sequences of `(key, value)` pairs, where a later
//! pair overrides an earlier one with the same key (as repeated inserts into
//! a `HashMap` do).
use vstd::prelude::*;

verus! {

/// The map that inserting the pairs of `s` in order into an empty map gives.
pub open spec fn pairs_map<V>(s: Seq<(Seq<char>, V)>) -> Map<Seq<char>, V>
    decreases s.len(),
{
    if s.len() == 0 {
        Map::empty()
    } else {
        pairs_map(s.drop_last()).insert(s.last().0, s.last().1)
    }
}

/// No key occurs twice in `s`.
pub open spec fn keys_unique<V>(s: Seq<(Seq<char>, V)>) -> bool {
    forall|i: int, j: int| 0 <= i < j < s.len() ==> s[i].0 != s[j].0
}

/// The keys of `pairs_map(s)` are the keys that occur in `s`.
pub proof fn lemma_pairs_map_dom<V>(s: Seq<(Seq<char>, V)>, k: Seq<char>)
    ensures
        pairs_map(s).dom().contains(k) <==> exists|i: int| 0 <= i < s.len() && #[trigger] s[i].0 == k,
    decreases s.len(),
{
    if s.len() > 0 {
        let p = s.drop_last();
        lemma_pairs_map_dom(p, k);
        if pairs_map(s).dom().contains(k) {
            if k == s.last().0 {
                assert(s[s.len() - 1].0 == k);
            } else {
                let i = choose|i: int| 0 <= i < p.len() && #[trigger] p[i].0 == k;
                assert(s[i].0 == k);
            }
        }
        if exists|i: int| 0 <= i < s.len() && #[trigger] s[i].0 == k {
            let i = choose|i: int| 0 <= i < s.len() && #[trigger] s[i].0 == k;
            if i < s.len() - 1 {
                assert(p[i].0 == k);
            }
        }
    }
}

/// With unique keys, the map sends each key of `s` to the value paired with it.
pub proof fn lemma_pairs_map_value<V>(s: Seq<(Seq<char>, V)>, i: int)
    requires
        keys_unique(s),
        0 <= i < s.len(),
    ensures
        pairs_map(s).dom().contains(s[i].0),
        pairs_map(s)[s[i].0] == s[i].1,
    decreases s.len(),
{
    let p = s.drop_last();
    if i < s.len() - 1 {
        assert(keys_unique(p));
        lemma_pairs_map_value(p, i);
        assert(s[i].0 != s.last().0);
    }
}

/// With unique keys, replacing the value at one position updates the map there.
pub proof fn lemma_pairs_map_update<V>(s: Seq<(Seq<char>, V)>, i: int, v: V)
    requires
        keys_unique(s),
        0 <= i < s.len(),
    ensures
        pairs_map(s.update(i, (s[i].0, v))) == pairs_map(s).insert(s[i].0, v),
        keys_unique(s.update(i, (s[i].0, v))),
    decreases s.len(),
{
    let t = s.update(i, (s[i].0, v));
    let k = s[i].0;
    if i == s.len() - 1 {
        assert(t.drop_last() =~= s.drop_last());
        assert(pairs_map(s).insert(k, v) =~= pairs_map(s.drop_last()).insert(k, v));
    } else {
        let p = s.drop_last();
        assert(keys_unique(p));
        lemma_pairs_map_update(p, i, v);
        assert(t.drop_last() =~= p.update(i, (p[i].0, v)));
        assert(k != s.last().0);
        assert(pairs_map(t) =~= pairs_map(s).insert(k, v));
    }
}

/// Appending a pair with a new key keeps the keys unique.
pub proof fn lemma_keys_unique_push<V>(s: Seq<(Seq<char>, V)>, e: (Seq<char>, V))
    requires
        keys_unique(s),
        forall|j: int| 0 <= j < s.len() ==> s[j].0 != e.0,
    ensures
        keys_unique(s.push(e)),
{
}

} // verus!
