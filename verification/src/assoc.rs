//! Association lists: sequences of key/value pairs read as finite maps.

use vstd::prelude::*;

verus! {

/// The map described by a list of pairs; later pairs win.
pub open spec fn assoc<K, V>(s: Seq<(K, V)>) -> Map<K, V>
    decreases s.len(),
{
    if s.len() == 0 {
        Map::empty()
    } else {
        assoc(s.drop_last()).insert(s.last().0, s.last().1)
    }
}

/// No key occurs twice in a list of pairs.
pub open spec fn keys_unique<K, V>(s: Seq<(K, V)>) -> bool {
    forall|i: int, j: int| 0 <= i < j < s.len() ==> s[i].0 != s[j].0
}

/// The pair at position `i` is what the map holds for its key.
pub proof fn lemma_assoc_at<K, V>(s: Seq<(K, V)>, i: int)
    requires
        keys_unique(s),
        0 <= i < s.len(),
    ensures
        assoc(s).contains_key(s[i].0),
        assoc(s)[s[i].0] == s[i].1,
    decreases s.len(),
{
    if i < s.len() - 1 {
        lemma_assoc_at(s.drop_last(), i);
    }
}

/// A key that no pair carries is not in the map.
pub proof fn lemma_assoc_absent<K, V>(s: Seq<(K, V)>, k: K)
    requires
        forall|i: int| 0 <= i < s.len() ==> s[i].0 != k,
    ensures
        !assoc(s).contains_key(k),
    decreases s.len(),
{
    if s.len() > 0 {
        lemma_assoc_absent(s.drop_last(), k);
    }
}

/// Replacing the value of the pair at `i` updates the map at its key.
pub proof fn lemma_assoc_update<K, V>(s: Seq<(K, V)>, i: int, v: V)
    requires
        keys_unique(s),
        0 <= i < s.len(),
    ensures
        assoc(s.update(i, (s[i].0, v))) == assoc(s).insert(s[i].0, v),
    decreases s.len(),
{
    let u = s.update(i, (s[i].0, v));
    if i == s.len() - 1 {
        assert(u.drop_last() =~= s.drop_last());
        assert(assoc(u) =~= assoc(s).insert(s[i].0, v));
    } else {
        assert(u.drop_last() =~= s.drop_last().update(i, (s[i].0, v)));
        lemma_assoc_update(s.drop_last(), i, v);
        assert(assoc(u) =~= assoc(s).insert(s[i].0, v));
    }
}

/// Appending a pair with a new key keeps keys unique and adds it to the map.
pub proof fn lemma_assoc_push<K, V>(s: Seq<(K, V)>, k: K, v: V)
    requires
        keys_unique(s),
        !assoc(s).contains_key(k),
    ensures
        keys_unique(s.push((k, v))),
        assoc(s.push((k, v))) == assoc(s).insert(k, v),
{
    assert forall|i: int| 0 <= i < s.len() implies s[i].0 != k by {
        if s[i].0 == k {
            lemma_assoc_at(s, i);
        }
    }
    assert(s.push((k, v)).drop_last() =~= s);
}

} // verus!
