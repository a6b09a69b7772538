//! Association lists with string names, and the finite maps they stand
//! for: the shared backbone of the in-memory store and the subscriber
//! registry.

use vstd::prelude::*;

verus! {

/// The map an association list stands for: a later entry would shadow an
/// earlier one, but the store keeps names distinct.
pub open spec fn assoc_map<V, W>(s: Seq<(String, V)>, f: spec_fn(V) -> W) -> Map<Seq<char>, W>
    decreases s,
{
    if s.len() == 0 {
        Map::empty()
    } else {
        assoc_map(s.drop_last(), f).insert(s.last().0@, f(s.last().1))
    }
}

/// No two entries share a name.
pub open spec fn distinct_names<V>(s: Seq<(String, V)>) -> bool {
    forall|i: int, j: int| 0 <= i < j < s.len() ==> (#[trigger] s[i].0@) != (#[trigger] s[j].0@)
}

/// A name is in the map exactly when some entry carries it.
pub proof fn lemma_assoc_dom<V, W>(s: Seq<(String, V)>, f: spec_fn(V) -> W, k: Seq<char>)
    ensures
        assoc_map(s, f).contains_key(k) <==> exists|i: int|
            0 <= i < s.len() && (#[trigger] s[i].0@) == k,
    decreases s,
{
    if s.len() > 0 {
        lemma_assoc_dom(s.drop_last(), f, k);
        assert(forall|i: int| 0 <= i < s.len() - 1 ==> s.drop_last()[i] == s[i]);
        assert(s[s.len() - 1] == s.last());
        if exists|i: int| 0 <= i < s.len() && (#[trigger] s[i].0@) == k {
            let i = choose|i: int| 0 <= i < s.len() && (#[trigger] s[i].0@) == k;
            if i < s.len() - 1 {
                assert(s.drop_last()[i].0@ == k);
            }
        }
    }
}

/// With distinct names, the entry at `i` gives the map's value at its name.
pub proof fn lemma_assoc_at<V, W>(s: Seq<(String, V)>, f: spec_fn(V) -> W, i: int)
    requires
        distinct_names(s),
        0 <= i < s.len(),
    ensures
        assoc_map(s, f).contains_key(s[i].0@),
        assoc_map(s, f)[s[i].0@] == f(s[i].1),
    decreases s,
{
    assert(s[s.len() - 1] == s.last());
    if i < s.len() - 1 {
        assert(forall|a: int, b: int|
            0 <= a < b < s.len() - 1 ==> (#[trigger] s.drop_last()[a].0@) != (
            #[trigger] s.drop_last()[b].0@));
        lemma_assoc_at(s.drop_last(), f, i);
        assert(s.drop_last()[i] == s[i]);
        assert(s[i].0@ != s.last().0@);
    }
}

/// Appending an entry inserts its pair into the map.
pub proof fn lemma_assoc_push<V, W>(s: Seq<(String, V)>, f: spec_fn(V) -> W, p: (String, V))
    ensures
        assoc_map(s.push(p), f) == assoc_map(s, f).insert(p.0@, f(p.1)),
{
    assert(s.push(p).drop_last() =~= s);
    assert(s.push(p).last() == p);
}

/// Appending an entry with a fresh name keeps names distinct.
pub proof fn lemma_distinct_push<V>(s: Seq<(String, V)>, p: (String, V))
    requires
        distinct_names(s),
        forall|i: int| 0 <= i < s.len() ==> (#[trigger] s[i].0@) != p.0@,
    ensures
        distinct_names(s.push(p)),
{
    assert(forall|i: int| 0 <= i < s.len() ==> s.push(p)[i] == s[i]);
    assert(s.push(p)[s.len() as int] == p);
}

/// Removing the entry at `i` removes its name from the map, and keeps the
/// remaining names distinct.
pub proof fn lemma_assoc_remove<V, W>(s: Seq<(String, V)>, f: spec_fn(V) -> W, i: int)
    requires
        distinct_names(s),
        0 <= i < s.len(),
    ensures
        assoc_map(s.remove(i), f) =~= assoc_map(s, f).remove(s[i].0@),
        distinct_names(s.remove(i)),
    decreases s,
{
    assert(forall|j: int| 0 <= j < i ==> s.remove(i)[j] == s[j]);
    assert(forall|j: int| i <= j < s.len() - 1 ==> s.remove(i)[j] == s[j + 1]);
    assert(s[s.len() - 1] == s.last());
    if i == s.len() - 1 {
        assert(s.remove(i) =~= s.drop_last());
        lemma_assoc_dom(s.drop_last(), f, s[i].0@);
        assert(forall|j: int| 0 <= j < s.len() - 1 ==> s.drop_last()[j] == s[j]);
        assert(!assoc_map(s.drop_last(), f).contains_key(s[i].0@));
        assert(assoc_map(s, f).remove(s[i].0@) =~= assoc_map(s.drop_last(), f));
    } else {
        assert(forall|a: int, b: int|
            0 <= a < b < s.len() - 1 ==> (#[trigger] s.drop_last()[a].0@) != (
            #[trigger] s.drop_last()[b].0@));
        lemma_assoc_remove(s.drop_last(), f, i);
        assert(s.remove(i).drop_last() =~= s.drop_last().remove(i));
        assert(s.remove(i).last() == s.last());
        assert(s.drop_last()[i] == s[i]);
        assert(s[i].0@ != s.last().0@);
    }
}


} // verus!
