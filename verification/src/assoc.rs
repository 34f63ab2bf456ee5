//! The mathematical reading of an association list: a sequence of
//! key-value pairs denotes a finite map, and the concrete stores keep
//! their keys distinct so that one scan from the front finds the entry.

use vstd::prelude::*;

verus! {

/// The finite map that a sequence of key-value pairs denotes.
/// Later entries would win; the stores never hold a key twice.
pub open spec fn assoc_map<K, V>(s: Seq<(K, V)>) -> Map<K, V>
    decreases s.len(),
{
    if s.len() == 0 {
        Map::empty()
    } else {
        assoc_map(s.drop_last()).insert(s.last().0, s.last().1)
    }
}

/// No key occurs twice in the pair sequence.
pub open spec fn distinct_keys<K, V>(s: Seq<(K, V)>) -> bool {
    forall|i: int, j: int| 0 <= i < j < s.len() ==> s[i].0 != s[j].0
}

/// No value occurs twice in the sequence.
pub open spec fn seq_distinct<A>(s: Seq<A>) -> bool {
    forall|i: int, j: int| 0 <= i < j < s.len() ==> s[i] != s[j]
}

/// The denoted map holds exactly the keys that occur in the sequence.
pub proof fn lemma_assoc_map_dom<K, V>(s: Seq<(K, V)>)
    ensures
        forall|k: K|
            #[trigger] assoc_map(s).contains_key(k) <==> exists|i: int|
                0 <= i < s.len() && s[i].0 == k,
    decreases s.len(),
{
    if s.len() == 0 {
    } else {
        let t = s.drop_last();
        lemma_assoc_map_dom(t);
        assert forall|k: K| #[trigger] assoc_map(s).contains_key(k) implies exists|i: int|
            0 <= i < s.len() && s[i].0 == k by {
            if k == s.last().0 {
                assert(s[s.len() - 1].0 == k);
            } else {
                assert(assoc_map(t).contains_key(k));
                let i = choose|i: int| 0 <= i < t.len() && t[i].0 == k;
                assert(s[i].0 == k);
            }
        }
        assert forall|k: K| (exists|i: int| 0 <= i < s.len() && s[i].0 == k)
            implies #[trigger] assoc_map(s).contains_key(k) by {
            let i = choose|i: int| 0 <= i < s.len() && s[i].0 == k;
            assert(0 <= i < s.len() && s[i].0 == k);
            if i < s.len() - 1 {
                assert(t[i] == s[i]);
                assert(assoc_map(t).contains_key(k));
            } else {
                assert(s.last().0 == k);
            }
        }
    }
}

/// With distinct keys, the entry at any index gives the map's value there.
pub proof fn lemma_assoc_map_index<K, V>(s: Seq<(K, V)>, i: int)
    requires
        distinct_keys(s),
        0 <= i < s.len(),
    ensures
        assoc_map(s).contains_key(s[i].0),
        assoc_map(s)[s[i].0] == s[i].1,
    decreases s.len(),
{
    if i == s.len() - 1 {
    } else {
        let t = s.drop_last();
        lemma_assoc_map_index(t, i);
        assert(s[i].0 != s[s.len() - 1].0);
    }
}

/// Appending a pair inserts its binding into the denoted map.
pub proof fn lemma_assoc_map_push<K, V>(s: Seq<(K, V)>, p: (K, V))
    ensures
        assoc_map(s.push(p)) == assoc_map(s).insert(p.0, p.1),
{
    assert(s.push(p).drop_last() =~= s);
    assert(s.push(p).last() == p);
}

/// Overwriting the entry that holds a key updates that key's binding.
pub proof fn lemma_assoc_map_update<K, V>(s: Seq<(K, V)>, i: int, p: (K, V))
    requires
        distinct_keys(s),
        0 <= i < s.len(),
        s[i].0 == p.0,
    ensures
        assoc_map(s.update(i, p)) == assoc_map(s).insert(p.0, p.1),
        distinct_keys(s.update(i, p)),
    decreases s.len(),
{
    let su = s.update(i, p);
    if i == s.len() - 1 {
        assert(su.drop_last() =~= s.drop_last());
        assert(su.last() == p);
        assert(assoc_map(s.drop_last()).insert(s.last().0, s.last().1).insert(p.0, p.1)
            =~= assoc_map(s.drop_last()).insert(p.0, p.1));
    } else {
        lemma_assoc_map_update(s.drop_last(), i, p);
        assert(su.drop_last() =~= s.drop_last().update(i, p));
        assert(su.last() == s.last());
        assert(s[i].0 != s[s.len() - 1].0);
        assert(assoc_map(s.drop_last()).insert(p.0, p.1).insert(s.last().0, s.last().1)
            =~= assoc_map(s.drop_last()).insert(s.last().0, s.last().1).insert(p.0, p.1));
    }
}

/// Deleting the entry that holds a key removes that key's binding.
pub proof fn lemma_assoc_map_remove<K, V>(s: Seq<(K, V)>, i: int)
    requires
        distinct_keys(s),
        0 <= i < s.len(),
    ensures
        assoc_map(s.remove(i)) == assoc_map(s).remove(s[i].0),
        distinct_keys(s.remove(i)),
    decreases s.len(),
{
    let sr = s.remove(i);
    assert forall|x: int, y: int| 0 <= x < y < sr.len() implies sr[x].0 != sr[y].0 by {
        let x0: int = if x < i { x } else { x + 1 };
        let y0: int = if y < i { y } else { y + 1 };
        assert(sr[x] == s[x0] && sr[y] == s[y0]);
    }
    if i == s.len() - 1 {
        assert(sr =~= s.drop_last());
        lemma_assoc_map_dom(s.drop_last());
        assert(forall|j: int| 0 <= j < s.len() - 1 ==> s.drop_last()[j] == s[j]);
        assert(!assoc_map(s.drop_last()).contains_key(s[i].0));
        assert(assoc_map(s.drop_last()).insert(s[i].0, s[i].1).remove(s[i].0)
            =~= assoc_map(s.drop_last()));
    } else {
        lemma_assoc_map_remove(s.drop_last(), i);
        assert(sr.drop_last() =~= s.drop_last().remove(i));
        assert(sr.last() == s.last());
        assert(s[i].0 != s[s.len() - 1].0);
        assert(assoc_map(s.drop_last()).remove(s[i].0).insert(s.last().0, s.last().1)
            =~= assoc_map(s.drop_last()).insert(s.last().0, s.last().1).remove(s[i].0));
    }
}

/// Appending a fresh key keeps the keys distinct.
pub proof fn lemma_distinct_keys_push<K, V>(s: Seq<(K, V)>, p: (K, V))
    requires
        distinct_keys(s),
        !assoc_map(s).contains_key(p.0),
    ensures
        distinct_keys(s.push(p)),
{
    lemma_assoc_map_dom(s);
    assert forall|i: int, j: int| 0 <= i < j < s.push(p).len() implies s.push(p)[i].0
        != s.push(p)[j].0 by {
        if j == s.len() {
            assert(s.push(p)[i] == s[i]);
            assert(s[i].0 != p.0);
        }
    }
}

/// Rewriting every entry's value in place maps the denoted map's
/// values, entry by entry, and keeps the keys distinct.
pub proof fn lemma_assoc_map_map_values<K, V>(s1: Seq<(K, V)>, s2: Seq<(K, V)>, f: spec_fn(V) -> V)
    requires
        s1.len() == s2.len(),
        distinct_keys(s1),
        forall|i: int| 0 <= i < s1.len() ==> s2[i] == (s1[i].0, f(s1[i].1)),
    ensures
        assoc_map(s2) == assoc_map(s1).map_values(f),
        distinct_keys(s2),
    decreases s1.len(),
{
    assert(forall|i: int| 0 <= i < s1.len() ==> s2[i].0 == s1[i].0);
    if s1.len() == 0 {
        assert(assoc_map(s2) =~= assoc_map(s1).map_values(f));
    } else {
        let t1 = s1.drop_last();
        let t2 = s2.drop_last();
        assert(forall|i: int| 0 <= i < t1.len() ==> t2[i] == s2[i] && t1[i] == s1[i]);
        lemma_assoc_map_map_values(t1, t2, f);
        assert(s2.last() == (s1.last().0, f(s1.last().1)));
        assert(assoc_map(t1).map_values(f).insert(s1.last().0, f(s1.last().1)) =~= assoc_map(
            t1,
        ).insert(s1.last().0, s1.last().1).map_values(f));
    }
}

/// A first occurrence found by a scan is the one that `remove_value` drops.
pub proof fn lemma_remove_value_at<A>(s: Seq<A>, x: A, i: int)
    requires
        0 <= i < s.len(),
        s[i] == x,
        forall|j: int| 0 <= j < i ==> s[j] != x,
    ensures
        s.remove_value(x) == s.remove(i),
{
    s.index_of_first_ensures(x);
}

/// A sequence with no occurrence of a value is left whole by `remove_value`.
pub proof fn lemma_remove_value_absent<A>(s: Seq<A>, x: A)
    requires
        !s.contains(x),
    ensures
        s.remove_value(x) == s,
{
    s.index_of_first_ensures(x);
}

/// What `remove_value` leaves: every other value keeps its membership,
/// the sequence loses at most one element, and under distinctness the
/// removed value is gone entirely.
pub proof fn lemma_remove_value_facts<A>(s: Seq<A>, x: A)
    ensures
        forall|y: A| y != x ==> (#[trigger] s.remove_value(x).contains(y) <==> s.contains(y)),
        forall|y: A| #[trigger] s.remove_value(x).contains(y) ==> s.contains(y),
        s.contains(x) ==> s.remove_value(x).len() == s.len() - 1,
        !s.contains(x) ==> s.remove_value(x) == s,
        seq_distinct(s) ==> seq_distinct(s.remove_value(x)) && !s.remove_value(x).contains(x),
{
    s.index_of_first_ensures(x);
    if s.contains(x) {
        let i = s.index_of_first(x).unwrap();
        let sr = s.remove(i);
        lemma_remove_keeps_distinct_conditional(s, i);
        assert forall|y: A| #[trigger] sr.contains(y) implies s.contains(y) by {
            let j = choose|j: int| 0 <= j < sr.len() && sr[j] == y;
            let j0: int = if j < i { j } else { j + 1 };
            assert(s[j0] == y);
        }
        assert forall|y: A| y != x && s.contains(y) implies #[trigger] sr.contains(y) by {
            let j = choose|j: int| 0 <= j < s.len() && s[j] == y;
            if j < i {
                assert(sr[j] == y);
            } else {
                assert(sr[j - 1] == y);
            }
        }
        if seq_distinct(s) {
            assert forall|j: int| 0 <= j < sr.len() implies sr[j] != x by {
                let j0: int = if j < i { j } else { j + 1 };
                assert(sr[j] == s[j0]);
            }
        }
    }
}

// A guarded variant so the unconditional lemma above can call it.
proof fn lemma_remove_keeps_distinct_conditional<A>(s: Seq<A>, i: int)
    requires
        0 <= i < s.len(),
    ensures
        seq_distinct(s) ==> seq_distinct(s.remove(i)),
{
    if seq_distinct(s) {
        lemma_remove_keeps_distinct(s, i);
    }
}

/// Pushing keeps every member and adds the new value.
pub proof fn lemma_push_contains<A>(s: Seq<A>, x: A)
    ensures
        forall|y: A| #[trigger] s.push(x).contains(y) <==> s.contains(y) || y == x,
{
    assert forall|y: A| #[trigger] s.push(x).contains(y) implies s.contains(y) || y == x by {
        let j = choose|j: int| 0 <= j < s.push(x).len() && s.push(x)[j] == y;
        if j < s.len() {
            assert(s[j] == y);
        }
    }
    assert forall|y: A| s.contains(y) || y == x implies #[trigger] s.push(x).contains(y) by {
        if s.contains(y) {
            let j = choose|j: int| 0 <= j < s.len() && s[j] == y;
            assert(s.push(x)[j] == y);
        } else {
            assert(s.push(x)[s.len() as int] == y);
        }
    }
}

/// Pushing a value that is not yet present keeps a sequence
/// duplicate-free.
pub proof fn lemma_push_keeps_distinct<A>(s: Seq<A>, x: A)
    requires
        seq_distinct(s),
        !s.contains(x),
    ensures
        seq_distinct(s.push(x)),
{
    assert forall|i: int, j: int| 0 <= i < j < s.push(x).len() implies s.push(x)[i] != s.push(x)[j] by {
        if j == s.len() {
            assert(s[i] == s.push(x)[i]);
        }
    }
}

/// Removing an element keeps a duplicate-free sequence duplicate-free.
pub proof fn lemma_remove_keeps_distinct<A>(s: Seq<A>, i: int)
    requires
        seq_distinct(s),
        0 <= i < s.len(),
    ensures
        seq_distinct(s.remove(i)),
{
    let sr = s.remove(i);
    assert forall|x: int, y: int| 0 <= x < y < sr.len() implies sr[x] != sr[y] by {
        let x0: int = if x < i { x } else { x + 1 };
        let y0: int = if y < i { y } else { y + 1 };
        assert(sr[x] == s[x0] && sr[y] == s[y0]);
    }
}

} // verus!
