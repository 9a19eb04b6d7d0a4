//! Association lists kept strictly sorted by their text keys, and the map
//! that such a list stands for.

use vstd::prelude::*;
use crate::text::{lemma_text_lt_irreflexive, lemma_text_lt_total, lemma_text_lt_transitive, text_lt};

verus! {

/// The map that results from inserting `pairs` into `m` one after another,
/// so that of two pairs with one key the later one wins.
pub open spec fn insert_all<V>(m: Map<Seq<char>, V>, pairs: Seq<(Seq<char>, V)>) -> Map<Seq<char>, V>
    decreases pairs.len(),
{
    if pairs.len() == 0 {
        m
    } else {
        insert_all(m, pairs.drop_last()).insert(pairs.last().0, pairs.last().1)
    }
}

/// The map that a list of pairs stands for; of two pairs with one key the
/// later one wins.
pub open spec fn entries_map<V>(pairs: Seq<(Seq<char>, V)>) -> Map<Seq<char>, V> {
    insert_all(Map::empty(), pairs)
}

/// Keys strictly ascending, hence each at most once.
pub open spec fn keys_sorted<V>(pairs: Seq<(Seq<char>, V)>) -> bool {
    forall|i: int, j: int| 0 <= i < j < pairs.len() ==> text_lt(#[trigger] pairs[i].0, #[trigger] pairs[j].0)
}

/// Inserting two lists one after the other is inserting their concatenation.
pub proof fn lemma_insert_all_concat<V>(m: Map<Seq<char>, V>, a: Seq<(Seq<char>, V)>, b: Seq<(Seq<char>, V)>)
    ensures
        insert_all(m, a + b) == insert_all(insert_all(m, a), b),
    decreases b.len(),
{
    if b.len() == 0 {
        assert(a + b =~= a);
    } else {
        assert((a + b).drop_last() =~= a + b.drop_last());
        lemma_insert_all_concat(m, a, b.drop_last());
    }
}

/// In a sorted list each key is looked up to its own value, and the map
/// holds no other key.
pub proof fn lemma_sorted_lookup<V>(pairs: Seq<(Seq<char>, V)>)
    requires
        keys_sorted(pairs),
    ensures
        forall|i: int| 0 <= i < pairs.len() ==> #[trigger] entries_map(pairs).contains_key(pairs[i].0)
            && entries_map(pairs)[pairs[i].0] == pairs[i].1,
        forall|k: Seq<char>| #[trigger] entries_map(pairs).contains_key(k) ==> exists|i: int|
            0 <= i < pairs.len() && pairs[i].0 == k,
    decreases pairs.len(),
{
    if pairs.len() > 0 {
        let front = pairs.drop_last();
        assert(keys_sorted(front)) by {
            assert forall|i: int, j: int| 0 <= i < j < front.len() implies text_lt(#[trigger] front[i].0, #[trigger] front[j].0) by {
                assert(front[i] == pairs[i] && front[j] == pairs[j]);
            }
        }
        lemma_sorted_lookup(front);
        let n = pairs.len() - 1;
        assert(entries_map(pairs) == entries_map(front).insert(pairs[n].0, pairs[n].1));
        assert forall|i: int| 0 <= i < pairs.len() implies #[trigger] entries_map(pairs).contains_key(pairs[i].0)
            && entries_map(pairs)[pairs[i].0] == pairs[i].1 by {
            if i < n {
                assert(front[i] == pairs[i]);
                assert(text_lt(pairs[i].0, pairs[n].0));
                lemma_text_lt_irreflexive(pairs[i].0);
                assert(pairs[i].0 != pairs[n].0);
                assert(entries_map(front).contains_key(front[i].0));
            }
        }
        assert forall|k: Seq<char>| #[trigger] entries_map(pairs).contains_key(k) implies exists|i: int|
            0 <= i < pairs.len() && pairs[i].0 == k by {
            if k != pairs[n].0 {
                assert(entries_map(front).contains_key(k));
                let i = choose|i: int| 0 <= i < front.len() && front[i].0 == k;
                assert(pairs[i].0 == k);
            }
        }
    }
}

/// The map of a sorted list is determined by its lookups.
pub proof fn lemma_sorted_map_eq<V>(pairs: Seq<(Seq<char>, V)>, m: Map<Seq<char>, V>)
    requires
        keys_sorted(pairs),
        forall|i: int| 0 <= i < pairs.len() ==> #[trigger] m.contains_key(pairs[i].0) && m[pairs[i].0] == pairs[i].1,
        forall|k: Seq<char>| #[trigger] m.contains_key(k) ==> exists|i: int| 0 <= i < pairs.len() && pairs[i].0 == k,
    ensures
        entries_map(pairs) == m,
{
    lemma_sorted_lookup(pairs);
    assert forall|k: Seq<char>| #[trigger] entries_map(pairs).contains_key(k) == m.contains_key(k) by {
        if m.contains_key(k) {
            let i = choose|i: int| 0 <= i < pairs.len() && pairs[i].0 == k;
            assert(entries_map(pairs).contains_key(pairs[i].0));
        }
        if entries_map(pairs).contains_key(k) {
            let i = choose|i: int| 0 <= i < pairs.len() && pairs[i].0 == k;
            assert(m.contains_key(pairs[i].0));
        }
    }
    assert forall|k: Seq<char>| #[trigger] entries_map(pairs).contains_key(k) implies entries_map(pairs)[k] == m[k] by {
        let i = choose|i: int| 0 <= i < pairs.len() && pairs[i].0 == k;
        assert(entries_map(pairs).contains_key(pairs[i].0));
        assert(m.contains_key(pairs[i].0));
    }
    assert(entries_map(pairs) =~= m);
}

/// Putting a new key at the place where it sorts keeps the list sorted and
/// adds the key to its map.
pub proof fn lemma_sorted_insert<V>(pairs: Seq<(Seq<char>, V)>, p: int, k: Seq<char>, v: V)
    requires
        keys_sorted(pairs),
        0 <= p <= pairs.len(),
        forall|i: int| 0 <= i < p ==> text_lt(#[trigger] pairs[i].0, k),
        forall|i: int| p <= i < pairs.len() ==> text_lt(k, #[trigger] pairs[i].0),
    ensures
        keys_sorted(pairs.insert(p, (k, v))),
        entries_map(pairs.insert(p, (k, v))) == entries_map(pairs).insert(k, v),
{
    let s = pairs.insert(p, (k, v));
    assert forall|i: int, j: int| 0 <= i < j < s.len() implies text_lt(#[trigger] s[i].0, #[trigger] s[j].0) by {
        if j < p {
            assert(s[i] == pairs[i] && s[j] == pairs[j]);
        } else if j == p {
            assert(s[i] == pairs[i]);
        } else if i == p {
            assert(s[j] == pairs[j - 1]);
        } else if i < p {
            assert(s[i] == pairs[i] && s[j] == pairs[j - 1]);
        } else {
            assert(s[i] == pairs[i - 1] && s[j] == pairs[j - 1]);
        }
    }
    lemma_sorted_lookup(pairs);
    let m = entries_map(pairs).insert(k, v);
    assert forall|i: int| 0 <= i < s.len() implies #[trigger] m.contains_key(s[i].0) && m[s[i].0] == s[i].1 by {
        if i < p {
            assert(s[i] == pairs[i]);
            lemma_text_lt_irreflexive(k);
        } else if i > p {
            assert(s[i] == pairs[i - 1]);
            lemma_text_lt_irreflexive(k);
        }
    }
    assert forall|key: Seq<char>| #[trigger] m.contains_key(key) implies exists|i: int| 0 <= i < s.len() && s[i].0 == key by {
        if key == k {
            assert(s[p].0 == k);
        } else {
            let i = choose|i: int| 0 <= i < pairs.len() && pairs[i].0 == key;
            if i < p {
                assert(s[i] == pairs[i]);
            } else {
                assert(s[i + 1] == pairs[i]);
            }
        }
    }
    lemma_sorted_map_eq(s, m);
}

/// Giving an existing key a new value keeps the list sorted and changes that
/// key's value in its map.
pub proof fn lemma_sorted_update<V>(pairs: Seq<(Seq<char>, V)>, p: int, v: V)
    requires
        keys_sorted(pairs),
        0 <= p < pairs.len(),
    ensures
        keys_sorted(pairs.update(p, (pairs[p].0, v))),
        entries_map(pairs.update(p, (pairs[p].0, v))) == entries_map(pairs).insert(pairs[p].0, v),
{
    let k = pairs[p].0;
    let s = pairs.update(p, (k, v));
    assert forall|i: int, j: int| 0 <= i < j < s.len() implies text_lt(#[trigger] s[i].0, #[trigger] s[j].0) by {
        assert(s[i].0 == pairs[i].0 && s[j].0 == pairs[j].0);
    }
    lemma_sorted_lookup(pairs);
    let m = entries_map(pairs).insert(k, v);
    assert forall|i: int| 0 <= i < s.len() implies #[trigger] m.contains_key(s[i].0) && m[s[i].0] == s[i].1 by {
        if i != p {
            assert(s[i] == pairs[i]);
            if i < p {
                assert(text_lt(pairs[i].0, k));
            } else {
                assert(text_lt(k, pairs[i].0));
            }
            lemma_text_lt_irreflexive(k);
        }
    }
    assert forall|key: Seq<char>| #[trigger] m.contains_key(key) implies exists|i: int| 0 <= i < s.len() && s[i].0 == key by {
        if key == k {
            assert(s[p].0 == k);
        } else {
            let i = choose|i: int| 0 <= i < pairs.len() && pairs[i].0 == key;
            assert(s[i].0 == pairs[i].0);
        }
    }
    lemma_sorted_map_eq(s, m);
}

/// Where the first key that does not sort before `k` stands at `p`, every
/// key from `p` on either is `k` (only at `p`) or sorts after it.
pub proof fn lemma_sorted_slot<V>(pairs: Seq<(Seq<char>, V)>, p: int, k: Seq<char>)
    requires
        keys_sorted(pairs),
        0 <= p < pairs.len(),
        !text_lt(pairs[p].0, k),
        pairs[p].0 != k,
    ensures
        forall|i: int| p <= i < pairs.len() ==> text_lt(k, #[trigger] pairs[i].0),
{
    lemma_text_lt_total(pairs[p].0, k);
    assert forall|i: int| p <= i < pairs.len() implies text_lt(k, #[trigger] pairs[i].0) by {
        if i > p {
            lemma_text_lt_transitive(k, pairs[p].0, pairs[i].0);
        }
    }
}

} // verus!
