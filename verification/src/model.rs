//! The store as a sequence of key-value pairs, and the map it stands for.
use vstd::prelude::*;

verus! {

/// A key-value pair of texts.
pub type Pair = (Seq<char>, Seq<char>);

/// The map made by inserting the pairs in order, later ones winning.
pub open spec fn pairs_map(ps: Seq<Pair>) -> Map<Seq<char>, Seq<char>>
    decreases ps.len(),
{
    if ps.len() == 0 {
        Map::empty()
    } else {
        pairs_map(ps.drop_last()).insert(ps.last().0, ps.last().1)
    }
}

/// No key occurs twice among the pairs.
pub open spec fn keys_distinct(ps: Seq<Pair>) -> bool {
    forall|i: int, j: int| 0 <= i < j < ps.len() ==> ps[i].0 != ps[j].0
}

/// The map of distinct pairs holds exactly their keys, each with its value.
pub proof fn lemma_pairs_map(ps: Seq<Pair>)
    requires
        keys_distinct(ps),
    ensures
        forall|k: Seq<char>|
            #[trigger] pairs_map(ps).contains_key(k) <==> exists|i: int|
                0 <= i < ps.len() && ps[i].0 == k,
        forall|i: int| 0 <= i < ps.len() ==> #[trigger] pairs_map(ps)[ps[i].0] == ps[i].1,
        pairs_map(ps).dom().finite(),
        pairs_map(ps).len() == ps.len(),
    decreases ps.len(),
{
    if ps.len() > 0 {
        let front = ps.drop_last();
        let last = ps.last();
        assert(keys_distinct(front)) by {
            assert forall|i: int, j: int| 0 <= i < j < front.len() implies front[i].0
                != front[j].0 by {
                assert(front[i] == ps[i] && front[j] == ps[j]);
            }
        }
        lemma_pairs_map(front);
        assert(!pairs_map(front).contains_key(last.0)) by {
            if pairs_map(front).contains_key(last.0) {
                let i = choose|i: int| 0 <= i < front.len() && front[i].0 == last.0;
                assert(ps[i].0 == ps[ps.len() - 1].0);
            }
        }
        assert forall|k: Seq<char>|
            #[trigger] pairs_map(ps).contains_key(k) <==> exists|i: int|
                0 <= i < ps.len() && ps[i].0 == k by {
            if pairs_map(ps).contains_key(k) {
                if k == last.0 {
                    assert(ps[ps.len() - 1].0 == k);
                } else {
                    let i = choose|i: int| 0 <= i < front.len() && front[i].0 == k;
                    assert(ps[i].0 == k);
                }
            }
            if exists|i: int| 0 <= i < ps.len() && ps[i].0 == k {
                let i = choose|i: int| 0 <= i < ps.len() && ps[i].0 == k;
                if i < ps.len() - 1 {
                    assert(front[i].0 == k);
                }
            }
        }
        assert forall|i: int| 0 <= i < ps.len() implies #[trigger] pairs_map(ps)[ps[i].0]
            == ps[i].1 by {
            if i < ps.len() - 1 {
                assert(front[i] == ps[i]);
                assert(ps[i].0 != last.0);
            }
        }
    }
}

/// Replacing the value of a present key is inserting it into the map.
pub proof fn lemma_pairs_map_update(ps: Seq<Pair>, i: int, v: Seq<char>)
    requires
        keys_distinct(ps),
        0 <= i < ps.len(),
    ensures
        keys_distinct(ps.update(i, (ps[i].0, v))),
        pairs_map(ps.update(i, (ps[i].0, v))) == pairs_map(ps).insert(ps[i].0, v),
{
    let k = ps[i].0;
    let qs = ps.update(i, (k, v));
    assert(keys_distinct(qs)) by {
        assert forall|a: int, b: int| 0 <= a < b < qs.len() implies qs[a].0 != qs[b].0 by {
            assert(qs[a].0 == ps[a].0 && qs[b].0 == ps[b].0);
        }
    }
    lemma_pairs_map(ps);
    lemma_pairs_map(qs);
    assert forall|x: Seq<char>| #[trigger]
        pairs_map(qs).contains_key(x) == pairs_map(ps).insert(k, v).contains_key(x) by {
        if pairs_map(qs).contains_key(x) {
            let j = choose|j: int| 0 <= j < qs.len() && qs[j].0 == x;
            assert(ps[j].0 == x);
        }
        if pairs_map(ps).contains_key(x) {
            let j = choose|j: int| 0 <= j < ps.len() && ps[j].0 == x;
            assert(qs[j].0 == x);
        }
        if x == k {
            assert(qs[i].0 == x);
        }
    }
    assert forall|x: Seq<char>| #[trigger] pairs_map(qs).contains_key(x) implies pairs_map(qs)[x]
        == pairs_map(ps).insert(k, v)[x] by {
        let j = choose|j: int| 0 <= j < qs.len() && qs[j].0 == x;
        assert(pairs_map(qs)[qs[j].0] == qs[j].1);
        if j != i {
            assert(qs[j] == ps[j]);
            assert(pairs_map(ps)[ps[j].0] == ps[j].1);
        }
    }
    assert(pairs_map(qs) =~= pairs_map(ps).insert(k, v));
}

/// Dropping the pair of a present key is removing it from the map.
pub proof fn lemma_pairs_map_remove(ps: Seq<Pair>, i: int)
    requires
        keys_distinct(ps),
        0 <= i < ps.len(),
    ensures
        keys_distinct(ps.remove(i)),
        pairs_map(ps.remove(i)) == pairs_map(ps).remove(ps[i].0),
{
    let k = ps[i].0;
    let qs = ps.remove(i);
    assert forall|a: int| 0 <= a < qs.len() implies #[trigger] qs[a] == (if a < i {
        ps[a]
    } else {
        ps[a + 1]
    }) by {}
    assert(keys_distinct(qs)) by {
        assert forall|a: int, b: int| 0 <= a < b < qs.len() implies qs[a].0 != qs[b].0 by {
            assert(qs[a] == (if a < i { ps[a] } else { ps[a + 1] }));
            assert(qs[b] == (if b < i { ps[b] } else { ps[b + 1] }));
        }
    }
    lemma_pairs_map(ps);
    lemma_pairs_map(qs);
    assert forall|x: Seq<char>| #[trigger]
        pairs_map(qs).contains_key(x) == pairs_map(ps).remove(k).contains_key(x) by {
        if pairs_map(qs).contains_key(x) {
            let j = choose|j: int| 0 <= j < qs.len() && qs[j].0 == x;
            assert(qs[j] == (if j < i { ps[j] } else { ps[j + 1] }));
            if j < i {
                assert(ps[j].0 == x);
            } else {
                assert(ps[j + 1].0 == x);
            }
        }
        if pairs_map(ps).contains_key(x) && x != k {
            let j = choose|j: int| 0 <= j < ps.len() && ps[j].0 == x;
            assert(j != i);
            if j < i {
                assert(qs[j] == ps[j]);
            } else {
                assert(qs[j - 1] == ps[j]);
            }
        }
    }
    assert forall|x: Seq<char>| #[trigger] pairs_map(qs).contains_key(x) implies pairs_map(qs)[x]
        == pairs_map(ps).remove(k)[x] by {
        let j = choose|j: int| 0 <= j < qs.len() && qs[j].0 == x;
        assert(pairs_map(qs)[qs[j].0] == qs[j].1);
        assert(qs[j] == (if j < i { ps[j] } else { ps[j + 1] }));
        if j < i {
            assert(pairs_map(ps)[ps[j].0] == ps[j].1);
        } else {
            assert(pairs_map(ps)[ps[j + 1].0] == ps[j + 1].1);
        }
    }
    assert(pairs_map(qs) =~= pairs_map(ps).remove(k));
}

/// Adding the pair of an absent key is inserting it into the map.
pub proof fn lemma_pairs_map_push(ps: Seq<Pair>, k: Seq<char>, v: Seq<char>)
    requires
        keys_distinct(ps),
        forall|i: int| 0 <= i < ps.len() ==> ps[i].0 != k,
    ensures
        keys_distinct(ps.push((k, v))),
        pairs_map(ps.push((k, v))) == pairs_map(ps).insert(k, v),
{
    let qs = ps.push((k, v));
    assert(qs.drop_last() =~= ps);
    assert(keys_distinct(qs)) by {
        assert forall|a: int, b: int| 0 <= a < b < qs.len() implies qs[a].0 != qs[b].0 by {
            assert(qs[a] == ps[a]);
        }
    }
}

} // verus!
