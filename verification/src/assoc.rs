//! Association lists keyed by text: a list of `(key, value)` pairs read as a
//! map in which the first pair of a key counts.

use vstd::prelude::*;

verus! {

/// The map an association list stands for; the first pair of a key counts.
pub open spec fn assoc_map<V>(es: Seq<(Seq<char>, V)>) -> Map<Seq<char>, V>
    decreases es.len(),
{
    if es.len() == 0 {
        Map::empty()
    } else {
        assoc_map(es.drop_first()).insert(es[0].0, es[0].1)
    }
}

/// The index of the first pair of `k`, or `es.len()`.
pub open spec fn assoc_index<V>(es: Seq<(Seq<char>, V)>, k: Seq<char>) -> int
    decreases es.len(),
{
    if es.len() == 0 {
        0
    } else if es[0].0 == k {
        0
    } else {
        1 + assoc_index(es.drop_first(), k)
    }
}

pub proof fn lemma_assoc_index<V>(es: Seq<(Seq<char>, V)>, k: Seq<char>)
    ensures
        0 <= assoc_index(es, k) <= es.len(),
        assoc_index(es, k) < es.len() ==> es[assoc_index(es, k)].0 == k,
        forall|j: int| 0 <= j < assoc_index(es, k) ==> #[trigger] es[j].0 != k,
        assoc_map(es).contains_key(k) == (assoc_index(es, k) < es.len()),
        assoc_index(es, k) < es.len() ==> assoc_map(es)[k] == es[assoc_index(es, k)].1,
    decreases es.len(),
{
    if es.len() > 0 {
        lemma_assoc_index(es.drop_first(), k);
        if es[0].0 != k {
            assert forall|j: int| 0 <= j < assoc_index(es, k) implies #[trigger] es[j].0 != k by {
                if j > 0 {
                    assert(es[j] == es.drop_first()[j - 1]);
                }
            }
        }
    }
}

pub proof fn lemma_assoc_index_unique<V>(es: Seq<(Seq<char>, V)>, k: Seq<char>, i: int)
    requires
        0 <= i <= es.len(),
        i < es.len() ==> es[i].0 == k,
        forall|j: int| 0 <= j < i ==> #[trigger] es[j].0 != k,
    ensures
        assoc_index(es, k) == i,
    decreases es.len(),
{
    if es.len() > 0 && es[0].0 != k {
        let t = es.drop_first();
        assert forall|j: int| 0 <= j < i - 1 implies #[trigger] t[j].0 != k by {
            assert(t[j] == es[j + 1]);
        }
        lemma_assoc_index_unique(t, k, i - 1);
    }
}

/// Changing the value of the first pair of a key changes that key in the
/// map and nothing else.
pub proof fn lemma_assoc_update<V>(es: Seq<(Seq<char>, V)>, i: int, v: V)
    requires
        0 <= i < es.len(),
        forall|j: int| 0 <= j < i ==> #[trigger] es[j].0 != es[i].0,
    ensures
        assoc_map(es.update(i, (es[i].0, v))) == assoc_map(es).insert(es[i].0, v),
    decreases es.len(),
{
    let es2 = es.update(i, (es[i].0, v));
    if i == 0 {
        assert(es2.drop_first() =~= es.drop_first());
        assert(assoc_map(es2) =~= assoc_map(es).insert(es[i].0, v));
    } else {
        let t = es.drop_first();
        assert forall|j: int| 0 <= j < i - 1 implies #[trigger] t[j].0 != t[i - 1].0 by {
            assert(t[j] == es[j + 1]);
        }
        lemma_assoc_update(t, i - 1, v);
        assert(es2.drop_first() =~= t.update(i - 1, (t[i - 1].0, v)));
        assert(es[0].0 != es[i].0);
        assert(assoc_map(es2) =~= assoc_map(es).insert(es[i].0, v));
    }
}

/// A pair for a key that has none adds that key to the map.
pub proof fn lemma_assoc_push<V>(es: Seq<(Seq<char>, V)>, e: (Seq<char>, V))
    requires
        !assoc_map(es).contains_key(e.0),
    ensures
        assoc_map(es.push(e)) == assoc_map(es).insert(e.0, e.1),
    decreases es.len(),
{
    let ep = es.push(e);
    if es.len() == 0 {
        assert(ep.drop_first() =~= Seq::<(Seq<char>, V)>::empty());
        assert(ep[0] == e);
        assert(assoc_map(ep) == assoc_map(ep.drop_first()).insert(ep[0].0, ep[0].1));
        assert(assoc_map(ep.drop_first()) == Map::<Seq<char>, V>::empty());
        assert(assoc_map(es) == Map::<Seq<char>, V>::empty());
        assert(assoc_map(ep) =~= assoc_map(es).insert(e.0, e.1));
    } else {
        let t = es.drop_first();
        assert(ep.drop_first() =~= t.push(e));
        assert(ep[0] == es[0]);
        assert(assoc_map(es) == assoc_map(t).insert(es[0].0, es[0].1));
        assert(es[0].0 != e.0);
        lemma_assoc_push(t, e);
        assert(assoc_map(ep) == assoc_map(ep.drop_first()).insert(ep[0].0, ep[0].1));
        assert(assoc_map(ep) == assoc_map(t).insert(e.0, e.1).insert(es[0].0, es[0].1));
        assert(assoc_map(ep) =~= assoc_map(es).insert(e.0, e.1));
    }
}

/// Holds of a pair whose key is not `k`.
pub open spec fn key_not<V>(k: Seq<char>) -> spec_fn((Seq<char>, V)) -> bool {
    |e: (Seq<char>, V)| e.0 != k
}

/// Dropping every pair of a key removes that key from the map.
pub proof fn lemma_assoc_filter<V>(es: Seq<(Seq<char>, V)>, k: Seq<char>)
    ensures
        assoc_map(es.filter(key_not::<V>(k))) == assoc_map(es).remove(k),
    decreases es.len(),
{
    let p = key_not::<V>(k);
    if es.len() == 0 {
        assert(es.filter(p) =~= es) by {
            reveal(Seq::filter);
        }
        assert(assoc_map(es).remove(k) =~= assoc_map(es));
    } else {
        let t = es.drop_first();
        lemma_assoc_filter(t, k);
        t.lemma_filter_prepend(es[0], p);
        assert(seq![es[0]] + t =~= es);
        if es[0].0 == k {
            assert(assoc_map(es.filter(p)) =~= assoc_map(es).remove(k));
        } else {
            assert((seq![es[0]] + t.filter(p)).drop_first() =~= t.filter(p));
            assert(assoc_map(es.filter(p)) =~= assoc_map(es).remove(k));
        }
    }
}

} // verus!
