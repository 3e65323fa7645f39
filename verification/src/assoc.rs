//! Association lists keyed by text: a sequence of (key, value) entries read as
//! a map in which a later entry for a key replaces an earlier one.

use vstd::prelude::*;

verus! {

/// The map built by inserting the entries in order: a later entry for a key
/// replaces an earlier one.
pub open spec fn map_of<V>(entries: Seq<(Seq<char>, V)>) -> Map<Seq<char>, V>
    decreases entries.len(),
{
    if entries.len() == 0 {
        Map::empty()
    } else {
        map_of(entries.drop_last()).insert(entries.last().0, entries.last().1)
    }
}

/// With distinct keys, each entry's key maps to that entry's value.
pub proof fn lemma_map_of_unique_lookup<V>(es: Seq<(Seq<char>, V)>, i: int)
    requires
        0 <= i < es.len(),
        forall|a: int, b: int| 0 <= a < b < es.len() ==> es[a].0 != es[b].0,
    ensures
        map_of(es).contains_key(es[i].0),
        map_of(es)[es[i].0] == es[i].1,
    decreases es.len(),
{
    if i < es.len() - 1 {
        lemma_map_of_unique_lookup(es.drop_last(), i);
    }
}

/// A key is in the map exactly when some entry has it.
pub proof fn lemma_map_of_dom<V>(es: Seq<(Seq<char>, V)>, k: Seq<char>)
    ensures
        map_of(es).contains_key(k) <==> exists|i: int| 0 <= i < es.len() && es[i].0 == k,
    decreases es.len(),
{
    if es.len() > 0 {
        lemma_map_of_dom(es.drop_last(), k);
        if map_of(es).contains_key(k) && es.last().0 != k {
            let i = choose|i: int| 0 <= i < es.len() - 1 && es.drop_last()[i].0 == k;
            assert(es[i].0 == k);
        }
        if exists|i: int| 0 <= i < es.len() && es[i].0 == k {
            let i = choose|i: int| 0 <= i < es.len() && es[i].0 == k;
            if i < es.len() - 1 {
                assert(es.drop_last()[i].0 == k);
            }
        }
    }
}

/// With distinct keys, the map has one key per entry.
pub proof fn lemma_map_of_len<V>(es: Seq<(Seq<char>, V)>)
    requires
        forall|a: int, b: int| 0 <= a < b < es.len() ==> es[a].0 != es[b].0,
    ensures
        map_of(es).dom().finite(),
        map_of(es).dom().len() == es.len(),
    decreases es.len(),
{
    if es.len() > 0 {
        let p = es.drop_last();
        lemma_map_of_len(p);
        lemma_map_of_dom(p, es.last().0);
        assert(!map_of(p).contains_key(es.last().0));
        assert(map_of(es).dom() =~= map_of(p).dom().insert(es.last().0));
    } else {
        assert(map_of(es).dom() =~= Set::<Seq<char>>::empty());
    }
}

/// With distinct keys, giving entry `i` a new value updates the map at its key.
pub proof fn lemma_map_of_update<V>(es: Seq<(Seq<char>, V)>, i: int, value: V)
    requires
        0 <= i < es.len(),
        forall|a: int, b: int| 0 <= a < b < es.len() ==> es[a].0 != es[b].0,
    ensures
        map_of(es.update(i, (es[i].0, value))) == map_of(es).insert(es[i].0, value),
    decreases es.len(),
{
    let u = es.update(i, (es[i].0, value));
    if i == es.len() - 1 {
        assert(u.drop_last() =~= es.drop_last());
    } else {
        let p = es.drop_last();
        lemma_map_of_update(p, i, value);
        assert(u.drop_last() =~= p.update(i, (es[i].0, value)));
        assert(es.last().0 != es[i].0);
    }
    assert(map_of(u) =~= map_of(es).insert(es[i].0, value));
}

} // verus!
