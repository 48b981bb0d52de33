//! The handle-keyed map an association list denotes, with the lemmas that
//! relate list operations to map operations.

use vstd::prelude::*;

use crate::asset::HandleId;

verus! {

/// The handle-to-artifact map an association list denotes; a later entry
/// under the same handle wins.
pub open spec fn map_of<V>(pairs: Seq<(HandleId, V)>) -> Map<HandleId, V>
    decreases pairs.len(),
{
    if pairs.len() == 0 {
        Map::empty()
    } else {
        map_of(pairs.drop_last()).insert(pairs.last().0, pairs.last().1)
    }
}

/// A handle is in the denoted map exactly when some entry carries it.
pub proof fn lemma_map_of_contains<V>(pairs: Seq<(HandleId, V)>)
    ensures
        forall|h: HandleId|
            #[trigger] map_of(pairs).contains_key(h) <==> exists|i: int|
                0 <= i < pairs.len() && pairs[i].0 == h,
    decreases pairs.len(),
{
    if pairs.len() > 0 {
        lemma_map_of_contains::<V>(pairs.drop_last());
        assert forall|h: HandleId| #[trigger] map_of(pairs).contains_key(h) <==> exists|i: int|
            0 <= i < pairs.len() && pairs[i].0 == h by {
            if map_of(pairs).contains_key(h) {
                if h == pairs.last().0 {
                    assert(pairs[pairs.len() - 1].0 == h);
                } else {
                    assert(map_of(pairs.drop_last()).contains_key(h));
                    let i = choose|i: int|
                        0 <= i < pairs.drop_last().len() && pairs.drop_last()[i].0 == h;
                    assert(pairs.drop_last()[i] == pairs[i]);
                    assert(pairs[i].0 == h);
                }
            }
            if exists|i: int| 0 <= i < pairs.len() && pairs[i].0 == h {
                let i = choose|i: int| 0 <= i < pairs.len() && pairs[i].0 == h;
                if i < pairs.len() - 1 {
                    assert(pairs.drop_last()[i] == pairs[i]);
                    assert(pairs.drop_last()[i].0 == h);
                    assert(map_of(pairs.drop_last()).contains_key(h));
                } else {
                    assert(pairs.last() == pairs[pairs.len() - 1]);
                }
            }
        }
    }
}

/// An entry with no later entry under the same handle gives the denoted
/// map's value at that handle.
pub proof fn lemma_map_of_at<V>(pairs: Seq<(HandleId, V)>, i: int)
    requires
        0 <= i < pairs.len(),
        forall|j: int| i < j < pairs.len() ==> pairs[j].0 != pairs[i].0,
    ensures
        map_of(pairs).contains_key(pairs[i].0),
        map_of(pairs)[pairs[i].0] == pairs[i].1,
    decreases pairs.len(),
{
    if i == pairs.len() - 1 {
    } else {
        assert(pairs.drop_last()[i] == pairs[i]);
        assert forall|j: int|
            i < j < pairs.drop_last().len() implies pairs.drop_last()[j].0
            != pairs.drop_last()[i].0 by {
            assert(pairs.drop_last()[j] == pairs[j]);
        }
        lemma_map_of_at(pairs.drop_last(), i);
        assert(pairs.last().0 != pairs[i].0);
    }
}

/// Removing the only entry under a handle removes the handle from the
/// denoted map.
pub proof fn lemma_map_of_remove<V>(pairs: Seq<(HandleId, V)>, i: int)
    requires
        0 <= i < pairs.len(),
        forall|a: int, b: int| 0 <= a < b < pairs.len() ==> pairs[a].0 != pairs[b].0,
    ensures
        map_of(pairs.remove(i)) == map_of(pairs).remove(pairs[i].0),
    decreases pairs.len(),
{
    lemma_map_of_contains::<V>(pairs.drop_last());
    if i == pairs.len() - 1 {
        assert(pairs.remove(i) =~= pairs.drop_last());
        assert(!map_of(pairs.drop_last()).contains_key(pairs[i].0));
        assert(map_of(pairs.drop_last()) =~= map_of(pairs.drop_last()).insert(
            pairs[i].0,
            pairs[i].1,
        ).remove(pairs[i].0));
    } else {
        assert(pairs.drop_last()[i] == pairs[i]);
        assert forall|a: int, b: int|
            0 <= a < b < pairs.drop_last().len() implies pairs.drop_last()[a].0
            != pairs.drop_last()[b].0 by {
            assert(pairs.drop_last()[a] == pairs[a]);
            assert(pairs.drop_last()[b] == pairs[b]);
        }
        lemma_map_of_remove(pairs.drop_last(), i);
        assert(pairs.remove(i).drop_last() =~= pairs.drop_last().remove(i));
        assert(pairs.remove(i).last() == pairs.last());
        assert(map_of(pairs.remove(i)) == map_of(pairs.drop_last().remove(i)).insert(
            pairs.last().0,
            pairs.last().1,
        ));
        assert(pairs.last().0 != pairs[i].0);
        assert(map_of(pairs.drop_last()).remove(pairs[i].0).insert(pairs.last().0, pairs.last().1)
            =~= map_of(pairs.drop_last()).insert(pairs.last().0, pairs.last().1).remove(
            pairs[i].0,
        ));
    }
}


} // verus!
