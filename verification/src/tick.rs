//! What holds of a whole tick: the observer marks, then the resolver merges.

use vstd::prelude::*;
use crate::observer::{
    is_merge_candidate, joins_same_rank, lemma_candidates_are_marked, merge_candidates,
    CollisionPair, Fruit,
};
use crate::resolver::{despawned, is_marked, resolve, WillMergeFruit};
use crate::resolver_laws::{lemma_at_most_one_merge_per_fruit, lemma_merges_join_touching_marked};

verus! {

/// A contact that does not join two fruits of one rank marks nothing: with it
/// or without it, the observer marks the same fruits. This holds of a contact
/// between fruits of different ranks, and of one with a wall or the floor.
pub proof fn lemma_cross_rank_contact_marks_nothing(
    fruits: Seq<Fruit>,
    collisions: Seq<CollisionPair>,
    pair: CollisionPair,
)
    requires
        !joins_same_rank(fruits, pair),
    ensures
        merge_candidates(fruits, collisions.push(pair)) == merge_candidates(fruits, collisions),
{
    let with = |fruit: Fruit| is_merge_candidate(fruits, collisions.push(pair), fruit.entity);
    let without = |fruit: Fruit| is_merge_candidate(fruits, collisions, fruit.entity);
    assert forall|fruit: Fruit| #[trigger] with(fruit) == without(fruit) by {
        let longer = collisions.push(pair);
        if with(fruit) {
            let k = choose|k: int|
                0 <= k < longer.len() && (#[trigger] longer[k]).touches(fruit.entity)
                    && joins_same_rank(fruits, longer[k]);
            assert(longer[k] == collisions[k]);
        }
        if without(fruit) {
            let k = choose|k: int|
                0 <= k < collisions.len() && (#[trigger] collisions[k]).touches(fruit.entity)
                    && joins_same_rank(fruits, collisions[k]);
            assert(longer[k] == collisions[k]);
        }
    }
    assert(with =~= without);
}

/// Where no contact of the step joins two fruits of one rank, the observer
/// marks nothing, and a resolver whose marked fruits all come from that
/// observer merges nothing.
pub proof fn lemma_no_same_rank_contact_no_merge<P>(
    fruits: Seq<Fruit>,
    observed: Seq<CollisionPair>,
    marked: Seq<WillMergeFruit<P>>,
    collisions: Seq<CollisionPair>,
)
    requires
        forall|k: int| 0 <= k < observed.len() ==> !joins_same_rank(fruits, observed[k]),
        forall|j: int|
            0 <= j < marked.len() ==> merge_candidates(fruits, observed).contains(
                (#[trigger] marked[j]).entity,
            ),
    ensures
        merge_candidates(fruits, observed).len() == 0,
        resolve(marked, collisions).len() == 0,
{
    lemma_candidates_are_marked(fruits, observed);
    let marks = merge_candidates(fruits, observed);
    if marks.len() > 0 {
        assert(marks.contains(marks[0]));
    }
    if marked.len() > 0 {
        assert(marks.contains(marked[0].entity));
    }
    lemma_at_most_one_merge_per_fruit(marked, collisions);
}

/// A fruit that touched no fruit of its own rank is not despawned. Let the
/// fruits that bear the mark all have been marked by the observer, on the
/// contacts `observed`. Then whatever the contacts are when the resolver runs,
/// it despawns no body but one that took part in a contact of `observed`
/// between two fruits of one rank.
pub proof fn lemma_untouched_fruit_survives<P>(
    fruits: Seq<Fruit>,
    observed: Seq<CollisionPair>,
    marked: Seq<WillMergeFruit<P>>,
    collisions: Seq<CollisionPair>,
)
    requires
        forall|j: int|
            0 <= j < marked.len() ==> merge_candidates(fruits, observed).contains(
                (#[trigger] marked[j]).entity,
            ),
    ensures
        forall|entity: u64|
            !is_merge_candidate(fruits, observed, entity) ==> !despawned(
                resolve(marked, collisions),
            ).contains(entity),
{
    lemma_candidates_are_marked(fruits, observed);
    lemma_merges_join_touching_marked(marked, collisions);
    assert forall|entity: u64| despawned(resolve(marked, collisions)).contains(
        entity,
    ) implies is_merge_candidate(fruits, observed, entity) by {
        assert(is_marked(marked, entity));
        let j = choose|j: int| 0 <= j < marked.len() && (#[trigger] marked[j]).entity == entity;
        assert(merge_candidates(fruits, observed).contains(marked[j].entity));
    }
}

} // verus!
