//! The collision observer: which fruits a physics step marks as merge
//! candidates. It only marks; merging is left to the resolver.

use vstd::prelude::*;
use crate::rank::FruitType;

verus! {

/// Two bodies that touch in the current physics step, by their handles. The
/// order of the two carries no meaning.
#[derive(Clone, Copy, Debug, PartialEq, Eq, Structural)]
pub struct CollisionPair {
    pub body1: u64,
    pub body2: u64,
}

/// A live fruit: the handle that the engine gave it, and its rank.
#[derive(Clone, Copy, Debug, PartialEq, Eq, Structural)]
pub struct Fruit {
    pub entity: u64,
    pub fruit_type: FruitType,
}

impl CollisionPair {
    /// Whether `entity` is one of the two bodies.
    pub open spec fn touches(self, entity: u64) -> bool {
        self.body1 == entity || self.body2 == entity
    }

    /// The body that `entity` touches in this contact.
    pub open spec fn other(self, entity: u64) -> u64 {
        if self.body1 == entity {
            self.body2
        } else {
            self.body1
        }
    }

    /// Whether `entity` is one of the two bodies.
    pub fn involves(&self, entity: u64) -> (found: bool)
        ensures
            found == self.touches(entity),
    {
        self.body1 == entity || self.body2 == entity
    }

    /// The body that `entity` touches in this contact.
    pub fn partner_of(&self, entity: u64) -> (partner: u64)
        ensures
            partner == self.other(entity),
    {
        if self.body1 == entity {
            self.body2
        } else {
            self.body1
        }
    }
}

/// The contact between two bodies as the engine reports them. A collider
/// that belongs to no body has no handle; a contact with one can lead to no
/// merge, so there is no pair for it and it is passed over.
pub fn contact_between(body1: Option<u64>, body2: Option<u64>) -> (pair: Option<CollisionPair>)
    ensures
        pair == (if body1.is_some() && body2.is_some() {
            Some(CollisionPair { body1: body1.unwrap(), body2: body2.unwrap() })
        } else {
            None
        }),
{
    match (body1, body2) {
        (Some(body1), Some(body2)) => Some(CollisionPair { body1, body2 }),
        _ => None,
    }
}

/// Whether the record at `index` is the first one in `fruits` for `entity`.
pub open spec fn is_first_record(fruits: Seq<Fruit>, index: int, entity: u64) -> bool {
    &&& 0 <= index < fruits.len()
    &&& fruits[index].entity == entity
    &&& forall|j: int| 0 <= j < index ==> fruits[j].entity != entity
}

/// The rank of the body `entity`, or `None` where it is no fruit (a wall, the
/// floor, a body that is gone). Handles are unique in a world; should one
/// occur twice in `fruits`, its first record counts.
pub open spec fn fruit_type_of(fruits: Seq<Fruit>, entity: u64) -> Option<FruitType> {
    if exists|i: int| is_first_record(fruits, i, entity) {
        Some(fruits[choose|i: int| is_first_record(fruits, i, entity)].fruit_type)
    } else {
        None
    }
}

/// Whether a contact joins two fruits of one and the same rank.
pub open spec fn joins_same_rank(fruits: Seq<Fruit>, pair: CollisionPair) -> bool {
    &&& fruit_type_of(fruits, pair.body1).is_some()
    &&& fruit_type_of(fruits, pair.body1) == fruit_type_of(fruits, pair.body2)
}

/// Whether `entity` takes part in a contact that joins two fruits of one rank.
pub open spec fn is_merge_candidate(
    fruits: Seq<Fruit>,
    collisions: Seq<CollisionPair>,
    entity: u64,
) -> bool {
    exists|k: int|
        0 <= k < collisions.len() && (#[trigger] collisions[k]).touches(entity) && joins_same_rank(
            fruits,
            collisions[k],
        )
}

/// The handles that a physics step marks: those of the fruits that touch a
/// fruit of their own rank, in the order of `fruits`.
pub open spec fn merge_candidates(fruits: Seq<Fruit>, collisions: Seq<CollisionPair>) -> Seq<u64> {
    fruits.filter(|fruit: Fruit| is_merge_candidate(fruits, collisions, fruit.entity)).map_values(
        |fruit: Fruit| fruit.entity,
    )
}

/// Looks up the rank of a body.
pub fn find_fruit_type(fruits: &Vec<Fruit>, entity: u64) -> (found: Option<FruitType>)
    ensures
        found == fruit_type_of(fruits@, entity),
{
    let mut i: usize = 0;
    while i < fruits.len()
        invariant
            i <= fruits.len(),
            forall|j: int| 0 <= j < i ==> fruits@[j].entity != entity,
        decreases fruits.len() - i,
    {
        if fruits[i].entity == entity {
            assert(is_first_record(fruits@, i as int, entity));
            return Some(fruits[i].fruit_type);
        }
        i += 1;
    }
    None
}

/// Whether a contact joins two fruits of one rank. A contact with a wall or
/// the floor never does.
pub fn is_same_rank_contact(fruits: &Vec<Fruit>, pair: &CollisionPair) -> (same: bool)
    ensures
        same == joins_same_rank(fruits@, *pair),
{
    match (find_fruit_type(fruits, pair.body1), find_fruit_type(fruits, pair.body2)) {
        (Some(fruit_type_1), Some(fruit_type_2)) => fruit_type_1 == fruit_type_2,
        _ => false,
    }
}

/// Whether the body `entity` touches a fruit of its own rank in this step.
pub fn touches_same_rank(fruits: &Vec<Fruit>, collisions: &Vec<CollisionPair>, entity: u64) -> (found:
    bool)
    ensures
        found == is_merge_candidate(fruits@, collisions@, entity),
{
    let mut k: usize = 0;
    while k < collisions.len()
        invariant
            k <= collisions.len(),
            forall|j: int|
                0 <= j < k ==> !((#[trigger] collisions@[j]).touches(entity) && joins_same_rank(
                    fruits@,
                    collisions@[j],
                )),
        decreases collisions.len() - k,
    {
        if collisions[k].involves(entity) && is_same_rank_contact(fruits, &collisions[k]) {
            return true;
        }
        k += 1;
    }
    false
}

/// One physics step of the observer. For every live fruit it goes through the
/// contacts that touch the fruit; a contact whose two bodies are fruits of the
/// same rank marks the fruit. Returns the handles to mark, one for each marked
/// record of `fruits` and in that order. Nothing is spawned or despawned.
pub fn observe_fruit_collisions(fruits: &Vec<Fruit>, collisions: &Vec<CollisionPair>) -> (marked:
    Vec<u64>)
    ensures
        marked@ == merge_candidates(fruits@, collisions@),
        forall|entity: u64|
            marked@.contains(entity) <==> is_merge_candidate(fruits@, collisions@, entity),
{
    let ghost keep = |fruit: Fruit| is_merge_candidate(fruits@, collisions@, fruit.entity);
    let ghost handle = |fruit: Fruit| fruit.entity;
    let mut marked: Vec<u64> = Vec::new();
    let mut i: usize = 0;
    while i < fruits.len()
        invariant
            i <= fruits.len(),
            keep == |fruit: Fruit| is_merge_candidate(fruits@, collisions@, fruit.entity),
            handle == |fruit: Fruit| fruit.entity,
            marked@ == fruits@.take(i as int).filter(keep).map_values(handle),
        decreases fruits.len() - i,
    {
        let entity: u64 = fruits[i].entity;
        proof {
            assert(fruits@.take(i + 1) == fruits@.take(i as int).push(fruits@[i as int]));
            Seq::lemma_filter_push(fruits@.take(i as int), fruits@[i as int], keep);
        }
        if touches_same_rank(fruits, collisions, entity) {
            marked.push(entity);
            assert(marked@ == fruits@.take(i + 1).filter(keep).map_values(handle));
        }
        i += 1;
    }
    proof {
        assert(fruits@.take(i as int) == fruits@);
        lemma_candidates_are_marked(fruits@, collisions@);
    }
    marked
}

/// The marked handles are exactly the bodies that touch a fruit of their own
/// rank: a body that does is a fruit, so it has a record and its handle is
/// kept; and a handle is kept only for such a record.
pub proof fn lemma_candidates_are_marked(fruits: Seq<Fruit>, collisions: Seq<CollisionPair>)
    ensures
        forall|entity: u64|
            merge_candidates(fruits, collisions).contains(entity) <==> is_merge_candidate(
                fruits,
                collisions,
                entity,
            ),
{
    let keep = |fruit: Fruit| is_merge_candidate(fruits, collisions, fruit.entity);
    let handle = |fruit: Fruit| fruit.entity;
    let kept = fruits.filter(keep);
    broadcast use vstd::seq_lib::group_filter_ensures;

    assert forall|entity: u64| merge_candidates(fruits, collisions).contains(entity) implies
        is_merge_candidate(fruits, collisions, entity) by {
        let at = choose|i: int| 0 <= i < kept.len() && kept.map_values(handle)[i] == entity;
        assert(keep(kept[at]));
    }
    assert forall|entity: u64| is_merge_candidate(fruits, collisions, entity) implies
        merge_candidates(fruits, collisions).contains(entity) by {
        let k = choose|k: int|
            0 <= k < collisions.len() && (#[trigger] collisions[k]).touches(entity)
                && joins_same_rank(fruits, collisions[k]);
        assert(fruit_type_of(fruits, entity).is_some());
        let i = choose|i: int| is_first_record(fruits, i, entity);
        assert(keep(fruits[i]));
        assert(kept.contains(fruits[i]));
        let at = choose|at: int| 0 <= at < kept.len() && kept[at] == fruits[i];
        assert(kept.map_values(handle)[at] == entity);
    }
}

} // verus!
