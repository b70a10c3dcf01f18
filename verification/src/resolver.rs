//! The merge resolver: which marked fruits merge in a tick, each at most once.

use std::collections::HashSet;
use vstd::prelude::*;
use crate::observer::CollisionPair;
use crate::rank::FruitType;
use crate::resolver_laws::{lemma_at_most_one_merge_per_fruit, lemma_merges_join_touching_marked};
use crate::spawner::{fruit_body, spawn_fruit, FruitBody};

verus! {

broadcast use vstd::std_specs::hash::group_hash_axioms;

/// A fruit that bears the merge mark in this tick: its handle, its rank and
/// where it is. `P` is the engine's type for a position.
#[derive(Clone, Debug, PartialEq, Eq)]
pub struct WillMergeFruit<P> {
    pub entity: u64,
    pub fruit_type: FruitType,
    pub position: P,
}

/// One merge: the two fruits to despawn and the fruit to spawn for them, if
/// any.
#[derive(Clone, Debug, PartialEq, Eq)]
pub struct Merge<P> {
    /// The fruit that found a partner.
    pub first: u64,
    /// The partner it found.
    pub second: u64,
    /// The fruit that takes their place; none where they had the terminal rank.
    pub spawned: Option<FruitBody<P>>,
}

impl<P> Merge<P> {
    /// Whether `entity` is one of the two fruits that the merge despawns.
    pub open spec fn despawns(self, entity: u64) -> bool {
        self.first == entity || self.second == entity
    }
}

/// Whether `entity` bears the mark.
pub open spec fn is_marked<P>(marked: Seq<WillMergeFruit<P>>, entity: u64) -> bool {
    exists|j: int| 0 <= j < marked.len() && (#[trigger] marked[j]).entity == entity
}

/// Whether the fruit `fruit` can merge through the contact `pair`: the contact
/// touches it, and the body on its other side is another fruit that bears the
/// mark and has not merged in this tick.
pub open spec fn can_merge_through<P>(
    marked: Seq<WillMergeFruit<P>>,
    processed: Set<u64>,
    fruit: u64,
    pair: CollisionPair,
) -> bool {
    &&& pair.touches(fruit)
    &&& pair.other(fruit) != fruit
    &&& !processed.contains(pair.other(fruit))
    &&& is_marked(marked, pair.other(fruit))
}

/// Whether the contact at `index` is the first one through which `fruit` can
/// merge.
pub open spec fn is_first_mergeable<P>(
    marked: Seq<WillMergeFruit<P>>,
    collisions: Seq<CollisionPair>,
    processed: Set<u64>,
    fruit: u64,
    index: int,
) -> bool {
    &&& 0 <= index < collisions.len()
    &&& can_merge_through(marked, processed, fruit, collisions[index])
    &&& forall|j: int|
        0 <= j < index ==> !can_merge_through(marked, processed, fruit, #[trigger] collisions[j])
}

/// The partner that `fruit` merges with: the body on the other side of the
/// first contact through which it can merge, if there is one.
pub open spec fn first_partner<P>(
    marked: Seq<WillMergeFruit<P>>,
    collisions: Seq<CollisionPair>,
    processed: Set<u64>,
    fruit: u64,
) -> Option<u64> {
    if exists|k: int| is_first_mergeable(marked, collisions, processed, fruit, k) {
        Some(
            collisions[choose|k: int|
                is_first_mergeable(marked, collisions, processed, fruit, k)].other(fruit),
        )
    } else {
        None
    }
}

/// The merge of `fruit` with `partner`: both are despawned, and one fruit of
/// the next rank is spawned where `fruit` was, unless `fruit` has the terminal
/// rank, in which case the two vanish with nothing in their place.
pub open spec fn merge_of<P>(fruit: WillMergeFruit<P>, partner: u64) -> Merge<P> {
    Merge {
        first: fruit.entity,
        second: partner,
        spawned: if fruit.fruit_type.is_terminal() {
            None
        } else {
            Some(fruit_body(fruit.fruit_type.successor(), fruit.position))
        },
    }
}

/// The merges of the marked fruits from position `start` on, where the fruits
/// in `processed` have merged already. The fruits are taken in the order of
/// `marked`. One that has merged, or that finds no partner, is passed over;
/// any other merges with its first partner, and both count as merged from
/// then on.
pub open spec fn resolve_from<P>(
    marked: Seq<WillMergeFruit<P>>,
    collisions: Seq<CollisionPair>,
    processed: Set<u64>,
    start: int,
) -> Seq<Merge<P>>
    decreases marked.len() - start,
{
    if start < 0 || start >= marked.len() {
        Seq::empty()
    } else {
        let fruit = marked[start];
        let partner = first_partner(marked, collisions, processed, fruit.entity);
        if processed.contains(fruit.entity) || partner.is_none() {
            resolve_from(marked, collisions, processed, start + 1)
        } else {
            seq![merge_of(fruit, partner.unwrap())] + resolve_from(
                marked,
                collisions,
                processed.insert(fruit.entity).insert(partner.unwrap()),
                start + 1,
            )
        }
    }
}

/// The merges of one tick, in the order in which they happen.
pub open spec fn resolve<P>(marked: Seq<WillMergeFruit<P>>, collisions: Seq<CollisionPair>) -> Seq<
    Merge<P>,
> {
    resolve_from(marked, collisions, Set::empty(), 0)
}

/// The handles that a run of merges despawns, in the order of the merges.
pub open spec fn despawned<P>(merges: Seq<Merge<P>>) -> Seq<u64>
    decreases merges.len(),
{
    if merges.len() == 0 {
        Seq::empty()
    } else {
        seq![merges[0].first, merges[0].second] + despawned(merges.drop_first())
    }
}

/// Whether `merge` joins the marked fruit at `index` with another marked
/// fruit, through the contact at `contact`.
pub open spec fn joins_marked_at<P>(
    marked: Seq<WillMergeFruit<P>>,
    collisions: Seq<CollisionPair>,
    merge: Merge<P>,
    index: int,
    contact: int,
) -> bool {
    &&& 0 <= index < marked.len()
    &&& 0 <= contact < collisions.len()
    &&& collisions[contact].touches(marked[index].entity)
    &&& collisions[contact].other(marked[index].entity) == merge.second
    &&& merge.second != merge.first
    &&& is_marked(marked, merge.second)
    &&& merge == merge_of(marked[index], merge.second)
}

/// Whether `merge` joins two marked fruits that touch.
pub open spec fn joins_marked<P>(
    marked: Seq<WillMergeFruit<P>>,
    collisions: Seq<CollisionPair>,
    merge: Merge<P>,
) -> bool {
    exists|index: int, contact: int| joins_marked_at(marked, collisions, merge, index, contact)
}

/// Whether `entity` bears the mark.
pub fn has_mark<P>(marked: &Vec<WillMergeFruit<P>>, entity: u64) -> (found: bool)
    ensures
        found == is_marked(marked@, entity),
{
    let mut j: usize = 0;
    while j < marked.len()
        invariant
            j <= marked.len(),
            forall|i: int| 0 <= i < j ==> (#[trigger] marked@[i]).entity != entity,
        decreases marked.len() - j,
    {
        if marked[j].entity == entity {
            return true;
        }
        j += 1;
    }
    false
}

/// Goes through the contacts that touch `fruit`, in their order, and returns
/// the first body on the other side that is another marked fruit and has not
/// merged yet. A handle that resolves to nothing of the kind is passed over.
pub fn find_partner<P>(
    marked: &Vec<WillMergeFruit<P>>,
    collisions: &Vec<CollisionPair>,
    processed: &HashSet<u64>,
    fruit: u64,
) -> (partner: Option<u64>)
    ensures
        partner == first_partner(marked@, collisions@, processed@, fruit),
{
    let mut k: usize = 0;
    while k < collisions.len()
        invariant
            k <= collisions.len(),
            forall|j: int|
                0 <= j < k ==> !can_merge_through(
                    marked@,
                    processed@,
                    fruit,
                    #[trigger] collisions@[j],
                ),
        decreases collisions.len() - k,
    {
        let pair = &collisions[k];
        if pair.involves(fruit) {
            let other: u64 = pair.partner_of(fruit);
            if other != fruit && !processed.contains(&other) && has_mark(marked, other) {
                assert(is_first_mergeable(marked@, collisions@, processed@, fruit, k as int));
                return Some(other);
            }
        }
        k += 1;
    }
    None
}

/// Merges `fruit` with `partner`.
pub fn merge_fruits<P: Copy>(fruit: &WillMergeFruit<P>, partner: u64) -> (merge: Merge<P>)
    ensures
        merge == merge_of(*fruit, partner),
{
    let spawned = match fruit.fruit_type {
        FruitType::Watermelon => None,
        _ => Some(spawn_fruit(fruit.fruit_type.next_fruit(), fruit.position)),
    };
    Merge { first: fruit.entity, second: partner, spawned }
}

/// One tick of the resolver, on the fruits that bear the mark and the
/// contacts of the moment. Returns the merges to carry out, in order: for
/// each, despawn `first` and `second` and spawn `spawned`. A marked fruit
/// that is in no merge stays as it is, mark included.
pub fn process_fruits_to_merge<P: Copy>(
    fruits_to_merge: &Vec<WillMergeFruit<P>>,
    collisions: &Vec<CollisionPair>,
) -> (merges: Vec<Merge<P>>)
    ensures
        merges@ == resolve(fruits_to_merge@, collisions@),
        despawned(merges@).no_duplicates(),
        despawned(merges@).len() == 2 * merges@.len(),
        despawned(merges@).len() <= fruits_to_merge@.len(),
        forall|k: int|
            0 <= k < merges@.len() ==> joins_marked(
                fruits_to_merge@,
                collisions@,
                #[trigger] merges@[k],
            ),
{
    let mut processed: HashSet<u64> = HashSet::new();
    let mut merges: Vec<Merge<P>> = Vec::new();
    let mut i: usize = 0;
    while i < fruits_to_merge.len()
        invariant
            i <= fruits_to_merge.len(),
            merges@ + resolve_from(fruits_to_merge@, collisions@, processed@, i as int) == resolve(
                fruits_to_merge@,
                collisions@,
            ),
        decreases fruits_to_merge.len() - i,
    {
        let fruit = &fruits_to_merge[i];
        if !processed.contains(&fruit.entity) {
            if let Some(partner) = find_partner(
                fruits_to_merge,
                collisions,
                &processed,
                fruit.entity,
            ) {
                let ghost rest = resolve_from(
                    fruits_to_merge@,
                    collisions@,
                    processed@.insert(fruit.entity).insert(partner),
                    i + 1,
                );
                assert(merges@ + (seq![merge_of(*fruit, partner)] + rest) == merges@.push(
                    merge_of(*fruit, partner),
                ) + rest);
                merges.push(merge_fruits(fruit, partner));
                processed.insert(fruit.entity);
                processed.insert(partner);
            }
        }
        i += 1;
    }
    proof {
        lemma_at_most_one_merge_per_fruit(fruits_to_merge@, collisions@);
        lemma_merges_join_touching_marked(fruits_to_merge@, collisions@);
    }
    merges
}

} // verus!
