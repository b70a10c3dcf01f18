//! What holds of every tick of the resolver, whatever the marked fruits and
//! their contacts.

use vstd::prelude::*;
use crate::observer::CollisionPair;
use crate::resolver::{
    can_merge_through, despawned, first_partner, is_first_mergeable, is_marked, joins_marked,
    joins_marked_at, merge_of, resolve, resolve_from, Merge, WillMergeFruit,
};
use crate::spawner::fruit_body;

verus! {

/// By how much a merge changes the number of live fruits: two go, and one
/// comes where the merge spawns.
pub open spec fn count_change<P>(merge: Merge<P>) -> int {
    if merge.spawned.is_some() {
        -1
    } else {
        -2
    }
}

/// By how much a run of merges changes the number of live fruits.
pub open spec fn total_count_change<P>(merges: Seq<Merge<P>>) -> int
    decreases merges.len(),
{
    if merges.len() == 0 {
        0
    } else {
        count_change(merges[0]) + total_count_change(merges.drop_first())
    }
}

/// Whether `entity` touches another fruit that bears the mark.
pub open spec fn touches_marked<P>(
    marked: Seq<WillMergeFruit<P>>,
    collisions: Seq<CollisionPair>,
    entity: u64,
) -> bool {
    exists|k: int|
        0 <= k < collisions.len() && (#[trigger] collisions[k]).touches(entity)
            && collisions[k].other(entity) != entity
            && is_marked(marked, collisions[k].other(entity))
}

/// Whether every other marked fruit that `entity` touches is in `taken`.
pub open spec fn partners_within<P>(
    marked: Seq<WillMergeFruit<P>>,
    collisions: Seq<CollisionPair>,
    entity: u64,
    taken: Set<u64>,
) -> bool {
    forall|k: int|
        0 <= k < collisions.len() && (#[trigger] collisions[k]).touches(entity)
            && collisions[k].other(entity) != entity
            && is_marked(marked, collisions[k].other(entity))
            ==> taken.contains(collisions[k].other(entity))
}

/// Whether the fruits that bear the mark and touch each other have one rank,
/// two by two.
pub open spec fn touching_marked_share_rank<P>(
    marked: Seq<WillMergeFruit<P>>,
    collisions: Seq<CollisionPair>,
) -> bool {
    forall|i: int, j: int, k: int|
        0 <= i < marked.len() && 0 <= j < marked.len() && 0 <= k < collisions.len()
            && (#[trigger] collisions[k]).touches((#[trigger] marked[i]).entity)
            && collisions[k].other(marked[i].entity) == (#[trigger] marked[j]).entity
            ==> marked[i].fruit_type == marked[j].fruit_type
}

/// Whether `merge` joins the marked fruits at `first` and `second`, and they
/// have one rank.
pub open spec fn joins_one_rank_at<P>(
    marked: Seq<WillMergeFruit<P>>,
    merge: Merge<P>,
    first: int,
    second: int,
) -> bool {
    &&& 0 <= first < marked.len()
    &&& 0 <= second < marked.len()
    &&& marked[first].entity == merge.first
    &&& marked[second].entity == merge.second
    &&& marked[first].fruit_type == marked[second].fruit_type
    &&& merge == merge_of(marked[first], marked[second].entity)
}

/// Whether `merge` joins two marked fruits of one rank.
pub open spec fn joins_one_rank<P>(marked: Seq<WillMergeFruit<P>>, merge: Merge<P>) -> bool {
    exists|first: int, second: int| joins_one_rank_at(marked, merge, first, second)
}

/// A run of merges despawns two handles for each merge, the first fruit and
/// then the second, and no other handle.
pub proof fn lemma_despawned_members<P>(merges: Seq<Merge<P>>)
    ensures
        despawned(merges).len() == 2 * merges.len(),
        forall|k: int|
            0 <= k < merges.len() ==> despawned(merges)[2 * k] == (#[trigger] merges[k]).first
                && despawned(merges)[2 * k + 1] == merges[k].second,
        forall|entity: u64|
            despawned(merges).contains(entity) <==> exists|k: int|
                0 <= k < merges.len() && (#[trigger] merges[k]).despawns(entity),
    decreases merges.len(),
{
    if merges.len() > 0 {
        let rest = merges.drop_first();
        let gone = despawned(merges);
        let later = despawned(rest);
        lemma_despawned_members(rest);
        assert forall|k: int| 0 <= k < merges.len() implies gone[2 * k] == (#[trigger] merges[k]).first
            && gone[2 * k + 1] == merges[k].second by {
            if k > 0 {
                assert(merges[k] == rest[k - 1]);
                assert(gone[2 * k] == later[2 * (k - 1)]);
                assert(gone[2 * k + 1] == later[2 * (k - 1) + 1]);
            }
        }
        assert forall|entity: u64| gone.contains(entity) implies exists|k: int|
            0 <= k < merges.len() && (#[trigger] merges[k]).despawns(entity) by {
            let at = choose|at: int| 0 <= at < gone.len() && gone[at] == entity;
            if at >= 2 {
                assert(later[at - 2] == entity);
                assert(later.contains(entity));
                let k = choose|k: int| 0 <= k < rest.len() && (#[trigger] rest[k]).despawns(entity);
                assert(merges[k + 1] == rest[k]);
            } else {
                assert(merges[0].despawns(entity));
            }
        }
        assert forall|entity: u64|
            (exists|k: int| 0 <= k < merges.len() && (#[trigger] merges[k]).despawns(entity))
            implies gone.contains(entity) by {
            let k = choose|k: int| 0 <= k < merges.len() && (#[trigger] merges[k]).despawns(entity);
            if merges[k].first == entity {
                assert(gone[2 * k] == entity);
            } else {
                assert(gone[2 * k + 1] == entity);
            }
        }
    }
}

/// What holds of the merges from any point of a tick on: no handle is
/// despawned twice, none that has merged before is despawned again, and every
/// merge joins two marked fruits that touch.
proof fn lemma_resolve_from_is_sound<P>(
    marked: Seq<WillMergeFruit<P>>,
    collisions: Seq<CollisionPair>,
    processed: Set<u64>,
    start: int,
)
    ensures
        despawned(resolve_from(marked, collisions, processed, start)).no_duplicates(),
        forall|entity: u64|
            despawned(resolve_from(marked, collisions, processed, start)).contains(entity)
                ==> !processed.contains(entity),
        forall|k: int|
            0 <= k < resolve_from(marked, collisions, processed, start).len() ==> joins_marked(
                marked,
                collisions,
                #[trigger] resolve_from(marked, collisions, processed, start)[k],
            ),
    decreases marked.len() - start,
{
    let merges = resolve_from(marked, collisions, processed, start);
    if 0 <= start < marked.len() {
        let fruit = marked[start];
        let partner = first_partner(marked, collisions, processed, fruit.entity);
        if processed.contains(fruit.entity) || partner.is_none() {
            lemma_resolve_from_is_sound(marked, collisions, processed, start + 1);
        } else {
            let second = partner.unwrap();
            let merged = processed.insert(fruit.entity).insert(second);
            let rest = resolve_from(marked, collisions, merged, start + 1);
            let gone = despawned(merges);
            let later = despawned(rest);
            let contact = choose|k: int|
                is_first_mergeable(marked, collisions, processed, fruit.entity, k);
            lemma_resolve_from_is_sound(marked, collisions, merged, start + 1);

            // The merge of this fruit comes first, the later ones after it.
            assert(merges[0] == merge_of(fruit, second));
            assert(merges.drop_first() == rest);
            assert(gone == seq![fruit.entity, second] + later);
            assert(gone[0] == fruit.entity && gone[1] == second);

            // The partner is another fruit, marked and not merged before.
            assert(is_first_mergeable(marked, collisions, processed, fruit.entity, contact));
            assert(second == collisions[contact].other(fruit.entity));
            assert(joins_marked_at(marked, collisions, merges[0], start, contact));

            // The later merges leave the two alone, and all that merged before.
            assert forall|i: int| 2 <= i < gone.len() implies gone[i] == later[i - 2]
                && !merged.contains(later[i - 2]) by {
                assert(later.contains(later[i - 2]));
            }
            assert forall|i: int, j: int|
                0 <= i < gone.len() && 0 <= j < gone.len() && i != j implies gone[i] != gone[j] by {
                if i >= 2 && j >= 2 {
                    assert(later[i - 2] != later[j - 2]);
                }
            }
            assert forall|entity: u64| gone.contains(entity) implies !processed.contains(entity) by {
                let at = choose|at: int| 0 <= at < gone.len() && gone[at] == entity;
                if at >= 2 {
                    assert(!merged.contains(later[at - 2]));
                }
            }
            assert forall|k: int| 0 <= k < merges.len() implies joins_marked(
                marked,
                collisions,
                #[trigger] merges[k],
            ) by {
                if k > 0 {
                    assert(merges[k] == rest[k - 1]);
                }
            }
        }
    }
}

/// Every merge of a tick joins a marked fruit with another marked fruit that
/// it touches, and is the merge of the first with the second. So a body that
/// is despawned bears the mark and touches another fruit that bears it.
pub proof fn lemma_merges_join_touching_marked<P>(
    marked: Seq<WillMergeFruit<P>>,
    collisions: Seq<CollisionPair>,
)
    ensures
        forall|k: int|
            0 <= k < resolve(marked, collisions).len() ==> joins_marked(
                marked,
                collisions,
                #[trigger] resolve(marked, collisions)[k],
            ),
        forall|entity: u64|
            despawned(resolve(marked, collisions)).contains(entity) ==> is_marked(marked, entity)
                && touches_marked(marked, collisions, entity),
{
    let merges = resolve(marked, collisions);
    lemma_resolve_from_is_sound(marked, collisions, Set::empty(), 0);
    lemma_despawned_members(merges);
    assert forall|entity: u64| despawned(merges).contains(entity) implies is_marked(marked, entity)
        && touches_marked(marked, collisions, entity) by {
        let k = choose|k: int| 0 <= k < merges.len() && (#[trigger] merges[k]).despawns(entity);
        assert(joins_marked(marked, collisions, merges[k]));
        let (index, contact) = choose|index: int, contact: int|
            joins_marked_at(marked, collisions, merges[k], index, contact);
        assert(collisions[contact].touches(entity));
        assert(is_marked(marked, merges[k].first));
    }
}

/// At most one merge for each fruit in a tick. Whatever the marked fruits and
/// their contacts, no handle is in more than one merge, the number of
/// despawned fruits is twice the number of merges, so even, and it is no more
/// than the number of marked fruits.
pub proof fn lemma_at_most_one_merge_per_fruit<P>(
    marked: Seq<WillMergeFruit<P>>,
    collisions: Seq<CollisionPair>,
)
    ensures
        despawned(resolve(marked, collisions)).no_duplicates(),
        despawned(resolve(marked, collisions)).len() == 2 * resolve(marked, collisions).len(),
        despawned(resolve(marked, collisions)).len() <= marked.len(),
{
    let merges = resolve(marked, collisions);
    let gone = despawned(merges);
    let handles = marked.map_values(|fruit: WillMergeFruit<P>| fruit.entity);
    lemma_resolve_from_is_sound(marked, collisions, Set::empty(), 0);
    lemma_despawned_members(merges);
    lemma_merges_join_touching_marked(marked, collisions);
    assert(gone.to_set().subset_of(handles.to_set())) by {
        assert forall|entity: u64| gone.to_set().contains(entity) implies handles.to_set().contains(
            entity,
        ) by {
            assert(gone.contains(entity));
            assert(is_marked(marked, entity));
            let j = choose|j: int| 0 <= j < marked.len() && (#[trigger] marked[j]).entity == entity;
            assert(handles[j] == entity);
        }
    }
    gone.unique_seq_to_set();
    handles.lemma_cardinality_of_set();
    vstd::seq_lib::seq_to_set_is_finite(handles);
    vstd::set_lib::lemma_len_subset(gone.to_set(), handles.to_set());
}

/// A merge conserves what it should. Two fruits below the terminal rank make
/// exactly one fruit, of the next rank and where the first of them was, so the
/// number of fruits goes down by one; two fruits of the terminal rank make
/// none, and the number goes down by two.
pub proof fn lemma_merge_conserves_count<P>(fruit: WillMergeFruit<P>, partner: u64)
    ensures
        merge_of(fruit, partner).first == fruit.entity,
        merge_of(fruit, partner).second == partner,
        !fruit.fruit_type.is_terminal() ==> merge_of(fruit, partner).spawned == Some(
            fruit_body(fruit.fruit_type.successor(), fruit.position),
        ) && count_change(merge_of(fruit, partner)) == -1,
        fruit.fruit_type.is_terminal() ==> merge_of(fruit, partner).spawned.is_none()
            && count_change(merge_of(fruit, partner)) == -2,
{
}

/// Every merge takes at least one fruit out of the world and at most two, so
/// a tick with merges leaves strictly fewer fruits than it found.
pub proof fn lemma_merges_shrink_the_world<P>(merges: Seq<Merge<P>>)
    ensures
        -2 * merges.len() <= total_count_change(merges) <= -merges.len(),
    decreases merges.len(),
{
    if merges.len() > 0 {
        lemma_merges_shrink_the_world(merges.drop_first());
    }
}

/// No merge across ranks, as long as no two marked fruits of different ranks
/// touch: then the two fruits of every merge have one and the same rank. The
/// resolver itself compares no ranks; it relies on the marks.
pub proof fn lemma_no_cross_rank_merge<P>(
    marked: Seq<WillMergeFruit<P>>,
    collisions: Seq<CollisionPair>,
)
    requires
        touching_marked_share_rank(marked, collisions),
    ensures
        forall|k: int|
            0 <= k < resolve(marked, collisions).len() ==> joins_one_rank(
                marked,
                #[trigger] resolve(marked, collisions)[k],
            ),
{
    let merges = resolve(marked, collisions);
    lemma_merges_join_touching_marked(marked, collisions);
    assert forall|k: int| 0 <= k < merges.len() implies joins_one_rank(
        marked,
        #[trigger] merges[k],
    ) by {
        assert(joins_marked(marked, collisions, merges[k]));
        let (index, contact) = choose|index: int, contact: int|
            joins_marked_at(marked, collisions, merges[k], index, contact);
        let second = choose|j: int|
            0 <= j < marked.len() && (#[trigger] marked[j]).entity == merges[k].second;
        assert(collisions[contact].touches(marked[index].entity));
        assert(joins_one_rank_at(marked, merges[k], index, second));
    }
}

/// Where some contact lets `fruit` merge, there is a first such contact.
proof fn lemma_first_mergeable_exists<P>(
    marked: Seq<WillMergeFruit<P>>,
    collisions: Seq<CollisionPair>,
    processed: Set<u64>,
    fruit: u64,
    index: int,
)
    requires
        0 <= index < collisions.len(),
        can_merge_through(marked, processed, fruit, collisions[index]),
    ensures
        exists|k: int| is_first_mergeable(marked, collisions, processed, fruit, k),
    decreases index,
{
    if exists|j: int|
        0 <= j < index && can_merge_through(marked, processed, fruit, #[trigger] collisions[j]) {
        let j = choose|j: int|
            0 <= j < index && can_merge_through(marked, processed, fruit, #[trigger] collisions[j]);
        lemma_first_mergeable_exists(marked, collisions, processed, fruit, j);
    } else {
        assert(is_first_mergeable(marked, collisions, processed, fruit, index));
    }
}

/// From any point of a tick on, a fruit that is still to be visited and is
/// neither merged before nor merged now touches no marked fruit but those that
/// have merged before or merge now.
proof fn lemma_resolve_from_is_maximal<P>(
    marked: Seq<WillMergeFruit<P>>,
    collisions: Seq<CollisionPair>,
    processed: Set<u64>,
    start: int,
)
    requires
        0 <= start,
    ensures
        forall|i: int|
            start <= i < marked.len() && !processed.contains((#[trigger] marked[i]).entity)
                && !despawned(resolve_from(marked, collisions, processed, start)).contains(
                marked[i].entity,
            ) ==> partners_within(
                marked,
                collisions,
                marked[i].entity,
                processed.union(
                    despawned(resolve_from(marked, collisions, processed, start)).to_set(),
                ),
            ),
    decreases marked.len() - start,
{
    let merges = resolve_from(marked, collisions, processed, start);
    let gone = despawned(merges);
    let taken = processed.union(gone.to_set());
    if start < marked.len() {
        let fruit = marked[start];
        let partner = first_partner(marked, collisions, processed, fruit.entity);
        if processed.contains(fruit.entity) || partner.is_none() {
            lemma_resolve_from_is_maximal(marked, collisions, processed, start + 1);
            if !processed.contains(fruit.entity) {
                // No contact lets this fruit merge, or there would be a first.
                assert forall|k: int|
                    0 <= k < collisions.len() && (#[trigger] collisions[k]).touches(fruit.entity)
                        && collisions[k].other(fruit.entity) != fruit.entity
                        && is_marked(marked, collisions[k].other(fruit.entity))
                    implies taken.contains(collisions[k].other(fruit.entity)) by {
                    if !processed.contains(collisions[k].other(fruit.entity)) {
                        lemma_first_mergeable_exists(marked, collisions, processed, fruit.entity, k);
                    }
                }
            }
        } else {
            let second = partner.unwrap();
            let merged = processed.insert(fruit.entity).insert(second);
            let rest = resolve_from(marked, collisions, merged, start + 1);
            let later = despawned(rest);
            lemma_resolve_from_is_maximal(marked, collisions, merged, start + 1);
            assert(merges[0] == merge_of(fruit, second));
            assert(merges.drop_first() == rest);
            assert(gone == seq![fruit.entity, second] + later);
            assert(gone[0] == fruit.entity && gone[1] == second);
            assert forall|entity: u64| later.contains(entity) implies gone.contains(entity) by {
                let at = choose|at: int| 0 <= at < later.len() && later[at] == entity;
                assert(gone[at + 2] == entity);
            }
            assert(merged.union(later.to_set()).subset_of(taken));
            assert forall|i: int|
                start <= i < marked.len() && !processed.contains((#[trigger] marked[i]).entity)
                    && !gone.contains(marked[i].entity)
                implies partners_within(marked, collisions, marked[i].entity, taken) by {
                assert(i > start);
                assert(!merged.contains(marked[i].entity));
                assert(!later.contains(marked[i].entity));
                assert(partners_within(
                    marked,
                    collisions,
                    marked[i].entity,
                    merged.union(later.to_set()),
                ));
            }
        }
    }
}

/// A fruit is left unmerged only for want of a partner: when the tick is
/// over, every other marked fruit that a surviving marked fruit touches has
/// been despawned. So no two marked fruits that touch both survive.
pub proof fn lemma_survivors_have_no_partner<P>(
    marked: Seq<WillMergeFruit<P>>,
    collisions: Seq<CollisionPair>,
)
    ensures
        forall|i: int|
            0 <= i < marked.len() && !despawned(resolve(marked, collisions)).contains(
                (#[trigger] marked[i]).entity,
            ) ==> partners_within(
                marked,
                collisions,
                marked[i].entity,
                despawned(resolve(marked, collisions)).to_set(),
            ),
{
    let gone = despawned(resolve(marked, collisions));
    lemma_resolve_from_is_maximal(marked, collisions, Set::empty(), 0);
    assert(Set::<u64>::empty().union(gone.to_set()) == gone.to_set());
}

/// A cluster merges in pairs. Where the marked fruits have distinct handles
/// and each of them touches every other, all of them merge but the odd one
/// out: the tick holds as many merges as there are pairs of marked fruits.
pub proof fn lemma_touching_cluster_merges_in_pairs<P>(
    marked: Seq<WillMergeFruit<P>>,
    collisions: Seq<CollisionPair>,
)
    requires
        forall|i: int, j: int|
            0 <= i < marked.len() && 0 <= j < marked.len() && i != j
                ==> (#[trigger] marked[i]).entity != (#[trigger] marked[j]).entity,
        forall|i: int, j: int|
            0 <= i < marked.len() && 0 <= j < marked.len() && i != j ==> exists|k: int|
                0 <= k < collisions.len()
                    && (#[trigger] collisions[k]).touches((#[trigger] marked[i]).entity)
                    && collisions[k].other(marked[i].entity) == (#[trigger] marked[j]).entity,
    ensures
        resolve(marked, collisions).len() == marked.len() / 2,
{
    let merges = resolve(marked, collisions);
    let gone = despawned(merges);
    let handles = marked.map_values(|fruit: WillMergeFruit<P>| fruit.entity);
    let all = handles.to_set();
    let taken = gone.to_set();
    let left = all.difference(taken);
    lemma_at_most_one_merge_per_fruit(marked, collisions);
    lemma_merges_join_touching_marked(marked, collisions);
    lemma_survivors_have_no_partner(marked, collisions);

    // The survivors are the marked handles less the despawned ones.
    assert(handles.no_duplicates());
    handles.unique_seq_to_set();
    gone.unique_seq_to_set();
    vstd::seq_lib::seq_to_set_is_finite(handles);
    vstd::seq_lib::seq_to_set_is_finite(gone);
    assert(all.intersect(taken) == taken) by {
        assert forall|entity: u64| taken.contains(entity) implies all.contains(entity) by {
            assert(gone.contains(entity));
            assert(is_marked(marked, entity));
            let j = choose|j: int| 0 <= j < marked.len() && (#[trigger] marked[j]).entity == entity;
            assert(handles[j] == entity);
        }
    }
    vstd::set_lib::lemma_set_difference_len(all, taken);
    assert(left.len() == marked.len() - 2 * merges.len());

    // Two survivors would touch, and one of them would have been despawned.
    if left.len() >= 2 {
        let a = left.choose();
        let others = left.remove(a);
        let b = others.choose();
        assert(left.contains(a) && others.contains(b));
        let i = choose|i: int| 0 <= i < handles.len() && handles[i] == a;
        let j = choose|j: int| 0 <= j < handles.len() && handles[j] == b;
        assert(marked[i].entity == a && marked[j].entity == b);
        let k = choose|k: int|
            0 <= k < collisions.len() && (#[trigger] collisions[k]).touches(marked[i].entity)
                && collisions[k].other(marked[i].entity) == marked[j].entity;
        assert(!gone.contains(marked[i].entity));
        assert(partners_within(marked, collisions, marked[i].entity, taken));
        assert(taken.contains(collisions[k].other(marked[i].entity)));
    }
}

} // verus!
