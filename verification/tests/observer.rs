use fruit_merge::observer::{find_fruit_type, is_same_rank_contact, touches_same_rank};
use fruit_merge::{
    contact_between, observe_fruit_collisions, CollisionPair, Fruit, FruitType,
};

fn fruit(entity: u64, fruit_type: FruitType) -> Fruit {
    Fruit { entity, fruit_type }
}

fn pair(body1: u64, body2: u64) -> CollisionPair {
    CollisionPair { body1, body2 }
}

#[test]
fn two_grapes_that_touch_are_both_marked() {
    let fruits = vec![fruit(1, FruitType::Grape), fruit(2, FruitType::Grape)];
    let collisions = vec![pair(1, 2)];
    assert_eq!(observe_fruit_collisions(&fruits, &collisions), vec![1, 2]);
}

#[test]
fn grape_touching_cherry_marks_nothing() {
    let fruits = vec![fruit(1, FruitType::Grape), fruit(2, FruitType::Cherry)];
    let collisions = vec![pair(1, 2)];
    assert_eq!(observe_fruit_collisions(&fruits, &collisions), Vec::<u64>::new());
}

#[test]
fn contact_with_a_wall_marks_nothing() {
    let fruits = vec![fruit(1, FruitType::Grape), fruit(2, FruitType::Grape)];
    let collisions = vec![pair(1, 100), pair(100, 2), pair(100, 101)];
    assert_eq!(observe_fruit_collisions(&fruits, &collisions), Vec::<u64>::new());
}

#[test]
fn no_contacts_mark_nothing() {
    let fruits = vec![fruit(1, FruitType::Grape), fruit(2, FruitType::Grape)];
    assert_eq!(observe_fruit_collisions(&fruits, &Vec::new()), Vec::<u64>::new());
    assert_eq!(observe_fruit_collisions(&Vec::new(), &vec![pair(1, 2)]), Vec::<u64>::new());
}

#[test]
fn three_touching_grapes_are_all_marked() {
    let fruits =
        vec![fruit(1, FruitType::Grape), fruit(2, FruitType::Grape), fruit(3, FruitType::Grape)];
    let collisions = vec![pair(1, 2), pair(2, 3), pair(3, 1)];
    assert_eq!(observe_fruit_collisions(&fruits, &collisions), vec![1, 2, 3]);
}

#[test]
fn chain_of_same_rank_marks_the_whole_chain() {
    let fruits =
        vec![fruit(1, FruitType::Apple), fruit(2, FruitType::Apple), fruit(3, FruitType::Apple)];
    let collisions = vec![pair(1, 2), pair(2, 3)];
    assert_eq!(observe_fruit_collisions(&fruits, &collisions), vec![1, 2, 3]);
}

#[test]
fn marks_come_in_the_order_of_the_fruits() {
    let fruits = vec![
        fruit(9, FruitType::Melon),
        fruit(4, FruitType::Grape),
        fruit(7, FruitType::Melon),
        fruit(2, FruitType::Cherry),
    ];
    let collisions = vec![pair(7, 9), pair(4, 2)];
    assert_eq!(observe_fruit_collisions(&fruits, &collisions), vec![9, 7]);
}

#[test]
fn repeated_contacts_mark_a_fruit_once() {
    let fruits = vec![fruit(1, FruitType::Grape), fruit(2, FruitType::Grape)];
    let collisions = vec![pair(1, 2), pair(2, 1), pair(1, 2), pair(1, 2)];
    assert_eq!(observe_fruit_collisions(&fruits, &collisions), vec![1, 2]);
}

#[test]
fn cross_rank_contact_changes_no_mark() {
    let fruits = vec![
        fruit(1, FruitType::Grape),
        fruit(2, FruitType::Grape),
        fruit(3, FruitType::Cherry),
        fruit(4, FruitType::Pear),
    ];
    let without = vec![pair(1, 2)];
    let with = vec![pair(1, 2), pair(2, 3), pair(3, 4), pair(4, 1)];
    assert_eq!(observe_fruit_collisions(&fruits, &without), vec![1, 2]);
    assert_eq!(
        observe_fruit_collisions(&fruits, &with),
        observe_fruit_collisions(&fruits, &without)
    );
}

#[test]
fn fruit_without_same_rank_partner_is_not_marked() {
    let fruits = vec![
        fruit(1, FruitType::Mikan),
        fruit(2, FruitType::Mikan),
        fruit(3, FruitType::Mikan),
        fruit(4, FruitType::Apple),
    ];
    let collisions = vec![pair(1, 2), pair(3, 4), pair(3, 50)];
    let marked = observe_fruit_collisions(&fruits, &collisions);
    assert_eq!(marked, vec![1, 2]);
    assert!(!marked.contains(&3));
    assert!(!marked.contains(&4));
}

#[test]
fn find_fruit_type_knows_fruits_only() {
    let fruits = vec![fruit(5, FruitType::Pear), fruit(6, FruitType::Melon)];
    assert_eq!(find_fruit_type(&fruits, 5), Some(FruitType::Pear));
    assert_eq!(find_fruit_type(&fruits, 6), Some(FruitType::Melon));
    assert_eq!(find_fruit_type(&fruits, 7), None);
    assert_eq!(find_fruit_type(&Vec::new(), 5), None);
}

#[test]
fn find_fruit_type_takes_the_first_record() {
    let fruits = vec![fruit(5, FruitType::Pear), fruit(5, FruitType::Melon)];
    assert_eq!(find_fruit_type(&fruits, 5), Some(FruitType::Pear));
}

#[test]
fn same_rank_contact_needs_two_fruits_of_one_rank() {
    let fruits =
        vec![fruit(1, FruitType::Grape), fruit(2, FruitType::Grape), fruit(3, FruitType::Cherry)];
    assert!(is_same_rank_contact(&fruits, &pair(1, 2)));
    assert!(is_same_rank_contact(&fruits, &pair(2, 1)));
    assert!(!is_same_rank_contact(&fruits, &pair(1, 3)));
    assert!(!is_same_rank_contact(&fruits, &pair(1, 9)));
    assert!(!is_same_rank_contact(&fruits, &pair(9, 1)));
    assert!(!is_same_rank_contact(&fruits, &pair(8, 9)));
}

#[test]
fn touches_same_rank_looks_at_contacts_of_the_body_only() {
    let fruits =
        vec![fruit(1, FruitType::Grape), fruit(2, FruitType::Grape), fruit(3, FruitType::Grape)];
    let collisions = vec![pair(1, 2)];
    assert!(touches_same_rank(&fruits, &collisions, 1));
    assert!(touches_same_rank(&fruits, &collisions, 2));
    assert!(!touches_same_rank(&fruits, &collisions, 3));
    assert!(!touches_same_rank(&fruits, &collisions, 9));
}

#[test]
fn collision_pair_names_the_other_body() {
    let contact = pair(3, 8);
    assert!(contact.involves(3));
    assert!(contact.involves(8));
    assert!(!contact.involves(5));
    assert_eq!(contact.partner_of(3), 8);
    assert_eq!(contact.partner_of(8), 3);
}

#[test]
fn contact_between_two_bodies_is_a_pair() {
    assert_eq!(contact_between(Some(3), Some(8)), Some(pair(3, 8)));
    assert_eq!(contact_between(Some(8), Some(3)), Some(pair(8, 3)));
    assert_eq!(contact_between(Some(0), Some(0)), Some(pair(0, 0)));
}

#[test]
fn contact_with_an_absent_body_is_no_pair() {
    assert_eq!(contact_between(None, Some(8)), None);
    assert_eq!(contact_between(Some(3), None), None);
    assert_eq!(contact_between(None, None), None);
}

#[test]
fn contact_with_an_absent_body_marks_nothing() {
    let fruits = vec![fruit(1, FruitType::Grape), fruit(2, FruitType::Grape)];
    let reported = [(Some(1), None), (None, Some(2)), (None, None)];
    let collisions: Vec<CollisionPair> =
        reported.iter().filter_map(|(a, b)| contact_between(*a, *b)).collect();
    assert_eq!(observe_fruit_collisions(&fruits, &collisions), Vec::<u64>::new());

    let reported = [(Some(1), None), (Some(2), Some(1))];
    let collisions: Vec<CollisionPair> =
        reported.iter().filter_map(|(a, b)| contact_between(*a, *b)).collect();
    assert_eq!(observe_fruit_collisions(&fruits, &collisions), vec![1, 2]);
}
