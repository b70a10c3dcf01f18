use fruit_merge::{FruitType, Hsl};

const PROGRESSION: [FruitType; 7] = [
    FruitType::Grape,
    FruitType::Cherry,
    FruitType::Mikan,
    FruitType::Apple,
    FruitType::Pear,
    FruitType::Melon,
    FruitType::Watermelon,
];

#[test]
fn ranks_count_up_from_zero() {
    for (position, fruit_type) in PROGRESSION.iter().enumerate() {
        assert_eq!(fruit_type.rank() as usize, position);
    }
}

#[test]
fn next_fruit_is_the_next_rank() {
    assert_eq!(FruitType::Grape.next_fruit(), FruitType::Cherry);
    assert_eq!(FruitType::Cherry.next_fruit(), FruitType::Mikan);
    assert_eq!(FruitType::Mikan.next_fruit(), FruitType::Apple);
    assert_eq!(FruitType::Apple.next_fruit(), FruitType::Pear);
    assert_eq!(FruitType::Pear.next_fruit(), FruitType::Melon);
    assert_eq!(FruitType::Melon.next_fruit(), FruitType::Watermelon);
}

#[test]
fn next_fruit_of_the_terminal_rank_is_itself() {
    assert_eq!(FruitType::Watermelon.next_fruit(), FruitType::Watermelon);
}

#[test]
fn next_fruit_is_strictly_greater_below_the_terminal_rank() {
    for fruit_type in PROGRESSION.iter().take(6) {
        assert_eq!(fruit_type.next_fruit().rank(), fruit_type.rank() + 1);
        assert!(fruit_type.next_fruit().rank() > fruit_type.rank());
    }
}

#[test]
fn radius_of_each_rank() {
    assert_eq!(FruitType::Grape.radius(), 20);
    assert_eq!(FruitType::Cherry.radius(), 30);
    assert_eq!(FruitType::Mikan.radius(), 35);
    assert_eq!(FruitType::Apple.radius(), 40);
    assert_eq!(FruitType::Pear.radius(), 50);
    assert_eq!(FruitType::Melon.radius(), 60);
    assert_eq!(FruitType::Watermelon.radius(), 80);
}

#[test]
fn radius_grows_with_rank() {
    for lower in PROGRESSION.iter() {
        assert!(lower.radius() > 0);
        for higher in PROGRESSION.iter() {
            if lower.rank() < higher.rank() {
                assert!(lower.radius() < higher.radius());
            }
        }
    }
}

#[test]
fn color_of_each_rank() {
    assert_eq!(FruitType::Grape.color(), Hsl { hue: 270, saturation: 70, lightness: 60 });
    assert_eq!(FruitType::Cherry.color(), Hsl { hue: 0, saturation: 100, lightness: 50 });
    assert_eq!(FruitType::Mikan.color(), Hsl { hue: 30, saturation: 100, lightness: 50 });
    assert_eq!(FruitType::Apple.color(), Hsl { hue: 2, saturation: 65, lightness: 50 });
    assert_eq!(FruitType::Pear.color(), Hsl { hue: 60, saturation: 67, lightness: 70 });
    assert_eq!(FruitType::Melon.color(), Hsl { hue: 120, saturation: 100, lightness: 75 });
    assert_eq!(FruitType::Watermelon.color(), Hsl { hue: 150, saturation: 80, lightness: 30 });
}

#[test]
fn initial_ranks_are_the_three_lowest() {
    assert_eq!(FruitType::initial(0), FruitType::Grape);
    assert_eq!(FruitType::initial(1), FruitType::Cherry);
    assert_eq!(FruitType::initial(2), FruitType::Mikan);
}

#[test]
fn choice_is_always_an_initial_rank() {
    for _ in 0..500 {
        let picked = FruitType::choice();
        assert!(picked.rank() < 3);
        assert!(matches!(picked, FruitType::Grape | FruitType::Cherry | FruitType::Mikan));
    }
}

#[test]
fn choice_draws_every_initial_rank() {
    let mut seen = [false; 3];
    for _ in 0..600 {
        seen[FruitType::choice().rank() as usize] = true;
    }
    assert_eq!(seen, [true, true, true]);
}
