//! The rank table: the fixed progression of fruits, with the size and the
//! colour of each rank and the rank that a merge leads to.

use vstd::prelude::*;
use crate::sampling::sample_index;

verus! {

/// The ranks of the progression, from the smallest fruit to the largest.
#[derive(Clone, Copy, Debug, PartialEq, Eq, Structural)]
pub enum FruitType {
    Grape,
    Cherry,
    Mikan,
    Apple,
    Pear,
    Melon,
    Watermelon,
}

/// A colour: hue in degrees, saturation and lightness in percent.
#[derive(Clone, Copy, Debug, PartialEq, Eq, Structural)]
pub struct Hsl {
    pub hue: u16,
    pub saturation: u8,
    pub lightness: u8,
}

/// How many ranks a fruit dropped by the player can have: the lowest ones.
pub const INITIAL_RANKS: usize = 3;

impl FruitType {
    /// The position of a rank in the progression, counted from zero.
    pub open spec fn spec_rank(self) -> nat {
        match self {
            FruitType::Grape => 0,
            FruitType::Cherry => 1,
            FruitType::Mikan => 2,
            FruitType::Apple => 3,
            FruitType::Pear => 4,
            FruitType::Melon => 5,
            FruitType::Watermelon => 6,
        }
    }

    /// The rank at a position of the progression; past its end, the last rank.
    pub open spec fn at(position: nat) -> FruitType {
        if position == 0 {
            FruitType::Grape
        } else if position == 1 {
            FruitType::Cherry
        } else if position == 2 {
            FruitType::Mikan
        } else if position == 3 {
            FruitType::Apple
        } else if position == 4 {
            FruitType::Pear
        } else if position == 5 {
            FruitType::Melon
        } else {
            FruitType::Watermelon
        }
    }

    /// The last rank of the progression, which merges into nothing.
    pub open spec fn is_terminal(self) -> bool {
        self == FruitType::Watermelon
    }

    /// The rank one step up, and the terminal rank for itself.
    pub open spec fn successor(self) -> FruitType {
        FruitType::at(self.spec_rank() + 1)
    }

    /// Whether the player can be dealt this rank.
    pub open spec fn is_initial(self) -> bool {
        self.spec_rank() < INITIAL_RANKS
    }

    /// The radius of a fruit of this rank, in world units.
    pub open spec fn spec_radius(self) -> nat {
        match self {
            FruitType::Grape => 20,
            FruitType::Cherry => 30,
            FruitType::Mikan => 35,
            FruitType::Apple => 40,
            FruitType::Pear => 50,
            FruitType::Melon => 60,
            FruitType::Watermelon => 80,
        }
    }

    /// The colour that a fruit of this rank is drawn in.
    pub open spec fn spec_color(self) -> Hsl {
        match self {
            FruitType::Grape => Hsl { hue: 270, saturation: 70, lightness: 60 },
            FruitType::Cherry => Hsl { hue: 0, saturation: 100, lightness: 50 },
            FruitType::Mikan => Hsl { hue: 30, saturation: 100, lightness: 50 },
            FruitType::Apple => Hsl { hue: 2, saturation: 65, lightness: 50 },
            FruitType::Pear => Hsl { hue: 60, saturation: 67, lightness: 70 },
            FruitType::Melon => Hsl { hue: 120, saturation: 100, lightness: 75 },
            FruitType::Watermelon => Hsl { hue: 150, saturation: 80, lightness: 30 },
        }
    }

    /// The position of this rank in the progression, counted from zero.
    pub fn rank(&self) -> (position: u8)
        ensures
            position == self.spec_rank(),
    {
        match self {
            FruitType::Grape => 0,
            FruitType::Cherry => 1,
            FruitType::Mikan => 2,
            FruitType::Apple => 3,
            FruitType::Pear => 4,
            FruitType::Melon => 5,
            FruitType::Watermelon => 6,
        }
    }

    /// The radius of a fruit of this rank, in world units.
    pub fn radius(&self) -> (radius: u32)
        ensures
            radius == self.spec_radius(),
    {
        match self {
            FruitType::Grape => 20,
            FruitType::Cherry => 30,
            FruitType::Mikan => 35,
            FruitType::Apple => 40,
            FruitType::Pear => 50,
            FruitType::Melon => 60,
            FruitType::Watermelon => 80,
        }
    }

    /// The colour that a fruit of this rank is drawn in.
    pub fn color(&self) -> (color: Hsl)
        ensures
            color == self.spec_color(),
    {
        match self {
            FruitType::Grape => Hsl { hue: 270, saturation: 70, lightness: 60 },
            FruitType::Cherry => Hsl { hue: 0, saturation: 100, lightness: 50 },
            FruitType::Mikan => Hsl { hue: 30, saturation: 100, lightness: 50 },
            FruitType::Apple => Hsl { hue: 2, saturation: 65, lightness: 50 },
            FruitType::Pear => Hsl { hue: 60, saturation: 67, lightness: 70 },
            FruitType::Melon => Hsl { hue: 120, saturation: 100, lightness: 75 },
            FruitType::Watermelon => Hsl { hue: 150, saturation: 80, lightness: 30 },
        }
    }

    /// The initial rank at a drawn index: the ranks a player can be dealt are
    /// the first ones of the progression, in its order.
    pub fn initial(index: usize) -> (picked: FruitType)
        requires
            index < INITIAL_RANKS,
        ensures
            picked == FruitType::at(index as nat),
            picked.is_initial(),
    {
        if index == 0 {
            FruitType::Grape
        } else if index == 1 {
            FruitType::Cherry
        } else {
            FruitType::Mikan
        }
    }

    /// A rank for a fruit that the player drops, drawn at random among the
    /// initial ranks.
    pub fn choice() -> (picked: FruitType)
        ensures
            picked.is_initial(),
    {
        let index: usize = sample_index(INITIAL_RANKS, 1, 0);
        FruitType::initial(index)
    }

    /// The rank that two merged fruits of this rank turn into. The terminal
    /// rank has none and answers with itself.
    pub fn next_fruit(&self) -> (next: FruitType)
        ensures
            next == self.successor(),
    {
        match *self {
            FruitType::Grape => FruitType::Cherry,
            FruitType::Cherry => FruitType::Mikan,
            FruitType::Mikan => FruitType::Apple,
            FruitType::Apple => FruitType::Pear,
            FruitType::Pear => FruitType::Melon,
            FruitType::Melon => FruitType::Watermelon,
            FruitType::Watermelon => FruitType::Watermelon,
        }
    }
}

/// Merging moves up the progression: below the terminal rank the successor is
/// the very next rank, so strictly greater, and the terminal rank is its own
/// successor.
pub proof fn lemma_successor_progresses(rank: FruitType)
    ensures
        !rank.is_terminal() ==> rank.successor().spec_rank() == rank.spec_rank() + 1,
        !rank.is_terminal() ==> rank.successor().spec_rank() > rank.spec_rank(),
        rank.is_terminal() ==> rank.successor() == rank,
        rank.is_terminal() <==> (forall|other: FruitType| other.spec_rank() <= rank.spec_rank()),
{
    if !rank.is_terminal() {
        assert(FruitType::Watermelon.spec_rank() > rank.spec_rank());
    }
}

/// The order of the ranks is total: two ranks at the same position are the
/// same rank, and every position below seven holds a rank.
pub proof fn lemma_rank_order_total(a: FruitType, b: FruitType)
    ensures
        a.spec_rank() < 7,
        FruitType::at(a.spec_rank()) == a,
        a.spec_rank() == b.spec_rank() ==> a == b,
{
}

/// A higher rank is a larger fruit: the radius grows strictly with the rank.
pub proof fn lemma_radius_grows_with_rank(lower: FruitType, higher: FruitType)
    requires
        lower.spec_rank() < higher.spec_rank(),
    ensures
        0 < lower.spec_radius() < higher.spec_radius(),
{
}

} // verus!
