//! The spawner: what the engine has to create for a fruit of a given rank.

use vstd::prelude::*;
use crate::rank::{FruitType, Hsl};

verus! {

/// How the engine moves a body.
#[derive(Clone, Copy, Debug, PartialEq, Eq, Structural)]
pub enum BodyKind {
    /// Moved by gravity and by contacts.
    Dynamic,
    /// Never moved.
    Static,
}

/// The bounciness of a fruit, in percent.
pub const RESTITUTION_PERCENT: u8 = 40;

/// The density of a fruit.
pub const DENSITY: u32 = 5;

/// The horizontal offset of a fruit's centre of mass from its centre, in
/// percent of a world unit.
pub const CENTER_OF_MASS_X_PERCENT: i32 = 0;

/// The vertical offset of a fruit's centre of mass from its centre, in percent
/// of a world unit. It lies below the centre, so that fruits settle.
pub const CENTER_OF_MASS_Y_PERCENT: i32 = -50;

/// Everything the engine needs to create one fruit: the physics body and the
/// disc drawn for it. `P` is the engine's type for a position in the world;
/// the core never looks inside it.
#[derive(Clone, Debug, PartialEq, Eq)]
pub struct FruitBody<P> {
    pub fruit_type: FruitType,
    pub position: P,
    pub kind: BodyKind,
    /// The radius of the circular collider and of the disc, in world units.
    pub radius: u32,
    pub restitution_percent: u8,
    pub density: u32,
    pub center_of_mass_x_percent: i32,
    pub center_of_mass_y_percent: i32,
    pub color: Hsl,
}

/// The body of a fruit of rank `fruit_type` at `position`: a dynamic circle
/// sized and coloured by the rank table, with the fixed material of fruits.
pub open spec fn fruit_body<P>(fruit_type: FruitType, position: P) -> FruitBody<P> {
    FruitBody {
        fruit_type,
        position,
        kind: BodyKind::Dynamic,
        radius: fruit_type.spec_radius() as u32,
        restitution_percent: RESTITUTION_PERCENT,
        density: DENSITY,
        center_of_mass_x_percent: CENTER_OF_MASS_X_PERCENT,
        center_of_mass_y_percent: CENTER_OF_MASS_Y_PERCENT,
        color: fruit_type.spec_color(),
    }
}

/// Describes the fruit of rank `fruit_type` to create at `position`. There is
/// no rank and no position for which this fails.
pub fn spawn_fruit<P>(fruit_type: FruitType, position: P) -> (body: FruitBody<P>)
    ensures
        body == fruit_body(fruit_type, position),
{
    FruitBody {
        fruit_type,
        position,
        kind: BodyKind::Dynamic,
        radius: fruit_type.radius(),
        restitution_percent: RESTITUTION_PERCENT,
        density: DENSITY,
        center_of_mass_x_percent: CENTER_OF_MASS_X_PERCENT,
        center_of_mass_y_percent: CENTER_OF_MASS_Y_PERCENT,
        color: fruit_type.color(),
    }
}

/// What a pointer press leads to: a press that happened on this very tick,
/// over a point of the world, drops a fruit of a random initial rank there;
/// anything else drops nothing.
pub fn spawn_on_user_input<P>(just_pressed: bool, pointer: Option<P>) -> (dropped: Option<
    FruitBody<P>,
>)
    ensures
        dropped.is_some() <==> just_pressed && pointer.is_some(),
        dropped.is_some() ==> dropped.unwrap().fruit_type.is_initial(),
        dropped.is_some() ==> dropped.unwrap() == fruit_body(
            dropped.unwrap().fruit_type,
            pointer.unwrap(),
        ),
{
    if !just_pressed {
        return None;
    }
    match pointer {
        Some(position) => Some(spawn_fruit(FruitType::choice(), position)),
        None => None,
    }
}

} // verus!
