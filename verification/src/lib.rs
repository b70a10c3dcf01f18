//! The gameplay core of a fruit-merging physics puzzle.
//!
//! Fruits fall into a container; when two fruits of the same rank touch they
//! vanish and one fruit of the next rank takes their place. The physics and
//! rendering engine stays outside: it hands this crate plain snapshots of the
//! world (handles, ranks, contacts) and carries out what the crate decides.

pub mod observer;
pub mod rank;
pub mod resolver;
pub mod resolver_laws;
pub mod sampling;
pub mod spawner;
pub mod tick;

pub use observer::{contact_between, observe_fruit_collisions, CollisionPair, Fruit};
pub use rank::{FruitType, Hsl};
pub use resolver::{process_fruits_to_merge, Merge, WillMergeFruit};
pub use spawner::{spawn_fruit, spawn_on_user_input, BodyKind, FruitBody};
