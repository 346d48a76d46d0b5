//! A time-bounded breadth-first planner for a crafting and brewing game: resource vectors,
//! the game's transition rules, and the search that picks the next action.
use vstd::prelude::*;

pub mod bot;
pub mod catalog;
pub mod equality;
pub mod first;
pub mod planner;
pub mod setup;
pub mod state;
pub mod transition;
pub mod vec4;

pub use bot::Bot;
pub use catalog::{Action, MagicTome, Order, Spell, TomeSpell};
pub use planner::{Planner, SearchNode};
pub use setup::{Entity, EntityKind};
pub use state::{GameState, PlayerState};
pub use vec4::Vec4;

verus! {

} // verus!
