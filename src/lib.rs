//! A terminal snake game's core: toroidal grid geometry, key decoding and the
//! event queue, the game-state engine, and the decisions of the game loop.
use vstd::prelude::*;

pub mod control;
pub mod engine;
pub mod events;
pub mod geometry;

verus! {

} // verus!
