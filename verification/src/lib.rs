//! Ryggattack's game rules: the rail network, the carts' routes, the seat
//! roster, menu input, and the video settings.

use vstd::prelude::*;

pub mod batch;
pub mod game;
pub mod graph;
pub mod latch;
pub mod lobby;
pub mod map;
pub mod nav;
pub mod path;
pub mod rng;
pub mod settings;
pub mod roster;
pub mod scenery;
pub mod union_find;

verus! {

} // verus!
