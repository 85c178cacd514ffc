//! A terminal arcade shooter, but for the terminal: the player's ship, the
//! swarm of invaders, the screen they are painted on, the minimal update of
//! a terminal from one screen to the next, and what one tick of the game
//! loop decides. Time is counted in microseconds. Every function comes with
//! a contract over a mathematical model of its data, and the laws of the
//! game are proved from those models.

use vstd::prelude::*;

pub mod descent;
pub mod frame;
pub mod game;
pub mod invaders;
pub mod player;
pub mod render;
pub mod shot;

verus! {

/// Number of rows of the playfield.
pub const NUM_ROWS: usize = 20;

/// Number of columns of the playfield.
pub const NUM_COLS: usize = 40;

} // verus!
