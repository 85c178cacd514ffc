//! Projectiles: a column, a fine-grained height and an upward speed.

use vstd::prelude::*;
use crate::frame::{Point, Position};
use crate::{NUM_COLS, NUM_ROWS};

verus! {

/// Depth units that make up one row of the playfield.
pub const STEPS_PER_ROW: u64 = 50_000;

/// Depth units that a player's projectile climbs in one microsecond.
pub const SHOT_SPEED: u64 = 1;

/// What a projectile looks like on the screen.
pub const SHOT_GLYPH: &'static str = "|";

/// A projectile as a mathematical value. Its depth is the distance from the
/// top edge of the playfield, `STEPS_PER_ROW` units to the row; a negative
/// depth lies above the playfield.
pub struct Projectile {
    pub col: int,
    pub depth: int,
    pub speed: nat,
}

impl Projectile {
    /// The row in which the projectile is; negative above the playfield.
    pub open spec fn row(self) -> int {
        self.depth / STEPS_PER_ROW as int
    }

    /// The cell in which the projectile is.
    pub open spec fn spot(self) -> Point {
        Point { col: self.col, row: self.row() }
    }

    /// The projectile has not left the playfield through the top.
    pub open spec fn in_play(self) -> bool {
        self.row() >= 0
    }

    /// The projectile is inside the playfield.
    pub open spec fn wf(self) -> bool {
        self.spot().on_screen()
    }

    /// The projectile `delta` microseconds later: its speed times the
    /// elapsed time further up.
    pub open spec fn advanced(self, delta: nat) -> Projectile {
        Projectile { depth: self.depth - self.speed * delta, ..self }
    }

    /// A projectile that starts on the top edge of the cell at (`col`, `row`).
    pub open spec fn launched(col: int, row: int) -> Projectile {
        Projectile { col, depth: row * STEPS_PER_ROW, speed: SHOT_SPEED as nat }
    }
}

/// The projectiles of `shots` after `delta` microseconds, in their order,
/// without those that have left the playfield.
pub open spec fn flown(shots: Seq<Projectile>, delta: nat) -> Seq<Projectile>
    decreases shots.len(),
{
    if shots.len() == 0 {
        Seq::empty()
    } else {
        let earlier = flown(shots.drop_last(), delta);
        let last = shots.last().advanced(delta);
        if last.in_play() {
            earlier.push(last)
        } else {
            earlier
        }
    }
}

/// The cells in which the projectiles of `shots` are.
pub open spec fn spots(shots: Seq<Projectile>) -> Seq<Point> {
    shots.map_values(|s: Projectile| s.spot())
}

/// A projectile in flight.
#[derive(Clone, Copy, Debug, PartialEq, Eq, Structural)]
pub struct Shot {
    col: usize,
    depth: u64,
    speed: u64,
}

impl View for Shot {
    type V = Projectile;

    closed spec fn view(&self) -> Projectile {
        Projectile { col: self.col as int, depth: self.depth as int, speed: self.speed as nat }
    }
}

/// The mathematical values of a list of projectiles.
pub open spec fn flights(shots: Seq<Shot>) -> Seq<Projectile> {
    shots.map_values(|s: Shot| s@)
}

impl Shot {
    /// A projectile on the top edge of the cell at (`col`, `row`), climbing
    /// at `SHOT_SPEED`.
    pub fn launch(col: usize, row: usize) -> (shot: Shot)
        requires
            col < NUM_COLS,
            row < NUM_ROWS,
        ensures
            shot@ == Projectile::launched(col as int, row as int),
            shot@.wf(),
            shot@.spot() == (Point { col: col as int, row: row as int }),
    {
        Shot { col, depth: row as u64 * STEPS_PER_ROW, speed: SHOT_SPEED }
    }

    /// The cell in which the projectile is.
    pub fn position(&self) -> (p: Position)
        requires
            self@.wf(),
        ensures
            p@ == self@.spot(),
    {
        Position { col: self.col, row: (self.depth / STEPS_PER_ROW) as usize }
    }

    /// The projectile `delta` microseconds later, or `None` where it has
    /// left the playfield by then.
    pub fn advance(&self, delta: u64) -> (next: Option<Shot>)
        requires
            self@.wf(),
        ensures
            match next {
                Some(shot) => shot@ == self@.advanced(delta as nat) && shot@.wf(),
                None => !self@.advanced(delta as nat).in_play(),
            },
            next.is_some() == self@.advanced(delta as nat).in_play(),
    {
        match self.speed.checked_mul(delta) {
            Some(climb) => {
                if climb <= self.depth {
                    Some(Shot { col: self.col, depth: self.depth - climb, speed: self.speed })
                } else {
                    None
                }
            },
            None => None,
        }
    }
}

} // verus!
