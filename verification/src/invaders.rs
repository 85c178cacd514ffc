//! The invader swarm: a formation that sweeps sideways and descends.

use vstd::prelude::*;
use crate::frame::{cells, is_grid, put, stamped, lemma_stamp_push, Drawable, Frame, Grid, Point, Position};
use crate::{NUM_COLS, NUM_ROWS};

verus! {

/// Rows of invaders in the starting formation.
pub const FORMATION_ROWS: usize = 4;

/// Invaders in each row of the starting formation.
pub const FORMATION_COLS: usize = 18;

/// Column of the leftmost invader of the starting formation.
pub const FORMATION_LEFT: usize = 2;

/// Row of the topmost invader of the starting formation.
pub const FORMATION_TOP: usize = 2;

/// Distance between neighbours in the starting formation, in cells.
pub const FORMATION_STRIDE: usize = 2;

/// Number of invaders in the starting formation.
pub const INITIAL_COUNT: usize = FORMATION_ROWS * FORMATION_COLS;

/// The last row of the playfield; an invader on it ends the round.
pub const BOTTOM_ROW: usize = NUM_ROWS - 1;

/// Microseconds between two moves that no swarm goes below.
pub const MOVE_FLOOR: u64 = 200_000;

/// Microseconds that each live invader adds to the time between two moves.
pub const MOVE_PER_INVADER: u64 = 25_000;

/// What an invader looks like on the screen.
pub const INVADER_GLYPH: &'static str = "x";

/// The horizontal direction in which the swarm is moving.
#[derive(Clone, Copy, Debug, PartialEq, Eq, Structural)]
pub enum Heading {
    Left,
    Right,
}

impl Heading {
    /// The change of column in one move: -1 to the left, +1 to the right.
    pub open spec fn dx(self) -> int {
        match self {
            Heading::Left => -1,
            Heading::Right => 1,
        }
    }

    /// The opposite direction.
    pub open spec fn reversed(self) -> Heading {
        match self {
            Heading::Left => Heading::Right,
            Heading::Right => Heading::Left,
        }
    }

    /// One move in this direction would carry column `col` out of the playfield.
    pub open spec fn exits(self, col: int) -> bool {
        !(0 <= col + self.dx() < NUM_COLS)
    }
}

/// Accumulated microseconds that a swarm of `population` invaders must exceed to move.
pub open spec fn move_threshold(population: nat) -> nat {
    (MOVE_FLOOR + MOVE_PER_INVADER * population) as nat
}

/// The starting formation, row by row from the top, each row from the left.
pub open spec fn formation() -> Seq<Point> {
    Seq::new(
        INITIAL_COUNT as nat,
        |k: int|
            Point {
                col: FORMATION_LEFT + FORMATION_STRIDE * (k % FORMATION_COLS as int),
                row: FORMATION_TOP + FORMATION_STRIDE * (k / FORMATION_COLS as int),
            },
    )
}

/// The columns of `army`, in its order.
pub open spec fn cols(army: Seq<Point>) -> Seq<int> {
    army.map_values(|p: Point| p.col)
}

/// The rows of `army`, in its order.
pub open spec fn rows(army: Seq<Point>) -> Seq<int> {
    army.map_values(|p: Point| p.row)
}

/// The largest row among `army`, or 0 where there is none.
pub open spec fn lowest_row(army: Seq<Point>) -> int {
    rows(army).max()
}

/// Some invader of `army` stands on the bottom row or below it.
pub open spec fn at_bottom(army: Seq<Point>) -> bool {
    exists|i: int| 0 <= i < army.len() && (#[trigger] army[i]).row >= BOTTOM_ROW
}

/// The swarm as a mathematical value.
pub struct Swarm {
    /// Positions of the live invaders, in storage order.
    pub army: Seq<Point>,
    /// Direction of the next sideways move.
    pub heading: Heading,
    /// Microseconds accumulated since the last move.
    pub clock: nat,
}

impl Swarm {
    /// The swarm at the start of a round.
    pub open spec fn initial() -> Swarm {
        Swarm { army: formation(), heading: Heading::Right, clock: 0 }
    }

    /// The population is at most the initial one, and every invader is within
    /// the columns of the playfield and not above it.
    pub open spec fn wf(self) -> bool {
        &&& self.army.len() <= INITIAL_COUNT
        &&& forall|i: int|
            0 <= i < self.army.len() ==> 0 <= (#[trigger] self.army[i]).col < NUM_COLS
                && self.army[i].row >= 0
    }

    /// Every invader is inside the playfield.
    pub open spec fn on_screen(self) -> bool {
        forall|i: int| 0 <= i < self.army.len() ==> (#[trigger] self.army[i]).on_screen()
    }

    /// Every invader is above row `limit`.
    pub open spec fn above(self, limit: int) -> bool {
        forall|i: int| 0 <= i < self.army.len() ==> (#[trigger] self.army[i]).row < limit
    }

    /// No invader is left.
    pub open spec fn all_killed(self) -> bool {
        self.army.len() == 0
    }

    /// Some invader stands on the bottom row or below it.
    pub open spec fn reached_bottom(self) -> bool {
        at_bottom(self.army)
    }

    /// The accumulated time that the swarm must exceed to move.
    pub open spec fn threshold(self) -> nat {
        move_threshold(self.army.len())
    }

    /// A sideways move would carry some invader out of the playfield.
    pub open spec fn blocked(self) -> bool {
        exists|i: int|
            0 <= i < self.army.len() && self.heading.exits((#[trigger] self.army[i]).col)
    }

    /// Every invader one row down; the heading reversed.
    pub open spec fn descended(self) -> Swarm {
        Swarm {
            army: self.army.map_values(|p: Point| Point { col: p.col, row: p.row + 1 }),
            heading: self.heading.reversed(),
            clock: 0,
        }
    }

    /// Every invader one column further in the heading.
    pub open spec fn shifted(self) -> Swarm {
        Swarm {
            army: self.army.map_values(
                |p: Point| Point { col: p.col + self.heading.dx(), row: p.row },
            ),
            heading: self.heading,
            clock: 0,
        }
    }

    /// One discrete move: down and about where a sideways move would leave the
    /// playfield, sideways otherwise. The clock starts again.
    pub open spec fn step(self) -> Swarm {
        if self.blocked() {
            self.descended()
        } else {
            self.shifted()
        }
    }

    /// After `delta` more microseconds the swarm is due to move.
    pub open spec fn due(self, delta: nat) -> bool {
        self.clock + delta > self.threshold()
    }

    /// The swarm after `delta` more microseconds.
    pub open spec fn tick(self, delta: nat) -> Swarm {
        if self.due(delta) {
            self.step()
        } else {
            Swarm { clock: self.clock + delta, ..self }
        }
    }

    /// `i` is the first index of an invader at `p`.
    pub open spec fn first_at(self, p: Point, i: int) -> bool {
        &&& 0 <= i < self.army.len()
        &&& self.army[i] == p
        &&& forall|j: int| 0 <= j < i ==> self.army[j] != p
    }

    /// The swarm without its first invader at `p`; unchanged where there is none.
    pub open spec fn without(self, p: Point) -> Swarm {
        if self.army.contains(p) {
            Swarm { army: self.army.remove(choose|i: int| self.first_at(p, i)), ..self }
        } else {
            self
        }
    }
}

/// The swarm of invaders.
#[derive(Clone, Debug)]
pub struct Invaders {
    army: Vec<Position>,
    heading: Heading,
    clock: u64,
}

impl View for Invaders {
    type V = Swarm;

    closed spec fn view(&self) -> Swarm {
        Swarm {
            army: self.army@.map_values(|p: Position| p@),
            heading: self.heading,
            clock: self.clock as nat,
        }
    }
}

impl Invaders {
    /// The invariant of a swarm in play.
    pub open spec fn wf(&self) -> bool {
        self@.wf()
    }

    /// The starting formation, heading right, with the clock at zero.
    pub fn new() -> (swarm: Invaders)
        ensures
            swarm@ == Swarm::initial(),
            swarm.wf(),
            swarm@.on_screen(),
            !swarm@.reached_bottom(),
    {
        let mut army: Vec<Position> = Vec::new();
        let mut i: usize = 0;
        while i < FORMATION_ROWS
            invariant
                i <= FORMATION_ROWS,
                army@.len() == i * FORMATION_COLS,
                forall|k: int| 0 <= k < army@.len() ==> (#[trigger] army@[k])@ == formation()[k],
            decreases FORMATION_ROWS - i,
        {
            let mut j: usize = 0;
            while j < FORMATION_COLS
                invariant
                    i < FORMATION_ROWS,
                    j <= FORMATION_COLS,
                    army@.len() == i * FORMATION_COLS + j,
                    forall|k: int|
                        0 <= k < army@.len() ==> (#[trigger] army@[k])@ == formation()[k],
                decreases FORMATION_COLS - j,
            {
                army.push(
                    Position {
                        col: FORMATION_LEFT + FORMATION_STRIDE * j,
                        row: FORMATION_TOP + FORMATION_STRIDE * i,
                    },
                );
                j += 1;
            }
            i += 1;
        }
        let swarm = Invaders { army, heading: Heading::Right, clock: 0 };
        assert(swarm@.army =~= formation());
        swarm
    }

    /// Number of live invaders.
    pub fn count(&self) -> (n: usize)
        ensures
            n == self@.army.len(),
    {
        self.army.len()
    }

    /// Direction of the next sideways move.
    pub fn heading(&self) -> (h: Heading)
        ensures
            h == self@.heading,
    {
        self.heading
    }

    /// Positions of the live invaders, in storage order.
    pub fn positions(&self) -> (spots: Vec<Position>)
        ensures
            spots@.map_values(|p: Position| p@) == self@.army,
    {
        let mut spots: Vec<Position> = Vec::new();
        let mut i: usize = 0;
        while i < self.army.len()
            invariant
                i <= self.army@.len(),
                spots@ == self.army@.take(i as int),
            decreases self.army@.len() - i,
        {
            spots.push(self.army[i]);
            assert(self.army@.take(i as int).push(self.army@[i as int]) =~= self.army@.take(
                i + 1,
            ));
            i += 1;
        }
        assert(spots@ =~= self.army@);
        spots
    }

    /// The accumulated microseconds that the swarm must exceed to move:
    /// the fewer invaders, the sooner.
    pub fn threshold(&self) -> (micros: u64)
        requires
            self.wf(),
        ensures
            micros == self@.threshold(),
    {
        MOVE_FLOOR + MOVE_PER_INVADER * (self.army.len() as u64)
    }

    /// True exactly when no invader is left.
    pub fn all_killed(&self) -> (won: bool)
        ensures
            won == self@.all_killed(),
            won == (self@.army.len() == 0),
    {
        self.army.len() == 0
    }

    /// True exactly when some invader has reached the bottom row, that is
    /// when the lowest invader's row is at least `BOTTOM_ROW`.
    pub fn reached_bottom(&self) -> (lost: bool)
        ensures
            lost == self@.reached_bottom(),
            lost == (lowest_row(self@.army) >= BOTTOM_ROW),
    {
        proof {
            lemma_lowest_row(self@.army);
        }
        let mut i: usize = 0;
        while i < self.army.len()
            invariant
                i <= self.army@.len(),
                at_bottom(self@.army) <==> lowest_row(self@.army) >= BOTTOM_ROW,
                forall|k: int| 0 <= k < i ==> (#[trigger] self@.army[k]).row < BOTTOM_ROW,
            decreases self.army@.len() - i,
        {
            if self.army[i].row >= BOTTOM_ROW {
                assert(self@.army[i as int].row >= BOTTOM_ROW);
                return true;
            }
            i += 1;
        }
        false
    }

    /// Whether a sideways move would carry some invader out of the playfield.
    fn is_blocked(&self) -> (blocked: bool)
        requires
            self.wf(),
        ensures
            blocked == self@.blocked(),
    {
        let mut i: usize = 0;
        while i < self.army.len()
            invariant
                i <= self.army@.len(),
                self.wf(),
                forall|k: int| 0 <= k < i ==> !self@.heading.exits((#[trigger] self@.army[k]).col),
            decreases self.army@.len() - i,
        {
            let col = self.army[i].col;
            assert(self@.army[i as int] == self.army@[i as int]@);
            let exits = match self.heading {
                Heading::Left => col == 0,
                Heading::Right => col >= NUM_COLS - 1,
            };
            if exits {
                assert(self@.heading.exits(self@.army[i as int].col));
                return true;
            }
            i += 1;
        }
        false
    }

    /// One discrete move of the whole swarm.
    fn step(&mut self)
        requires
            old(self).wf(),
            old(self)@.above(usize::MAX as int),
        ensures
            final(self)@ == old(self)@.step(),
            final(self).wf(),
    {
        let blocked = self.is_blocked();
        let heading = self.heading;
        let n = self.army.len();
        let mut i: usize = 0;
        while i < n
            invariant
                i <= n,
                n == self.army@.len(),
                n == old(self).army@.len(),
                self.heading == heading,
                heading == old(self).heading,
                old(self).wf(),
                old(self)@.above(usize::MAX as int),
                blocked == old(self)@.blocked(),
                forall|k: int| i <= k < n ==> self.army@[k] == old(self).army@[k],
                forall|k: int|
                    0 <= k < i ==> (#[trigger] self.army@[k])@ == old(self)@.step().army[k],
            decreases n - i,
        {
            let p = self.army[i];
            assert(p@ == old(self)@.army[i as int]);
            assert(old(self)@.army[i as int].row < usize::MAX);
            assert(!heading.exits(old(self)@.army[i as int].col) || blocked);
            let moved = if blocked {
                Position { col: p.col, row: p.row + 1 }
            } else {
                match heading {
                    Heading::Left => Position { col: p.col - 1, row: p.row },
                    Heading::Right => Position { col: p.col + 1, row: p.row },
                }
            };
            self.army[i] = moved;
            i += 1;
        }
        if blocked {
            self.heading = match heading {
                Heading::Left => Heading::Right,
                Heading::Right => Heading::Left,
            };
        }
        self.clock = 0;
        assert(self@.army =~= old(self)@.step().army);
        assert forall|k: int| 0 <= k < self@.army.len() implies 0 <= (#[trigger] self@.army[k]).col
            < NUM_COLS by {
            assert(0 <= old(self)@.army[k].col < NUM_COLS);
            assert(!heading.exits(old(self)@.army[k].col) || blocked);
        }
    }

    /// Lets `delta` microseconds pass. When the accumulated time exceeds the
    /// threshold, the swarm makes one move and the clock starts again. The
    /// result tells whether it moved. The rows must leave room for a move
    /// down within `usize`; a swarm that was inside the playfield and not yet
    /// on its bottom row is inside the playfield afterwards.
    pub fn update(&mut self, delta: u64) -> (stepped: bool)
        requires
            old(self).wf(),
            old(self)@.above(usize::MAX as int),
        ensures
            stepped == old(self)@.due(delta as nat),
            final(self)@ == old(self)@.tick(delta as nat),
            final(self).wf(),
            old(self)@.on_screen() && !old(self)@.reached_bottom() ==> final(self)@.on_screen(),
            forall|limit: int| #[trigger]
                old(self)@.above(limit) ==> final(self)@.above(limit + 1),
    {
        proof {
            lemma_step_stays_on_screen(self@);
            lemma_step_descends_by_one(self@);
        }
        let threshold = self.threshold();
        if delta > threshold || self.clock > threshold - delta {
            self.step();
            true
        } else {
            self.clock = self.clock + delta;
            false
        }
    }

    /// Removes the first invader at (`col`, `row`), if there is one, and tells
    /// whether it did.
    pub fn kill_invader_at(&mut self, col: usize, row: usize) -> (killed: bool)
        ensures
            killed == old(self)@.army.contains(Point { col: col as int, row: row as int }),
            final(self)@ == old(self)@.without(Point { col: col as int, row: row as int }),
            final(self)@.army.len() == old(self)@.army.len() - if killed { 1int } else { 0int },
            old(self).wf() ==> final(self).wf(),
            old(self)@.on_screen() ==> final(self)@.on_screen(),
    {
        let ghost p = Point { col: col as int, row: row as int };
        let mut i: usize = 0;
        while i < self.army.len()
            invariant
                i <= self.army@.len(),
                *self == *old(self),
                p == (Point { col: col as int, row: row as int }),
                forall|k: int| 0 <= k < i ==> self@.army[k] != p,
            decreases self.army@.len() - i,
        {
            if self.army[i].col == col && self.army[i].row == row {
                assert(self@.army[i as int] == p);
                assert(old(self)@.first_at(p, i as int));
                let ghost chosen = choose|j: int| old(self)@.first_at(p, j);
                assert(chosen == i);
                self.army.remove(i);
                assert(self@.army =~= old(self)@.army.remove(i as int));
                return true;
            }
            i += 1;
        }
        false
    }
}

impl Drawable for Invaders {
    open spec fn fits(&self) -> bool {
        self@.on_screen()
    }

    /// Every cell on which an invader stands shows the invader's glyph.
    open spec fn painted(&self, grid: Grid) -> Grid {
        stamped(grid, self@.army, INVADER_GLYPH@)
    }

    fn draw(&self, frame: &mut Frame) {
        let mut i: usize = 0;
        assert(cells(*frame) =~~= stamped(cells(*frame), self@.army.take(0), INVADER_GLYPH@));
        while i < self.army.len()
            invariant
                i <= self.army@.len(),
                self@.on_screen(),
                is_grid(cells(*old(frame))),
                is_grid(cells(*frame)),
                cells(*frame) == stamped(
                    cells(*old(frame)),
                    self@.army.take(i as int),
                    INVADER_GLYPH@,
                ),
            decreases self.army@.len() - i,
        {
            let p = self.army[i];
            assert(p@ == self@.army[i as int]);
            assert(self@.army[i as int].on_screen());
            proof {
                lemma_stamp_push(
                    cells(*old(frame)),
                    self@.army.take(i as int),
                    p@,
                    INVADER_GLYPH@,
                );
                assert(self@.army.take(i as int).push(p@) =~= self@.army.take(i + 1));
            }
            put(frame, p.col, p.row, INVADER_GLYPH);
            i += 1;
        }
        assert(self@.army.take(i as int) =~= self@.army);
    }
}

/// The fewer invaders, the lower the threshold: the swarm speeds up as it
/// shrinks.
pub proof fn lemma_threshold_monotone(fewer: nat, more: nat)
    requires
        fewer <= more,
    ensures
        move_threshold(fewer) <= move_threshold(more),
        fewer < more ==> move_threshold(fewer) < move_threshold(more),
{
}

/// Where `p` occurs in `army` at `k`, it has a first occurrence.
proof fn lemma_first_occurrence(swarm: Swarm, p: Point, k: int)
    requires
        0 <= k < swarm.army.len(),
        swarm.army[k] == p,
    ensures
        exists|i: int| swarm.first_at(p, i),
    decreases k,
{
    if forall|j: int| 0 <= j < k ==> swarm.army[j] != p {
        assert(swarm.first_at(p, k));
    } else {
        let j = choose|j: int| 0 <= j < k && swarm.army[j] == p;
        lemma_first_occurrence(swarm, p, j);
    }
}

/// Removing the invader at `p` takes out the first one that stands there
/// and no other, leaves a swarm without an invader at `p` as it is, never
/// adds an invader, and never raises the threshold.
pub proof fn lemma_without(swarm: Swarm, p: Point)
    ensures
        swarm.army.contains(p) ==> exists|i: int|
            swarm.first_at(p, i) && swarm.without(p).army == swarm.army.remove(i),
        swarm.army.contains(p) ==> swarm.without(p).army.len() == swarm.army.len() - 1,
        !swarm.army.contains(p) ==> swarm.without(p) == swarm,
        swarm.without(p).heading == swarm.heading,
        swarm.without(p).clock == swarm.clock,
        swarm.wf() ==> swarm.without(p).wf(),
        swarm.on_screen() ==> swarm.without(p).on_screen(),
        swarm.without(p).threshold() <= swarm.threshold(),
{
    if swarm.army.contains(p) {
        let k = choose|k: int| 0 <= k < swarm.army.len() && swarm.army[k] == p;
        lemma_first_occurrence(swarm, p, k);
        let i = choose|i: int| swarm.first_at(p, i);
        assert(swarm.first_at(p, i));
        let left = swarm.army.remove(i);
        assert(swarm.without(p).army == left);
        assert forall|j: int| 0 <= j < left.len() implies (#[trigger] left[j]) == swarm.army[if j
            < i {
            j
        } else {
            j + 1
        }] by {}
    }
}

/// A move takes no invader more than one row down.
pub proof fn lemma_step_descends_by_one(swarm: Swarm)
    ensures
        forall|limit: int| #[trigger] swarm.above(limit) ==> swarm.step().above(limit + 1),
{
    let next = swarm.step();
    assert forall|limit: int| #[trigger] swarm.above(limit) implies next.above(limit + 1) by {
        assert forall|i: int| 0 <= i < next.army.len() implies (#[trigger] next.army[i]).row
            < limit + 1 by {
            assert(swarm.army[i].row < limit);
        }
    }
}

/// A swarm inside the playfield that is not yet on the bottom row is still
/// inside the playfield after a move.
pub proof fn lemma_step_stays_on_screen(swarm: Swarm)
    requires
        swarm.wf(),
    ensures
        swarm.on_screen() && !swarm.reached_bottom() ==> swarm.step().on_screen(),
{
    if swarm.on_screen() && !swarm.reached_bottom() {
        let next = swarm.step();
        assert forall|i: int| 0 <= i < next.army.len() implies (#[trigger] next.army[i]).on_screen() by {
            assert(swarm.army[i].on_screen());
            assert(swarm.army[i].row < BOTTOM_ROW);
            assert(swarm.blocked() || !swarm.heading.exits(swarm.army[i].col));
        }
    }
}

/// A move turns the swarm about and takes it one row down exactly when a
/// sideways move would carry an invader out of the columns of the playfield;
/// otherwise it takes every invader one column further and nothing else.
pub proof fn lemma_step_turns_at_the_edge(swarm: Swarm)
    ensures
        swarm.blocked() <==> exists|i: int|
            0 <= i < swarm.army.len() && !(0 <= (#[trigger] swarm.army[i]).col
                + swarm.heading.dx() < NUM_COLS),
        swarm.step().army.len() == swarm.army.len(),
        swarm.step().clock == 0,
        swarm.blocked() ==> swarm.step().heading == swarm.heading.reversed() && forall|i: int|
            0 <= i < swarm.army.len() ==> (#[trigger] swarm.step().army[i]) == (Point {
                col: swarm.army[i].col,
                row: swarm.army[i].row + 1,
            }),
        !swarm.blocked() ==> swarm.step().heading == swarm.heading && forall|i: int|
            0 <= i < swarm.army.len() ==> (#[trigger] swarm.step().army[i]) == (Point {
                col: swarm.army[i].col + swarm.heading.dx(),
                row: swarm.army[i].row,
            }),
{
    if swarm.blocked() {
        let i = choose|i: int|
            0 <= i < swarm.army.len() && swarm.heading.exits((#[trigger] swarm.army[i]).col);
        assert(!(0 <= swarm.army[i].col + swarm.heading.dx() < NUM_COLS));
    }
    if exists|i: int|
        0 <= i < swarm.army.len() && !(0 <= (#[trigger] swarm.army[i]).col + swarm.heading.dx()
            < NUM_COLS) {
        let i = choose|i: int|
            0 <= i < swarm.army.len() && !(0 <= (#[trigger] swarm.army[i]).col
                + swarm.heading.dx() < NUM_COLS);
        assert(swarm.heading.exits(swarm.army[i].col));
    }
}

/// The lowest row is at least every invader's row and is some invader's row
/// where there is one; so it reaches `BOTTOM_ROW` exactly when some invader
/// does.
pub proof fn lemma_lowest_row(army: Seq<Point>)
    ensures
        forall|i: int| 0 <= i < army.len() ==> (#[trigger] army[i]).row <= lowest_row(army),
        army.len() > 0 ==> exists|i: int|
            0 <= i < army.len() && (#[trigger] army[i]).row == lowest_row(army),
        at_bottom(army) <==> lowest_row(army) >= BOTTOM_ROW,
{
    let heights = rows(army);
    heights.max_ensures();
    assert forall|i: int| 0 <= i < army.len() implies (#[trigger] army[i]).row <= lowest_row(
        army,
    ) by {
        assert(heights[i] == army[i].row);
    }
    if army.len() > 0 {
        let top = choose|i: int| 0 <= i < heights.len() && heights[i] == heights.max();
        assert(army[top].row == lowest_row(army));
    }
}

} // verus!
