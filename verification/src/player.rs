//! The player's ship: it moves along the bottom row and fires upward.

use vstd::prelude::*;
use crate::frame::{cells, is_grid, lemma_stamp_push, put, stamped, with_cell, Drawable, Frame, Grid, Point, Position};
use crate::invaders::{lemma_without, Invaders, Swarm};
use crate::shot::{flights, flown, spots, Projectile, Shot, SHOT_GLYPH};
use crate::{NUM_COLS, NUM_ROWS};

verus! {

/// Microseconds that must pass after a shot before the next one.
pub const SHOT_COOLDOWN: u64 = 500_000;

/// What the player's ship looks like on the screen.
pub const PLAYER_GLYPH: &'static str = "A";

/// The player's ship as a mathematical value.
pub struct Ship {
    pub col: int,
    pub row: int,
    /// Microseconds left until the ship may fire again.
    pub cooldown: nat,
    /// The projectiles in flight, oldest first.
    pub shots: Seq<Projectile>,
}

impl Ship {
    /// The ship at the start of a round: mid-screen on the bottom row,
    /// ready to fire, nothing in flight.
    pub open spec fn initial() -> Ship {
        Ship { col: NUM_COLS as int / 2, row: NUM_ROWS - 1, cooldown: 0, shots: Seq::empty() }
    }

    /// The ship and its projectiles are inside the playfield, and the
    /// cooldown is no longer than a full one.
    pub open spec fn wf(self) -> bool {
        &&& 0 <= self.col < NUM_COLS
        &&& 0 <= self.row < NUM_ROWS
        &&& self.cooldown <= SHOT_COOLDOWN
        &&& forall|i: int| 0 <= i < self.shots.len() ==> (#[trigger] self.shots[i]).wf()
    }

    /// The cell on which the ship stands.
    pub open spec fn spot(self) -> Point {
        Point { col: self.col, row: self.row }
    }

    /// One column to the left, unless already on the left edge.
    pub open spec fn moved_left(self) -> Ship {
        if self.col > 0 {
            Ship { col: self.col - 1, ..self }
        } else {
            self
        }
    }

    /// One column to the right, unless already on the right edge.
    pub open spec fn moved_right(self) -> Ship {
        if self.col < NUM_COLS - 1 {
            Ship { col: self.col + 1, ..self }
        } else {
            self
        }
    }

    /// The cooldown has elapsed.
    pub open spec fn ready(self) -> bool {
        self.cooldown == 0
    }

    /// The ship after the trigger is pulled: where it is ready, one new
    /// projectile at its position and a full cooldown; otherwise no change.
    pub open spec fn fired(self) -> Ship {
        if self.ready() {
            Ship {
                cooldown: SHOT_COOLDOWN as nat,
                shots: self.shots.push(Projectile::launched(self.col, self.row)),
                ..self
            }
        } else {
            self
        }
    }

    /// The ship `delta` microseconds later: the cooldown that much nearer to
    /// zero, every projectile further up, those that left the playfield gone.
    pub open spec fn after(self, delta: nat) -> Ship {
        Ship {
            cooldown: if delta >= self.cooldown {
                0
            } else {
                (self.cooldown - delta) as nat
            },
            shots: flown(self.shots, delta),
            ..self
        }
    }

    /// The grid with the ship on it and, over that, its projectiles.
    pub open spec fn painted(self, grid: Grid) -> Grid {
        stamped(
            with_cell(grid, self.col, self.row, PLAYER_GLYPH@),
            spots(self.shots),
            SHOT_GLYPH@,
        )
    }
}

/// Projectiles against invaders. The projectiles are taken in their order;
/// each one that shares a cell with an invader is removed together with the
/// first such invader. The result holds the projectiles and the swarm that
/// are left.
pub open spec fn clash(shots: Seq<Projectile>, swarm: Swarm) -> (Seq<Projectile>, Swarm)
    decreases shots.len(),
{
    if shots.len() == 0 {
        (Seq::empty(), swarm)
    } else {
        let (kept, rest) = clash(shots.drop_last(), swarm);
        let shot = shots.last();
        if rest.army.contains(shot.spot()) {
            (kept, rest.without(shot.spot()))
        } else {
            (kept.push(shot), rest)
        }
    }
}

/// The player's ship.
#[derive(Clone, Debug)]
pub struct Player {
    col: usize,
    row: usize,
    cooldown: u64,
    shots: Vec<Shot>,
}

impl View for Player {
    type V = Ship;

    closed spec fn view(&self) -> Ship {
        Ship {
            col: self.col as int,
            row: self.row as int,
            cooldown: self.cooldown as nat,
            shots: flights(self.shots@),
        }
    }
}

impl Player {
    /// The invariant of a ship in play.
    pub open spec fn wf(&self) -> bool {
        self@.wf()
    }

    /// A ship mid-screen on the bottom row, ready to fire.
    pub fn new() -> (player: Player)
        ensures
            player@ == Ship::initial(),
            player.wf(),
    {
        let player = Player { col: NUM_COLS / 2, row: NUM_ROWS - 1, cooldown: 0, shots: Vec::new() };
        assert(player@.shots =~= Seq::<Projectile>::empty());
        player
    }

    /// The cell on which the ship stands.
    pub fn position(&self) -> (p: Position)
        ensures
            p@ == self@.spot(),
    {
        Position { col: self.col, row: self.row }
    }

    /// Microseconds left until the ship may fire again.
    pub fn cooldown(&self) -> (micros: u64)
        ensures
            micros == self@.cooldown,
    {
        self.cooldown
    }

    /// The projectiles in flight, oldest first.
    pub fn shots(&self) -> (shots: Vec<Shot>)
        ensures
            flights(shots@) == self@.shots,
    {
        let mut shots: Vec<Shot> = Vec::new();
        let mut i: usize = 0;
        while i < self.shots.len()
            invariant
                i <= self.shots@.len(),
                shots@ == self.shots@.take(i as int),
            decreases self.shots@.len() - i,
        {
            shots.push(self.shots[i]);
            assert(self.shots@.take(i as int).push(self.shots@[i as int]) =~= self.shots@.take(
                i + 1,
            ));
            i += 1;
        }
        assert(shots@ =~= self.shots@);
        shots
    }

    /// Moves one column to the left; stays where it is on the left edge.
    pub fn move_left(&mut self)
        requires
            old(self).wf(),
        ensures
            final(self)@ == old(self)@.moved_left(),
            0 <= final(self)@.col < NUM_COLS,
            final(self).wf(),
    {
        if self.col > 0 {
            self.col -= 1;
        }
    }

    /// Moves one column to the right; stays where it is on the right edge.
    pub fn move_right(&mut self)
        requires
            old(self).wf(),
        ensures
            final(self)@ == old(self)@.moved_right(),
            0 <= final(self)@.col < NUM_COLS,
            final(self).wf(),
    {
        if self.col < NUM_COLS - 1 {
            self.col += 1;
        }
        assert(self@.shots == old(self)@.shots);
    }

    /// Fires where the cooldown has elapsed: one new projectile at the ship's
    /// position, and the cooldown starts again. Otherwise nothing happens.
    /// The result tells whether a projectile was fired.
    pub fn shoot(&mut self) -> (fired: bool)
        requires
            old(self).wf(),
        ensures
            fired == old(self)@.ready(),
            final(self)@ == old(self)@.fired(),
            final(self).wf(),
    {
        if self.cooldown == 0 {
            let shot = Shot::launch(self.col, self.row);
            self.shots.push(shot);
            self.cooldown = SHOT_COOLDOWN;
            assert(self@.shots =~= old(self)@.shots.push(shot@));
            true
        } else {
            false
        }
    }

    /// Lets `delta` microseconds pass: the cooldown runs down, every
    /// projectile climbs by its speed times `delta`, and those that leave
    /// the playfield through the top are removed.
    pub fn update(&mut self, delta: u64)
        requires
            old(self).wf(),
        ensures
            final(self)@ == old(self)@.after(delta as nat),
            final(self).wf(),
    {
        let mut kept: Vec<Shot> = Vec::new();
        let mut i: usize = 0;
        assert(flights(self.shots@).take(0) =~= Seq::<Projectile>::empty());
        while i < self.shots.len()
            invariant
                i <= self.shots@.len(),
                self.wf(),
                flights(kept@) == flown(flights(self.shots@).take(i as int), delta as nat),
                forall|k: int| 0 <= k < kept@.len() ==> (#[trigger] flights(kept@)[k]).wf(),
            decreases self.shots@.len() - i,
        {
            let ghost before = flights(self.shots@).take(i as int);
            let ghost now = flights(self.shots@).take(i + 1);
            assert(now.drop_last() =~= before);
            assert(now.last() == self.shots@[i as int]@);
            assert(self@.shots[i as int].wf());
            let ghost old_kept = flights(kept@);
            match self.shots[i].advance(delta) {
                Some(shot) => {
                    kept.push(shot);
                    assert(flights(kept@) =~= old_kept.push(shot@));
                },
                None => {},
            }
            i += 1;
        }
        assert(flights(self.shots@).take(i as int) =~= flights(self.shots@));
        self.cooldown = if delta >= self.cooldown {
            0
        } else {
            self.cooldown - delta
        };
        self.shots = kept;
    }

    /// Tests every projectile, in order, against the swarm. A projectile in
    /// the cell of a live invader is removed together with the first such
    /// invader. The result tells whether anything was hit.
    pub fn detect_hits(&mut self, invaders: &mut Invaders) -> (hit: bool)
        requires
            old(self).wf(),
            old(invaders).wf(),
        ensures
            final(self)@ == (Ship {
                shots: clash(old(self)@.shots, old(invaders)@).0,
                ..old(self)@
            }),
            final(invaders)@ == clash(old(self)@.shots, old(invaders)@).1,
            hit == (final(invaders)@.army.len() < old(invaders)@.army.len()),
            final(self).wf(),
            final(invaders).wf(),
            old(invaders)@.on_screen() ==> final(invaders)@.on_screen(),
    {
        let mut kept: Vec<Shot> = Vec::new();
        let mut hit = false;
        let mut i: usize = 0;
        assert(flights(self.shots@).take(0) =~= Seq::<Projectile>::empty());
        assert(flights(kept@) =~= Seq::<Projectile>::empty());
        while i < self.shots.len()
            invariant
                i <= self.shots@.len(),
                self.wf(),
                invaders.wf(),
                old(invaders).wf(),
                old(invaders)@.on_screen() ==> invaders@.on_screen(),
                (flights(kept@), invaders@) == clash(
                    flights(self.shots@).take(i as int),
                    old(invaders)@,
                ),
                invaders@.army.len() <= old(invaders)@.army.len(),
                hit == (invaders@.army.len() < old(invaders)@.army.len()),
                forall|k: int| 0 <= k < kept@.len() ==> (#[trigger] flights(kept@)[k]).wf(),
            decreases self.shots@.len() - i,
        {
            let ghost before = flights(self.shots@).take(i as int);
            let ghost now = flights(self.shots@).take(i + 1);
            assert(now.drop_last() =~= before);
            assert(now.last() == self.shots@[i as int]@);
            assert(self@.shots[i as int].wf());
            let ghost old_kept = flights(kept@);
            let shot = self.shots[i];
            let p = shot.position();
            assert(p@ == (Point { col: p.col as int, row: p.row as int }));
            if invaders.kill_invader_at(p.col, p.row) {
                hit = true;
            } else {
                kept.push(shot);
                assert(flights(kept@) =~= old_kept.push(shot@));
            }
            i += 1;
        }
        assert(flights(self.shots@).take(i as int) =~= flights(self.shots@));
        self.shots = kept;
        hit
    }
}

impl Drawable for Player {
    open spec fn fits(&self) -> bool {
        self.wf()
    }

    /// The ship's glyph on its cell and, over that, a projectile glyph on
    /// the cell of every projectile.
    open spec fn painted(&self, grid: Grid) -> Grid {
        self@.painted(grid)
    }

    fn draw(&self, frame: &mut Frame) {
        put(frame, self.col, self.row, PLAYER_GLYPH);
        let ghost base = cells(*frame);
        let ghost marks = spots(self@.shots);
        assert(base =~~= stamped(base, marks.take(0), SHOT_GLYPH@));
        let mut i: usize = 0;
        while i < self.shots.len()
            invariant
                i <= self.shots@.len(),
                self.wf(),
                marks == spots(self@.shots),
                is_grid(base),
                is_grid(cells(*frame)),
                cells(*frame) == stamped(base, marks.take(i as int), SHOT_GLYPH@),
            decreases self.shots@.len() - i,
        {
            assert(self@.shots[i as int].wf());
            assert(self@.shots[i as int] == self.shots@[i as int]@);
            let p = self.shots[i].position();
            proof {
                lemma_stamp_push(base, marks.take(i as int), p@, SHOT_GLYPH@);
                assert(marks.take(i as int).push(p@) =~= marks.take(i + 1));
            }
            put(frame, p.col, p.row, SHOT_GLYPH);
            i += 1;
        }
        assert(marks.take(i as int) =~= marks);
    }
}

/// A clash takes out projectiles and invaders in pairs that share a cell:
/// as many invaders go as projectiles, at most one for each projectile, and
/// the cells of the invaders that go are, one for one, the cells of the
/// projectiles that go. So an invader is only ever removed from a cell in
/// which a projectile was when the clash began.
pub proof fn lemma_clash_pairs(shots: Seq<Projectile>, swarm: Swarm)
    ensures
        ({
            let (kept, rest) = clash(shots, swarm);
            &&& kept.len() <= shots.len()
            &&& swarm.army.len() - rest.army.len() == shots.len() - kept.len()
            &&& rest.heading == swarm.heading
            &&& rest.clock == swarm.clock
            &&& swarm.army.to_multiset().add(spots(kept).to_multiset())
                == rest.army.to_multiset().add(spots(shots).to_multiset())
            &&& forall|p: Point|
                rest.army.to_multiset().count(p) < swarm.army.to_multiset().count(p)
                    ==> spots(shots).contains(p)
        }),
    decreases shots.len(),
{
    broadcast use vstd::multiset::group_multiset_axioms;
    broadcast use vstd::seq_lib::group_to_multiset_ensures;

    let (kept, rest) = clash(shots, swarm);
    if shots.len() == 0 {
        assert(spots(shots) =~= Seq::<Point>::empty());
        assert(spots(kept) =~= Seq::<Point>::empty());
    } else {
        let front = shots.drop_last();
        let shot = shots.last();
        let p = shot.spot();
        let (kept0, rest0) = clash(front, swarm);
        lemma_clash_pairs(front, swarm);
        assert(spots(shots) =~= spots(front).push(p));
        lemma_without(rest0, p);
        spots(front).to_multiset_ensures();
        assert(spots(shots).to_multiset() =~= spots(front).to_multiset().insert(p));
        if rest0.army.contains(p) {
            let i = choose|i: int|
                rest0.first_at(p, i) && rest0.without(p).army == rest0.army.remove(i);
            assert(rest.army == rest0.army.remove(i));
            assert(rest0.army[i] == p);
            rest0.army.to_multiset_ensures();
            assert(rest.army.to_multiset() =~= rest0.army.to_multiset().remove(p));
            assert(rest0.army.to_multiset().count(p) > 0);
        } else {
            assert(spots(kept) =~= spots(kept0).push(p));
            spots(kept0).to_multiset_ensures();
            assert(spots(kept).to_multiset() =~= spots(kept0).to_multiset().insert(p));
        }
        let before = swarm.army.to_multiset();
        assert forall|q: Point|
            before.add(spots(kept).to_multiset()).count(q) == rest.army.to_multiset().add(
                spots(shots).to_multiset(),
            ).count(q) by {
            assert(before.add(spots(kept0).to_multiset()).count(q)
                == rest0.army.to_multiset().add(spots(front).to_multiset()).count(q));
            assert(spots(shots).to_multiset().count(q) == spots(front).to_multiset().insert(
                p,
            ).count(q));
            if rest0.army.contains(p) {
                assert(rest.army.to_multiset().count(q) == rest0.army.to_multiset().remove(
                    p,
                ).count(q));
            } else {
                assert(spots(kept).to_multiset().count(q) == spots(kept0).to_multiset().insert(
                    p,
                ).count(q));
            }
        }
        assert(before.add(spots(kept).to_multiset()) =~= rest.army.to_multiset().add(
            spots(shots).to_multiset(),
        ));
    }
    assert forall|q: Point|
        rest.army.to_multiset().count(q) < swarm.army.to_multiset().count(
            q,
        ) implies spots(shots).contains(q) by {
        assert(swarm.army.to_multiset().add(spots(kept).to_multiset()).count(q)
            == rest.army.to_multiset().add(spots(shots).to_multiset()).count(q));
        assert(spots(shots).to_multiset().count(q) > 0);
    }
}

/// Neither move ever takes the ship out of the columns of the playfield.
pub proof fn lemma_moves_stay_on_screen(ship: Ship)
    requires
        0 <= ship.col < NUM_COLS,
    ensures
        0 <= ship.moved_left().col < NUM_COLS,
        0 <= ship.moved_right().col < NUM_COLS,
{
}

/// Time adds up on the cooldown: two waits count as one of their sum.
pub proof fn lemma_cooldown_adds(ship: Ship, first: nat, second: nat)
    ensures
        ship.after(first).after(second).cooldown == ship.after(first + second).cooldown,
{
}

/// A ship that fires and pulls the trigger again before a full cooldown
/// has passed fires exactly one projectile: the second pull changes nothing.
pub proof fn lemma_one_shot_within_cooldown(ship: Ship, elapsed: nat)
    requires
        ship.ready(),
        elapsed < SHOT_COOLDOWN,
    ensures
        ship.fired().shots == ship.shots.push(Projectile::launched(ship.col, ship.row)),
        !ship.fired().after(elapsed).ready(),
        ship.fired().after(elapsed).fired() == ship.fired().after(elapsed),
        ship.fired().fired() == ship.fired(),
{
}

/// A ship that fires, waits a full cooldown or longer and pulls the trigger
/// again fires a second projectile.
pub proof fn lemma_two_shots_across_cooldown(ship: Ship, elapsed: nat)
    requires
        ship.ready(),
        elapsed >= SHOT_COOLDOWN,
    ensures
        ship.fired().after(elapsed).ready(),
        ship.fired().after(elapsed).fired().shots == ship.fired().after(elapsed).shots.push(
            Projectile::launched(ship.col, ship.row),
        ),
{
}

} // verus!
