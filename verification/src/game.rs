//! The round: what one tick of the game loop decides.

use vstd::prelude::*;
use crate::frame::{blank_grid, cells, new_frame, stamped, Drawable, Frame, Grid, BLANK};
use crate::invaders::{Invaders, Swarm, INVADER_GLYPH};
use crate::player::{clash, Player, Ship, PLAYER_GLYPH};
use crate::shot::SHOT_GLYPH;

verus! {

/// A key of the keyboard, as far as the game tells keys apart.
#[derive(Clone, Copy, Debug, PartialEq, Eq)]
pub enum Key {
    Left,
    Right,
    Esc,
    Char(char),
    Other,
}

/// What a key asks the game to do.
#[derive(Clone, Copy, Debug, PartialEq, Eq, Structural)]
pub enum Command {
    MoveLeft,
    MoveRight,
    Shoot,
    Quit,
    Ignore,
}

/// A sound effect that goes with an event of the game.
#[derive(Clone, Copy, Debug, PartialEq, Eq, Structural)]
pub enum Cue {
    Explode,
    Lose,
    Move,
    Pew,
    Startup,
    Win,
}

/// Whether the round is still on, and how it ended if it is not.
#[derive(Clone, Copy, Debug, PartialEq, Eq, Structural)]
pub enum Status {
    Running,
    Quit,
    Won,
    Lost,
}

/// The command of each key: the arrows move, the space bar shoots, escape
/// and `q` quit, every other key is ignored.
pub open spec fn command_of(key: Key) -> Command {
    match key {
        Key::Left => Command::MoveLeft,
        Key::Right => Command::MoveRight,
        Key::Esc => Command::Quit,
        Key::Char(c) => if c == ' ' {
            Command::Shoot
        } else if c == 'q' {
            Command::Quit
        } else {
            Command::Ignore
        },
        Key::Other => Command::Ignore,
    }
}

/// The name under which each cue's sound is registered.
pub open spec fn cue_name(cue: Cue) -> Seq<char> {
    match cue {
        Cue::Explode => "explode"@,
        Cue::Lose => "lose"@,
        Cue::Move => "move"@,
        Cue::Pew => "pew"@,
        Cue::Startup => "startup"@,
        Cue::Win => "win"@,
    }
}

/// What a run of keys leaves behind.
pub struct Steering {
    /// The ship after the keys.
    pub ship: Ship,
    /// One `Pew` for each projectile that was fired.
    pub cues: Seq<Cue>,
    /// Some key asked to quit.
    pub quit: bool,
}

/// The effect of `keys`, taken in order, on `ship`.
pub open spec fn steered(ship: Ship, keys: Seq<Key>) -> Steering
    decreases keys.len(),
{
    if keys.len() == 0 {
        Steering { ship, cues: Seq::empty(), quit: false }
    } else {
        let so_far = steered(ship, keys.drop_last());
        match command_of(keys.last()) {
            Command::MoveLeft => Steering { ship: so_far.ship.moved_left(), ..so_far },
            Command::MoveRight => Steering { ship: so_far.ship.moved_right(), ..so_far },
            Command::Shoot => Steering {
                ship: so_far.ship.fired(),
                cues: if so_far.ship.ready() {
                    so_far.cues.push(Cue::Pew)
                } else {
                    so_far.cues
                },
                ..so_far
            },
            Command::Quit => Steering { quit: true, ..so_far },
            Command::Ignore => so_far,
        }
    }
}

/// How a round stands once the keys are handled and time has passed: a
/// request to quit comes first, then a cleared screen, then the swarm on the
/// bottom row.
pub open spec fn verdict(quit: bool, swarm: Swarm) -> Status {
    if quit {
        Status::Quit
    } else if swarm.all_killed() {
        Status::Won
    } else if swarm.reached_bottom() {
        Status::Lost
    } else {
        Status::Running
    }
}

/// The cue that goes with the end of a round.
pub open spec fn closing_cues(status: Status) -> Seq<Cue> {
    match status {
        Status::Running => Seq::empty(),
        Status::Quit => seq![Cue::Lose],
        Status::Won => seq![Cue::Win],
        Status::Lost => seq![Cue::Lose],
    }
}

/// A round as a mathematical value.
pub struct Round {
    pub ship: Ship,
    pub swarm: Swarm,
    pub status: Status,
}

/// What one tick produces.
pub struct Turn {
    /// The round after the tick.
    pub round: Round,
    /// The cues to play, in order.
    pub cues: Seq<Cue>,
    /// The screen to show.
    pub grid: Grid,
}

impl Round {
    /// The round before its first tick.
    pub open spec fn initial() -> Round {
        Round { ship: Ship::initial(), swarm: Swarm::initial(), status: Status::Running }
    }

    /// Ship and swarm are well formed and inside the playfield, and in a
    /// round that is still on no invader stands on the bottom row.
    pub open spec fn wf(self) -> bool {
        &&& self.ship.wf()
        &&& self.swarm.wf()
        &&& self.swarm.on_screen()
        &&& self.status == Status::Running ==> !self.swarm.reached_bottom()
    }

    /// The screen that shows the round: the ship and its projectiles, and
    /// over them the invaders.
    pub open spec fn grid(self) -> Grid {
        stamped(self.ship.painted(blank_grid()), self.swarm.army, INVADER_GLYPH@)
    }

    /// One tick of a round: the keys steer the ship, `delta` microseconds
    /// pass for ship and swarm, projectiles and invaders clash, and the round
    /// is judged. A round that is over does not change any more.
    pub open spec fn tick(self, delta: nat, keys: Seq<Key>) -> Turn {
        if self.status != Status::Running {
            Turn { round: self, cues: Seq::empty(), grid: self.grid() }
        } else {
            let steering = steered(self.ship, keys);
            let flown = steering.ship.after(delta);
            let marched = self.swarm.tick(delta);
            let (shots, swarm) = clash(flown.shots, marched);
            let status = verdict(steering.quit, swarm);
            let round = Round { ship: Ship { shots, ..flown }, swarm, status };
            Turn {
                round,
                cues: steering.cues + (if self.swarm.due(delta) {
                    seq![Cue::Move]
                } else {
                    Seq::empty()
                }) + (if swarm.army.len() < marched.army.len() {
                    seq![Cue::Explode]
                } else {
                    Seq::empty()
                }) + closing_cues(status),
                grid: round.grid(),
            }
        }
    }
}

/// What a tick hands to the loop around the game.
pub struct Tick {
    /// The screen to send to the renderer.
    pub frame: Frame,
    /// The cues to play, in order.
    pub cues: Vec<Cue>,
    /// Where the round stands after the tick.
    pub status: Status,
}

/// A round of the game.
#[derive(Clone, Debug)]
pub struct Game {
    player: Player,
    invaders: Invaders,
    status: Status,
}

impl View for Game {
    type V = Round;

    closed spec fn view(&self) -> Round {
        Round { ship: self.player@, swarm: self.invaders@, status: self.status }
    }
}

/// The command that `key` stands for.
pub fn command_for(key: Key) -> (command: Command)
    ensures
        command == command_of(key),
{
    match key {
        Key::Left => Command::MoveLeft,
        Key::Right => Command::MoveRight,
        Key::Esc => Command::Quit,
        Key::Char(c) => if c == ' ' {
            Command::Shoot
        } else if c == 'q' {
            Command::Quit
        } else {
            Command::Ignore
        },
        Key::Other => Command::Ignore,
    }
}

impl Cue {
    /// The name under which the cue's sound is registered.
    pub fn name(&self) -> (name: &'static str)
        ensures
            name@ == cue_name(*self),
    {
        match self {
            Cue::Explode => "explode",
            Cue::Lose => "lose",
            Cue::Move => "move",
            Cue::Pew => "pew",
            Cue::Startup => "startup",
            Cue::Win => "win",
        }
    }

    /// The six cues of the game.
    pub fn all() -> (cues: Vec<Cue>)
        ensures
            cues@ == seq![Cue::Explode, Cue::Lose, Cue::Move, Cue::Pew, Cue::Startup, Cue::Win],
            forall|cue: Cue| cues@.contains(cue),
    {
        let mut cues: Vec<Cue> = Vec::new();
        cues.push(Cue::Explode);
        cues.push(Cue::Lose);
        cues.push(Cue::Move);
        cues.push(Cue::Pew);
        cues.push(Cue::Startup);
        cues.push(Cue::Win);
        assert(cues@ =~= seq![Cue::Explode, Cue::Lose, Cue::Move, Cue::Pew, Cue::Startup, Cue::Win]);
        assert forall|cue: Cue| cues@.contains(cue) by {
            match cue {
                Cue::Explode => assert(cues@[0] == cue),
                Cue::Lose => assert(cues@[1] == cue),
                Cue::Move => assert(cues@[2] == cue),
                Cue::Pew => assert(cues@[3] == cue),
                Cue::Startup => assert(cues@[4] == cue),
                Cue::Win => assert(cues@[5] == cue),
            }
        }
        cues
    }
}

impl Game {
    /// The invariant of a round.
    pub open spec fn wf(&self) -> bool {
        self@.wf()
    }

    /// A new round: ship and swarm at their starting positions.
    pub fn new() -> (game: Game)
        ensures
            game@ == Round::initial(),
            game.wf(),
    {
        Game { player: Player::new(), invaders: Invaders::new(), status: Status::Running }
    }

    /// Where the round stands.
    pub fn status(&self) -> (status: Status)
        ensures
            status == self@.status,
    {
        self.status
    }

    /// The player's ship.
    pub fn player(&self) -> (player: &Player)
        ensures
            player@ == self@.ship,
    {
        &self.player
    }

    /// The swarm.
    pub fn invaders(&self) -> (invaders: &Invaders)
        ensures
            invaders@ == self@.swarm,
    {
        &self.invaders
    }

    /// A fresh frame with the ship, its projectiles and, over them, the
    /// invaders painted on it.
    pub fn render(&self) -> (frame: Frame)
        requires
            self@.ship.wf(),
            self@.swarm.on_screen(),
        ensures
            cells(frame) == self@.grid(),
    {
        let mut frame = new_frame();
        self.player.draw(&mut frame);
        self.invaders.draw(&mut frame);
        frame
    }

    /// Steers the ship by `keys`, taken in order. The result holds a `Pew`
    /// for each projectile fired and tells whether a key asked to quit.
    fn steer(&mut self, keys: &Vec<Key>) -> (out: (Vec<Cue>, bool))
        requires
            old(self).wf(),
        ensures
            final(self)@ == (Round { ship: steered(old(self)@.ship, keys@).ship, ..old(self)@ }),
            out.0@ == steered(old(self)@.ship, keys@).cues,
            out.1 == steered(old(self)@.ship, keys@).quit,
            final(self).wf(),
    {
        let mut cues: Vec<Cue> = Vec::new();
        let mut quit = false;
        let mut i: usize = 0;
        assert(keys@.take(0) =~= Seq::<Key>::empty());
        while i < keys.len()
            invariant
                i <= keys@.len(),
                self.wf(),
                self@.swarm == old(self)@.swarm,
                self@.status == old(self)@.status,
                self@.ship == steered(old(self)@.ship, keys@.take(i as int)).ship,
                cues@ == steered(old(self)@.ship, keys@.take(i as int)).cues,
                quit == steered(old(self)@.ship, keys@.take(i as int)).quit,
            decreases keys@.len() - i,
        {
            assert(keys@.take(i + 1).drop_last() =~= keys@.take(i as int));
            assert(keys@.take(i + 1).last() == keys@[i as int]);
            match command_for(keys[i]) {
                Command::MoveLeft => self.player.move_left(),
                Command::MoveRight => self.player.move_right(),
                Command::Shoot => {
                    if self.player.shoot() {
                        cues.push(Cue::Pew);
                    }
                },
                Command::Quit => {
                    quit = true;
                },
                Command::Ignore => {},
            }
            i += 1;
        }
        assert(keys@.take(i as int) =~= keys@);
        (cues, quit)
    }

    /// One tick of the game loop, but for what is read and sent: the keys
    /// that were pressed steer the ship, `delta` microseconds pass, hits are
    /// resolved, the screen is painted and the round is judged. A round that
    /// is over stays as it is.
    pub fn tick(&mut self, delta: u64, keys: &Vec<Key>) -> (out: Tick)
        requires
            old(self).wf(),
        ensures
            final(self)@ == old(self)@.tick(delta as nat, keys@).round,
            out.cues@ == old(self)@.tick(delta as nat, keys@).cues,
            cells(out.frame) == old(self)@.tick(delta as nat, keys@).grid,
            out.status == final(self)@.status,
            final(self).wf(),
    {
        if self.status != Status::Running {
            return Tick { frame: self.render(), cues: Vec::new(), status: self.status };
        }
        let (mut cues, quit) = self.steer(keys);
        self.player.update(delta);
        if self.invaders.update(delta) {
            cues.push(Cue::Move);
        }
        if self.player.detect_hits(&mut self.invaders) {
            cues.push(Cue::Explode);
        }
        let frame = self.render();
        if quit {
            self.status = Status::Quit;
            cues.push(Cue::Lose);
        } else if self.invaders.all_killed() {
            self.status = Status::Won;
            cues.push(Cue::Win);
        } else if self.invaders.reached_bottom() {
            self.status = Status::Lost;
            cues.push(Cue::Lose);
        }
        Tick { frame, cues, status: self.status }
    }
}

/// The six cues are registered under six different names.
pub proof fn lemma_cue_names_differ(a: Cue, b: Cue)
    requires
        a != b,
    ensures
        cue_name(a) != cue_name(b),
{
    reveal_strlit("explode");
    reveal_strlit("lose");
    reveal_strlit("move");
    reveal_strlit("pew");
    reveal_strlit("startup");
    reveal_strlit("win");
    assert(cue_name(Cue::Explode).len() == 7 && cue_name(Cue::Explode)[0] == 'e');
    assert(cue_name(Cue::Lose).len() == 4 && cue_name(Cue::Lose)[0] == 'l');
    assert(cue_name(Cue::Move).len() == 4 && cue_name(Cue::Move)[0] == 'm');
    assert(cue_name(Cue::Pew).len() == 3);
    assert(cue_name(Cue::Startup).len() == 7 && cue_name(Cue::Startup)[0] == 's');
    assert(cue_name(Cue::Win).len() == 3 && cue_name(Cue::Win)[0] == 'w');
    assert(cue_name(Cue::Pew)[0] == 'p');
}

/// Ship, projectile and invader look different from one another and from
/// an empty cell.
pub proof fn lemma_glyphs_differ()
    ensures
        BLANK@ == seq![' '],
        PLAYER_GLYPH@ == seq!['A'],
        SHOT_GLYPH@ == seq!['|'],
        INVADER_GLYPH@ == seq!['x'],
{
    reveal_strlit(" ");
    reveal_strlit("A");
    reveal_strlit("|");
    reveal_strlit("x");
    assert(BLANK@ =~= seq![' ']);
    assert(PLAYER_GLYPH@ =~= seq!['A']);
    assert(SHOT_GLYPH@ =~= seq!['|']);
    assert(INVADER_GLYPH@ =~= seq!['x']);
}

} // verus!
