//! Why a swarm that loses no invader ends on the bottom row.

use vstd::prelude::*;
use vstd::arithmetic::mul::lemma_mul_inequality;
use crate::invaders::{cols, lemma_lowest_row, lowest_row, rows, Heading, Swarm, BOTTOM_ROW};
use crate::{NUM_COLS, NUM_ROWS};

verus! {

/// The sideways moves that the swarm can make before it touches the wall
/// ahead.
pub open spec fn gap(swarm: Swarm) -> int {
    match swarm.heading {
        Heading::Left => cols(swarm.army).min(),
        Heading::Right => NUM_COLS - 1 - cols(swarm.army).max(),
    }
}

/// A number of moves within which the swarm stands on the bottom row: for
/// each row still to go a full sweep, and the moves to the wall ahead.
pub open spec fn moves_to_bottom(swarm: Swarm) -> int {
    if swarm.reached_bottom() {
        0
    } else {
        (BOTTOM_ROW - lowest_row(swarm.army)) * NUM_COLS + gap(swarm)
    }
}

/// A number of ticks, each of a microsecond or more, within which the swarm
/// makes its next move.
pub open spec fn ticks_to_move(swarm: Swarm) -> int {
    if swarm.clock >= swarm.threshold() {
        1
    } else {
        swarm.threshold() - swarm.clock + 1
    }
}

/// A number of ticks, each of a microsecond or more, within which the swarm
/// stands on the bottom row.
pub open spec fn ticks_to_bottom(swarm: Swarm) -> int {
    if swarm.reached_bottom() {
        0
    } else {
        (moves_to_bottom(swarm) - 1) * (swarm.threshold() + 1) + ticks_to_move(swarm)
    }
}

/// The swarm after `n` moves.
pub open spec fn marched(swarm: Swarm, n: nat) -> Swarm
    decreases n,
{
    if n == 0 {
        swarm
    } else {
        marched(swarm.step(), (n - 1) as nat)
    }
}

/// The swarm after one tick for each of `deltas`, in order, with no invader
/// removed in between.
pub open spec fn run(swarm: Swarm, deltas: Seq<nat>) -> Swarm
    decreases deltas.len(),
{
    if deltas.len() == 0 {
        swarm
    } else {
        run(swarm.tick(deltas.first()), deltas.drop_first())
    }
}

/// An entry that no other exceeds is the maximum.
proof fn lemma_max_is(xs: Seq<int>, i: int)
    requires
        0 <= i < xs.len(),
        forall|j: int| 0 <= j < xs.len() ==> xs[j] <= xs[i],
    ensures
        xs.max() == xs[i],
{
    xs.max_ensures();
    let k = choose|k: int| 0 <= k < xs.len() && xs[k] == xs.max();
    assert(xs[k] <= xs[i]);
}

/// An entry that exceeds no other is the minimum.
proof fn lemma_min_is(xs: Seq<int>, i: int)
    requires
        0 <= i < xs.len(),
        forall|j: int| 0 <= j < xs.len() ==> xs[i] <= xs[j],
    ensures
        xs.min() == xs[i],
{
    xs.min_ensures();
    let k = choose|k: int| 0 <= k < xs.len() && xs[k] == xs.min();
    assert(xs[i] <= xs[k]);
}

/// Adding `d` to every entry adds `d` to the maximum and to the minimum.
proof fn lemma_extrema_shift(xs: Seq<int>, ys: Seq<int>, d: int)
    requires
        xs.len() > 0,
        ys.len() == xs.len(),
        forall|i: int| 0 <= i < xs.len() ==> ys[i] == xs[i] + d,
    ensures
        ys.max() == xs.max() + d,
        ys.min() == xs.min() + d,
{
    xs.max_ensures();
    xs.min_ensures();
    let hi = choose|k: int| 0 <= k < xs.len() && xs[k] == xs.max();
    let lo = choose|k: int| 0 <= k < xs.len() && xs[k] == xs.min();
    lemma_max_is(ys, hi);
    lemma_min_is(ys, lo);
}

/// The wall ahead is between 0 and `NUM_COLS - 1` moves away, and the swarm
/// is blocked exactly when it is 0 moves away.
proof fn lemma_gap(swarm: Swarm)
    requires
        swarm.wf(),
        !swarm.all_killed(),
    ensures
        0 <= gap(swarm) <= NUM_COLS - 1,
        swarm.blocked() <==> gap(swarm) == 0,
{
    let xs = cols(swarm.army);
    xs.max_ensures();
    xs.min_ensures();
    let hi = choose|k: int| 0 <= k < xs.len() && xs[k] == xs.max();
    let lo = choose|k: int| 0 <= k < xs.len() && xs[k] == xs.min();
    assert(xs[hi] == swarm.army[hi].col);
    assert(xs[lo] == swarm.army[lo].col);
    if swarm.blocked() {
        let i = choose|i: int|
            0 <= i < swarm.army.len() && swarm.heading.exits((#[trigger] swarm.army[i]).col);
        assert(xs[i] == swarm.army[i].col);
    }
    if gap(swarm) == 0 {
        match swarm.heading {
            Heading::Left => {
                assert(swarm.heading.exits(swarm.army[lo].col));
            },
            Heading::Right => {
                assert(swarm.heading.exits(swarm.army[hi].col));
            },
        }
    }
}

/// Each move of a swarm that is not yet on the bottom row brings it nearer:
/// no invader is lost, and the bound on the moves to the bottom row goes
/// down.
pub proof fn lemma_step_nears_bottom(swarm: Swarm)
    requires
        swarm.wf(),
        !swarm.all_killed(),
        !swarm.reached_bottom(),
    ensures
        swarm.step().wf(),
        swarm.step().army.len() == swarm.army.len(),
        0 <= moves_to_bottom(swarm.step()) < moves_to_bottom(swarm),
{
    let next = swarm.step();
    lemma_gap(swarm);
    lemma_lowest_row(swarm.army);
    lemma_lowest_row(next.army);
    if swarm.blocked() {
        assert(cols(next.army) =~= cols(swarm.army));
        assert forall|i: int| 0 <= i < next.army.len() implies 0 <= (#[trigger] next.army[i]).col
            < NUM_COLS && next.army[i].row >= 0 by {
            assert(next.army[i].col == swarm.army[i].col);
            assert(next.army[i].row == swarm.army[i].row + 1);
        }
        lemma_extrema_shift(rows(swarm.army), rows(next.army), 1);
        lemma_gap(next);
    } else {
        let d = swarm.heading.dx();
        assert forall|i: int| 0 <= i < next.army.len() implies 0 <= (#[trigger] next.army[i]).col
            < NUM_COLS && next.army[i].row >= 0 by {
            assert(!swarm.heading.exits(swarm.army[i].col));
            assert(next.army[i].col == swarm.army[i].col + d);
            assert(next.army[i].row == swarm.army[i].row);
        }
        assert(rows(next.army) =~= rows(swarm.army));
        lemma_extrema_shift(cols(swarm.army), cols(next.army), d);
        lemma_gap(next);
    }
}

/// A swarm with an invader left stands on the bottom row after `n` moves,
/// for some `n` within the bound.
pub proof fn lemma_march_reaches_bottom(swarm: Swarm) -> (n: nat)
    requires
        swarm.wf(),
        !swarm.all_killed(),
    ensures
        n <= moves_to_bottom(swarm),
        marched(swarm, n).reached_bottom(),
    decreases moves_to_bottom(swarm),
{
    if swarm.reached_bottom() {
        0
    } else {
        lemma_step_nears_bottom(swarm);
        let m = lemma_march_reaches_bottom(swarm.step());
        (m + 1) as nat
    }
}

/// A swarm that is not yet on the bottom row needs a move and a tick or
/// more, and never more moves than a full sweep for every row of the
/// playfield.
pub proof fn lemma_bounds(swarm: Swarm)
    requires
        swarm.wf(),
        !swarm.all_killed(),
    ensures
        0 <= moves_to_bottom(swarm) <= NUM_ROWS * NUM_COLS,
        0 <= ticks_to_bottom(swarm) <= moves_to_bottom(swarm) * (swarm.threshold() + 1),
        !swarm.reached_bottom() ==> moves_to_bottom(swarm) >= 1 && ticks_to_bottom(swarm) >= 1,
{
    if !swarm.reached_bottom() {
        let pace: int = swarm.threshold() as int + 1;
        lemma_gap(swarm);
        lemma_lowest_row(swarm.army);
        let low = choose|i: int|
            0 <= i < swarm.army.len() && (#[trigger] swarm.army[i]).row == lowest_row(swarm.army);
        assert(swarm.army[low].row >= 0);
        lemma_mul_inequality(0, moves_to_bottom(swarm) - 1, pace);
        assert((moves_to_bottom(swarm) - 1) * pace + pace == moves_to_bottom(swarm) * pace)
            by (nonlinear_arith);
    }
}

/// Each tick of a microsecond or more brings a swarm that is not yet on the
/// bottom row nearer to it, as long as no invader is removed.
pub proof fn lemma_tick_nears_bottom(swarm: Swarm, delta: nat)
    requires
        swarm.wf(),
        !swarm.all_killed(),
        !swarm.reached_bottom(),
        delta >= 1,
    ensures
        swarm.tick(delta).wf(),
        swarm.tick(delta).army.len() == swarm.army.len(),
        0 <= ticks_to_bottom(swarm.tick(delta)) < ticks_to_bottom(swarm),
{
    let next = swarm.tick(delta);
    let pace: int = swarm.threshold() as int + 1;
    lemma_bounds(swarm);
    if swarm.due(delta) {
        lemma_step_nears_bottom(swarm);
        assert(next.threshold() == swarm.threshold());
        lemma_bounds(next);
        if !next.reached_bottom() {
            lemma_mul_inequality(moves_to_bottom(next), moves_to_bottom(swarm) - 1, pace);
            assert((moves_to_bottom(next) - 1) * pace + pace == moves_to_bottom(next) * pace)
                by (nonlinear_arith);
        }
    } else {
        assert(next.army == swarm.army);
        assert(next.reached_bottom() == swarm.reached_bottom());
        assert(moves_to_bottom(next) == moves_to_bottom(swarm));
    }
}

/// A swarm with an invader left, from which none is removed, reaches the
/// bottom row: where every tick lasts a microsecond or more and there are
/// `ticks_to_bottom` of them, the swarm stands on the bottom row after the
/// first `k`, for some `k`.
pub proof fn lemma_bottom_is_reached(swarm: Swarm, deltas: Seq<nat>) -> (k: nat)
    requires
        swarm.wf(),
        !swarm.all_killed(),
        forall|i: int| 0 <= i < deltas.len() ==> deltas[i] >= 1,
        deltas.len() >= ticks_to_bottom(swarm),
    ensures
        k <= deltas.len(),
        k <= ticks_to_bottom(swarm),
        run(swarm, deltas.take(k as int)).reached_bottom(),
    decreases deltas.len(),
{
    if swarm.reached_bottom() {
        assert(deltas.take(0).len() == 0);
        0
    } else {
        lemma_bounds(swarm);
        lemma_tick_nears_bottom(swarm, deltas[0]);
        let rest = deltas.drop_first();
        let j = lemma_bottom_is_reached(swarm.tick(deltas[0]), rest);
        let k = (j + 1) as nat;
        assert(deltas.take(k as int).first() == deltas[0]);
        assert(deltas.take(k as int).drop_first() =~= rest.take(j as int));
        k
    }
}

/// The round is lost unless the player acts: from the starting formation,
/// with no invader removed and every tick a microsecond or longer, the swarm
/// stands on the bottom row after some of the first `ticks_to_bottom` ticks.
pub proof fn lemma_formation_reaches_bottom(deltas: Seq<nat>) -> (k: nat)
    requires
        forall|i: int| 0 <= i < deltas.len() ==> deltas[i] >= 1,
        deltas.len() >= ticks_to_bottom(Swarm::initial()),
    ensures
        k <= deltas.len(),
        run(Swarm::initial(), deltas.take(k as int)).reached_bottom(),
{
    let swarm = Swarm::initial();
    assert(swarm.army[0].col == 2);
    lemma_bottom_is_reached(swarm, deltas)
}

} // verus!
