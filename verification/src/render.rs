//! The renderer's plan: which cells of the screen have to be written again.

use vstd::prelude::*;
use crate::frame::{cells, is_grid, same_text, Frame, Grid};
use crate::{NUM_COLS, NUM_ROWS};

verus! {

/// One instruction for the terminal: move to (`col`, `row`) and write `glyph`.
#[derive(Clone, Copy, Debug, PartialEq, Eq)]
pub struct CellWrite {
    pub col: usize,
    pub row: usize,
    pub glyph: &'static str,
}

/// An instruction as a mathematical value.
pub struct Write {
    pub col: int,
    pub row: int,
    pub text: Seq<char>,
}

impl View for CellWrite {
    type V = Write;

    open spec fn view(&self) -> Write {
        Write { col: self.col as int, row: self.row as int, text: self.glyph@ }
    }
}

/// The mathematical values of a list of instructions.
pub open spec fn plan(writes: Seq<CellWrite>) -> Seq<Write> {
    writes.map_values(|w: CellWrite| w@)
}

/// The cell at (`col`, `row`) has to be written: its content changed, or
/// everything is drawn afresh.
pub open spec fn stale(last: Grid, curr: Grid, force: bool, col: int, row: int) -> bool {
    force || last[col][row] != curr[col][row]
}

/// The cell (`col`, `row`) comes before the cell (`c`, `r`) in the order in
/// which the screen is walked: column by column, each from the top.
pub open spec fn precedes(col: int, row: int, c: int, r: int) -> bool {
    col < c || (col == c && row < r)
}

/// `writes` is the minimal update from `last` to `curr`: each instruction
/// writes the current content of a stale cell of the screen, every stale cell
/// has its instruction, and the instructions walk the screen in order, so
/// that no cell is written twice.
pub open spec fn is_update(writes: Seq<Write>, last: Grid, curr: Grid, force: bool) -> bool {
    &&& forall|i: int|
        0 <= i < writes.len() ==> {
            let w = #[trigger] writes[i];
            &&& 0 <= w.col < NUM_COLS
            &&& 0 <= w.row < NUM_ROWS
            &&& w.text == curr[w.col][w.row]
            &&& stale(last, curr, force, w.col, w.row)
        }
    &&& forall|c: int, r: int|
        0 <= c < NUM_COLS && 0 <= r < NUM_ROWS && #[trigger] stale(last, curr, force, c, r)
            ==> exists|i: int|
            0 <= i < writes.len() && (#[trigger] writes[i]).col == c && writes[i].row == r
    &&& forall|i: int, j: int|
        0 <= i < j < writes.len() ==> precedes(
            (#[trigger] writes[i]).col,
            writes[i].row,
            (#[trigger] writes[j]).col,
            writes[j].row,
        )
}

/// The instructions that turn a terminal showing `last` into one showing
/// `curr`. A cell whose content did not change is skipped, unless `force`
/// asks for every cell.
pub fn diff(last: &Frame, curr: &Frame, force: bool) -> (writes: Vec<CellWrite>)
    requires
        is_grid(cells(*last)),
        is_grid(cells(*curr)),
    ensures
        is_update(plan(writes@), cells(*last), cells(*curr), force),
{
    let ghost old_grid = cells(*last);
    let ghost new_grid = cells(*curr);
    let mut writes: Vec<CellWrite> = Vec::new();
    let mut c: usize = 0;
    while c < NUM_COLS
        invariant
            c <= NUM_COLS,
            old_grid == cells(*last),
            new_grid == cells(*curr),
            is_grid(old_grid),
            is_grid(new_grid),
            covers(plan(writes@), old_grid, new_grid, force, c as int, 0),
        decreases NUM_COLS - c,
    {
        let mut r: usize = 0;
        while r < NUM_ROWS
            invariant
                c < NUM_COLS,
                r <= NUM_ROWS,
                old_grid == cells(*last),
                new_grid == cells(*curr),
                is_grid(old_grid),
                is_grid(new_grid),
                covers(plan(writes@), old_grid, new_grid, force, c as int, r as int),
            decreases NUM_ROWS - r,
        {
            assert(old_grid[c as int].len() == NUM_ROWS);
            assert(new_grid[c as int].len() == NUM_ROWS);
            let glyph = curr[c][r];
            let ghost before = plan(writes@);
            assert(old_grid[c as int][r as int] == last@[c as int]@[r as int]@);
            assert(new_grid[c as int][r as int] == glyph@);
            if force || !same_text(last[c][r], glyph) {
                let w = CellWrite { col: c, row: r, glyph };
                writes.push(w);
                proof {
                    assert(plan(writes@) =~= before.push(w@));
                    lemma_covers_push(before, old_grid, new_grid, force, c as int, r as int);
                }
            } else {
                proof {
                    lemma_covers_skip(before, old_grid, new_grid, force, c as int, r as int);
                }
            }
            r += 1;
        }
        proof {
            lemma_covers_wrap(plan(writes@), old_grid, new_grid, force, c as int);
        }
        c += 1;
    }
    writes
}

/// After the instruction for a stale cell, the plan covers the next cell too.
proof fn lemma_covers_push(writes: Seq<Write>, last: Grid, curr: Grid, force: bool, c: int, r: int)
    requires
        covers(writes, last, curr, force, c, r),
        0 <= c < NUM_COLS,
        0 <= r < NUM_ROWS,
        stale(last, curr, force, c, r),
    ensures
        covers(
            writes.push(Write { col: c, row: r, text: curr[c][r] }),
            last,
            curr,
            force,
            c,
            r + 1,
        ),
{
    let w = Write { col: c, row: r, text: curr[c][r] };
    let next = writes.push(w);
    assert forall|x: int, y: int|
        0 <= x < NUM_COLS && 0 <= y < NUM_ROWS && precedes(x, y, c, r + 1) && #[trigger] stale(
            last,
            curr,
            force,
            x,
            y,
        ) implies exists|i: int|
        0 <= i < next.len() && (#[trigger] next[i]).col == x && next[i].row == y by {
        if precedes(x, y, c, r) {
            let i = choose|i: int|
                0 <= i < writes.len() && (#[trigger] writes[i]).col == x && writes[i].row == y;
            assert(next[i] == writes[i]);
        } else {
            assert(next[writes.len() as int] == w);
        }
    }
    assert forall|i: int, j: int| 0 <= i < j < next.len() implies precedes(
        (#[trigger] next[i]).col,
        next[i].row,
        (#[trigger] next[j]).col,
        next[j].row,
    ) by {
        assert(next[i] == writes[i]);
        if j < writes.len() {
            assert(next[j] == writes[j]);
        }
    }
}

/// A cell that is not stale needs no instruction.
proof fn lemma_covers_skip(writes: Seq<Write>, last: Grid, curr: Grid, force: bool, c: int, r: int)
    requires
        covers(writes, last, curr, force, c, r),
        !stale(last, curr, force, c, r),
    ensures
        covers(writes, last, curr, force, c, r + 1),
{
    assert forall|x: int, y: int|
        0 <= x < NUM_COLS && 0 <= y < NUM_ROWS && precedes(x, y, c, r + 1) && #[trigger] stale(
            last,
            curr,
            force,
            x,
            y,
        ) implies exists|i: int|
        0 <= i < writes.len() && (#[trigger] writes[i]).col == x && writes[i].row == y by {
        assert(precedes(x, y, c, r));
    }
}

/// The end of one column is the start of the next.
proof fn lemma_covers_wrap(writes: Seq<Write>, last: Grid, curr: Grid, force: bool, c: int)
    requires
        covers(writes, last, curr, force, c, NUM_ROWS as int),
    ensures
        covers(writes, last, curr, force, c + 1, 0),
{
    assert forall|x: int, y: int|
        0 <= x < NUM_COLS && 0 <= y < NUM_ROWS && precedes(x, y, c + 1, 0) && #[trigger] stale(
            last,
            curr,
            force,
            x,
            y,
        ) implies exists|i: int|
        0 <= i < writes.len() && (#[trigger] writes[i]).col == x && writes[i].row == y by {
        assert(precedes(x, y, c, NUM_ROWS as int));
    }
}

/// `writes` is the minimal update for the cells that come before (`c`, `r`).
spec fn covers(writes: Seq<Write>, last: Grid, curr: Grid, force: bool, c: int, r: int) -> bool {
    &&& forall|i: int|
        0 <= i < writes.len() ==> {
            let w = #[trigger] writes[i];
            &&& 0 <= w.col < NUM_COLS
            &&& 0 <= w.row < NUM_ROWS
            &&& w.text == curr[w.col][w.row]
            &&& stale(last, curr, force, w.col, w.row)
            &&& precedes(w.col, w.row, c, r)
        }
    &&& forall|x: int, y: int|
        0 <= x < NUM_COLS && 0 <= y < NUM_ROWS && precedes(x, y, c, r) && #[trigger] stale(
            last,
            curr,
            force,
            x,
            y,
        ) ==> exists|i: int|
            0 <= i < writes.len() && (#[trigger] writes[i]).col == x && writes[i].row == y
    &&& forall|i: int, j: int|
        0 <= i < j < writes.len() ==> precedes(
            (#[trigger] writes[i]).col,
            writes[i].row,
            (#[trigger] writes[j]).col,
            writes[j].row,
        )
}

/// Where exactly one cell of the screen is stale, the minimal update is the
/// one instruction that writes it.
pub proof fn lemma_single_change(
    writes: Seq<Write>,
    last: Grid,
    curr: Grid,
    force: bool,
    c: int,
    r: int,
)
    requires
        is_update(writes, last, curr, force),
        0 <= c < NUM_COLS,
        0 <= r < NUM_ROWS,
        forall|x: int, y: int|
            0 <= x < NUM_COLS && 0 <= y < NUM_ROWS ==> (#[trigger] stale(last, curr, force, x, y)
                <==> (x == c && y == r)),
    ensures
        writes == seq![Write { col: c, row: r, text: curr[c][r] }],
{
    assert(stale(last, curr, force, c, r));
    assert forall|j: int| 0 <= j < writes.len() implies (#[trigger] writes[j]) == (Write {
        col: c,
        row: r,
        text: curr[c][r],
    }) by {
        assert(stale(last, curr, force, writes[j].col, writes[j].row));
    }
    if writes.len() >= 2 {
        assert(precedes(writes[0].col, writes[0].row, writes[1].col, writes[1].row));
    }
    assert(writes =~= seq![Write { col: c, row: r, text: curr[c][r] }]);
}

/// Two minimal updates agree on every instruction that the first one has.
proof fn lemma_updates_agree(
    a: Seq<Write>,
    b: Seq<Write>,
    last: Grid,
    curr: Grid,
    force: bool,
    k: int,
)
    requires
        is_update(a, last, curr, force),
        is_update(b, last, curr, force),
        0 <= k < a.len(),
    ensures
        k < b.len(),
        a[k] == b[k],
    decreases k,
{
    assert forall|j: int| 0 <= j < k implies j < b.len() && a[j] == b[j] by {
        lemma_updates_agree(a, b, last, curr, force, j);
    }
    assert(stale(last, curr, force, a[k].col, a[k].row));
    let m = choose|m: int|
        0 <= m < b.len() && (#[trigger] b[m]).col == a[k].col && b[m].row == a[k].row;
    if m < k {
        assert(a[m] == b[m]);
        assert(precedes(a[m].col, a[m].row, a[k].col, a[k].row));
    }
    assert(stale(last, curr, force, b[k].col, b[k].row));
    let n = choose|n: int|
        0 <= n < a.len() && (#[trigger] a[n]).col == b[k].col && a[n].row == b[k].row;
    if n < k {
        assert(a[n] == b[n]);
        assert(precedes(b[n].col, b[n].row, b[k].col, b[k].row));
    }
    if m > k {
        assert(precedes(b[k].col, b[k].row, b[m].col, b[m].row));
    }
    if n > k {
        assert(precedes(a[k].col, a[k].row, a[n].col, a[n].row));
    }
}

/// There is one minimal update and no other: what `diff` promises of its
/// result holds of that result alone.
pub proof fn lemma_update_unique(a: Seq<Write>, b: Seq<Write>, last: Grid, curr: Grid, force: bool)
    requires
        is_update(a, last, curr, force),
        is_update(b, last, curr, force),
    ensures
        a == b,
{
    if a.len() > 0 {
        lemma_updates_agree(a, b, last, curr, force, a.len() - 1);
    }
    if b.len() > 0 {
        lemma_updates_agree(b, a, last, curr, force, b.len() - 1);
    }
    assert forall|k: int| 0 <= k < a.len() implies a[k] == b[k] by {
        lemma_updates_agree(a, b, last, curr, force, k);
    }
    assert(a =~= b);
}

} // verus!
