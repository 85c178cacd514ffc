//! The frame buffer: one rendered screen as a grid of character cells.

use vstd::prelude::*;
use vstd::string::StrSliceExecFns;
use crate::{NUM_COLS, NUM_ROWS};

verus! {

/// One screen: `NUM_COLS` columns, each holding `NUM_ROWS` cells, top to bottom.
pub type Frame = Vec<Vec<&'static str>>;

/// The mathematical content of a screen: columns of rows of cell texts.
pub type Grid = Seq<Seq<Seq<char>>>;

/// The text of an empty cell.
pub const BLANK: &'static str = " ";

/// What a frame holds, cell by cell.
pub open spec fn cells(frame: Frame) -> Grid {
    Seq::new(frame@.len(), |c: int| Seq::new(frame@[c]@.len(), |r: int| frame@[c]@[r]@))
}

/// A grid has the dimensions of the playfield.
pub open spec fn is_grid(grid: Grid) -> bool {
    &&& grid.len() == NUM_COLS
    &&& forall|c: int| 0 <= c < NUM_COLS ==> (#[trigger] grid[c]).len() == NUM_ROWS
}

/// The grid in which every cell is blank.
pub open spec fn blank_grid() -> Grid {
    Seq::new(NUM_COLS as nat, |c: int| Seq::new(NUM_ROWS as nat, |r: int| BLANK@))
}

/// The grid `grid` with the cell at (`col`, `row`) replaced by `text`.
pub open spec fn with_cell(grid: Grid, col: int, row: int, text: Seq<char>) -> Grid {
    grid.update(col, grid[col].update(row, text))
}

/// A position on the screen.
#[derive(Clone, Copy, Debug, PartialEq, Eq, Structural)]
pub struct Position {
    pub col: usize,
    pub row: usize,
}

/// A position as a pair of mathematical integers.
pub struct Point {
    pub col: int,
    pub row: int,
}

impl View for Position {
    type V = Point;

    open spec fn view(&self) -> Point {
        Point { col: self.col as int, row: self.row as int }
    }
}

impl Point {
    /// The point lies inside the playfield.
    pub open spec fn on_screen(self) -> bool {
        0 <= self.col < NUM_COLS && 0 <= self.row < NUM_ROWS
    }
}

/// The grid `grid` with `text` on every cell on which one of `spots` stands.
pub open spec fn stamped(grid: Grid, spots: Seq<Point>, text: Seq<char>) -> Grid {
    Seq::new(
        grid.len(),
        |c: int|
            Seq::new(
                grid[c].len(),
                |r: int|
                    if spots.contains(Point { col: c, row: r }) {
                        text
                    } else {
                        grid[c][r]
                    },
            ),
    )
}

/// Stamping one more spot is writing one more cell.
pub proof fn lemma_stamp_push(grid: Grid, spots: Seq<Point>, p: Point, text: Seq<char>)
    requires
        is_grid(grid),
        p.on_screen(),
    ensures
        with_cell(stamped(grid, spots, text), p.col, p.row, text) == stamped(
            grid,
            spots.push(p),
            text,
        ),
{
    let a = with_cell(stamped(grid, spots, text), p.col, p.row, text);
    let b = stamped(grid, spots.push(p), text);
    assert forall|c: int, r: int| 0 <= c < NUM_COLS && 0 <= r < NUM_ROWS implies a[c][r]
        == b[c][r] by {
        let q = Point { col: c, row: r };
        if q == p {
            assert(spots.push(p)[spots.len() as int] == q);
        } else if spots.contains(q) {
            let i = choose|i: int| 0 <= i < spots.len() && spots[i] == q;
            assert(spots.push(p)[i] == q);
        } else {
            assert(!spots.push(p).contains(q));
        }
    }
    assert(a =~~= b);
}

/// A fresh screen of the playfield's dimensions with every cell blank.
pub fn new_frame() -> (frame: Frame)
    ensures
        cells(frame) == blank_grid(),
        is_grid(cells(frame)),
{
    let mut frame: Frame = Vec::new();
    let mut c: usize = 0;
    while c < NUM_COLS
        invariant
            c <= NUM_COLS,
            frame@.len() == c,
            forall|i: int| 0 <= i < c ==> (#[trigger] frame@[i])@.len() == NUM_ROWS,
            forall|i: int, j: int|
                0 <= i < c && 0 <= j < NUM_ROWS ==> (#[trigger] frame@[i]@[j])@ == BLANK@,
        decreases NUM_COLS - c,
    {
        let mut column: Vec<&'static str> = Vec::new();
        let mut r: usize = 0;
        while r < NUM_ROWS
            invariant
                r <= NUM_ROWS,
                column@.len() == r,
                forall|j: int| 0 <= j < r ==> (#[trigger] column@[j])@ == BLANK@,
            decreases NUM_ROWS - r,
        {
            column.push(BLANK);
            r += 1;
        }
        frame.push(column);
        c += 1;
    }
    assert(cells(frame) =~~= blank_grid());
    frame
}

/// Whether a frame has the dimensions of the playfield.
pub fn is_well_formed(frame: &Frame) -> (ok: bool)
    ensures
        ok == is_grid(cells(*frame)),
{
    if frame.len() != NUM_COLS {
        return false;
    }
    let mut c: usize = 0;
    while c < NUM_COLS
        invariant
            c <= NUM_COLS,
            frame@.len() == NUM_COLS,
            forall|i: int| 0 <= i < c ==> (#[trigger] cells(*frame)[i]).len() == NUM_ROWS,
        decreases NUM_COLS - c,
    {
        if frame[c].len() != NUM_ROWS {
            assert(cells(*frame)[c as int].len() != NUM_ROWS);
            return false;
        }
        c += 1;
    }
    true
}

/// Writes `glyph` into the cell at (`col`, `row`).
pub fn put(frame: &mut Frame, col: usize, row: usize, glyph: &'static str)
    requires
        is_grid(cells(*old(frame))),
        col < NUM_COLS,
        row < NUM_ROWS,
    ensures
        cells(*final(frame)) == with_cell(cells(*old(frame)), col as int, row as int, glyph@),
        is_grid(cells(*final(frame))),
{
    assert(cells(*frame)[col as int].len() == NUM_ROWS);
    frame[col][row] = glyph;
    assert(cells(*frame) =~~= with_cell(cells(*old(frame)), col as int, row as int, glyph@));
}

/// Whether two cell texts are the same sequence of characters.
pub fn same_text(a: &str, b: &str) -> (same: bool)
    ensures
        same == (a@ == b@),
{
    let n = a.unicode_len();
    if n != b.unicode_len() {
        return false;
    }
    let mut i: usize = 0;
    while i < n
        invariant
            i <= n,
            n == a@.len(),
            n == b@.len(),
            forall|k: int| 0 <= k < i ==> a@[k] == b@[k],
        decreases n - i,
    {
        if a.get_char(i) != b.get_char(i) {
            return false;
        }
        i += 1;
    }
    assert(a@ =~= b@);
    true
}

/// Anything that can paint itself onto a frame.
pub trait Drawable {
    /// Everything to be painted lies inside the playfield.
    spec fn fits(&self) -> bool;

    /// The grid that painting onto `grid` leaves behind.
    spec fn painted(&self, grid: Grid) -> Grid;

    /// Paints onto `frame`; nothing but the frame changes.
    fn draw(&self, frame: &mut Frame)
        requires
            self.fits(),
            is_grid(cells(*old(frame))),
        ensures
            cells(*final(frame)) == self.painted(cells(*old(frame))),
            is_grid(cells(*final(frame))),
    ;
}

} // verus!
