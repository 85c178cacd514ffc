use invaders::frame::new_frame;
use invaders::invaders::Invaders;
use invaders::frame::Drawable;
use invaders::render::{diff, CellWrite};

#[test]
fn diff_of_single_changed_cell_is_one_write() {
    let last = new_frame();
    let mut curr = new_frame();
    curr[3][5] = "X";
    let writes = diff(&last, &curr, false);
    assert_eq!(writes, vec![CellWrite { col: 3, row: 5, glyph: "X" }]);
}

#[test]
fn diff_of_equal_frames_is_empty() {
    let last = new_frame();
    let curr = new_frame();
    assert!(diff(&last, &curr, false).is_empty());
}

#[test]
fn diff_of_a_frame_with_itself_is_empty() {
    let mut frame = new_frame();
    Invaders::new().draw(&mut frame);
    assert!(diff(&frame, &frame, false).is_empty());
}

#[test]
fn forced_diff_writes_every_cell_in_order() {
    let last = new_frame();
    let mut curr = new_frame();
    curr[3][5] = "X";
    let writes = diff(&last, &curr, true);
    assert_eq!(writes.len(), 800);
    for (k, w) in writes.iter().enumerate() {
        assert_eq!(w.col, k / 20);
        assert_eq!(w.row, k % 20);
        assert_eq!(w.glyph, if k == 3 * 20 + 5 { "X" } else { " " });
    }
}

#[test]
fn forced_diff_of_a_frame_with_itself_writes_every_cell() {
    let frame = new_frame();
    assert_eq!(diff(&frame, &frame, true).len(), 800);
}

#[test]
fn diff_walks_the_columns_from_the_left_and_each_from_the_top() {
    let last = new_frame();
    let mut curr = new_frame();
    curr[7][2] = "c";
    curr[0][19] = "a";
    curr[7][1] = "b";
    curr[39][0] = "d";
    let writes = diff(&last, &curr, false);
    assert_eq!(
        writes,
        vec![
            CellWrite { col: 0, row: 19, glyph: "a" },
            CellWrite { col: 7, row: 1, glyph: "b" },
            CellWrite { col: 7, row: 2, glyph: "c" },
            CellWrite { col: 39, row: 0, glyph: "d" },
        ]
    );
}

#[test]
fn diff_writes_blanks_over_what_went_away() {
    let mut last = new_frame();
    last[10][10] = "x";
    let curr = new_frame();
    assert_eq!(diff(&last, &curr, false), vec![CellWrite { col: 10, row: 10, glyph: " " }]);
}

#[test]
fn diff_skips_cells_with_equal_text() {
    let mut last = new_frame();
    let mut curr = new_frame();
    last[1][1] = "x";
    curr[1][1] = "x";
    last[2][2] = "x";
    curr[2][2] = "+";
    assert_eq!(diff(&last, &curr, false), vec![CellWrite { col: 2, row: 2, glyph: "+" }]);
}

#[test]
fn diff_of_a_moved_swarm_writes_old_and_new_cells() {
    let mut swarm = Invaders::new();
    let mut last = new_frame();
    swarm.draw(&mut last);
    assert!(swarm.update(2_000_001));
    let mut curr = new_frame();
    swarm.draw(&mut curr);
    let writes = diff(&last, &curr, false);
    assert_eq!(writes.len(), 144);
    for w in &writes {
        assert_eq!(w.glyph, curr[w.col][w.row]);
        assert!(last[w.col][w.row] != curr[w.col][w.row]);
    }
}
