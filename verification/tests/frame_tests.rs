use invaders::frame::{is_well_formed, new_frame, put, same_text, Drawable, Frame, Position, BLANK};
use invaders::invaders::{Invaders, INVADER_GLYPH};
use invaders::player::{Player, PLAYER_GLYPH};
use invaders::shot::SHOT_GLYPH;
use invaders::{NUM_COLS, NUM_ROWS};

#[test]
fn playfield_is_forty_by_twenty() {
    assert_eq!(NUM_COLS, 40);
    assert_eq!(NUM_ROWS, 20);
}

#[test]
fn new_frame_has_playfield_dimensions() {
    let frame = new_frame();
    assert_eq!(frame.len(), NUM_COLS);
    for column in &frame {
        assert_eq!(column.len(), NUM_ROWS);
    }
}

#[test]
fn new_frame_is_blank() {
    let frame = new_frame();
    for column in &frame {
        for cell in column {
            assert_eq!(*cell, " ");
        }
    }
    assert_eq!(BLANK, " ");
}

#[test]
fn new_frame_is_well_formed() {
    assert!(is_well_formed(&new_frame()));
}

#[test]
fn frame_with_missing_column_is_not_well_formed() {
    let mut frame = new_frame();
    frame.pop();
    assert!(!is_well_formed(&frame));
}

#[test]
fn frame_with_short_column_is_not_well_formed() {
    let mut frame = new_frame();
    frame[NUM_COLS - 1].pop();
    assert!(!is_well_formed(&frame));
}

#[test]
fn frame_with_long_column_is_not_well_formed() {
    let mut frame = new_frame();
    frame[0].push(" ");
    assert!(!is_well_formed(&frame));
}

#[test]
fn empty_frame_is_not_well_formed() {
    let frame: Frame = Vec::new();
    assert!(!is_well_formed(&frame));
}

#[test]
fn put_writes_one_cell_and_no_other() {
    let mut frame = new_frame();
    put(&mut frame, 3, 5, "X");
    for c in 0..NUM_COLS {
        for r in 0..NUM_ROWS {
            let expected = if c == 3 && r == 5 { "X" } else { " " };
            assert_eq!(frame[c][r], expected);
        }
    }
}

#[test]
fn put_reaches_the_corners() {
    let mut frame = new_frame();
    put(&mut frame, 0, 0, "a");
    put(&mut frame, NUM_COLS - 1, NUM_ROWS - 1, "b");
    assert_eq!(frame[0][0], "a");
    assert_eq!(frame[39][19], "b");
    assert!(is_well_formed(&frame));
}

#[test]
fn same_text_compares_contents() {
    assert!(same_text("x", "x"));
    assert!(same_text("", ""));
    assert!(same_text("abc", "abc"));
    assert!(!same_text("x", "+"));
    assert!(!same_text("x", "xx"));
    assert!(!same_text("", " "));
    assert!(!same_text("abc", "abd"));
}

#[test]
fn same_text_handles_characters_of_several_bytes() {
    assert!(same_text("\u{e9}t\u{e9}", "\u{e9}t\u{e9}"));
    assert!(!same_text("\u{e9}", "e"));
    let owned = String::from("x");
    assert!(same_text(owned.as_str(), "x"));
}

#[test]
fn player_draws_its_glyph_on_its_cell_only() {
    let player = Player::new();
    let mut frame = new_frame();
    player.draw(&mut frame);
    for c in 0..NUM_COLS {
        for r in 0..NUM_ROWS {
            let expected = if c == 20 && r == 19 { "A" } else { " " };
            assert_eq!(frame[c][r], expected);
        }
    }
    assert_eq!(PLAYER_GLYPH, "A");
}

#[test]
fn player_draws_its_projectiles() {
    let mut player = Player::new();
    assert!(player.shoot());
    player.update(100_000);
    let mut frame = new_frame();
    player.draw(&mut frame);
    assert_eq!(frame[20][19], "A");
    assert_eq!(frame[20][17], "|");
    assert_eq!(frame[20][18], " ");
    assert_eq!(SHOT_GLYPH, "|");
}

#[test]
fn fresh_projectile_is_drawn_over_the_player() {
    let mut player = Player::new();
    assert!(player.shoot());
    let mut frame = new_frame();
    player.draw(&mut frame);
    assert_eq!(frame[20][19], "|");
}

#[test]
fn invaders_draw_their_glyph_on_every_invader() {
    let swarm = Invaders::new();
    let spots = swarm.positions();
    let mut frame = new_frame();
    swarm.draw(&mut frame);
    for c in 0..NUM_COLS {
        for r in 0..NUM_ROWS {
            let here = spots.contains(&Position { col: c, row: r });
            assert_eq!(frame[c][r], if here { "x" } else { " " });
        }
    }
    assert_eq!(INVADER_GLYPH, "x");
}

#[test]
fn draw_keeps_what_it_does_not_paint() {
    let mut frame = new_frame();
    put(&mut frame, 0, 0, "#");
    Player::new().draw(&mut frame);
    Invaders::new().draw(&mut frame);
    assert_eq!(frame[0][0], "#");
    assert_eq!(frame[20][19], "A");
    assert_eq!(frame[2][2], "x");
    assert!(is_well_formed(&frame));
}

#[test]
fn drawables_can_be_held_together() {
    let player = Player::new();
    let swarm = Invaders::new();
    let mut frame = new_frame();
    let drawables: Vec<&dyn Drawable> = vec![&player, &swarm];
    for drawable in &drawables {
        drawable.draw(&mut frame);
    }
    let mut count = 0;
    for column in &frame {
        for cell in column {
            if *cell != " " {
                count += 1;
            }
        }
    }
    assert_eq!(count, 73);
}
